//! Fixed-size digests of binary hash functions, and their hexadecimal form: `0x` followed by two
//! lowercase hexadecimal digits per byte.
use vstd::prelude::*;
use vstd::string::StringSliceAdditionalSpecFns;

verus! {

/// Size of a 192-bit digest in bytes.
pub const DIGEST192_BYTES: usize = 24;

/// Size of a 256-bit digest in bytes.
pub const DIGEST256_BYTES: usize = 32;

/// Size of a 512-bit digest in bytes.
pub const DIGEST512_BYTES: usize = 64;

/// A 192-bit (24-byte) digest.
pub type Digest192 = Digest<DIGEST192_BYTES>;

/// A 256-bit (32-byte) digest.
pub type Digest256 = Digest<DIGEST256_BYTES>;

/// A 512-bit (64-byte) digest.
pub type Digest512 = Digest<DIGEST512_BYTES>;

// HEXADECIMAL
// ================================================================================================

/// Errors of parsing hexadecimal text.
#[derive(Debug, Clone, Copy, PartialEq, Eq, Structural)]
pub enum HexParseError {
    /// The text does not have the expected length: two digits per byte and the prefix.
    InvalidLength { expected: usize, actual: usize },
    /// The text does not start with `0x`.
    MissingPrefix,
    /// The text holds a character that is not a hexadecimal digit.
    InvalidChar,
}

/// The lowercase hexadecimal digit of a value below sixteen, as an ASCII byte.
pub open spec fn hex_digit(v: u8) -> u8 {
    if v < 10 {
        (48 + v) as u8
    } else {
        (87 + v) as u8
    }
}

/// The value of a hexadecimal digit (either case) given as an ASCII byte, if it is one.
pub open spec fn hex_value(c: u8) -> Option<u8> {
    if 48 <= c <= 57 {
        Some((c - 48) as u8)
    } else if 97 <= c <= 102 {
        Some((c - 87) as u8)
    } else if 65 <= c <= 70 {
        Some((c - 55) as u8)
    } else {
        None
    }
}

/// The hexadecimal text of the bytes, as ASCII bytes: `0x`, then the high and low digit of each
/// byte.
pub open spec fn hex_encode(data: Seq<u8>) -> Seq<u8> {
    seq![48u8, 120u8] + Seq::new(2 * data.len(), |i: int| if i % 2 == 0 {
        hex_digit(data[i / 2] / 16)
    } else {
        hex_digit(data[i / 2] % 16)
    })
}

/// The byte made of the digits at positions `2 + 2 * i` and `3 + 2 * i` of `text`.
pub open spec fn pair_value(text: Seq<u8>, i: int) -> Option<u8> {
    match (hex_value(text[2 + 2 * i]), hex_value(text[3 + 2 * i])) {
        (Some(high), Some(low)) => Some((high * 16 + low) as u8),
        _ => None,
    }
}

/// Decoding `text` into `n` bytes: the length must be `2 * n + 2`, the prefix `0x`, and every
/// other character a hexadecimal digit of either case.
pub open spec fn hex_decode(text: Seq<u8>, n: nat) -> Result<Seq<u8>, HexParseError> {
    if text.len() != 2 * n + 2 {
        Err(HexParseError::InvalidLength { expected: (2 * n + 2) as usize, actual: text.len() as usize })
    } else if text[0] != 48 || text[1] != 120 {
        Err(HexParseError::MissingPrefix)
    } else if exists|i: int| 2 <= i < text.len() && hex_value(text[i]) is None {
        Err(HexParseError::InvalidChar)
    } else {
        Ok(Seq::new(n, |i: int| pair_value(text, i)->Some_0))
    }
}

/// Returns the hexadecimal digit of a value below sixteen.
fn digit_of(v: u8) -> (r: u8)
    requires
        v < 16,
    ensures
        r == hex_digit(v),
{
    if v < 10 {
        48 + v
    } else {
        87 + v
    }
}

/// Returns the value of a hexadecimal digit, if the byte is one.
fn value_of(c: u8) -> (r: Option<u8>)
    ensures
        r == hex_value(c),
{
    if 48 <= c && c <= 57 {
        Some(c - 48)
    } else if 97 <= c && c <= 102 {
        Some(c - 87)
    } else if 65 <= c && c <= 70 {
        Some(c - 55)
    } else {
        None
    }
}

/// Returns the hexadecimal text of the bytes, as ASCII bytes.
pub fn bytes_to_hex(data: &[u8]) -> (r: Vec<u8>)
    requires
        2 * data@.len() + 2 <= usize::MAX,
    ensures
        r@ == hex_encode(data@),
{
    let mut out: Vec<u8> = Vec::new();
    out.push(48u8);
    out.push(120u8);
    let n = data.len();
    let mut i: usize = 0;
    while i < n
        invariant
            n == data@.len(),
            i <= n,
            out@ == hex_encode(data@).take(2 + 2 * i),
        decreases n - i,
    {
        let b = data[i];
        out.push(digit_of(b / 16));
        out.push(digit_of(b % 16));
        proof {
            let e = hex_encode(data@);
            assert(out@ =~= e.take(2 + 2 * (i + 1))) by {
                assert forall|k: int| 0 <= k < 2 + 2 * (i + 1) implies out@[k] == e[k] by {
                    if k >= 2 + 2 * i {
                        let j = k - 2;
                        assert(j / 2 == i);
                    }
                }
            }
        }
        i += 1;
    }
    proof {
        assert(hex_encode(data@).take(2 + 2 * n) =~= hex_encode(data@));
    }
    out
}

/// Decodes hexadecimal text (`0x` and two digits of either case per byte) into `N` bytes.
pub fn hex_to_bytes<const N: usize>(text: &[u8]) -> (r: Result<[u8; N], HexParseError>)
    requires
        2 * N + 2 <= usize::MAX,
    ensures
        match (r, hex_decode(text@, N as nat)) {
            (Ok(a), Ok(s)) => a@ == s,
            (Err(e), Err(se)) => e == se,
            _ => false,
        },
{
    let expected = 2 * N + 2;
    if text.len() != expected {
        return Err(HexParseError::InvalidLength { expected, actual: text.len() });
    }
    if text[0] != 48 || text[1] != 120 {
        return Err(HexParseError::MissingPrefix);
    }
    let mut k: usize = 2;
    while k < expected
        invariant
            expected == 2 * N + 2,
            text@.len() == expected,
            2 <= k <= expected,
            text@[0] == 48 && text@[1] == 120,
            forall|j: int| 2 <= j < k ==> hex_value(text@[j]) is Some,
        decreases expected - k,
    {
        if value_of(text[k]).is_none() {
            proof {
                assert(hex_value(text@[k as int]) is None);
            }
            return Err(HexParseError::InvalidChar);
        }
        k += 1;
    }
    let mut out: [u8; N] = [0u8; N];
    let mut i: usize = 0;
    while i < N
        invariant
            expected == 2 * N + 2,
            text@.len() == expected,
            forall|j: int| 2 <= j < expected ==> hex_value(text@[j]) is Some,
            i <= N,
            out@.len() == N,
            forall|j: int| 0 <= j < i ==> out@[j] == pair_value(text@, j)->Some_0,
        decreases N - i,
    {
        let high = value_of(text[2 + 2 * i]).unwrap();
        let low = value_of(text[3 + 2 * i]).unwrap();
        proof {
            assert(high < 16 && low < 16);
        }
        out[i] = high * 16 + low;
        i += 1;
    }
    proof {
        assert(out@ =~= Seq::new(N as nat, |j: int| pair_value(text@, j)->Some_0));
    }
    Ok(out)
}

/// Returns the string of ASCII bytes.
#[verifier::external_body]
fn string_from_ascii(bytes: Vec<u8>) -> (r: String)
    requires
        forall|i: int| 0 <= i < bytes@.len() ==> bytes@[i] < 128,
    ensures
        r@ == bytes@.map_values(|b: u8| b as char),
{
    match String::from_utf8(bytes) {
        Ok(s) => s,
        Err(_) => String::new(),
    }
}

// DIGEST
// ================================================================================================

/// A fixed-size digest of `N` bytes of a binary hash function.
#[derive(Debug, Clone, Copy)]
pub struct Digest<const N: usize>(pub [u8; N]);

impl<const N: usize> Digest<N> {
    /// Creates a digest from its bytes.
    pub fn new(bytes: [u8; N]) -> (r: Self)
        ensures
            r.0 == bytes,
    {
        Digest(bytes)
    }

    /// Returns the bytes of the digest.
    pub fn as_bytes(&self) -> (r: &[u8; N])
        ensures
            *r == self.0,
    {
        &self.0
    }

    /// Returns the bytes of the digests one after the other.
    pub fn digests_as_bytes(digests: &[Digest<N>]) -> (r: Vec<u8>)
        ensures
            r@.len() == digests@.len() * N,
            forall|i: int, j: int| 0 <= i < digests@.len() && 0 <= j < N ==> r@[i * N + j] == #[trigger] digests@[i].0@[j],
    {
        let mut out: Vec<u8> = Vec::new();
        let n = digests.len();
        let mut i: usize = 0;
        while i < n
            invariant
                n == digests@.len(),
                i <= n,
                out@.len() == i * N,
                forall|a: int, b: int| 0 <= a < i && 0 <= b < N ==> out@[a * N + b] == #[trigger] digests@[a].0@[b],
            decreases n - i,
        {
            let d = digests[i].0;
            let ghost base = out@;
            let mut k: usize = 0;
            while k < N
                invariant
                    k <= N,
                    out@.len() == i * N + k,
                    out@.take(i * N) == base.take(i * N),
                    base.len() == i * N,
                    d == digests@[i as int].0,
                    forall|b: int| 0 <= b < k ==> out@[i * N + b] == d@[b],
                decreases N - k,
            {
                out.push(d[k]);
                k += 1;
            }
            proof {
                assert forall|a: int, b: int| 0 <= a < i + 1 && 0 <= b < N implies out@[a * N + b] == #[trigger] digests@[a].0@[b] by {
                    if a < i {
                        vstd::arithmetic::mul::lemma_mul_is_distributive_add_other_way(N as int, a, 1);
                        vstd::arithmetic::mul::lemma_mul_inequality(a + 1, i as int, N as int);
                        assert(a * N + b < i * N);
                        assert(out@[a * N + b] == out@.take(i * N)[a * N + b]);
                        assert(base[a * N + b] == base.take(i * N)[a * N + b]);
                    }
                }
                vstd::arithmetic::mul::lemma_mul_is_distributive_add_other_way(N as int, i as int, 1);
            }
            i += 1;
        }
        out
    }

    /// Returns the hexadecimal text of the digest: `0x`, then two lowercase digits per byte.
    pub fn to_hex_string(&self) -> (r: String)
        requires
            2 * N + 2 <= usize::MAX,
        ensures
            r@ == hex_encode(self.0@).map_values(|b: u8| b as char),
    {
        let hex = bytes_to_hex(self.0.as_slice());
        proof {
            assert forall|i: int| 0 <= i < hex@.len() implies hex@[i] < 128 by {
                if i >= 2 {
                    let b = self.0@[(i - 2) / 2];
                    assert(b / 16 < 16 && b % 16 < 16);
                }
            }
        }
        string_from_ascii(hex)
    }

    /// Parses hexadecimal text (`0x` and two digits of either case per byte) into a digest.
    pub fn from_hex_str(text: &str) -> (r: Result<Self, HexParseError>)
        requires
            2 * N + 2 <= usize::MAX,
        ensures
            match (r, hex_decode(text.spec_bytes(), N as nat)) {
                (Ok(d), Ok(s)) => d.0@ == s,
                (Err(e), Err(se)) => e == se,
                _ => false,
            },
    {
        match hex_to_bytes::<N>(text.as_bytes()) {
            Ok(bytes) => Ok(Digest(bytes)),
            Err(e) => Err(e),
        }
    }
}

impl<const N: usize> Default for Digest<N> {
    fn default() -> (r: Self)
        ensures
            forall|i: int| 0 <= i < N ==> r.0@[i] == 0,
    {
        Digest([0u8; N])
    }
}

impl<const N: usize> From<[u8; N]> for Digest<N> {
    fn from(value: [u8; N]) -> (r: Self) {
        Digest(value)
    }
}

impl<const N: usize> vstd::std_specs::convert::FromSpecImpl<[u8; N]> for Digest<N> {
    open spec fn obeys_from_spec() -> bool {
        true
    }

    open spec fn from_spec(v: [u8; N]) -> Self {
        Digest(v)
    }
}

impl<const N: usize> From<Digest<N>> for [u8; N] {
    fn from(value: Digest<N>) -> (r: [u8; N]) {
        value.0
    }
}

impl<const N: usize> vstd::std_specs::convert::FromSpecImpl<Digest<N>> for [u8; N] {
    open spec fn obeys_from_spec() -> bool {
        true
    }

    open spec fn from_spec(v: Digest<N>) -> [u8; N] {
        v.0
    }
}

/// The digest of `N` bytes that decoding `text` gives, or the error; beyond the lengths a
/// `usize` can count, the length is refused.
pub open spec fn digest_from_text<const N: usize>(text: Seq<u8>) -> Result<Digest<N>, HexParseError> {
    if N > (usize::MAX - 2) / 2 {
        Err(HexParseError::InvalidLength { expected: usize::MAX, actual: text.len() as usize })
    } else {
        match hex_decode(text, N as nat) {
            Ok(bytes) => Ok(Digest(choose|a: [u8; N]| a@ == bytes)),
            Err(e) => Err(e),
        }
    }
}

impl<'a, const N: usize> TryFrom<&'a str> for Digest<N> {
    type Error = HexParseError;

    fn try_from(value: &'a str) -> (r: Result<Self, HexParseError>) {
        if N > (usize::MAX - 2) / 2 {
            return Err(HexParseError::InvalidLength { expected: usize::MAX, actual: value.len() });
        }
        let r = Self::from_hex_str(value);
        proof {
            if let Ok(d) = r {
                let bytes = hex_decode(value.spec_bytes(), N as nat)->Ok_0;
                let c = choose|a: [u8; N]| a@ == bytes;
                assert(d.0@ == bytes);
                assert(c@ == bytes);
                assert(c == d.0);
            }
        }
        r
    }
}

impl<'a, const N: usize> vstd::std_specs::convert::TryFromSpecImpl<&'a str> for Digest<N> {
    open spec fn obeys_try_from_spec() -> bool {
        true
    }

    open spec fn try_from_spec(v: &'a str) -> Result<Self, HexParseError> {
        digest_from_text::<N>(v.spec_bytes())
    }
}

impl<const N: usize> From<Digest<N>> for String {
    fn from(value: Digest<N>) -> (r: String) {
        if N > (usize::MAX - 2) / 2 {
            return String::new();
        }
        value.to_hex_string()
    }
}

impl<const N: usize> vstd::std_specs::convert::FromSpecImpl<Digest<N>> for String {
    open spec fn obeys_from_spec() -> bool {
        false
    }

    open spec fn from_spec(v: Digest<N>) -> String {
        choose|s: String| s@ == hex_encode(v.0@).map_values(|b: u8| b as char)
    }
}

// LAWS
// ================================================================================================

/// Decoding the hexadecimal text of bytes gives the bytes back.
pub proof fn law_hex_roundtrip(data: Seq<u8>)
    ensures
        hex_decode(hex_encode(data), data.len()) == Ok::<Seq<u8>, HexParseError>(data),
{
    let text = hex_encode(data);
    assert(text.len() == 2 * data.len() + 2);
    assert forall|i: int| 2 <= i < text.len() implies hex_value(text[i]) is Some by {
        let b = data[(i - 2) / 2];
        assert(b / 16 < 16 && b % 16 < 16);
    }
    assert forall|j: int| 0 <= j < data.len() implies pair_value(text, j) == Some(data[j]) by {
        let b = data[j];
        assert((2 + 2 * j - 2) / 2 == j);
        assert((3 + 2 * j - 2) / 2 == j);
        assert(text[2 + 2 * j] == hex_digit(b / 16));
        assert(text[3 + 2 * j] == hex_digit(b % 16));
        assert(b == (b / 16) * 16 + b % 16);
    }
    assert(Seq::new(data.len(), |i: int| pair_value(text, i)->Some_0) =~= data);
}

} // verus!
