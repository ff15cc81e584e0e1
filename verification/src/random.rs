//! Reading values from random bytes, and drawing random field elements.
use crate::felt::{order, Felt, FELT_ORDER};
use crate::word::Word;
use vstd::prelude::*;

verus! {

/// `256^n`: the number of values `n` bytes can hold.
pub open spec fn byte_base(n: nat) -> nat
    decreases n,
{
    if n == 0 {
        1
    } else {
        256 * byte_base((n - 1) as nat)
    }
}

/// The unsigned integer whose little-endian encoding is `bytes`.
pub open spec fn le_value(bytes: Seq<u8>) -> nat
    decreases bytes.len(),
{
    if bytes.len() == 0 {
        0
    } else {
        bytes[0] as nat + 256 * le_value(bytes.drop_first())
    }
}

proof fn lemma_le_value_bound(bytes: Seq<u8>)
    ensures
        le_value(bytes) < byte_base(bytes.len()),
    decreases bytes.len(),
{
    if bytes.len() > 0 {
        lemma_le_value_bound(bytes.drop_first());
        let rest = le_value(bytes.drop_first());
        let base = byte_base((bytes.len() - 1) as nat);
        assert(bytes[0] as nat + 256 * rest < 256 * base) by (nonlinear_arith)
            requires
                rest < base,
                bytes[0] < 256,
        ;
    }
}

proof fn lemma_byte_bases()
    ensures
        byte_base(1) == 0x100,
        byte_base(2) == 0x1_0000,
        byte_base(4) == 0x1_0000_0000,
        byte_base(8) == 0x1_0000_0000_0000_0000,
        byte_base(16) == 0x1_0000_0000_0000_0000_0000_0000_0000_0000,
{
    reveal_with_fuel(byte_base, 17);
}

/// Decodes the `n` bytes of `source` that start at `start`, least significant first.
fn read_le(source: &[u8], start: usize, n: usize) -> (r: u128)
    requires
        n <= 16,
        start + n <= source@.len(),
    ensures
        r as nat == le_value(source@.subrange(start as int, start + n)),
{
    proof {
        lemma_byte_bases();
    }
    let len = source.len();
    let mut value: u128 = 0;
    let mut i: usize = n;
    while i > 0
        invariant
            len == source@.len(),
            n <= 16,
            start + n <= source@.len(),
            i <= n,
            value as nat == le_value(source@.subrange(start + i, start + n)),
            byte_base(16) == 0x1_0000_0000_0000_0000_0000_0000_0000_0000,
        decreases i,
    {
        let ghost tail = source@.subrange(start + i, start + n);
        let ghost longer = source@.subrange(start + i - 1, start + n);
        proof {
            assert(longer.drop_first() =~= tail);
            lemma_le_value_bound(longer);
            lemma_base_monotone(longer.len(), 16);
        }
        i -= 1;
        value = (source[start + i] as u128) + 256 * value;
    }
    value
}

proof fn lemma_base_monotone(a: nat, b: nat)
    requires
        a <= b,
    ensures
        byte_base(a) <= byte_base(b),
    decreases b,
{
    if a < b {
        lemma_base_monotone(a, (b - 1) as nat);
    }
}

/// How a value of `Self` is read from a sequence of random bytes.
pub trait Randomizable: Sized {
    /// Size of `Self` in bytes: how many bytes `from_random_bytes` reads.
    const VALUE_SIZE: usize;

    /// Whether `from_random_bytes` is defined on a source of `len` bytes.
    spec fn accepts_len(len: nat) -> bool;

    /// The value read from `source`, or `None` where the bytes form no valid value.
    spec fn random_value_spec(source: Seq<u8>) -> Option<Self>;

    /// Returns `Self` if the bytes form a valid value, otherwise `None`.
    fn from_random_bytes(source: &[u8]) -> (r: Option<Self>)
        requires
            Self::accepts_len(source@.len()),
        ensures
            r == Self::random_value_spec(source@),
    ;
}

impl Randomizable for u128 {
    const VALUE_SIZE: usize = 16;

    open spec fn accepts_len(len: nat) -> bool {
        len >= 16
    }

    open spec fn random_value_spec(source: Seq<u8>) -> Option<u128> {
        Some(le_value(source.subrange(0, 16)) as u128)
    }

    fn from_random_bytes(source: &[u8]) -> (r: Option<u128>) {
        Some(read_le(source, 0, 16))
    }
}

impl Randomizable for u64 {
    const VALUE_SIZE: usize = 8;

    open spec fn accepts_len(len: nat) -> bool {
        len >= 8
    }

    open spec fn random_value_spec(source: Seq<u8>) -> Option<u64> {
        Some(le_value(source.subrange(0, 8)) as u64)
    }

    fn from_random_bytes(source: &[u8]) -> (r: Option<u64>) {
        proof {
            lemma_byte_bases();
            lemma_le_value_bound(source@.subrange(0, 8));
        }
        Some(read_le(source, 0, 8) as u64)
    }
}

impl Randomizable for u32 {
    const VALUE_SIZE: usize = 4;

    open spec fn accepts_len(len: nat) -> bool {
        len >= 4
    }

    open spec fn random_value_spec(source: Seq<u8>) -> Option<u32> {
        Some(le_value(source.subrange(0, 4)) as u32)
    }

    fn from_random_bytes(source: &[u8]) -> (r: Option<u32>) {
        proof {
            lemma_byte_bases();
            lemma_le_value_bound(source@.subrange(0, 4));
        }
        Some(read_le(source, 0, 4) as u32)
    }
}

impl Randomizable for u16 {
    const VALUE_SIZE: usize = 2;

    open spec fn accepts_len(len: nat) -> bool {
        len >= 2
    }

    open spec fn random_value_spec(source: Seq<u8>) -> Option<u16> {
        Some(le_value(source.subrange(0, 2)) as u16)
    }

    fn from_random_bytes(source: &[u8]) -> (r: Option<u16>) {
        proof {
            lemma_byte_bases();
            lemma_le_value_bound(source@.subrange(0, 2));
        }
        Some(read_le(source, 0, 2) as u16)
    }
}

impl Randomizable for u8 {
    const VALUE_SIZE: usize = 1;

    open spec fn accepts_len(len: nat) -> bool {
        len >= 1
    }

    open spec fn random_value_spec(source: Seq<u8>) -> Option<u8> {
        Some(source[0])
    }

    fn from_random_bytes(source: &[u8]) -> (r: Option<u8>) {
        Some(source[0])
    }
}

impl Randomizable for Felt {
    const VALUE_SIZE: usize = 8;

    open spec fn accepts_len(len: nat) -> bool {
        len >= 8
    }

    /// The first eight bytes, little-endian, when they are below the field order.
    open spec fn random_value_spec(source: Seq<u8>) -> Option<Felt> {
        let v = le_value(source.subrange(0, 8));
        if v < order() {
            Some(Felt { value: v as u64 })
        } else {
            None
        }
    }

    fn from_random_bytes(source: &[u8]) -> (r: Option<Felt>) {
        proof {
            lemma_byte_bases();
            lemma_le_value_bound(source@.subrange(0, 8));
        }
        let value = read_le(source, 0, 8) as u64;
        if value < FELT_ORDER {
            Some(Felt::new(value))
        } else {
            None
        }
    }
}

/// The `i`-th group of eight bytes of `bytes`, read little-endian.
pub open spec fn le_chunk(bytes: Seq<u8>, i: int) -> nat {
    le_value(bytes.subrange(8 * i, 8 * i + 8))
}

impl Randomizable for Word {
    const VALUE_SIZE: usize = 32;

    open spec fn accepts_len(len: nat) -> bool {
        true
    }

    /// Exactly 32 bytes, read as four little-endian elements, each below the field order.
    open spec fn random_value_spec(source: Seq<u8>) -> Option<Word> {
        if source.len() == 32 && le_chunk(source, 0) < order() && le_chunk(source, 1) < order()
            && le_chunk(source, 2) < order() && le_chunk(source, 3) < order() {
            Some(
                Word(
                    le_chunk(source, 0) as u64,
                    le_chunk(source, 1) as u64,
                    le_chunk(source, 2) as u64,
                    le_chunk(source, 3) as u64,
                ),
            )
        } else {
            None
        }
    }

    fn from_random_bytes(source: &[u8]) -> (r: Option<Word>) {
        if source.len() != 32 {
            return None;
        }
        let a = read_le(source, 0, 8);
        let b = read_le(source, 8, 8);
        let c = read_le(source, 16, 8);
        let d = read_le(source, 24, 8);
        if a < FELT_ORDER as u128 && b < FELT_ORDER as u128 && c < FELT_ORDER as u128 && d
            < FELT_ORDER as u128 {
            Some(Word(a as u64, b as u64, c as u64, d as u64))
        } else {
            None
        }
    }
}

impl<const N: usize> Randomizable for [u8; N] {
    const VALUE_SIZE: usize = N;

    open spec fn accepts_len(len: nat) -> bool {
        len == N
    }

    /// The bytes themselves, as an array.
    open spec fn random_value_spec(source: Seq<u8>) -> Option<[u8; N]> {
        Some(choose|a: [u8; N]| a@ == source)
    }

    fn from_random_bytes(source: &[u8]) -> (r: Option<[u8; N]>) {
        let mut result: [u8; N] = [0u8; N];
        let mut i: usize = 0;
        while i < N
            invariant
                source@.len() == N,
                i <= N,
                result@.len() == N,
                forall|j: int| 0 <= j < i ==> result@[j] == source@[j],
            decreases N - i,
        {
            result[i] = source[i];
            i += 1;
        }
        proof {
            assert(result@ =~= source@);
            let chosen = choose|a: [u8; N]| a@ == source@;
            assert(chosen@ == source@);
            assert(chosen =~= result);
        }
        Some(result)
    }
}

/// `rand::random::<u64>()`: a `u64` drawn from the thread-local generator. Its value rests on
/// chance, so nothing is stated of it.
#[verifier::external_body]
fn random_u64() -> (r: u64) {
    rand::random::<u64>()
}

/// Generates a random field element from a random `u64`, reduced modulo the field order.
pub fn random_felt() -> (r: Felt) {
    Felt::new(random_u64())
}

/// The word four drawn `u64`s give: each taken as a field element, in canonical form.
pub fn word_from_draws(a: u64, b: u64, c: u64, d: u64) -> (r: Word)
    ensures
        r == Word(
            ((a as nat) % order()) as u64,
            ((b as nat) % order()) as u64,
            ((c as nat) % order()) as u64,
            ((d as nat) % order()) as u64,
        ),
{
    Word::from_felts(Felt::new(a), Felt::new(b), Felt::new(c), Felt::new(d))
}

/// Generates a random word of four field elements.
pub fn random_word() -> (r: Word)
    ensures
        r.is_canonical(),
{
    let a = random_u64();
    let b = random_u64();
    let c = random_u64();
    let d = random_u64();
    word_from_draws(a, b, c, d)
}

} // verus!
