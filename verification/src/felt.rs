//! Base field elements of the Goldilocks field `p = 2^64 - 2^32 + 1`.
//!
//! A [`Felt`] stores a `u64` that may exceed the field order; the element it denotes is the
//! value reduced modulo `p`. All arithmetic is delegated to `p3_goldilocks`.
use p3_field::{Field, PrimeCharacteristicRing, PrimeField64};
use p3_goldilocks::Goldilocks;
use vstd::arithmetic::div_mod::*;
use vstd::arithmetic::mul::*;
use vstd::arithmetic::power::pow;
use vstd::prelude::*;

verus! {

/// The order of the Goldilocks field, `2^64 - 2^32 + 1`.
pub const FELT_ORDER: u64 = 18446744069414584321u64;

/// The field order as a mathematical integer.
pub open spec fn order() -> nat {
    18446744069414584321nat
}

/// A Goldilocks field element.
///
/// Any `u64` is a valid representation; the element denoted is `value mod p`.
#[derive(Clone, Copy, Debug)]
pub struct Felt {
    pub value: u64,
}

impl View for Felt {
    type V = nat;

    /// The canonical residue of the element, in `0..p`.
    open spec fn view(&self) -> nat {
        (self.value as nat) % order()
    }
}

/// `Goldilocks::as_canonical_u64` on `Goldilocks::new(v)`: the canonical residue of `v`.
#[verifier::external_body]
fn gl_canonical(v: u64) -> (r: u64)
    ensures
        r as nat == (v as nat) % order(),
{
    Goldilocks::new(v).as_canonical_u64()
}

/// `Goldilocks + Goldilocks`, read back in canonical form: the sum modulo `p`.
#[verifier::external_body]
fn gl_add(a: u64, b: u64) -> (r: u64)
    ensures
        r as nat == (a as nat + b as nat) % order(),
{
    (Goldilocks::new(a) + Goldilocks::new(b)).as_canonical_u64()
}

/// `Goldilocks - Goldilocks`, read back in canonical form: the difference modulo `p`.
#[verifier::external_body]
fn gl_sub(a: u64, b: u64) -> (r: u64)
    ensures
        r as nat == (a as int - b as int) % (order() as int),
{
    (Goldilocks::new(a) - Goldilocks::new(b)).as_canonical_u64()
}

/// `Goldilocks * Goldilocks`, read back in canonical form: the product modulo `p`. The order `p`
/// is prime, so the product is zero only when a factor is.
#[verifier::external_body]
fn gl_mul(a: u64, b: u64) -> (r: u64)
    ensures
        r as nat == (a as nat * b as nat) % order(),
        r == 0 ==> (a as nat) % order() == 0 || (b as nat) % order() == 0,
{
    (Goldilocks::new(a) * Goldilocks::new(b)).as_canonical_u64()
}

/// `-Goldilocks`, read back in canonical form: the additive inverse modulo `p`.
#[verifier::external_body]
fn gl_neg(a: u64) -> (r: u64)
    ensures
        r as nat == (0 - a as int) % (order() as int),
{
    (-Goldilocks::new(a)).as_canonical_u64()
}

/// `PrimeCharacteristicRing::double`, read back in canonical form: `2a mod p`.
#[verifier::external_body]
fn gl_double(a: u64) -> (r: u64)
    ensures
        r as nat == (2 * a as nat) % order(),
{
    Goldilocks::new(a).double().as_canonical_u64()
}

/// `PrimeCharacteristicRing::square`, read back in canonical form: `a^2 mod p`.
#[verifier::external_body]
fn gl_square(a: u64) -> (r: u64)
    ensures
        r as nat == (a as nat * a as nat) % order(),
{
    Goldilocks::new(a).square().as_canonical_u64()
}

/// `PrimeCharacteristicRing::exp_u64`, read back in canonical form: `a^e mod p`.
#[verifier::external_body]
fn gl_exp_u64(a: u64, e: u64) -> (r: u64)
    ensures
        r as int == pow(a as int, e as nat) % (order() as int),
{
    Goldilocks::new(a).exp_u64(e).as_canonical_u64()
}

/// `PrimeCharacteristicRing::exp_const_u64::<POWER>`, read back in canonical form: `a^POWER mod p`.
#[verifier::external_body]
fn gl_exp_const_u64<const POWER: u64>(a: u64) -> (r: u64)
    ensures
        r as int == pow(a as int, POWER as nat) % (order() as int),
{
    Goldilocks::new(a).exp_const_u64::<POWER>().as_canonical_u64()
}

/// `Field::try_inverse`: `None` exactly for the zero element, otherwise the canonical
/// multiplicative inverse.
#[verifier::external_body]
fn gl_try_inverse(a: u64) -> (r: Option<u64>)
    ensures
        r is None <==> (a as nat) % order() == 0,
        r matches Some(w) ==> (w as nat) < order() && ((a as nat) * (w as nat)) % order() == 1,
{
    Goldilocks::new(a).try_inverse().map(|w| w.as_canonical_u64())
}

impl Felt {
    /// The zero element.
    pub fn zero() -> (r: Felt)
        ensures
            r.value == 0,
            r@ == 0,
    {
        Felt { value: 0 }
    }

    /// The unit element.
    pub fn one() -> (r: Felt)
        ensures
            r.value == 1,
            r@ == 1,
    {
        Felt { value: 1 }
    }

    /// The order of the field.
    pub const ORDER: u64 = FELT_ORDER;

    /// Creates an element from any `u64`; no reduction is performed.
    pub fn new(value: u64) -> (r: Felt)
        ensures
            r.value == value,
            r@ == (value as nat) % order(),
    {
        Felt { value }
    }

    /// Creates an element from a `u8`.
    pub fn from_u8(value: u8) -> (r: Felt)
        ensures
            r@ == value as nat,
    {
        Felt { value: value as u64 }
    }

    /// Creates an element from a `u16`.
    pub fn from_u16(value: u16) -> (r: Felt)
        ensures
            r@ == value as nat,
    {
        Felt { value: value as u64 }
    }

    /// Creates an element from a `u32`.
    pub fn from_u32(value: u32) -> (r: Felt)
        ensures
            r@ == value as nat,
    {
        Felt { value: value as u64 }
    }

    /// Returns the representative in canonical form, in `0..p`.
    pub fn as_canonical_u64(&self) -> (r: u64)
        ensures
            r as nat == self@,
            (r as nat) < order(),
    {
        gl_canonical(self.value)
    }

    /// Returns true if the element is zero.
    pub fn is_zero(&self) -> (r: bool)
        ensures
            r == (self@ == 0),
    {
        gl_canonical(self.value) == 0
    }

    /// Returns true if both elements denote the same residue.
    pub fn equals(&self, other: &Felt) -> (r: bool)
        ensures
            r == (self@ == other@),
    {
        gl_canonical(self.value) == gl_canonical(other.value)
    }

    /// Field addition.
    pub fn add(self, other: Felt) -> (r: Felt)
        ensures
            r@ == (self@ + other@) % order(),
            (r.value as nat) < order(),
    {
        let v = gl_add(self.value, other.value);
        proof {
            lemma_add_mod_noop(self.value as int, other.value as int, order() as int);
        }
        Felt { value: v }
    }

    /// Field subtraction.
    pub fn sub(self, other: Felt) -> (r: Felt)
        ensures
            r@ == (self@ as int - other@ as int) % (order() as int),
            (r.value as nat) < order(),
    {
        let v = gl_sub(self.value, other.value);
        proof {
            lemma_sub_mod_noop(self.value as int, other.value as int, order() as int);
        }
        Felt { value: v }
    }

    /// Field multiplication; the product is zero only when a factor is.
    pub fn mul(self, other: Felt) -> (r: Felt)
        ensures
            r@ == (self@ * other@) % order(),
            (r.value as nat) < order(),
            r@ == 0 ==> self@ == 0 || other@ == 0,
    {
        let v = gl_mul(self.value, other.value);
        proof {
            lemma_mul_mod_noop(self.value as int, other.value as int, order() as int);
        }
        Felt { value: v }
    }

    /// Additive inverse.
    pub fn neg(self) -> (r: Felt)
        ensures
            r@ == (0 - self@ as int) % (order() as int),
            (r.value as nat) < order(),
    {
        let v = gl_neg(self.value);
        proof {
            lemma_sub_mod_noop(0, self.value as int, order() as int);
            lemma_small_mod(0, order());
        }
        Felt { value: v }
    }

    /// The elementary function `double(a) = 2*a`.
    pub fn double(&self) -> (r: Felt)
        ensures
            r@ == (2 * self@) % order(),
            (r.value as nat) < order(),
    {
        let v = gl_double(self.value);
        proof {
            lemma_mul_mod_noop_right(2, self.value as int, order() as int);
        }
        Felt { value: v }
    }

    /// The elementary function `square(a) = a^2`.
    pub fn square(&self) -> (r: Felt)
        ensures
            r@ == (self@ * self@) % order(),
            (r.value as nat) < order(),
    {
        let v = gl_square(self.value);
        proof {
            lemma_mul_mod_noop(self.value as int, self.value as int, order() as int);
        }
        Felt { value: v }
    }

    /// Exponentiation by a `u64` power.
    pub fn exp_u64(&self, power: u64) -> (r: Felt)
        ensures
            r@ as int == pow(self.value as int, power as nat) % (order() as int),
            (r.value as nat) < order(),
    {
        let v = gl_exp_u64(self.value, power);
        Felt { value: v }
    }

    /// Exponentiation by a power fixed at compile time.
    pub fn exp_const_u64<const POWER: u64>(&self) -> (r: Felt)
        ensures
            r@ as int == pow(self.value as int, POWER as nat) % (order() as int),
            (r.value as nat) < order(),
    {
        let v = gl_exp_const_u64::<POWER>(self.value);
        Felt { value: v }
    }

    /// The element of canonical value `value`, or `None` when `value` is not below the order.
    pub fn from_canonical_checked(value: u64) -> (r: Option<Felt>)
        ensures
            (value as nat) < order() ==> r == Some(Felt { value }),
            (value as nat) >= order() ==> r is None,
    {
        if value < FELT_ORDER {
            Some(Felt { value })
        } else {
            None
        }
    }

    /// The multiplicative inverse, or `None` for zero.
    pub fn try_inverse(&self) -> (r: Option<Felt>)
        ensures
            r is None <==> self@ == 0,
            r matches Some(w) ==> (w.value as nat) < order() && (self@ * w@) % order() == 1,
    {
        match gl_try_inverse(self.value) {
            Some(w) => {
                proof {
                    lemma_small_mod(w as nat, order());
                    lemma_mul_mod_noop_left(self.value as int, w as int, order() as int);
                }
                Some(Felt { value: w })
            },
            None => None,
        }
    }
}

// BATCH INVERSION
// ================================================================================================

/// The product, modulo `p`, of the non-zero elements of `s`.
pub open spec fn nonzero_product(s: Seq<Felt>) -> nat
    decreases s.len(),
{
    if s.len() == 0 {
        1
    } else {
        let rest = nonzero_product(s.drop_last());
        if s.last()@ == 0 {
            rest
        } else {
            (rest * s.last()@) % order()
        }
    }
}

/// True when `w` is the batch inverse of `v`: zero stays zero, every other element is replaced
/// by its canonical inverse.
pub open spec fn is_batch_inverse(v: Seq<Felt>, w: Seq<Felt>) -> bool {
    &&& w.len() == v.len()
    &&& forall|i: int|
        0 <= i < v.len() ==> {
            &&& (v[i]@ == 0 ==> w[i]@ == 0)
            &&& (v[i]@ != 0 ==> (v[i]@ * w[i]@) % order() == 1)
            &&& (w[i].value as nat) < order()
        }
}

/// The size of the chunks that batch inversion processes independently.
pub const BATCH_INVERSION_CHUNK_SIZE: usize = 1024;

proof fn lemma_nonzero_product_bound(s: Seq<Felt>)
    ensures
        nonzero_product(s) < order(),
    decreases s.len(),
{
    if s.len() > 0 {
        lemma_nonzero_product_bound(s.drop_last());
    }
}

/// Montgomery's trick on one chunk, leaving zeros unchanged.
fn batch_inversion_helper(values: &[Felt], result: &mut [Felt])
    requires
        old(result)@.len() == values@.len(),
    ensures
        is_batch_inverse(values@, final(result)@),
{
    let n = values.len();
    if n == 0 {
        return;
    }
    let mut last = Felt::one();
    let mut i: usize = 0;
    while i < n
        invariant
            n == values@.len(),
            result@.len() == n,
            i <= n,
            last@ == nonzero_product(values@.subrange(0, i as int)),
            last@ != 0,
            (last.value as nat) < order(),
            forall|j: int|
                0 <= j < i ==> (#[trigger] result@[j]).value as nat == nonzero_product(
                    values@.subrange(0, j),
                ),
        decreases n - i,
    {
        proof {
            assert(values@.subrange(0, i + 1).drop_last() =~= values@.subrange(0, i as int));
            lemma_nonzero_product_bound(values@.subrange(0, i as int));
            lemma_small_mod(last.value as nat, order());
        }
        result[i] = last;
        if !values[i].is_zero() {
            last = last.mul(values[i]);
        }
        i += 1;
    }
    assert(values@.subrange(0, n as int) =~= values@);
    let inv = last.try_inverse().unwrap();
    proof {
        lemma_mul_is_commutative(last@ as int, inv@ as int);
    }
    let mut acc = inv;
    let mut k: usize = n;
    while k > 0
        invariant
            n == values@.len(),
            result@.len() == n,
            k <= n,
            (acc.value as nat) < order(),
            (acc@ * nonzero_product(values@.subrange(0, k as int))) % order() == 1,
            forall|j: int|
                0 <= j < k ==> (#[trigger] result@[j]).value as nat == nonzero_product(
                    values@.subrange(0, j),
                ),
            forall|j: int|
                k <= j < n ==> {
                    &&& (values@[j]@ == 0 ==> (#[trigger] result@[j])@ == 0)
                    &&& (values@[j]@ != 0 ==> (values@[j]@ * result@[j]@) % order() == 1)
                    &&& (result@[j].value as nat) < order()
                },
        decreases k,
    {
        let j = k - 1;
        let ghost pre = nonzero_product(values@.subrange(0, j as int));
        let ghost a = acc@;
        proof {
            assert(values@.subrange(0, j + 1).drop_last() =~= values@.subrange(0, j as int));
            lemma_nonzero_product_bound(values@.subrange(0, j as int));
            lemma_small_mod(pre, order());
            assert(result@[j as int]@ == pre);
        }
        if values[j].is_zero() {
            result[j] = Felt::zero();
        } else {
            let ghost vj = values@[j as int]@;
            let r = result[j].mul(acc);
            proof {
                // r = pre * a, and a * (pre * vj) == 1 (mod p)
                let p = order() as int;
                assert((a * ((pre * vj) % order())) % order() == 1);
                lemma_mul_mod_noop_right(a as int, (pre * vj) as int, p);
                lemma_mul_mod_noop_left((pre * a) as int, vj as int, p);
                lemma_mul_is_associative(pre as int, a as int, vj as int);
                lemma_mul_is_associative(a as int, pre as int, vj as int);
                lemma_mul_is_commutative(pre as int, a as int);
                lemma_mul_is_commutative(vj as int, ((pre * a) % order()) as int);
                assert((vj * r@) % order() == 1);
            }
            result[j] = r;
            let new_acc = acc.mul(values[j]);
            proof {
                let p = order() as int;
                // new_acc = a * vj mod p; new_acc * pre == a * (pre * vj) == 1
                lemma_mul_mod_noop_left((a * vj) as int, pre as int, p);
                lemma_mul_mod_noop_right(a as int, (pre * vj) as int, p);
                lemma_mul_is_associative(a as int, vj as int, pre as int);
                lemma_mul_is_associative(a as int, pre as int, vj as int);
                lemma_mul_is_commutative(vj as int, pre as int);
                assert((new_acc@ * pre) % order() == 1);
            }
            acc = new_acc;
        }
        k = j;
    }
}

/// Batch inversion using Montgomery's trick, with zeros left unchanged.
///
/// The elements are processed in chunks of [`BATCH_INVERSION_CHUNK_SIZE`], each chunk with its own
/// running product.
pub fn batch_inversion_allow_zeros(values: &mut [Felt])
    ensures
        is_batch_inverse(old(values)@, final(values)@),
{
    let n = values.len();
    let ghost orig = values@;
    let mut start: usize = 0;
    while start < n
        invariant
            n == values@.len(),
            orig.len() == n,
            start <= n,
            forall|j: int|
                0 <= j < start ==> {
                    &&& (orig[j]@ == 0 ==> (#[trigger] values@[j])@ == 0)
                    &&& (orig[j]@ != 0 ==> (orig[j]@ * values@[j]@) % order() == 1)
                    &&& (values@[j].value as nat) < order()
                },
            forall|j: int| start <= j < n ==> #[trigger] values@[j] == orig[j],
        decreases n - start,
    {
        let end = if n - start > BATCH_INVERSION_CHUNK_SIZE {
            start + BATCH_INVERSION_CHUNK_SIZE
        } else {
            n
        };
        let mut chunk_in: Vec<Felt> = Vec::new();
        let mut chunk_out: Vec<Felt> = Vec::new();
        let mut i: usize = start;
        while i < end
            invariant
                start <= i <= end,
                end <= n,
                n == values@.len(),
                chunk_in@.len() == i - start,
                chunk_out@.len() == i - start,
                forall|j: int| 0 <= j < i - start ==> #[trigger] chunk_in@[j] == values@[start + j],
            decreases end - i,
        {
            chunk_in.push(values[i]);
            chunk_out.push(Felt::zero());
            i += 1;
        }
        batch_inversion_helper(chunk_in.as_slice(), chunk_out.as_mut_slice());
        let mut i: usize = start;
        while i < end
            invariant
                start <= i <= end,
                end <= n,
                n == values@.len(),
                orig.len() == n,
                chunk_in@.len() == end - start,
                is_batch_inverse(chunk_in@, chunk_out@),
                forall|j: int| 0 <= j < end - start ==> #[trigger] chunk_in@[j] == orig[start + j],
                forall|j: int|
                    0 <= j < start ==> {
                        &&& (orig[j]@ == 0 ==> (#[trigger] values@[j])@ == 0)
                        &&& (orig[j]@ != 0 ==> (orig[j]@ * values@[j]@) % order() == 1)
                        &&& (values@[j].value as nat) < order()
                    },
                forall|j: int| start <= j < i ==> #[trigger] values@[j] == chunk_out@[j - start],
                forall|j: int| i <= j < n ==> #[trigger] values@[j] == orig[j],
            decreases end - i,
        {
            values[i] = chunk_out[i - start];
            i += 1;
        }
        proof {
            assert forall|j: int| 0 <= j < end implies {
                &&& (orig[j]@ == 0 ==> (#[trigger] values@[j])@ == 0)
                &&& (orig[j]@ != 0 ==> (orig[j]@ * values@[j]@) % order() == 1)
                &&& (values@[j].value as nat) < order()
            } by {
                if j >= start {
                    assert(chunk_in@[j - start] == orig[j]);
                    assert(values@[j] == chunk_out@[j - start]);
                }
            }
        }
        start = end;
    }
}

} // verus!
