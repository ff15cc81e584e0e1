//! Four field elements, as canonical integers: digests, Merkle roots, keys and values.
use crate::felt::{order, Felt};
use vstd::prelude::*;

verus! {

/// A word of four field elements, each held as its canonical integer value, below the field order.
///
/// An element may be held in any representation below 2^64; the value it denotes is its residue
/// modulo the field order. Keys are compared, ordered and placed in leaves by their canonical form
/// ([`canonical_word`]).
#[derive(Debug, Clone, Copy, PartialEq, Eq, Structural)]
pub struct Word(pub u64, pub u64, pub u64, pub u64);

/// The word whose four elements are zero.
pub open spec fn empty_word_spec() -> Word {
    Word(0u64, 0u64, 0u64, 0u64)
}

/// The canonical form of a word: each element reduced below the field order. Two words denote the
/// same value exactly when their canonical forms are equal.
pub open spec fn canonical_word(w: Word) -> Word {
    Word(
        ((w.0 as nat) % order()) as u64,
        ((w.1 as nat) % order()) as u64,
        ((w.2 as nat) % order()) as u64,
        ((w.3 as nat) % order()) as u64,
    )
}

impl Word {
    /// Returns the canonical form of the word.
    pub fn canonical(&self) -> (r: Word)
        ensures
            r == canonical_word(*self),
            r.is_canonical(),
    {
        Word::from_felts(Felt::new(self.0), Felt::new(self.1), Felt::new(self.2), Felt::new(self.3))
    }

    /// True when every element is below the field order.
    pub open spec fn is_canonical(&self) -> bool {
        &&& (self.0 as nat) < order()
        &&& (self.1 as nat) < order()
        &&& (self.2 as nat) < order()
        &&& (self.3 as nat) < order()
    }

    /// Returns the word of four field elements, each in canonical form.
    pub fn from_felts(a: Felt, b: Felt, c: Felt, d: Felt) -> (r: Word)
        ensures
            r.is_canonical(),
            r == Word(a@ as u64, b@ as u64, c@ as u64, d@ as u64),
    {
        Word(a.as_canonical_u64(), b.as_canonical_u64(), c.as_canonical_u64(), d.as_canonical_u64())
    }

    /// Returns the word whose four elements are zero.
    pub fn empty() -> (r: Word)
        ensures
            r == empty_word_spec(),
    {
        Word(0u64, 0u64, 0u64, 0u64)
    }

    /// Returns the element at position `i`.
    pub fn get(&self, i: usize) -> (r: u64)
        requires
            i < 4,
        ensures
            r == self.element(i as int),
    {
        if i == 0 {
            self.0
        } else if i == 1 {
            self.1
        } else if i == 2 {
            self.2
        } else {
            self.3
        }
    }

    /// The element at position `i`.
    pub open spec fn element(&self, i: int) -> u64 {
        if i == 0 {
            self.0
        } else if i == 1 {
            self.1
        } else if i == 2 {
            self.2
        } else {
            self.3
        }
    }
}

} // verus!
