//! Reading serialized lengths: a length read from the input is checked against the reader's
//! allocation budget and against the input left before anything is allocated for it.
use crate::felt::{order, Felt};
use std::collections::VecDeque;
use vstd::prelude::*;

verus! {

/// Errors of deserialization.
#[derive(Debug, Clone, PartialEq, Eq)]
pub enum DeserializationError {
    /// The input holds a value that is not valid, with a description.
    InvalidValue(String),
    /// The input ended before the value did.
    UnexpectedEOF,
    /// Input remained after the value was read.
    UnconsumedBytes,
    /// Any other error, with a description.
    UnknownError(String),
}

/// A source of serialized bytes.
///
/// Readers are supplied by users. Each reading method answers from the reader's state alone, and
/// the spec functions below name those answers; a reader checked here defines them, one compiled
/// without a check keeps their unspecified values.
pub trait ByteReader {
    /// What reading a count from this state gives.
    open spec fn spec_read_usize(&self) -> Result<usize, DeserializationError> {
        arbitrary()
    }

    /// What reading a `u64` from this state gives.
    open spec fn spec_read_u64(&self) -> Result<u64, DeserializationError> {
        arbitrary()
    }

    /// The allocation budget, in elements of at least `min_element_size` bytes, in this state.
    open spec fn spec_max_alloc(&self, min_element_size: usize) -> usize {
        arbitrary()
    }

    /// Whether at least `num_bytes` bytes of input remain in this state.
    open spec fn spec_check_eor(&self, num_bytes: usize) -> Result<(), DeserializationError> {
        arbitrary()
    }

    /// Reads a length or count.
    fn read_usize(&mut self) -> (r: Result<usize, DeserializationError>)
        ensures
            r == old(self).spec_read_usize(),
    ;

    /// Reads a `u64`.
    fn read_u64(&mut self) -> (r: Result<u64, DeserializationError>)
        ensures
            r == old(self).spec_read_u64(),
    ;

    /// The largest number of elements of at least `min_element_size` bytes each that the reader's
    /// budget allows to allocate.
    fn max_alloc(&self, min_element_size: usize) -> (r: usize)
        ensures
            r == self.spec_max_alloc(min_element_size),
    ;

    /// Succeeds when at least `num_bytes` bytes of input remain.
    fn check_eor(&self, num_bytes: usize) -> (r: Result<(), DeserializationError>)
        ensures
            r == self.spec_check_eor(num_bytes),
    ;
}

/// A value that can be read from serialized bytes.
pub trait Deserializable: Sized {
    /// The fewest bytes a serialized value takes; a type checked here defines it, one compiled
    /// without a check keeps its unspecified value.
    open spec fn spec_min_serialized_size() -> usize {
        arbitrary()
    }

    /// The fewest bytes a serialized value takes.
    fn min_serialized_size() -> (r: usize)
        ensures
            r == Self::spec_min_serialized_size(),
    ;

    /// Reads a value.
    fn read_from<R: ByteReader>(source: &mut R) -> Result<Self, DeserializationError>;
}

// MESSAGES
// ================================================================================================

/// The decimal digits of `n`, most significant first, without leading zeros.
pub open spec fn decimal(n: nat) -> Seq<char>
    decreases n,
{
    if n < 10 {
        seq![(48 + n) as char]
    } else {
        decimal(n / 10).push((48 + n % 10) as char)
    }
}

/// `format!("{label} count {len} exceeds budget {max_len}")`.
#[verifier::external_body]
fn exceeds_budget_message(label: &str, len: usize, max_len: usize) -> (r: String)
    ensures
        r@ == label@ + " count "@ + decimal(len as nat) + " exceeds budget "@ + decimal(max_len as nat),
{
    format!("{label} count {len} exceeds budget {max_len}")
}

/// `format!("{label} count {len} overflows minimum serialized size {min_element_size}")`.
#[verifier::external_body]
fn overflow_message(label: &str, len: usize, min_element_size: usize) -> (r: String)
    ensures
        r@ == label@ + " count "@ + decimal(len as nat) + " overflows minimum serialized size "@ + decimal(
            min_element_size as nat,
        ),
{
    format!("{label} count {len} overflows minimum serialized size {min_element_size}")
}

/// `format!("{label} count {len} exceeds remaining input")`.
#[verifier::external_body]
fn exceeds_input_message(label: &str, len: usize) -> (r: String)
    ensures
        r@ == label@ + " count "@ + decimal(len as nat) + " exceeds remaining input"@,
{
    format!("{label} count {len} exceeds remaining input")
}

// LENGTH CHECKS
// ================================================================================================

/// The outcome of checking a count `len` against the budget `max_len`: too many, or too many
/// bytes to count, is invalid; otherwise the fewest bytes the elements take.
pub open spec fn budget_check_spec(label: Seq<char>, len: usize, max_len: usize, min_element_size: usize) -> Result<usize, Seq<char>> {
    if len > max_len {
        Err(label + " count "@ + decimal(len as nat) + " exceeds budget "@ + decimal(max_len as nat))
    } else if len * min_element_size > usize::MAX {
        Err(label + " count "@ + decimal(len as nat) + " overflows minimum serialized size "@ + decimal(min_element_size as nat))
    } else {
        Ok((len * min_element_size) as usize)
    }
}

/// Checks a count `len` against the allocation budget `max_len`, and returns the fewest bytes
/// its elements take; either failure is an invalid value, described.
pub fn check_len_budget(label: &str, len: usize, max_len: usize, min_element_size: usize) -> (r: Result<usize, DeserializationError>)
    ensures
        match (r, budget_check_spec(label@, len, max_len, min_element_size)) {
            (Ok(n), Ok(m)) => n == m,
            (Err(DeserializationError::InvalidValue(msg)), Err(m)) => msg@ == m,
            _ => false,
        },
{
    if len > max_len {
        return Err(DeserializationError::InvalidValue(exceeds_budget_message(label, len, max_len)));
    }
    match len.checked_mul(min_element_size) {
        Some(min_bytes) => Ok(min_bytes),
        None => Err(DeserializationError::InvalidValue(overflow_message(label, len, min_element_size))),
    }
}

/// The error reported when the input left does not cover a count: running out of input is an
/// invalid count, described; any other error is passed on.
pub fn remaining_input_error(label: &str, len: usize, err: DeserializationError) -> (r: DeserializationError)
    ensures
        err == DeserializationError::UnexpectedEOF ==> (r matches DeserializationError::InvalidValue(msg) && msg@
            == label@ + " count "@ + decimal(len as nat) + " exceeds remaining input"@),
        err != DeserializationError::UnexpectedEOF ==> r == err,
{
    match err {
        DeserializationError::UnexpectedEOF => DeserializationError::InvalidValue(exceeds_input_message(label, len)),
        other => other,
    }
}

/// Validates that a serialized count fits both the reader's budget and the input left.
pub fn validate_bounded_len<R: ByteReader>(source: &R, label: &str, len: usize, min_element_size: usize) -> (r: Result<(), DeserializationError>)
    ensures
        r is Ok ==> len * min_element_size <= usize::MAX,
        match budget_check_spec(label@, len, source.spec_max_alloc(min_element_size), min_element_size) {
            Err(msg) => r matches Err(DeserializationError::InvalidValue(m)) && m@ == msg,
            Ok(min_bytes) => match source.spec_check_eor(min_bytes) {
                Ok(_) => r is Ok,
                Err(DeserializationError::UnexpectedEOF) => r matches Err(DeserializationError::InvalidValue(m)) && m@
                    == label@ + " count "@ + decimal(len as nat) + " exceeds remaining input"@,
                Err(e) => r == Err::<(), DeserializationError>(e),
            },
        },
{
    let max_len = source.max_alloc(min_element_size);
    let min_bytes = match check_len_budget(label, len, max_len, min_element_size) {
        Ok(n) => n,
        Err(e) => {
            return Err(e);
        },
    };
    match source.check_eor(min_bytes) {
        Ok(()) => Ok(()),
        Err(e) => Err(remaining_input_error(label, len, e)),
    }
}

/// Reads a serialized count and validates it before it is used for allocation.
pub fn read_bounded_len<R: ByteReader>(source: &mut R, label: &str, min_element_size: usize) -> (r: Result<usize, DeserializationError>)
    ensures
        r matches Ok(len) ==> len * min_element_size <= usize::MAX && old(source).spec_read_usize() == Ok::<usize, DeserializationError>(len),
        old(source).spec_read_usize() matches Err(e) ==> r == Err::<usize, DeserializationError>(e),
{
    let len = match source.read_usize() {
        Ok(len) => len,
        Err(e) => {
            return Err(e);
        },
    };
    match validate_bounded_len(source, label, len, min_element_size) {
        Ok(()) => Ok(len),
        Err(e) => Err(e),
    }
}

/// Reads `len` items in order, one `read_from` each, into a deque; the first failing read ends it.
pub fn read_items<T: Deserializable, R: ByteReader>(source: &mut R, len: usize) -> (r: Result<VecDeque<T>, DeserializationError>)
    ensures
        r matches Ok(values) ==> values@.len() == len,
{
    let mut values: VecDeque<T> = VecDeque::with_capacity(len);
    let mut i: usize = 0;
    while i < len
        invariant
            i <= len,
            values@.len() == i,
        decreases len - i,
    {
        match T::read_from(source) {
            Ok(v) => values.push_back(v),
            Err(e) => {
                return Err(e);
            },
        }
        i += 1;
    }
    Ok(values)
}

/// Reads a deque encoded as a length prefix followed by its items in order.
pub fn read_vec_deque<T: Deserializable, R: ByteReader>(source: &mut R) -> (r: Result<VecDeque<T>, DeserializationError>)
    ensures
        r matches Ok(values) ==> old(source).spec_read_usize() == Ok::<usize, DeserializationError>(values@.len() as usize)
            && values@.len() * T::spec_min_serialized_size() <= usize::MAX,
        old(source).spec_read_usize() matches Err(e) ==> r == Err::<VecDeque<T>, DeserializationError>(e),
{
    let len = match read_bounded_len(source, "VecDeque", T::min_serialized_size()) {
        Ok(len) => len,
        Err(e) => {
            return Err(e);
        },
    };
    read_items(source, len)
}

/// `format!("value {value} is not a valid felt")`.
#[verifier::external_body]
fn invalid_felt_message(value: u64) -> (r: String)
    ensures
        r@ == "value "@ + decimal(value as nat) + " is not a valid felt"@,
{
    format!("value {value} is not a valid felt")
}

/// The field element a read `u64` gives: itself when canonical, otherwise an invalid value,
/// described.
pub fn felt_from_read_value(value: u64) -> (r: Result<Felt, DeserializationError>)
    ensures
        (value as nat) < order() ==> r == Ok::<Felt, DeserializationError>(Felt { value }),
        (value as nat) >= order() ==> (r matches Err(DeserializationError::InvalidValue(msg)) && msg@
            == "value "@ + decimal(value as nat) + " is not a valid felt"@),
{
    match Felt::from_canonical_checked(value) {
        Some(f) => Ok(f),
        None => Err(DeserializationError::InvalidValue(invalid_felt_message(value))),
    }
}

impl Deserializable for Felt {
    open spec fn spec_min_serialized_size() -> usize {
        8
    }

    /// A field element is written as its canonical `u64`, eight bytes.
    fn min_serialized_size() -> (r: usize) {
        8
    }

    /// Reads a `u64` and accepts it when it is a canonical field element.
    fn read_from<R: ByteReader>(source: &mut R) -> (r: Result<Felt, DeserializationError>)
        ensures
            match old(source).spec_read_u64() {
                Ok(value) => if (value as nat) < order() {
                    r == Ok::<Felt, DeserializationError>(Felt { value })
                } else {
                    r matches Err(DeserializationError::InvalidValue(msg)) && msg@ == "value "@ + decimal(value as nat)
                        + " is not a valid felt"@
                },
                Err(e) => r == Err::<Felt, DeserializationError>(e),
            },
    {
        match source.read_u64() {
            Ok(value) => felt_from_read_value(value),
            Err(e) => Err(e),
        }
    }
}

} // verus!
