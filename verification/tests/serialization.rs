use miden_logic::serialization::read_items;
use miden_logic::serialization::{
    check_len_budget, read_bounded_len, read_vec_deque, remaining_input_error, validate_bounded_len,
    ByteReader, Deserializable, DeserializationError,
};

/// A reader over a list of words, with an allocation budget.
struct WordReader {
    words: Vec<usize>,
    pos: usize,
    budget: usize,
}

impl ByteReader for WordReader {
    fn read_usize(&mut self) -> Result<usize, DeserializationError> {
        let w = *self.words.get(self.pos).ok_or(DeserializationError::UnexpectedEOF)?;
        self.pos += 1;
        Ok(w)
    }

    fn read_u64(&mut self) -> Result<u64, DeserializationError> {
        self.read_usize().map(|w| w as u64)
    }

    fn max_alloc(&self, _min_element_size: usize) -> usize {
        self.budget
    }

    fn check_eor(&self, num_bytes: usize) -> Result<(), DeserializationError> {
        if (self.words.len() - self.pos) * 8 >= num_bytes {
            Ok(())
        } else {
            Err(DeserializationError::UnexpectedEOF)
        }
    }
}

struct Item(usize);

impl Deserializable for Item {
    fn min_serialized_size() -> usize {
        8
    }

    fn read_from<R: ByteReader>(source: &mut R) -> Result<Self, DeserializationError> {
        source.read_usize().map(Item)
    }
}

fn reader(words: Vec<usize>, budget: usize) -> WordReader {
    WordReader { words, pos: 0, budget }
}

#[test]
fn budget_check_messages() {
    assert_eq!(
        check_len_budget("Vec", 11, 10, 1),
        Err(DeserializationError::InvalidValue("Vec count 11 exceeds budget 10".into()))
    );
    assert_eq!(
        check_len_budget("Vec", usize::MAX, usize::MAX, 2),
        Err(DeserializationError::InvalidValue(format!(
            "Vec count {} overflows minimum serialized size 2",
            usize::MAX
        )))
    );
    assert_eq!(check_len_budget("Vec", 3, 10, 8), Ok(24));
}

#[test]
fn running_out_of_input_is_an_invalid_count() {
    assert_eq!(
        remaining_input_error("Map", 7, DeserializationError::UnexpectedEOF),
        DeserializationError::InvalidValue("Map count 7 exceeds remaining input".into())
    );
    assert_eq!(
        remaining_input_error("Map", 7, DeserializationError::UnconsumedBytes),
        DeserializationError::UnconsumedBytes
    );
}

#[test]
fn lengths_are_checked_before_allocation() {
    let r = reader(vec![1, 2, 3], 100);
    assert_eq!(validate_bounded_len(&r, "xs", 3, 8), Ok(()));
    assert_eq!(
        validate_bounded_len(&r, "xs", 4, 8),
        Err(DeserializationError::InvalidValue("xs count 4 exceeds remaining input".into()))
    );
    let small = reader(vec![1, 2, 3], 2);
    assert_eq!(
        validate_bounded_len(&small, "xs", 3, 8),
        Err(DeserializationError::InvalidValue("xs count 3 exceeds budget 2".into()))
    );
}

#[test]
fn bounded_length_is_read_then_validated() {
    let mut r = reader(vec![2, 10, 20], 100);
    assert_eq!(read_bounded_len(&mut r, "xs", 8), Ok(2));
    let mut r = reader(vec![5, 10], 100);
    assert!(read_bounded_len(&mut r, "xs", 8).is_err());
    let mut empty = reader(vec![], 100);
    assert_eq!(read_bounded_len(&mut empty, "xs", 8), Err(DeserializationError::UnexpectedEOF));
}

#[test]
fn deque_round_trip_shape() {
    let mut r = reader(vec![3, 7, 8, 9], 100);
    let values = read_vec_deque::<Item, _>(&mut r).unwrap();
    assert_eq!(values.iter().map(|i| i.0).collect::<Vec<_>>(), vec![7, 8, 9]);
}

use miden_logic::felt::{Felt, FELT_ORDER};
use miden_logic::serialization::felt_from_read_value;

#[test]
fn felts_read_only_canonical_values() {
    let mut r = reader(vec![5, FELT_ORDER as usize], 100);
    assert_eq!(Felt::read_from(&mut r).unwrap().value, 5);
    assert_eq!(
        Felt::read_from(&mut r).err(),
        Some(DeserializationError::InvalidValue(format!("value {} is not a valid felt", FELT_ORDER)))
    );
    assert!(felt_from_read_value(FELT_ORDER - 1).is_ok());
    assert_eq!(<Felt as Deserializable>::min_serialized_size(), 8);
}

#[test]
fn items_are_read_in_order_until_a_read_fails() {
    let mut r = reader(vec![4, 5], 100);
    let values = read_items::<Item, _>(&mut r, 2).unwrap();
    assert_eq!(values.iter().map(|i| i.0).collect::<Vec<_>>(), vec![4, 5]);
    let mut short = reader(vec![4], 100);
    assert_eq!(read_items::<Item, _>(&mut short, 2).err(), Some(DeserializationError::UnexpectedEOF));
    let mut none = reader(vec![], 100);
    assert_eq!(read_items::<Item, _>(&mut none, 0).unwrap().len(), 0);
}

#[test]
fn deque_count_error_is_passed_on() {
    let mut empty = reader(vec![], 100);
    assert_eq!(read_vec_deque::<Item, _>(&mut empty).err(), Some(DeserializationError::UnexpectedEOF));
    let mut over = reader(vec![3, 1, 2], 100);
    assert_eq!(
        read_vec_deque::<Item, _>(&mut over).err(),
        Some(DeserializationError::InvalidValue("VecDeque count 3 exceeds remaining input".into()))
    );
}
