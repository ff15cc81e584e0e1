use miden_logic::random::word_from_draws;
use miden_logic::felt::{Felt, FELT_ORDER};
use miden_logic::random::{random_felt, random_word, Randomizable};
use miden_logic::word::Word;

#[test]
fn integers_read_little_endian() {
    let bytes = [0x34u8, 0x12, 0x78, 0x56, 0xbc, 0x9a, 0xf0, 0xde, 1, 2, 3, 4, 5, 6, 7, 8, 9];
    assert_eq!(u8::from_random_bytes(&bytes), Some(0x34));
    assert_eq!(u16::from_random_bytes(&bytes), Some(0x1234));
    assert_eq!(u32::from_random_bytes(&bytes), Some(0x5678_1234));
    assert_eq!(u64::from_random_bytes(&bytes), Some(0xdef0_9abc_5678_1234));
    assert_eq!(
        u128::from_random_bytes(&bytes),
        Some(0x0807_0605_0403_0201_def0_9abc_5678_1234)
    );
}

#[test]
fn value_sizes() {
    assert_eq!(<u8 as Randomizable>::VALUE_SIZE, 1);
    assert_eq!(<u16 as Randomizable>::VALUE_SIZE, 2);
    assert_eq!(<u32 as Randomizable>::VALUE_SIZE, 4);
    assert_eq!(<u64 as Randomizable>::VALUE_SIZE, 8);
    assert_eq!(<u128 as Randomizable>::VALUE_SIZE, 16);
    assert_eq!(<Felt as Randomizable>::VALUE_SIZE, 8);
    assert_eq!(<Word as Randomizable>::VALUE_SIZE, 32);
    assert_eq!(<[u8; 5] as Randomizable>::VALUE_SIZE, 5);
}

#[test]
fn felt_from_bytes_below_the_order() {
    let bytes = 5u64.to_le_bytes();
    assert_eq!(Felt::from_random_bytes(&bytes).unwrap().value, 5);
    let bytes = (FELT_ORDER - 1).to_le_bytes();
    assert_eq!(Felt::from_random_bytes(&bytes).unwrap().value, FELT_ORDER - 1);
}

#[test]
fn felt_from_bytes_at_the_order_is_none() {
    assert!(Felt::from_random_bytes(&FELT_ORDER.to_le_bytes()).is_none());
    assert!(Felt::from_random_bytes(&u64::MAX.to_le_bytes()).is_none());
}

#[test]
fn word_from_exactly_thirty_two_bytes() {
    let mut bytes = Vec::new();
    for v in [1u64, 2, 3, FELT_ORDER - 1] {
        bytes.extend_from_slice(&v.to_le_bytes());
    }
    assert_eq!(Word::from_random_bytes(&bytes), Some(Word(1, 2, 3, FELT_ORDER - 1)));
    assert_eq!(Word::from_random_bytes(&bytes[..31]), None);
    let mut longer = bytes.clone();
    longer.push(0);
    assert_eq!(Word::from_random_bytes(&longer), None);
}

#[test]
fn word_with_an_element_out_of_range_is_none() {
    let mut bytes = Vec::new();
    for v in [1u64, FELT_ORDER, 3, 4] {
        bytes.extend_from_slice(&v.to_le_bytes());
    }
    assert_eq!(Word::from_random_bytes(&bytes), None);
}

#[test]
fn byte_arrays_copy_the_source() {
    let arr = <[u8; 4]>::from_random_bytes(&[9, 8, 7, 6]).unwrap();
    assert_eq!(arr, [9, 8, 7, 6]);
}

#[test]
fn random_values_are_field_elements() {
    let w = random_word();
    assert!(w.0 < FELT_ORDER && w.1 < FELT_ORDER && w.2 < FELT_ORDER && w.3 < FELT_ORDER);
    let f = random_felt();
    assert!(f.as_canonical_u64() < FELT_ORDER);
}

#[test]
fn drawn_values_give_canonical_words() {
    assert_eq!(word_from_draws(FELT_ORDER, 5, u64::MAX, 0), Word(0, 5, 4294967294, 0));
    assert_eq!(word_from_draws(1, 2, 3, FELT_ORDER + 7), Word(1, 2, 3, 7));
}

#[test]
fn words_from_felts_are_canonical() {
    let w = Word::from_felts(Felt::new(FELT_ORDER + 1), Felt::new(2), Felt::new(u64::MAX), Felt::new(0));
    assert_eq!(w, Word(1, 2, 4294967294, 0));
}
