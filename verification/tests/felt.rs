use miden_logic::felt::{batch_inversion_allow_zeros, Felt, FELT_ORDER};

const P: u64 = FELT_ORDER;

#[test]
fn canonical_form_reduces_modulo_the_order() {
    assert_eq!(Felt::new(u64::MAX).as_canonical_u64(), 4294967294);
    assert_eq!(Felt::new(P).as_canonical_u64(), 0);
    assert_eq!(Felt::new(P + 5).as_canonical_u64(), 5);
    assert_eq!(Felt::new(7).as_canonical_u64(), 7);
}

#[test]
fn zero_test_and_equality_use_the_residue() {
    assert!(Felt::new(P).is_zero());
    assert!(!Felt::one().is_zero());
    assert!(Felt::new(P + 3).equals(&Felt::new(3)));
    assert!(!Felt::new(4).equals(&Felt::new(3)));
}

#[test]
fn addition_wraps_around_the_order() {
    assert_eq!(Felt::new(P - 1).add(Felt::new(2)).value, 1);
    assert_eq!(Felt::new(3).add(Felt::new(4)).value, 7);
}

#[test]
fn subtraction_wraps_around_the_order() {
    assert_eq!(Felt::zero().sub(Felt::one()).value, P - 1);
    assert_eq!(Felt::new(10).sub(Felt::new(4)).value, 6);
}

#[test]
fn multiplication_reduces_the_product() {
    // 2^64 = 2^32 - 1 (mod p)
    assert_eq!(Felt::new(1 << 32).mul(Felt::new(1 << 32)).value, (1u64 << 32) - 1);
    assert_eq!(Felt::new(6).mul(Felt::new(7)).value, 42);
}

#[test]
fn negation_doubling_and_squaring() {
    assert_eq!(Felt::one().neg().value, P - 1);
    assert_eq!(Felt::zero().neg().value, 0);
    assert_eq!(Felt::new(P - 1).double().value, P - 2);
    assert_eq!(Felt::new(P - 1).square().value, 1);
}

#[test]
fn exponentiation() {
    assert_eq!(Felt::new(2).exp_u64(64).value, (1u64 << 32) - 1);
    assert_eq!(Felt::new(2).exp_const_u64::<3>().value, 8);
    assert_eq!(Felt::new(5).exp_u64(0).value, 1);
}

#[test]
fn inverse_of_zero_is_none() {
    assert!(Felt::zero().try_inverse().is_none());
    assert!(Felt::new(P).try_inverse().is_none());
}

#[test]
fn inverse_of_two() {
    let inv = Felt::new(2).try_inverse().unwrap();
    assert_eq!(inv.value, 9223372034707292161);
    assert_eq!(inv.mul(Felt::new(2)).value, 1);
}

#[test]
fn canonical_checked_rejects_the_order() {
    assert!(Felt::from_canonical_checked(P).is_none());
    assert!(Felt::from_canonical_checked(u64::MAX).is_none());
    assert_eq!(Felt::from_canonical_checked(P - 1).unwrap().value, P - 1);
}

#[test]
fn small_integer_constructors() {
    assert_eq!(Felt::from_u8(200).value, 200);
    assert_eq!(Felt::from_u16(60000).value, 60000);
    assert_eq!(Felt::from_u32(u32::MAX).value, u32::MAX as u64);
}

#[test]
fn batch_inversion_keeps_zeros() {
    let mut values = [Felt::new(2), Felt::zero(), Felt::new(4)];
    batch_inversion_allow_zeros(&mut values);
    assert_eq!(values[0].value, 9223372034707292161);
    assert_eq!(values[1].value, 0);
    assert_eq!(values[2].value, 13835058052060938241);
}

#[test]
fn batch_inversion_over_several_chunks() {
    let originals: Vec<Felt> = (0..2500u64).map(|i| Felt::new(i * 7)).collect();
    let mut values = originals.clone();
    batch_inversion_allow_zeros(&mut values);
    for (orig, inv) in originals.iter().zip(values.iter()) {
        if orig.is_zero() {
            assert!(inv.is_zero());
        } else {
            assert_eq!(orig.mul(*inv).value, 1);
        }
    }
}

#[test]
fn batch_inversion_of_nothing() {
    let mut values: [Felt; 0] = [];
    batch_inversion_allow_zeros(&mut values);
    assert!(values.is_empty());
}

#[test]
fn test_batch_inversion_allow_zeros() {
    let mut column = Vec::from([Felt::new(2), Felt::zero(), Felt::new(4), Felt::new(5)]);
    batch_inversion_allow_zeros(&mut column);

    assert_eq!(column[0].value, Felt::new(2).try_inverse().unwrap().value);
    assert_eq!(column[1].value, 0);
    assert_eq!(column[2].value, Felt::new(4).try_inverse().unwrap().value);
    assert_eq!(column[3].value, Felt::new(5).try_inverse().unwrap().value);
}
