//! Tests of the fixed-width amount arithmetic: exact results, carry and
//! borrow propagation, and behaviour at the representable limits.

use erc20::amount::Amount;

#[test]
fn from_u64_and_zero() {
    assert_eq!(Amount::zero(), Amount::from_u64(0));
    assert_ne!(Amount::zero(), Amount::from_u64(1));
    assert_eq!(Amount::from_u64(7), Amount::from_limbs([7, 0, 0, 0, 0, 0, 0, 0]));
}

#[test]
fn checked_add_small_values() {
    let a = Amount::from_u64(2);
    let b = Amount::from_u64(3);
    assert_eq!(a.checked_add(&b), Some(Amount::from_u64(5)));
    assert_eq!(a.checked_add(&Amount::zero()), Some(a));
}

#[test]
fn checked_add_carries_across_limbs() {
    let a = Amount::from_limbs([u64::MAX, 0, 0, 0, 0, 0, 0, 0]);
    let one = Amount::from_u64(1);
    assert_eq!(a.checked_add(&one), Some(Amount::from_limbs([0, 1, 0, 0, 0, 0, 0, 0])));

    let b = Amount::from_limbs([u64::MAX, u64::MAX, u64::MAX, 0, 0, 0, 0, 0]);
    assert_eq!(b.checked_add(&one), Some(Amount::from_limbs([0, 0, 0, 1, 0, 0, 0, 0])));
}

#[test]
fn checked_add_overflow_is_none() {
    let saturated = Amount::from_limbs([u64::MAX; 8]);
    assert_eq!(saturated.checked_add(&Amount::from_u64(1)), None);
    assert_eq!(saturated.checked_add(&Amount::zero()), Some(saturated));
}

#[test]
fn checked_sub_small_values() {
    let a = Amount::from_u64(5);
    let b = Amount::from_u64(3);
    assert_eq!(a.checked_sub(&b), Some(Amount::from_u64(2)));
    assert_eq!(a.checked_sub(&a), Some(Amount::zero()));
}

#[test]
fn checked_sub_borrows_across_limbs() {
    let a = Amount::from_limbs([0, 1, 0, 0, 0, 0, 0, 0]);
    let one = Amount::from_u64(1);
    assert_eq!(a.checked_sub(&one), Some(Amount::from_limbs([u64::MAX, 0, 0, 0, 0, 0, 0, 0])));
}

#[test]
fn checked_sub_underflow_is_none() {
    let a = Amount::from_u64(3);
    let b = Amount::from_u64(5);
    assert_eq!(a.checked_sub(&b), None);
    assert_eq!(Amount::zero().checked_sub(&Amount::from_u64(1)), None);
}

#[test]
fn add_and_sub_round_trip() {
    let a = Amount::from_limbs([5, u64::MAX, 0, 1, 0, 0, 0, u64::MAX / 2]);
    let b = Amount::from_limbs([u64::MAX, 17, 3, 0, 0, 9, 0, 1]);
    let sum = a.checked_add(&b).unwrap();
    assert_eq!(sum.checked_sub(&b), Some(a));
    assert_eq!(sum.checked_sub(&a), Some(b));
}

#[test]
fn limbs_round_trip() {
    let limbs: [u64; 8] = [1, 2, 3, 4, 5, 6, 7, 8];
    assert_eq!(Amount::from_limbs(limbs).limbs(), limbs);
}
