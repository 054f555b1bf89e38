use num_bigint::BigInt;
use pil_core::number::{abstract_to_degree, is_zero, try_abstract_to_degree};

#[test]
fn degree_of_zero() {
    assert_eq!(abstract_to_degree(&BigInt::from(0u32)), 0);
}

#[test]
fn degree_of_small_number() {
    assert_eq!(abstract_to_degree(&BigInt::from(42u32)), 42);
}

#[test]
fn degree_of_largest_fitting_number() {
    assert_eq!(abstract_to_degree(&BigInt::from(u64::MAX)), u64::MAX);
}

#[test]
fn zero_is_zero() {
    assert!(is_zero(&BigInt::from(0u32)));
}

#[test]
fn nonzero_is_not_zero() {
    assert!(!is_zero(&BigInt::from(5u32)));
    assert!(!is_zero(&BigInt::from(-3i32)));
}

#[test]
fn checked_degree_accepts_fitting_numbers() {
    assert_eq!(try_abstract_to_degree(&BigInt::from(0u32)), Some(0));
    assert_eq!(try_abstract_to_degree(&BigInt::from(123u32)), Some(123));
    assert_eq!(try_abstract_to_degree(&BigInt::from(u64::MAX)), Some(u64::MAX));
}

#[test]
fn checked_degree_rejects_negative_and_too_large_numbers() {
    assert_eq!(try_abstract_to_degree(&BigInt::from(-1i32)), None);
    let too_large = BigInt::from(u64::MAX) + BigInt::from(1u32);
    assert_eq!(try_abstract_to_degree(&too_large), None);
}
