//! Tests for the rational storage backend.

use danwi::storage::RationalStorage;
use danwi::Rational;

#[test]
fn storage_performs_all_arithmetic_operations_exactly() {
    let a = RationalStorage::from_int(5);
    let b = RationalStorage::from_int(3);

    assert_eq!(a.raw_value(), Rational::new_int(5));
    assert_eq!(b.raw_value(), Rational::new_int(3));

    assert_eq!(a.add(&b).raw_value(), Rational::new_int(8));
    assert_eq!(a.sub(&b).raw_value(), Rational::new_int(2));
    assert_eq!(a.mul(&b).raw_value(), Rational::new_int(15));
    assert_eq!(a.div(&b).raw_value(), Rational::new(5, 3));
    assert_eq!(a.neg().raw_value(), Rational::new_int(-5));
}

#[test]
fn storage_from_ratio_reduces_to_lowest_terms() {
    let s = RationalStorage::from_ratio(6, 8);
    assert_eq!(s.numerator(), 3);
    assert_eq!(s.denominator(), 4);
    assert_eq!(s.raw_value(), Rational::new(3, 4));
}

#[test]
fn storage_from_rational_keeps_the_value() {
    let r = Rational::new(-2, 7);
    let s = RationalStorage::from_rational(r);
    assert_eq!(s.raw_value(), r);
    assert_eq!(s.numerator(), -2);
    assert_eq!(s.denominator(), 7);
}

#[test]
fn storage_default_initializes_to_zero() {
    let s = RationalStorage::default();
    assert_eq!(s.raw_value(), Rational::zero());
    assert_eq!(s.numerator(), 0);
    assert_eq!(s.denominator(), 1);
}
