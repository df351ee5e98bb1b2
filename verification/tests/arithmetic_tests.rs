//! Tests for arithmetic operations on rational numbers.

use danwi::Rational;

#[test]
fn rational_follows_the_laws_of_arithmetic() {
    let a = Rational::new(2, 3);
    let b = Rational::new(3, 4);
    let c = Rational::new(5, 6);

    // Commutative property of addition
    assert_eq!(a + b, b + a);

    // Commutative property of multiplication
    assert_eq!(a * b, b * a);

    // Associative property of addition
    assert_eq!((a + b) + c, a + (b + c));

    // Associative property of multiplication
    assert_eq!((a * b) * c, a * (b * c));

    // Distributive property
    assert_eq!(a * (b + c), (a * b) + (a * c));
}

#[test]
fn addition_computes_exact_sums() {
    assert_eq!(Rational::new(1, 2) + Rational::new(1, 3), Rational::new(5, 6));
    assert_eq!(Rational::new(1, 4) + Rational::new(3, 4), Rational::new(1, 1));
    assert_eq!(Rational::new(-1, 2) + Rational::new(1, 3), Rational::new(-1, 6));
    assert_eq!(Rational::zero() + Rational::new(2, 3), Rational::new(2, 3));
    assert_eq!(
        Rational::new_int(i128::MAX).checked_add(&Rational::new_int(1)),
        None
    );
}

#[test]
fn subtraction_computes_exact_differences() {
    assert_eq!(Rational::new(3, 4) - Rational::new(1, 2), Rational::new(1, 4));
    assert_eq!(Rational::new(1, 3) - Rational::new(1, 2), Rational::new(-1, 6));
    assert_eq!(Rational::new(5, 7) - Rational::new(5, 7), Rational::zero());
    assert_eq!(Rational::new(2, 3) - Rational::zero(), Rational::new(2, 3));
    assert_eq!(
        Rational::new_int(i128::MIN).checked_sub(&Rational::new_int(1)),
        None
    );
}

#[test]
fn multiplication_computes_exact_products() {
    assert_eq!(Rational::new(2, 3) * Rational::new(3, 4), Rational::new(1, 2));
    assert_eq!(Rational::new(6, 8) * Rational::new(4, 3), Rational::new(1, 1));
    assert_eq!(Rational::new(-2, 5) * Rational::new(5, 2), Rational::new(-1, 1));
    assert_eq!(Rational::new(5, 7) * Rational::zero(), Rational::zero());
    assert_eq!(
        Rational::new_int(i128::MAX).checked_mul(&Rational::new_int(2)),
        None
    );
    assert_eq!(
        Rational::new_int(i128::MIN).checked_mul(&Rational::new_int(2)),
        None
    );
}

#[test]
fn division_computes_exact_quotients() {
    assert_eq!(Rational::new(2, 3) / Rational::new(4, 5), Rational::new(5, 6));
    assert_eq!(Rational::new(6, 7) / Rational::new(2, 7), Rational::new(3, 1));
    assert_eq!(Rational::new(-1, 2) / Rational::new(1, 3), Rational::new(-3, 2));
    assert_eq!(Rational::new(5, 8) / Rational::new_int(1), Rational::new(5, 8));
    assert_eq!(Rational::new(1, 2).checked_div(&Rational::zero()), None);
    assert_eq!(
        Rational::new_int(i128::MIN).checked_div(&Rational::new(1, u128::MAX)),
        None
    );
}

#[test]
fn negation_flips_the_sign() {
    assert_eq!(-Rational::new(2, 3), Rational::new(-2, 3));
    assert_eq!(-Rational::new(-5, 7), Rational::new(5, 7));
    assert_eq!(-Rational::zero(), Rational::zero());
    assert_eq!(-(-Rational::new(3, 4)), Rational::new(3, 4));
    assert_eq!(Rational::new_int(i128::MIN).checked_neg(), None);
}

#[test]
fn add_then_sub_returns_the_original() {
    let cases = [
        (Rational::new(2, 3), Rational::new(3, 4)),
        (Rational::new(-7, 5), Rational::new(22, 7)),
        (Rational::new_int(0), Rational::new(1, 1000000000)),
        (Rational::new(1, 3), Rational::new(-1, 3)),
    ];
    for (a, b) in cases {
        assert_eq!(((a + b) - b), a);
    }
}

#[test]
fn mul_then_div_returns_the_original() {
    let cases = [
        (Rational::new(2, 3), Rational::new(3, 4)),
        (Rational::new(-7, 5), Rational::new(22, 7)),
        (Rational::new_int(12), Rational::new(-1, 9)),
    ];
    for (a, b) in cases {
        assert_eq!(((a * b) / b), a);
    }
}

#[test]
fn scale_by_power_of_ten_is_exact() {
    let one = Rational::new_int(1);
    assert_eq!(
        one.scale_by_power_of_10(3),
        Some(Rational::new_int(1000))
    );
    assert_eq!(
        one.scale_by_power_of_10(-3),
        Some(Rational::new(1, 1000))
    );
    let x = Rational::new(33, 10);
    assert_eq!(x.scale_by_power_of_10(3), Some(Rational::new_int(3300)));
    assert_eq!(x.scale_by_power_of_10(0), Some(x));
    // A sixty-step rescaling stays exact when the result is representable.
    let tiny = Rational::new(1, 1000000000000000000000000000000);
    assert_eq!(
        tiny.scale_by_power_of_10(60),
        Some(Rational::new_int(1000000000000000000000000000000))
    );
    // An unrepresentable result is refused rather than rounded.
    assert_eq!(Rational::new_int(i128::MAX).scale_by_power_of_10(127), None);
}
