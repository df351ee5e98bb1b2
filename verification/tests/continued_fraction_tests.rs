//! Tests for the continued fraction approximation algorithm.

use danwi::rational::convert::continued_fraction_approximation;
use danwi::rational::convert::Binary64;
use danwi::Rational;

/// Decomposes an IEEE double into the plain integers the library works on.
fn binary64(x: f64) -> Binary64 {
    let bits = x.to_bits();
    let negative = (bits >> 63) == 1;
    let raw_exp = ((bits >> 52) & 0x7FF) as i32;
    let fraction = bits & ((1u64 << 52) - 1);
    if raw_exp == 0x7FF {
        if fraction == 0 {
            Binary64::Infinite { negative }
        } else {
            Binary64::NotANumber
        }
    } else if raw_exp == 0 {
        Binary64::Finite {
            negative,
            mantissa: fraction,
            exponent: -1074,
        }
    } else {
        Binary64::Finite {
            negative,
            mantissa: fraction | (1u64 << 52),
            exponent: (raw_exp - 1075) as i16,
        }
    }
}

fn cfa(value: f64, max_denominator: u128) -> Option<(u128, u128)> {
    continued_fraction_approximation(&binary64(value), max_denominator)
}

#[test]
fn rejects_negative_value() {
    assert!(cfa(-0.1, 1000).is_none());
}

#[test]
fn rejects_non_finite_value() {
    assert!(cfa(f64::NAN, 1000).is_none());
    assert!(cfa(f64::INFINITY, 1000).is_none());
    assert!(cfa(f64::NEG_INFINITY, 1000).is_none());
}

#[test]
fn rejects_zero_max_denominator() {
    assert!(cfa(0.5, 0).is_none());
}

#[test]
fn rejects_overflow() {
    assert!(cfa(f64::MAX, 1000).is_none());
}

#[test]
fn zero() {
    assert_eq!(cfa(0 as _, 1000), Some((0, 1)));
}

#[test]
fn simple_fractions_should_be_found_exactly() {
    assert_eq!(cfa(0.5, 1000), Some((1, 2)));
    assert_eq!(cfa(0.25, 1000), Some((1, 4)));
    assert_eq!(cfa(0.75, 1000), Some((3, 4)));
    assert_eq!(cfa(1.0 / 3.0, 1000), Some((1, 3)));
    assert_eq!(cfa(2.0 / 3.0, 1000), Some((2, 3)));
}

#[test]
fn integers_should_be_found_exactly() {
    assert_eq!(cfa(0.0, 1000), Some((0, 1)));
    assert_eq!(cfa(1.0, 1000), Some((1, 1)));
    assert_eq!(cfa(42.0, 1000), Some((42, 1)));
    assert_eq!(cfa(1000.0, 1000), Some((1000, 1)));
}

#[test]
fn max_denominator_is_respected() {
    // With max_denominator = 10, 1/3 stays as 1/3
    assert_eq!(cfa(1.0 / 3.0, 10), Some((1, 3)));

    // With max_denominator = 2, 1/3 should become 1/2 (closest approximation)
    let (_n, d) = cfa(1.0 / 3.0, 2).unwrap();
    assert!(d <= 2);

    // Pi with small denominator
    let (n, d) = cfa(std::f64::consts::PI, 10).unwrap();
    assert!(d <= 10);
    assert_eq!((n, d), (22, 7));
}

#[test]
fn misc_calcs() {
    assert_eq!(cfa(f64::MIN_POSITIVE, 1e6 as _), Some((0, 1)));
    assert_eq!(cfa(1.0 + f64::EPSILON, 1e6 as _), Some((1, 1)));

    assert_eq!(cfa(0.625, 1000), Some((5, 8)));
    assert_eq!(cfa(0.125, 1000), Some((1, 8)));
    assert_eq!(cfa(0.375, 1000), Some((3, 8)));

    // Powers of 2 as fractions
    assert_eq!(cfa(0.5, 1000), Some((1, 2)));
    assert_eq!(cfa(0.25, 1000), Some((1, 4)));
    assert_eq!(cfa(0.125, 1000), Some((1, 8)));
    assert_eq!(cfa(0.0625, 1000), Some((1, 16)));
    assert_eq!(cfa(0.03125, 1000), Some((1, 32)));
    assert_eq!(cfa(0.015625, 1000), Some((1, 64)));
    assert_eq!(cfa(0.0078125, 1000), Some((1, 128)));
    assert_eq!(cfa(0.00390625, 1000), Some((1, 256)));
}

#[test]
fn try_from_f64_limited_approximates_pi() {
    let pi = Rational::try_from_f64_limited(binary64(std::f64::consts::PI), 100).unwrap();
    assert!(pi.denominator() <= 100);
    assert_eq!(pi, Rational::new(22, 7));

    assert_eq!(
        Rational::try_from_f64_limited(binary64(0.5), 1000),
        Some(Rational::new(1, 2))
    );
    assert_eq!(
        Rational::try_from_f64_limited(binary64(-0.5), 1000),
        Some(Rational::new(-1, 2))
    );
    assert_eq!(
        Rational::try_from_f64_limited(binary64(0.25), 1000),
        Some(Rational::new(1, 4))
    );
    assert_eq!(
        Rational::try_from_f64_limited(binary64(1.0 / 3.0), 1000),
        Some(Rational::new(1, 3))
    );
    assert_eq!(
        Rational::try_from_f64_limited(binary64(0.0), 1000),
        Some(Rational::new(0, 1))
    );

    assert_eq!(Rational::try_from_f64_limited(binary64(f64::NAN), 1000), None);
    assert_eq!(
        Rational::try_from_f64_limited(binary64(f64::INFINITY), 1000),
        None
    );
    assert_eq!(
        Rational::try_from_f64_limited(binary64(f64::NEG_INFINITY), 1000),
        None
    );
    assert_eq!(Rational::try_from_f64_limited(binary64(f64::MAX), 1000), None);
}

#[test]
fn try_from_f64_uses_the_default_denominator_bound() {
    let pi = Rational::try_from_f64(binary64(std::f64::consts::PI)).unwrap();
    assert!(pi.denominator() <= 1e12 as u128);
    let approx = pi.numerator() as f64 / pi.denominator() as f64;
    assert!((approx - std::f64::consts::PI).abs() < 1e-12);

    assert_eq!(
        Rational::try_from_f64(binary64(-0.5)),
        Some(Rational::new(-1, 2))
    );
    assert_eq!(Rational::try_from_f64(binary64(f64::NAN)), None);
}

#[test]
fn from_f64_matches_the_checked_variant() {
    assert_eq!(
        Rational::from_f64_limited(binary64(1.0 / 3.0), 1000),
        Rational::new(1, 3)
    );
    assert_eq!(Rational::from_f64(binary64(0.25)), Rational::new(1, 4));
}
