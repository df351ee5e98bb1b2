//! Tests for the dimension algebra.

use danwi::dimensions::base::electric_current;
use danwi::dimensions::base::length;
use danwi::dimensions::base::mass;
use danwi::dimensions::base::time;
use danwi::dimensions::derived::acceleration;
use danwi::dimensions::derived::charge;
use danwi::dimensions::derived::dimensionless;
use danwi::dimensions::derived::energy;
use danwi::dimensions::derived::force;
use danwi::dimensions::derived::pressure;
use danwi::dimensions::derived::resistance;
use danwi::dimensions::derived::velocity;
use danwi::dimensions::derived::voltage;
use danwi::Dimensions;

#[test]
fn multiplication_is_applied_to_all_quantities() {
    let a = Dimensions {
        time: 1,
        length: 2,
        mass: 3,
        electric_current: 4,
        thermodynamic_temperature: 5,
        amount_of_substance: 6,
        luminous_intensity: 7,
    };
    let b = Dimensions {
        time: 1,
        length: 2,
        mass: 3,
        electric_current: 4,
        thermodynamic_temperature: 5,
        amount_of_substance: 6,
        luminous_intensity: 7,
    };
    let c = a.mul(b);
    assert_eq!(c.time, 2);
    assert_eq!(c.length, 4);
    assert_eq!(c.mass, 6);
    assert_eq!(c.electric_current, 8);
    assert_eq!(c.thermodynamic_temperature, 10);
    assert_eq!(c.amount_of_substance, 12);
    assert_eq!(c.luminous_intensity, 14);
}

#[test]
fn division_is_applied_to_all_quantities() {
    let a = Dimensions {
        time: 1,
        length: 2,
        mass: 3,
        electric_current: 4,
        thermodynamic_temperature: 5,
        amount_of_substance: 6,
        luminous_intensity: 7,
    };
    let b = Dimensions {
        time: 0,
        length: 1,
        mass: 2,
        electric_current: 3,
        thermodynamic_temperature: 4,
        amount_of_substance: 5,
        luminous_intensity: 6,
    };
    let c = a.div(b);
    assert_eq!(c.time, 1);
    assert_eq!(c.length, 1);
    assert_eq!(c.mass, 1);
    assert_eq!(c.electric_current, 1);
    assert_eq!(c.thermodynamic_temperature, 1);
    assert_eq!(c.amount_of_substance, 1);
    assert_eq!(c.luminous_intensity, 1);
}

#[test]
fn multiplication_is_associative() {
    // (A * B) * C = A * (B * C)
    let a = (force().mul(velocity())).mul(time());
    let b = force().mul(velocity().mul(time()));
    assert_eq!(a, b);
}

#[test]
fn multiplication_is_commutative() {
    // A * B = B * A
    assert_eq!(length().mul(time()), time().mul(length()));
    assert_eq!(mass().mul(velocity()), velocity().mul(mass()));
    assert_eq!(force().mul(length()), length().mul(force()));
}

#[test]
fn dimensionless_is_multiplicative_identity() {
    // A * 1 = A
    assert_eq!(length().mul(dimensionless()), length());
    assert_eq!(force().mul(dimensionless()), force());
    assert_eq!(energy().mul(dimensionless()), energy());
    assert_eq!(voltage().mul(dimensionless()), voltage());
}

#[test]
fn reciprocal_is_multiplicative_inverse() {
    // A * A^-1 = 1
    assert!(length().mul(length().recip()).is_dimensionless());
    assert!(force().mul(force().recip()).is_dimensionless());
    assert!(energy().mul(energy().recip()).is_dimensionless());
    assert!(voltage().mul(voltage().recip()).is_dimensionless());
    assert!(acceleration().mul(acceleration().recip()).is_dimensionless());
}

#[test]
fn division_by_self_yields_dimensionless() {
    // A / A = 1
    assert!(length().div(length()).is_dimensionless());
    assert!(energy().div(energy()).is_dimensionless());
    assert!(force().div(force()).is_dimensionless());
    assert!(pressure().div(pressure()).is_dimensionless());
    assert!(charge().div(charge()).is_dimensionless());
}

#[test]
fn power_of_power_multiplies_exponents() {
    // (A^n)^m = A^(n * m)
    assert_eq!(length().pow(2).pow(3), length().pow(6));
    assert_eq!(time().pow(3).pow(2), time().pow(6));
    assert_eq!(mass().pow(2).pow(-2), mass().pow(-4));
}

#[test]
fn power_zero_yields_dimensionless() {
    // A^0 = 1
    assert!(length().pow(0).is_dimensionless());
    assert!(force().pow(0).is_dimensionless());
    assert!(energy().pow(0).is_dimensionless());
    assert!(voltage().pow(0).is_dimensionless());
}

#[test]
fn power_one_preserves_dimension() {
    // A^1 = A
    assert_eq!(length().pow(1), length());
    assert_eq!(force().pow(1), force());
    assert_eq!(energy().pow(1), energy());
    assert_eq!(resistance().pow(1), resistance());
}

#[test]
fn negative_power_equals_reciprocal_of_positive_power() {
    // A^(-n) = (A^n)^(-1)
    assert_eq!(length().pow(-2), length().pow(2).recip());
    assert_eq!(time().pow(-3), time().pow(3).recip());
    assert_eq!(mass().pow(-1), mass().recip());

    // Also verify A^(-1) = A.recip()
    assert_eq!(length().pow(-1), length().recip());
    assert_eq!(velocity().pow(-1), velocity().recip());
}

#[test]
fn dimensionless_remains_dimensionless_under_all_operations() {
    // 1 * 1 = 1
    assert!(dimensionless().mul(dimensionless()).is_dimensionless());

    // 1 / 1 = 1
    assert!(dimensionless().div(dimensionless()).is_dimensionless());

    // 1^n = 1
    assert!(dimensionless().pow(0).is_dimensionless());
    assert!(dimensionless().pow(1).is_dimensionless());
    assert!(dimensionless().pow(5).is_dimensionless());
    assert!(dimensionless().pow(-1).is_dimensionless());
    assert!(dimensionless().pow(-3).is_dimensionless());

    // 1.recip() = 1^(-1) = 1
    assert!(dimensionless().recip().is_dimensionless());
}

#[test]
fn power_distributes_over_multiplication() {
    // (A * B)^n = A^n * B^n
    let a = (length().mul(time())).pow(2);
    let b = length().pow(2).mul(time().pow(2));
    assert_eq!(a, b);
}

#[test]
fn power_distributes_over_division() {
    // (A / B)^n = A^n / B^n
    let a = (length().div(time())).pow(2);
    let b = length().pow(2).div(time().pow(2));
    assert_eq!(a, b);
}

#[test]
fn derived_dimensions_match_textbook_exponents() {
    let r = resistance();
    assert_eq!(
        (r.mass, r.length, r.time, r.electric_current),
        (1, 2, -3, -2)
    );
    let v = voltage();
    assert_eq!(
        (v.mass, v.length, v.time, v.electric_current),
        (1, 2, -3, -1)
    );
    let e = energy();
    assert_eq!((e.mass, e.length, e.time), (1, 2, -2));
}
