//! Tests for quantities, units and prefixes.

use danwi::dimensions::base::length;
use danwi::units::amperes;
use danwi::units::coulombs;
use danwi::units::joules;
use danwi::units::kilohms;
use danwi::units::kilometers;
use danwi::units::meters;
use danwi::units::microcoulombs;
use danwi::units::microfarads;
use danwi::units::milliamperes;
use danwi::units::millifarads;
use danwi::units::millivolts;
use danwi::units::ohms;
use danwi::units::seconds;
use danwi::units::volts;
use danwi::units::watts;
use danwi::Quantity;
use danwi::Rational;
use danwi::Unit;

#[test]
fn smoketest() {
    let two_ma = milliamperes(Rational::new_int(2));
    let thousand_ohm = ohms(Rational::new_int(1000));
    let two_v = volts(Rational::new_int(2));
    assert!((two_ma * thousand_ohm).equals(&two_v));
    let one_kohm = kilohms(Rational::new_int(1));
    assert!((two_ma * one_kohm).equals(&two_v));

    let twelve_v = volts(Rational::new_int(12));
    let half_a = amperes(Rational::new(1, 2));
    let six_w = watts(Rational::new_int(6));
    assert!((twelve_v * half_a).equals(&six_w));

    let hundred_w = watts(Rational::new_int(100));
    let three_h = seconds(Rational::new_int(3 * 3600));
    let expected = joules(Rational::new_int(100 * 3 * 3600));
    assert!((hundred_w * three_h).equals(&expected));
}

#[test]
fn cross_prefix_addition_is_exact() {
    // 1 km + 500 m == 1500 m, exactly.
    let a = kilometers(Rational::new_int(1));
    let b = meters(Rational::new_int(500));
    let sum = a + b;
    assert_eq!(sum.unit.prefix, 0);
    assert_eq!(sum.value(), Rational::new_int(1500));
    assert!(sum.equals(&meters(Rational::new_int(1500))));
}

#[test]
fn cross_prefix_subtraction_is_exact() {
    // 1 km - 250 m == 750 m, exactly.
    let a = kilometers(Rational::new_int(1));
    let b = meters(Rational::new_int(250));
    let difference = a - b;
    assert_eq!(difference.value(), Rational::new_int(750));
}

#[test]
fn ohms_law_derives_voltage() {
    // 20 mA * 470 Ohm == 9.4 V
    let current = milliamperes(Rational::new_int(20));
    let resistance = ohms(Rational::new_int(470));
    let voltage = current * resistance;
    assert!(voltage.equals(&volts(Rational::new(94, 10))));
    assert_eq!(voltage.value(), Rational::new(47, 5));
}

#[test]
fn power_is_voltage_times_current() {
    // 5 V * 500 mA == 2.5 W
    let v = volts(Rational::new_int(5));
    let i = milliamperes(Rational::new_int(500));
    let p = v * i;
    assert!(p.equals(&watts(Rational::new(5, 2))));
}

#[test]
fn rc_time_constant_is_a_time() {
    // 1 kOhm * 1 mF == 1 s
    let r = kilohms(Rational::new_int(1));
    let c = millifarads(Rational::new_int(1));
    let tau = r * c;
    assert!(tau.equals(&seconds(Rational::new_int(1))));
}

#[test]
fn capacitor_charge_is_capacitance_times_voltage() {
    // 100 uF * 5 V == 500 uC
    let c = microfarads(Rational::new_int(100));
    let v = volts(Rational::new_int(5));
    let q = c * v;
    assert!(q.equals(&microcoulombs(Rational::new_int(500))));
    // Expressed at the base prefix, that is 1/2000 of a coulomb.
    assert!(q.equals(&coulombs(Rational::new(1, 2000))));
}

#[test]
fn conversion_to_millivolts_is_exact() {
    // 3.3 V expressed in millivolts is exactly 3300 mV.
    let v = volts(Rational::new(33, 10));
    let mv = millivolts(Rational::new_int(0));
    let converted = v.to(mv.unit);
    assert_eq!(converted.unit.prefix, -3);
    assert_eq!(converted.value(), Rational::new_int(3300));
    assert!(converted.equals(&v));
}

#[test]
fn prefix_round_trip_preserves_the_value() {
    // q.to(U1).to(U2) == q.to(U2), exactly.
    let q = meters(Rational::new(7, 4));
    let u1 = Unit::with_prefix(length(), -3);
    let u2 = Unit::with_prefix(length(), 3);
    let through = q.to(u1).to(u2);
    let direct = q.to(u2);
    assert_eq!(through.value(), direct.value());
    assert_eq!(through.unit, direct.unit);
    assert!(through.equals(&q));
}

#[test]
fn division_derives_the_quotient_dimension() {
    // 9.4 V / 470 Ohm == 20 mA
    let v = volts(Rational::new(94, 10));
    let r = ohms(Rational::new_int(470));
    let i = v / r;
    assert!(i.equals(&milliamperes(Rational::new_int(20))));
}

#[test]
fn scalar_multiplication_keeps_the_unit() {
    let d = meters(Rational::new_int(6));
    let scaled = d * Rational::new(3, 2);
    assert_eq!(scaled.unit, d.unit);
    assert_eq!(scaled.value(), Rational::new_int(9));
    let halved = d / Rational::new_int(2);
    assert_eq!(halved.value(), Rational::new_int(3));
    assert_eq!(d.mul_scalar(Rational::new(3, 2)).value(), scaled.value());
    assert_eq!(d.div_scalar(Rational::new_int(2)).value(), halved.value());
}

#[test]
fn negation_keeps_unit_and_prefix() {
    let q = kilometers(Rational::new_int(4));
    let n = -q;
    assert_eq!(n.unit, q.unit);
    assert_eq!(n.value(), Rational::new_int(-4));
    assert!((-n).equals(&q));
}

#[test]
fn quantity_construction_exposes_value_and_unit() {
    let q = Quantity::new(Rational::new(5, 2), length());
    assert_eq!(q.value(), Rational::new(5, 2));
    assert_eq!(q.unit, Unit::base(length()));
    let w = Quantity::with_unit(Rational::new_int(9), Unit::with_prefix(length(), 3));
    assert_eq!(w.unit.prefix, 3);
    assert_eq!(w.value(), Rational::new_int(9));
}

#[test]
fn equality_normalizes_prefixes() {
    let km = kilometers(Rational::new_int(2));
    let m = meters(Rational::new_int(2000));
    assert!(km.equals(&m));
    assert!(!km.equals(&meters(Rational::new_int(2001))));
}
