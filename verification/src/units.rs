//! Named unit constructors for common quantities.
//!
//! Each function wraps an exact rational magnitude in the matching unit:
//! the dimension of the named quantity and the metric prefix the name
//! carries. They are convenience spellings over [`Quantity::with_unit`].

use crate::dimensions::base;
use crate::dimensions::derived;
use crate::dimensions::exponents;
use crate::prefix;
use crate::quantity::Quantity;
use crate::rational::Rational;
use crate::unit::Unit;
use vstd::prelude::*;

verus! {

/// A length in metres.
pub fn meters(value: Rational) -> (r: Quantity)
    ensures
        r == (Quantity {
            value,
            unit: Unit {
                dimension: exponents(0i8, 1i8, 0i8, 0i8, 0i8, 0i8, 0i8),
                prefix: 0i8,
            },
        }),
{
    Quantity::with_unit(value, Unit::with_prefix(base::length(), prefix::BASE))
}

/// A length in kilometres.
pub fn kilometers(value: Rational) -> (r: Quantity)
    ensures
        r == (Quantity {
            value,
            unit: Unit {
                dimension: exponents(0i8, 1i8, 0i8, 0i8, 0i8, 0i8, 0i8),
                prefix: 3i8,
            },
        }),
{
    Quantity::with_unit(value, Unit::with_prefix(base::length(), prefix::KILO))
}

/// A length in centimetres.
pub fn centimeters(value: Rational) -> (r: Quantity)
    ensures
        r == (Quantity {
            value,
            unit: Unit {
                dimension: exponents(0i8, 1i8, 0i8, 0i8, 0i8, 0i8, 0i8),
                prefix: -2i8,
            },
        }),
{
    Quantity::with_unit(value, Unit::with_prefix(base::length(), prefix::CENTI))
}

/// A length in millimetres.
pub fn millimeters(value: Rational) -> (r: Quantity)
    ensures
        r == (Quantity {
            value,
            unit: Unit {
                dimension: exponents(0i8, 1i8, 0i8, 0i8, 0i8, 0i8, 0i8),
                prefix: -3i8,
            },
        }),
{
    Quantity::with_unit(value, Unit::with_prefix(base::length(), prefix::MILLI))
}

/// A mass in kilograms, the SI base unit of mass.
pub fn kilograms(value: Rational) -> (r: Quantity)
    ensures
        r == (Quantity {
            value,
            unit: Unit {
                dimension: exponents(0i8, 0i8, 1i8, 0i8, 0i8, 0i8, 0i8),
                prefix: 0i8,
            },
        }),
{
    Quantity::with_unit(value, Unit::with_prefix(base::mass(), prefix::BASE))
}

/// A mass in grams: a thousandth of the base unit.
pub fn grams(value: Rational) -> (r: Quantity)
    ensures
        r == (Quantity {
            value,
            unit: Unit {
                dimension: exponents(0i8, 0i8, 1i8, 0i8, 0i8, 0i8, 0i8),
                prefix: -3i8,
            },
        }),
{
    Quantity::with_unit(value, Unit::with_prefix(base::mass(), prefix::MILLI))
}

/// A time in seconds.
pub fn seconds(value: Rational) -> (r: Quantity)
    ensures
        r == (Quantity {
            value,
            unit: Unit {
                dimension: exponents(1i8, 0i8, 0i8, 0i8, 0i8, 0i8, 0i8),
                prefix: 0i8,
            },
        }),
{
    Quantity::with_unit(value, Unit::with_prefix(base::time(), prefix::BASE))
}

/// A time in milliseconds.
pub fn milliseconds(value: Rational) -> (r: Quantity)
    ensures
        r == (Quantity {
            value,
            unit: Unit {
                dimension: exponents(1i8, 0i8, 0i8, 0i8, 0i8, 0i8, 0i8),
                prefix: -3i8,
            },
        }),
{
    Quantity::with_unit(value, Unit::with_prefix(base::time(), prefix::MILLI))
}

/// An electric current in amperes.
pub fn amperes(value: Rational) -> (r: Quantity)
    ensures
        r == (Quantity {
            value,
            unit: Unit {
                dimension: exponents(0i8, 0i8, 0i8, 1i8, 0i8, 0i8, 0i8),
                prefix: 0i8,
            },
        }),
{
    Quantity::with_unit(value, Unit::with_prefix(base::electric_current(), prefix::BASE))
}

/// An electric current in milliamperes.
pub fn milliamperes(value: Rational) -> (r: Quantity)
    ensures
        r == (Quantity {
            value,
            unit: Unit {
                dimension: exponents(0i8, 0i8, 0i8, 1i8, 0i8, 0i8, 0i8),
                prefix: -3i8,
            },
        }),
{
    Quantity::with_unit(value, Unit::with_prefix(base::electric_current(), prefix::MILLI))
}

/// An electric potential in volts.
pub fn volts(value: Rational) -> (r: Quantity)
    ensures
        r == (Quantity {
            value,
            unit: Unit {
                dimension: exponents(-3i8, 2i8, 1i8, -1i8, 0i8, 0i8, 0i8),
                prefix: 0i8,
            },
        }),
{
    Quantity::with_unit(value, Unit::with_prefix(derived::voltage(), prefix::BASE))
}

/// An electric potential in millivolts.
pub fn millivolts(value: Rational) -> (r: Quantity)
    ensures
        r == (Quantity {
            value,
            unit: Unit {
                dimension: exponents(-3i8, 2i8, 1i8, -1i8, 0i8, 0i8, 0i8),
                prefix: -3i8,
            },
        }),
{
    Quantity::with_unit(value, Unit::with_prefix(derived::voltage(), prefix::MILLI))
}

/// An electric potential in kilovolts.
pub fn kilovolts(value: Rational) -> (r: Quantity)
    ensures
        r == (Quantity {
            value,
            unit: Unit {
                dimension: exponents(-3i8, 2i8, 1i8, -1i8, 0i8, 0i8, 0i8),
                prefix: 3i8,
            },
        }),
{
    Quantity::with_unit(value, Unit::with_prefix(derived::voltage(), prefix::KILO))
}

/// An electric resistance in ohms.
pub fn ohms(value: Rational) -> (r: Quantity)
    ensures
        r == (Quantity {
            value,
            unit: Unit {
                dimension: exponents(-3i8, 2i8, 1i8, -2i8, 0i8, 0i8, 0i8),
                prefix: 0i8,
            },
        }),
{
    Quantity::with_unit(value, Unit::with_prefix(derived::resistance(), prefix::BASE))
}

/// An electric resistance in kilohms.
pub fn kilohms(value: Rational) -> (r: Quantity)
    ensures
        r == (Quantity {
            value,
            unit: Unit {
                dimension: exponents(-3i8, 2i8, 1i8, -2i8, 0i8, 0i8, 0i8),
                prefix: 3i8,
            },
        }),
{
    Quantity::with_unit(value, Unit::with_prefix(derived::resistance(), prefix::KILO))
}

/// A power in watts.
pub fn watts(value: Rational) -> (r: Quantity)
    ensures
        r == (Quantity {
            value,
            unit: Unit {
                dimension: exponents(-3i8, 2i8, 1i8, 0i8, 0i8, 0i8, 0i8),
                prefix: 0i8,
            },
        }),
{
    Quantity::with_unit(value, Unit::with_prefix(derived::power(), prefix::BASE))
}

/// A power in milliwatts.
pub fn milliwatts(value: Rational) -> (r: Quantity)
    ensures
        r == (Quantity {
            value,
            unit: Unit {
                dimension: exponents(-3i8, 2i8, 1i8, 0i8, 0i8, 0i8, 0i8),
                prefix: -3i8,
            },
        }),
{
    Quantity::with_unit(value, Unit::with_prefix(derived::power(), prefix::MILLI))
}

/// An energy in joules.
pub fn joules(value: Rational) -> (r: Quantity)
    ensures
        r == (Quantity {
            value,
            unit: Unit {
                dimension: exponents(-2i8, 2i8, 1i8, 0i8, 0i8, 0i8, 0i8),
                prefix: 0i8,
            },
        }),
{
    Quantity::with_unit(value, Unit::with_prefix(derived::energy(), prefix::BASE))
}

/// A frequency in hertz.
pub fn hertz(value: Rational) -> (r: Quantity)
    ensures
        r == (Quantity {
            value,
            unit: Unit {
                dimension: exponents(-1i8, 0i8, 0i8, 0i8, 0i8, 0i8, 0i8),
                prefix: 0i8,
            },
        }),
{
    Quantity::with_unit(value, Unit::with_prefix(derived::frequency(), prefix::BASE))
}

/// A force in newtons.
pub fn newtons(value: Rational) -> (r: Quantity)
    ensures
        r == (Quantity {
            value,
            unit: Unit {
                dimension: exponents(-2i8, 1i8, 1i8, 0i8, 0i8, 0i8, 0i8),
                prefix: 0i8,
            },
        }),
{
    Quantity::with_unit(value, Unit::with_prefix(derived::force(), prefix::BASE))
}

/// A pressure in pascals.
pub fn pascals(value: Rational) -> (r: Quantity)
    ensures
        r == (Quantity {
            value,
            unit: Unit {
                dimension: exponents(-2i8, -1i8, 1i8, 0i8, 0i8, 0i8, 0i8),
                prefix: 0i8,
            },
        }),
{
    Quantity::with_unit(value, Unit::with_prefix(derived::pressure(), prefix::BASE))
}

/// An electric capacitance in farads.
pub fn farads(value: Rational) -> (r: Quantity)
    ensures
        r == (Quantity {
            value,
            unit: Unit {
                dimension: exponents(4i8, -2i8, -1i8, 2i8, 0i8, 0i8, 0i8),
                prefix: 0i8,
            },
        }),
{
    Quantity::with_unit(value, Unit::with_prefix(derived::capacitance(), prefix::BASE))
}

/// An electric capacitance in millifarads.
pub fn millifarads(value: Rational) -> (r: Quantity)
    ensures
        r == (Quantity {
            value,
            unit: Unit {
                dimension: exponents(4i8, -2i8, -1i8, 2i8, 0i8, 0i8, 0i8),
                prefix: -3i8,
            },
        }),
{
    Quantity::with_unit(value, Unit::with_prefix(derived::capacitance(), prefix::MILLI))
}

/// An electric capacitance in microfarads.
pub fn microfarads(value: Rational) -> (r: Quantity)
    ensures
        r == (Quantity {
            value,
            unit: Unit {
                dimension: exponents(4i8, -2i8, -1i8, 2i8, 0i8, 0i8, 0i8),
                prefix: -6i8,
            },
        }),
{
    Quantity::with_unit(value, Unit::with_prefix(derived::capacitance(), prefix::MICRO))
}

/// An electric charge in coulombs.
pub fn coulombs(value: Rational) -> (r: Quantity)
    ensures
        r == (Quantity {
            value,
            unit: Unit {
                dimension: exponents(1i8, 0i8, 0i8, 1i8, 0i8, 0i8, 0i8),
                prefix: 0i8,
            },
        }),
{
    Quantity::with_unit(value, Unit::with_prefix(derived::charge(), prefix::BASE))
}

/// An electric charge in microcoulombs.
pub fn microcoulombs(value: Rational) -> (r: Quantity)
    ensures
        r == (Quantity {
            value,
            unit: Unit {
                dimension: exponents(1i8, 0i8, 0i8, 1i8, 0i8, 0i8, 0i8),
                prefix: -6i8,
            },
        }),
{
    Quantity::with_unit(value, Unit::with_prefix(derived::charge(), prefix::MICRO))
}

} // verus!
