//! Common derived dimensions, each built from the seven base dimensions with
//! the dimension algebra, and pinned to its textbook SI exponent vector.

use super::base;
use super::exponents;
use super::Dimensions;
use vstd::prelude::*;

verus! {

/// The dimensionless dimension: every exponent is zero.
pub fn dimensionless() -> (r: Dimensions)
    ensures
        r == exponents(0i8, 0i8, 0i8, 0i8, 0i8, 0i8, 0i8),
{
    Dimensions::dimensionless()
}

/// The frequency dimension (T^-1), whose unit is the hertz.
pub fn frequency() -> (r: Dimensions)
    ensures
        r == exponents(-1i8, 0i8, 0i8, 0i8, 0i8, 0i8, 0i8),
{
    base::time().recip()
}

/// The area dimension (L^2).
pub fn area() -> (r: Dimensions)
    ensures
        r == exponents(0i8, 2i8, 0i8, 0i8, 0i8, 0i8, 0i8),
{
    base::length().pow(2)
}

/// The volume dimension (L^3).
pub fn volume() -> (r: Dimensions)
    ensures
        r == exponents(0i8, 3i8, 0i8, 0i8, 0i8, 0i8, 0i8),
{
    base::length().pow(3)
}

/// The velocity dimension (L T^-1).
pub fn velocity() -> (r: Dimensions)
    ensures
        r == exponents(-1i8, 1i8, 0i8, 0i8, 0i8, 0i8, 0i8),
{
    base::length().div(base::time())
}

/// The acceleration dimension (L T^-2).
pub fn acceleration() -> (r: Dimensions)
    ensures
        r == exponents(-2i8, 1i8, 0i8, 0i8, 0i8, 0i8, 0i8),
{
    velocity().div(base::time())
}

/// The force dimension (M L T^-2), whose unit is the newton.
pub fn force() -> (r: Dimensions)
    ensures
        r == exponents(-2i8, 1i8, 1i8, 0i8, 0i8, 0i8, 0i8),
{
    base::mass().mul(acceleration())
}

/// The energy dimension (M L^2 T^-2), whose unit is the joule.
pub fn energy() -> (r: Dimensions)
    ensures
        r == exponents(-2i8, 2i8, 1i8, 0i8, 0i8, 0i8, 0i8),
{
    force().mul(base::length())
}

/// The power dimension (M L^2 T^-3), whose unit is the watt.
pub fn power() -> (r: Dimensions)
    ensures
        r == exponents(-3i8, 2i8, 1i8, 0i8, 0i8, 0i8, 0i8),
{
    energy().div(base::time())
}

/// The pressure dimension (M L^-1 T^-2), whose unit is the pascal.
pub fn pressure() -> (r: Dimensions)
    ensures
        r == exponents(-2i8, -1i8, 1i8, 0i8, 0i8, 0i8, 0i8),
{
    force().div(area())
}

/// The electric charge dimension (T I), whose unit is the coulomb.
pub fn charge() -> (r: Dimensions)
    ensures
        r == exponents(1i8, 0i8, 0i8, 1i8, 0i8, 0i8, 0i8),
{
    base::electric_current().mul(base::time())
}

/// The electric potential dimension (M L^2 T^-3 I^-1), whose unit is the
/// volt.
pub fn voltage() -> (r: Dimensions)
    ensures
        r == exponents(-3i8, 2i8, 1i8, -1i8, 0i8, 0i8, 0i8),
{
    power().div(base::electric_current())
}

/// The electric resistance dimension (M L^2 T^-3 I^-2), whose unit is the
/// ohm.
pub fn resistance() -> (r: Dimensions)
    ensures
        r == exponents(-3i8, 2i8, 1i8, -2i8, 0i8, 0i8, 0i8),
{
    voltage().div(base::electric_current())
}

/// The electric conductance dimension (M^-1 L^-2 T^3 I^2), whose unit is the
/// siemens.
pub fn conductance() -> (r: Dimensions)
    ensures
        r == exponents(3i8, -2i8, -1i8, 2i8, 0i8, 0i8, 0i8),
{
    resistance().recip()
}

/// The electric capacitance dimension (M^-1 L^-2 T^4 I^2), whose unit is the
/// farad.
pub fn capacitance() -> (r: Dimensions)
    ensures
        r == exponents(4i8, -2i8, -1i8, 2i8, 0i8, 0i8, 0i8),
{
    charge().div(voltage())
}

/// The magnetic flux dimension (M L^2 T^-2 I^-1), whose unit is the weber.
pub fn magnetic_flux() -> (r: Dimensions)
    ensures
        r == exponents(-2i8, 2i8, 1i8, -1i8, 0i8, 0i8, 0i8),
{
    voltage().mul(base::time())
}

/// The electric inductance dimension (M L^2 T^-2 I^-2), whose unit is the
/// henry.
pub fn inductance() -> (r: Dimensions)
    ensures
        r == exponents(-2i8, 2i8, 1i8, -2i8, 0i8, 0i8, 0i8),
{
    magnetic_flux().div(base::electric_current())
}

/// The magnetic flux density dimension (M T^-2 I^-1), whose unit is the
/// tesla.
pub fn magnetic_flux_density() -> (r: Dimensions)
    ensures
        r == exponents(-2i8, 0i8, 1i8, -1i8, 0i8, 0i8, 0i8),
{
    magnetic_flux().div(base::length().pow(2))
}

} // verus!
