//! The seven SI base dimensions.
//!
//! Each constructor returns a [`Dimensions`] with exactly one exponent set to
//! one and all others zero.

use super::Dimensions;
use vstd::prelude::*;

verus! {

/// The time dimension (T), whose base unit is the second.
pub fn time() -> (r: Dimensions)
    ensures
        r == (Dimensions {
            time: 1i8,
            length: 0i8,
            mass: 0i8,
            electric_current: 0i8,
            thermodynamic_temperature: 0i8,
            amount_of_substance: 0i8,
            luminous_intensity: 0i8,
        }),
{
    Dimensions {
        time: 1,
        length: 0,
        mass: 0,
        electric_current: 0,
        thermodynamic_temperature: 0,
        amount_of_substance: 0,
        luminous_intensity: 0,
    }
}

/// The length dimension (L), whose base unit is the metre.
pub fn length() -> (r: Dimensions)
    ensures
        r == (Dimensions {
            time: 0i8,
            length: 1i8,
            mass: 0i8,
            electric_current: 0i8,
            thermodynamic_temperature: 0i8,
            amount_of_substance: 0i8,
            luminous_intensity: 0i8,
        }),
{
    Dimensions {
        time: 0,
        length: 1,
        mass: 0,
        electric_current: 0,
        thermodynamic_temperature: 0,
        amount_of_substance: 0,
        luminous_intensity: 0,
    }
}

/// The mass dimension (M), whose base unit is the kilogram.
pub fn mass() -> (r: Dimensions)
    ensures
        r == (Dimensions {
            time: 0i8,
            length: 0i8,
            mass: 1i8,
            electric_current: 0i8,
            thermodynamic_temperature: 0i8,
            amount_of_substance: 0i8,
            luminous_intensity: 0i8,
        }),
{
    Dimensions {
        time: 0,
        length: 0,
        mass: 1,
        electric_current: 0,
        thermodynamic_temperature: 0,
        amount_of_substance: 0,
        luminous_intensity: 0,
    }
}

/// The electric current dimension (I), whose base unit is the ampere.
pub fn electric_current() -> (r: Dimensions)
    ensures
        r == (Dimensions {
            time: 0i8,
            length: 0i8,
            mass: 0i8,
            electric_current: 1i8,
            thermodynamic_temperature: 0i8,
            amount_of_substance: 0i8,
            luminous_intensity: 0i8,
        }),
{
    Dimensions {
        time: 0,
        length: 0,
        mass: 0,
        electric_current: 1,
        thermodynamic_temperature: 0,
        amount_of_substance: 0,
        luminous_intensity: 0,
    }
}

/// The thermodynamic temperature dimension (Th), whose base unit is the
/// kelvin.
pub fn thermodynamic_temperature() -> (r: Dimensions)
    ensures
        r == (Dimensions {
            time: 0i8,
            length: 0i8,
            mass: 0i8,
            electric_current: 0i8,
            thermodynamic_temperature: 1i8,
            amount_of_substance: 0i8,
            luminous_intensity: 0i8,
        }),
{
    Dimensions {
        time: 0,
        length: 0,
        mass: 0,
        electric_current: 0,
        thermodynamic_temperature: 1,
        amount_of_substance: 0,
        luminous_intensity: 0,
    }
}

/// The amount of substance dimension (N), whose base unit is the mole.
pub fn amount_of_substance() -> (r: Dimensions)
    ensures
        r == (Dimensions {
            time: 0i8,
            length: 0i8,
            mass: 0i8,
            electric_current: 0i8,
            thermodynamic_temperature: 0i8,
            amount_of_substance: 1i8,
            luminous_intensity: 0i8,
        }),
{
    Dimensions {
        time: 0,
        length: 0,
        mass: 0,
        electric_current: 0,
        thermodynamic_temperature: 0,
        amount_of_substance: 1,
        luminous_intensity: 0,
    }
}

/// The luminous intensity dimension (J), whose base unit is the candela.
pub fn luminous_intensity() -> (r: Dimensions)
    ensures
        r == (Dimensions {
            time: 0i8,
            length: 0i8,
            mass: 0i8,
            electric_current: 0i8,
            thermodynamic_temperature: 0i8,
            amount_of_substance: 0i8,
            luminous_intensity: 1i8,
        }),
{
    Dimensions {
        time: 0,
        length: 0,
        mass: 0,
        electric_current: 0,
        thermodynamic_temperature: 0,
        amount_of_substance: 0,
        luminous_intensity: 1,
    }
}

} // verus!
