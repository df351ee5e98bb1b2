//! Units: a dimension together with a metric-prefix exponent.

use crate::dimensions::Dimensions;
use vstd::prelude::*;

verus! {

/// A unit pairs a [`Dimensions`] value with a metric-prefix exponent: the
/// power of ten relative to the SI base unit of that dimension, such as
/// three for kilo or minus three for milli.
///
/// A prefix is meaningful only relative to quantities of the same dimension;
/// every operation that relates two units demands equal dimensions.
#[derive(Debug, Clone, Copy, PartialEq, Eq, Structural)]
pub struct Unit {
    /// The physical dimension measured by this unit.
    pub dimension: Dimensions,
    /// The power of ten relative to the SI base unit.
    pub prefix: i8,
}

impl Unit {
    /// The unit of the given dimension at the given metric prefix.
    pub fn with_prefix(dimension: Dimensions, prefix: i8) -> (r: Self)
        ensures
            r == (Unit { dimension, prefix }),
    {
        Self { dimension, prefix }
    }

    /// The SI base unit of the given dimension: prefix zero.
    pub fn base(dimension: Dimensions) -> (r: Self)
        ensures
            r == (Unit { dimension, prefix: 0i8 }),
    {
        Self::with_prefix(dimension, 0)
    }
}

} // verus!
