//! Dimensional analysis over the seven SI base quantities, with exact
//! rational arithmetic.
//!
//! A [`dimensions::Dimensions`] value records the exponent of each SI base
//! quantity; multiplying quantities adds exponents, dividing subtracts them,
//! and combining incompatible dimensions is rejected before it can produce a
//! wrong number. A [`quantity::Quantity`] pairs an exact
//! [`rational::Rational`] magnitude with a [`unit::Unit`], a dimension and a
//! metric-prefix exponent, so that quantities written at different prefixes
//! combine without loss: one kilometre plus five hundred metres is exactly
//! fifteen hundred metres.
//!
//! The [`rational`] module carries the numeric weight: fractions over an
//! `i128` numerator and a `u128` denominator, always in lowest terms, with
//! overflow-checked arithmetic, exact scaling by powers of ten, and a
//! continued-fraction approximation that turns a decomposed IEEE double into
//! the closest fraction under a denominator bound.

pub mod dimensions;
pub mod prefix;
pub mod quantity;
pub mod rational;
pub mod storage;
pub mod unit;
pub mod units;

pub use dimensions::Dimensions;
pub use quantity::Quantity;
pub use rational::Rational;
pub use unit::Unit;
