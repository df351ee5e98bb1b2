//! Rational number storage for exact arithmetic.
//!
//! [`RationalStorage`] keeps a quantity's magnitude as an exact
//! [`Rational`], so no arithmetic here ever rounds. Operations panic on
//! overflow when called from unverified code; verified callers rule the
//! overflow out up front.

use crate::rational::ops::add_in_range;
use crate::rational::ops::mul_in_range;
use crate::rational::recip_spec;
use crate::rational::reduce_spec;
use crate::rational::Rational;
use vstd::prelude::*;

verus! {

/// Storage that keeps values as exact rational numbers.
#[derive(Clone, Copy, Debug, PartialEq, Eq, Structural)]
pub struct RationalStorage {
    value: Rational,
}

impl RationalStorage {
    /// The stored rational value.
    pub closed spec fn view(self) -> Rational {
        self.value
    }

    /// Creates a storage holding the given rational value.
    pub fn from_rational(value: Rational) -> (r: Self)
        ensures
            r.view() == value,
    {
        Self { value }
    }

    /// Creates a storage from a numerator and a denominator, reduced to
    /// lowest terms.
    ///
    /// Callers must pass a nonzero denominator; an unverified caller that
    /// passes zero hits a panic.
    pub fn from_ratio(numerator: i128, denominator: u128) -> (r: Self)
        requires
            denominator != 0,
        ensures
            r.view() == reduce_spec(numerator as int, denominator as nat),
            r.view().wf(),
    {
        Self { value: Rational::new(numerator, denominator) }
    }

    /// Creates a storage holding an integer value.
    pub fn from_int(value: i128) -> (r: Self)
        ensures
            r.view().wf(),
            r.view().num() == value as int,
            r.view().den() == 1,
    {
        Self { value: Rational::new_int(value) }
    }

    /// Returns the numerator of the stored rational.
    pub fn numerator(&self) -> (r: i128)
        ensures
            r as int == self.view().num(),
    {
        self.value.numerator()
    }

    /// Returns the denominator of the stored rational.
    pub fn denominator(&self) -> (r: u128)
        ensures
            r as nat == self.view().den(),
    {
        self.value.denominator()
    }

    /// Returns the raw stored value without any conversion.
    pub fn raw_value(&self) -> (r: Rational)
        ensures
            r == self.view(),
    {
        self.value
    }

    /// Adds two stored values exactly.
    ///
    /// Callers must stay within representable magnitudes; an unverified
    /// caller that does not hits a panic.
    pub fn add(&self, other: &Self) -> (r: Self)
        requires
            self.view().wf(),
            other.view().wf(),
            add_in_range(self.view(), other.view()),
        ensures
            r.view() == reduce_spec(
                self.view().num() * other.view().den() + other.view().num() * self.view().den(),
                (self.view().den() * other.view().den()) as nat,
            ),
            r.view().wf(),
    {
        Self { value: self.value.checked_add(&other.value).unwrap() }
    }

    /// Subtracts two stored values exactly.
    ///
    /// Callers must stay within representable magnitudes; an unverified
    /// caller that does not hits a panic.
    pub fn sub(&self, other: &Self) -> (r: Self)
        requires
            self.view().wf(),
            other.view().wf(),
            other.view().num() != i128::MIN,
            add_in_range(
                self.view(),
                Rational {
                    numerator: (-other.view().num()) as i128,
                    denominator: other.view().denominator,
                },
            ),
        ensures
            r.view() == reduce_spec(
                self.view().num() * other.view().den() - other.view().num() * self.view().den(),
                (self.view().den() * other.view().den()) as nat,
            ),
            r.view().wf(),
    {
        Self { value: self.value.checked_sub(&other.value).unwrap() }
    }

    /// Multiplies two stored values exactly.
    ///
    /// Callers must stay within representable magnitudes; an unverified
    /// caller that does not hits a panic.
    pub fn mul(&self, other: &Self) -> (r: Self)
        requires
            self.view().wf(),
            other.view().wf(),
            mul_in_range(self.view(), other.view()),
        ensures
            r.view() == reduce_spec(
                self.view().num() * other.view().num(),
                (self.view().den() * other.view().den()) as nat,
            ),
            r.view().wf(),
    {
        Self { value: self.value.checked_mul(&other.value).unwrap() }
    }

    /// Divides two stored values exactly.
    ///
    /// Callers must pass a nonzero divisor and stay within representable
    /// magnitudes; an unverified caller that does not hits a panic.
    pub fn div(&self, other: &Self) -> (r: Self)
        requires
            self.view().wf(),
            other.view().wf(),
            other.view().num() != 0,
            other.view().den() <= i128::MAX,
            mul_in_range(self.view(), recip_spec(other.view())),
        ensures
            r.view() == reduce_spec(
                self.view().num() * recip_spec(other.view()).num(),
                (self.view().den() * recip_spec(other.view()).den()) as nat,
            ),
            r.view().wf(),
    {
        Self { value: self.value.checked_div(&other.value).unwrap() }
    }

    /// Negates the stored value exactly.
    ///
    /// Callers must keep the numerator negatable; an unverified caller that
    /// does not hits a panic.
    pub fn neg(&self) -> (r: Self)
        requires
            self.view().wf(),
            self.view().num() != i128::MIN,
        ensures
            r.view() == (Rational {
                numerator: (-self.view().num()) as i128,
                denominator: self.view().denominator,
            }),
            r.view().wf(),
    {
        Self { value: self.value.checked_neg().unwrap() }
    }
}

impl Default for RationalStorage {
    /// The zero storage, holding `0 / 1`.
    fn default() -> (r: Self)
        ensures
            r.view().wf(),
            r.view().num() == 0,
            r.view().den() == 1,
    {
        Self { value: Rational::zero() }
    }
}

} // verus!
