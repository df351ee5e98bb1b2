//! Dimensional analysis for the SI system.
//!
//! The [`Dimensions`] struct tracks the exponents of the seven SI base
//! quantities. Multiplying two dimensions adds the exponent vectors,
//! dividing subtracts them, and raising to a power scales them.

pub mod base;
pub mod derived;

use vstd::prelude::*;

verus! {

/// The dimensional exponents of the seven SI base quantities.
///
/// Each field is the power to which that base quantity is raised; a value
/// with all exponents zero is dimensionless.
#[derive(Debug, Clone, Copy, PartialEq, Eq, Structural)]
pub struct Dimensions {
    /// Exponent for the time dimension (T).
    pub time: i8,
    /// Exponent for the length dimension (L).
    pub length: i8,
    /// Exponent for the mass dimension (M).
    pub mass: i8,
    /// Exponent for the electric current dimension (I).
    pub electric_current: i8,
    /// Exponent for the thermodynamic temperature dimension (Th).
    pub thermodynamic_temperature: i8,
    /// Exponent for the amount of substance dimension (N).
    pub amount_of_substance: i8,
    /// Exponent for the luminous intensity dimension (J).
    pub luminous_intensity: i8,
}

/// The dimension with the given exponents, in the order time, length, mass,
/// electric current, thermodynamic temperature, amount of substance, luminous
/// intensity.
pub open spec fn exponents(
    time: i8,
    length: i8,
    mass: i8,
    electric_current: i8,
    thermodynamic_temperature: i8,
    amount_of_substance: i8,
    luminous_intensity: i8,
) -> Dimensions {
    Dimensions {
        time,
        length,
        mass,
        electric_current,
        thermodynamic_temperature,
        amount_of_substance,
        luminous_intensity,
    }
}

impl Dimensions {
    /// True when every pairwise sum of exponents fits in `i8`, so that
    /// multiplying the two dimensions is defined.
    pub open spec fn can_mul(self, other: Self) -> bool {
        &&& i8::MIN <= self.time + other.time <= i8::MAX
        &&& i8::MIN <= self.length + other.length <= i8::MAX
        &&& i8::MIN <= self.mass + other.mass <= i8::MAX
        &&& i8::MIN <= self.electric_current + other.electric_current <= i8::MAX
        &&& i8::MIN <= self.thermodynamic_temperature + other.thermodynamic_temperature
            <= i8::MAX
        &&& i8::MIN <= self.amount_of_substance + other.amount_of_substance <= i8::MAX
        &&& i8::MIN <= self.luminous_intensity + other.luminous_intensity <= i8::MAX
    }

    /// The element-wise sum of the two exponent vectors.
    pub open spec fn mul_spec(self, other: Self) -> Dimensions {
        Dimensions {
            time: (self.time + other.time) as i8,
            length: (self.length + other.length) as i8,
            mass: (self.mass + other.mass) as i8,
            electric_current: (self.electric_current + other.electric_current) as i8,
            thermodynamic_temperature: (self.thermodynamic_temperature
                + other.thermodynamic_temperature) as i8,
            amount_of_substance: (self.amount_of_substance + other.amount_of_substance) as i8,
            luminous_intensity: (self.luminous_intensity + other.luminous_intensity) as i8,
        }
    }

    /// True when every pairwise difference of exponents fits in `i8`, so that
    /// dividing the two dimensions is defined.
    pub open spec fn can_div(self, other: Self) -> bool {
        &&& i8::MIN <= self.time - other.time <= i8::MAX
        &&& i8::MIN <= self.length - other.length <= i8::MAX
        &&& i8::MIN <= self.mass - other.mass <= i8::MAX
        &&& i8::MIN <= self.electric_current - other.electric_current <= i8::MAX
        &&& i8::MIN <= self.thermodynamic_temperature - other.thermodynamic_temperature
            <= i8::MAX
        &&& i8::MIN <= self.amount_of_substance - other.amount_of_substance <= i8::MAX
        &&& i8::MIN <= self.luminous_intensity - other.luminous_intensity <= i8::MAX
    }

    /// The element-wise difference of the two exponent vectors.
    pub open spec fn div_spec(self, other: Self) -> Dimensions {
        Dimensions {
            time: (self.time - other.time) as i8,
            length: (self.length - other.length) as i8,
            mass: (self.mass - other.mass) as i8,
            electric_current: (self.electric_current - other.electric_current) as i8,
            thermodynamic_temperature: (self.thermodynamic_temperature
                - other.thermodynamic_temperature) as i8,
            amount_of_substance: (self.amount_of_substance - other.amount_of_substance) as i8,
            luminous_intensity: (self.luminous_intensity - other.luminous_intensity) as i8,
        }
    }

    /// True when every exponent times `n` fits in `i8`, so that raising the
    /// dimension to the power `n` is defined.
    pub open spec fn can_pow(self, n: i8) -> bool {
        &&& i8::MIN <= self.time * n <= i8::MAX
        &&& i8::MIN <= self.length * n <= i8::MAX
        &&& i8::MIN <= self.mass * n <= i8::MAX
        &&& i8::MIN <= self.electric_current * n <= i8::MAX
        &&& i8::MIN <= self.thermodynamic_temperature * n <= i8::MAX
        &&& i8::MIN <= self.amount_of_substance * n <= i8::MAX
        &&& i8::MIN <= self.luminous_intensity * n <= i8::MAX
    }

    /// The exponent vector scaled element-wise by `n`.
    pub open spec fn pow_spec(self, n: i8) -> Dimensions {
        Dimensions {
            time: (self.time * n) as i8,
            length: (self.length * n) as i8,
            mass: (self.mass * n) as i8,
            electric_current: (self.electric_current * n) as i8,
            thermodynamic_temperature: (self.thermodynamic_temperature * n) as i8,
            amount_of_substance: (self.amount_of_substance * n) as i8,
            luminous_intensity: (self.luminous_intensity * n) as i8,
        }
    }

    /// True iff every exponent is zero.
    pub open spec fn is_dimensionless_spec(self) -> bool {
        &&& self.time == 0
        &&& self.length == 0
        &&& self.mass == 0
        &&& self.electric_current == 0
        &&& self.thermodynamic_temperature == 0
        &&& self.amount_of_substance == 0
        &&& self.luminous_intensity == 0
    }

    /// Creates a dimensionless quantity: all exponents are zero.
    pub fn dimensionless() -> (r: Self)
        ensures
            r.is_dimensionless_spec(),
    {
        Self {
            time: 0,
            length: 0,
            mass: 0,
            electric_current: 0,
            thermodynamic_temperature: 0,
            amount_of_substance: 0,
            luminous_intensity: 0,
        }
    }

    /// Multiplies two dimensions: the exponents of the result are the sums of
    /// the corresponding exponents of `self` and `other`.
    pub fn mul(self, other: Self) -> (r: Self)
        requires
            self.can_mul(other),
        ensures
            r == self.mul_spec(other),
    {
        Self {
            time: self.time + other.time,
            length: self.length + other.length,
            mass: self.mass + other.mass,
            electric_current: self.electric_current + other.electric_current,
            thermodynamic_temperature: self.thermodynamic_temperature
                + other.thermodynamic_temperature,
            amount_of_substance: self.amount_of_substance + other.amount_of_substance,
            luminous_intensity: self.luminous_intensity + other.luminous_intensity,
        }
    }

    /// Divides two dimensions: the exponents of the result are the differences
    /// of the corresponding exponents of `self` and `other`.
    pub fn div(self, other: Self) -> (r: Self)
        requires
            self.can_div(other),
        ensures
            r == self.div_spec(other),
    {
        Self {
            time: self.time - other.time,
            length: self.length - other.length,
            mass: self.mass - other.mass,
            electric_current: self.electric_current - other.electric_current,
            thermodynamic_temperature: self.thermodynamic_temperature
                - other.thermodynamic_temperature,
            amount_of_substance: self.amount_of_substance - other.amount_of_substance,
            luminous_intensity: self.luminous_intensity - other.luminous_intensity,
        }
    }

    /// Raises a dimension to a power: every exponent is multiplied by `n`.
    pub fn pow(self, n: i8) -> (r: Self)
        requires
            self.can_pow(n),
        ensures
            r == self.pow_spec(n),
    {
        Self {
            time: self.time * n,
            length: self.length * n,
            mass: self.mass * n,
            electric_current: self.electric_current * n,
            thermodynamic_temperature: self.thermodynamic_temperature * n,
            amount_of_substance: self.amount_of_substance * n,
            luminous_intensity: self.luminous_intensity * n,
        }
    }

    /// The reciprocal of a dimension: every exponent is negated.
    ///
    /// Equivalent to `self.pow(-1)`.
    pub fn recip(self) -> (r: Self)
        requires
            self.can_pow(-1i8),
        ensures
            r == self.pow_spec(-1i8),
    {
        self.pow(-1)
    }

    /// Returns `true` iff this dimension is dimensionless, that is, every
    /// exponent is zero.
    pub fn is_dimensionless(&self) -> (r: bool)
        ensures
            r == self.is_dimensionless_spec(),
    {
        self.time == 0 && self.length == 0 && self.mass == 0 && self.electric_current == 0
            && self.thermodynamic_temperature == 0 && self.amount_of_substance == 0
            && self.luminous_intensity == 0
    }
}

/// Multiplication of dimensions is commutative: `A * B == B * A`.
pub proof fn lemma_mul_commutative(a: Dimensions, b: Dimensions)
    requires
        a.can_mul(b),
    ensures
        a.mul_spec(b) == b.mul_spec(a),
{
}

/// Multiplication of dimensions is associative: `(A * B) * C == A * (B * C)`.
pub proof fn lemma_mul_associative(a: Dimensions, b: Dimensions, c: Dimensions)
    requires
        a.can_mul(b),
        a.mul_spec(b).can_mul(c),
        b.can_mul(c),
        a.can_mul(b.mul_spec(c)),
    ensures
        a.mul_spec(b).mul_spec(c) == a.mul_spec(b.mul_spec(c)),
{
}

/// A dimensionless dimension is the multiplicative identity: `A * 1 == A`.
pub proof fn lemma_mul_identity(a: Dimensions, one: Dimensions)
    requires
        one.is_dimensionless_spec(),
    ensures
        a.can_mul(one),
        a.mul_spec(one) == a,
{
}

/// The reciprocal is the multiplicative inverse: `A * A^-1` is dimensionless.
pub proof fn lemma_mul_recip_dimensionless(a: Dimensions)
    requires
        a.can_pow(-1i8),
    ensures
        a.can_mul(a.pow_spec(-1i8)),
        a.mul_spec(a.pow_spec(-1i8)).is_dimensionless_spec(),
{
}

/// Dividing a dimension by itself yields a dimensionless dimension.
pub proof fn lemma_div_self_dimensionless(a: Dimensions)
    ensures
        a.can_div(a),
        a.div_spec(a).is_dimensionless_spec(),
{
}

/// Raising a power to a power multiplies the exponents:
/// `(A^n)^m == A^(n * m)`.
pub proof fn lemma_pow_pow(a: Dimensions, n: i8, m: i8)
    requires
        a.can_pow(n),
        a.pow_spec(n).can_pow(m),
        i8::MIN <= n * m <= i8::MAX,
    ensures
        a.can_pow((n * m) as i8),
        a.pow_spec(n).pow_spec(m) == a.pow_spec((n * m) as i8),
{
    vstd::arithmetic::mul::lemma_mul_is_associative(a.time as int, n as int, m as int);
    vstd::arithmetic::mul::lemma_mul_is_associative(a.length as int, n as int, m as int);
    vstd::arithmetic::mul::lemma_mul_is_associative(a.mass as int, n as int, m as int);
    vstd::arithmetic::mul::lemma_mul_is_associative(a.electric_current as int, n as int, m as int);
    vstd::arithmetic::mul::lemma_mul_is_associative(
        a.thermodynamic_temperature as int,
        n as int,
        m as int,
    );
    vstd::arithmetic::mul::lemma_mul_is_associative(
        a.amount_of_substance as int,
        n as int,
        m as int,
    );
    vstd::arithmetic::mul::lemma_mul_is_associative(
        a.luminous_intensity as int,
        n as int,
        m as int,
    );
}

/// Raising any dimension to the power zero yields a dimensionless dimension.
pub proof fn lemma_pow_zero_dimensionless(a: Dimensions)
    ensures
        a.can_pow(0),
        a.pow_spec(0).is_dimensionless_spec(),
{
}

/// Raising a dimension to the power one leaves it unchanged.
pub proof fn lemma_pow_one(a: Dimensions)
    ensures
        a.can_pow(1),
        a.pow_spec(1) == a,
{
}

/// A power distributes over a product of dimensions:
/// `(A * B)^n == A^n * B^n`.
pub proof fn lemma_pow_distributes_over_mul(a: Dimensions, b: Dimensions, n: i8)
    requires
        a.can_mul(b),
        a.can_pow(n),
        b.can_pow(n),
        a.mul_spec(b).can_pow(n),
    ensures
        a.pow_spec(n).can_mul(b.pow_spec(n)),
        a.mul_spec(b).pow_spec(n) == a.pow_spec(n).mul_spec(b.pow_spec(n)),
{
    vstd::arithmetic::mul::lemma_mul_is_distributive_add_other_way(
        n as int,
        a.time as int,
        b.time as int,
    );
    vstd::arithmetic::mul::lemma_mul_is_distributive_add_other_way(
        n as int,
        a.length as int,
        b.length as int,
    );
    vstd::arithmetic::mul::lemma_mul_is_distributive_add_other_way(
        n as int,
        a.mass as int,
        b.mass as int,
    );
    vstd::arithmetic::mul::lemma_mul_is_distributive_add_other_way(
        n as int,
        a.electric_current as int,
        b.electric_current as int,
    );
    vstd::arithmetic::mul::lemma_mul_is_distributive_add_other_way(
        n as int,
        a.thermodynamic_temperature as int,
        b.thermodynamic_temperature as int,
    );
    vstd::arithmetic::mul::lemma_mul_is_distributive_add_other_way(
        n as int,
        a.amount_of_substance as int,
        b.amount_of_substance as int,
    );
    vstd::arithmetic::mul::lemma_mul_is_distributive_add_other_way(
        n as int,
        a.luminous_intensity as int,
        b.luminous_intensity as int,
    );
}

/// A power distributes over a quotient of dimensions:
/// `(A / B)^n == A^n / B^n`.
pub proof fn lemma_pow_distributes_over_div(a: Dimensions, b: Dimensions, n: i8)
    requires
        a.can_div(b),
        a.can_pow(n),
        b.can_pow(n),
        a.div_spec(b).can_pow(n),
    ensures
        a.pow_spec(n).can_div(b.pow_spec(n)),
        a.div_spec(b).pow_spec(n) == a.pow_spec(n).div_spec(b.pow_spec(n)),
{
    vstd::arithmetic::mul::lemma_mul_is_distributive_sub_other_way(
        n as int,
        a.time as int,
        b.time as int,
    );
    vstd::arithmetic::mul::lemma_mul_is_distributive_sub_other_way(
        n as int,
        a.length as int,
        b.length as int,
    );
    vstd::arithmetic::mul::lemma_mul_is_distributive_sub_other_way(
        n as int,
        a.mass as int,
        b.mass as int,
    );
    vstd::arithmetic::mul::lemma_mul_is_distributive_sub_other_way(
        n as int,
        a.electric_current as int,
        b.electric_current as int,
    );
    vstd::arithmetic::mul::lemma_mul_is_distributive_sub_other_way(
        n as int,
        a.thermodynamic_temperature as int,
        b.thermodynamic_temperature as int,
    );
    vstd::arithmetic::mul::lemma_mul_is_distributive_sub_other_way(
        n as int,
        a.amount_of_substance as int,
        b.amount_of_substance as int,
    );
    vstd::arithmetic::mul::lemma_mul_is_distributive_sub_other_way(
        n as int,
        a.luminous_intensity as int,
        b.luminous_intensity as int,
    );
}

} // verus!
