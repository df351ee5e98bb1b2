//! Quantities: an exact rational magnitude tagged with a unit.
//!
//! A [`Quantity`] pairs a [`Rational`] value with a [`Unit`], that is, a
//! dimension and a metric-prefix exponent. Arithmetic between quantities
//! first normalizes both operands to the base prefix, so that quantities
//! written at different prefixes combine correctly; multiplication and
//! division derive the result dimension with the dimension algebra, while
//! addition, subtraction and comparison demand equal dimensions.

use crate::dimensions::Dimensions;
use crate::rational::lemma_same_ratio_trans;
use crate::rational::lemma_wf_same_ratio_equal;
use crate::rational::ops::add_in_range;
use crate::rational::ops::mul_in_range;
use crate::rational::ops::scale10_spec;
use crate::rational::same_ratio;
use crate::rational::Rational;
use crate::unit::Unit;
use vstd::arithmetic::power::pow;
use vstd::prelude::*;

verus! {

/// A physical quantity: an exact rational value measured in a unit.
#[derive(Debug, Clone, Copy)]
pub struct Quantity {
    /// The magnitude, expressed in the unit this quantity carries.
    pub value: Rational,
    /// The unit the magnitude is expressed in.
    pub unit: Unit,
}

/// The fixed scaling factor that makes every prefix exponent nonnegative:
/// ten to the one hundred and twenty-eighth power. It appears in both the
/// numerator and the denominator of a quantity's base-value fraction, so it
/// cancels out of the value itself.
pub open spec fn prefix_shift() -> int {
    pow(10, 128)
}

impl Quantity {
    /// Well-formedness: the magnitude is a well-formed rational.
    pub open spec fn wf(self) -> bool {
        self.value.wf()
    }

    /// The numerator of this quantity's magnitude at the base prefix,
    /// scaled by [`prefix_shift`].
    pub open spec fn base_num(self) -> int {
        self.value.num() * pow(10, (self.unit.prefix + 128) as nat)
    }

    /// The denominator of this quantity's magnitude at the base prefix,
    /// scaled by [`prefix_shift`].
    pub open spec fn base_den(self) -> int {
        self.value.den() * prefix_shift()
    }
}

/// True iff the two quantities denote the same magnitude when both are
/// expressed at the base prefix. Prefix-independent: one kilometre equals a
/// thousand metres.
pub open spec fn same_base_value(a: Quantity, b: Quantity) -> bool {
    same_ratio(a.base_num(), a.base_den(), b.base_num(), b.base_den())
}

/// A value scaled by ten to the power `e` denotes, at the base prefix, the
/// same magnitude that the original value denotes at prefix `e`.
proof fn lemma_scaled_value_is_base(v: Rational, e: int, w: Rational)
    requires
        v.wf(),
        w.wf(),
        -128 <= e <= 127,
        e >= 0 ==> same_ratio(w.num(), w.den() as int, v.num() * pow(10, e as nat), v.den() as int),
        e < 0 ==> same_ratio(
            w.num(),
            w.den() as int,
            v.num(),
            (v.den() * pow(10, (-e) as nat)) as int,
        ),
    ensures
        w.num() * (v.den() * prefix_shift()) == (v.num() * pow(10, (e + 128) as nat)) * (
        w.den() as int),
{
    let shift = prefix_shift();
    vstd::arithmetic::power::lemma_pow_positive(10, 128);
    if e >= 0 {
        vstd::arithmetic::power::lemma_pow_adds(10, e as nat, 128);
        assert(w.num() * ((v.den() * shift) as int) == (v.num() * pow(10, (e + 128) as nat)) * (
        w.den() as int)) by (nonlinear_arith)
            requires
                w.num() * (v.den() as int) == (v.num() * pow(10, e as nat)) * (w.den() as int),
                pow(10, (e + 128) as nat) == pow(10, e as nat) * pow(10, 128),
                shift == pow(10, 128),
        ;
    } else {
        vstd::arithmetic::power::lemma_pow_adds(10, (e + 128) as nat, (-e) as nat);
        assert(w.num() * ((v.den() * shift) as int) == (v.num() * pow(10, (e + 128) as nat)) * (
        w.den() as int)) by (nonlinear_arith)
            requires
                w.num() * ((v.den() * pow(10, (-e) as nat)) as int) == v.num() * (w.den() as int),
                pow(10, (e + 128) as nat) * pow(10, (-e) as nat) == pow(10, 128),
                shift == pow(10, 128),
        ;
    }
}

/// If `l` denotes the same value as `a / ad` and `r` the same as `b / bd`,
/// then a fraction denoting `l + r` also denotes `a / ad + b / bd`.
proof fn lemma_sum_of_equal_ratios(
    ln: int,
    ld: int,
    an: int,
    ad: int,
    rn: int,
    rd: int,
    bn: int,
    bd: int,
    sn: int,
    sd: int,
)
    requires
        ld > 0,
        rd > 0,
        ad > 0,
        bd > 0,
        ln * ad == an * ld,
        rn * bd == bn * rd,
        sn * (ld * rd) == (ln * rd + rn * ld) * sd,
    ensures
        sn * (ad * bd) == (an * bd + bn * ad) * sd,
{
    vstd::arithmetic::mul::lemma_mul_is_distributive_add_other_way(ad * bd, ln * rd, rn * ld);
    assert((ln * rd) * (ad * bd) == (ln * ad) * (rd * bd)) by (nonlinear_arith);
    assert((rn * ld) * (ad * bd) == (rn * bd) * (ld * ad)) by (nonlinear_arith);
    assert((ln * rd + rn * ld) * (ad * bd) == (ln * ad) * (rd * bd) + (rn * bd) * (ld * ad));
    vstd::arithmetic::mul::lemma_mul_is_distributive_add_other_way(ld * rd, an * bd, bn * ad);
    assert((an * ld) * (rd * bd) == (an * bd) * (ld * rd)) by (nonlinear_arith);
    assert((bn * rd) * (ld * ad) == (bn * ad) * (ld * rd)) by (nonlinear_arith);
    assert((an * ld) * (rd * bd) + (bn * rd) * (ld * ad) == ((an * bd + bn * ad)) * (ld * rd));
    assert((sn * (ld * rd)) * (ad * bd) == ((ln * rd + rn * ld) * sd) * (ad * bd));
    assert((sn * (ld * rd)) * (ad * bd) == (sn * (ad * bd)) * (ld * rd)) by (nonlinear_arith);
    assert(((ln * rd + rn * ld) * sd) * (ad * bd) == ((ln * rd + rn * ld) * (ad * bd)) * sd)
        by (nonlinear_arith);
    assert((((an * bd + bn * ad)) * (ld * rd)) * sd == (((an * bd + bn * ad)) * sd) * (ld * rd))
        by (nonlinear_arith);
    assert((sn * (ad * bd)) * (ld * rd) == (((an * bd + bn * ad)) * sd) * (ld * rd));
    assert(ld * rd > 0) by (nonlinear_arith)
        requires
            ld > 0,
            rd > 0,
    ;
    assert(sn * (ad * bd) == (an * bd + bn * ad) * sd) by (nonlinear_arith)
        requires
            (sn * (ad * bd)) * (ld * rd) == ((an * bd + bn * ad) * sd) * (ld * rd),
            ld * rd > 0,
    ;
}

/// If `l` denotes the same value as `a / ad` and `r` the same as `b / bd`,
/// then a fraction denoting `l * r` also denotes `(a * b) / (ad * bd)`.
proof fn lemma_product_of_equal_ratios(
    ln: int,
    ld: int,
    an: int,
    ad: int,
    rn: int,
    rd: int,
    bn: int,
    bd: int,
    sn: int,
    sd: int,
)
    requires
        ld > 0,
        rd > 0,
        ln * ad == an * ld,
        rn * bd == bn * rd,
        sn * (ld * rd) == (ln * rn) * sd,
    ensures
        sn * (ad * bd) == (an * bn) * sd,
{
    assert((ln * rn) * (ad * bd) == (an * bn) * (ld * rd)) by (nonlinear_arith)
        requires
            ln * ad == an * ld,
            rn * bd == bn * rd,
    ;
    assert((sn * (ld * rd)) * (ad * bd) == ((ln * rn) * sd) * (ad * bd));
    assert((sn * (ld * rd)) * (ad * bd) == (sn * (ad * bd)) * (ld * rd)) by (nonlinear_arith);
    assert(((ln * rn) * sd) * (ad * bd) == ((ln * rn) * (ad * bd)) * sd) by (nonlinear_arith);
    assert(((an * bn) * (ld * rd)) * sd == ((an * bn) * sd) * (ld * rd)) by (nonlinear_arith);
    assert((sn * (ad * bd)) * (ld * rd) == ((an * bn) * sd) * (ld * rd));
    assert(ld * rd > 0) by (nonlinear_arith)
        requires
            ld > 0,
            rd > 0,
    ;
    assert(sn * (ad * bd) == (an * bn) * sd) by (nonlinear_arith)
        requires
            (sn * (ad * bd)) * (ld * rd) == ((an * bn) * sd) * (ld * rd),
            ld * rd > 0,
    ;
}

impl Quantity {
    /// Wraps a value in the given unit, as it stands, with no scaling.
    pub fn with_unit(value: Rational, unit: Unit) -> (r: Self)
        ensures
            r == (Quantity { value, unit }),
    {
        Self { value, unit }
    }

    /// A quantity of the given dimension at the base prefix.
    pub fn new(value: Rational, dimension: Dimensions) -> (r: Self)
        ensures
            r == (Quantity { value, unit: Unit { dimension, prefix: 0i8 } }),
    {
        Self { value, unit: Unit { dimension, prefix: 0 } }
    }

    /// The raw magnitude, expressed in whatever unit the quantity carries;
    /// no prefix normalization happens here.
    pub fn value(&self) -> (r: Rational)
        ensures
            r == self.value,
    {
        self.value
    }

    /// Converts the quantity to a unit of the same dimension, rescaling the
    /// magnitude by the difference of the prefix exponents so that the
    /// denoted base-prefix magnitude does not change.
    ///
    /// Callers must stay within representable magnitudes; an unverified
    /// caller that does not, or that targets another dimension, hits a
    /// panic.
    pub fn to(&self, target_unit: Unit) -> (r: Self)
        requires
            self.wf(),
            target_unit.dimension == self.unit.dimension,
            i8::MIN <= self.unit.prefix as int - target_unit.prefix as int <= i8::MAX,
            scale10_spec(
                self.value,
                self.unit.prefix as int - target_unit.prefix as int,
            ) is Some,
        ensures
            r.wf(),
            r.unit == target_unit,
            r.value == scale10_spec(
                self.value,
                self.unit.prefix as int - target_unit.prefix as int,
            ).unwrap(),
            same_base_value(r, *self),
    {
        if !(self.unit.dimension == target_unit.dimension) {
            let none: Option<Self> = None;
            return none.unwrap();
        }
        let prefix_diff_wide: i16 = self.unit.prefix as i16 - target_unit.prefix as i16;
        if prefix_diff_wide < i8::MIN as i16 || prefix_diff_wide > i8::MAX as i16 {
            let none: Option<Self> = None;
            return none.unwrap();
        }
        let prefix_diff: i8 = prefix_diff_wide as i8;
        let scaled_value = match self.value.scale_by_power_of_10(prefix_diff) {
            None => {
                let none: Option<Self> = None;
                return none.unwrap();
            },
            Some(v) => v,
        };
        let r = Self { value: scaled_value, unit: target_unit };
        proof {
            let e = prefix_diff as int;
            lemma_scaled_value_is_base(self.value, e, scaled_value);
            vstd::arithmetic::power::lemma_pow_positive(10, 128);
            vstd::arithmetic::power::lemma_pow_positive(10, (e + 128) as nat);
            vstd::arithmetic::power::lemma_pow_positive(
                10,
                (target_unit.prefix + 128) as nat,
            );
            vstd::arithmetic::power::lemma_pow_adds(
                10,
                (e + 128) as nat,
                (target_unit.prefix + 128) as nat,
            );
            vstd::arithmetic::power::lemma_pow_adds(
                10,
                (self.unit.prefix + 128) as nat,
                128,
            );
            // (e + 128) + (target + 128) == (self + 128) + 128.
            assert(pow(10, (e + 128) as nat) * pow(10, (target_unit.prefix + 128) as nat) == pow(
                10,
                (self.unit.prefix + 128) as nat,
            ) * pow(10, 128));
            let wn = scaled_value.num();
            let wd = scaled_value.den() as int;
            let vn = self.value.num();
            let vd = self.value.den() as int;
            let p = pow(10, 128);
            let a = pow(10, (e + 128) as nat);
            let t = pow(10, (target_unit.prefix + 128) as nat);
            let s = pow(10, (self.unit.prefix + 128) as nat);
            assert((wn * t) * (vd * p) == t * (wn * (vd * p))) by (nonlinear_arith);
            assert(t * ((vn * a) * wd) == (vn * wd) * (a * t)) by (nonlinear_arith);
            assert((vn * wd) * (s * p) == (vn * s) * (wd * p)) by (nonlinear_arith);
            assert((wn * t) * (vd * p) == (vn * s) * (wd * p));
            assert(r.base_num() * self.base_den() == self.base_num() * r.base_den());
        }
        r
    }

    /// The magnitude rescaled to the base prefix, as a plain rational.
    fn normalized_value(&self) -> (r: Rational)
        requires
            self.wf(),
            scale10_spec(self.value, self.unit.prefix as int) is Some,
        ensures
            r == scale10_spec(self.value, self.unit.prefix as int).unwrap(),
            r.wf(),
            r.num() * self.base_den() == self.base_num() * (r.den() as int),
    {
        let v = self.value.scale_by_power_of_10(self.unit.prefix).unwrap();
        proof {
            lemma_scaled_value_is_base(self.value, self.unit.prefix as int, v);
        }
        v
    }

    /// The denominator of the base-value fraction is positive.
    proof fn lemma_base_den_pos(self)
        requires
            self.wf(),
        ensures
            self.base_den() > 0,
            self.base_num() == 0 <==> self.value.num() == 0,
    {
        vstd::arithmetic::power::lemma_pow_positive(10, 128);
        vstd::arithmetic::power::lemma_pow_positive(10, (self.unit.prefix + 128) as nat);
        assert(self.base_den() > 0) by (nonlinear_arith)
            requires
                self.value.den() > 0,
                prefix_shift() > 0,
                self.base_den() == self.value.den() * prefix_shift(),
        ;
        assert(self.base_num() == 0 <==> self.value.num() == 0) by (nonlinear_arith)
            requires
                pow(10, (self.unit.prefix + 128) as nat) > 0,
                self.base_num() == self.value.num() * pow(10, (self.unit.prefix + 128) as nat),
        ;
    }

    /// Adds two quantities of the same dimension.
    ///
    /// Both operands are first rescaled to the base prefix, so quantities
    /// written at different prefixes add correctly: one kilometre plus five
    /// hundred metres is fifteen hundred metres. The result carries the
    /// common dimension at the base prefix, and its magnitude is exactly the
    /// sum of the two base-prefix magnitudes.
    ///
    /// Callers must pass quantities of equal dimensions whose magnitudes
    /// stay representable; an unverified caller that does not hits a panic.
    pub fn add(self, rhs: Self) -> (r: Self)
        requires
            self.wf(),
            rhs.wf(),
            self.unit.dimension == rhs.unit.dimension,
            scale10_spec(self.value, self.unit.prefix as int) is Some,
            scale10_spec(rhs.value, rhs.unit.prefix as int) is Some,
            add_in_range(
                scale10_spec(self.value, self.unit.prefix as int).unwrap(),
                scale10_spec(rhs.value, rhs.unit.prefix as int).unwrap(),
            ),
        ensures
            r.wf(),
            r.unit == (Unit { dimension: self.unit.dimension, prefix: 0i8 }),
            r.value == ({
                let l = scale10_spec(self.value, self.unit.prefix as int).unwrap();
                let rr = scale10_spec(rhs.value, rhs.unit.prefix as int).unwrap();
                crate::rational::reduce_spec(
                    l.num() * rr.den() + rr.num() * l.den(),
                    (l.den() * rr.den()) as nat,
                )
            }),
            r.base_num() * (self.base_den() * rhs.base_den()) == (self.base_num() * rhs.base_den()
                + rhs.base_num() * self.base_den()) * r.base_den(),
    {
        if self.unit.dimension != rhs.unit.dimension {
            let none: Option<Self> = None;
            return none.unwrap();
        }
        let lv = self.normalized_value();
        let rv = rhs.normalized_value();
        let v = lv.checked_add(&rv).unwrap();
        let r = Self { value: v, unit: Unit { dimension: self.unit.dimension, prefix: 0 } };
        proof {
            self.lemma_base_den_pos();
            rhs.lemma_base_den_pos();
            lemma_sum_of_equal_ratios(
                lv.num(),
                lv.den() as int,
                self.base_num(),
                self.base_den(),
                rv.num(),
                rv.den() as int,
                rhs.base_num(),
                rhs.base_den(),
                v.num(),
                v.den() as int,
            );
            let p = prefix_shift();
            let an = self.base_num();
            let ad = self.base_den();
            let bn = rhs.base_num();
            let bd = rhs.base_den();
            vstd::arithmetic::power::lemma_pow_positive(10, 128);
            assert((v.num() * p) * (ad * bd) == (an * bd + bn * ad) * (v.den() * p))
                by (nonlinear_arith)
                requires
                    v.num() * (ad * bd) == (an * bd + bn * ad) * (v.den() as int),
            ;
        }
        r
    }

    /// Subtracts a quantity of the same dimension.
    ///
    /// Both operands are first rescaled to the base prefix, exactly as in
    /// [`Quantity::add`]; the result is the exact difference of the two
    /// base-prefix magnitudes, at the base prefix.
    ///
    /// Callers must pass quantities of equal dimensions whose magnitudes
    /// stay representable; an unverified caller that does not hits a panic.
    pub fn sub(self, rhs: Self) -> (r: Self)
        requires
            self.wf(),
            rhs.wf(),
            self.unit.dimension == rhs.unit.dimension,
            scale10_spec(self.value, self.unit.prefix as int) is Some,
            scale10_spec(rhs.value, rhs.unit.prefix as int) is Some,
            ({
                let l = scale10_spec(self.value, self.unit.prefix as int).unwrap();
                let rr = scale10_spec(rhs.value, rhs.unit.prefix as int).unwrap();
                rr.num() != i128::MIN && add_in_range(
                    l,
                    Rational { numerator: (-rr.num()) as i128, denominator: rr.denominator },
                )
            }),
        ensures
            r.wf(),
            r.unit == (Unit { dimension: self.unit.dimension, prefix: 0i8 }),
            r.value == ({
                let l = scale10_spec(self.value, self.unit.prefix as int).unwrap();
                let rr = scale10_spec(rhs.value, rhs.unit.prefix as int).unwrap();
                crate::rational::reduce_spec(
                    l.num() * rr.den() - rr.num() * l.den(),
                    (l.den() * rr.den()) as nat,
                )
            }),
            r.base_num() * (self.base_den() * rhs.base_den()) == (self.base_num() * rhs.base_den()
                - rhs.base_num() * self.base_den()) * r.base_den(),
    {
        if self.unit.dimension != rhs.unit.dimension {
            let none: Option<Self> = None;
            return none.unwrap();
        }
        let lv = self.normalized_value();
        let rv = rhs.normalized_value();
        let v = lv.checked_sub(&rv).unwrap();
        let r = Self { value: v, unit: Unit { dimension: self.unit.dimension, prefix: 0 } };
        proof {
            self.lemma_base_den_pos();
            rhs.lemma_base_den_pos();
            assert((-rv.num()) * rhs.base_den() == (-rhs.base_num()) * (rv.den() as int))
                by (nonlinear_arith)
                requires
                    rv.num() * rhs.base_den() == rhs.base_num() * (rv.den() as int),
            ;
            assert(v.num() * ((lv.den() * rv.den()) as int) == (lv.num() * rv.den() + (-rv.num())
                * lv.den()) * (v.den() as int)) by (nonlinear_arith)
                requires
                    v.num() * ((lv.den() * rv.den()) as int) == (lv.num() * rv.den() - rv.num()
                        * lv.den()) * (v.den() as int),
            ;
            lemma_sum_of_equal_ratios(
                lv.num(),
                lv.den() as int,
                self.base_num(),
                self.base_den(),
                -rv.num(),
                rv.den() as int,
                -rhs.base_num(),
                rhs.base_den(),
                v.num(),
                v.den() as int,
            );
            let p = prefix_shift();
            let an = self.base_num();
            let ad = self.base_den();
            let bn = rhs.base_num();
            let bd = rhs.base_den();
            vstd::arithmetic::power::lemma_pow_positive(10, 128);
            assert((v.num() * p) * (ad * bd) == (an * bd - bn * ad) * (v.den() * p))
                by (nonlinear_arith)
                requires
                    v.num() * (ad * bd) == (an * bd + (-bn) * ad) * (v.den() as int),
            ;
        }
        r
    }

    /// Multiplies two quantities, deriving the result dimension.
    ///
    /// The operands may have different dimensions: the result dimension is
    /// their product under the dimension algebra, that is, the element-wise
    /// sum of the exponent vectors. Both magnitudes are first rescaled to
    /// the base prefix, and the result is their exact product at the base
    /// prefix.
    ///
    /// Callers must stay within representable exponents and magnitudes; an
    /// unverified caller that does not hits a panic.
    pub fn mul(self, rhs: Self) -> (r: Self)
        requires
            self.wf(),
            rhs.wf(),
            self.unit.dimension.can_mul(rhs.unit.dimension),
            scale10_spec(self.value, self.unit.prefix as int) is Some,
            scale10_spec(rhs.value, rhs.unit.prefix as int) is Some,
            mul_in_range(
                scale10_spec(self.value, self.unit.prefix as int).unwrap(),
                scale10_spec(rhs.value, rhs.unit.prefix as int).unwrap(),
            ),
        ensures
            r.wf(),
            r.unit == (Unit {
                dimension: self.unit.dimension.mul_spec(rhs.unit.dimension),
                prefix: 0i8,
            }),
            r.value == ({
                let l = scale10_spec(self.value, self.unit.prefix as int).unwrap();
                let rr = scale10_spec(rhs.value, rhs.unit.prefix as int).unwrap();
                crate::rational::reduce_spec(l.num() * rr.num(), (l.den() * rr.den()) as nat)
            }),
            r.base_num() * (self.base_den() * rhs.base_den()) == (self.base_num()
                * rhs.base_num()) * r.base_den(),
    {
        let dimension = self.unit.dimension.mul(rhs.unit.dimension);
        let lv = self.normalized_value();
        let rv = rhs.normalized_value();
        let v = lv.checked_mul(&rv).unwrap();
        let r = Self { value: v, unit: Unit { dimension, prefix: 0 } };
        proof {
            self.lemma_base_den_pos();
            rhs.lemma_base_den_pos();
            lemma_product_of_equal_ratios(
                lv.num(),
                lv.den() as int,
                self.base_num(),
                self.base_den(),
                rv.num(),
                rv.den() as int,
                rhs.base_num(),
                rhs.base_den(),
                v.num(),
                v.den() as int,
            );
            let p = prefix_shift();
            let an = self.base_num();
            let ad = self.base_den();
            let bn = rhs.base_num();
            let bd = rhs.base_den();
            vstd::arithmetic::power::lemma_pow_positive(10, 128);
            assert((v.num() * p) * (ad * bd) == (an * bn) * (v.den() * p)) by (nonlinear_arith)
                requires
                    v.num() * (ad * bd) == (an * bn) * (v.den() as int),
            ;
        }
        r
    }

    /// Divides two quantities, deriving the result dimension.
    ///
    /// The operands may have different dimensions: the result dimension is
    /// their quotient under the dimension algebra, that is, the element-wise
    /// difference of the exponent vectors. Both magnitudes are first
    /// rescaled to the base prefix, and the result is their exact quotient
    /// at the base prefix.
    ///
    /// Callers must pass a divisor that is nonzero and representable as a
    /// reciprocal, and stay within representable exponents and magnitudes;
    /// an unverified caller that does not hits a panic.
    pub fn div(self, rhs: Self) -> (r: Self)
        requires
            self.wf(),
            rhs.wf(),
            self.unit.dimension.can_div(rhs.unit.dimension),
            scale10_spec(self.value, self.unit.prefix as int) is Some,
            scale10_spec(rhs.value, rhs.unit.prefix as int) is Some,
            ({
                let l = scale10_spec(self.value, self.unit.prefix as int).unwrap();
                let rr = scale10_spec(rhs.value, rhs.unit.prefix as int).unwrap();
                rr.num() != 0 && rr.den() <= i128::MAX && mul_in_range(
                    l,
                    crate::rational::recip_spec(rr),
                )
            }),
        ensures
            r.wf(),
            r.unit == (Unit {
                dimension: self.unit.dimension.div_spec(rhs.unit.dimension),
                prefix: 0i8,
            }),
            r.value == ({
                let l = scale10_spec(self.value, self.unit.prefix as int).unwrap();
                let rr = scale10_spec(rhs.value, rhs.unit.prefix as int).unwrap();
                crate::rational::reduce_spec(
                    l.num() * crate::rational::recip_spec(rr).num(),
                    (l.den() * crate::rational::recip_spec(rr).den()) as nat,
                )
            }),
            r.base_num() * (self.base_den() * rhs.base_num()) == (self.base_num()
                * rhs.base_den()) * r.base_den(),
    {
        let dimension = self.unit.dimension.div(rhs.unit.dimension);
        let lv = self.normalized_value();
        let rv = rhs.normalized_value();
        let v = lv.checked_div(&rv).unwrap();
        let r = Self { value: v, unit: Unit { dimension, prefix: 0 } };
        proof {
            self.lemma_base_den_pos();
            rhs.lemma_base_den_pos();
            lemma_quotient_of_equal_ratios(
                lv.num(),
                lv.den() as int,
                self.base_num(),
                self.base_den(),
                rv.num(),
                rv.den() as int,
                rhs.base_num(),
                rhs.base_den(),
                v.num(),
                v.den() as int,
            );
            let p = prefix_shift();
            let an = self.base_num();
            let ad = self.base_den();
            let bn = rhs.base_num();
            let bd = rhs.base_den();
            vstd::arithmetic::power::lemma_pow_positive(10, 128);
            assert((v.num() * p) * (ad * bn) == (an * bd) * (v.den() * p)) by (nonlinear_arith)
                requires
                    v.num() * (ad * bn) == (an * bd) * (v.den() as int),
            ;
        }
        r
    }

    /// Negates the quantity, keeping its dimension and prefix.
    pub fn neg(self) -> (r: Self)
        requires
            self.wf(),
            self.value.num() != i128::MIN,
        ensures
            r.wf(),
            r.unit == self.unit,
            r.value == (Rational {
                numerator: (-self.value.num()) as i128,
                denominator: self.value.denominator,
            }),
    {
        Self { value: self.value.checked_neg().unwrap(), unit: self.unit }
    }

    /// Multiplies the magnitude by a bare number, keeping the unit: a
    /// dimensionless scale factor.
    pub fn mul_scalar(self, scalar: Rational) -> (r: Self)
        requires
            self.wf(),
            scalar.wf(),
            mul_in_range(self.value, scalar),
        ensures
            r.wf(),
            r.unit == self.unit,
            r.value == crate::rational::reduce_spec(
                self.value.num() * scalar.num(),
                (self.value.den() * scalar.den()) as nat,
            ),
    {
        Self { value: self.value.checked_mul(&scalar).unwrap(), unit: self.unit }
    }

    /// Divides the magnitude by a bare nonzero number, keeping the unit.
    pub fn div_scalar(self, scalar: Rational) -> (r: Self)
        requires
            self.wf(),
            scalar.wf(),
            scalar.num() != 0,
            scalar.den() <= i128::MAX,
            mul_in_range(self.value, crate::rational::recip_spec(scalar)),
        ensures
            r.wf(),
            r.unit == self.unit,
            r.value == crate::rational::reduce_spec(
                self.value.num() * crate::rational::recip_spec(scalar).num(),
                (self.value.den() * crate::rational::recip_spec(scalar).den()) as nat,
            ),
    {
        Self { value: self.value.checked_div(&scalar).unwrap(), unit: self.unit }
    }

    /// Compares two quantities of the same dimension for equality of their
    /// base-prefix magnitudes: one kilometre equals a thousand metres.
    ///
    /// Callers must pass quantities of equal dimensions whose magnitudes are
    /// representable at the base prefix; an unverified caller that does not
    /// hits a panic.
    pub fn equals(&self, other: &Self) -> (r: bool)
        requires
            self.wf(),
            other.wf(),
            self.unit.dimension == other.unit.dimension,
            scale10_spec(self.value, self.unit.prefix as int) is Some,
            scale10_spec(other.value, other.unit.prefix as int) is Some,
        ensures
            r == same_base_value(*self, *other),
    {
        if self.unit.dimension != other.unit.dimension {
            let none: Option<bool> = None;
            return none.unwrap();
        }
        let lv = self.normalized_value();
        let rv = other.normalized_value();
        let r = lv.numerator == rv.numerator && lv.denominator == rv.denominator;
        proof {
            self.lemma_base_den_pos();
            other.lemma_base_den_pos();
            if r {
                lemma_same_ratio_trans(
                    self.base_num(),
                    self.base_den(),
                    lv.num(),
                    lv.den() as int,
                    other.base_num(),
                    other.base_den(),
                );
            } else {
                if same_base_value(*self, *other) {
                    lemma_same_ratio_trans(
                        lv.num(),
                        lv.den() as int,
                        self.base_num(),
                        self.base_den(),
                        other.base_num(),
                        other.base_den(),
                    );
                    lemma_same_ratio_trans(
                        lv.num(),
                        lv.den() as int,
                        other.base_num(),
                        other.base_den(),
                        rv.num(),
                        rv.den() as int,
                    );
                    lemma_wf_same_ratio_equal(lv, rv);
                }
            }
        }
        r
    }
}

impl core::ops::Add for Quantity {
    type Output = Quantity;

    /// Adds two quantities of the same dimension; the operator spelling of
    /// [`Quantity::add`].
    fn add(self, rhs: Quantity) -> (r: Quantity) {
        self.add(rhs)
    }
}

impl vstd::std_specs::ops::AddSpecImpl for Quantity {
    open spec fn obeys_add_spec() -> bool {
        true
    }

    open spec fn add_req(self, rhs: Quantity) -> bool {
        &&& self.wf()
        &&& rhs.wf()
        &&& self.unit.dimension == rhs.unit.dimension
        &&& scale10_spec(self.value, self.unit.prefix as int) is Some
        &&& scale10_spec(rhs.value, rhs.unit.prefix as int) is Some
        &&& add_in_range(
            scale10_spec(self.value, self.unit.prefix as int).unwrap(),
            scale10_spec(rhs.value, rhs.unit.prefix as int).unwrap(),
        )
    }

    open spec fn add_spec(self, rhs: Quantity) -> Quantity {
        let l = scale10_spec(self.value, self.unit.prefix as int).unwrap();
        let rr = scale10_spec(rhs.value, rhs.unit.prefix as int).unwrap();
        Quantity {
            value: crate::rational::reduce_spec(
                l.num() * rr.den() + rr.num() * l.den(),
                (l.den() * rr.den()) as nat,
            ),
            unit: Unit { dimension: self.unit.dimension, prefix: 0 },
        }
    }
}

impl core::ops::Sub for Quantity {
    type Output = Quantity;

    /// Subtracts two quantities of the same dimension; the operator spelling
    /// of [`Quantity::sub`].
    fn sub(self, rhs: Quantity) -> (r: Quantity) {
        self.sub(rhs)
    }
}

impl vstd::std_specs::ops::SubSpecImpl for Quantity {
    open spec fn obeys_sub_spec() -> bool {
        true
    }

    open spec fn sub_req(self, rhs: Quantity) -> bool {
        &&& self.wf()
        &&& rhs.wf()
        &&& self.unit.dimension == rhs.unit.dimension
        &&& scale10_spec(self.value, self.unit.prefix as int) is Some
        &&& scale10_spec(rhs.value, rhs.unit.prefix as int) is Some
        &&& ({
            let l = scale10_spec(self.value, self.unit.prefix as int).unwrap();
            let rr = scale10_spec(rhs.value, rhs.unit.prefix as int).unwrap();
            rr.num() != i128::MIN && add_in_range(
                l,
                Rational { numerator: (-rr.num()) as i128, denominator: rr.denominator },
            )
        })
    }

    open spec fn sub_spec(self, rhs: Quantity) -> Quantity {
        let l = scale10_spec(self.value, self.unit.prefix as int).unwrap();
        let rr = scale10_spec(rhs.value, rhs.unit.prefix as int).unwrap();
        Quantity {
            value: crate::rational::reduce_spec(
                l.num() * rr.den() - rr.num() * l.den(),
                (l.den() * rr.den()) as nat,
            ),
            unit: Unit { dimension: self.unit.dimension, prefix: 0 },
        }
    }
}

impl core::ops::Mul for Quantity {
    type Output = Quantity;

    /// Multiplies two quantities, deriving the result dimension; the
    /// operator spelling of [`Quantity::mul`].
    fn mul(self, rhs: Quantity) -> (r: Quantity) {
        self.mul(rhs)
    }
}

impl vstd::std_specs::ops::MulSpecImpl for Quantity {
    open spec fn obeys_mul_spec() -> bool {
        true
    }

    open spec fn mul_req(self, rhs: Quantity) -> bool {
        &&& self.wf()
        &&& rhs.wf()
        &&& self.unit.dimension.can_mul(rhs.unit.dimension)
        &&& scale10_spec(self.value, self.unit.prefix as int) is Some
        &&& scale10_spec(rhs.value, rhs.unit.prefix as int) is Some
        &&& mul_in_range(
            scale10_spec(self.value, self.unit.prefix as int).unwrap(),
            scale10_spec(rhs.value, rhs.unit.prefix as int).unwrap(),
        )
    }

    open spec fn mul_spec(self, rhs: Quantity) -> Quantity {
        let l = scale10_spec(self.value, self.unit.prefix as int).unwrap();
        let rr = scale10_spec(rhs.value, rhs.unit.prefix as int).unwrap();
        Quantity {
            value: crate::rational::reduce_spec(
                l.num() * rr.num(),
                (l.den() * rr.den()) as nat,
            ),
            unit: Unit { dimension: self.unit.dimension.mul_spec(rhs.unit.dimension), prefix: 0 },
        }
    }
}

impl core::ops::Div for Quantity {
    type Output = Quantity;

    /// Divides two quantities, deriving the result dimension; the operator
    /// spelling of [`Quantity::div`].
    fn div(self, rhs: Quantity) -> (r: Quantity) {
        self.div(rhs)
    }
}

impl vstd::std_specs::ops::DivSpecImpl for Quantity {
    open spec fn obeys_div_spec() -> bool {
        true
    }

    open spec fn div_req(self, rhs: Quantity) -> bool {
        &&& self.wf()
        &&& rhs.wf()
        &&& self.unit.dimension.can_div(rhs.unit.dimension)
        &&& scale10_spec(self.value, self.unit.prefix as int) is Some
        &&& scale10_spec(rhs.value, rhs.unit.prefix as int) is Some
        &&& ({
            let l = scale10_spec(self.value, self.unit.prefix as int).unwrap();
            let rr = scale10_spec(rhs.value, rhs.unit.prefix as int).unwrap();
            rr.num() != 0 && rr.den() <= i128::MAX && mul_in_range(
                l,
                crate::rational::recip_spec(rr),
            )
        })
    }

    open spec fn div_spec(self, rhs: Quantity) -> Quantity {
        let l = scale10_spec(self.value, self.unit.prefix as int).unwrap();
        let rr = scale10_spec(rhs.value, rhs.unit.prefix as int).unwrap();
        Quantity {
            value: crate::rational::reduce_spec(
                l.num() * crate::rational::recip_spec(rr).num(),
                (l.den() * crate::rational::recip_spec(rr).den()) as nat,
            ),
            unit: Unit { dimension: self.unit.dimension.div_spec(rhs.unit.dimension), prefix: 0 },
        }
    }
}

impl core::ops::Neg for Quantity {
    type Output = Quantity;

    /// Negates a quantity; the operator spelling of [`Quantity::neg`].
    fn neg(self) -> (r: Quantity) {
        self.neg()
    }
}

impl vstd::std_specs::ops::NegSpecImpl for Quantity {
    open spec fn obeys_neg_spec() -> bool {
        true
    }

    open spec fn neg_req(self) -> bool {
        self.wf() && self.value.num() != i128::MIN
    }

    open spec fn neg_spec(self) -> Quantity {
        Quantity {
            value: Rational {
                numerator: (-self.value.num()) as i128,
                denominator: self.value.denominator,
            },
            unit: self.unit,
        }
    }
}

impl core::ops::Mul<Rational> for Quantity {
    type Output = Quantity;

    /// Multiplies the magnitude by a bare number, keeping the unit; the
    /// operator spelling of [`Quantity::mul_scalar`].
    fn mul(self, rhs: Rational) -> (r: Quantity) {
        self.mul_scalar(rhs)
    }
}

impl vstd::std_specs::ops::MulSpecImpl<Rational> for Quantity {
    open spec fn obeys_mul_spec() -> bool {
        true
    }

    open spec fn mul_req(self, rhs: Rational) -> bool {
        self.wf() && rhs.wf() && mul_in_range(self.value, rhs)
    }

    open spec fn mul_spec(self, rhs: Rational) -> Quantity {
        Quantity {
            value: crate::rational::reduce_spec(
                self.value.num() * rhs.num(),
                (self.value.den() * rhs.den()) as nat,
            ),
            unit: self.unit,
        }
    }
}

impl core::ops::Div<Rational> for Quantity {
    type Output = Quantity;

    /// Divides the magnitude by a bare nonzero number, keeping the unit; the
    /// operator spelling of [`Quantity::div_scalar`].
    fn div(self, rhs: Rational) -> (r: Quantity) {
        self.div_scalar(rhs)
    }
}

impl vstd::std_specs::ops::DivSpecImpl<Rational> for Quantity {
    open spec fn obeys_div_spec() -> bool {
        true
    }

    open spec fn div_req(self, rhs: Rational) -> bool {
        &&& self.wf()
        &&& rhs.wf()
        &&& rhs.num() != 0
        &&& rhs.den() <= i128::MAX
        &&& mul_in_range(self.value, crate::rational::recip_spec(rhs))
    }

    open spec fn div_spec(self, rhs: Rational) -> Quantity {
        Quantity {
            value: crate::rational::reduce_spec(
                self.value.num() * crate::rational::recip_spec(rhs).num(),
                (self.value.den() * crate::rational::recip_spec(rhs).den()) as nat,
            ),
            unit: self.unit,
        }
    }
}

/// Converting through an intermediate unit changes nothing.
///
/// Unit conversion keeps the base-prefix magnitude, so a quantity sent to
/// one unit and from there to a second, and the same quantity sent to the
/// second unit directly, are one and the same value: `q.to(u1).to(u2)`
/// equals `q.to(u2)` exactly. The hypotheses are precisely what
/// [`Quantity::to`] ensures of each conversion: `w1` stands for `q.to(u1)`,
/// `w12` for `q.to(u1).to(u2)`, and `w2` for `q.to(u2)`.
pub proof fn lemma_prefix_round_trip(q: Quantity, w1: Quantity, w12: Quantity, w2: Quantity)
    requires
        q.wf(),
        w1.wf(),
        w12.wf(),
        w2.wf(),
        same_base_value(w1, q),
        same_base_value(w12, w1),
        same_base_value(w2, q),
        w12.unit == w2.unit,
    ensures
        w12 == w2,
{
    q.lemma_base_den_pos();
    w1.lemma_base_den_pos();
    w2.lemma_base_den_pos();
    w12.lemma_base_den_pos();
    lemma_same_ratio_trans(
        w12.base_num(),
        w12.base_den(),
        w1.base_num(),
        w1.base_den(),
        q.base_num(),
        q.base_den(),
    );
    lemma_same_ratio_trans(
        w12.base_num(),
        w12.base_den(),
        q.base_num(),
        q.base_den(),
        w2.base_num(),
        w2.base_den(),
    );
    // Both are expressed in the same unit, so the shared prefix factor
    // cancels and the magnitudes themselves denote the same value.
    let t = pow(10, (w2.unit.prefix + 128) as nat);
    let p = prefix_shift();
    vstd::arithmetic::power::lemma_pow_positive(10, (w2.unit.prefix + 128) as nat);
    vstd::arithmetic::power::lemma_pow_positive(10, 128);
    assert(t * p > 0) by (nonlinear_arith)
        requires
            t > 0,
            p > 0,
    ;
    assert(w12.value.num() * (w2.value.den() as int) == w2.value.num() * (w12.value.den() as int))
        by (nonlinear_arith)
        requires
            (w12.value.num() * t) * (w2.value.den() * p) == (w2.value.num() * t) * (
            w12.value.den() * p),
            t * p > 0,
    ;
    lemma_wf_same_ratio_equal(w12.value, w2.value);
}

/// If `l` denotes the same value as `a / ad` and `r` the same as `b / bd`,
/// then a fraction denoting `l / r` also denotes `(a / ad) / (b / bd)`, that
/// is, `(a * bd) / (ad * b)`.
proof fn lemma_quotient_of_equal_ratios(
    ln: int,
    ld: int,
    an: int,
    ad: int,
    rn: int,
    rd: int,
    bn: int,
    bd: int,
    sn: int,
    sd: int,
)
    requires
        ld > 0,
        rd > 0,
        rn != 0,
        ln * ad == an * ld,
        rn * bd == bn * rd,
        sn * (ld * rn) == (ln * rd) * sd,
    ensures
        sn * (ad * bn) == (an * bd) * sd,
{
    assert((ln * rd) * (ad * bn) == (an * bd) * (ld * rn)) by (nonlinear_arith)
        requires
            ln * ad == an * ld,
            rn * bd == bn * rd,
    ;
    assert((sn * (ld * rn)) * (ad * bn) == ((ln * rd) * sd) * (ad * bn));
    assert((sn * (ld * rn)) * (ad * bn) == (sn * (ad * bn)) * (ld * rn)) by (nonlinear_arith);
    assert(((ln * rd) * sd) * (ad * bn) == ((ln * rd) * (ad * bn)) * sd) by (nonlinear_arith);
    assert(((an * bd) * (ld * rn)) * sd == ((an * bd) * sd) * (ld * rn)) by (nonlinear_arith);
    assert((sn * (ad * bn)) * (ld * rn) == ((an * bd) * sd) * (ld * rn));
    assert(ld * rn != 0) by (nonlinear_arith)
        requires
            ld > 0,
            rn != 0,
    ;
    assert(sn * (ad * bn) == (an * bd) * sd) by (nonlinear_arith)
        requires
            (sn * (ad * bn)) * (ld * rn) == ((an * bd) * sd) * (ld * rn),
            ld * rn != 0,
    ;
}

} // verus!
