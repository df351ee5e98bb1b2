//! Arithmetic operations for rational numbers.
//!
//! Every operation returns the exact result brought to lowest terms, or
//! `None` when that result cannot be represented with an `i128` numerator
//! and a `u128` denominator. Operands are shrunk by greatest common
//! divisors before multiplying, which keeps intermediate products as small
//! as the result allows.

use super::gcd::gcd;
use super::gcd::lemma_div_exact;
use super::gcd::lemma_gcd_divides;
use super::gcd::lemma_gcd_one;
use super::gcd::lemma_gcd_one_left;
use super::gcd::lemma_gcd_pos;
use super::lemma_reduce_of_equal_ratio;
use super::magnitude_u128;
use super::nat_abs;
use super::reduce_fits;
use super::recip_spec;
use super::reduce_spec;
use super::same_ratio;
use super::signed_of_magnitude;
use super::Rational;
use super::I128_MIN_MAGNITUDE;
use vstd::arithmetic::power::pow;
use vstd::prelude::*;

verus! {

/// True when the sum of `a` and `b`, computed over the least common
/// denominator, stays within the machine representation at every step.
pub open spec fn add_in_range(a: Rational, b: Rational) -> bool {
    let g = gcd(a.den(), b.den());
    let s1 = (b.den() / g) as int;
    let s2 = (a.den() / g) as int;
    &&& i128::MIN <= a.num() * s1 <= i128::MAX
    &&& i128::MIN <= b.num() * s2 <= i128::MAX
    &&& i128::MIN <= a.num() * s1 + b.num() * s2 <= i128::MAX
    &&& a.den() * (b.den() / g) <= u128::MAX
}

/// True when the product of `a` and `b`, with the cross greatest common
/// divisors cancelled first, stays within the machine representation.
pub open spec fn mul_in_range(a: Rational, b: Rational) -> bool {
    let g1 = gcd(nat_abs(a.num()), b.den());
    let g2 = gcd(nat_abs(b.num()), a.den());
    let m = (nat_abs(a.num()) / g1) * (nat_abs(b.num()) / g2);
    let d = (a.den() / g2) * (b.den() / g1);
    &&& m <= if (a.num() < 0) != (b.num() < 0) {
        I128_MIN_MAGNITUDE as nat
    } else {
        i128::MAX as nat
    }
    &&& d <= u128::MAX
}

/// The rational ten, used to step a value up by one decimal order.
pub open spec fn ten_spec() -> Rational {
    Rational { numerator: 10, denominator: 1 }
}

/// The rational one tenth, used to step a value down by one decimal order.
pub open spec fn tenth_spec() -> Rational {
    Rational { numerator: 1, denominator: 10 }
}

/// The result of scaling `q` by ten to the power `e`, one decimal order at a
/// time, with every intermediate value reduced to lowest terms; `None` as
/// soon as a step leaves the machine representation.
pub open spec fn scale10_spec(q: Rational, e: int) -> Option<Rational>
    decreases nat_abs(e),
{
    if e == 0 {
        Some(q)
    } else if e > 0 {
        if mul_in_range(q, ten_spec()) {
            scale10_spec(reduce_spec(q.num() * 10, q.den()), e - 1)
        } else {
            None
        }
    } else {
        if mul_in_range(q, tenth_spec()) {
            scale10_spec(reduce_spec(q.num(), (q.den() * 10) as nat), e + 1)
        } else {
            None
        }
    }
}

impl core::ops::Add for Rational {
    type Output = Rational;

    /// Adds two rationals exactly; the panicking spelling of
    /// [`Rational::checked_add`] for verified callers that have ruled
    /// overflow out.
    fn add(self, other: Rational) -> (r: Rational) {
        self.checked_add(&other).unwrap()
    }
}

impl vstd::std_specs::ops::AddSpecImpl for Rational {
    open spec fn obeys_add_spec() -> bool {
        true
    }

    open spec fn add_req(self, other: Rational) -> bool {
        self.wf() && other.wf() && add_in_range(self, other)
    }

    open spec fn add_spec(self, other: Rational) -> Rational {
        reduce_spec(
            self.num() * other.den() + other.num() * self.den(),
            (self.den() * other.den()) as nat,
        )
    }
}

impl core::ops::Sub for Rational {
    type Output = Rational;

    /// Subtracts two rationals exactly; the panicking spelling of
    /// [`Rational::checked_sub`] for verified callers that have ruled
    /// overflow out.
    fn sub(self, other: Rational) -> (r: Rational) {
        self.checked_sub(&other).unwrap()
    }
}

impl vstd::std_specs::ops::SubSpecImpl for Rational {
    open spec fn obeys_sub_spec() -> bool {
        true
    }

    open spec fn sub_req(self, other: Rational) -> bool {
        &&& self.wf()
        &&& other.wf()
        &&& other.num() != i128::MIN
        &&& add_in_range(
            self,
            Rational { numerator: (-other.num()) as i128, denominator: other.denominator },
        )
    }

    open spec fn sub_spec(self, other: Rational) -> Rational {
        reduce_spec(
            self.num() * other.den() - other.num() * self.den(),
            (self.den() * other.den()) as nat,
        )
    }
}

impl core::ops::Mul for Rational {
    type Output = Rational;

    /// Multiplies two rationals exactly; the panicking spelling of
    /// [`Rational::checked_mul`] for verified callers that have ruled
    /// overflow out.
    fn mul(self, other: Rational) -> (r: Rational) {
        self.checked_mul(&other).unwrap()
    }
}

impl vstd::std_specs::ops::MulSpecImpl for Rational {
    open spec fn obeys_mul_spec() -> bool {
        true
    }

    open spec fn mul_req(self, other: Rational) -> bool {
        self.wf() && other.wf() && mul_in_range(self, other)
    }

    open spec fn mul_spec(self, other: Rational) -> Rational {
        reduce_spec(self.num() * other.num(), (self.den() * other.den()) as nat)
    }
}

impl core::ops::Div for Rational {
    type Output = Rational;

    /// Divides two rationals exactly; the panicking spelling of
    /// [`Rational::checked_div`] for verified callers that have ruled a zero
    /// divisor and overflow out.
    fn div(self, other: Rational) -> (r: Rational) {
        self.checked_div(&other).unwrap()
    }
}

impl vstd::std_specs::ops::DivSpecImpl for Rational {
    open spec fn obeys_div_spec() -> bool {
        true
    }

    open spec fn div_req(self, other: Rational) -> bool {
        &&& self.wf()
        &&& other.wf()
        &&& other.num() != 0
        &&& other.den() <= i128::MAX
        &&& mul_in_range(self, recip_spec(other))
    }

    open spec fn div_spec(self, other: Rational) -> Rational {
        reduce_spec(
            self.num() * recip_spec(other).num(),
            (self.den() * recip_spec(other).den()) as nat,
        )
    }
}

impl core::ops::Neg for Rational {
    type Output = Rational;

    /// Negates a rational; the panicking spelling of
    /// [`Rational::checked_neg`] for verified callers that have ruled the
    /// one overflowing numerator out.
    fn neg(self) -> (r: Rational) {
        self.checked_neg().unwrap()
    }
}

impl vstd::std_specs::ops::NegSpecImpl for Rational {
    open spec fn obeys_neg_spec() -> bool {
        true
    }

    open spec fn neg_req(self) -> bool {
        self.wf() && self.num() != i128::MIN
    }

    open spec fn neg_spec(self) -> Rational {
        Rational { numerator: (-self.num()) as i128, denominator: self.denominator }
    }
}

/// Adding a value and then subtracting it returns the original, exactly.
///
/// Whenever the addition succeeds, the sum `s` is the reduced fraction of
/// `a + b`, and subtracting `b` from it yields `a` again, with no rounding
/// of any kind. The subtraction is always representable, since its result is
/// `a` itself.
pub proof fn lemma_add_sub_cancels(a: Rational, b: Rational)
    requires
        a.wf(),
        b.wf(),
        reduce_fits(a.num() * b.den() + b.num() * a.den(), (a.den() * b.den()) as nat),
    ensures
        ({
            let s = reduce_spec(
                a.num() * b.den() + b.num() * a.den(),
                (a.den() * b.den()) as nat,
            );
            reduce_spec(s.num() * b.den() - b.num() * s.den(), (s.den() * b.den()) as nat) == a
        }),
{
    let sum_n = a.num() * b.den() + b.num() * a.den();
    let sum_d = (a.den() * b.den()) as nat;
    assert(sum_d > 0) by (nonlinear_arith)
        requires
            sum_d == a.den() * b.den(),
            a.den() > 0,
            b.den() > 0,
    ;
    super::lemma_reduce_spec(sum_n, sum_d);
    let s = reduce_spec(sum_n, sum_d);
    assert((s.den() * b.den()) as int > 0) by (nonlinear_arith)
        requires
            s.den() > 0,
            b.den() > 0,
    ;
    assert((s.num() * b.den() - b.num() * s.den()) * (a.den() as int) == a.num() * ((s.den()
        * b.den()) as int)) by (nonlinear_arith)
        requires
            s.num() * (sum_d as int) == sum_n * (s.den() as int),
            sum_n == a.num() * b.den() + b.num() * a.den(),
            sum_d == a.den() * b.den(),
            a.den() > 0,
            b.den() > 0,
    ;
    lemma_reduce_of_equal_ratio(
        a,
        s.num() * b.den() - b.num() * s.den(),
        s.den() * b.den(),
    );
}

/// Multiplying by a nonzero value and then dividing by it returns the
/// original, exactly.
///
/// Whenever the multiplication succeeds, the product `p` is the reduced
/// fraction of `a * b`, and dividing it by `b` (that is, multiplying by the
/// reciprocal of `b`) yields `a` again, with no rounding of any kind.
pub proof fn lemma_mul_div_cancels(a: Rational, b: Rational)
    requires
        a.wf(),
        b.wf(),
        b.num() != 0,
        b.den() <= i128::MAX,
        reduce_fits(a.num() * b.num(), (a.den() * b.den()) as nat),
    ensures
        ({
            let p = reduce_spec(a.num() * b.num(), (a.den() * b.den()) as nat);
            reduce_spec(
                p.num() * recip_spec(b).num(),
                (p.den() * recip_spec(b).den()) as nat,
            ) == a
        }),
{
    let prod_n = a.num() * b.num();
    let prod_d = (a.den() * b.den()) as nat;
    assert(prod_d > 0) by (nonlinear_arith)
        requires
            prod_d == a.den() * b.den(),
            a.den() > 0,
            b.den() > 0,
    ;
    super::lemma_reduce_spec(prod_n, prod_d);
    let p = reduce_spec(prod_n, prod_d);
    let rb = recip_spec(b);
    assert(b.num() == if b.num() >= 0 {
        nat_abs(b.num()) as int
    } else {
        -(nat_abs(b.num()) as int)
    });
    assert((p.den() * rb.den()) as int > 0) by (nonlinear_arith)
        requires
            p.den() > 0,
            rb.den() == nat_abs(b.num()),
            b.num() != 0,
            rb.den() == if b.num() >= 0 {
                b.num()
            } else {
                -b.num()
            },
    ;
    assert((p.num() * rb.num()) * (a.den() as int) == a.num() * ((p.den() * rb.den()) as int))
        by (nonlinear_arith)
        requires
            p.num() * (prod_d as int) == prod_n * (p.den() as int),
            prod_n == a.num() * b.num(),
            prod_d == a.den() * b.den(),
            rb.num() == if b.num() < 0 {
                -(b.den() as int)
            } else {
                b.den() as int
            },
            rb.den() == if b.num() >= 0 {
                b.num()
            } else {
                -b.num()
            },
            a.den() > 0,
            b.den() > 0,
            b.num() != 0,
    ;
    lemma_reduce_of_equal_ratio(a, p.num() * rb.num(), p.den() * rb.den());
}

/// Multiplies a signed value by an unsigned scale, returning `None` when the
/// product leaves the `i128` range.
fn checked_mul_signed_by_unsigned(n: i128, s: u128) -> (r: Option<i128>)
    ensures
        r is Some <==> i128::MIN <= (n as int) * (s as int) <= i128::MAX,
        r is Some ==> r.unwrap() as int == (n as int) * (s as int),
{
    let mag = magnitude_u128(n);
    let negative = n < 0;
    proof {
        assert((n as int) * (s as int) == if negative {
            -((mag as int) * (s as int))
        } else {
            (mag as int) * (s as int)
        }) by (nonlinear_arith)
            requires
                mag == nat_abs(n as int),
                negative == (n < 0),
        ;
    }
    match mag.checked_mul(s) {
        None => {
            proof {
                assert(mag * s > u128::MAX);
            }
            None
        },
        Some(p) => {
            if negative {
                if p > I128_MIN_MAGNITUDE {
                    None
                } else {
                    Some(signed_of_magnitude(p, true))
                }
            } else {
                if p > i128::MAX as u128 {
                    None
                } else {
                    Some(p as i128)
                }
            }
        },
    }
}

impl Rational {
    /// Attempts to add two rationals, returning `None` on overflow.
    ///
    /// The operands are brought to their least common denominator, and the
    /// exact sum is reduced to lowest terms. `None` comes back exactly when
    /// a scaled numerator, the summed numerator, or the common denominator
    /// leaves its machine range.
    pub fn checked_add(&self, other: &Self) -> (r: Option<Self>)
        requires
            self.wf(),
            other.wf(),
        ensures
            r is Some <==> add_in_range(*self, *other),
            r is Some ==> r == Some(
                reduce_spec(
                    self.num() * other.den() + other.num() * self.den(),
                    (self.den() * other.den()) as nat,
                ),
            ),
            r is Some ==> r.unwrap().wf() && same_ratio(
                r.unwrap().num(),
                r.unwrap().den() as int,
                self.num() * other.den() + other.num() * self.den(),
                (self.den() * other.den()) as int,
            ),
    {
        let ghost ad = self.den();
        let ghost bd = other.den();
        let gcd_denom = super::gcd_u128(self.denominator, other.denominator);
        proof {
            lemma_gcd_pos(ad, bd);
            lemma_gcd_divides(ad, bd);
            lemma_div_exact(gcd_denom as nat, ad);
            lemma_div_exact(gcd_denom as nat, bd);
        }
        let scale_self = other.denominator / gcd_denom;
        let scale_other = self.denominator / gcd_denom;
        proof {
            assert(scale_self >= 1 && scale_other >= 1) by (nonlinear_arith)
                requires
                    ad == (gcd_denom as nat) * (scale_other as nat),
                    bd == (gcd_denom as nat) * (scale_self as nat),
                    ad > 0,
                    bd > 0,
            ;
        }
        let num1 = match checked_mul_signed_by_unsigned(self.numerator, scale_self) {
            None => {
                return None;
            },
            Some(v) => v,
        };
        let num2 = match checked_mul_signed_by_unsigned(other.numerator, scale_other) {
            None => {
                return None;
            },
            Some(v) => v,
        };
        let numerator = match num1.checked_add(num2) {
            None => {
                return None;
            },
            Some(v) => v,
        };
        let denominator = match self.denominator.checked_mul(scale_self) {
            None => {
                return None;
            },
            Some(v) => v,
        };
        proof {
            assert(denominator >= 1) by (nonlinear_arith)
                requires
                    denominator == ad * (scale_self as nat),
                    ad > 0,
                    scale_self >= 1,
            ;
        }
        let r = Self::try_new(numerator, denominator).unwrap();
        proof {
            let g = gcd_denom as int;
            let s1 = scale_self as int;
            let s2 = scale_other as int;
            let x = self.num() * s1 + other.num() * s2;
            let target = self.num() * (bd as int) + other.num() * (ad as int);
            // The textbook sum over the product of the denominators is the
            // compact sum scaled by the gcd of the denominators.
            assert(target == g * x) by (nonlinear_arith)
                requires
                    bd as int == g * s1,
                    ad as int == g * s2,
                    x == self.num() * s1 + other.num() * s2,
                    target == self.num() * (bd as int) + other.num() * (ad as int),
            ;
            assert(x * ((ad * bd) as int) == target * ((ad as int) * s1)) by (nonlinear_arith)
                requires
                    target == g * x,
                    bd as int == g * s1,
            ;
            assert((ad * bd) as int > 0 && (ad as int) * s1 > 0) by (nonlinear_arith)
                requires
                    ad > 0,
                    bd > 0,
                    s1 >= 1,
            ;
            super::lemma_same_ratio_trans(
                r.num(),
                r.den() as int,
                x,
                (ad as int) * s1,
                target,
                (ad * bd) as int,
            );
            lemma_reduce_of_equal_ratio(r, target, ad * bd);
        }
        Some(r)
    }

    /// Attempts to subtract `other` from `self`, returning `None` on
    /// overflow.
    ///
    /// Subtraction negates the second operand and adds, so it fails exactly
    /// when that negation overflows or the addition does.
    pub fn checked_sub(&self, other: &Self) -> (r: Option<Self>)
        requires
            self.wf(),
            other.wf(),
        ensures
            r is Some <==> other.num() != i128::MIN && add_in_range(
                *self,
                Rational { numerator: (-other.num()) as i128, denominator: other.denominator },
            ),
            r is Some ==> r == Some(
                reduce_spec(
                    self.num() * other.den() - other.num() * self.den(),
                    (self.den() * other.den()) as nat,
                ),
            ),
            r is Some ==> r.unwrap().wf() && same_ratio(
                r.unwrap().num(),
                r.unwrap().den() as int,
                self.num() * other.den() - other.num() * self.den(),
                (self.den() * other.den()) as int,
            ),
    {
        if other.numerator == i128::MIN {
            return None;
        }
        let neg_numerator = -other.numerator;
        let neg_other = Self { numerator: neg_numerator, denominator: other.denominator };
        assert(nat_abs(neg_other.num()) == nat_abs(other.num()));
        let r = self.checked_add(&neg_other);
        proof {
            vstd::arithmetic::mul::lemma_mul_unary_negation(
                other.num(),
                self.den() as int,
            );
            assert(self.num() * other.den() + neg_other.num() * self.den() == self.num()
                * other.den() - other.num() * self.den());
        }
        r
    }

    /// Attempts to multiply two rationals, returning `None` on overflow.
    ///
    /// Common factors between each numerator and the opposite denominator
    /// are cancelled before multiplying, so `None` comes back exactly when
    /// the fully reduced product still leaves the machine range.
    pub fn checked_mul(&self, other: &Self) -> (r: Option<Self>)
        requires
            self.wf(),
            other.wf(),
        ensures
            r is Some <==> mul_in_range(*self, *other),
            r is Some ==> r == Some(
                reduce_spec(self.num() * other.num(), (self.den() * other.den()) as nat),
            ),
            r is Some ==> r.unwrap().wf() && same_ratio(
                r.unwrap().num(),
                r.unwrap().den() as int,
                self.num() * other.num(),
                (self.den() * other.den()) as int,
            ),
    {
        let ghost an = self.num();
        let ghost bn = other.num();
        let ghost ad = self.den();
        let ghost bd = other.den();
        let mag_a = magnitude_u128(self.numerator);
        let mag_b = magnitude_u128(other.numerator);
        let gcd_ad = super::gcd_u128(mag_a, other.denominator);
        let gcd_cb = super::gcd_u128(mag_b, self.denominator);
        proof {
            lemma_gcd_pos(mag_a as nat, bd);
            lemma_gcd_pos(mag_b as nat, ad);
            lemma_gcd_divides(mag_a as nat, bd);
            lemma_gcd_divides(mag_b as nat, ad);
            lemma_div_exact(gcd_ad as nat, mag_a as nat);
            lemma_div_exact(gcd_ad as nat, bd);
            lemma_div_exact(gcd_cb as nat, mag_b as nat);
            lemma_div_exact(gcd_cb as nat, ad);
        }
        let m1 = mag_a / gcd_ad;
        let m2 = mag_b / gcd_cb;
        let d1 = self.denominator / gcd_cb;
        let d2 = other.denominator / gcd_ad;
        let negative = (self.numerator < 0) != (other.numerator < 0);
        let mag = match m1.checked_mul(m2) {
            None => {
                return None;
            },
            Some(v) => v,
        };
        if negative && mag > I128_MIN_MAGNITUDE {
            return None;
        }
        if !negative && mag > i128::MAX as u128 {
            return None;
        }
        let denominator = match d1.checked_mul(d2) {
            None => {
                return None;
            },
            Some(v) => v,
        };
        let numerator = signed_of_magnitude(mag, negative);
        proof {
            assert(denominator >= 1) by (nonlinear_arith)
                requires
                    denominator == (d1 as nat) * (d2 as nat),
                    ad == (gcd_cb as nat) * (d1 as nat),
                    bd == (gcd_ad as nat) * (d2 as nat),
                    ad > 0,
                    bd > 0,
            ;
        }
        let r = Self::try_new(numerator, denominator).unwrap();
        proof {
            let gg = (gcd_ad as int) * (gcd_cb as int);
            // The full denominator is the compact one scaled by both gcds.
            assert((ad * bd) as int == gg * (denominator as int)) by (nonlinear_arith)
                requires
                    ad == (gcd_cb as nat) * (d1 as nat),
                    bd == (gcd_ad as nat) * (d2 as nat),
                    denominator == (d1 as nat) * (d2 as nat),
                    gg == (gcd_ad as int) * (gcd_cb as int),
            ;
            // So is the product of the numerator magnitudes.
            assert((mag_a as int) * (mag_b as int) == gg * (mag as int)) by (nonlinear_arith)
                requires
                    mag_a == (gcd_ad as nat) * (m1 as nat),
                    mag_b == (gcd_cb as nat) * (m2 as nat),
                    mag == (m1 as nat) * (m2 as nat),
                    gg == (gcd_ad as int) * (gcd_cb as int),
            ;
            assert(an == if an >= 0 { mag_a as int } else { -(mag_a as int) });
            assert(bn == if bn >= 0 { mag_b as int } else { -(mag_b as int) });
            assert(an * bn == if negative {
                -((mag_a as int) * (mag_b as int))
            } else {
                (mag_a as int) * (mag_b as int)
            }) by (nonlinear_arith)
                requires
                    an == if an >= 0 { mag_a as int } else { -(mag_a as int) },
                    bn == if bn >= 0 { mag_b as int } else { -(mag_b as int) },
                    negative == ((an < 0) != (bn < 0)),
            ;
            assert(numerator as int == if negative { -(mag as int) } else { mag as int });
            assert((numerator as int) * ((ad * bd) as int) == (an * bn) * (denominator as int))
                by (nonlinear_arith)
                requires
                    (ad * bd) as int == gg * (denominator as int),
                    (mag_a as int) * (mag_b as int) == gg * (mag as int),
                    an * bn == if negative {
                        -((mag_a as int) * (mag_b as int))
                    } else {
                        (mag_a as int) * (mag_b as int)
                    },
                    numerator as int == if negative { -(mag as int) } else { mag as int },
            ;
            assert((ad * bd) as int > 0) by (nonlinear_arith)
                requires
                    ad > 0,
                    bd > 0,
            ;
            super::lemma_same_ratio_trans(
                r.num(),
                r.den() as int,
                numerator as int,
                denominator as int,
                an * bn,
                (ad * bd) as int,
            );
            lemma_reduce_of_equal_ratio(r, an * bn, ad * bd);
        }
        Some(r)
    }

    /// Attempts to divide `self` by `other`, returning `None` on division by
    /// zero or overflow.
    ///
    /// Division multiplies by the reciprocal, so it fails exactly when the
    /// divisor is zero, when the divisor's denominator cannot move into a
    /// signed numerator, or when the reduced quotient leaves the machine
    /// range.
    pub fn checked_div(&self, other: &Self) -> (r: Option<Self>)
        requires
            self.wf(),
            other.wf(),
        ensures
            r is Some <==> other.num() != 0 && other.den() <= i128::MAX && mul_in_range(
                *self,
                recip_spec(*other),
            ),
            r is Some ==> r == Some(
                reduce_spec(
                    self.num() * recip_spec(*other).num(),
                    (self.den() * recip_spec(*other).den()) as nat,
                ),
            ),
            r is Some ==> r.unwrap().wf() && same_ratio(
                r.unwrap().num(),
                r.unwrap().den() as int,
                self.num() * other.den(),
                self.den() * other.num(),
            ),
    {
        if other.numerator == 0 {
            return None;
        }
        let recip = match other.checked_recip() {
            None => {
                return None;
            },
            Some(v) => v,
        };
        assert(recip == recip_spec(*other));
        let r = self.checked_mul(&recip);
        proof {
            if r is Some {
                let q = r.unwrap();
                assert(same_ratio(
                    q.num(),
                    q.den() as int,
                    self.num() * other.den(),
                    self.den() * other.num(),
                )) by (nonlinear_arith)
                    requires
                        same_ratio(
                            q.num(),
                            q.den() as int,
                            self.num() * recip.num(),
                            (self.den() * recip.den()) as int,
                        ),
                        recip.num() == if other.num() < 0 {
                            -(other.den() as int)
                        } else {
                            other.den() as int
                        },
                        recip.den() == nat_abs(other.num()),
                        other.num() == if other.num() >= 0 {
                            nat_abs(other.num()) as int
                        } else {
                            -(nat_abs(other.num()) as int)
                        },
                        other.num() != 0,
                ;
            }
        }
        r
    }

    /// Attempts to negate the rational, returning `None` on overflow.
    ///
    /// Negation can only overflow when the numerator is `i128::MIN`.
    pub fn checked_neg(&self) -> (r: Option<Self>)
        requires
            self.wf(),
        ensures
            r is Some <==> self.num() != i128::MIN,
            r is Some ==> r == Some(
                Rational { numerator: (-self.num()) as i128, denominator: self.denominator },
            ),
            r is Some ==> r.unwrap().wf(),
    {
        if self.numerator == i128::MIN {
            return None;
        }
        let numerator = -self.numerator;
        assert(nat_abs(numerator as int) == nat_abs(self.num()));
        Some(Self { numerator, denominator: self.denominator })
    }

    /// Scales the rational by ten to the power `exponent`, exactly.
    ///
    /// A positive exponent multiplies by a power of ten, a negative one
    /// divides. The result is the scaled value brought to lowest terms, and
    /// `None` comes back exactly when that reduced value does not fit the
    /// machine representation.
    pub fn scale_by_power_of_10(&self, exponent: i8) -> (r: Option<Self>)
        requires
            self.wf(),
        ensures
            r == scale10_spec(*self, exponent as int),
            exponent >= 0 ==> (r is Some <==> reduce_fits(
                self.num() * pow(10, exponent as nat),
                self.den(),
            )),
            exponent >= 0 && r is Some ==> r == Some(
                reduce_spec(self.num() * pow(10, exponent as nat), self.den()),
            ),
            exponent < 0 ==> (r is Some <==> reduce_fits(
                self.num(),
                (self.den() * pow(10, (-(exponent as int)) as nat)) as nat,
            )),
            exponent < 0 && r is Some ==> r == Some(
                reduce_spec(
                    self.num(),
                    (self.den() * pow(10, (-(exponent as int)) as nat)) as nat,
                ),
            ),
            r is Some ==> r.unwrap().wf(),
            r is Some && exponent >= 0 ==> same_ratio(
                r.unwrap().num(),
                r.unwrap().den() as int,
                self.num() * pow(10, exponent as nat),
                self.den() as int,
            ),
            r is Some && exponent < 0 ==> same_ratio(
                r.unwrap().num(),
                r.unwrap().den() as int,
                self.num(),
                (self.den() * pow(10, (-(exponent as int)) as nat)) as int,
            ),
    {
        let ten = Rational { numerator: 10, denominator: 1 };
        let tenth = Rational { numerator: 1, denominator: 10 };
        proof {
            lemma_gcd_one(10);
            lemma_gcd_one_left(10);
            lemma_scale10_closed_form(*self, exponent as int);
        }
        let ghost start = *self;
        let ghost e0 = exponent as int;
        let mut cur = *self;
        let mut k: i8 = exponent;
        proof {
            vstd::arithmetic::power::lemma_pow0(10);
        }
        while k != 0
            invariant
                cur.wf(),
                start.wf(),
                start == *self,
                e0 == exponent as int,
                ten == ten_spec(),
                tenth == tenth_spec(),
                ten.wf(),
                tenth.wf(),
                scale10_spec(cur, k as int) == scale10_spec(start, e0),
                e0 >= 0 ==> 0 <= k as int <= e0,
                e0 < 0 ==> e0 <= k as int <= 0,
                e0 >= 0 ==> same_ratio(
                    cur.num(),
                    cur.den() as int,
                    start.num() * pow(10, (e0 - k as int) as nat),
                    start.den() as int,
                ),
                e0 < 0 ==> same_ratio(
                    cur.num(),
                    cur.den() as int,
                    start.num(),
                    (start.den() * pow(10, (k as int - e0) as nat)) as int,
                ),
            decreases
                    if k >= 0 {
                        k as int
                    } else {
                        -(k as int)
                    },
        {
            let ghost done: nat = if e0 >= 0 {
                (e0 - k as int) as nat
            } else {
                (k as int - e0) as nat
            };
            if k > 0 {
                let next = match cur.checked_mul(&ten) {
                    None => {
                        proof {
                            assert(scale10_spec(cur, k as int) is None);
                            lemma_scale10_closed_form(start, e0);
                        }
                        return None;
                    },
                    Some(v) => v,
                };
                proof {
                    assert(scale10_spec(cur, k as int) == scale10_spec(next, k as int - 1));
                    vstd::arithmetic::power::lemma_pow1(10);
                    vstd::arithmetic::power::lemma_pow_adds(10, done, 1);
                    assert((cur.num() * 10) * (start.den() as int) == (start.num() * pow(
                        10,
                        (done + 1) as nat,
                    )) * (cur.den() as int)) by (nonlinear_arith)
                        requires
                            cur.num() * (start.den() as int) == (start.num() * pow(10, done)) * (
                            cur.den() as int),
                            pow(10, (done + 1) as nat) == pow(10, done) * 10,
                    ;
                    super::lemma_same_ratio_trans(
                        next.num(),
                        next.den() as int,
                        cur.num() * 10,
                        cur.den() as int,
                        start.num() * pow(10, (done + 1) as nat),
                        start.den() as int,
                    );
                }
                cur = next;
                k = k - 1;
            } else {
                let next = match cur.checked_mul(&tenth) {
                    None => {
                        proof {
                            assert(scale10_spec(cur, k as int) is None);
                            lemma_scale10_closed_form(start, e0);
                        }
                        return None;
                    },
                    Some(v) => v,
                };
                proof {
                    assert(scale10_spec(cur, k as int) == scale10_spec(next, k as int + 1));
                    vstd::arithmetic::power::lemma_pow1(10);
                    vstd::arithmetic::power::lemma_pow_adds(10, done, 1);
                    assert(cur.num() * ((start.den() * pow(10, (done + 1) as nat)) as int) == (
                    start.num()) * ((cur.den() * 10) as int)) by (nonlinear_arith)
                        requires
                            cur.num() * ((start.den() * pow(10, done)) as int) == start.num() * (
                            cur.den() as int),
                            pow(10, (done + 1) as nat) == pow(10, done) * 10,
                    ;
                    super::lemma_same_ratio_trans(
                        next.num(),
                        next.den() as int,
                        cur.num(),
                        (cur.den() * 10) as int,
                        start.num(),
                        (start.den() * pow(10, (done + 1) as nat)) as int,
                    );
                }
                cur = next;
                k = k + 1;
            }
        }
        Some(cur)
    }
}


/// The quotient of an exact multiple: `(a * (g * t)) / g == a * t`.
proof fn lemma_exact_div_of_multiple(a: nat, g: nat, t: nat)
    requires
        g > 0,
    ensures
        (a * (g * t)) / g == a * t,
{
    assert(a * (g * t) == (a * t) * g + 0) by (nonlinear_arith);
    vstd::arithmetic::div_mod::lemma_fundamental_div_mod_converse(
        (a * (g * t)) as int,
        g as int,
        (a * t) as int,
        0,
    );
}

/// Scaling a well-formed nonzero rational up by one decimal order fits the
/// machine exactly when one multiplication by ten stays in range.
proof fn lemma_mul_ten_in_range_iff(q: Rational)
    requires
        q.wf(),
        q.num() != 0,
    ensures
        mul_in_range(q, ten_spec()) <==> reduce_fits(q.num() * 10, q.den()),
{
    let m = nat_abs(q.num());
    let d = q.den();
    let g = gcd(10, d);
    lemma_gcd_one(m);
    lemma_gcd_pos(10, d);
    lemma_gcd_divides(10, d);
    lemma_div_exact(g, 10);
    let t = 10nat / g;
    assert(nat_abs(q.num() * 10) == m * 10) by (nonlinear_arith)
        requires
            m == nat_abs(q.num()),
            q.num() == if q.num() >= 0 {
                m as int
            } else {
                -(m as int)
            },
    ;
    super::gcd::lemma_gcd_coprime_factor_drops(m, 10, d);
    assert(gcd(m * 10, d) == g);
    lemma_exact_div_of_multiple(m, g, t);
    assert((m * 10) / g == m * t) by {
        assert(m * 10 == m * (g * t));
    }
    vstd::arithmetic::div_mod::lemma_div_basics(m as int);
    vstd::arithmetic::div_mod::lemma_div_basics(1int);
    super::lemma_reduce_spec(q.num() * 10, d);
    assert((q.num() * 10 > 0 <==> q.num() > 0) && (q.num() * 10 < 0 <==> q.num() < 0))
        by (nonlinear_arith);
}

/// Scaling a well-formed nonzero rational down by one decimal order fits the
/// machine exactly when one division by ten stays in range.
proof fn lemma_mul_tenth_in_range_iff(q: Rational)
    requires
        q.wf(),
        q.num() != 0,
    ensures
        mul_in_range(q, tenth_spec()) <==> reduce_fits(q.num(), (q.den() * 10) as nat),
{
    let m = nat_abs(q.num());
    let d = q.den();
    let g = gcd(m, 10);
    lemma_gcd_one_left(d);
    assert(m > 0);
    lemma_gcd_pos(m, 10);
    lemma_gcd_divides(m, 10);
    lemma_div_exact(g, 10);
    let t = 10nat / g;
    // The coprime denominator factor drops out of the reducing gcd.
    super::gcd::lemma_gcd_commutes(m, d);
    super::gcd::lemma_gcd_coprime_factor_drops(d, 10, m);
    super::gcd::lemma_gcd_commutes(d * 10, m);
    super::gcd::lemma_gcd_commutes(10, m);
    assert(gcd(m, d * 10) == g);
    lemma_exact_div_of_multiple(d, g, t);
    assert((d * 10) / g == d * t) by {
        assert(d * 10 == d * (g * t));
    }
    vstd::arithmetic::div_mod::lemma_div_basics(d as int);
    vstd::arithmetic::div_mod::lemma_div_basics(1int);
    assert(d * 10 > 0) by (nonlinear_arith)
        requires
            d > 0,
    ;
    super::lemma_reduce_spec(q.num(), (d * 10) as nat);
    // The reduced numerator magnitude never exceeds the original, so the
    // signed-word bound on it holds on both sides.
    assert(m / g <= m);
}


/// The shape of the fitting condition for an upward scaling: with a
/// coprime factor dropped, only the signed-word bound on the grown
/// numerator matters.
proof fn lemma_fits_up_shape(qn: int, d: nat, j: nat)
    requires
        i128::MIN <= qn <= i128::MAX,
        qn != 0,
        1 <= d <= u128::MAX,
        gcd(nat_abs(qn), d) == 1,
    ensures
        reduce_fits(qn * pow(10, j), d) <==> nat_abs(qn) * ((pow(10, j) as nat) / gcd(
            pow(10, j) as nat,
            d,
        )) <= (if qn < 0 {
            super::I128_MIN_MAGNITUDE as nat
        } else {
            i128::MAX as nat
        }),
{
    let m = nat_abs(qn);
    let p = pow(10, j) as nat;
    vstd::arithmetic::power::lemma_pow_positive(10, j);
    let g = gcd(p, d);
    lemma_gcd_pos(p, d);
    lemma_gcd_divides(p, d);
    lemma_div_exact(g, p);
    let t = p / g;
    assert(nat_abs(qn * (p as int)) == m * p) by (nonlinear_arith)
        requires
            m == nat_abs(qn),
            p > 0,
            qn == if qn >= 0 {
                m as int
            } else {
                -(m as int)
            },
    ;
    super::gcd::lemma_gcd_coprime_factor_drops(m, p, d);
    assert(gcd(m * p, d) == g);
    lemma_exact_div_of_multiple(m, g, t);
    assert((m * p) / g == m * t) by {
        assert(m * p == m * (g * t));
    }
    super::lemma_reduce_spec(qn * (p as int), d);
    assert((qn * p > 0 <==> qn > 0) && (qn * p < 0 <==> qn < 0)) by (nonlinear_arith)
        requires
            p > 0,
    ;
}

/// The shape of the fitting condition for a downward scaling: with a
/// coprime factor dropped, only the word bound on the grown denominator
/// matters.
proof fn lemma_fits_down_shape(qn: int, d: nat, j: nat)
    requires
        i128::MIN <= qn <= i128::MAX,
        qn != 0,
        d >= 1,
        gcd(nat_abs(qn), d) == 1,
    ensures
        reduce_fits(qn, (d * pow(10, j)) as nat) <==> d * ((pow(10, j) as nat) / gcd(
            nat_abs(qn),
            pow(10, j) as nat,
        )) <= u128::MAX,
{
    let m = nat_abs(qn);
    let p = pow(10, j) as nat;
    vstd::arithmetic::power::lemma_pow_positive(10, j);
    let g = gcd(m, p);
    assert(m > 0);
    lemma_gcd_pos(m, p);
    lemma_gcd_divides(m, p);
    lemma_div_exact(g, p);
    let t = p / g;
    super::gcd::lemma_gcd_commutes(m, d);
    super::gcd::lemma_gcd_coprime_factor_drops(d, p, m);
    super::gcd::lemma_gcd_commutes(d * p, m);
    super::gcd::lemma_gcd_commutes(p, m);
    assert(gcd(m, d * p) == g);
    lemma_exact_div_of_multiple(d, g, t);
    assert((d * p) / g == d * t) by {
        assert(d * p == d * (g * t));
    }
    assert(d * p > 0) by (nonlinear_arith)
        requires
            d > 0,
            p > 0,
    ;
    super::lemma_reduce_spec(qn, (d * p) as nat);
    assert(m / g <= m);
}

/// Each further power of ten can grow the reducing gcd by at most a factor
/// of ten, so the reduced power is monotone in the exponent.
proof fn lemma_pow10_div_gcd_monotone(d: nat, j: nat)
    requires
        d >= 1,
    ensures
        (pow(10, j) as nat) / gcd(pow(10, j) as nat, d) <= (pow(10, (j + 1) as nat) as nat) / gcd(
            pow(10, (j + 1) as nat) as nat,
            d,
        ),
{
    let p = pow(10, j) as nat;
    let pp = pow(10, (j + 1) as nat) as nat;
    vstd::arithmetic::power::lemma_pow_positive(10, j);
    vstd::arithmetic::power::lemma_pow_positive(10, (j + 1) as nat);
    vstd::arithmetic::power::lemma_pow1(10);
    vstd::arithmetic::power::lemma_pow_adds(10, j, 1);
    assert(pp == p * 10);
    let g = gcd(p, d);
    let gg = gcd(pp, d);
    lemma_gcd_pos(p, d);
    lemma_gcd_pos(pp, d);
    lemma_gcd_divides(p, d);
    lemma_gcd_divides(pp, d);
    lemma_div_exact(g, p);
    lemma_div_exact(gg, pp);
    super::gcd::lemma_gcd_mul_bound(p, 10, d);
    assert(gcd(p * 10, d) <= 10 * g);
    let a = p / g;
    let aa = pp / gg;
    assert(aa >= a) by (nonlinear_arith)
        requires
            p == g * a,
            pp == gg * aa,
            pp == p * 10,
            gg <= 10 * g,
            g > 0,
            gg > 0,
    ;
}

/// The reduced power of ten under a fixed companion never shrinks as the
/// exponent grows.
proof fn lemma_pow10_div_gcd_chain(d: nat, j1: nat, j2: nat)
    requires
        d >= 1,
        j1 <= j2,
    ensures
        (pow(10, j1) as nat) / gcd(pow(10, j1) as nat, d) <= (pow(10, j2) as nat) / gcd(
            pow(10, j2) as nat,
            d,
        ),
    decreases j2 - j1,
{
    if j1 < j2 {
        lemma_pow10_div_gcd_chain(d, j1, (j2 - 1) as nat);
        lemma_pow10_div_gcd_monotone(d, (j2 - 1) as nat);
    }
}


/// Scaling zero never fails and never moves: the value stays `0 / 1`.
proof fn lemma_scale10_zero(q: Rational, e: int)
    requires
        q.wf(),
        q.num() == 0,
    ensures
        scale10_spec(q, e) == Some(q),
    decreases nat_abs(e),
{
    super::gcd::lemma_gcd_zero_left(q.den());
    assert(q.den() == 1);
    lemma_gcd_one(0);
    lemma_gcd_one(1);
    lemma_gcd_one_left(10);
    super::gcd::lemma_gcd_zero_left(1);
    super::gcd::lemma_gcd_zero_left(10);
    vstd::arithmetic::div_mod::lemma_div_basics(0int);
    vstd::arithmetic::div_mod::lemma_div_basics(1int);
    vstd::arithmetic::div_mod::lemma_div_basics(10int);
    vstd::arithmetic::div_mod::lemma_div_of0(10int);
    vstd::arithmetic::div_mod::lemma_div_by_self(10int);
    if e != 0 {
        if e > 0 {
            assert(mul_in_range(q, ten_spec()));
            assert(reduce_spec(q.num() * 10, q.den()) == q);
            lemma_scale10_zero(q, e - 1);
        } else {
            assert(gcd(nat_abs(q.num()), tenth_spec().den()) == 10);
            assert(gcd(nat_abs(tenth_spec().num()), q.den()) == 1);
            assert(nat_abs(q.num()) / 10 == 0) by {
                vstd::arithmetic::div_mod::lemma_basic_div(0, 10);
            }
            assert(10nat / 10 == 1);
            assert(mul_in_range(q, tenth_spec()));
            assert((q.den() * 10) as nat == 10nat);
            assert(reduce_spec(q.num(), (q.den() * 10) as nat) == q);
            lemma_scale10_zero(q, e + 1);
        }
    }
}

/// The closed form of decimal scaling: stepwise scaling succeeds exactly
/// when the fully scaled value, brought to lowest terms, fits the machine
/// representation, and then it returns precisely that reduced value.
pub proof fn lemma_scale10_closed_form(q: Rational, e: int)
    requires
        q.wf(),
    ensures
        e >= 0 ==> (scale10_spec(q, e) is Some <==> reduce_fits(
            q.num() * pow(10, e as nat),
            q.den(),
        )),
        e >= 0 && scale10_spec(q, e) is Some ==> scale10_spec(q, e).unwrap() == reduce_spec(
            q.num() * pow(10, e as nat),
            q.den(),
        ),
        e < 0 ==> (scale10_spec(q, e) is Some <==> reduce_fits(
            q.num(),
            (q.den() * pow(10, (-e) as nat)) as nat,
        )),
        e < 0 && scale10_spec(q, e) is Some ==> scale10_spec(q, e).unwrap() == reduce_spec(
            q.num(),
            (q.den() * pow(10, (-e) as nat)) as nat,
        ),
    decreases nat_abs(e),
{
    if q.num() == 0 {
        lemma_scale10_zero(q, e);
        super::gcd::lemma_gcd_zero_left(q.den());
        assert(q.den() == 1);
        if e >= 0 {
            vstd::arithmetic::power::lemma_pow_positive(10, e as nat);
            assert(q.num() * pow(10, e as nat) == 0) by (nonlinear_arith)
                requires
                    q.num() == 0,
            ;
            super::lemma_reduce_of_equal_ratio(q, q.num() * pow(10, e as nat), q.den());
        } else {
            vstd::arithmetic::power::lemma_pow_positive(10, (-e) as nat);
            let dd = (q.den() * pow(10, (-e) as nat)) as nat;
            assert(dd > 0) by (nonlinear_arith)
                requires
                    q.den() > 0,
                    pow(10, (-e) as nat) > 0,
                    dd == q.den() * pow(10, (-e) as nat),
            ;
            assert(same_ratio(q.num(), q.den() as int, q.num(), dd as int)) by (nonlinear_arith)
                requires
                    q.num() == 0,
            ;
            super::lemma_reduce_of_equal_ratio(q, q.num(), dd);
        }
    } else if e == 0 {
        vstd::arithmetic::power::lemma_pow0(10);
        assert(q.num() * pow(10, 0) == q.num());
        super::lemma_reduce_of_equal_ratio(q, q.num() * pow(10, 0), q.den());
    } else if e > 0 {
        lemma_mul_ten_in_range_iff(q);
        vstd::arithmetic::power::lemma_pow1(10);
        vstd::arithmetic::power::lemma_pow_adds(10, 1, (e - 1) as nat);
        assert(pow(10, e as nat) == 10 * pow(10, (e - 1) as nat));
        vstd::arithmetic::power::lemma_pow_positive(10, (e - 1) as nat);
        vstd::arithmetic::power::lemma_pow_positive(10, e as nat);
        if mul_in_range(q, ten_spec()) {
            let next = reduce_spec(q.num() * 10, q.den());
            super::lemma_reduce_spec(q.num() * 10, q.den());
            assert(next.wf());
            assert(next.num() != 0) by (nonlinear_arith)
                requires
                    same_ratio(next.num(), next.den() as int, q.num() * 10, q.den() as int),
                    q.num() != 0,
                    q.den() > 0,
                    next.den() > 0,
            ;
            lemma_scale10_closed_form(next, e - 1);
            // The scaled tail denotes the same value as the fully scaled
            // original.
            assert(same_ratio(
                next.num() * pow(10, (e - 1) as nat),
                next.den() as int,
                q.num() * pow(10, e as nat),
                q.den() as int,
            )) by (nonlinear_arith)
                requires
                    next.num() * (q.den() as int) == (q.num() * 10) * (next.den() as int),
                    pow(10, e as nat) == 10 * pow(10, (e - 1) as nat),
            ;
            super::lemma_reduce_ratio_invariant(
                next.num() * pow(10, (e - 1) as nat),
                next.den(),
                q.num() * pow(10, e as nat),
                q.den(),
            );
            assert(scale10_spec(q, e) == scale10_spec(next, e - 1));
        } else {
            assert(scale10_spec(q, e) is None);
            if reduce_fits(q.num() * pow(10, e as nat), q.den()) {
                lemma_fits_up_shape(q.num(), q.den(), e as nat);
                lemma_fits_up_shape(q.num(), q.den(), 1);
                lemma_pow10_div_gcd_chain(q.den(), 1, e as nat);
                let a1 = (pow(10, 1) as nat) / gcd(pow(10, 1) as nat, q.den());
                let ae = (pow(10, e as nat) as nat) / gcd(pow(10, e as nat) as nat, q.den());
                assert(a1 <= ae);
                assert(nat_abs(q.num()) * a1 <= nat_abs(q.num()) * ae) by (nonlinear_arith)
                    requires
                        a1 <= ae,
                ;
                assert(reduce_fits(q.num() * pow(10, 1), q.den()));
                assert(q.num() * pow(10, 1) == q.num() * 10);
                assert(false);
            }
        }
    } else {
        lemma_mul_tenth_in_range_iff(q);
        vstd::arithmetic::power::lemma_pow1(10);
        vstd::arithmetic::power::lemma_pow_adds(10, 1, (-e - 1) as nat);
        assert(pow(10, (-e) as nat) == 10 * pow(10, (-e - 1) as nat));
        vstd::arithmetic::power::lemma_pow_positive(10, (-e - 1) as nat);
        vstd::arithmetic::power::lemma_pow_positive(10, (-e) as nat);
        if mul_in_range(q, tenth_spec()) {
            let dd = (q.den() * 10) as nat;
            assert(dd > 0) by (nonlinear_arith)
                requires
                    dd == q.den() * 10,
                    q.den() > 0,
            ;
            let next = reduce_spec(q.num(), dd);
            super::lemma_reduce_spec(q.num(), dd);
            assert(next.wf());
            assert(next.num() != 0) by (nonlinear_arith)
                requires
                    same_ratio(next.num(), next.den() as int, q.num(), dd as int),
                    q.num() != 0,
                    dd > 0,
                    next.den() > 0,
            ;
            lemma_scale10_closed_form(next, e + 1);
            assert(same_ratio(
                next.num(),
                (next.den() * pow(10, (-e - 1) as nat)) as int,
                q.num(),
                (q.den() * pow(10, (-e) as nat)) as int,
            )) by (nonlinear_arith)
                requires
                    next.num() * (dd as int) == q.num() * (next.den() as int),
                    dd == q.den() * 10,
                    pow(10, (-e) as nat) == 10 * pow(10, (-e - 1) as nat),
            ;
            assert((next.den() * pow(10, (-e - 1) as nat)) as int > 0) by (nonlinear_arith)
                requires
                    next.den() > 0,
                    pow(10, (-e - 1) as nat) > 0,
            ;
            assert((q.den() * pow(10, (-e) as nat)) as int > 0) by (nonlinear_arith)
                requires
                    q.den() > 0,
                    pow(10, (-e) as nat) > 0,
            ;
            super::lemma_reduce_ratio_invariant(
                next.num(),
                (next.den() * pow(10, (-e - 1) as nat)) as nat,
                q.num(),
                (q.den() * pow(10, (-e) as nat)) as nat,
            );
            assert(scale10_spec(q, e) == scale10_spec(next, e + 1));
        } else {
            assert(scale10_spec(q, e) is None);
            if reduce_fits(q.num(), (q.den() * pow(10, (-e) as nat)) as nat) {
                lemma_fits_down_shape(q.num(), q.den(), (-e) as nat);
                lemma_fits_down_shape(q.num(), q.den(), 1);
                lemma_pow10_div_gcd_chain(nat_abs(q.num()), 1, (-e) as nat);
                super::gcd::lemma_gcd_commutes(nat_abs(q.num()), pow(10, 1) as nat);
                super::gcd::lemma_gcd_commutes(nat_abs(q.num()), pow(10, (-e) as nat) as nat);
                let b1 = (pow(10, 1) as nat) / gcd(nat_abs(q.num()), pow(10, 1) as nat);
                let be = (pow(10, (-e) as nat) as nat) / gcd(
                    nat_abs(q.num()),
                    pow(10, (-e) as nat) as nat,
                );
                assert(b1 <= be);
                assert(q.den() * b1 <= q.den() * be) by (nonlinear_arith)
                    requires
                        b1 <= be,
                ;
                assert(reduce_fits(q.num(), (q.den() * pow(10, 1)) as nat));
                assert((q.den() * pow(10, 1)) as nat == (q.den() * 10) as nat);
                assert(false);
            }
        }
    }
}

} // verus!
