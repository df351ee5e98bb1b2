//! Rational numbers for exact arithmetic.
//!
//! A [`Rational`] represents a fraction as `numerator / denominator` where
//! the numerator is an `i128` carrying the sign, the denominator is a `u128`
//! that is always positive, and the fraction is always stored in lowest
//! terms. Unlike floating-point numbers, rational numbers give exact
//! arithmetic without rounding error.

pub mod convert;
pub mod gcd;
pub mod wide;
pub mod ops;

use gcd::gcd;
use gcd::lemma_div_by_gcd_coprime;
use gcd::lemma_div_exact;
use gcd::lemma_gcd_commutes;
use gcd::lemma_gcd_divides;
use gcd::lemma_gcd_pos;
use gcd::lemma_reduced_fraction_unique;
use vstd::prelude::*;

verus! {

/// The magnitude of an integer, as a natural number.
pub open spec fn nat_abs(n: int) -> nat {
    if n >= 0 {
        n as nat
    } else {
        (-n) as nat
    }
}

/// True iff the two fractions `n1 / d1` and `n2 / d2` denote the same
/// rational value, by cross multiplication. Sound whenever at most the
/// numerators are negative and the denominators are positive.
pub open spec fn same_ratio(n1: int, d1: int, n2: int, d2: int) -> bool {
    n1 * d2 == n2 * d1
}

/// The magnitude of `i128::MIN`, which is one more than `i128::MAX`.
pub const I128_MIN_MAGNITUDE: u128 = 170141183460469231731687303715884105728;

/// A rational number represented as a fraction.
///
/// - The sign is always in the numerator.
/// - The denominator is always positive.
/// - The fraction is always in lowest terms.
#[derive(Clone, Copy, Debug, Eq, PartialEq, Structural)]
pub struct Rational {
    /// The numerator; it carries the sign of the fraction.
    pub numerator: i128,
    /// The denominator; always positive in a well-formed fraction.
    pub denominator: u128,
}

impl Rational {
    /// The numerator, as an unbounded integer.
    pub open spec fn num(self) -> int {
        self.numerator as int
    }

    /// The denominator, as an unbounded natural number.
    pub open spec fn den(self) -> nat {
        self.denominator as nat
    }

    /// Well-formedness: the denominator is positive and the fraction is in
    /// lowest terms.
    pub open spec fn wf(self) -> bool {
        &&& self.den() > 0
        &&& gcd(nat_abs(self.num()), self.den()) == 1
    }
}

/// The exact reciprocal of a well-formed nonzero rational: the denominator
/// moves into the numerator, keeping the sign there.
pub open spec fn recip_spec(b: Rational) -> Rational {
    Rational {
        numerator: (if b.num() < 0 {
            -(b.den() as int)
        } else {
            b.den() as int
        }) as i128,
        denominator: nat_abs(b.num()) as u128,
    }
}

/// The fraction `num / den` brought to lowest terms, with the sign kept in
/// the numerator. Meaningful for `den > 0` and a numerator magnitude small
/// enough that the reduced parts fit their machine types.
pub open spec fn reduce_spec(num: int, den: nat) -> Rational {
    let g = gcd(nat_abs(num), den) as int;
    Rational { numerator: (num / g) as i128, denominator: ((den as int) / g) as u128 }
}

/// True iff the fraction `num / den` in lowest terms fits the machine
/// representation: the reduced numerator fits an `i128` and the reduced
/// denominator fits a `u128`.
pub open spec fn reduce_fits(num: int, den: nat) -> bool {
    let g = gcd(nat_abs(num), den);
    &&& den > 0
    &&& i128::MIN <= num / (g as int) <= i128::MAX
    &&& den / g <= u128::MAX
}

/// The reduced form of a fraction with a positive denominator is well
/// formed, denotes the same value, and its parts do not exceed the original
/// fraction's parts in magnitude.
pub proof fn lemma_reduce_spec(num: int, den: nat)
    requires
        den > 0,
    ensures
        reduce_fits(num, den) ==> reduce_spec(num, den).wf(),
        reduce_fits(num, den) ==> same_ratio(
            reduce_spec(num, den).num(),
            reduce_spec(num, den).den() as int,
            num,
            den as int,
        ),
        i128::MIN <= num <= i128::MAX && den <= u128::MAX ==> reduce_fits(num, den),
        nat_abs(num / (gcd(nat_abs(num), den) as int)) == nat_abs(num) / gcd(nat_abs(num), den),
        nat_abs(num) / gcd(nat_abs(num), den) <= nat_abs(num),
        1 <= den / gcd(nat_abs(num), den) <= den,
        num >= 0 ==> num / (gcd(nat_abs(num), den) as int) >= 0,
        num < 0 ==> num / (gcd(nat_abs(num), den) as int) <= 0,
{
    let m = nat_abs(num);
    let g = gcd(m, den);
    lemma_gcd_pos(m, den);
    lemma_gcd_divides(m, den);
    lemma_div_exact(g, m);
    lemma_div_exact(g, den);
    let m1 = m / g;
    let d1 = den / g;
    assert(m == g * m1 && den == g * d1);
    // Division of the signed numerator by g matches division of magnitudes.
    assert(num / (g as int) == if num >= 0 { m1 as int } else { -(m1 as int) }) by {
        if num >= 0 {
            assert(num == (m1 as int) * (g as int) + 0) by (nonlinear_arith)
                requires
                    m == g * m1,
                    num == m as int,
            ;
            vstd::arithmetic::div_mod::lemma_fundamental_div_mod_converse(
                num,
                g as int,
                m1 as int,
                0,
            );
        } else {
            assert(num == (-(m1 as int)) * (g as int) + 0) by (nonlinear_arith)
                requires
                    m == g * m1,
                    num == -(m as int),
            ;
            vstd::arithmetic::div_mod::lemma_fundamental_div_mod_converse(
                num,
                g as int,
                -(m1 as int),
                0,
            );
        }
    }
    assert(d1 >= 1) by (nonlinear_arith)
        requires
            den == g * d1,
            den > 0,
    ;
    assert(m1 <= m && d1 <= den) by (nonlinear_arith)
        requires
            m == g * m1,
            den == g * d1,
            g >= 1,
    ;
    if reduce_fits(num, den) {
        lemma_div_by_gcd_coprime(m, den);
        // The reduced value denotes the same ratio: num * d1 == (num / g) * den.
        assert(num * (d1 as int) == (num / (g as int)) * (den as int)) by (nonlinear_arith)
            requires
                den == g * d1,
                m == g * m1,
                num == if num >= 0 { m as int } else { -(m as int) },
                num / (g as int) == if num >= 0 { m1 as int } else { -(m1 as int) },
        ;
    }
}

/// Value equality of fractions is transitive across a fraction with a
/// positive denominator.
pub proof fn lemma_same_ratio_trans(n1: int, d1: int, n2: int, d2: int, n3: int, d3: int)
    requires
        same_ratio(n1, d1, n2, d2),
        same_ratio(n2, d2, n3, d3),
        d2 > 0,
    ensures
        same_ratio(n1, d1, n3, d3),
{
    assert(n1 * d3 == n3 * d1) by (nonlinear_arith)
        requires
            n1 * d2 == n2 * d1,
            n2 * d3 == n3 * d2,
            d2 > 0,
    ;
}

/// A fraction with the same value as a well-formed rational reduces exactly
/// to that rational.
pub proof fn lemma_reduce_of_equal_ratio(r: Rational, num: int, den: nat)
    requires
        r.wf(),
        den > 0,
        same_ratio(r.num(), r.den() as int, num, den as int),
    ensures
        reduce_fits(num, den),
        reduce_spec(num, den) == r,
{
    let m = nat_abs(num);
    let g = gcd(m, den);
    lemma_gcd_pos(m, den);
    lemma_gcd_divides(m, den);
    lemma_div_exact(g, m);
    lemma_div_exact(g, den);
    lemma_div_by_gcd_coprime(m, den);
    let m1 = m / g;
    let d1 = den / g;
    // The signs of num and r.num() agree, since the denominators are positive.
    assert((num > 0 <==> r.num() > 0) && (num == 0 <==> r.num() == 0)) by (nonlinear_arith)
        requires
            r.num() * (den as int) == num * (r.den() as int),
            den > 0,
            r.den() > 0,
    ;
    // The magnitudes satisfy the same cross-product identity.
    assert(nat_abs(r.num()) * den == m * r.den()) by (nonlinear_arith)
        requires
            r.num() * (den as int) == num * (r.den() as int),
            m == nat_abs(num),
            (num > 0 <==> r.num() > 0) && (num == 0 <==> r.num() == 0),
    ;
    // Divide the right-hand side by g to reach the reduced pair.
    assert(nat_abs(r.num()) * (d1 as int) == (m1 as int) * (r.den() as int))
        by (nonlinear_arith)
        requires
            nat_abs(r.num()) * den == m * r.den(),
            m == g * m1,
            den == g * d1,
            g > 0,
    ;
    assert(d1 > 0) by (nonlinear_arith)
        requires
            den == g * d1,
            den > 0,
    ;
    lemma_reduced_fraction_unique(nat_abs(r.num()), r.den(), m1, d1);
    assert(nat_abs(r.num()) == m1 && r.den() == d1);
    lemma_reduce_spec(num, den);
    assert(num / (g as int) == r.num());
}

/// Reduction to lowest terms depends only on the denoted value: fractions
/// with the same value fit the machine representation together and reduce
/// to the same rational.
pub proof fn lemma_reduce_ratio_invariant(n1: int, d1: nat, n2: int, d2: nat)
    requires
        d1 > 0,
        d2 > 0,
        same_ratio(n1, d1 as int, n2, d2 as int),
    ensures
        reduce_fits(n1, d1) <==> reduce_fits(n2, d2),
        reduce_fits(n1, d1) ==> reduce_spec(n1, d1) == reduce_spec(n2, d2),
        nat_abs(n1) / gcd(nat_abs(n1), d1) == nat_abs(n2) / gcd(nat_abs(n2), d2),
        d1 / gcd(nat_abs(n1), d1) == d2 / gcd(nat_abs(n2), d2),
{
    let m1 = nat_abs(n1);
    let m2 = nat_abs(n2);
    let g1 = gcd(m1, d1);
    let g2 = gcd(m2, d2);
    lemma_gcd_pos(m1, d1);
    lemma_gcd_pos(m2, d2);
    lemma_gcd_divides(m1, d1);
    lemma_gcd_divides(m2, d2);
    lemma_div_exact(g1, m1);
    lemma_div_exact(g1, d1);
    lemma_div_exact(g2, m2);
    lemma_div_exact(g2, d2);
    lemma_div_by_gcd_coprime(m1, d1);
    lemma_div_by_gcd_coprime(m2, d2);
    let m1q = m1 / g1;
    let d1q = d1 / g1;
    let m2q = m2 / g2;
    let d2q = d2 / g2;
    // The signs agree, so the magnitudes satisfy the same cross product.
    assert((n1 > 0 <==> n2 > 0) && (n1 == 0 <==> n2 == 0)) by (nonlinear_arith)
        requires
            n1 * (d2 as int) == n2 * (d1 as int),
            d1 > 0,
            d2 > 0,
    ;
    assert(m1 * d2 == m2 * d1) by (nonlinear_arith)
        requires
            n1 * (d2 as int) == n2 * (d1 as int),
            (n1 > 0 <==> n2 > 0) && (n1 == 0 <==> n2 == 0),
            m1 == nat_abs(n1),
            m2 == nat_abs(n2),
            n1 == if n1 >= 0 {
                m1 as int
            } else {
                -(m1 as int)
            },
            n2 == if n2 >= 0 {
                m2 as int
            } else {
                -(m2 as int)
            },
    ;
    assert(m1q * d2q == m2q * d1q) by (nonlinear_arith)
        requires
            m1 * d2 == m2 * d1,
            m1 == g1 * m1q,
            d1 == g1 * d1q,
            m2 == g2 * m2q,
            d2 == g2 * d2q,
            g1 > 0,
            g2 > 0,
    ;
    assert(d1q > 0 && d2q > 0) by (nonlinear_arith)
        requires
            d1 == g1 * d1q,
            d2 == g2 * d2q,
            d1 > 0,
            d2 > 0,
    ;
    lemma_reduced_fraction_unique(m1q, d1q, m2q, d2q);
    lemma_reduce_spec(n1, d1);
    lemma_reduce_spec(n2, d2);
}

/// Two well-formed rationals denoting the same value are equal.
pub proof fn lemma_wf_same_ratio_equal(a: Rational, b: Rational)
    requires
        a.wf(),
        b.wf(),
        same_ratio(a.num(), a.den() as int, b.num(), b.den() as int),
    ensures
        a == b,
{
    if a.num() == 0 || b.num() == 0 {
        assert(a.num() * b.den() == b.num() * a.den());
        assert(a.num() == 0 && b.num() == 0) by (nonlinear_arith)
            requires
                a.num() * b.den() == b.num() * a.den(),
                a.den() > 0,
                b.den() > 0,
                a.num() == 0 || b.num() == 0,
        ;
        // gcd(0, d) == d, so a lowest-terms zero has denominator one.
        gcd::lemma_gcd_zero_left(a.den());
        gcd::lemma_gcd_zero_left(b.den());
    } else {
        // Both numerators are nonzero; the cross product forces equal signs.
        assert((a.num() > 0 && b.num() > 0) || (a.num() < 0 && b.num() < 0))
            by (nonlinear_arith)
            requires
                a.num() * b.den() == b.num() * a.den(),
                a.den() > 0,
                b.den() > 0,
                a.num() != 0,
                b.num() != 0,
        ;
        assert(nat_abs(a.num()) * b.den() == nat_abs(b.num()) * a.den()) by (nonlinear_arith)
            requires
                a.num() * b.den() == b.num() * a.den(),
                (a.num() > 0 && b.num() > 0) || (a.num() < 0 && b.num() < 0),
        ;
        lemma_reduced_fraction_unique(
            nat_abs(a.num()),
            a.den(),
            nat_abs(b.num()),
            b.den(),
        );
        assert(a.num() == b.num());
    }
}

/// Calculates the greatest common divisor using the Euclidean algorithm.
///
/// Used internally to reduce fractions to lowest terms and to shrink
/// operands before multiplication, lowering the risk of overflow.
pub fn gcd_u128(a: u128, b: u128) -> (r: u128)
    ensures
        r == gcd(a as nat, b as nat),
{
    let mut x: u128 = a;
    let mut y: u128 = b;
    while y != 0
        invariant
            gcd(x as nat, y as nat) == gcd(a as nat, b as nat),
        decreases y,
    {
        let t: u128 = x % y;
        x = y;
        y = t;
    }
    x
}

/// The magnitude of a signed value, as a `u128`.
fn magnitude_u128(n: i128) -> (r: u128)
    ensures
        r == nat_abs(n as int),
{
    if n == i128::MIN {
        I128_MIN_MAGNITUDE
    } else if n < 0 {
        (-n) as u128
    } else {
        n as u128
    }
}

/// A signed value with the given magnitude; negative when asked, as long as
/// the magnitude fits.
fn signed_of_magnitude(mag: u128, negative: bool) -> (r: i128)
    requires
        negative ==> mag <= I128_MIN_MAGNITUDE,
        !negative ==> mag <= i128::MAX,
    ensures
        nat_abs(r as int) == mag,
        negative ==> r <= 0,
        !negative ==> r >= 0,
{
    if negative {
        if mag == I128_MIN_MAGNITUDE {
            i128::MIN
        } else {
            -(mag as i128)
        }
    } else {
        mag as i128
    }
}

impl Rational {
    /// Creates a rational number from `numerator` and `denominator`,
    /// returning `None` if the denominator is zero.
    ///
    /// The fraction is reduced to lowest terms with the Euclidean greatest
    /// common divisor, so the result is well formed and denotes exactly
    /// `numerator / denominator`.
    pub fn try_new(numerator: i128, denominator: u128) -> (r: Option<Self>)
        ensures
            r is Some <==> denominator != 0,
            denominator != 0 ==> r == Some(reduce_spec(numerator as int, denominator as nat)),
            denominator != 0 ==> r.unwrap().wf() && same_ratio(
                r.unwrap().num(),
                r.unwrap().den() as int,
                numerator as int,
                denominator as int,
            ),
    {
        if denominator == 0 {
            return None;
        }
        let mag = magnitude_u128(numerator);
        let g = gcd_u128(mag, denominator);
        proof {
            lemma_reduce_spec(numerator as int, denominator as nat);
            lemma_gcd_pos(mag as nat, denominator as nat);
            lemma_gcd_divides(mag as nat, denominator as nat);
            lemma_div_exact(g as nat, mag as nat);
            lemma_div_exact(g as nat, denominator as nat);
        }
        let new_mag = mag / g;
        let new_den = denominator / g;
        let numerator = signed_of_magnitude(new_mag, numerator < 0);
        Some(Rational { numerator, denominator: new_den })
    }

    /// Creates a rational number from `numerator` and `denominator`, reduced
    /// to lowest terms.
    ///
    /// Callers must pass a nonzero denominator; an unverified caller that
    /// passes zero hits a panic.
    pub fn new(numerator: i128, denominator: u128) -> (r: Self)
        requires
            denominator != 0,
        ensures
            r == reduce_spec(numerator as int, denominator as nat),
            r.wf(),
            same_ratio(r.num(), r.den() as int, numerator as int, denominator as int),
    {
        Self::try_new(numerator, denominator).unwrap()
    }

    /// Attempts to compute the reciprocal, returning `None` when the
    /// numerator is zero (no reciprocal of zero) or when the denominator is
    /// too large to move into the signed numerator.
    pub fn checked_recip(self) -> (r: Option<Self>)
        requires
            self.wf(),
        ensures
            r is Some <==> self.num() != 0 && self.den() <= i128::MAX,
            r is Some ==> r == Some(recip_spec(self)),
            r is Some ==> r.unwrap().wf() && same_ratio(
                r.unwrap().num(),
                r.unwrap().den() as int,
                self.den() as int,
                self.num(),
            ),
    {
        if self.numerator == 0 {
            return None;
        }
        if self.denominator > i128::MAX as u128 {
            return None;
        }
        let mag = magnitude_u128(self.numerator);
        let numerator = signed_of_magnitude(self.denominator, self.numerator < 0);
        proof {
            lemma_gcd_commutes(self.den(), nat_abs(self.num()));
            let rn = numerator as int;
            let rd = mag as int;
            assert(rn * self.num() == self.den() * rd) by (nonlinear_arith)
                requires
                    nat_abs(rn) == self.den(),
                    rd == nat_abs(self.num()),
                    self.num() != 0,
                    self.den() > 0,
                    (rn <= 0 <==> self.num() < 0),
            ;
        }
        Some(Self { numerator, denominator: mag })
    }

    /// Returns the reciprocal of this rational: for `a / b` it returns
    /// `b / a`, with the sign kept in the numerator.
    ///
    /// Callers must pass a nonzero value whose denominator fits the signed
    /// numerator; an unverified caller that does not hits a panic.
    pub fn recip(self) -> (r: Self)
        requires
            self.wf(),
            self.num() != 0,
            self.den() <= i128::MAX,
        ensures
            r.wf(),
            same_ratio(r.num(), r.den() as int, self.den() as int, self.num()),
    {
        self.checked_recip().unwrap()
    }

    /// Returns the zero rational, `0 / 1`.
    pub fn zero() -> (r: Self)
        ensures
            r.wf(),
            r.num() == 0,
            r.den() == 1,
    {
        Self::new_int(0)
    }

    /// Creates a rational number representing an integer: `numerator / 1`.
    pub fn new_int(numerator: i128) -> (r: Self)
        ensures
            r.wf(),
            r.num() == numerator as int,
            r.den() == 1,
    {
        proof {
            gcd::lemma_gcd_one(nat_abs(numerator as int));
        }
        Self { numerator, denominator: 1 }
    }

    /// Returns the numerator of the fraction, which carries the sign.
    pub fn numerator(&self) -> (r: i128)
        ensures
            r as int == self.num(),
    {
        self.numerator
    }

    /// Returns the denominator of the fraction, which is always positive for
    /// a well-formed fraction.
    pub fn denominator(&self) -> (r: u128)
        ensures
            r as nat == self.den(),
    {
        self.denominator
    }
}

} // verus!
