//! Divisibility and the greatest common divisor.
//!
//! The [`gcd`] spec function follows the Euclidean algorithm; the lemmas here
//! establish the facts the rational type rests on: the gcd divides both
//! arguments, every common divisor divides the gcd, dividing both arguments
//! by their gcd leaves a coprime pair, and a fraction in lowest terms with a
//! positive denominator is determined by its value.

use vstd::arithmetic::div_mod::lemma_fundamental_div_mod;
use vstd::arithmetic::div_mod::lemma_fundamental_div_mod_converse;
use vstd::arithmetic::mul::lemma_mul_is_associative;
use vstd::arithmetic::mul::lemma_mul_is_commutative;
use vstd::arithmetic::mul::lemma_mul_is_distributive_add;
use vstd::arithmetic::mul::lemma_mul_is_distributive_sub;
use vstd::prelude::*;

verus! {

/// True iff `d` divides `n`: some `k` satisfies `n == d * k`.
pub open spec fn divides(d: nat, n: nat) -> bool {
    exists|k: nat| n == #[trigger] (d * k)
}

/// The greatest common divisor, by the Euclidean algorithm.
///
/// `gcd(a, 0) == a`, so `gcd(0, 0) == 0`.
pub open spec fn gcd(a: nat, b: nat) -> nat
    decreases b,
{
    if b == 0 {
        a
    } else {
        gcd(b, a % b)
    }
}

/// Every number divides itself.
pub proof fn lemma_divides_self(a: nat)
    ensures
        divides(a, a),
{
    assert(a == a * 1);
}

/// Every number divides zero.
pub proof fn lemma_divides_zero(a: nat)
    ensures
        divides(a, 0),
{
    assert(0 == a * 0);
}

/// On the naturals, mutual divisibility is equality.
pub proof fn lemma_divides_antisymmetric(a: nat, b: nat)
    requires
        divides(a, b),
        divides(b, a),
    ensures
        a == b,
{
    let k1 = choose|k: nat| b == #[trigger] (a * k);
    let k2 = choose|k: nat| a == #[trigger] (b * k);
    assert(b == a * k1);
    assert(a == b * k2);
    if a == 0 {
        assert(b == 0 * k1 == 0);
    } else if b == 0 {
        assert(a == 0 * k2 == 0);
    } else {
        assert(a == a * (k1 * k2)) by (nonlinear_arith)
            requires
                b == a * k1,
                a == b * k2,
        ;
        assert(k1 * k2 == 1) by (nonlinear_arith)
            requires
                a == a * (k1 * k2),
                a > 0,
        ;
        assert(k1 == 1 && k2 == 1) by (nonlinear_arith)
            requires
                k1 * k2 == 1,
        ;
    }
}

/// The gcd divides both of its arguments.
pub proof fn lemma_gcd_divides(a: nat, b: nat)
    ensures
        divides(gcd(a, b), a),
        divides(gcd(a, b), b),
    decreases b,
{
    if b == 0 {
        lemma_divides_self(a);
        lemma_divides_zero(a);
    } else {
        lemma_gcd_divides(b, a % b);
        let g = gcd(b, a % b);
        lemma_fundamental_div_mod(a as int, b as int);
        let q = a as int / b as int;
        assert(a == b * q + a % b);
        let kb = choose|k: nat| b == #[trigger] (g * k);
        let kr = choose|k: nat| (a % b) == #[trigger] (g * k);
        assert(a == g * (kb * q + kr)) by (nonlinear_arith)
            requires
                a == b * q + a % b,
                b == g * kb,
                a % b == g * kr,
        ;
        assert(kb * q + kr >= 0) by (nonlinear_arith)
            requires
                a == g * (kb * q + kr),
                b == g * kb,
                b > 0,
                q >= 0,
                kr >= 0,
        ;
        assert(a == g * ((kb * q + kr) as nat));
    }
}

/// The gcd of two numbers, not both zero, is positive.
pub proof fn lemma_gcd_pos(a: nat, b: nat)
    requires
        a > 0 || b > 0,
    ensures
        gcd(a, b) > 0,
    decreases b,
{
    if b == 0 {
    } else {
        lemma_gcd_pos(b, a % b);
    }
}

/// Every common divisor of `a` and `b` divides their gcd.
pub proof fn lemma_divides_gcd(a: nat, b: nat, c: nat)
    requires
        divides(c, a),
        divides(c, b),
    ensures
        divides(c, gcd(a, b)),
    decreases b,
{
    if b == 0 {
    } else {
        let ka = choose|k: nat| a == #[trigger] (c * k);
        let kb = choose|k: nat| b == #[trigger] (c * k);
        lemma_fundamental_div_mod(a as int, b as int);
        let q = a as int / b as int;
        assert(a % b == c * (ka - kb * q)) by (nonlinear_arith)
            requires
                a == b * q + a % b,
                a == c * ka,
                b == c * kb,
        ;
        assert(ka - kb * q >= 0) by (nonlinear_arith)
            requires
                a % b == c * (ka - kb * q),
                a % b >= 0,
                b == c * kb,
                b > 0,
        ;
        assert(a % b == c * ((ka - kb * q) as nat));
        lemma_divides_gcd(b, a % b, c);
    }
}

/// Scaling both arguments scales the gcd: `gcd(k a, k b) == k * gcd(a, b)`.
pub proof fn lemma_gcd_scale(k: nat, a: nat, b: nat)
    ensures
        gcd(k * a, k * b) == k * gcd(a, b),
    decreases b,
{
    if k == 0 {
        assert(k * a == 0 && k * b == 0 && k * gcd(a, b) == 0);
    } else if b == 0 {
        assert(k * b == 0);
    } else {
        lemma_fundamental_div_mod(a as int, b as int);
        let q = a as int / b as int;
        let r = a % b;
        assert(k * a == q * (k * b) + k * r) by (nonlinear_arith)
            requires
                a == b * q + r,
        ;
        assert(0 <= k * r < k * b) by (nonlinear_arith)
            requires
                k > 0,
                0 <= r < b,
        ;
        assert(k * b != 0);
        lemma_fundamental_div_mod_converse(k * a as int, k * b as int, q, k * r as int);
        assert((k * a) % (k * b) == k * r);
        lemma_gcd_scale(k, b, r);
        assert(gcd(k * a, k * b) == gcd(k * b, (k * a) % (k * b)));
    }
}

/// Euclid's lemma: a number coprime to `b` that divides `b * c` divides `c`.
pub proof fn lemma_euclid(a: nat, b: nat, c: nat)
    requires
        gcd(a, b) == 1,
        divides(a, b * c),
    ensures
        divides(a, c),
{
    lemma_mul_is_commutative(a as int, c as int);
    assert(a * c == c * a);
    assert(divides(a, a * c)) by {
        assert(a * c == a * c);
    }
    lemma_mul_is_commutative(b as int, c as int);
    lemma_divides_gcd(a * c, b * c, a);
    assert(divides(a, gcd(a * c, b * c)));
    lemma_gcd_scale(c, a, b);
    assert(c * a == a * c && c * b == b * c);
    assert(gcd(a * c, b * c) == c * 1);
    assert(gcd(a * c, b * c) == c);
}

/// Divisibility is transitive.
pub proof fn lemma_divides_trans(a: nat, b: nat, c: nat)
    requires
        divides(a, b),
        divides(b, c),
    ensures
        divides(a, c),
{
    let k1 = choose|k: nat| b == #[trigger] (a * k);
    let k2 = choose|k: nat| c == #[trigger] (b * k);
    assert(b == a * k1);
    assert(c == b * k2);
    assert(c == a * (k1 * k2)) by (nonlinear_arith)
        requires
            b == a * k1,
            c == b * k2,
    ;
}

/// Only one divides one.
pub proof fn lemma_divides_one(a: nat)
    requires
        divides(a, 1),
    ensures
        a == 1,
{
    let k = choose|kk: nat| 1nat == #[trigger] (a * kk);
    assert(1nat == a * k);
    assert(a == 1) by (nonlinear_arith)
        requires
            1nat == a * k,
    ;
}

/// Divisors of coprime numbers are coprime.
pub proof fn lemma_coprime_of_divisors(a: nat, b: nat, a1: nat, b1: nat)
    requires
        divides(a1, a),
        divides(b1, b),
        gcd(a, b) == 1,
    ensures
        gcd(a1, b1) == 1,
{
    let g = gcd(a1, b1);
    lemma_gcd_divides(a1, b1);
    lemma_divides_trans(g, a1, a);
    lemma_divides_trans(g, b1, b);
    lemma_divides_gcd(a, b, g);
    lemma_divides_one(g);
}

/// A number coprime to two factors is coprime to their product.
pub proof fn lemma_coprime_mul(a: nat, b: nat, c: nat)
    requires
        gcd(a, b) == 1,
        gcd(a, c) == 1,
    ensures
        gcd(a, b * c) == 1,
{
    let g = gcd(a, b * c);
    lemma_gcd_divides(a, b * c);
    // g is coprime to b, since g divides a and gcd(a, b) == 1.
    lemma_divides_self(b);
    lemma_coprime_of_divisors(a, b, g, b);
    // g divides b * c and is coprime to b, so g divides c.
    lemma_euclid(g, b, c);
    // g divides both a and c, which are coprime.
    lemma_divides_gcd(a, c, g);
    lemma_divides_one(g);
}

/// A factor coprime to the second argument drops out of the gcd:
/// `gcd(m * x, d) == gcd(x, d)` when `gcd(m, d) == 1`.
pub proof fn lemma_gcd_coprime_factor_drops(m: nat, x: nat, d: nat)
    requires
        gcd(m, d) == 1,
    ensures
        gcd(m * x, d) == gcd(x, d),
{
    let big = gcd(m * x, d);
    let small = gcd(x, d);
    // The small gcd divides m * x and d, hence the big one.
    lemma_gcd_divides(x, d);
    let kx = choose|k: nat| x == #[trigger] (small * k);
    assert(x == small * kx);
    assert(m * x == small * (m * kx)) by (nonlinear_arith)
        requires
            x == small * kx,
    ;
    lemma_divides_gcd(m * x, d, small);
    // The big gcd divides m * x and is coprime to m, so it divides x.
    lemma_gcd_divides(m * x, d);
    lemma_divides_self(m);
    lemma_gcd_commutes(m, d);
    lemma_coprime_of_divisors(d, m, big, m);
    lemma_gcd_commutes(big, m);
    lemma_euclid(big, m, x);
    lemma_divides_gcd(x, d, big);
    lemma_divides_antisymmetric(big, small);
}

/// Growing one argument by a factor grows the gcd by at most that factor:
/// `gcd(x * y, d) <= y * gcd(x, d)` for positive `x` and `y`.
pub proof fn lemma_gcd_mul_bound(x: nat, y: nat, d: nat)
    requires
        x > 0,
        y > 0,
    ensures
        gcd(x * y, d) <= y * gcd(x, d),
{
    let big = gcd(x * y, d);
    let g = gcd(x, d);
    let h = gcd(big, x);
    lemma_gcd_divides(big, x);
    lemma_gcd_divides(x * y, d);
    // h divides both x and d, hence g.
    lemma_divides_trans(h, big, d);
    lemma_divides_gcd(x, d, h);
    // Split big and x by h; the parts are coprime.
    assert(x * y > 0) by (nonlinear_arith)
        requires
            x > 0,
            y > 0,
    ;
    lemma_gcd_pos(x * y, d);
    lemma_gcd_pos(x, d);
    lemma_gcd_pos(big, x);
    lemma_div_exact(h, big);
    lemma_div_exact(h, x);
    lemma_div_by_gcd_coprime(big, x);
    let bigq = big / h;
    let xq = x / h;
    // big divides x * y, so bigq divides xq * y.
    let kk = choose|k: nat| x * y == #[trigger] (big * k);
    assert(x * y == big * kk);
    assert(xq * y == bigq * kk) by (nonlinear_arith)
        requires
            x * y == big * kk,
            x == h * xq,
            big == h * bigq,
            h > 0,
    ;
    assert(divides(bigq, xq * y)) by {
        assert(xq * y == bigq * kk);
    }
    lemma_euclid(bigq, xq, y);
    // So bigq is at most y, and big == h * bigq <= g * y.
    let ky = choose|k: nat| y == #[trigger] (bigq * k);
    assert(y == bigq * ky);
    let kg = choose|k: nat| g == #[trigger] (h * k);
    assert(g == h * kg);
    assert(big <= y * g) by (nonlinear_arith)
        requires
            big == h * bigq,
            y == bigq * ky,
            g == h * kg,
            y > 0,
            big > 0,
            g > 0,
            h > 0,
    ;
}

/// The gcd of zero and a number is that number.
pub proof fn lemma_gcd_zero_left(a: nat)
    ensures
        gcd(0, a) == a,
{
    if a == 0 {
    } else {
        assert(0nat % a == 0);
        assert(gcd(0, a) == gcd(a, 0));
    }
}

/// Every number is coprime to one.
pub proof fn lemma_gcd_one(a: nat)
    ensures
        gcd(a, 1) == 1,
{
    assert(a % 1 == 0);
    assert(gcd(a, 1) == gcd(1, 0));
}

/// One is coprime to every number.
pub proof fn lemma_gcd_one_left(a: nat)
    ensures
        gcd(1, a) == 1,
{
    if a == 0 {
    } else if a == 1 {
        assert(1nat % 1nat == 0);
        assert(gcd(1, 1) == gcd(1, 0));
    } else {
        assert(1nat % a == 1) by {
            vstd::arithmetic::div_mod::lemma_small_mod(1, a);
        }
        assert(gcd(1, a) == gcd(a, 1));
        lemma_gcd_one(a);
    }
}

/// The gcd is commutative.
pub proof fn lemma_gcd_commutes(a: nat, b: nat)
    ensures
        gcd(a, b) == gcd(b, a),
{
    lemma_gcd_divides(a, b);
    lemma_gcd_divides(b, a);
    lemma_divides_gcd(b, a, gcd(a, b));
    lemma_divides_gcd(a, b, gcd(b, a));
    lemma_divides_antisymmetric(gcd(a, b), gcd(b, a));
}

/// If `d` divides `a`, then `a / d` recovers the witness: `a == d * (a / d)`.
pub proof fn lemma_div_exact(d: nat, a: nat)
    requires
        d > 0,
        divides(d, a),
    ensures
        a == d * (a / d),
{
    let k = choose|kk: nat| a == #[trigger] (d * kk);
    assert(a == d * k);
    lemma_mul_is_commutative(d as int, k as int);
    lemma_fundamental_div_mod_converse(a as int, d as int, k as int, 0);
    assert(a / d == k);
}

/// Dividing two numbers, not both zero, by their gcd leaves a coprime pair.
pub proof fn lemma_div_by_gcd_coprime(a: nat, b: nat)
    requires
        a > 0 || b > 0,
    ensures
        gcd(a / gcd(a, b), b / gcd(a, b)) == 1,
{
    let g = gcd(a, b);
    lemma_gcd_pos(a, b);
    lemma_gcd_divides(a, b);
    lemma_div_exact(g, a);
    lemma_div_exact(g, b);
    let a1 = a / g;
    let b1 = b / g;
    lemma_gcd_scale(g, a1, b1);
    assert(gcd(g * a1, g * b1) == g * gcd(a1, b1));
    assert(g == g * gcd(a1, b1));
    assert(gcd(a1, b1) == 1) by (nonlinear_arith)
        requires
            g == g * gcd(a1, b1),
            g > 0,
    ;
}

/// A fraction in lowest terms with a positive denominator is determined by
/// its value: equal values mean equal numerators and equal denominators.
pub proof fn lemma_reduced_fraction_unique(n1: nat, d1: nat, n2: nat, d2: nat)
    requires
        d1 > 0,
        d2 > 0,
        gcd(n1, d1) == 1,
        gcd(n2, d2) == 1,
        n1 * d2 == n2 * d1,
    ensures
        n1 == n2,
        d1 == d2,
{
    lemma_gcd_commutes(n1, d1);
    lemma_gcd_commutes(n2, d2);
    // d1 divides n1 * d2, and is coprime to n1, so d1 divides d2.
    assert(n1 * d2 == d1 * n2) by {
        lemma_mul_is_commutative(n2 as int, d1 as int);
    }
    assert(divides(d1, n1 * d2));
    lemma_euclid(d1, n1, d2);
    // Symmetrically, d2 divides d1.
    assert(n2 * d1 == d2 * n1) by {
        lemma_mul_is_commutative(n1 as int, d2 as int);
    }
    assert(divides(d2, n2 * d1));
    lemma_euclid(d2, n2, d1);
    lemma_divides_antisymmetric(d1, d2);
    assert(n1 == n2) by (nonlinear_arith)
        requires
            n1 * d2 == n2 * d1,
            d1 == d2,
            d1 > 0,
    ;
}

} // verus!
