//! Double-width unsigned arithmetic.
//!
//! The continued-fraction loop compares the error of a convergent against
//! the exact value it approximates. That comparison multiplies numbers that
//! can each fill a `u128`, so the products need two `u128` limbs. This
//! module supplies the few limb operations the comparison takes: a widening
//! multiply, an ordered subtraction, and a shifted comparison.

use super::nat_abs;
use vstd::arithmetic::power2::lemma2_to64;
use vstd::arithmetic::power2::lemma2_to64_rest;
use vstd::arithmetic::power2::lemma_pow2_adds;
use vstd::arithmetic::power2::pow2;
use vstd::prelude::*;

verus! {

/// The value of a two-limb number: the first limb carries `pow2(128)`.
pub open spec fn limbs_val(p: (u128, u128)) -> int {
    p.0 * pow2(128) + p.1
}

/// `pow2(128)` as a concrete number.
pub proof fn lemma_pow2_128()
    ensures
        pow2(128) == 0x100000000000000000000000000000000,
        pow2(64) == 0x10000000000000000,
        pow2(52) == 0x10000000000000,
        pow2(76) == 0x10000000000000000000,
{
    lemma2_to64();
    lemma2_to64_rest();
    lemma_pow2_adds(64, 64);
    lemma_pow2_adds(64, 12);
}

/// Multiplies two values into two limbs: no product of two `u128` values
/// ever leaves this representation.
pub fn mul_wide(a: u128, b: u128) -> (r: (u128, u128))
    ensures
        limbs_val(r) == a * b,
{
    proof {
        lemma_pow2_128();
    }
    let two64: u128 = 0x10000000000000000;
    let a1 = a / two64;
    let a0 = a % two64;
    let b1 = b / two64;
    let b0 = b % two64;
    proof {
        assert(a0 < two64 && b0 < two64);
        assert(a1 < two64 && b1 < two64) by (nonlinear_arith)
            requires
                a1 == a / two64,
                b1 == b / two64,
                a <= u128::MAX,
                b <= u128::MAX,
                two64 == 0x10000000000000000,
        ;
        assert(a0 * b0 <= (two64 - 1) * (two64 - 1) && a0 * b1 <= (two64 - 1) * (two64 - 1) && a1
            * b0 <= (two64 - 1) * (two64 - 1) && a1 * b1 <= (two64 - 1) * (two64 - 1))
            by (nonlinear_arith)
            requires
                a0 < two64,
                a1 < two64,
                b0 < two64,
                b1 < two64,
        ;
    }
    let p00 = a0 * b0;
    let p01 = a0 * b1;
    let p10 = a1 * b0;
    let p11 = a1 * b1;
    let t = (p00 / two64) + (p01 % two64) + (p10 % two64);
    let lo = (p00 % two64) + (t % two64) * two64;
    proof {
        assert((t % two64) * two64 <= (two64 - 1) * two64) by (nonlinear_arith)
            requires
                t % two64 < two64,
                two64 > 0,
        ;
        assert(p01 / two64 <= two64 - 2 && p10 / two64 <= two64 - 2 && t / two64 <= 2)
            by (nonlinear_arith)
            requires
                p01 <= (two64 - 1) * (two64 - 1),
                p10 <= (two64 - 1) * (two64 - 1),
                t <= (two64 - 1) + (two64 - 1) + (two64 - 1),
                two64 == 0x10000000000000000,
        ;
    }
    let hi = p11 + (p01 / two64) + (p10 / two64) + (t / two64);
    proof {
        // Reassemble: a * b == p11 * 2^128 + (p01 + p10) * 2^64 + p00, and
        // the limb bookkeeping above splits exactly that sum.
        let w = two64 as int;
        assert(a == a1 * w + a0 && b == b1 * w + b0) by {
            vstd::arithmetic::div_mod::lemma_fundamental_div_mod(a as int, w);
            vstd::arithmetic::div_mod::lemma_fundamental_div_mod(b as int, w);
        }
        assert(a * b == (p11 as int) * (w * w) + ((p01 as int) + (p10 as int)) * w + (p00 as int))
            by (nonlinear_arith)
            requires
                a == a1 * w + a0,
                b == b1 * w + b0,
                p00 == a0 * b0,
                p01 == a0 * b1,
                p10 == a1 * b0,
                p11 == a1 * b1,
        ;
        vstd::arithmetic::div_mod::lemma_fundamental_div_mod(p00 as int, w);
        vstd::arithmetic::div_mod::lemma_fundamental_div_mod(p01 as int, w);
        vstd::arithmetic::div_mod::lemma_fundamental_div_mod(p10 as int, w);
        vstd::arithmetic::div_mod::lemma_fundamental_div_mod(t as int, w);
        assert((hi as int) * (w * w) + (lo as int) == (p11 as int) * (w * w) + ((p01 as int) + (
        p10 as int)) * w + (p00 as int)) by (nonlinear_arith)
            requires
                hi == p11 + (p01 / two64) + (p10 / two64) + (t / two64),
                lo == (p00 % two64) + (t % two64) * two64,
                t == (p00 / two64) + (p01 % two64) + (p10 % two64),
                p00 == w * (p00 as int / w) + p00 % two64,
                p01 == w * (p01 as int / w) + p01 % two64,
                p10 == w * (p10 as int / w) + p10 % two64,
                t == w * (t as int / w) + t % two64,
                w == two64,
        ;
        assert(pow2(128) == w * w);
    }
    (hi, lo)
}

/// Compares two two-limb values.
pub fn limbs_le(x: (u128, u128), y: (u128, u128)) -> (r: bool)
    ensures
        r == (limbs_val(x) <= limbs_val(y)),
{
    proof {
        lemma_pow2_128();
        assert(x.0 < y.0 ==> limbs_val(x) < limbs_val(y)) by (nonlinear_arith)
            requires
                x.1 <= u128::MAX,
                y.1 <= u128::MAX,
                u128::MAX < pow2(128),
        ;
        assert(y.0 < x.0 ==> limbs_val(y) < limbs_val(x)) by (nonlinear_arith)
            requires
                x.1 <= u128::MAX,
                y.1 <= u128::MAX,
                u128::MAX < pow2(128),
        ;
    }
    x.0 < y.0 || (x.0 == y.0 && x.1 <= y.1)
}

/// Subtracts the smaller two-limb value from the larger.
pub fn limbs_sub(x: (u128, u128), y: (u128, u128)) -> (r: (u128, u128))
    requires
        limbs_val(y) <= limbs_val(x),
    ensures
        limbs_val(r) == limbs_val(x) - limbs_val(y),
{
    proof {
        lemma_pow2_128();
        assert(x.0 >= y.0) by (nonlinear_arith)
            requires
                limbs_val(y) <= limbs_val(x),
                limbs_val(x) == x.0 * pow2(128) + x.1,
                limbs_val(y) == y.0 * pow2(128) + y.1,
                x.1 <= u128::MAX,
                y.1 <= u128::MAX,
                u128::MAX < pow2(128),
        ;
        assert(x.1 < y.1 ==> x.0 > y.0) by (nonlinear_arith)
            requires
                limbs_val(y) <= limbs_val(x),
                limbs_val(x) == x.0 * pow2(128) + x.1,
                limbs_val(y) == y.0 * pow2(128) + y.1,
                x.1 <= u128::MAX,
                y.1 <= u128::MAX,
                u128::MAX < pow2(128),
        ;
    }
    if x.1 >= y.1 {
        let r = (x.0 - y.0, x.1 - y.1);
        proof {
            assert(limbs_val(r) == limbs_val(x) - limbs_val(y)) by (nonlinear_arith)
                requires
                    r.0 == x.0 - y.0,
                    r.1 == x.1 - y.1,
                    limbs_val(r) == r.0 * pow2(128) + r.1,
                    limbs_val(x) == x.0 * pow2(128) + x.1,
                    limbs_val(y) == y.0 * pow2(128) + y.1,
            ;
        }
        r
    } else {
        let r = (x.0 - y.0 - 1, x.1 + (u128::MAX - y.1) + 1);
        proof {
            assert(limbs_val(r) == limbs_val(x) - limbs_val(y)) by (nonlinear_arith)
                requires
                    r.0 == x.0 - y.0 - 1,
                    r.1 == x.1 + (u128::MAX - y.1) + 1,
                    limbs_val(r) == r.0 * pow2(128) + r.1,
                    limbs_val(x) == x.0 * pow2(128) + x.1,
                    limbs_val(y) == y.0 * pow2(128) + y.1,
                    pow2(128) == u128::MAX + 1,
            ;
        }
        r
    }
}

/// True iff a two-limb value shifted up by fifty-two bits is still below
/// another two-limb value.
pub fn limbs_shl52_lt(x: (u128, u128), y: (u128, u128)) -> (r: bool)
    ensures
        r == (limbs_val(x) * pow2(52) < limbs_val(y)),
{
    proof {
        lemma_pow2_128();
    }
    let two52: u128 = 0x10000000000000;
    let two76: u128 = 0x10000000000000000000;
    if x.0 >= two76 {
        // The shifted value reaches two to the 256th, beyond any two-limb
        // value.
        proof {
            lemma_pow2_adds(128, 128);
            lemma_pow2_adds(76, 52);
            assert(limbs_val(x) * pow2(52) >= pow2(256) > limbs_val(y)) by (nonlinear_arith)
                requires
                    x.0 >= two76,
                    two76 == pow2(76),
                    limbs_val(x) == x.0 * pow2(128) + x.1,
                    limbs_val(y) == y.0 * pow2(128) + y.1,
                    y.0 <= u128::MAX,
                    y.1 <= u128::MAX,
                    u128::MAX < pow2(128),
                    pow2(256) == pow2(128) * pow2(128),
                    pow2(76) * pow2(52) == pow2(128),
                    pow2(52) > 0,
                    pow2(128) > 0,
            ;
        }
        return false;
    }
    let hi = x.0 * two52 + x.1 / two76;
    let lo = (x.1 % two76) * two52;
    proof {
        assert(x.0 * two52 <= (two76 - 1) * two52 && x.1 / two76 < two52 && (x.1 % two76) * two52
            <= (two76 - 1) * two52) by (nonlinear_arith)
            requires
                x.0 < two76,
                x.1 <= u128::MAX,
                two52 == 0x10000000000000,
                two76 == 0x10000000000000000000,
        ;
        vstd::arithmetic::div_mod::lemma_fundamental_div_mod(x.1 as int, two76 as int);
        lemma_pow2_adds(76, 52);
        assert((hi as int) * pow2(128) + lo == (x.0 * pow2(128) + x.1) * pow2(52))
            by (nonlinear_arith)
            requires
                hi == x.0 * two52 + x.1 / two76,
                lo == (x.1 % two76) * two52,
                x.1 == two76 * (x.1 as int / two76 as int) + x.1 % two76,
                two52 == pow2(52),
                two76 == pow2(76),
                pow2(76) * pow2(52) == pow2(128),
        ;
    }
    let r = !limbs_le(y, (hi, lo));
    r
}

/// Decides whether a convergent `h / k` lies within one part in `pow2(52)`
/// of the exact value `n / d`: that is, whether the relative error of the
/// approximation has dropped below the precision of an IEEE double.
pub fn relative_error_within_epsilon(h: u128, k: u128, n: u128, d: u128) -> (r: bool)
    ensures
        r == (nat_abs((h as int) * (d as int) - (k as int) * (n as int)) * pow2(52) < (k as int) * (
        n as int)),
{
    let a = mul_wide(h, d);
    let b = mul_wide(k, n);
    let le = limbs_le(b, a);
    let diff = if le {
        limbs_sub(a, b)
    } else {
        limbs_sub(b, a)
    };
    assert(limbs_val(diff) == nat_abs((h as int) * (d as int) - (k as int) * (n as int)));
    limbs_shl52_lt(diff, b)
}

} // verus!
