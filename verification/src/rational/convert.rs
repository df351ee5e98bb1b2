//! Rational approximation of IEEE double-precision values.
//!
//! A finite IEEE double is exactly `mantissa * 2^exponent` with a sign; the
//! [`Binary64`] type carries that decomposition as plain integers, so the
//! whole approximation algorithm runs on exact arithmetic. The algorithm is
//! the classical continued-fraction expansion: it walks the convergents of
//! the value and stops when the approximation is within one part in `2^52`
//! of the value, when the remaining fractional part drops below one part in
//! `10^15`, when the next convergent's denominator would pass the caller's
//! bound, or when a convergent no longer fits the machine word.

use super::nat_abs;
use super::reduce_spec;
use super::wide::relative_error_within_epsilon;
use super::Rational;
use vstd::arithmetic::power2::lemma_pow2_adds;
use vstd::arithmetic::power2::lemma_pow2_pos;
use vstd::arithmetic::power2::lemma_pow2_strictly_increases;
use vstd::arithmetic::power2::pow2;
use vstd::prelude::*;

verus! {

/// The threshold below which a fractional remainder is treated as zero:
/// one part in ten to the fifteenth.
pub const FRACTION_FLOOR: u128 = 1000000000000000;

/// An IEEE double-precision value, decomposed into plain integers.
///
/// A finite value denotes `mantissa * 2^exponent`, negated when `negative`
/// is set. Zero is `Finite` with mantissa zero.
#[derive(Debug, Clone, Copy, PartialEq, Eq, Structural)]
pub enum Binary64 {
    /// A value that is not a number.
    NotANumber,
    /// A positive or negative infinity.
    Infinite {
        /// True for negative infinity.
        negative: bool,
    },
    /// A finite value: `mantissa * 2^exponent`, negated when asked.
    Finite {
        /// True for a negative value.
        negative: bool,
        /// The integer significand; below `2^53` for a double.
        mantissa: u64,
        /// The binary exponent applied to the significand.
        exponent: i16,
    },
}

impl Binary64 {
    /// Well-formedness: the significand and exponent stay in the ranges an
    /// IEEE double can produce.
    pub open spec fn wf(self) -> bool {
        match self {
            Binary64::Finite { negative, mantissa, exponent } => {
                &&& mantissa < pow2(53)
                &&& -1074 <= exponent <= 971
            },
            _ => true,
        }
    }
}

/// One walk of the continued-fraction loop, from a current convergent
/// `h / k` (with its predecessor `h_prev / k_prev`) and a remaining tail
/// `p / q`, approximating the value `n / d` under the denominator bound
/// `max_den`. Stops on a close-enough convergent, a negligible remainder,
/// a convergent that leaves the machine word, a denominator past the bound,
/// or exhausted fuel.
pub open spec fn cf_loop(
    n: nat,
    d: nat,
    max_den: nat,
    h: nat,
    k: nat,
    h_prev: nat,
    k_prev: nat,
    p: nat,
    q: nat,
    fuel: nat,
) -> (nat, nat)
    decreases fuel,
{
    if fuel == 0 {
        (h, k)
    } else if nat_abs(h * d - k * n) * pow2(52) < k * n {
        (h, k)
    } else {
        let r = p % q;
        if r * (FRACTION_FLOOR as nat) < q {
            (h, k)
        } else {
            let ai = q / r;
            let h_new = ai * h + h_prev;
            let k_new = ai * k + k_prev;
            if h_new > u128::MAX || k_new > u128::MAX || k_new > max_den {
                (h, k)
            } else {
                cf_loop(n, d, max_den, h_new, k_new, h, k, q, r, (fuel - 1) as nat)
            }
        }
    }
}

/// Strips common factors of two from `mantissa / 2^e`: halves the mantissa
/// while it is even and the exponent positive.
pub open spec fn strip_twos(m: nat, e: nat) -> (nat, nat)
    decreases e,
{
    if e == 0 || m % 2 == 1 {
        (m, e)
    } else {
        strip_twos(m / 2, (e - 1) as nat)
    }
}

/// The continued-fraction approximation of a decomposed double under a
/// denominator bound.
///
/// `None` for a value that is not a number, infinite, negative, or beyond
/// `2^128`, and for a zero denominator bound; zero yields `(0, 1)`;
/// otherwise the convergent that [`cf_loop`] stops on, starting from the
/// floor of the value.
pub open spec fn cfa_spec(v: Binary64, max_den: nat) -> Option<(nat, nat)> {
    match v {
        Binary64::NotANumber => None,
        Binary64::Infinite { .. } => None,
        Binary64::Finite { negative, mantissa, exponent } => {
            if negative && mantissa > 0 {
                None
            } else if max_den == 0 {
                None
            } else if mantissa == 0 {
                Some((0, 1))
            } else if exponent >= 0 {
                let val: nat = (mantissa as nat) * pow2(exponent as nat);
                if val > pow2(128) {
                    None
                } else {
                    let h0: nat = if val > u128::MAX {
                        u128::MAX as nat
                    } else {
                        val
                    };
                    Some(cf_loop(val, 1, max_den, h0, 1, 1, 0, val, 1, 100))
                }
            } else {
                let se = strip_twos(mantissa as nat, (-exponent) as nat);
                let d = pow2(se.1);
                Some(cf_loop(se.0, d, max_den, se.0 / d, 1, 1, 0, se.0, d, 100))
            }
        },
    }
}

/// An integral value at most `2^128` makes the loop stop at once on its own
/// floor: the first convergent is already within one part in `2^52`.
proof fn lemma_cf_loop_integer(val: nat, max_den: nat, h0: nat)
    requires
        1 <= val <= pow2(128),
        max_den >= 1,
        h0 == if val > u128::MAX {
            u128::MAX as nat
        } else {
            val
        },
    ensures
        cf_loop(val, 1, max_den, h0, 1, 1, 0, val, 1, 100) == (h0, 1nat),
{
    lemma_pow2_strictly_increases(52, 128);
    super::wide::lemma_pow2_128();
    if val > u128::MAX {
        assert(val == pow2(128));
        assert(nat_abs(h0 * 1 - 1 * val) == 1);
        assert(nat_abs(h0 * 1 - 1 * val) * pow2(52) < 1 * val);
    } else {
        assert(nat_abs(h0 * 1 - 1 * val) == 0);
        assert(nat_abs(h0 * 1 - 1 * val) * pow2(52) < 1 * val);
    }
}

/// A value below `2^-75` makes the loop stop at once through the remainder
/// floor and keep the convergent `0 / 1`.
proof fn lemma_cf_loop_tiny(m: nat, e2: nat, max_den: nat)
    requires
        1 <= m < pow2(53),
        e2 >= 128,
        max_den >= 1,
    ensures
        cf_loop(m, pow2(e2), max_den, m / pow2(e2), 1, 1, 0, m, pow2(e2), 100) == (0nat, 1nat),
{
    let d = pow2(e2);
    lemma_pow2_pos(e2);
    if e2 > 128 {
        lemma_pow2_strictly_increases(128, e2);
    }
    super::wide::lemma_pow2_128();
    lemma_pow2_strictly_increases(53, 128);
    assert(m < d);
    vstd::arithmetic::div_mod::lemma_basic_div(m as int, d as int);
    assert(m / d == 0);
    // The first convergent 0 / 1 is not yet close: its error is the value
    // itself.
    assert(nat_abs(0 * d - 1 * m) * pow2(52) >= 1 * m) by (nonlinear_arith)
        requires
            pow2(52) >= 1,
            m >= 1,
            nat_abs(0 * d - 1 * m) == m,
    ;
    // But the fractional part m / d is below the remainder floor.
    vstd::arithmetic::div_mod::lemma_small_mod(m, d);
    assert(m % d == m);
    vstd::arithmetic::power2::lemma2_to64();
    vstd::arithmetic::power2::lemma2_to64_rest();
    assert(m * (FRACTION_FLOOR as nat) < pow2(53) * pow2(50)) by (nonlinear_arith)
        requires
            m < pow2(53),
            FRACTION_FLOOR < pow2(50),
            pow2(50) > 0,
            pow2(53) > 0,
    ;
    lemma_pow2_adds(53, 50);
    lemma_pow2_strictly_increases(103, 128);
    assert(pow2(53) * pow2(50) == pow2(103));
    if e2 > 128 {
        lemma_pow2_strictly_increases(128, e2);
    }
    assert(m * (FRACTION_FLOOR as nat) < d);
}

/// Computes two to the power `e` as a machine word.
fn pow2_u128(e: u32) -> (r: u128)
    requires
        e <= 127,
    ensures
        r == pow2(e as nat),
{
    let mut r: u128 = 1;
    let mut i: u32 = 0;
    proof {
        vstd::arithmetic::power2::lemma2_to64();
    }
    while i < e
        invariant
            i <= e,
            e <= 127,
            r == pow2(i as nat),
        decreases e - i,
    {
        proof {
            lemma_pow2_strictly_increases(i as nat, 127);
            vstd::arithmetic::power2::lemma2_to64();
            vstd::arithmetic::power2::lemma2_to64_rest();
            lemma_pow2_adds(64, 63);
            assert(pow2(127) == 0x80000000000000000000000000000000);
            lemma_pow2_adds(i as nat, 1);
            assert(pow2((i + 1) as nat) == r * 2);
        }
        r = r * 2;
        i = i + 1;
    }
    r
}

/// Computes the continued-fraction approximation of a nonnegative double.
///
/// Returns the best rational approximation `(numerator, denominator)` of
/// the decomposed value with `denominator <= max_denominator`, walking the
/// convergents exactly as [`cfa_spec`] lays down. Returns `None` for a
/// value that is not a number, is infinite, is negative, or exceeds
/// `2^128`, and when `max_denominator` is zero.
pub fn continued_fraction_approximation(value: &Binary64, max_denominator: u128) -> (r: Option<
    (u128, u128),
>)
    requires
        value.wf(),
    ensures
        r is Some <==> cfa_spec(*value, max_denominator as nat) is Some,
        r is Some ==> (r.unwrap().0 as nat, r.unwrap().1 as nat) == cfa_spec(
            *value,
            max_denominator as nat,
        ).unwrap(),
        r is Some ==> r.unwrap().1 >= 1,
{
    match value {
        Binary64::NotANumber => None,
        Binary64::Infinite { negative: _ } => None,
        Binary64::Finite { negative, mantissa, exponent } => {
            if *negative && *mantissa > 0 {
                return None;
            }
            if max_denominator == 0 {
                return None;
            }
            if *mantissa == 0 {
                return Some((0, 1));
            }
            if *exponent >= 0 {
                let e = *exponent as u32;
                proof {
                    lemma_pow2_pos(e as nat);
                }
                if e >= 129 {
                    proof {
                        lemma_pow2_strictly_increases(128, e as nat);
                        assert((*mantissa as nat) * pow2(e as nat) > pow2(128))
                            by (nonlinear_arith)
                            requires
                                *mantissa >= 1,
                                pow2(e as nat) > pow2(128),
                        ;
                    }
                    return None;
                }
                if e <= 75 {
                    let factor = pow2_u128(e);
                    proof {
                        if (e as nat) < 75 {
                            lemma_pow2_strictly_increases(e as nat, 75);
                        }
                        lemma_pow2_adds(53, 75);
                        lemma_pow2_strictly_increases(53, 128);
                        lemma_pow2_strictly_increases(e as nat, 128);
                        super::wide::lemma_pow2_128();
                        assert((*mantissa as nat) * pow2(e as nat) < pow2(53) * pow2(75))
                            by (nonlinear_arith)
                            requires
                                (*mantissa as nat) < pow2(53),
                                pow2(e as nat) <= pow2(75),
                                pow2(e as nat) > 0,
                                pow2(53) > 0,
                        ;
                        lemma_pow2_strictly_increases(128, 129);
                        lemma_pow2_adds(128, 1);
                    }
                    let val = (*mantissa as u128) * factor;
                    proof {
                        assert(pow2(53) * pow2(75) == pow2(128));
                        assert(val >= 1) by (nonlinear_arith)
                            requires
                                val == (*mantissa as nat) * pow2(e as nat),
                                *mantissa >= 1,
                                pow2(e as nat) >= 1,
                        ;
                        lemma_cf_loop_integer(val as nat, max_denominator as nat, val as nat);
                    }
                    return Some((val, 1));
                }
                // Here 76 <= e <= 128; the value may reach two to the 128th.
                let thr = pow2_u128(128 - e);
                if (*mantissa as u128) > thr {
                    proof {
                        lemma_pow2_adds((128 - e) as nat, e as nat);
                        assert((*mantissa as nat) * pow2(e as nat) > pow2((128 - e) as nat) * pow2(
                            e as nat,
                        )) by (nonlinear_arith)
                            requires
                                (*mantissa as nat) > pow2((128 - e) as nat),
                                pow2(e as nat) > 0,
                        ;
                    }
                    return None;
                }
                if (*mantissa as u128) == thr {
                    proof {
                        lemma_pow2_adds((128 - e) as nat, e as nat);
                        super::wide::lemma_pow2_128();
                        assert((*mantissa as nat) * pow2(e as nat) == pow2(128));
                        lemma_cf_loop_integer(
                            pow2(128),
                            max_denominator as nat,
                            u128::MAX as nat,
                        );
                    }
                    return Some((u128::MAX, 1));
                }
                // The value is below two to the 128th, so it fits the word.
                proof {
                    lemma_pow2_adds((128 - e) as nat, e as nat);
                    super::wide::lemma_pow2_128();
                    assert((*mantissa as nat) * pow2(e as nat) < pow2(128)) by (nonlinear_arith)
                        requires
                            (*mantissa as nat) < pow2((128 - e) as nat),
                            pow2(e as nat) > 0,
                            pow2((128 - e) as nat) * pow2(e as nat) == pow2(128),
                    ;
                }
                proof {
                    vstd::arithmetic::power2::lemma2_to64();
                    assert(e <= 127);
                }
                let factor = pow2_u128(e);
                let val = (*mantissa as u128) * factor;
                proof {
                    assert(val >= 1) by (nonlinear_arith)
                        requires
                            val == (*mantissa as nat) * pow2(e as nat),
                            *mantissa >= 1,
                            pow2(e as nat) >= 1,
                    ;
                    lemma_cf_loop_integer(val as nat, max_denominator as nat, val as nat);
                }
                return Some((val, 1));
            }
            // A negative exponent: the value is mantissa / 2^(-exponent).
            // Strip the common powers of two first.
            let mut m: u64 = *mantissa;
            let mut e2: u32 = (-(*exponent as i32)) as u32;
            proof {
                assert(strip_twos(m as nat, e2 as nat) == strip_twos(
                    *mantissa as nat,
                    (-(*exponent as int)) as nat,
                ));
            }
            while e2 > 0 && m % 2 == 0
                invariant
                    m >= 1,
                    m < pow2(53),
                    e2 <= 1074,
                    strip_twos(m as nat, e2 as nat) == strip_twos(
                        *mantissa as nat,
                        (-(*exponent as int)) as nat,
                    ),
                decreases e2,
            {
                proof {
                    assert(strip_twos(m as nat, e2 as nat) == strip_twos(
                        (m / 2) as nat,
                        (e2 - 1) as nat,
                    ));
                }
                m = m / 2;
                e2 = e2 - 1;
            }
            proof {
                assert(strip_twos(m as nat, e2 as nat) == (m as nat, e2 as nat));
            }
            if e2 == 0 {
                proof {
                    lemma_pow2_strictly_increases(53, 128);
                    super::wide::lemma_pow2_128();
                    vstd::arithmetic::power2::lemma2_to64();
                    assert(pow2(0) == 1);
                    lemma_cf_loop_integer(m as nat, max_denominator as nat, m as nat);
                    vstd::arithmetic::div_mod::lemma_div_basics(m as int);
                    assert(m as nat / pow2(0) == m as nat);
                }
                return Some((m as u128, 1));
            }
            if e2 >= 128 {
                proof {
                    lemma_cf_loop_tiny(m as nat, e2 as nat, max_denominator as nat);
                }
                return Some((0, 1));
            }
            let d = pow2_u128(e2);
            let n = m as u128;
            proof {
                lemma_pow2_pos(e2 as nat);
            }
            let h0 = n / d;
            let result = cf_loop_exec(n, d, max_denominator, h0);
            Some(result)
        },
    }
}

/// Runs the continued-fraction loop on the exact value `n / d`.
fn cf_loop_exec(n: u128, d: u128, max_denominator: u128, h0: u128) -> (r: (u128, u128))
    requires
        n >= 1,
        d >= 1,
        max_denominator >= 1,
        h0 == n / d,
    ensures
        (r.0 as nat, r.1 as nat) == cf_loop(
            n as nat,
            d as nat,
            max_denominator as nat,
            (n / d) as nat,
            1,
            1,
            0,
            n as nat,
            d as nat,
            100,
        ),
        r.1 >= 1,
{
    let ghost target = cf_loop(
        n as nat,
        d as nat,
        max_denominator as nat,
        (n / d) as nat,
        1,
        1,
        0,
        n as nat,
        d as nat,
        100,
    );
    let mut h: u128 = h0;
    let mut k: u128 = 1;
    let mut h_prev: u128 = 1;
    let mut k_prev: u128 = 0;
    let mut p: u128 = n;
    let mut q: u128 = d;
    let mut fuel: u32 = 100;
    while fuel > 0
        invariant_except_break
            q >= 1,
            k >= 1,
            fuel <= 100,
            cf_loop(
                n as nat,
                d as nat,
                max_denominator as nat,
                h as nat,
                k as nat,
                h_prev as nat,
                k_prev as nat,
                p as nat,
                q as nat,
                fuel as nat,
            ) == target,
        ensures
            (h as nat, k as nat) == target,
            k >= 1,
        decreases fuel,
    {
        if relative_error_within_epsilon(h, k, n, d) {
            proof {
                assert(cf_loop(
                    n as nat,
                    d as nat,
                    max_denominator as nat,
                    h as nat,
                    k as nat,
                    h_prev as nat,
                    k_prev as nat,
                    p as nat,
                    q as nat,
                    fuel as nat,
                ) == (h as nat, k as nat));
            }
            break ;
        }
        let r = p % q;
        let small = match r.checked_mul(FRACTION_FLOOR) {
            None => false,
            Some(x) => x < q,
        };
        proof {
            assert(small == ((r as nat) * (FRACTION_FLOOR as nat) < q as nat));
        }
        if small {
            proof {
                assert(cf_loop(
                    n as nat,
                    d as nat,
                    max_denominator as nat,
                    h as nat,
                    k as nat,
                    h_prev as nat,
                    k_prev as nat,
                    p as nat,
                    q as nat,
                    fuel as nat,
                ) == (h as nat, k as nat));
            }
            break ;
        }
        proof {
            assert(r >= 1);
        }
        let ai = q / r;
        let h_new = match ai.checked_mul(h) {
            None => {
                proof {
                    lemma_cf_loop_stops_on_overflow(
                        n as nat,
                        d as nat,
                        max_denominator as nat,
                        h as nat,
                        k as nat,
                        h_prev as nat,
                        k_prev as nat,
                        p as nat,
                        q as nat,
                        fuel as nat,
                    );
                }
                break ;
            },
            Some(x) => match x.checked_add(h_prev) {
                None => {
                    proof {
                        lemma_cf_loop_stops_on_overflow(
                            n as nat,
                            d as nat,
                            max_denominator as nat,
                            h as nat,
                            k as nat,
                            h_prev as nat,
                            k_prev as nat,
                            p as nat,
                            q as nat,
                            fuel as nat,
                        );
                    }
                    break ;
                },
                Some(v) => v,
            },
        };
        let k_new = match ai.checked_mul(k) {
            None => {
                proof {
                    lemma_cf_loop_stops_on_overflow(
                        n as nat,
                        d as nat,
                        max_denominator as nat,
                        h as nat,
                        k as nat,
                        h_prev as nat,
                        k_prev as nat,
                        p as nat,
                        q as nat,
                        fuel as nat,
                    );
                }
                break ;
            },
            Some(x) => match x.checked_add(k_prev) {
                None => {
                    proof {
                        lemma_cf_loop_stops_on_overflow(
                            n as nat,
                            d as nat,
                            max_denominator as nat,
                            h as nat,
                            k as nat,
                            h_prev as nat,
                            k_prev as nat,
                            p as nat,
                            q as nat,
                            fuel as nat,
                        );
                    }
                    break ;
                },
                Some(v) => v,
            },
        };
        if k_new > max_denominator {
            proof {
                assert(cf_loop(
                    n as nat,
                    d as nat,
                    max_denominator as nat,
                    h as nat,
                    k as nat,
                    h_prev as nat,
                    k_prev as nat,
                    p as nat,
                    q as nat,
                    fuel as nat,
                ) == (h as nat, k as nat));
            }
            break ;
        }
        proof {
            assert(cf_loop(
                n as nat,
                d as nat,
                max_denominator as nat,
                h as nat,
                k as nat,
                h_prev as nat,
                k_prev as nat,
                p as nat,
                q as nat,
                fuel as nat,
            ) == cf_loop(
                n as nat,
                d as nat,
                max_denominator as nat,
                h_new as nat,
                k_new as nat,
                h as nat,
                k as nat,
                q as nat,
                r as nat,
                (fuel - 1) as nat,
            ));
        }
        proof {
            vstd::arithmetic::div_mod::lemma_div_non_zero(q as int, r as int);
            assert(k_new >= 1) by (nonlinear_arith)
                requires
                    k_new == ai * k + k_prev,
                    ai >= 1,
                    k >= 1,
                    k_prev >= 0,
            ;
        }
        h_prev = h;
        k_prev = k;
        h = h_new;
        k = k_new;
        p = q;
        q = r;
        fuel = fuel - 1;
    }
    (h, k)
}

/// When the next convergent leaves the machine word, the loop keeps the
/// current one.
proof fn lemma_cf_loop_stops_on_overflow(
    n: nat,
    d: nat,
    max_den: nat,
    h: nat,
    k: nat,
    h_prev: nat,
    k_prev: nat,
    p: nat,
    q: nat,
    fuel: nat,
)
    requires
        fuel > 0,
        q >= 1,
        !(nat_abs(h * d - k * n) * pow2(52) < k * n),
        !((p % q) * (FRACTION_FLOOR as nat) < q),
        (q / (p % q)) * h + h_prev > u128::MAX || (q / (p % q)) * k + k_prev > u128::MAX,
    ensures
        cf_loop(n, d, max_den, h, k, h_prev, k_prev, p, q, fuel) == (h, k),
{
}

/// The rational a decomposed double approximates under a denominator bound.
///
/// Zero maps to `0 / 1` outright. Any other finite value goes through the
/// continued-fraction expansion of its magnitude; the sign returns in the
/// numerator, and a magnitude whose numerator cannot carry that sign is
/// rejected. Values that are not numbers or not finite are rejected.
pub open spec fn try_from_f64_limited_spec(value: Binary64, max_den: nat) -> Option<Rational> {
    match value {
        Binary64::Finite { negative, mantissa, exponent } => {
            if mantissa == 0 {
                Some(Rational { numerator: 0, denominator: 1 })
            } else {
                let mag = Binary64::Finite { negative: false, mantissa, exponent };
                match cfa_spec(mag, max_den) {
                    Option::None => Option::None,
                    Option::Some(nd) => {
                        if nd.0 > i128::MAX {
                            Option::None
                        } else {
                            Some(
                                reduce_spec(
                                    if negative {
                                        -(nd.0 as int)
                                    } else {
                                        nd.0 as int
                                    },
                                    nd.1,
                                ),
                            )
                        }
                    },
                }
            }
        },
        _ => Option::None,
    }
}

impl Rational {
    /// Attempts to approximate a double-precision value as a rational with
    /// denominator at most `max_denominator`, using the continued-fraction
    /// expansion.
    ///
    /// Returns `None` when the value is not finite, when `max_denominator`
    /// is zero for a nonzero value, or when the approximation's numerator
    /// does not fit the signed machine word.
    pub fn try_from_f64_limited(value: Binary64, max_denominator: u128) -> (r: Option<Self>)
        requires
            value.wf(),
        ensures
            r == try_from_f64_limited_spec(value, max_denominator as nat),
            r is Some ==> r.unwrap().wf(),
    {
        match value {
            Binary64::Finite { negative, mantissa, exponent } => {
                if mantissa == 0 {
                    proof {
                        super::gcd::lemma_gcd_zero_left(1);
                    }
                    return Some(Rational { numerator: 0, denominator: 1 });
                }
                let mag = Binary64::Finite { negative: false, mantissa, exponent };
                match continued_fraction_approximation(&mag, max_denominator) {
                    Option::None => Option::None,
                    Option::Some((n, d)) => {
                        if n > i128::MAX as u128 {
                            return Option::None;
                        }
                        let numerator: i128 = if negative {
                            -(n as i128)
                        } else {
                            n as i128
                        };
                        Some(Self::new(numerator, d))
                    },
                }
            },
            Binary64::NotANumber => Option::None,
            Binary64::Infinite { negative: _ } => Option::None,
        }
    }

    /// Attempts to approximate a double-precision value as a rational,
    /// bounding the denominator at ten to the twelfth.
    pub fn try_from_f64(value: Binary64) -> (r: Option<Self>)
        requires
            value.wf(),
        ensures
            r == try_from_f64_limited_spec(value, 1000000000000),
            r is Some ==> r.unwrap().wf(),
    {
        Self::try_from_f64_limited(value, 1000000000000)
    }

    /// Approximates a double-precision value as a rational with denominator
    /// at most `max_denominator`.
    ///
    /// Callers must pass a value the approximation accepts; an unverified
    /// caller that passes a non-finite or unrepresentable one hits a panic.
    pub fn from_f64_limited(value: Binary64, max_denominator: u128) -> (r: Self)
        requires
            value.wf(),
            try_from_f64_limited_spec(value, max_denominator as nat) is Some,
        ensures
            r == try_from_f64_limited_spec(value, max_denominator as nat).unwrap(),
            r.wf(),
    {
        Self::try_from_f64_limited(value, max_denominator).unwrap()
    }

    /// Approximates a double-precision value as a rational, bounding the
    /// denominator at ten to the twelfth.
    ///
    /// Callers must pass a value the approximation accepts; an unverified
    /// caller that passes a non-finite or unrepresentable one hits a panic.
    pub fn from_f64(value: Binary64) -> (r: Self)
        requires
            value.wf(),
            try_from_f64_limited_spec(value, 1000000000000) is Some,
        ensures
            r == try_from_f64_limited_spec(value, 1000000000000).unwrap(),
            r.wf(),
    {
        Self::try_from_f64(value).unwrap()
    }
}


impl core::convert::From<i32> for Rational {
    /// Converts an integer to the rational `value / 1`.
    fn from(value: i32) -> (r: Rational) {
        Rational::new_int(value as i128)
    }
}

impl vstd::std_specs::convert::FromSpecImpl<i32> for Rational {
    open spec fn obeys_from_spec() -> bool {
        true
    }

    open spec fn from_spec(value: i32) -> Rational {
        Rational { numerator: value as i128, denominator: 1 }
    }
}

impl core::convert::From<i64> for Rational {
    /// Converts an integer to the rational `value / 1`.
    fn from(value: i64) -> (r: Rational) {
        Rational::new_int(value as i128)
    }
}

impl vstd::std_specs::convert::FromSpecImpl<i64> for Rational {
    open spec fn obeys_from_spec() -> bool {
        true
    }

    open spec fn from_spec(value: i64) -> Rational {
        Rational { numerator: value as i128, denominator: 1 }
    }
}

} // verus!
