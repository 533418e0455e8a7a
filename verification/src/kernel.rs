//! Scalar kernels shared by both lane widths: the exact base-2 logarithm,
//! a checked square-and-multiply power, the power-ladder logarithm for large
//! bases, and the estimate-then-correct logarithm for small bases.

use vstd::prelude::*;

verus! {

use crate::math::{
    ipow_lane_value,
    lemma_log_eq,
    lemma_pow_step,
};
use vstd::arithmetic::div_mod::{
    lemma_div_denominator,
    lemma_fundamental_div_mod,
};
use vstd::arithmetic::logarithm::log;
use vstd::arithmetic::mul::{
    lemma_mul_inequality,
    lemma_mul_is_associative,
    lemma_mul_is_commutative,
    lemma_mul_left_inequality,
};
use vstd::arithmetic::power::{
    pow,
    lemma_pow0,
    lemma_pow1,
    lemma_pow_adds,
    lemma_pow_increases,
    lemma_pow_multiplies,
    lemma_pow_positive,
    lemma_square_is_pow2,
};
use vstd::arithmetic::power2::{
    pow2,
    lemma2_to64_rest,
    lemma_pow2_strictly_increases,
};

/// Exact `floor(log2(x))`, by repeated halving of the value.  The binary
/// representation makes base 2 the one base whose logarithm needs no power
/// table: the answer is the position of the highest set bit.
pub fn ilog2_u64(x: u64) -> (r: u64)
    requires
        x >= 1,
    ensures
        r <= 63,
        pow2(r as nat) <= x < pow2((r + 1) as nat),
        r as int == log(2, x as int),
{
    let mut y = x;
    let mut r: u64 = 0;
    proof {
        lemma_pow0(2);
        vstd::arithmetic::div_mod::lemma_div_basics(x as int);
    }
    while y >= 2
        invariant
            x >= 1,
            r <= 63,
            1 <= y,
            y as int == x as int / pow2(r as nat) as int,
        decreases y,
    {
        proof {
            let p = pow2(r as nat) as int;
            lemma_pow_positive(2, r as nat);
            // Entering the body means x / 2^r >= 2, so 2^(r+1) <= x <= u64::MAX.
            lemma_fundamental_div_mod(x as int, p);
            lemma_mul_left_inequality(p, 2, y as int);
            lemma_pow_step(2, r as nat);
            assert(pow2((r + 1) as nat) <= x);
            if r + 1 > 63 {
                if r + 1 > 64 {
                    lemma_pow2_strictly_increases(64, (r + 1) as nat);
                }
                lemma2_to64_rest();
                assert(pow2(64) <= pow2((r + 1) as nat));
            }
            // Halving the running value moves the divisor up one power.
            lemma_div_denominator(x as int, p, 2);
        }
        y = y / 2;
        r = r + 1;
    }
    proof {
        // y == 1, so 2^r <= x < 2^r + 2^r == 2^(r+1).
        let p = pow2(r as nat) as int;
        lemma_pow_positive(2, r as nat);
        lemma_fundamental_div_mod(x as int, p);
        lemma_pow_step(2, r as nat);
        lemma_log_eq(2, x as int, r as int);
    }
    r
}

/// Checked integer power by square-and-multiply over the bits of the
/// exponent.  Returns `None` exactly when `c^e` does not fit in 64 bits.
pub fn ipow_checked_u64(c: u64, e: u64) -> (r: Option<u64>)
    requires
        c >= 1,
    ensures
        match r {
            Some(p) => p as int == pow(c as int, e as nat),
            None => pow(c as int, e as nat) > u64::MAX,
        },
{
    let mut result: u64 = 1;
    let mut base = c;
    let mut exp = e;
    proof {
        lemma_pow0(base as int);
    }
    while exp > 0
        invariant
            1 <= base,
            1 <= result,
            pow(c as int, e as nat) == result as int * pow(base as int, exp as nat),
        decreases exp,
    {
        let ghost result0 = result as int;
        let ghost base0 = base as int;
        let ghost exp0 = exp as nat;
        let ghost q = (exp0 / 2) as nat;
        let ghost bit = exp0 % 2;
        proof {
            lemma_fundamental_div_mod(exp0 as int, 2);
            lemma_pow0(base0);
            lemma_pow_positive(base0, exp0);
            lemma_pow_positive(base0, q);
            lemma_pow_positive(base0, (exp0 - 1) as nat);
            // base^exp == base^bit * (base^2)^q
            lemma_pow_adds(base0, bit as nat, (2 * q) as nat);
            lemma_pow_multiplies(base0, 2, q);
            lemma_square_is_pow2(base0);
        }
        if exp % 2 == 1 {
            result = match result.checked_mul(base) {
                Some(v) => v,
                None => {
                    proof {
                        // The true power already exceeds the width:
                        // c^e == result * base^exp >= result * base > u64::MAX.
                        lemma_pow_step(base0, (exp0 - 1) as nat);
                        lemma_mul_left_inequality(base0, 1, pow(base0, (exp0 - 1) as nat));
                        lemma_mul_left_inequality(result0, base0, pow(base0, exp0));
                    }
                    return None;
                },
            };
            proof {
                lemma_pow1(base0);
                lemma_mul_is_associative(result0, base0, pow(base0 * base0, q));
                // The new running product is still at least 1.
                lemma_mul_inequality(1, result0, base0);
            }
        }
        proof {
            assert(pow(c as int, e as nat) == result as int * pow(base0 * base0, q));
        }
        exp = exp / 2;
        if exp > 0 {
            base = match base.checked_mul(base) {
                Some(v) => v,
                None => {
                    proof {
                        // (base^2)^q >= base^2 > u64::MAX, and the running
                        // product is a factor of at least 1 on top of it.
                        lemma_pow1(base0 * base0);
                        lemma_pow_positive(base0 * base0, q);
                        lemma_pow_increases((base0 * base0) as nat, 1, q);
                        lemma_mul_inequality(1, result as int, pow(base0 * base0, q));
                    }
                    return None;
                },
            };
            proof {
                lemma_mul_inequality(1, base0, base0);
            }
        } else {
            proof {
                lemma_pow0(base0 * base0);
                lemma_pow0(base as int);
            }
        }
    }
    proof {
        lemma_pow0(base as int);
    }
    Some(result)
}

/// `b^e` when it is at most `x`, and `None` otherwise (in particular when
/// the power does not even fit in 64 bits).
pub fn pow_at_most_u64(b: u64, e: u64, x: u64) -> (r: Option<u64>)
    requires
        b >= 2,
    ensures
        match r {
            Some(p) => p as int == pow(b as int, e as nat) && p <= x,
            None => pow(b as int, e as nat) > x,
        },
{
    match ipow_checked_u64(b, e) {
        Some(p) => if p <= x {
            Some(p)
        } else {
            None
        },
        None => None,
    }
}

/// The comparison ladder: starting from a known power `p0 == b^r0 <= x`,
/// count one more step for every further power of the base that `x` reaches.
pub fn ilog_ascend_u64(b: u64, x: u64, r0: u64, p0: u64) -> (r: u64)
    requires
        b >= 2,
        x >= 1,
        p0 as int == pow(b as int, r0 as nat),
        p0 <= x,
    ensures
        r as int == log(b as int, x as int),
{
    let mut r = r0;
    let mut p = p0;
    proof {
        crate::math::lemma_exponent_le_63(b as int, r as nat, x as int);
    }
    while p <= x / b
        invariant
            b >= 2,
            x >= 1,
            r <= 63,
            p as int == pow(b as int, r as nat),
            p <= x,
        decreases x - p,
    {
        proof {
            lemma_pow_positive(b as int, r as nat);
            // p <= x / b means the next power b^(r+1) == p * b still fits below x.
            lemma_fundamental_div_mod(x as int, b as int);
            vstd::arithmetic::div_mod::lemma_remainder_lower(x as int, b as int);
            lemma_mul_left_inequality(b as int, p as int, x as int / b as int);
            lemma_mul_is_commutative(b as int, p as int);
            lemma_pow_step(b as int, r as nat);
            // The product grows strictly, so `x - p` decreases.
            lemma_mul_inequality(2, b as int, p as int);
            lemma_mul_is_commutative(2, p as int);
            // The next exponent still indexes a power within 64 bits.
            crate::math::lemma_exponent_le_63(b as int, (r + 1) as nat, x as int);
        }
        p = p * b;
        r = r + 1;
    }
    proof {
        // x / b < p, so x < p * b == b^(r+1).
        lemma_fundamental_div_mod(x as int, b as int);
        vstd::arithmetic::div_mod::lemma_remainder_upper(x as int, b as int);
        lemma_mul_left_inequality(b as int, x as int / b as int, p as int - 1);
        vstd::arithmetic::mul::lemma_mul_is_distributive_sub(b as int, p as int, 1);
        lemma_mul_is_commutative(b as int, p as int);
        lemma_pow_step(b as int, r as nat);
        lemma_log_eq(b as int, x as int, r as int);
    }
    r
}

/// Turns any starting estimate into the exact logarithm: steps the estimate
/// down while its power overshoots `x`, then (only if the estimate was never
/// too high) lets the ladder walk up.  A starting estimate within one of the
/// true answer settles after a single power comparison.
pub fn ilog_from_estimate_u64(b: u64, x: u64, est: u64) -> (r: u64)
    requires
        b >= 2,
        x >= 1,
    ensures
        r as int == log(b as int, x as int),
{
    let mut r = est;
    let mut p = pow_at_most_u64(b, r, x);
    while p.is_none()
        invariant
            b >= 2,
            x >= 1,
            r <= est,
            p is Some ==> (p->Some_0 as int == pow(b as int, r as nat) && p->Some_0 <= x),
            p is None ==> pow(b as int, r as nat) > x,
            r < est ==> x < pow(b as int, (r + 1) as nat),
        decreases r,
    {
        proof {
            // b^0 == 1 <= x, so an overshooting power forces r >= 1.
            if r == 0 {
                lemma_pow0(b as int);
            }
        }
        r = r - 1;
        p = pow_at_most_u64(b, r, x);
    }
    let p_val = p.unwrap();
    if r == est {
        ilog_ascend_u64(b, x, r, p_val)
    } else {
        proof {
            lemma_log_eq(b as int, x as int, r as int);
        }
        r
    }
}

/// The fast path for small bases: scale `floor(log2(x)) + 1` by the
/// fixed-point reciprocal of `log2(b)` (a multiplier over the power-of-two
/// denominator `numer`), then correct the estimate against real powers of
/// the base.  Exactness never depends on the estimate's precision.
pub fn ilog_fast_u64(b: u64, x: u64, mult: u64, numer: u64) -> (r: u64)
    requires
        b >= 2,
        x >= 1,
        1 <= numer,
        mult <= numer,
    ensures
        r as int == log(b as int, x as int),
{
    let l = ilog2_u64(x);
    proof {
        vstd::arithmetic::mul::lemma_mul_upper_bound(
            (l + 1) as int,
            64,
            mult as int,
            u64::MAX as int,
        );
    }
    let wide: u128 = ((l + 1) as u128) * (mult as u128);
    proof {
        lemma_mul_left_inequality((l + 1) as int, mult as int, numer as int);
        vstd::arithmetic::div_mod::lemma_div_is_ordered(
            wide as int,
            (l + 1) as int * numer as int,
            numer as int,
        );
        vstd::arithmetic::div_mod::lemma_div_by_multiple((l + 1) as int, numer as int);
    }
    let est128: u128 = wide / (numer as u128);
    let est: u64 = est128 as u64;
    ilog_from_estimate_u64(b, x, est)
}

/// One lane of the compile-time-coefficient power routine.
pub fn ipow_lane_capped<const COEFF: u32>(x: u64, max: u64) -> (r: u64)
    requires
        max >= 1,
        COEFF == 2 ==> 2 * pow2(x as nat) <= max,
    ensures
        r as int == ipow_lane_value(COEFF as int, x as nat, max as int),
        r <= max,
{
    if COEFF == 0 {
        if x == 0 {
            1
        } else {
            0
        }
    } else if COEFF == 1 {
        1
    } else if COEFF == 2 {
        proof {
            crate::math::lemma_pow2_step(x as nat);
            crate::math::lemma_exponent_le_63(2, (x + 1) as nat, max as int);
        }
        match ipow_checked_u64(2, x + 1) {
            Some(p) => p,
            None => {
                proof {
                    // 2^(x+1) == 2 * 2^x fits below max, so the checked
                    // power cannot have overflowed.
                    assert(false);
                }
                0
            },
        }
    } else {
        match ipow_checked_u64(COEFF as u64, x) {
            Some(p) => if p <= max {
                p
            } else {
                0
            },
            None => 0,
        }
    }
}

/// One lane of the dispatcher: picks the exact base-2 path, the
/// estimate-and-correct path for bases 3 through 7, or the power ladder for
/// larger bases.  The base is a compile-time constant, so each instantiation
/// keeps a single branch.
pub fn ilog_lane_u64<const BASE: u32>(x: u64, mult: u64, numer: u64) -> (r: u64)
    requires
        BASE >= 2,
        x >= 1,
        3 <= BASE <= 7 ==> (1 <= numer && mult <= numer),
    ensures
        r as int == log(BASE as int, x as int),
{
    if BASE == 2 {
        ilog2_u64(x)
    } else if BASE <= 7 {
        ilog_fast_u64(BASE as u64, x, mult, numer)
    } else {
        proof {
            lemma_pow0(BASE as int);
        }
        ilog_ascend_u64(BASE as u64, x, 0, 1)
    }
}

} // verus!
