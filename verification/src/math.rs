//! The mathematical model of the kernel: facts about the integer logarithm
//! `log(base, x)` (the greatest `k` with `base^k <= x`) and the integer power
//! `pow(base, e)`, both taken from vstd's arithmetic library.

use vstd::prelude::*;

verus! {

use vstd::arithmetic::div_mod::lemma_fundamental_div_mod;
use vstd::arithmetic::logarithm::{
    log,
    lemma_log0,
    lemma_log_nonnegative,
    lemma_log_s,
};
use vstd::arithmetic::mul::{
    lemma_mul_inequality,
    lemma_mul_is_commutative,
    lemma_mul_left_inequality,
};
use vstd::arithmetic::power::{
    pow,
    lemma_pow0,
    lemma_pow1,
    lemma_pow_adds,
    lemma_pow_increases,
    lemma_pow_positive,
    lemma_pow_strictly_increases,
};
use vstd::arithmetic::power2::pow2;

/// `pow(base, e + 1) == base * pow(base, e)`, spelled out once so the other
/// proofs need not juggle `lemma_pow_adds` themselves.
pub proof fn lemma_pow_step(base: int, e: nat)
    ensures
        pow(base, e + 1) == base * pow(base, e),
{
    lemma_pow_adds(base, 1, e);
    lemma_pow1(base);
}

/// The integer logarithm is the greatest exponent whose power does not
/// exceed `x`: `base^log(base, x) <= x < base^(log(base, x) + 1)`.
pub proof fn lemma_log_sandwich(base: int, x: int)
    requires
        base >= 2,
        x >= 1,
    ensures
        0 <= log(base, x),
        pow(base, log(base, x) as nat) <= x,
        x < pow(base, (log(base, x) + 1) as nat),
    decreases x,
{
    lemma_log_nonnegative(base, x);
    if x < base {
        lemma_log0(base, x);
        lemma_pow0(base);
        lemma_pow1(base);
    } else {
        lemma_log_s(base, x);
        let q = x / base;
        lemma_fundamental_div_mod(x, base);
        assert(x == base * q + x % base);
        assert(1 <= q) by {
            if q < 1 {
                assert(base * q <= 0) by {
                    lemma_mul_left_inequality(base, q, 0);
                }
            }
        }
        lemma_log_sandwich(base, q);
        let k = log(base, q) as nat;
        lemma_pow_step(base, k);
        lemma_pow_step(base, k + 1);
        // Lower bound: base^(k+1) == base * base^k <= base * q <= x.
        assert(base * pow(base, k) <= base * q) by {
            lemma_mul_left_inequality(base, pow(base, k), q);
        }
        // Upper bound: x < base * (q + 1) <= base * base^(k+1).
        assert(base * (q + 1) == base * q + base) by {
            vstd::arithmetic::mul::lemma_mul_is_distributive_add(base, q, 1);
        }
        assert(base * (q + 1) <= base * pow(base, k + 1)) by {
            lemma_mul_left_inequality(base, q + 1, pow(base, k + 1));
        }
    }
}

/// The sandwich characterizes the logarithm exactly: any `k` with
/// `base^k <= x < base^(k+1)` is `log(base, x)`.
pub proof fn lemma_log_eq(base: int, x: int, k: int)
    requires
        base >= 2,
        x >= 1,
        0 <= k,
        pow(base, k as nat) <= x,
        x < pow(base, (k + 1) as nat),
    ensures
        log(base, x) == k,
{
    lemma_log_sandwich(base, x);
    let m = log(base, x);
    if m < k {
        lemma_pow_increases(base as nat, (m + 1) as nat, k as nat);
        assert(x < pow(base, (m + 1) as nat));
    } else if m > k {
        lemma_pow_increases(base as nat, (k + 1) as nat, m as nat);
        assert(x < pow(base, (k + 1) as nat));
    }
}

/// A power of a base that is at least 2 dominates the same power of 2.
pub proof fn lemma_pow_ge_pow2(base: int, e: nat)
    requires
        base >= 2,
    ensures
        pow2(e) <= pow(base, e),
    decreases e,
{
    if e == 0 {
        lemma_pow0(base);
        lemma_pow0(2);
    } else {
        lemma_pow_ge_pow2(base, (e - 1) as nat);
        lemma_pow_step(base, (e - 1) as nat);
        lemma_pow_step(2, (e - 1) as nat);
        lemma_pow_positive(2, (e - 1) as nat);
        lemma_pow_positive(base, (e - 1) as nat);
        assert(2 * pow(2, (e - 1) as nat) <= 2 * pow(base, (e - 1) as nat)) by {
            lemma_mul_left_inequality(2, pow(2, (e - 1) as nat), pow(base, (e - 1) as nat));
        }
        assert(2 * pow(base, (e - 1) as nat) <= base * pow(base, (e - 1) as nat)) by {
            lemma_mul_inequality(2, base, pow(base, (e - 1) as nat));
            lemma_mul_is_commutative(2, pow(base, (e - 1) as nat));
            lemma_mul_is_commutative(base, pow(base, (e - 1) as nat));
        }
    }
}

/// The power-of-2 step, on the `nat`-valued `pow2`.
pub proof fn lemma_pow2_step(e: nat)
    ensures
        pow2(e + 1) == 2 * pow2(e),
        pow2(e) >= 1,
        pow(2, e) == pow2(e),
        pow(2, e + 1) == pow2(e + 1),
{
    lemma_pow_positive(2, e);
    lemma_pow_positive(2, e + 1);
    lemma_pow_step(2, e);
}

/// An exponent whose power fits under a 64-bit value is at most 63.
pub proof fn lemma_exponent_le_63(base: int, e: nat, x: int)
    requires
        base >= 2,
        1 <= x <= u64::MAX,
        pow(base, e) <= x,
    ensures
        e <= 63,
{
    lemma_pow_ge_pow2(base, e);
    if e > 63 {
        if e > 64 {
            vstd::arithmetic::power2::lemma_pow2_strictly_increases(64, e);
        }
        vstd::arithmetic::power2::lemma2_to64_rest();
        assert(pow2(64) <= pow2(e));
    }
}

/// An exponent whose power fits under a 32-bit value is at most 31.
pub proof fn lemma_exponent_le_31(base: int, e: nat, x: int)
    requires
        base >= 2,
        1 <= x <= u32::MAX,
        pow(base, e) <= x,
    ensures
        e <= 31,
{
    lemma_pow_ge_pow2(base, e);
    if e > 31 {
        if e > 32 {
            vstd::arithmetic::power2::lemma_pow2_strictly_increases(32, e);
        }
        vstd::arithmetic::power2::lemma2_to64();
        assert(pow2(32) <= pow2(e));
    }
}

/// Boundary law: the logarithm of 1 is 0 in every valid base.
pub proof fn lemma_log_of_one(base: int)
    requires
        base >= 2,
    ensures
        log(base, 1) == 0,
{
    lemma_log0(base, 1);
}

/// Power-boundary law: `log(base, base^k) == k`, and for `k >= 1` the
/// predecessor of the power sits one step lower:
/// `log(base, base^k - 1) == k - 1`.
pub proof fn lemma_log_at_power_boundary(base: int, k: nat)
    requires
        base >= 2,
        pow(base, k) <= u64::MAX,
    ensures
        log(base, pow(base, k)) == k,
        k >= 1 ==> log(base, pow(base, k) - 1) == k - 1,
{
    lemma_pow_positive(base, k);
    lemma_pow_strictly_increases(base as nat, k, k + 1);
    lemma_log_eq(base, pow(base, k), k as int);
    if k >= 1 {
        lemma_pow_strictly_increases(base as nat, (k - 1) as nat, k);
        lemma_pow_positive(base, (k - 1) as nat);
        lemma_log_eq(base, pow(base, k) - 1, k as int - 1);
    }
}

/// The log estimate never overshoots: `base^log(base, x) <= x`.
pub proof fn lemma_pow_of_log_le(base: int, x: int)
    requires
        base >= 2,
        x >= 1,
    ensures
        pow(base, log(base, x) as nat) <= x,
{
    lemma_log_sandwich(base, x);
}

/// The per-lane value of the compile-time-coefficient power routine, for a
/// lane type whose largest value is `max`.  The small coefficients carry
/// deliberate special cases: coefficient 0 tests the lane against
/// zero, coefficient 1 is the constant 1, and coefficient 2 is the doubling
/// shift `2 << x`.  Larger coefficients give the exact power when it fits
/// the lane width, and 0 when it does not.
pub open spec fn ipow_lane_value(coeff: int, x: nat, max: int) -> int {
    if coeff == 0 {
        if x == 0 {
            1
        } else {
            0
        }
    } else if coeff == 1 {
        1
    } else if coeff == 2 {
        2 * pow2(x) as int
    } else {
        if pow(coeff, x) <= max {
            pow(coeff, x)
        } else {
            0
        }
    }
}

/// Round-trip law for coefficients from 3 up: raising the corrected
/// logarithm back to the base never overshoots the lane,
/// `ipow(coeff, ilog(coeff, x)) <= x`.  (Coefficient 2 is excluded: its
/// power routine is the doubling shift `2 << x`, which on a lane of 2
/// already yields 4 > 2.)
pub proof fn lemma_ipow_of_ilog_le(coeff: int, x: int, max: int)
    requires
        coeff >= 3,
        1 <= x <= max,
    ensures
        ipow_lane_value(coeff, log(coeff, x) as nat, max) <= x,
{
    lemma_log_sandwich(coeff, x);
}

} // verus!
