//! The fixed-point reciprocal of `log2(base)`.
//!
//! `get_multiplier(numerator, base)` returns `numerator / log2(base)` in
//! 32-fractional-bit fixed point: it first extracts `log2(base)` in fixed
//! point (range reduction for the integer bits, then one answer bit per
//! squaring for the fractional bits), and divides `numerator << 32` by it in
//! 128-bit arithmetic.  The returned multiplier drives the small-base fast
//! path; its exact value is pinned by the spec-level model below.

use vstd::prelude::*;

verus! {

use crate::math::{lemma_log_eq, lemma_pow_step};
use vstd::arithmetic::div_mod::{
    lemma_div_basics,
    lemma_div_by_multiple,
    lemma_div_decreases,
    lemma_div_denominator,
    lemma_div_is_ordered,
    lemma_div_is_ordered_by_denominator,
    lemma_fundamental_div_mod,
};
use vstd::arithmetic::logarithm::{log, lemma_log0, lemma_log_s};
use vstd::arithmetic::mul::{
    lemma_mul_inequality,
    lemma_mul_is_commutative,
    lemma_mul_left_inequality,
};
use vstd::arithmetic::power::lemma_pow0;
use vstd::arithmetic::power2::{pow2, lemma2_to64, lemma_pow2_pos, lemma_pow2_strictly_increases};

/// One unit in the 32-fractional-bit fixed-point representation.
pub const FIXED_ONE: u64 = 0x1_0000_0000;

/// The fractional bits of the fixed-point `log2`: square the reduced value,
/// renormalize when it crosses 2.0, and inject the current answer bit `b`
/// whenever a renormalization happened.  `b` sweeps the bit positions from
/// 2^31 down to 1.
pub open spec fn log2_frac_bits(z: nat, b: nat) -> nat
    decreases b,
{
    if b == 0 {
        0
    } else {
        let z2 = (z * z) / (FIXED_ONE as nat);
        if z2 >= 2 * (FIXED_ONE as nat) {
            b + log2_frac_bits(z2 / 2, b / 2)
        } else {
            log2_frac_bits(z2, b / 2)
        }
    }
}

/// The fixed-point `log2(base)`, scaled by 2^32: the number of halvings that
/// bring `base` into [1, 2) contributes the integer part, the squaring
/// iteration the fractional part.
pub open spec fn log2_fixed(base: nat) -> nat
    recommends
        base >= 2,
{
    let s = log(2, base as int) as nat;
    let z0 = (base * (FIXED_ONE as nat)) / pow2(s);
    s * (FIXED_ONE as nat) + log2_frac_bits(z0, (FIXED_ONE / 2) as nat)
}

/// The multiplier: `numerator * 2^32` divided by the fixed-point `log2`.
pub open spec fn multiplier_value(numerator: nat, base: nat) -> nat
    recommends
        base >= 2,
{
    (numerator * (FIXED_ONE as nat)) / log2_fixed(base)
}

/// Fixed-point reciprocal `numerator / log2(base)`, with 32 fractional bits
/// of precision in the intermediate logarithm.
pub fn get_multiplier(numerator: u64, base: u32) -> (r: u64)
    requires
        base >= 2,
    ensures
        r as nat == multiplier_value(numerator as nat, base as nat),
        r <= numerator,
{
    let one = FIXED_ONE;
    let mut result: u64 = 0;
    let ghost mut t: nat = 0;
    let mut x: u64 = (base as u64) * one;
    proof {
        lemma_pow0(2);
        lemma_div_basics((base as u64 * one) as int);
    }
    while x >= 2 * one
        invariant
            one == FIXED_ONE,
            2 <= base,
            x as int == (base as int * one as int) / pow2(t) as int,
            result as int == t as int * one as int,
            pow2(t) <= base as nat,
            t <= 31,
            x >= one,
        decreases x,
    {
        proof {
            let p = pow2(t) as int;
            let m = base as int * one as int;
            lemma_pow2_pos(t);
            crate::math::lemma_pow2_step(t);
            // Entering the body: m / p >= 2 * one, so base >= 2^(t+1).
            lemma_fundamental_div_mod(m, p);
            lemma_mul_left_inequality(p, 2 * one as int, x as int);
            assert(pow2(t + 1) as int * one as int <= m) by {
                assert(p * (2 * one as int) == (2 * p) * one as int) by (nonlinear_arith);
            }
            assert(pow2(t + 1) <= base as nat) by {
                if (base as int) < pow2(t + 1) as int {
                    lemma_mul_inequality(pow2(t + 1) as int, base as int, one as int);
                }
            }
            assert(t + 1 <= 31) by {
                if t + 1 > 31 {
                    if t + 1 > 32 {
                        lemma_pow2_strictly_increases(32, t + 1);
                    }
                    lemma2_to64();
                }
            }
            // Halving the running value moves the divisor up one power of 2.
            lemma_div_denominator(m, p, 2);
            lemma_mul_is_commutative(p, 2);
            // The new integer-part accumulator is (t + 1) * one.
            assert((t as int + 1) * one as int == t as int * one as int + one as int)
                by (nonlinear_arith);
            // The loop measure shrinks and the value stays normalized.
            lemma_div_decreases(x as int, 2);
            lemma_div_is_ordered(2 * one as int, x as int, 2);
            t = t + 1;
        }
        x = x / 2;
        result = result + one;
    }
    proof {
        // one <= x < 2 * one pins t as the integer log2 of the base.
        let p = pow2(t) as int;
        let m = base as int * one as int;
        lemma_pow2_pos(t);
        crate::math::lemma_pow2_step(t);
        assert((base as int) < pow2(t + 1) as int) by {
            if pow2(t + 1) as int <= base as int {
                lemma_mul_inequality(pow2(t + 1) as int, base as int, one as int);
                assert((pow2(t + 1) as int) * one as int == p * (2 * one as int)) by {
                    assert((2 * p) * one as int == p * (2 * one as int)) by (nonlinear_arith);
                }
                lemma_div_is_ordered(p * (2 * one as int), m, p);
                lemma_mul_is_commutative(p, 2 * one as int);
                lemma_div_by_multiple(2 * one as int, p);
            }
        }
        lemma_log_eq(2, base as int, t as int);
        // A base of at least 2 yields at least one integer bit.
        lemma_log_s(2, base as int);
        vstd::arithmetic::logarithm::lemma_log_nonnegative(2, base as int / 2);
        // The integer part is bounded by 31 units.
        lemma_mul_inequality(t as int, 31, one as int);
    }
    let ghost total = log2_frac_bits(x as nat, (FIXED_ONE / 2) as nat);
    let ghost int_part = result as nat;
    let mut z: u128 = x as u128;
    let mut b: u64 = one / 2;
    while b != 0
        invariant
            one == FIXED_ONE,
            z < 2 * (one as u128),
            result as nat + log2_frac_bits(z as nat, b as nat) == int_part + total,
            int_part <= result as nat,
            result as nat + 2 * (b as nat) <= int_part + 2 * ((one / 2) as nat),
            int_part <= 31 * (one as nat) + (one as nat),
        decreases b,
    {
        let ghost z_old: nat = z as nat;
        let ghost b_old: nat = b as nat;
        proof {
            vstd::arithmetic::mul::lemma_mul_upper_bound(
                z as int,
                0x1_FFFF_FFFF,
                z as int,
                0x1_FFFF_FFFF,
            );
        }
        let z2: u128 = (z * z) / (one as u128);
        if z2 >= 2 * (one as u128) {
            z = z2 / 2;
            result = result + b;
        } else {
            z = z2;
        }
        b = b / 2;
        proof {
            assert(log2_frac_bits(z_old, b_old) == if (z_old * z_old) / (FIXED_ONE as nat) >= 2
                * (FIXED_ONE as nat) {
                b_old + log2_frac_bits(((z_old * z_old) / (FIXED_ONE as nat)) / 2, b_old / 2)
            } else {
                log2_frac_bits((z_old * z_old) / (FIXED_ONE as nat), b_old / 2)
            });
        }
    }
    proof {
        assert(log2_frac_bits(z as nat, 0) == 0);
        assert(result as nat == log2_fixed(base as nat));
    }
    let wide: u128 = (numerator as u128) * (one as u128);
    let q: u128 = wide / (result as u128);
    proof {
        // The divisor carries at least one integer unit, so the quotient
        // cannot exceed the numerator.
        lemma_div_is_ordered_by_denominator(wide as int, one as int, result as int);
        lemma_mul_is_commutative(numerator as int, one as int);
        lemma_div_by_multiple(numerator as int, one as int);
    }
    q as u64
}

} // verus!
