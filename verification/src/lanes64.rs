//! The 64-bit lane width: `floor(log_BASE)` and the compile-time-coefficient
//! power over vectors of `u64` lanes, one result per lane.

use vstd::prelude::*;

verus! {

use crate::fixed_point::get_multiplier;
use crate::kernel::{ilog_lane_u64, ipow_lane_capped};
use crate::math::ipow_lane_value;
use vstd::arithmetic::logarithm::log;
use vstd::arithmetic::power2::pow2;

/// The fast-path scaling numerator for 64-bit lanes:
/// `(u64::MAX / u64::BITS) + 1 == 2^58`, so dividing by it is a plain
/// shift by 58 bits.
pub const NUMERATOR_64: u64 = 0x0400_0000_0000_0000;

/// `floor(log_BASE(x))` for every lane, precondition caller-guaranteed:
/// every lane must be at least 1 and the base at least 2.  Violating either
/// is a contract violation, which verified callers rule out up front.
pub fn ilog_const_base_unchecked<const BASE: u32>(v: &Vec<u64>) -> (r: Vec<u64>)
    requires
        BASE >= 2,
        forall|i: int| 0 <= i < v.len() ==> 1 <= #[trigger] v[i],
    ensures
        r.len() == v.len(),
        forall|i: int|
            0 <= i < v.len() ==> #[trigger] r[i] as int == log(BASE as int, v[i] as int),
{
    let mult: u64 = if 3 <= BASE && BASE <= 7 {
        get_multiplier(NUMERATOR_64, BASE)
    } else {
        0
    };
    let mut out: Vec<u64> = Vec::new();
    let mut i: usize = 0;
    while i < v.len()
        invariant
            BASE >= 2,
            forall|j: int| 0 <= j < v.len() ==> 1 <= #[trigger] v[j],
            3 <= BASE <= 7 ==> mult <= NUMERATOR_64,
            i <= v.len(),
            out.len() == i,
            forall|j: int| 0 <= j < i ==> #[trigger] out[j] as int == log(BASE as int, v[j] as int),
        decreases v.len() - i,
    {
        let lane = v[i];
        out.push(ilog_lane_u64::<BASE>(lane, mult, NUMERATOR_64));
        i = i + 1;
    }
    out
}

/// The checked entry point: `floor(log_BASE(x))` for every lane.  A lane
/// of zero or a base below 2 is a contract violation; under verification
/// the run-time validation such an entry point would carry is the
/// precondition itself, so no verified caller can reach the failure.
pub fn ilog_const_base<const BASE: u32>(v: &Vec<u64>) -> (r: Vec<u64>)
    requires
        BASE >= 2,
        forall|i: int| 0 <= i < v.len() ==> 1 <= #[trigger] v[i],
    ensures
        r.len() == v.len(),
        forall|i: int|
            0 <= i < v.len() ==> #[trigger] r[i] as int == log(BASE as int, v[i] as int),
{
    ilog_const_base_unchecked::<BASE>(v)
}

/// Raises every lane to the compile-time coefficient `COEFF`, with the
/// deliberate small-coefficient special cases (see `ipow_lane_value`).
/// Coefficient 2 is the doubling shift `2 << x`, so its lanes must leave
/// the shifted bit inside the width.
pub fn ipow_const_coeff<const COEFF: u32>(v: &Vec<u64>) -> (r: Vec<u64>)
    requires
        COEFF == 2 ==> forall|i: int| 0 <= i < v.len() ==> #[trigger] v[i] <= 62,
    ensures
        r.len() == v.len(),
        forall|i: int|
            0 <= i < v.len() ==> #[trigger] r[i] as int == ipow_lane_value(
                COEFF as int,
                v[i] as nat,
                u64::MAX as int,
            ),
{
    let mut out: Vec<u64> = Vec::new();
    let mut i: usize = 0;
    while i < v.len()
        invariant
            COEFF == 2 ==> forall|j: int| 0 <= j < v.len() ==> #[trigger] v[j] <= 62,
            i <= v.len(),
            out.len() == i,
            forall|j: int|
                0 <= j < i ==> #[trigger] out[j] as int == ipow_lane_value(
                    COEFF as int,
                    v[j] as nat,
                    u64::MAX as int,
                ),
        decreases v.len() - i,
    {
        let lane = v[i];
        proof {
            if COEFF == 2 {
                // 2 << lane stays inside the width for lanes up to 62.
                crate::math::lemma_pow2_step(lane as nat);
                if lane as nat + 1 < 63 {
                    vstd::arithmetic::power2::lemma_pow2_strictly_increases(
                        lane as nat + 1,
                        63,
                    );
                }
                vstd::arithmetic::power2::lemma2_to64_rest();
                assert(pow2(lane as nat + 1) <= pow2(63));
            }
        }
        out.push(ipow_lane_capped::<COEFF>(lane, u64::MAX));
        i = i + 1;
    }
    out
}

} // verus!
