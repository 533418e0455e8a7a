//! The 32-bit lane width: `floor(log_BASE)` and the compile-time-coefficient
//! power over vectors of `u32` lanes.  Each lane is widened to the shared
//! 64-bit scalar kernel; the results are proved to fit the narrow width.

use vstd::prelude::*;

verus! {

use crate::fixed_point::get_multiplier;
use crate::kernel::{ilog_lane_u64, ipow_lane_capped};
use crate::math::ipow_lane_value;
use vstd::arithmetic::logarithm::log;
use vstd::arithmetic::power2::pow2;

/// The fast-path scaling numerator for 32-bit lanes:
/// `(u32::MAX / u32::BITS) + 1 == 2^27`, so dividing by it is a plain
/// shift by 27 bits.
pub const NUMERATOR_32: u64 = 0x0800_0000;

/// `floor(log_BASE(x))` for every lane, precondition caller-guaranteed:
/// every lane must be at least 1 and the base at least 2.  Violating either
/// is a contract violation, which verified callers rule out up front.
pub fn ilog_const_base_unchecked<const BASE: u32>(v: &Vec<u32>) -> (r: Vec<u32>)
    requires
        BASE >= 2,
        forall|i: int| 0 <= i < v.len() ==> 1 <= #[trigger] v[i],
    ensures
        r.len() == v.len(),
        forall|i: int|
            0 <= i < v.len() ==> #[trigger] r[i] as int == log(BASE as int, v[i] as int),
{
    let mult: u64 = if 3 <= BASE && BASE <= 7 {
        get_multiplier(NUMERATOR_32, BASE)
    } else {
        0
    };
    let mut out: Vec<u32> = Vec::new();
    let mut i: usize = 0;
    while i < v.len()
        invariant
            BASE >= 2,
            forall|j: int| 0 <= j < v.len() ==> 1 <= #[trigger] v[j],
            3 <= BASE <= 7 ==> mult <= NUMERATOR_32,
            i <= v.len(),
            out.len() == i,
            forall|j: int| 0 <= j < i ==> #[trigger] out[j] as int == log(BASE as int, v[j] as int),
        decreases v.len() - i,
    {
        let lane = v[i];
        let wide = ilog_lane_u64::<BASE>(lane as u64, mult, NUMERATOR_32);
        proof {
            // A 32-bit lane keeps its logarithm under 32.
            crate::math::lemma_log_sandwich(BASE as int, lane as int);
            crate::math::lemma_exponent_le_31(BASE as int, wide as nat, lane as int);
        }
        out.push(wide as u32);
        i = i + 1;
    }
    out
}

/// The checked entry point: `floor(log_BASE(x))` for every lane.  A lane
/// of zero or a base below 2 is a contract violation; under verification
/// the run-time validation such an entry point would carry is the
/// precondition itself, so no verified caller can reach the failure.
pub fn ilog_const_base<const BASE: u32>(v: &Vec<u32>) -> (r: Vec<u32>)
    requires
        BASE >= 2,
        forall|i: int| 0 <= i < v.len() ==> 1 <= #[trigger] v[i],
    ensures
        r.len() == v.len(),
        forall|i: int|
            0 <= i < v.len() ==> #[trigger] r[i] as int == log(BASE as int, v[i] as int),
{
    ilog_const_base_unchecked::<BASE>(v)
}

/// Raises every lane to the compile-time coefficient `COEFF`, with the
/// deliberate small-coefficient special cases (see `ipow_lane_value`).
/// Coefficient 2 is the doubling shift `2 << x`, so its lanes must leave
/// the shifted bit inside the width.
pub fn ipow_const_coeff<const COEFF: u32>(v: &Vec<u32>) -> (r: Vec<u32>)
    requires
        COEFF == 2 ==> forall|i: int| 0 <= i < v.len() ==> #[trigger] v[i] <= 30,
    ensures
        r.len() == v.len(),
        forall|i: int|
            0 <= i < v.len() ==> #[trigger] r[i] as int == ipow_lane_value(
                COEFF as int,
                v[i] as nat,
                u32::MAX as int,
            ),
{
    let mut out: Vec<u32> = Vec::new();
    let mut i: usize = 0;
    while i < v.len()
        invariant
            COEFF == 2 ==> forall|j: int| 0 <= j < v.len() ==> #[trigger] v[j] <= 30,
            i <= v.len(),
            out.len() == i,
            forall|j: int|
                0 <= j < i ==> #[trigger] out[j] as int == ipow_lane_value(
                    COEFF as int,
                    v[j] as nat,
                    u32::MAX as int,
                ),
        decreases v.len() - i,
    {
        let lane = v[i];
        proof {
            if COEFF == 2 {
                // 2 << lane stays inside the width for lanes up to 30.
                crate::math::lemma_pow2_step(lane as nat);
                if lane as nat + 1 < 31 {
                    vstd::arithmetic::power2::lemma_pow2_strictly_increases(
                        lane as nat + 1,
                        31,
                    );
                }
                vstd::arithmetic::power2::lemma2_to64();
                assert(pow2(lane as nat + 1) <= pow2(31));
            }
        }
        let wide = ipow_lane_capped::<COEFF>(lane as u64, 0xFFFF_FFFF);
        out.push(wide as u32);
        i = i + 1;
    }
    out
}

} // verus!
