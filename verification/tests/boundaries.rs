//! Boundary laws and wide-range comparisons against a naive reference.

use ilog_lanes::lanes32;
use ilog_lanes::lanes64;

/// Naive floor-log reference: the greatest k with base^k <= x.
fn reference_ilog(base: u128, x: u128) -> u64 {
    let mut k: u64 = 0;
    let mut p: u128 = 1;
    while p <= x / base {
        p *= base;
        k += 1;
    }
    k
}

#[test]
fn log_of_one_is_zero_u32() {
    let v: Vec<u32> = vec![1];
    assert_eq!(lanes32::ilog_const_base::<2>(&v), vec![0]);
    assert_eq!(lanes32::ilog_const_base::<3>(&v), vec![0]);
    assert_eq!(lanes32::ilog_const_base::<7>(&v), vec![0]);
    assert_eq!(lanes32::ilog_const_base::<8>(&v), vec![0]);
    assert_eq!(lanes32::ilog_const_base::<10>(&v), vec![0]);
    assert_eq!(lanes32::ilog_const_base::<255>(&v), vec![0]);
    assert_eq!(lanes32::ilog_const_base::<{ u32::MAX }>(&v), vec![0]);
}

#[test]
fn log_of_one_is_zero_u64() {
    let v: Vec<u64> = vec![1];
    assert_eq!(lanes64::ilog_const_base::<2>(&v), vec![0]);
    assert_eq!(lanes64::ilog_const_base::<5>(&v), vec![0]);
    assert_eq!(lanes64::ilog_const_base::<9>(&v), vec![0]);
    assert_eq!(lanes64::ilog_const_base::<1000>(&v), vec![0]);
    assert_eq!(lanes64::ilog_const_base::<{ u32::MAX }>(&v), vec![0]);
}

#[test]
fn power_boundaries_base10_u64() {
    // 10^k maps to k, and 10^k - 1 maps to k - 1.
    let mut p: u64 = 1;
    for k in 1..=19u64 {
        p *= 10;
        let v: Vec<u64> = vec![p, p - 1];
        assert_eq!(lanes64::ilog_const_base::<10>(&v), vec![k, k - 1]);
    }
}

#[test]
fn power_boundaries_base3_u32() {
    let mut p: u32 = 1;
    for k in 1..=20u32 {
        p *= 3;
        let v: Vec<u32> = vec![p, p - 1];
        assert_eq!(lanes32::ilog_const_base::<3>(&v), vec![k, k - 1]);
    }
}

#[test]
fn power_boundaries_base7_u64() {
    let mut p: u64 = 1;
    for k in 1..=22u64 {
        p *= 7;
        let v: Vec<u64> = vec![p, p - 1];
        assert_eq!(lanes64::ilog_const_base::<7>(&v), vec![k, k - 1]);
    }
}

#[test]
fn max_lane_values_u32() {
    let v: Vec<u32> = vec![u32::MAX, u32::MAX - 1, u32::MAX / 2];
    let cases: Vec<(u32, Vec<u32>)> = vec![
        (2, lanes32::ilog_const_base::<2>(&v)),
        (3, lanes32::ilog_const_base::<3>(&v)),
        (4, lanes32::ilog_const_base::<4>(&v)),
        (5, lanes32::ilog_const_base::<5>(&v)),
        (6, lanes32::ilog_const_base::<6>(&v)),
        (7, lanes32::ilog_const_base::<7>(&v)),
        (8, lanes32::ilog_const_base::<8>(&v)),
        (10, lanes32::ilog_const_base::<10>(&v)),
        (16, lanes32::ilog_const_base::<16>(&v)),
        (65535, lanes32::ilog_const_base::<65535>(&v)),
        (65536, lanes32::ilog_const_base::<65536>(&v)),
    ];
    for (base, got) in cases {
        for (i, &x) in v.iter().enumerate() {
            assert_eq!(
                got[i] as u64,
                reference_ilog(base as u128, x as u128),
                "base {} lane {}",
                base,
                x
            );
        }
    }
}

#[test]
fn max_lane_values_u64() {
    let v: Vec<u64> = vec![u64::MAX, u64::MAX - 1, u64::MAX / 2];
    let cases: Vec<(u64, Vec<u64>)> = vec![
        (2, lanes64::ilog_const_base::<2>(&v)),
        (3, lanes64::ilog_const_base::<3>(&v)),
        (4, lanes64::ilog_const_base::<4>(&v)),
        (5, lanes64::ilog_const_base::<5>(&v)),
        (6, lanes64::ilog_const_base::<6>(&v)),
        (7, lanes64::ilog_const_base::<7>(&v)),
        (8, lanes64::ilog_const_base::<8>(&v)),
        (10, lanes64::ilog_const_base::<10>(&v)),
        (16, lanes64::ilog_const_base::<16>(&v)),
        (0xFFFF_FFFF, lanes64::ilog_const_base::<0xFFFF_FFFF>(&v)),
    ];
    for (base, got) in cases {
        for (i, &x) in v.iter().enumerate() {
            assert_eq!(
                got[i] as u128,
                reference_ilog(base as u128, x as u128) as u128,
                "base {} lane {}",
                base,
                x
            );
        }
    }
}

#[test]
fn signed_boundary_values() {
    // Values straddling 2^31 and 2^63, where a signed-comparison SIMD trick
    // would need the alternate mask.
    let v32: Vec<u32> = vec![(1 << 31) - 1, 1 << 31, (1 << 31) + 1, u32::MAX];
    for (base, got) in [
        (3u32, lanes32::ilog_const_base::<3>(&v32)),
        (8, lanes32::ilog_const_base::<8>(&v32)),
        (10, lanes32::ilog_const_base::<10>(&v32)),
    ] {
        for (i, &x) in v32.iter().enumerate() {
            assert_eq!(got[i] as u64, reference_ilog(base as u128, x as u128));
        }
    }
    let v64: Vec<u64> = vec![(1 << 63) - 1, 1 << 63, (1 << 63) + 1, u64::MAX];
    for (base, got) in [
        (5u64, lanes64::ilog_const_base::<5>(&v64)),
        (8, lanes64::ilog_const_base::<8>(&v64)),
        (16, lanes64::ilog_const_base::<16>(&v64)),
    ] {
        for (i, &x) in v64.iter().enumerate() {
            assert_eq!(got[i] as u128, reference_ilog(base as u128, x as u128) as u128);
        }
    }
}

#[test]
fn sweep_small_values_u32() {
    let v: Vec<u32> = (1..=20000u32).collect();
    let cases: Vec<(u32, Vec<u32>)> = vec![
        (2, lanes32::ilog_const_base::<2>(&v)),
        (3, lanes32::ilog_const_base::<3>(&v)),
        (4, lanes32::ilog_const_base::<4>(&v)),
        (5, lanes32::ilog_const_base::<5>(&v)),
        (6, lanes32::ilog_const_base::<6>(&v)),
        (7, lanes32::ilog_const_base::<7>(&v)),
        (8, lanes32::ilog_const_base::<8>(&v)),
        (10, lanes32::ilog_const_base::<10>(&v)),
        (60, lanes32::ilog_const_base::<60>(&v)),
    ];
    for (base, got) in cases {
        for (i, &x) in v.iter().enumerate() {
            assert_eq!(
                got[i] as u64,
                reference_ilog(base as u128, x as u128),
                "base {} lane {}",
                base,
                x
            );
        }
    }
}

#[test]
fn sweep_spread_values_u64() {
    // Powers of each base and their neighbours, plus power-of-two edges.
    let mut v: Vec<u64> = vec![1, 2, 3];
    for sh in 1..64u32 {
        let p = 1u64 << sh;
        v.push(p - 1);
        v.push(p);
        if p < u64::MAX {
            v.push(p + 1);
        }
    }
    let cases: Vec<(u64, Vec<u64>)> = vec![
        (3, lanes64::ilog_const_base::<3>(&v)),
        (5, lanes64::ilog_const_base::<5>(&v)),
        (6, lanes64::ilog_const_base::<6>(&v)),
        (7, lanes64::ilog_const_base::<7>(&v)),
        (9, lanes64::ilog_const_base::<9>(&v)),
        (12, lanes64::ilog_const_base::<12>(&v)),
    ];
    for (base, got) in cases {
        for (i, &x) in v.iter().enumerate() {
            assert_eq!(
                got[i] as u128,
                reference_ilog(base as u128, x as u128) as u128,
                "base {} lane {}",
                base,
                x
            );
        }
    }
}

#[test]
fn round_trip_never_overshoots() {
    // ipow(ilog(x)) <= x for coefficients from 3 up.
    let v: Vec<u64> = vec![1, 2, 4, 5, 24, 25, 26, 124, 126, 3124, 3126, 1 << 40, u64::MAX];
    let logs = lanes64::ilog_const_base::<5>(&v);
    let powers = lanes64::ipow_const_coeff::<5>(&logs);
    for (i, &x) in v.iter().enumerate() {
        assert!(powers[i] <= x, "5^{} > {}", logs[i], x);
    }
}
