//! Concrete scenarios for the per-lane logarithm and power routines.

use ilog_lanes::lanes32;
use ilog_lanes::lanes64;

#[test]
fn base2_scenario_u32() {
    let v: Vec<u32> = vec![1, 2, 3, 4, 1024];
    assert_eq!(lanes32::ilog_const_base::<2>(&v), vec![0, 1, 1, 2, 10]);
}

#[test]
fn base2_scenario_u64() {
    let v: Vec<u64> = vec![1, 2, 3, 4, 1024];
    assert_eq!(lanes64::ilog_const_base::<2>(&v), vec![0, 1, 1, 2, 10]);
}

#[test]
fn base10_scenario_u32() {
    let v: Vec<u32> = vec![1, 9, 10, 99, 100];
    assert_eq!(lanes32::ilog_const_base::<10>(&v), vec![0, 0, 1, 1, 2]);
}

#[test]
fn base10_scenario_u64() {
    let v: Vec<u64> = vec![1, 9, 10, 99, 100];
    assert_eq!(lanes64::ilog_const_base::<10>(&v), vec![0, 0, 1, 1, 2]);
}

#[test]
fn base16_scenario_u32() {
    let v: Vec<u32> = vec![15, 16, 255, 256];
    assert_eq!(lanes32::ilog_const_base::<16>(&v), vec![0, 1, 1, 2]);
}

#[test]
fn base16_scenario_u64() {
    let v: Vec<u64> = vec![15, 16, 255, 256];
    assert_eq!(lanes64::ilog_const_base::<16>(&v), vec![0, 1, 1, 2]);
}

#[test]
fn base3_scenario_u32() {
    let v: Vec<u32> = vec![1, 2, 3, 8, 9, 80, 81];
    assert_eq!(lanes32::ilog_const_base::<3>(&v), vec![0, 0, 1, 1, 2, 3, 4]);
}

#[test]
fn base3_scenario_u64() {
    let v: Vec<u64> = vec![1, 2, 3, 8, 9, 80, 81];
    assert_eq!(lanes64::ilog_const_base::<3>(&v), vec![0, 0, 1, 1, 2, 3, 4]);
}

#[test]
fn ipow_coeff3_scenario_u32() {
    let v: Vec<u32> = vec![0, 1, 2, 3];
    assert_eq!(lanes32::ipow_const_coeff::<3>(&v), vec![1, 3, 9, 27]);
}

#[test]
fn ipow_coeff3_scenario_u64() {
    let v: Vec<u64> = vec![0, 1, 2, 3];
    assert_eq!(lanes64::ipow_const_coeff::<3>(&v), vec![1, 3, 9, 27]);
}

#[test]
fn checked_and_unchecked_agree() {
    let v32: Vec<u32> = vec![1, 2, 7, 8, 9, 4096, u32::MAX];
    assert_eq!(
        lanes32::ilog_const_base::<8>(&v32),
        lanes32::ilog_const_base_unchecked::<8>(&v32)
    );
    let v64: Vec<u64> = vec![1, 5, 6, 7, 36, u64::MAX];
    assert_eq!(
        lanes64::ilog_const_base::<6>(&v64),
        lanes64::ilog_const_base_unchecked::<6>(&v64)
    );
}

#[test]
fn empty_vector_stays_empty() {
    let v32: Vec<u32> = vec![];
    assert_eq!(lanes32::ilog_const_base::<5>(&v32), Vec::<u32>::new());
    let v64: Vec<u64> = vec![];
    assert_eq!(lanes64::ipow_const_coeff::<9>(&v64), Vec::<u64>::new());
}
