//! A data-parallel integer logarithm kernel.
//!
//! The library computes `floor(log_BASE(x))` for every lane of a vector of
//! unsigned integers, where the base is a compile-time constant, together
//! with a compile-time-coefficient integer power routine and the fixed-point
//! reciprocal of `log2(base)` that the small-base fast path is built on.
//!
//! Lanes are plain `Vec<u32>` / `Vec<u64>` values processed independently;
//! every public function states its result per lane against the mathematical
//! logarithm and power functions.

pub mod fixed_point;
pub mod kernel;
pub mod lanes32;
pub mod lanes64;
pub mod math;
