//! Sigmoid bonding-curve pricing over deterministic fixed-point arithmetic.
//!
//! The crate computes token prices along a logistic (sigmoid) curve and
//! integrates that curve to size trades.  All magnitudes are nonnegative
//! 256-bit integers scaled by `10^18`; signs travel out-of-band as a boolean
//! flag next to the magnitude they qualify.

pub mod calculator;
pub mod curve;
pub mod fixed_point;
pub mod sigmoid_math;
pub mod u256;
