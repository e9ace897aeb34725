//! Fixed-point arithmetic: 192-bit decimals and 128-bit rates, both scaled by 10^18.
pub mod decimal;
pub mod rate;
pub mod wide;
