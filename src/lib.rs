//! Accounting and risk engine of an over-collateralised lending market.
pub mod error;
pub mod math;
pub mod offchain_utils;
pub mod processor;
pub mod refresh;
pub mod pubkey;
pub mod state;
