//! The persisted records of a lending market and the rules that change them.
pub mod last_update;
pub mod lending_market;
pub mod obligation;
pub mod rate_limiter;
pub mod reserve;

use vstd::prelude::*;

verus! {

/// Version of the records that this library writes.
pub const PROGRAM_VERSION: u8 = 1;

/// Version of a record that was never initialised.
pub const UNINITIALIZED_VERSION: u8 = 0;

/// Slots in a year: two slots a second.
pub const SLOTS_PER_YEAR: u64 = 63_072_000;

/// Collateral tokens minted for one liquidity token in a fresh reserve.
pub const INITIAL_COLLATERAL_RATIO: u64 = 1;

/// `INITIAL_COLLATERAL_RATIO` as a scaled rate.
pub const INITIAL_COLLATERAL_RATE: u64 = 1_000_000_000_000_000_000;

} // verus!
