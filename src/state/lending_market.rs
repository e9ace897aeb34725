//! The market that reserves and obligations belong to.
use crate::pubkey::Pubkey;
use crate::state::rate_limiter::RateLimiter;
use vstd::prelude::*;

verus! {

/// A lending market.
#[derive(Clone, Copy, Debug, Default, PartialEq, Eq)]
pub struct LendingMarket {
    /// Version of the record.
    pub version: u8,
    /// Owner: may change configurations and forgive debt.
    pub owner: Pubkey,
    /// May change configurations towards safer values only.
    pub risk_authority: Pubkey,
    /// Where set, the only account allowed to liquidate.
    pub whitelisted_liquidator: Option<Pubkey>,
    /// Currency that prices are quoted in.
    pub quote_currency: [u8; 32],
    /// Cap on outflow across the market, in whole units of the quote currency.
    pub rate_limiter: RateLimiter,
}

} // verus!
