//! Errors of the lending engine.
use vstd::prelude::*;

verus! {

/// The ways an operation of the engine can fail.
#[derive(Clone, Copy, Debug, PartialEq, Eq, Structural)]
pub enum LendingError {
    /// An arithmetic result left its type's range, or a division by zero.
    MathOverflow,
    /// An amount that the operation cannot take.
    InvalidAmount,
    /// A configuration value out of its allowed range.
    InvalidConfig,
    /// Accounts that do not fit the operation.
    InvalidAccountInput,
    /// A signature missing from the operation.
    InvalidSigner,
    /// An operation that only the market's owner may make.
    InvalidMarketOwner,
    /// A liquidation by other than the whitelisted liquidator.
    NotWhitelistedLiquidator,
    /// An oracle configuration that gives no price.
    InvalidOracleConfig,
    /// A reserve that was not refreshed in the current slot.
    ReserveStale,
    /// An obligation that was not refreshed in the current slot.
    ObligationStale,
    /// A liquidation bonus asked of a healthy obligation.
    ObligationHealthy,
    /// Less liquidity available than the operation takes.
    InsufficientLiquidity,
    /// A borrow that breaks the isolation rule of isolated reserves.
    IsolatedTierAssetViolation,
    /// A borrow whose value exceeds what the obligation may borrow.
    BorrowTooLarge,
    /// A borrow too small to pay its fees.
    BorrowTooSmall,
    /// A liquidation that would repay nothing.
    LiquidationTooSmall,
    /// An outflow above what the rate limiter allows.
    OutflowRateLimitExceeded,
    /// A cumulative borrow rate below the one recorded before.
    NegativeInterestRate,
}

} // verus!
