//! A reserve: the pool of one asset, its configuration, and the arithmetic of
//! deposits, borrows, interest, fees and liquidations against it.
use crate::error::LendingError;
use crate::math::decimal::{
    checked_pow10, dec_add, dec_ceil, dec_div, dec_floor, dec_mul, dec_result, dec_round, dec_sub,
    pow10, u64_result, wad, Decimal, BPS_SCALER, DECA_BPS_SCALER, PERCENT_SCALER, WAD,
};
use crate::math::rate::{rate_add, rate_div, rate_mul, rate_pow, rate_result, rate_sub, Rate};
use crate::math::wide::b192;
use crate::pubkey::Pubkey;
use crate::state::last_update::LastUpdate;
use crate::state::obligation::{
    max_liquidation_amount_of, Obligation, ObligationCollateral, ObligationLiquidity,
};
use crate::state::rate_limiter::{RateLimiter, RateLimiterConfig};
use crate::state::{INITIAL_COLLATERAL_RATE, PROGRAM_VERSION, SLOTS_PER_YEAR, UNINITIALIZED_VERSION};
use vstd::prelude::*;

verus! {

/// Percentage of a borrow that one liquidation may repay.
pub const LIQUIDATION_CLOSE_FACTOR: u8 = 20;

/// A borrow small enough to close out.
pub const LIQUIDATION_CLOSE_AMOUNT: u64 = 2;

/// Largest quote-currency value that one liquidation may repay.
pub const MAX_LIQUIDATABLE_VALUE_AT_ONCE: u64 = 500_000;

/// Largest liquidation bonus, protocol fee included, as a percentage.
pub const MAX_BONUS_PCT: u8 = 25;

/// Largest protocol liquidation fee, in deca basis points.
pub const MAX_PROTOCOL_LIQUIDATION_FEE_DECA_BPS: u8 = 50;

// ---------------------------------------------------------------------------
// Liquidity

/// The liquidity side of a reserve.
#[derive(Clone, Copy, Debug, Default, PartialEq, Eq)]
pub struct ReserveLiquidity {
    /// Mint of the liquidity token.
    pub mint_pubkey: Pubkey,
    /// Decimals of the liquidity mint.
    pub mint_decimals: u8,
    /// Account that holds the available liquidity.
    pub supply_pubkey: Pubkey,
    /// Primary price oracle.
    pub pyth_oracle_pubkey: Pubkey,
    /// Secondary price oracle.
    pub switchboard_oracle_pubkey: Pubkey,
    /// Liquidity ready to be borrowed or withdrawn.
    pub available_amount: u64,
    /// Liquidity lent out, interest included.
    pub borrowed_amount_wads: Decimal,
    /// Growth factor of a borrow since the reserve began.
    pub cumulative_borrow_rate_wads: Decimal,
    /// Interest set aside for the protocol.
    pub accumulated_protocol_fees_wads: Decimal,
    /// Price of one token in the quote currency.
    pub market_price: Decimal,
    /// Smoothed price of one token in the quote currency.
    pub smoothed_market_price: Decimal,
}

/// What a new reserve's liquidity is made from.
pub struct NewReserveLiquidityParams {
    /// Mint of the liquidity token.
    pub mint_pubkey: Pubkey,
    /// Decimals of the liquidity mint.
    pub mint_decimals: u8,
    /// Account that holds the available liquidity.
    pub supply_pubkey: Pubkey,
    /// Primary price oracle.
    pub pyth_oracle_pubkey: Pubkey,
    /// Secondary price oracle.
    pub switchboard_oracle_pubkey: Pubkey,
    /// Price of one token in the quote currency.
    pub market_price: Decimal,
    /// Smoothed price of one token in the quote currency.
    pub smoothed_market_price: Decimal,
}

/// `available + borrowed - protocol fees`, in scaled units.
pub open spec fn total_supply_of(l: ReserveLiquidity) -> Option<nat> {
    match dec_add((l.available_amount as nat) * wad(), l.borrowed_amount_wads@) {
        Some(s) => dec_sub(s, l.accumulated_protocol_fees_wads@),
        None => None,
    }
}

/// `borrowed / (borrowed + available - protocol fees)`, that is borrowed over
/// total supply; zero when nothing is lent or the total supply is zero.
pub open spec fn utilization_of(l: ReserveLiquidity) -> Option<nat> {
    match total_supply_of(l) {
        None => None,
        Some(t) => if t == 0 || l.borrowed_amount_wads@ == 0 {
            Some(0)
        } else {
            match dec_div(l.borrowed_amount_wads@, t) {
                None => None,
                Some(u) => if u <= u128::MAX {
                    Some(u)
                } else {
                    None
                },
            }
        },
    }
}

/// The liquidity after interest at `rate` for `slots` slots, of which the
/// share `take_rate` goes to the protocol: (cumulative rate, borrowed, fees).
pub open spec fn compounded(l: ReserveLiquidity, rate: nat, slots: nat, take_rate: nat) -> Option<
    (nat, nat, nat),
> {
    match rate_add(wad(), rate / (SLOTS_PER_YEAR as nat)) {
        None => None,
        Some(growth) => match rate_pow(growth, slots) {
            None => None,
            Some(factor) => match dec_mul(l.cumulative_borrow_rate_wads@, factor) {
                None => None,
                Some(cbr) => match dec_mul(l.borrowed_amount_wads@, factor) {
                    None => None,
                    Some(grown) => match dec_sub(grown, l.borrowed_amount_wads@) {
                        None => None,
                        Some(new_debt) => match dec_mul(new_debt, take_rate) {
                            None => None,
                            Some(fee) => match dec_add(fee, l.accumulated_protocol_fees_wads@) {
                                None => None,
                                Some(fees) => match dec_add(
                                    l.borrowed_amount_wads@,
                                    new_debt,
                                ) {
                                    None => None,
                                    Some(borrowed) => Some((cbr, borrowed, fees)),
                                },
                            },
                        },
                    },
                },
            },
        },
    }
}

impl ReserveLiquidity {
    /// Liquidity of a new reserve: nothing supplied or borrowed yet, and a
    /// cumulative borrow rate of one.
    pub fn new(params: NewReserveLiquidityParams) -> (r: ReserveLiquidity)
        ensures
            r.mint_pubkey == params.mint_pubkey,
            r.mint_decimals == params.mint_decimals,
            r.supply_pubkey == params.supply_pubkey,
            r.pyth_oracle_pubkey == params.pyth_oracle_pubkey,
            r.switchboard_oracle_pubkey == params.switchboard_oracle_pubkey,
            r.available_amount == 0,
            r.borrowed_amount_wads@ == 0,
            r.cumulative_borrow_rate_wads@ == wad(),
            r.accumulated_protocol_fees_wads@ == 0,
            r.market_price == params.market_price,
            r.smoothed_market_price == params.smoothed_market_price,
    {
        ReserveLiquidity {
            mint_pubkey: params.mint_pubkey,
            mint_decimals: params.mint_decimals,
            supply_pubkey: params.supply_pubkey,
            pyth_oracle_pubkey: params.pyth_oracle_pubkey,
            switchboard_oracle_pubkey: params.switchboard_oracle_pubkey,
            available_amount: 0,
            borrowed_amount_wads: Decimal::zero(),
            cumulative_borrow_rate_wads: Decimal::one(),
            accumulated_protocol_fees_wads: Decimal::zero(),
            market_price: params.market_price,
            smoothed_market_price: params.smoothed_market_price,
        }
    }

    /// Total supply: available plus borrowed, less the protocol's fees.
    pub fn total_supply(&self) -> (r: Result<Decimal, LendingError>)
        ensures
            dec_result(r, total_supply_of(*self)),
    {
        match Decimal::from_u64(self.available_amount).try_add(self.borrowed_amount_wads) {
            Ok(s) => s.try_sub(self.accumulated_protocol_fees_wads),
            Err(e) => Err(e),
        }
    }

    /// Adds `liquidity_amount` to the available liquidity.
    pub fn deposit(&mut self, liquidity_amount: u64) -> (r: Result<(), LendingError>)
        ensures
            r is Ok == (old(self).available_amount + liquidity_amount <= u64::MAX),
            r is Ok ==> *final(self) == (ReserveLiquidity {
                available_amount: (old(self).available_amount + liquidity_amount) as u64,
                ..*old(self)
            }),
            r is Err ==> *final(self) == *old(self) && r == Err::<(), LendingError>(
                LendingError::MathOverflow,
            ),
    {
        match self.available_amount.checked_add(liquidity_amount) {
            Some(a) => {
                self.available_amount = a;
                Ok(())
            },
            None => Err(LendingError::MathOverflow),
        }
    }

    /// Takes `liquidity_amount` out of the available liquidity.
    pub fn withdraw(&mut self, liquidity_amount: u64) -> (r: Result<(), LendingError>)
        ensures
            r is Ok == (liquidity_amount <= old(self).available_amount),
            r is Ok ==> *final(self) == (ReserveLiquidity {
                available_amount: (old(self).available_amount - liquidity_amount) as u64,
                ..*old(self)
            }),
            r is Err ==> *final(self) == *old(self) && r == Err::<(), LendingError>(
                LendingError::InsufficientLiquidity,
            ),
    {
        if liquidity_amount > self.available_amount {
            return Err(LendingError::InsufficientLiquidity);
        }
        self.available_amount = self.available_amount - liquidity_amount;
        Ok(())
    }

    /// Lends `borrow_decimal`: its integer part leaves the available
    /// liquidity, and the whole of it is added to the borrowed amount.
    pub fn borrow(&mut self, borrow_decimal: Decimal) -> (r: Result<(), LendingError>)
        ensures
            match r {
                Ok(()) => dec_floor(borrow_decimal@) matches Some(n) && n
                    <= old(self).available_amount && dec_add(
                    old(self).borrowed_amount_wads@,
                    borrow_decimal@,
                ) == Some(final(self).borrowed_amount_wads@) && final(self).available_amount
                    == old(self).available_amount - n && *final(self) == (ReserveLiquidity {
                    available_amount: final(self).available_amount,
                    borrowed_amount_wads: final(self).borrowed_amount_wads,
                    ..*old(self)
                }),
                Err(e) => *final(self) == *old(self) && match dec_floor(borrow_decimal@) {
                    Some(n) => if n > old(self).available_amount {
                        e == LendingError::InsufficientLiquidity
                    } else {
                        e == LendingError::MathOverflow && dec_add(
                            old(self).borrowed_amount_wads@,
                            borrow_decimal@,
                        ) is None
                    },
                    None => e == LendingError::MathOverflow,
                },
            },
    {
        let borrow_amount = match borrow_decimal.try_floor_u64() {
            Ok(n) => n,
            Err(e) => return Err(e),
        };
        if borrow_amount > self.available_amount {
            return Err(LendingError::InsufficientLiquidity);
        }
        let borrowed = match self.borrowed_amount_wads.try_add(borrow_decimal) {
            Ok(b) => b,
            Err(e) => return Err(e),
        };
        self.available_amount = self.available_amount - borrow_amount;
        self.borrowed_amount_wads = borrowed;
        Ok(())
    }

    /// Takes back `repay_amount` and settles `settle_amount` of the borrowed
    /// amount, never more than is borrowed.
    pub fn repay(&mut self, repay_amount: u64, settle_amount: Decimal) -> (r: Result<
        (),
        LendingError,
    >)
        ensures
            r is Ok == (old(self).available_amount + repay_amount <= u64::MAX),
            r is Ok ==> final(self).available_amount == old(self).available_amount + repay_amount
                && final(self).borrowed_amount_wads@ == old(self).borrowed_amount_wads@ - (
            if settle_amount@ <= old(self).borrowed_amount_wads@ {
                settle_amount@
            } else {
                old(self).borrowed_amount_wads@
            }) && *final(self) == (ReserveLiquidity {
                available_amount: final(self).available_amount,
                borrowed_amount_wads: final(self).borrowed_amount_wads,
                ..*old(self)
            }),
            r is Err ==> *final(self) == *old(self) && r == Err::<(), LendingError>(
                LendingError::MathOverflow,
            ),
    {
        let available = match self.available_amount.checked_add(repay_amount) {
            Some(a) => a,
            None => return Err(LendingError::MathOverflow),
        };
        let safe_settle_amount = settle_amount.min(self.borrowed_amount_wads);
        let borrowed = match self.borrowed_amount_wads.try_sub(safe_settle_amount) {
            Ok(b) => b,
            Err(e) => return Err(e),
        };
        self.available_amount = available;
        self.borrowed_amount_wads = borrowed;
        Ok(())
    }

    /// Writes off `liquidity_amount` of the borrowed amount: the loss falls
    /// on every holder of the reserve's collateral. The write-off may not
    /// exceed the total supply, which would leave it below zero.
    pub fn forgive_debt(&mut self, liquidity_amount: Decimal) -> (r: Result<(), LendingError>)
        ensures
            r is Ok == (liquidity_amount@ <= old(self).borrowed_amount_wads@ && match total_supply_of(
                *old(self),
            ) {
                Some(t) => liquidity_amount@ <= t,
                None => false,
            }),
            r is Ok ==> final(self).borrowed_amount_wads@ == old(self).borrowed_amount_wads@
                - liquidity_amount@ && *final(self) == (ReserveLiquidity {
                borrowed_amount_wads: final(self).borrowed_amount_wads,
                ..*old(self)
            }),
            r is Ok ==> total_supply_of(*final(self)) is Some,
            r is Err ==> *final(self) == *old(self) && r == Err::<(), LendingError>(
                LendingError::MathOverflow,
            ),
    {
        let total = match self.total_supply() {
            Ok(t) => t,
            Err(e) => return Err(e),
        };
        if total.lt(&liquidity_amount) {
            return Err(LendingError::MathOverflow);
        }
        match self.borrowed_amount_wads.try_sub(liquidity_amount) {
            Ok(b) => {
                self.borrowed_amount_wads = b;
                Ok(())
            },
            Err(e) => Err(e),
        }
    }

    /// Pays `withdraw_amount` of the protocol's fees out of the available
    /// liquidity.
    pub fn redeem_fees(&mut self, withdraw_amount: u64) -> (r: Result<(), LendingError>)
        ensures
            r is Ok == (withdraw_amount <= old(self).available_amount && (withdraw_amount as nat) * wad()
                <= old(self).accumulated_protocol_fees_wads@),
            r is Ok ==> final(self).available_amount == old(self).available_amount
                - withdraw_amount && final(self).accumulated_protocol_fees_wads@
                == old(self).accumulated_protocol_fees_wads@ - (withdraw_amount as nat) * wad()
                && *final(self) == (ReserveLiquidity {
                available_amount: final(self).available_amount,
                accumulated_protocol_fees_wads: final(self).accumulated_protocol_fees_wads,
                ..*old(self)
            }),
            r is Err ==> *final(self) == *old(self) && r == Err::<(), LendingError>(
                LendingError::MathOverflow,
            ),
    {
        let available = match self.available_amount.checked_sub(withdraw_amount) {
            Some(a) => a,
            None => return Err(LendingError::MathOverflow),
        };
        let fees = match self.accumulated_protocol_fees_wads.try_sub(
            Decimal::from_u64(withdraw_amount),
        ) {
            Ok(f) => f,
            Err(e) => return Err(e),
        };
        self.available_amount = available;
        self.accumulated_protocol_fees_wads = fees;
        Ok(())
    }

    /// Share of the supplied liquidity that is lent out.
    pub fn utilization_rate(&self) -> (r: Result<Rate, LendingError>)
        ensures
            rate_result(r, utilization_of(*self)),
    {
        let total_supply = match self.total_supply() {
            Ok(t) => t,
            Err(e) => return Err(e),
        };
        if total_supply.is_zero() || self.borrowed_amount_wads.is_zero() {
            return Ok(Rate::zero());
        }
        match self.borrowed_amount_wads.try_div(total_supply) {
            Ok(u) => Rate::try_from_decimal(u),
            Err(e) => Err(e),
        }
    }

    /// Accrues interest at `current_borrow_rate` a year over `slots_elapsed`
    /// slots, compounded each slot; `take_rate` of the new debt goes to the
    /// protocol.
    fn compound_interest(
        &mut self,
        current_borrow_rate: Rate,
        slots_elapsed: u64,
        take_rate: Rate,
    ) -> (r: Result<(), LendingError>)
        ensures
            match compounded(*old(self), current_borrow_rate@, slots_elapsed as nat, take_rate@) {
                Some((cbr, borrowed, fees)) => r is Ok && final(self).cumulative_borrow_rate_wads@
                    == cbr && final(self).borrowed_amount_wads@ == borrowed
                    && final(self).accumulated_protocol_fees_wads@ == fees && *final(self) == (
                ReserveLiquidity {
                    cumulative_borrow_rate_wads: final(self).cumulative_borrow_rate_wads,
                    borrowed_amount_wads: final(self).borrowed_amount_wads,
                    accumulated_protocol_fees_wads: final(self).accumulated_protocol_fees_wads,
                    ..*old(self)
                }),
                None => r == Err::<(), LendingError>(LendingError::MathOverflow) && *final(self)
                    == *old(self),
            },
    {
        let slot_interest_rate = match current_borrow_rate.try_div_u64(SLOTS_PER_YEAR) {
            Ok(x) => x,
            Err(e) => return Err(e),
        };
        let growth = match Rate::one().try_add(slot_interest_rate) {
            Ok(x) => x,
            Err(e) => return Err(e),
        };
        let factor = match growth.try_pow(slots_elapsed) {
            Ok(x) => x,
            Err(e) => return Err(e),
        };
        let cbr = match self.cumulative_borrow_rate_wads.try_mul_rate(factor) {
            Ok(x) => x,
            Err(e) => return Err(e),
        };
        let grown = match self.borrowed_amount_wads.try_mul_rate(factor) {
            Ok(x) => x,
            Err(e) => return Err(e),
        };
        let net_new_debt = match grown.try_sub(self.borrowed_amount_wads) {
            Ok(x) => x,
            Err(e) => return Err(e),
        };
        let fee = match net_new_debt.try_mul_rate(take_rate) {
            Ok(x) => x,
            Err(e) => return Err(e),
        };
        let fees = match fee.try_add(self.accumulated_protocol_fees_wads) {
            Ok(x) => x,
            Err(e) => return Err(e),
        };
        let borrowed = match self.borrowed_amount_wads.try_add(net_new_debt) {
            Ok(x) => x,
            Err(e) => return Err(e),
        };
        self.cumulative_borrow_rate_wads = cbr;
        self.accumulated_protocol_fees_wads = fees;
        self.borrowed_amount_wads = borrowed;
        Ok(())
    }
}

// ---------------------------------------------------------------------------
// Collateral

/// The collateral side of a reserve: tokens minted against deposits.
#[derive(Clone, Copy, Debug, Default, PartialEq, Eq)]
pub struct ReserveCollateral {
    /// Mint of the collateral token.
    pub mint_pubkey: Pubkey,
    /// Collateral tokens in circulation.
    pub mint_total_supply: u64,
    /// Account that holds deposited collateral.
    pub supply_pubkey: Pubkey,
}

/// What a new reserve's collateral is made from.
pub struct NewReserveCollateralParams {
    /// Mint of the collateral token.
    pub mint_pubkey: Pubkey,
    /// Account that holds deposited collateral.
    pub supply_pubkey: Pubkey,
}

/// Collateral tokens per liquidity token, for a total liquidity
/// `total_liquidity` (scaled).
pub open spec fn exchange_rate_of(c: ReserveCollateral, total_liquidity: nat) -> Option<nat> {
    if c.mint_total_supply == 0 || total_liquidity == 0 {
        Some(INITIAL_COLLATERAL_RATE as nat)
    } else {
        match dec_div((c.mint_total_supply as nat) * wad(), total_liquidity) {
            None => None,
            Some(x) => if x <= u128::MAX {
                Some(x)
            } else {
                None
            },
        }
    }
}

impl ReserveCollateral {
    /// Collateral of a new reserve: nothing minted yet.
    pub fn new(params: NewReserveCollateralParams) -> (r: ReserveCollateral)
        ensures
            r.mint_pubkey == params.mint_pubkey,
            r.mint_total_supply == 0,
            r.supply_pubkey == params.supply_pubkey,
    {
        ReserveCollateral {
            mint_pubkey: params.mint_pubkey,
            mint_total_supply: 0,
            supply_pubkey: params.supply_pubkey,
        }
    }

    /// Records `collateral_amount` newly minted tokens.
    pub fn mint(&mut self, collateral_amount: u64) -> (r: Result<(), LendingError>)
        ensures
            r is Ok == (old(self).mint_total_supply + collateral_amount <= u64::MAX),
            r is Ok ==> *final(self) == (ReserveCollateral {
                mint_total_supply: (old(self).mint_total_supply + collateral_amount) as u64,
                ..*old(self)
            }),
            r is Err ==> *final(self) == *old(self) && r == Err::<(), LendingError>(
                LendingError::MathOverflow,
            ),
    {
        match self.mint_total_supply.checked_add(collateral_amount) {
            Some(s) => {
                self.mint_total_supply = s;
                Ok(())
            },
            None => Err(LendingError::MathOverflow),
        }
    }

    /// Records `collateral_amount` burnt tokens.
    pub fn burn(&mut self, collateral_amount: u64) -> (r: Result<(), LendingError>)
        ensures
            r is Ok == (collateral_amount <= old(self).mint_total_supply),
            r is Ok ==> *final(self) == (ReserveCollateral {
                mint_total_supply: (old(self).mint_total_supply - collateral_amount) as u64,
                ..*old(self)
            }),
            r is Err ==> *final(self) == *old(self) && r == Err::<(), LendingError>(
                LendingError::MathOverflow,
            ),
    {
        match self.mint_total_supply.checked_sub(collateral_amount) {
            Some(s) => {
                self.mint_total_supply = s;
                Ok(())
            },
            None => Err(LendingError::MathOverflow),
        }
    }

    /// The exchange rate for a total liquidity of `total_liquidity`.
    fn exchange_rate(&self, total_liquidity: Decimal) -> (r: Result<
        CollateralExchangeRate,
        LendingError,
    >)
        ensures
            match r {
                Ok(x) => exchange_rate_of(*self, total_liquidity@) == Some(x.0@),
                Err(e) => exchange_rate_of(*self, total_liquidity@) is None && e
                    == LendingError::MathOverflow,
            },
    {
        if self.mint_total_supply == 0 || total_liquidity.is_zero() {
            Ok(CollateralExchangeRate(Rate::from_scaled_val(INITIAL_COLLATERAL_RATE)))
        } else {
            match Decimal::from_u64(self.mint_total_supply).try_div(total_liquidity) {
                Ok(x) => match Rate::try_from_decimal(x) {
                    Ok(rate) => Ok(CollateralExchangeRate(rate)),
                    Err(e) => Err(e),
                },
                Err(e) => Err(e),
            }
        }
    }
}

/// Collateral tokens per liquidity token.
#[derive(Clone, Copy, Debug)]
pub struct CollateralExchangeRate(pub Rate);

impl CollateralExchangeRate {
    /// Liquidity tokens for `collateral_amount` collateral tokens, rounded down.
    pub fn collateral_to_liquidity(&self, collateral_amount: u64) -> (r: Result<u64, LendingError>)
        ensures
            u64_result(
                r,
                match dec_div((collateral_amount as nat) * wad(), self.0@) {
                    Some(l) => dec_floor(l),
                    None => None,
                },
            ),
    {
        match self.decimal_collateral_to_liquidity(Decimal::from_u64(collateral_amount)) {
            Ok(l) => l.try_floor_u64(),
            Err(e) => Err(e),
        }
    }

    /// Liquidity for `collateral_amount` collateral.
    pub fn decimal_collateral_to_liquidity(&self, collateral_amount: Decimal) -> (r: Result<
        Decimal,
        LendingError,
    >)
        ensures
            dec_result(r, dec_div(collateral_amount@, self.0@)),
    {
        collateral_amount.try_div_rate(self.0)
    }

    /// Collateral tokens for `liquidity_amount` liquidity tokens, rounded down.
    pub fn liquidity_to_collateral(&self, liquidity_amount: u64) -> (r: Result<u64, LendingError>)
        ensures
            u64_result(
                r,
                match dec_mul((liquidity_amount as nat) * wad(), self.0@) {
                    Some(c) => dec_floor(c),
                    None => None,
                },
            ),
    {
        match self.decimal_liquidity_to_collateral(Decimal::from_u64(liquidity_amount)) {
            Ok(c) => c.try_floor_u64(),
            Err(e) => Err(e),
        }
    }

    /// Collateral for `liquidity_amount` liquidity.
    pub fn decimal_liquidity_to_collateral(&self, liquidity_amount: Decimal) -> (r: Result<
        Decimal,
        LendingError,
    >)
        ensures
            dec_result(r, dec_mul(liquidity_amount@, self.0@)),
    {
        liquidity_amount.try_mul_rate(self.0)
    }

    /// The rate itself.
    pub fn rate(&self) -> (r: Rate)
        ensures
            r == self.0,
    {
        self.0
    }
}


impl From<CollateralExchangeRate> for Rate {
    fn from(exchange_rate: CollateralExchangeRate) -> (r: Rate) {
        exchange_rate.0
    }
}

impl vstd::std_specs::convert::FromSpecImpl<CollateralExchangeRate> for Rate {
    open spec fn obeys_from_spec() -> bool {
        true
    }

    open spec fn from_spec(exchange_rate: CollateralExchangeRate) -> Rate {
        exchange_rate.0
    }
}

impl std::str::FromStr for ReserveType {
    type Err = LendingError;

    fn from_str(input: &str) -> (r: Result<ReserveType, LendingError>) {
        if input == "Regular" {
            Ok(ReserveType::Regular)
        } else if input == "Isolated" {
            Ok(ReserveType::Isolated)
        } else {
            Err(LendingError::InvalidConfig)
        }
    }
}

} // verus!

verus! {

// ---------------------------------------------------------------------------
// Configuration

/// Whether a reserve's asset may serve as collateral.
#[derive(Clone, Copy, Debug, Default, PartialEq, Eq, Structural)]
pub enum ReserveType {
    /// The asset can be used as collateral.
    #[default]
    Regular,
    /// The asset is never collateral, and is borrowed only alone.
    Isolated,
}

/// Fees charged on borrows and flash loans, apart from interest.
#[derive(Clone, Copy, Debug, Default, PartialEq, Eq, Structural)]
pub struct ReserveFees {
    /// Fee on a borrow, scaled by 10^18: 10^16 is 1%.
    pub borrow_fee_wad: u64,
    /// Fee on a flash loan, scaled by 10^18.
    pub flash_loan_fee_wad: u64,
    /// Percentage of a fee that goes to the host, where there is one.
    pub host_fee_percentage: u8,
}

/// Whether a fee comes on top of an amount or out of it.
pub enum FeeCalculation {
    /// The fee is added to the amount: `fee = rate * amount`.
    Exclusive,
    /// The fee is part of the amount: `fee = rate / (1 + rate) * amount`.
    Inclusive,
}

/// The configuration of a reserve.
#[derive(Clone, Copy, Debug, Default, PartialEq, Eq)]
pub struct ReserveConfig {
    /// Utilization at which the borrow rate reaches the optimal rate, in percent.
    pub optimal_utilization_rate: u8,
    /// Utilization at which the borrow rate reaches the max rate, in percent.
    pub max_utilization_rate: u8,
    /// Borrow value allowed per unit of collateral value, in percent.
    pub loan_to_value_ratio: u8,
    /// Least bonus of a liquidator, in percent.
    pub liquidation_bonus: u8,
    /// Greatest bonus of a liquidator, in percent.
    pub max_liquidation_bonus: u8,
    /// Loan to value at which an obligation may be liquidated, in percent.
    pub liquidation_threshold: u8,
    /// Loan to value at which the liquidation bonus is greatest, in percent.
    pub max_liquidation_threshold: u8,
    /// Borrow rate at zero utilization, in percent.
    pub min_borrow_rate: u8,
    /// Borrow rate at optimal utilization, in percent.
    pub optimal_borrow_rate: u8,
    /// Borrow rate at max utilization, in percent.
    pub max_borrow_rate: u8,
    /// Borrow rate at full utilization, in percent.
    pub super_max_borrow_rate: u64,
    /// Borrow and flash loan fees.
    pub fees: ReserveFees,
    /// Most liquidity the reserve takes, in native units.
    pub deposit_limit: u64,
    /// Most liquidity that may be borrowed, in native units.
    pub borrow_limit: u64,
    /// Account that receives the fees.
    pub fee_receiver: Pubkey,
    /// Protocol's cut of a liquidation, in deca basis points.
    pub protocol_liquidation_fee: u8,
    /// Protocol's share of interest, in percent.
    pub protocol_take_rate: u8,
    /// Borrow weight above one, in basis points.
    pub added_borrow_weight_bps: u64,
    /// Whether the asset may serve as collateral.
    pub reserve_type: ReserveType,
}

/// The rules that every reserve configuration obeys.
pub open spec fn config_valid(c: ReserveConfig) -> bool {
    &&& c.optimal_utilization_rate <= 100
    &&& c.optimal_utilization_rate <= c.max_utilization_rate <= 100
    &&& c.loan_to_value_ratio < 100
    &&& c.liquidation_bonus <= c.max_liquidation_bonus <= 100
    &&& c.loan_to_value_ratio <= c.liquidation_threshold <= c.max_liquidation_threshold <= 100
    &&& c.min_borrow_rate <= c.optimal_borrow_rate <= c.max_borrow_rate
    &&& c.max_borrow_rate <= c.super_max_borrow_rate
    &&& c.fees.borrow_fee_wad < wad()
    &&& c.fees.flash_loan_fee_wad < wad()
    &&& c.fees.host_fee_percentage <= 100
    &&& c.protocol_liquidation_fee <= MAX_PROTOCOL_LIQUIDATION_FEE_DECA_BPS
    &&& c.max_liquidation_bonus * 100 + c.protocol_liquidation_fee * 10 <= MAX_BONUS_PCT * 100
    &&& c.protocol_take_rate <= 100
    &&& (c.reserve_type == ReserveType::Isolated ==> c.loan_to_value_ratio == 0
        && c.liquidation_threshold == 0)
}

/// Checks a reserve configuration against the rules of `config_valid`.
pub fn validate_reserve_config(config: ReserveConfig) -> (r: Result<(), LendingError>)
    ensures
        r is Ok == config_valid(config),
        r is Err ==> r == Err::<(), LendingError>(LendingError::InvalidConfig),
{
    if config.optimal_utilization_rate > 100 {
        return Err(LendingError::InvalidConfig);
    }
    if config.max_utilization_rate < config.optimal_utilization_rate
        || config.max_utilization_rate > 100 {
        return Err(LendingError::InvalidConfig);
    }
    if config.loan_to_value_ratio >= 100 {
        return Err(LendingError::InvalidConfig);
    }
    if config.liquidation_bonus > 100 {
        return Err(LendingError::InvalidConfig);
    }
    if config.max_liquidation_bonus < config.liquidation_bonus || config.max_liquidation_bonus
        > 100 {
        return Err(LendingError::InvalidConfig);
    }
    if config.liquidation_threshold < config.loan_to_value_ratio || config.liquidation_threshold
        > 100 {
        return Err(LendingError::InvalidConfig);
    }
    if config.max_liquidation_threshold < config.liquidation_threshold
        || config.max_liquidation_threshold > 100 {
        return Err(LendingError::InvalidConfig);
    }
    if config.optimal_borrow_rate < config.min_borrow_rate {
        return Err(LendingError::InvalidConfig);
    }
    if config.optimal_borrow_rate > config.max_borrow_rate {
        return Err(LendingError::InvalidConfig);
    }
    if config.super_max_borrow_rate < config.max_borrow_rate as u64 {
        return Err(LendingError::InvalidConfig);
    }
    if config.fees.borrow_fee_wad >= 1_000_000_000_000_000_000u64 {
        return Err(LendingError::InvalidConfig);
    }
    if config.fees.flash_loan_fee_wad >= 1_000_000_000_000_000_000u64 {
        return Err(LendingError::InvalidConfig);
    }
    if config.fees.host_fee_percentage > 100 {
        return Err(LendingError::InvalidConfig);
    }
    if config.protocol_liquidation_fee > MAX_PROTOCOL_LIQUIDATION_FEE_DECA_BPS {
        return Err(LendingError::InvalidConfig);
    }
    if config.max_liquidation_bonus as u64 * 100 + config.protocol_liquidation_fee as u64 * 10
        > MAX_BONUS_PCT as u64 * 100 {
        return Err(LendingError::InvalidConfig);
    }
    if config.protocol_take_rate > 100 {
        return Err(LendingError::InvalidConfig);
    }
    if config.reserve_type == ReserveType::Isolated && !(config.loan_to_value_ratio == 0
        && config.liquidation_threshold == 0) {
        return Err(LendingError::InvalidConfig);
    }
    Ok(())
}

/// A configuration read from a record written before the `max_*` fields
/// existed: each `max_*` field is at least its base field, the super max
/// borrow rate at least the max rate, and the protocol liquidation fee at
/// most its cap.
pub fn backfill_config(config: ReserveConfig) -> (r: ReserveConfig)
    ensures
        r == (ReserveConfig {
            max_utilization_rate: if config.max_utilization_rate >= config.optimal_utilization_rate {
                config.max_utilization_rate
            } else {
                config.optimal_utilization_rate
            },
            max_liquidation_bonus: if config.max_liquidation_bonus >= config.liquidation_bonus {
                config.max_liquidation_bonus
            } else {
                config.liquidation_bonus
            },
            max_liquidation_threshold: if config.max_liquidation_threshold
                >= config.liquidation_threshold {
                config.max_liquidation_threshold
            } else {
                config.liquidation_threshold
            },
            super_max_borrow_rate: if config.super_max_borrow_rate >= config.max_borrow_rate as u64 {
                config.super_max_borrow_rate
            } else {
                config.max_borrow_rate as u64
            },
            protocol_liquidation_fee: if config.protocol_liquidation_fee
                <= MAX_PROTOCOL_LIQUIDATION_FEE_DECA_BPS {
                config.protocol_liquidation_fee
            } else {
                MAX_PROTOCOL_LIQUIDATION_FEE_DECA_BPS
            },
            ..config
        }),
{
    let mut r = config;
    if r.max_utilization_rate < r.optimal_utilization_rate {
        r.max_utilization_rate = r.optimal_utilization_rate;
    }
    if r.max_liquidation_bonus < r.liquidation_bonus {
        r.max_liquidation_bonus = r.liquidation_bonus;
    }
    if r.max_liquidation_threshold < r.liquidation_threshold {
        r.max_liquidation_threshold = r.liquidation_threshold;
    }
    if r.super_max_borrow_rate < r.max_borrow_rate as u64 {
        r.super_max_borrow_rate = r.max_borrow_rate as u64;
    }
    if r.protocol_liquidation_fee > MAX_PROTOCOL_LIQUIDATION_FEE_DECA_BPS {
        r.protocol_liquidation_fee = MAX_PROTOCOL_LIQUIDATION_FEE_DECA_BPS;
    }
    r
}

// ---------------------------------------------------------------------------
// Fees

/// The fee on `amount` at `fee_wad`, before the minimum is applied.
pub open spec fn raw_fee(amount: nat, fee_wad: nat, inclusive: bool) -> Option<nat> {
    if inclusive {
        match rate_add(fee_wad, wad()) {
            None => None,
            Some(den) => match rate_div(fee_wad, den) {
                None => None,
                Some(rate) => dec_mul(amount, rate),
            },
        }
    } else {
        dec_mul(amount, fee_wad)
    }
}

/// The (total fee, host fee) on `amount` at `fee_wad`: at least one token,
/// two where a host shares it; an amount that cannot cover that is too small.
/// The total fee is rounded up to whole tokens; the host gets its share of
/// that total, rounded half up, and at least one token.
pub open spec fn fees_of(host_pct: nat, amount: nat, fee_wad: nat, inclusive: bool) -> Result<
    (nat, nat),
    LendingError,
> {
    if fee_wad > 0 && amount > 0 {
        let minimum: nat = if host_pct > 0 {
            2
        } else {
            1
        };
        match raw_fee(amount, fee_wad, inclusive) {
            None => Err(LendingError::MathOverflow),
            Some(f) => {
                let fee = if f >= minimum * wad() {
                    f
                } else {
                    minimum * wad()
                };
                if fee >= amount {
                    Err(LendingError::BorrowTooSmall)
                } else {
                    match dec_ceil(fee) {
                        None => Err(LendingError::MathOverflow),
                        Some(total) => if host_pct > 0 {
                            match dec_mul(total * wad(), host_pct * (PERCENT_SCALER as nat)) {
                                None => Err(LendingError::MathOverflow),
                                Some(h) => match dec_round(h) {
                                    None => Err(LendingError::MathOverflow),
                                    Some(host) => Ok(
                                        (
                                            total,
                                            if host >= 1 {
                                                host
                                            } else {
                                                1
                                            },
                                        ),
                                    ),
                                },
                            }
                        } else {
                            Ok((total, 0))
                        },
                    }
                }
            },
        }
    } else {
        Ok((0, 0))
    }
}

/// Relates a pair of integers returned by an operation to its value in `int`s.
pub open spec fn pair_result(r: Result<(u64, u64), LendingError>, v: Result<(nat, nat), LendingError>) -> bool {
    match r {
        Ok((a, b)) => v == Ok::<(nat, nat), LendingError>((a as nat, b as nat)),
        Err(e) => v == Err::<(nat, nat), LendingError>(e),
    }
}

impl ReserveFees {
    /// The (total fee, host fee) on a borrow of `borrow_amount`.
    pub fn calculate_borrow_fees(
        &self,
        borrow_amount: Decimal,
        fee_calculation: FeeCalculation,
    ) -> (r: Result<(u64, u64), LendingError>)
        ensures
            pair_result(
                r,
                fees_of(
                    self.host_fee_percentage as nat,
                    borrow_amount@,
                    self.borrow_fee_wad as nat,
                    fee_calculation is Inclusive,
                ),
            ),
    {
        self.calculate_fees(borrow_amount, self.borrow_fee_wad, fee_calculation)
    }

    /// The (origination fee, host fee) on a flash loan of `flash_loan_amount`;
    /// the two add up to the whole fee.
    pub fn calculate_flash_loan_fees(&self, flash_loan_amount: Decimal) -> (r: Result<
        (u64, u64),
        LendingError,
    >)
        ensures
            pair_result(
                r,
                match fees_of(
                    self.host_fee_percentage as nat,
                    flash_loan_amount@,
                    self.flash_loan_fee_wad as nat,
                    false,
                ) {
                    Ok((total, host)) => if host <= total {
                        Ok(((total - host) as nat, host))
                    } else {
                        Err(LendingError::MathOverflow)
                    },
                    Err(e) => Err(e),
                },
            ),
    {
        let (total_fees, host_fee) = match self.calculate_fees(
            flash_loan_amount,
            self.flash_loan_fee_wad,
            FeeCalculation::Exclusive,
        ) {
            Ok(f) => f,
            Err(e) => return Err(e),
        };
        match total_fees.checked_sub(host_fee) {
            Some(origination_fee) => Ok((origination_fee, host_fee)),
            None => Err(LendingError::MathOverflow),
        }
    }

    fn calculate_fees(&self, amount: Decimal, fee_wad: u64, fee_calculation: FeeCalculation) -> (r:
        Result<(u64, u64), LendingError>)
        ensures
            pair_result(
                r,
                fees_of(
                    self.host_fee_percentage as nat,
                    amount@,
                    fee_wad as nat,
                    fee_calculation is Inclusive,
                ),
            ),
    {
        let borrow_fee_rate = Rate::from_scaled_val(fee_wad);
        let host_fee_rate = Rate::from_percent(self.host_fee_percentage);
        if fee_wad > 0 && !amount.is_zero() {
            let need_to_assess_host_fee = self.host_fee_percentage > 0;
            let minimum_fee: u64 = if need_to_assess_host_fee {
                2
            } else {
                1
            };
            let borrow_fee_amount = match fee_calculation {
                FeeCalculation::Exclusive => match amount.try_mul_rate(borrow_fee_rate) {
                    Ok(f) => f,
                    Err(e) => return Err(e),
                },
                FeeCalculation::Inclusive => {
                    let den = match borrow_fee_rate.try_add(Rate::one()) {
                        Ok(d) => d,
                        Err(e) => return Err(e),
                    };
                    let rate = match borrow_fee_rate.try_div(den) {
                        Ok(x) => x,
                        Err(e) => return Err(e),
                    };
                    match amount.try_mul_rate(rate) {
                        Ok(f) => f,
                        Err(e) => return Err(e),
                    }
                },
            };
            let borrow_fee_decimal = borrow_fee_amount.max(Decimal::from_u64(minimum_fee));
            if amount.le(&borrow_fee_decimal) {
                return Err(LendingError::BorrowTooSmall);
            }
            let borrow_fee = match borrow_fee_decimal.try_ceil_u64() {
                Ok(f) => f,
                Err(e) => return Err(e),
            };
            let host_fee = if need_to_assess_host_fee {
                let h = match Decimal::from_u64(borrow_fee).try_mul_rate(host_fee_rate) {
                    Ok(h) => h,
                    Err(e) => return Err(e),
                };
                let rounded = match h.try_round_u64() {
                    Ok(x) => x,
                    Err(e) => return Err(e),
                };
                if rounded >= 1 {
                    rounded
                } else {
                    1
                }
            } else {
                0
            };
            Ok((borrow_fee, host_fee))
        } else {
            Ok((0, 0))
        }
    }
}

} // verus!

verus! {

// ---------------------------------------------------------------------------
// Reserve

/// The pool of one asset.
#[derive(Clone, Copy, Debug, Default, PartialEq, Eq)]
pub struct Reserve {
    /// Version of the record.
    pub version: u8,
    /// Freshness of prices and interest.
    pub last_update: LastUpdate,
    /// The market the reserve belongs to.
    pub lending_market: Pubkey,
    /// Liquidity side.
    pub liquidity: ReserveLiquidity,
    /// Collateral side.
    pub collateral: ReserveCollateral,
    /// Configuration.
    pub config: ReserveConfig,
    /// Cap on outflow, in native units.
    pub rate_limiter: RateLimiter,
}

/// What a new reserve is made from.
pub struct InitReserveParams {
    /// Slot of creation.
    pub current_slot: u64,
    /// The market the reserve belongs to.
    pub lending_market: Pubkey,
    /// Liquidity side.
    pub liquidity: ReserveLiquidity,
    /// Collateral side.
    pub collateral: ReserveCollateral,
    /// Configuration.
    pub config: ReserveConfig,
    /// Window and cap of the outflow limiter.
    pub rate_limiter_config: RateLimiterConfig,
}

/// The larger of two numbers.
pub open spec fn nmax(a: nat, b: nat) -> nat {
    if a >= b {
        a
    } else {
        b
    }
}

/// The smaller of two numbers.
pub open spec fn nmin(a: nat, b: nat) -> nat {
    if a <= b {
        a
    } else {
        b
    }
}

/// Value of `amount` (scaled) of a token with `decimals` decimals at `price`.
pub open spec fn value_at(price: nat, amount: nat, decimals: nat) -> Option<nat> {
    match dec_mul(price, amount) {
        None => None,
        Some(x) => if pow10(decimals) <= u128::MAX {
            dec_div(x, pow10(decimals) * wad())
        } else {
            None
        },
    }
}

/// Liquidity that `quote_amount` (scaled) buys at the higher of the two prices.
pub open spec fn liquidity_for_value(r: Reserve, quote_amount: nat) -> Option<nat> {
    if pow10(r.liquidity.mint_decimals as nat) <= u128::MAX {
        match dec_mul(quote_amount, pow10(r.liquidity.mint_decimals as nat) * wad()) {
            None => None,
            Some(x) => dec_div(
                x,
                nmax(r.liquidity.smoothed_market_price@, r.liquidity.market_price@),
            ),
        }
    } else {
        None
    }
}

/// `1 + added_borrow_weight_bps / 10_000`, scaled.
pub open spec fn borrow_weight_of(c: ReserveConfig) -> nat {
    wad() + (c.added_borrow_weight_bps as nat) * (BPS_SCALER as nat)
}

/// Collateral tokens per liquidity token.
pub open spec fn exchange_rate_spec(r: Reserve) -> Option<nat> {
    match total_supply_of(r.liquidity) {
        None => None,
        Some(t) => exchange_rate_of(r.collateral, t),
    }
}

/// Collateral tokens minted for a deposit of `l` liquidity tokens.
pub open spec fn collateral_for(r: Reserve, l: nat) -> Option<nat> {
    match exchange_rate_spec(r) {
        None => None,
        Some(x) => match dec_mul(l * wad(), x) {
            None => None,
            Some(c) => dec_floor(c),
        },
    }
}

/// Liquidity tokens paid for `c` redeemed collateral tokens.
pub open spec fn liquidity_for(r: Reserve, c: nat) -> Option<nat> {
    match exchange_rate_spec(r) {
        None => None,
        Some(x) => match dec_div(c * wad(), x) {
            None => None,
            Some(l) => dec_floor(l),
        },
    }
}

/// The borrow-rate curve: linear from the min rate to the optimal rate up to
/// optimal utilization, then to the max rate at max utilization, then to the
/// super max rate at full utilization.
pub open spec fn borrow_rate_of(r: Reserve) -> Option<nat> {
    let c = r.config;
    let p = PERCENT_SCALER as nat;
    match utilization_of(r.liquidity) {
        None => None,
        Some(u) => {
            let opt_u = (c.optimal_utilization_rate as nat) * p;
            let max_u = (c.max_utilization_rate as nat) * p;
            let min_rate = (c.min_borrow_rate as nat) * p;
            let opt_rate = (c.optimal_borrow_rate as nat) * p;
            let max_rate = (c.max_borrow_rate as nat) * p;
            if u <= opt_u {
                if opt_u == 0 {
                    Some(min_rate)
                } else if c.optimal_borrow_rate < c.min_borrow_rate {
                    None
                } else {
                    match rate_div(u, opt_u) {
                        None => None,
                        Some(norm) => match rate_mul(
                            norm,
                            ((c.optimal_borrow_rate - c.min_borrow_rate) as nat) * p,
                        ) {
                            None => None,
                            Some(x) => rate_add(x, min_rate),
                        },
                    }
                }
            } else if u <= max_u {
                match rate_div((u - opt_u) as nat, (max_u - opt_u) as nat) {
                    None => None,
                    Some(w) => match rate_sub(max_rate, opt_rate) {
                        None => None,
                        Some(range) => match rate_mul(w, range) {
                            None => None,
                            Some(x) => rate_add(x, opt_rate),
                        },
                    },
                }
            } else if c.max_utilization_rate > 100 {
                None
            } else {
                match rate_div((u - max_u) as nat, ((100 - c.max_utilization_rate) as nat) * p) {
                    None => None,
                    Some(w) => match rate_sub((c.super_max_borrow_rate as nat) * p, max_rate) {
                        None => None,
                        Some(range) => match dec_mul(w, range) {
                            None => None,
                            Some(x) => match dec_add(x, max_rate) {
                                None => None,
                                Some(y) => if y <= u128::MAX {
                                    Some(y)
                                } else {
                                    None
                                },
                            },
                        },
                    },
                }
            }
        },
    }
}

/// The liquidity after interest accrued up to `slot`.
pub open spec fn accrued_liquidity(r: Reserve, slot: u64) -> Option<(nat, nat, nat)> {
    if slot < r.last_update.slot {
        None
    } else if slot == r.last_update.slot {
        Some(
            (
                r.liquidity.cumulative_borrow_rate_wads@,
                r.liquidity.borrowed_amount_wads@,
                r.liquidity.accumulated_protocol_fees_wads@,
            ),
        )
    } else {
        match borrow_rate_of(r) {
            None => None,
            Some(rate) => compounded(
                r.liquidity,
                rate,
                (slot - r.last_update.slot) as nat,
                (r.config.protocol_take_rate as nat) * (PERCENT_SCALER as nat),
            ),
        }
    }
}

/// The reserve after a deposit of `l` liquidity tokens minted `c` collateral tokens.
pub open spec fn after_deposit(r: Reserve, l: nat, c: nat) -> Reserve {
    Reserve {
        liquidity: ReserveLiquidity {
            available_amount: (r.liquidity.available_amount + l) as u64,
            ..r.liquidity
        },
        collateral: ReserveCollateral {
            mint_total_supply: (r.collateral.mint_total_supply + c) as u64,
            ..r.collateral
        },
        ..r
    }
}

/// The reserve after `c` collateral tokens were redeemed for `l` liquidity tokens.
pub open spec fn after_redeem(r: Reserve, c: nat, l: nat) -> Reserve {
    Reserve {
        liquidity: ReserveLiquidity {
            available_amount: (r.liquidity.available_amount - l) as u64,
            ..r.liquidity
        },
        collateral: ReserveCollateral {
            mint_total_supply: (r.collateral.mint_total_supply - c) as u64,
            ..r.collateral
        },
        ..r
    }
}

impl Reserve {
    /// A new reserve made from `params`.
    pub fn new(params: InitReserveParams) -> (r: Reserve)
        ensures
            r.version == PROGRAM_VERSION,
            r.last_update == (LastUpdate { slot: params.current_slot, stale: true }),
            r.lending_market == params.lending_market,
            r.liquidity == params.liquidity,
            r.collateral == params.collateral,
            r.config == params.config,
            r.rate_limiter == (RateLimiter {
                config: params.rate_limiter_config,
                prev_qty: 0,
                window_start: params.current_slot,
                cur_qty: 0,
            }),
    {
        Reserve {
            version: PROGRAM_VERSION,
            last_update: LastUpdate::new(params.current_slot),
            lending_market: params.lending_market,
            liquidity: params.liquidity,
            collateral: params.collateral,
            config: params.config,
            rate_limiter: RateLimiter::new(params.rate_limiter_config, params.current_slot),
        }
    }

    /// Re-initialises the reserve from `params`.
    pub fn init(&mut self, params: InitReserveParams)
        ensures
            final(self).version == PROGRAM_VERSION,
            final(self).last_update == (LastUpdate { slot: params.current_slot, stale: true }),
            final(self).lending_market == params.lending_market,
            final(self).liquidity == params.liquidity,
            final(self).collateral == params.collateral,
            final(self).config == params.config,
            final(self).rate_limiter == (RateLimiter {
                config: params.rate_limiter_config,
                prev_qty: 0,
                window_start: params.current_slot,
                cur_qty: 0,
            }),
    {
        self.version = PROGRAM_VERSION;
        self.last_update = LastUpdate::new(params.current_slot);
        self.lending_market = params.lending_market;
        self.liquidity = params.liquidity;
        self.collateral = params.collateral;
        self.config = params.config;
        self.rate_limiter = RateLimiter::new(params.rate_limiter_config, params.current_slot);
    }

    /// Whether the record was ever initialised.
    pub fn is_initialized(&self) -> (r: bool)
        ensures
            r == (self.version != UNINITIALIZED_VERSION),
    {
        self.version != UNINITIALIZED_VERSION
    }

    /// The borrow weight: one plus the added weight. Never below one.
    pub fn borrow_weight(&self) -> (r: Decimal)
        ensures
            r@ == borrow_weight_of(self.config),
            r@ >= wad(),
    {
        proof {
            assert((self.config.added_borrow_weight_bps as nat) * (BPS_SCALER as nat) <= (
            u64::MAX as nat) * (BPS_SCALER as nat)) by (nonlinear_arith);
        }
        Decimal::from_scaled_val(
            WAD as u128 + self.config.added_borrow_weight_bps as u128 * BPS_SCALER as u128,
        )
    }

    /// The loan-to-value ratio as a rate.
    pub fn loan_to_value_ratio(&self) -> (r: Rate)
        ensures
            r@ == (self.config.loan_to_value_ratio as nat) * (PERCENT_SCALER as nat),
    {
        Rate::from_percent(self.config.loan_to_value_ratio)
    }

    fn decimals_scale(&self) -> (r: Result<Decimal, LendingError>)
        ensures
            match r {
                Ok(d) => pow10(self.liquidity.mint_decimals as nat) <= u128::MAX && d@ == pow10(
                    self.liquidity.mint_decimals as nat,
                ) * wad(),
                Err(e) => pow10(self.liquidity.mint_decimals as nat) > u128::MAX && e
                    == LendingError::MathOverflow,
            },
    {
        match checked_pow10(self.liquidity.mint_decimals as u32, u128::MAX) {
            Some(p) => Ok(Decimal::from_u128(p)),
            None => Err(LendingError::MathOverflow),
        }
    }

    /// Liquidity that `quote_amount` buys at the higher of the two prices.
    pub fn usd_to_liquidity_amount_lower_bound(&self, quote_amount: Decimal) -> (r: Result<
        Decimal,
        LendingError,
    >)
        ensures
            dec_result(r, liquidity_for_value(*self, quote_amount@)),
    {
        let scale = match self.decimals_scale() {
            Ok(s) => s,
            Err(e) => return Err(e),
        };
        match quote_amount.try_mul(scale) {
            Ok(x) => x.try_div(
                self.liquidity.smoothed_market_price.max(self.liquidity.market_price),
            ),
            Err(e) => Err(e),
        }
    }

    fn value_at_price(&self, price: Decimal, liquidity_amount: Decimal) -> (r: Result<
        Decimal,
        LendingError,
    >)
        ensures
            dec_result(
                r,
                value_at(price@, liquidity_amount@, self.liquidity.mint_decimals as nat),
            ),
    {
        let x = match price.try_mul(liquidity_amount) {
            Ok(x) => x,
            Err(e) => return Err(e),
        };
        match self.decimals_scale() {
            Ok(s) => x.try_div(s),
            Err(e) => Err(e),
        }
    }

    /// Value of `liquidity_amount` at the market price.
    pub fn market_value(&self, liquidity_amount: Decimal) -> (r: Result<Decimal, LendingError>)
        ensures
            dec_result(
                r,
                value_at(
                    self.liquidity.market_price@,
                    liquidity_amount@,
                    self.liquidity.mint_decimals as nat,
                ),
            ),
    {
        self.value_at_price(self.liquidity.market_price, liquidity_amount)
    }

    /// Value of `liquidity_amount` at the higher of the two prices.
    pub fn market_value_upper_bound(&self, liquidity_amount: Decimal) -> (r: Result<
        Decimal,
        LendingError,
    >)
        ensures
            dec_result(
                r,
                value_at(
                    nmax(self.liquidity.market_price@, self.liquidity.smoothed_market_price@),
                    liquidity_amount@,
                    self.liquidity.mint_decimals as nat,
                ),
            ),
    {
        self.value_at_price(
            self.liquidity.market_price.max(self.liquidity.smoothed_market_price),
            liquidity_amount,
        )
    }

    /// Value of `liquidity_amount` at the lower of the two prices.
    pub fn market_value_lower_bound(&self, liquidity_amount: Decimal) -> (r: Result<
        Decimal,
        LendingError,
    >)
        ensures
            dec_result(
                r,
                value_at(
                    nmin(self.liquidity.market_price@, self.liquidity.smoothed_market_price@),
                    liquidity_amount@,
                    self.liquidity.mint_decimals as nat,
                ),
            ),
    {
        self.value_at_price(
            self.liquidity.market_price.min(self.liquidity.smoothed_market_price),
            liquidity_amount,
        )
    }

    /// The current exchange rate between collateral and liquidity.
    pub fn collateral_exchange_rate(&self) -> (r: Result<CollateralExchangeRate, LendingError>)
        ensures
            match r {
                Ok(x) => exchange_rate_spec(*self) == Some(x.0@),
                Err(e) => exchange_rate_spec(*self) is None && e == LendingError::MathOverflow,
            },
    {
        match self.liquidity.total_supply() {
            Ok(t) => self.collateral.exchange_rate(t),
            Err(e) => Err(e),
        }
    }

    /// Takes a deposit of `liquidity_amount` and returns the collateral to mint.
    pub fn deposit_liquidity(&mut self, liquidity_amount: u64) -> (r: Result<u64, LendingError>)
        ensures
            match r {
                Ok(c) => collateral_for(*old(self), liquidity_amount as nat) == Some(c as nat)
                    && *final(self) == after_deposit(*old(self), liquidity_amount as nat, c as nat)
                    && old(self).liquidity.available_amount + liquidity_amount <= u64::MAX
                    && old(self).collateral.mint_total_supply + c <= u64::MAX,
                Err(e) => e == LendingError::MathOverflow && *final(self) == *old(self) && match
                collateral_for(*old(self), liquidity_amount as nat) {
                    None => true,
                    Some(c) => old(self).liquidity.available_amount + liquidity_amount > u64::MAX
                        || old(self).collateral.mint_total_supply + c > u64::MAX,
                },
            },
    {
        let rate = match self.collateral_exchange_rate() {
            Ok(x) => x,
            Err(e) => return Err(e),
        };
        let collateral_amount = match rate.liquidity_to_collateral(liquidity_amount) {
            Ok(c) => c,
            Err(e) => return Err(e),
        };
        if self.collateral.mint_total_supply > u64::MAX - collateral_amount {
            return Err(LendingError::MathOverflow);
        }
        match self.liquidity.deposit(liquidity_amount) {
            Ok(()) => {},
            Err(e) => return Err(e),
        }
        match self.collateral.mint(collateral_amount) {
            Ok(()) => {},
            Err(e) => return Err(e),
        }
        Ok(collateral_amount)
    }

    /// Redeems `collateral_amount` collateral and returns the liquidity to pay out.
    /// Liquidity short of the payout is reported before collateral short of
    /// the amount.
    pub fn redeem_collateral(&mut self, collateral_amount: u64) -> (r: Result<u64, LendingError>)
        ensures
            match r {
                Ok(l) => liquidity_for(*old(self), collateral_amount as nat) == Some(l as nat)
                    && collateral_amount <= old(self).collateral.mint_total_supply && l
                    <= old(self).liquidity.available_amount && *final(self) == after_redeem(
                    *old(self),
                    collateral_amount as nat,
                    l as nat,
                ),
                Err(e) => *final(self) == *old(self) && match liquidity_for(
                    *old(self),
                    collateral_amount as nat,
                ) {
                    None => e == LendingError::MathOverflow,
                    Some(l) => if l > old(self).liquidity.available_amount {
                        e == LendingError::InsufficientLiquidity
                    } else {
                        collateral_amount > old(self).collateral.mint_total_supply && e
                            == LendingError::MathOverflow
                    },
                },
            },
    {
        let rate = match self.collateral_exchange_rate() {
            Ok(x) => x,
            Err(e) => return Err(e),
        };
        let liquidity_amount = match rate.collateral_to_liquidity(collateral_amount) {
            Ok(l) => l,
            Err(e) => return Err(e),
        };
        if liquidity_amount > self.liquidity.available_amount {
            return Err(LendingError::InsufficientLiquidity);
        }
        if collateral_amount > self.collateral.mint_total_supply {
            return Err(LendingError::MathOverflow);
        }
        match self.collateral.burn(collateral_amount) {
            Ok(()) => {},
            Err(e) => return Err(e),
        }
        match self.liquidity.withdraw(liquidity_amount) {
            Ok(()) => {},
            Err(e) => return Err(e),
        }
        Ok(liquidity_amount)
    }

    /// The borrow rate a year at the current utilization.
    pub fn current_borrow_rate(&self) -> (r: Result<Rate, LendingError>)
        ensures
            rate_result(r, borrow_rate_of(*self)),
    {
        let utilization_rate = match self.liquidity.utilization_rate() {
            Ok(u) => u,
            Err(e) => return Err(e),
        };
        let optimal_utilization_rate = Rate::from_percent(self.config.optimal_utilization_rate);
        let max_utilization_rate = Rate::from_percent(self.config.max_utilization_rate);
        if utilization_rate.le(&optimal_utilization_rate) {
            let min_rate = Rate::from_percent(self.config.min_borrow_rate);
            if optimal_utilization_rate.eq(&Rate::zero()) {
                return Ok(min_rate);
            }
            if self.config.optimal_borrow_rate < self.config.min_borrow_rate {
                return Err(LendingError::MathOverflow);
            }
            let normalized_rate = match utilization_rate.try_div(optimal_utilization_rate) {
                Ok(x) => x,
                Err(e) => return Err(e),
            };
            let rate_range = Rate::from_percent(
                self.config.optimal_borrow_rate - self.config.min_borrow_rate,
            );
            match normalized_rate.try_mul(rate_range) {
                Ok(x) => x.try_add(min_rate),
                Err(e) => Err(e),
            }
        } else if utilization_rate.le(&max_utilization_rate) {
            let above = match utilization_rate.try_sub(optimal_utilization_rate) {
                Ok(x) => x,
                Err(e) => return Err(e),
            };
            let span = match max_utilization_rate.try_sub(optimal_utilization_rate) {
                Ok(x) => x,
                Err(e) => return Err(e),
            };
            let weight = match above.try_div(span) {
                Ok(x) => x,
                Err(e) => return Err(e),
            };
            let optimal_borrow_rate = Rate::from_percent(self.config.optimal_borrow_rate);
            let max_borrow_rate = Rate::from_percent(self.config.max_borrow_rate);
            let rate_range = match max_borrow_rate.try_sub(optimal_borrow_rate) {
                Ok(x) => x,
                Err(e) => return Err(e),
            };
            match weight.try_mul(rate_range) {
                Ok(x) => x.try_add(optimal_borrow_rate),
                Err(e) => Err(e),
            }
        } else {
            if self.config.max_utilization_rate > 100 {
                return Err(LendingError::MathOverflow);
            }
            let above = match utilization_rate.try_sub(max_utilization_rate) {
                Ok(x) => x,
                Err(e) => return Err(e),
            };
            let weight = match above.try_div(
                Rate::from_percent(100 - self.config.max_utilization_rate),
            ) {
                Ok(x) => Decimal::from_rate(x),
                Err(e) => return Err(e),
            };
            let max_borrow_rate = Rate::from_percent(self.config.max_borrow_rate);
            let super_max_borrow_rate = Rate::from_percent_u64(self.config.super_max_borrow_rate);
            let rate_range = match super_max_borrow_rate.try_sub(max_borrow_rate) {
                Ok(x) => Decimal::from_rate(x),
                Err(e) => return Err(e),
            };
            let x = match weight.try_mul(rate_range) {
                Ok(x) => x,
                Err(e) => return Err(e),
            };
            match x.try_add(Decimal::from_rate(max_borrow_rate)) {
                Ok(y) => Rate::try_from_decimal(y),
                Err(e) => Err(e),
            }
        }
    }

    /// Accrues interest from the last update up to `current_slot`.
    pub fn accrue_interest(&mut self, current_slot: u64) -> (r: Result<(), LendingError>)
        ensures
            match accrued_liquidity(*old(self), current_slot) {
                Some((cbr, borrowed, fees)) => r is Ok
                    && final(self).liquidity.cumulative_borrow_rate_wads@ == cbr
                    && final(self).liquidity.borrowed_amount_wads@ == borrowed
                    && final(self).liquidity.accumulated_protocol_fees_wads@ == fees
                    && final(self).liquidity == (ReserveLiquidity {
                    cumulative_borrow_rate_wads: final(self).liquidity.cumulative_borrow_rate_wads,
                    borrowed_amount_wads: final(self).liquidity.borrowed_amount_wads,
                    accumulated_protocol_fees_wads:
                        final(self).liquidity.accumulated_protocol_fees_wads,
                    ..old(self).liquidity
                }) && *final(self) == (Reserve { liquidity: final(self).liquidity, ..*old(self) }),
                None => r == Err::<(), LendingError>(LendingError::MathOverflow) && *final(self)
                    == *old(self),
            },
    {
        let slots_elapsed = match self.last_update.slots_elapsed(current_slot) {
            Ok(n) => n,
            Err(e) => return Err(e),
        };
        if slots_elapsed > 0 {
            let current_borrow_rate = match self.current_borrow_rate() {
                Ok(x) => x,
                Err(e) => return Err(e),
            };
            let take_rate = Rate::from_percent(self.config.protocol_take_rate);
            self.liquidity.compound_interest(current_borrow_rate, slots_elapsed, take_rate)
        } else {
            Ok(())
        }
    }
}

} // verus!

verus! {

// ---------------------------------------------------------------------------
// Borrow, repay and liquidation arithmetic

/// Outcome of a borrow request.
#[derive(Clone, Copy, Debug, PartialEq, Eq)]
pub struct CalculateBorrowResult {
    /// Amount added to the debt, fees included.
    pub borrow_amount: Decimal,
    /// Amount paid out to the borrower.
    pub receive_amount: u64,
    /// Origination fee.
    pub borrow_fee: u64,
    /// Host's share of the origination fee.
    pub host_fee: u64,
}

/// Outcome of a repay request.
#[derive(Clone, Copy, Debug, PartialEq, Eq)]
pub struct CalculateRepayResult {
    /// Amount of debt settled.
    pub settle_amount: Decimal,
    /// Tokens to repay: the settled amount rounded up.
    pub repay_amount: u64,
}

/// Outcome of a liquidation request.
#[derive(Clone, Copy, Debug, PartialEq, Eq)]
pub struct CalculateLiquidationResult {
    /// Amount of debt settled.
    pub settle_amount: Decimal,
    /// Tokens the liquidator repays.
    pub repay_amount: u64,
    /// Collateral tokens the liquidator receives.
    pub withdraw_amount: u64,
    /// One plus the liquidation bonus, protocol fee included.
    pub bonus_rate: Decimal,
}

/// (borrow amount, receive amount, borrow fee, host fee) of a borrow of
/// `amount` (all available value where `amount` is `u64::MAX`) against a
/// borrow value headroom of `max_borrow_value` and a reserve capacity of
/// `remaining`.
pub open spec fn borrow_of(r: Reserve, amount: u64, max_borrow_value: nat, remaining: nat) -> Result<
    (nat, nat, nat, nat),
    LendingError,
> {
    let decimals = r.liquidity.mint_decimals as nat;
    let fees = r.config.fees;
    let price = nmax(r.liquidity.market_price@, r.liquidity.smoothed_market_price@);
    if pow10(decimals) > u128::MAX {
        Err(LendingError::MathOverflow)
    } else if amount == u64::MAX {
        let scaled = max_borrow_value * pow10(decimals);
        if scaled >= b192() {
            Err(LendingError::MathOverflow)
        } else {
            match dec_div(scaled, price) {
                None => Err(LendingError::MathOverflow),
                Some(x) => match dec_div(x, borrow_weight_of(r.config)) {
                    None => Err(LendingError::MathOverflow),
                    Some(y) => {
                        let ba = nmin(
                            nmin(y, remaining),
                            (r.liquidity.available_amount as nat) * wad(),
                        );
                        match fees_of(
                            fees.host_fee_percentage as nat,
                            ba,
                            fees.borrow_fee_wad as nat,
                            true,
                        ) {
                            Err(e) => Err(e),
                            Ok((fee, host)) => match dec_floor(ba) {
                                None => Err(LendingError::MathOverflow),
                                Some(whole) => if whole >= fee {
                                    Ok((ba, (whole - fee) as nat, fee, host))
                                } else {
                                    Err(LendingError::MathOverflow)
                                },
                            },
                        }
                    },
                },
            }
        }
    } else {
        let requested = (amount as nat) * wad();
        match fees_of(fees.host_fee_percentage as nat, requested, fees.borrow_fee_wad as nat, false) {
            Err(e) => Err(e),
            Ok((fee, host)) => match dec_add(requested, fee * wad()) {
                None => Err(LendingError::MathOverflow),
                Some(ba) => match value_at(price, ba, decimals) {
                    None => Err(LendingError::MathOverflow),
                    Some(upper) => match dec_mul(upper, borrow_weight_of(r.config)) {
                        None => Err(LendingError::MathOverflow),
                        Some(value) => if value > max_borrow_value {
                            Err(LendingError::BorrowTooLarge)
                        } else {
                            Ok((ba, amount as nat, fee, host))
                        },
                    },
                },
            },
        }
    }
}

/// (settle amount, repay amount) of a repay of `amount` (all of the debt
/// where `amount` is `u64::MAX`) against a debt of `borrowed`.
pub open spec fn repay_of(amount: u64, borrowed: nat) -> Option<(nat, nat)> {
    let settle = if amount == u64::MAX {
        borrowed
    } else {
        nmin((amount as nat) * wad(), borrowed)
    };
    match dec_ceil(settle) {
        None => None,
        Some(repay) => Some((settle, repay)),
    }
}

/// The liquidation bonus: the configured bonus, rising towards the max bonus
/// as the borrowed value climbs from the unhealthy to the super-unhealthy
/// value, plus the protocol's fee, never above `MAX_BONUS_PCT`.
pub open spec fn bonus_of(c: ReserveConfig, borrowed: nat, unhealthy: nat, super_unhealthy: nat) -> Result<
    nat,
    LendingError,
> {
    let p = PERCENT_SCALER as nat;
    let lb = (c.liquidation_bonus as nat) * p;
    let mlb = (c.max_liquidation_bonus as nat) * p;
    let plf = (c.protocol_liquidation_fee as nat) * (DECA_BPS_SCALER as nat);
    let cap = (MAX_BONUS_PCT as nat) * p;
    if borrowed < unhealthy {
        Err(LendingError::ObligationHealthy)
    } else if unhealthy == super_unhealthy {
        match dec_add(lb, plf) {
            None => Err(LendingError::MathOverflow),
            Some(x) => Ok(nmin(x, cap)),
        }
    } else {
        match dec_sub(super_unhealthy, unhealthy) {
            None => Err(LendingError::MathOverflow),
            Some(span) => {
                let w = match dec_div((borrowed - unhealthy) as nat, span) {
                    Some(x) => nmin(x, wad()),
                    None => wad(),
                };
                match dec_sub(mlb, lb) {
                    None => Err(LendingError::MathOverflow),
                    Some(spread) => match dec_mul(w, spread) {
                        None => Err(LendingError::MathOverflow),
                        Some(ws) => match dec_add(lb, ws) {
                            None => Err(LendingError::MathOverflow),
                            Some(b) => match dec_add(b, plf) {
                                None => Err(LendingError::MathOverflow),
                                Some(bonus) => Ok(nmin(bonus, cap)),
                            },
                        },
                    },
                }
            },
        }
    }
}

/// (settle, repay, withdraw) of a liquidation worth `value` (bonus included)
/// that settles `amount` of the debt, against `collateral`: where the
/// collateral is worth less, the settled amount shrinks to match it and all
/// the collateral goes; otherwise the collateral's share `value /
/// collateral value` goes, and `withdraw_floor` is the least withdrawn.
pub open spec fn split_of(
    value: nat,
    amount: nat,
    collateral: ObligationCollateral,
    dust: bool,
) -> Result<(nat, nat, nat), LendingError> {
    let cv = collateral.market_value@;
    if value > cv {
        match dec_div(cv, value) {
            None => Err(LendingError::MathOverflow),
            Some(pct) => match dec_mul(amount, pct) {
                None => Err(LendingError::MathOverflow),
                Some(settle) => match dec_ceil(settle) {
                    None => Err(LendingError::MathOverflow),
                    Some(repay) => Ok((settle, repay, collateral.deposited_amount as nat)),
                },
            },
        }
    } else if value == cv {
        match dec_ceil(amount) {
            None => Err(LendingError::MathOverflow),
            Some(repay) => Ok((amount, repay, collateral.deposited_amount as nat)),
        }
    } else {
        match dec_div(value, cv) {
            None => Err(LendingError::MathOverflow),
            Some(pct) => match dec_ceil(amount) {
                None => Err(LendingError::MathOverflow),
                Some(repay) => if dust && repay == 0 {
                    Err(LendingError::LiquidationTooSmall)
                } else {
                    match dec_mul((collateral.deposited_amount as nat) * wad(), pct) {
                        None => Err(LendingError::MathOverflow),
                        Some(x) => match dec_floor(x) {
                            None => Err(LendingError::MathOverflow),
                            Some(w) => Ok(
                                (amount, repay, if dust && w < 1 {
                                    1
                                } else {
                                    w
                                }),
                            ),
                        },
                    }
                },
            },
        }
    }
}

/// (settle, repay, withdraw, bonus rate) of a liquidation of up to `amount`
/// of `liquidity` against `collateral`. A debt worth at most one unit of the
/// quote currency is liquidated whole; any other at most up to
/// `max_liquidation_amount_of`.
pub open spec fn liquidation_of(
    r: Reserve,
    amount: u64,
    obligation: Obligation,
    liquidity: ObligationLiquidity,
    collateral: ObligationCollateral,
) -> Result<(nat, nat, nat, nat), LendingError> {
    match bonus_of(
        r.config,
        obligation.borrowed_value@,
        obligation.unhealthy_borrow_value@,
        obligation.super_unhealthy_borrow_value@,
    ) {
        Err(e) => Err(e),
        Ok(bonus) => match dec_add(bonus, wad()) {
            None => Err(LendingError::MathOverflow),
            Some(bonus_rate) => {
                let borrowed = liquidity.borrowed_amount_wads@;
                let requested = if amount == u64::MAX {
                    borrowed
                } else {
                    nmin((amount as nat) * wad(), borrowed)
                };
                if liquidity.market_value@ <= wad() {
                    match dec_mul(liquidity.market_value@, bonus_rate) {
                        None => Err(LendingError::MathOverflow),
                        Some(value) => match split_of(value, borrowed, collateral, true) {
                            Err(e) => Err(e),
                            Ok((s, p, w)) => Ok((s, p, w, bonus_rate)),
                        },
                    }
                } else {
                    match max_liquidation_amount_of(obligation.borrowed_value@, liquidity) {
                        None => Err(LendingError::MathOverflow),
                        Some(most) => {
                            let settle = nmin(most, requested);
                            match dec_div(settle, borrowed) {
                                None => Err(LendingError::MathOverflow),
                                Some(pct) => match dec_mul(liquidity.market_value@, pct) {
                                    None => Err(LendingError::MathOverflow),
                                    Some(x) => match dec_mul(x, bonus_rate) {
                                        None => Err(LendingError::MathOverflow),
                                        Some(value) => match split_of(
                                            value,
                                            settle,
                                            collateral,
                                            false,
                                        ) {
                                            Err(e) => Err(e),
                                            Ok((s, p, w)) => Ok((s, p, w, bonus_rate)),
                                        },
                                    },
                                },
                            }
                        },
                    }
                }
            },
        },
    }
}

/// The protocol's cut of a liquidation of `amount` tokens at `bonus_rate`:
/// the fee rate applied to the amount without its bonus, at least one token.
pub open spec fn protocol_fee_of(c: ReserveConfig, amount: u64, bonus_rate: nat) -> Option<nat> {
    match dec_div((amount as nat) * wad(), bonus_rate) {
        None => None,
        Some(base) => match dec_mul(
            base,
            (c.protocol_liquidation_fee as nat) * (DECA_BPS_SCALER as nat),
        ) {
            None => None,
            Some(x) => match dec_ceil(x) {
                None => None,
                Some(fee) => Some(nmax(fee, 1)),
            },
        },
    }
}

impl Reserve {
    /// The borrow of `amount_to_borrow` tokens, or of as much as possible
    /// where it is `u64::MAX`, given a borrow value headroom of
    /// `max_borrow_value` and a reserve capacity of `remaining_reserve_borrow`.
    pub fn calculate_borrow(
        &self,
        amount_to_borrow: u64,
        max_borrow_value: Decimal,
        remaining_reserve_borrow: Decimal,
    ) -> (r: Result<CalculateBorrowResult, LendingError>)
        ensures
            match r {
                Ok(b) => borrow_of(
                    *self,
                    amount_to_borrow,
                    max_borrow_value@,
                    remaining_reserve_borrow@,
                ) == Ok::<(nat, nat, nat, nat), LendingError>(
                    (
                        b.borrow_amount@,
                        b.receive_amount as nat,
                        b.borrow_fee as nat,
                        b.host_fee as nat,
                    ),
                ),
                Err(e) => borrow_of(
                    *self,
                    amount_to_borrow,
                    max_borrow_value@,
                    remaining_reserve_borrow@,
                ) == Err::<(nat, nat, nat, nat), LendingError>(e),
            },
    {
        let decimals = match checked_pow10(self.liquidity.mint_decimals as u32, u128::MAX) {
            Some(d) => d,
            None => return Err(LendingError::MathOverflow),
        };
        let price = self.liquidity.market_price.max(self.liquidity.smoothed_market_price);
        if amount_to_borrow == u64::MAX {
            let scaled = match max_borrow_value.try_mul_u128(decimals) {
                Ok(x) => x,
                Err(e) => return Err(e),
            };
            let x = match scaled.try_div(price) {
                Ok(x) => x,
                Err(e) => return Err(e),
            };
            let y = match x.try_div(self.borrow_weight()) {
                Ok(y) => y,
                Err(e) => return Err(e),
            };
            let borrow_amount = y.min(remaining_reserve_borrow).min(
                Decimal::from_u64(self.liquidity.available_amount),
            );
            let (borrow_fee, host_fee) = match self.config.fees.calculate_borrow_fees(
                borrow_amount,
                FeeCalculation::Inclusive,
            ) {
                Ok(f) => f,
                Err(e) => return Err(e),
            };
            let whole = match borrow_amount.try_floor_u64() {
                Ok(w) => w,
                Err(e) => return Err(e),
            };
            if whole < borrow_fee {
                return Err(LendingError::MathOverflow);
            }
            Ok(
                CalculateBorrowResult {
                    borrow_amount,
                    receive_amount: whole - borrow_fee,
                    borrow_fee,
                    host_fee,
                },
            )
        } else {
            let receive_amount = amount_to_borrow;
            let requested = Decimal::from_u64(receive_amount);
            let (borrow_fee, host_fee) = match self.config.fees.calculate_borrow_fees(
                requested,
                FeeCalculation::Exclusive,
            ) {
                Ok(f) => f,
                Err(e) => return Err(e),
            };
            let borrow_amount = match requested.try_add(Decimal::from_u64(borrow_fee)) {
                Ok(b) => b,
                Err(e) => return Err(e),
            };
            let upper = match self.market_value_upper_bound(borrow_amount) {
                Ok(v) => v,
                Err(e) => return Err(e),
            };
            let borrow_value = match upper.try_mul(self.borrow_weight()) {
                Ok(v) => v,
                Err(e) => return Err(e),
            };
            if max_borrow_value.lt(&borrow_value) {
                return Err(LendingError::BorrowTooLarge);
            }
            Ok(CalculateBorrowResult { borrow_amount, receive_amount, borrow_fee, host_fee })
        }
    }

    /// The repay of `amount_to_repay` tokens, or of the whole debt where it is
    /// `u64::MAX`, against a debt of `borrowed_amount`.
    pub fn calculate_repay(&self, amount_to_repay: u64, borrowed_amount: Decimal) -> (r: Result<
        CalculateRepayResult,
        LendingError,
    >)
        ensures
            match r {
                Ok(x) => repay_of(amount_to_repay, borrowed_amount@) == Some(
                    (x.settle_amount@, x.repay_amount as nat),
                ),
                Err(e) => repay_of(amount_to_repay, borrowed_amount@) is None && e
                    == LendingError::MathOverflow,
            },
    {
        let settle_amount = if amount_to_repay == u64::MAX {
            borrowed_amount
        } else {
            Decimal::from_u64(amount_to_repay).min(borrowed_amount)
        };
        match settle_amount.try_ceil_u64() {
            Ok(repay_amount) => Ok(CalculateRepayResult { settle_amount, repay_amount }),
            Err(e) => Err(e),
        }
    }

    /// The liquidation bonus on `obligation`, protocol fee included.
    pub fn calculate_bonus(&self, obligation: &Obligation) -> (r: Result<Decimal, LendingError>)
        ensures
            match r {
                Ok(b) => bonus_of(
                    self.config,
                    obligation.borrowed_value@,
                    obligation.unhealthy_borrow_value@,
                    obligation.super_unhealthy_borrow_value@,
                ) == Ok::<nat, LendingError>(b@),
                Err(e) => bonus_of(
                    self.config,
                    obligation.borrowed_value@,
                    obligation.unhealthy_borrow_value@,
                    obligation.super_unhealthy_borrow_value@,
                ) == Err::<nat, LendingError>(e),
            },
    {
        if obligation.borrowed_value.lt(&obligation.unhealthy_borrow_value) {
            return Err(LendingError::ObligationHealthy);
        }
        let liquidation_bonus = Decimal::from_percent(self.config.liquidation_bonus);
        let max_liquidation_bonus = Decimal::from_percent(self.config.max_liquidation_bonus);
        let protocol_liquidation_fee = Decimal::from_deca_bps(self.config.protocol_liquidation_fee);
        let cap = Decimal::from_percent(MAX_BONUS_PCT);
        if obligation.unhealthy_borrow_value.eq(&obligation.super_unhealthy_borrow_value) {
            return match liquidation_bonus.try_add(protocol_liquidation_fee) {
                Ok(x) => Ok(x.min(cap)),
                Err(e) => Err(e),
            };
        }
        let above = match obligation.borrowed_value.try_sub(obligation.unhealthy_borrow_value) {
            Ok(x) => x,
            Err(e) => return Err(e),
        };
        let span = match obligation.super_unhealthy_borrow_value.try_sub(
            obligation.unhealthy_borrow_value,
        ) {
            Ok(x) => x,
            Err(e) => return Err(e),
        };
        // Where the span is so narrow that the division overflows, the weight is one.
        let weight = match above.try_div(span) {
            Ok(w) => w.min(Decimal::one()),
            Err(_) => Decimal::one(),
        };
        let spread = match max_liquidation_bonus.try_sub(liquidation_bonus) {
            Ok(x) => x,
            Err(e) => return Err(e),
        };
        let ws = match weight.try_mul(spread) {
            Ok(x) => x,
            Err(e) => return Err(e),
        };
        let b = match liquidation_bonus.try_add(ws) {
            Ok(x) => x,
            Err(e) => return Err(e),
        };
        match b.try_add(protocol_liquidation_fee) {
            Ok(bonus) => Ok(bonus.min(cap)),
            Err(e) => Err(e),
        }
    }

    fn split_liquidation(
        value: Decimal,
        amount: Decimal,
        collateral: &ObligationCollateral,
        dust: bool,
    ) -> (r: Result<(Decimal, u64, u64), LendingError>)
        ensures
            match r {
                Ok((s, p, w)) => split_of(value@, amount@, *collateral, dust) == Ok::<
                    (nat, nat, nat),
                    LendingError,
                >((s@, p as nat, w as nat)),
                Err(e) => split_of(value@, amount@, *collateral, dust) == Err::<
                    (nat, nat, nat),
                    LendingError,
                >(e),
            },
    {
        if collateral.market_value.lt(&value) {
            let pct = match collateral.market_value.try_div(value) {
                Ok(x) => x,
                Err(e) => return Err(e),
            };
            let settle = match amount.try_mul(pct) {
                Ok(x) => x,
                Err(e) => return Err(e),
            };
            match settle.try_ceil_u64() {
                Ok(repay) => Ok((settle, repay, collateral.deposited_amount)),
                Err(e) => Err(e),
            }
        } else if value.eq(&collateral.market_value) {
            match amount.try_ceil_u64() {
                Ok(repay) => Ok((amount, repay, collateral.deposited_amount)),
                Err(e) => Err(e),
            }
        } else {
            let pct = match value.try_div(collateral.market_value) {
                Ok(x) => x,
                Err(e) => return Err(e),
            };
            let repay = match amount.try_ceil_u64() {
                Ok(x) => x,
                Err(e) => return Err(e),
            };
            if dust && repay == 0 {
                return Err(LendingError::LiquidationTooSmall);
            }
            let x = match Decimal::from_u64(collateral.deposited_amount).try_mul(pct) {
                Ok(x) => x,
                Err(e) => return Err(e),
            };
            let w = match x.try_floor_u64() {
                Ok(w) => w,
                Err(e) => return Err(e),
            };
            // A dust debt leaves no dust collateral behind: at least one token goes.
            Ok(
                (amount, repay, if dust && w < 1 {
                    1
                } else {
                    w
                }),
            )
        }
    }

    /// The liquidation of up to `amount_to_liquidate` tokens of `liquidity`
    /// (all where it is `u64::MAX`) against `collateral` of `obligation`.
    pub fn calculate_liquidation(
        &self,
        amount_to_liquidate: u64,
        obligation: &Obligation,
        liquidity: &ObligationLiquidity,
        collateral: &ObligationCollateral,
    ) -> (r: Result<CalculateLiquidationResult, LendingError>)
        ensures
            match r {
                Ok(x) => liquidation_of(
                    *self,
                    amount_to_liquidate,
                    *obligation,
                    *liquidity,
                    *collateral,
                ) == Ok::<(nat, nat, nat, nat), LendingError>(
                    (
                        x.settle_amount@,
                        x.repay_amount as nat,
                        x.withdraw_amount as nat,
                        x.bonus_rate@,
                    ),
                ),
                Err(e) => liquidation_of(
                    *self,
                    amount_to_liquidate,
                    *obligation,
                    *liquidity,
                    *collateral,
                ) == Err::<(nat, nat, nat, nat), LendingError>(e),
            },
    {
        let bonus = match self.calculate_bonus(obligation) {
            Ok(b) => b,
            Err(e) => return Err(e),
        };
        let bonus_rate = match bonus.try_add(Decimal::one()) {
            Ok(b) => b,
            Err(e) => return Err(e),
        };
        let max_amount = if amount_to_liquidate == u64::MAX {
            liquidity.borrowed_amount_wads
        } else {
            Decimal::from_u64(amount_to_liquidate).min(liquidity.borrowed_amount_wads)
        };
        let parts = if liquidity.market_value.le(&Decimal::one()) {
            let value = match liquidity.market_value.try_mul(bonus_rate) {
                Ok(v) => v,
                Err(e) => return Err(e),
            };
            Reserve::split_liquidation(value, liquidity.borrowed_amount_wads, collateral, true)
        } else {
            let most = match obligation.max_liquidation_amount(liquidity) {
                Ok(m) => m,
                Err(e) => return Err(e),
            };
            let liquidation_amount = most.min(max_amount);
            let pct = match liquidation_amount.try_div(liquidity.borrowed_amount_wads) {
                Ok(p) => p,
                Err(e) => return Err(e),
            };
            let x = match liquidity.market_value.try_mul(pct) {
                Ok(x) => x,
                Err(e) => return Err(e),
            };
            let value = match x.try_mul(bonus_rate) {
                Ok(v) => v,
                Err(e) => return Err(e),
            };
            Reserve::split_liquidation(value, liquidation_amount, collateral, false)
        };
        match parts {
            Ok((settle_amount, repay_amount, withdraw_amount)) => Ok(
                CalculateLiquidationResult {
                    settle_amount,
                    repay_amount,
                    withdraw_amount,
                    bonus_rate,
                },
            ),
            Err(e) => Err(e),
        }
    }

    /// The protocol's cut of a liquidation of `amount_liquidated` tokens at
    /// `bonus_rate`: at least one token.
    pub fn calculate_protocol_liquidation_fee(
        &self,
        amount_liquidated: u64,
        bonus_rate: Decimal,
    ) -> (r: Result<u64, LendingError>)
        ensures
            u64_result(r, protocol_fee_of(self.config, amount_liquidated, bonus_rate@)),
    {
        let nonbonus_amount = match Decimal::from_u64(amount_liquidated).try_div(bonus_rate) {
            Ok(x) => x,
            Err(e) => return Err(e),
        };
        let x = match nonbonus_amount.try_mul(
            Decimal::from_deca_bps(self.config.protocol_liquidation_fee),
        ) {
            Ok(x) => x,
            Err(e) => return Err(e),
        };
        match x.try_ceil_u64() {
            Ok(fee) => Ok(if fee >= 1 {
                fee
            } else {
                1
            }),
            Err(e) => Err(e),
        }
    }

    /// The protocol fees that can be paid out now: all of them, as far as
    /// the available liquidity goes.
    pub fn calculate_redeem_fees(&self) -> (r: Result<u64, LendingError>)
        ensures
            u64_result(
                r,
                match dec_floor(self.liquidity.accumulated_protocol_fees_wads@) {
                    None => None,
                    Some(f) => Some(nmin(self.liquidity.available_amount as nat, f)),
                },
            ),
    {
        match self.liquidity.accumulated_protocol_fees_wads.try_floor_u64() {
            Ok(f) => Ok(if self.liquidity.available_amount <= f {
                self.liquidity.available_amount
            } else {
                f
            }),
            Err(e) => Err(e),
        }
    }
}

} // verus!

verus! {

// ---------------------------------------------------------------------------
// Laws

/// A deposit followed by the redemption of the collateral it minted leaves
/// every field of the reserve as it was, but the available liquidity, which
/// ends changed by the difference between what was deposited and what was
/// paid out.
pub proof fn lemma_deposit_redeem_round_trip(r: Reserve, l: nat, c: nat, paid: nat)
    requires
        r.liquidity.available_amount + l <= u64::MAX,
        r.collateral.mint_total_supply + c <= u64::MAX,
        paid <= r.liquidity.available_amount + l,
    ensures
        after_redeem(after_deposit(r, l, c), c, paid) == (Reserve {
            liquidity: ReserveLiquidity {
                available_amount: (r.liquidity.available_amount + l - paid) as u64,
                ..r.liquidity
            },
            ..r
        }),
{
    assert(after_redeem(after_deposit(r, l, c), c, paid).collateral == r.collateral);
}

/// On a reserve that holds nothing yet, a deposit of `l` tokens mints `l`
/// collateral tokens, and redeeming them right after pays exactly `l` back.
/// (Once collateral is worth more than one liquidity token, rounding the
/// minted amount down can lose more than one liquidity token.)
pub proof fn lemma_round_trip_on_empty_reserve(r: Reserve, l: u64)
    requires
        r.liquidity.available_amount == 0,
        r.liquidity.borrowed_amount_wads@ == 0,
        r.liquidity.accumulated_protocol_fees_wads@ == 0,
        r.collateral.mint_total_supply == 0,
        l > 0,
    ensures
        collateral_for(r, l as nat) == Some(l as nat),
        liquidity_for(after_deposit(r, l as nat, l as nat), l as nat) == Some(l as nat),
{
    let w = wad();
    assert(total_supply_of(r.liquidity) == Some(0nat));
    assert(exchange_rate_spec(r) == Some(w));
    let lw = (l as nat) * w;
    assert(lw <= 18_446_744_073_709_551_615 * w) by (nonlinear_arith)
        requires
            lw == (l as nat) * w,
            l <= u64::MAX,
    ;
    assert(lw * w <= 18_446_744_073_709_551_615 * w * w) by (nonlinear_arith)
        requires
            lw <= 18_446_744_073_709_551_615 * w,
    ;
    assert(crate::math::wide::b192() == 0x1_0000_0000_0000_0000int * 0x1_0000_0000_0000_0000int
        * 0x1_0000_0000_0000_0000int);
    assert(18_446_744_073_709_551_615 * w * w < crate::math::wide::b192());
    assert(lw * w / w == lw) by {
        vstd::arithmetic::div_mod::lemma_div_multiples_vanish(lw as int, w as int);
        vstd::arithmetic::mul::lemma_mul_is_commutative(lw as int, w as int);
    }
    assert(lw / w == l) by {
        vstd::arithmetic::div_mod::lemma_div_multiples_vanish(l as int, w as int);
        vstd::arithmetic::mul::lemma_mul_is_commutative(l as int, w as int);
    }
    let r1 = after_deposit(r, l as nat, l as nat);
    assert(total_supply_of(r1.liquidity) == Some(lw));
    assert(w * lw / lw == w) by {
        vstd::arithmetic::div_mod::lemma_div_multiples_vanish(w as int, lw as int);
        vstd::arithmetic::mul::lemma_mul_is_commutative(w as int, lw as int);
    }
    assert(exchange_rate_spec(r1) == Some(w));
    assert(w * lw / w == lw) by {
        vstd::arithmetic::div_mod::lemma_div_multiples_vanish(lw as int, w as int);
        vstd::arithmetic::mul::lemma_mul_is_commutative(lw as int, w as int);
    }
}

proof fn lemma_ratio_le_one(a: nat, b: nat)
    requires
        0 < b,
        a <= b,
    ensures
        wad() * a / b <= wad(),
        a == b ==> wad() * a / b == wad(),
{
    assert(wad() * a <= wad() * b) by (nonlinear_arith)
        requires
            a <= b,
    ;
    vstd::arithmetic::div_mod::lemma_div_is_ordered((wad() * a) as int, (wad() * b) as int, b as int);
    vstd::arithmetic::div_mod::lemma_div_multiples_vanish(wad() as int, b as int);
    vstd::arithmetic::mul::lemma_mul_is_commutative(wad() as int, b as int);
}

proof fn lemma_scale_le(w: nat, x: nat)
    requires
        w <= wad(),
    ensures
        w * x / wad() <= x,
        w == wad() ==> w * x / wad() == x,
{
    assert(w * x <= wad() * x) by (nonlinear_arith)
        requires
            w <= wad(),
    ;
    vstd::arithmetic::div_mod::lemma_div_is_ordered((w * x) as int, (wad() * x) as int, wad() as int);
    vstd::arithmetic::div_mod::lemma_div_multiples_vanish(x as int, wad() as int);
}

proof fn lemma_scale_ge(w: nat, x: nat)
    requires
        w >= wad(),
    ensures
        w * x / wad() >= x,
{
    assert(w * x >= wad() * x) by (nonlinear_arith)
        requires
            w >= wad(),
    ;
    vstd::arithmetic::div_mod::lemma_div_is_ordered((wad() * x) as int, (w * x) as int, wad() as int);
    vstd::arithmetic::div_mod::lemma_div_multiples_vanish(x as int, wad() as int);
}

/// Utilization does not exceed one while the protocol's fees do not exceed
/// the available liquidity (beyond that, the total supply falls below the
/// borrowed amount and utilization passes one).
pub proof fn lemma_utilization_at_most_one(l: ReserveLiquidity)
    requires
        l.accumulated_protocol_fees_wads@ <= (l.available_amount as nat) * wad(),
    ensures
        utilization_of(l) matches Some(u) ==> u <= wad(),
{
    if let Some(t) = total_supply_of(l) {
        if !(t == 0 || l.borrowed_amount_wads@ == 0) {
            lemma_ratio_le_one(l.borrowed_amount_wads@, t);
        }
    }
}

/// Accruing interest never lowers the cumulative borrow rate.
pub proof fn lemma_accrue_interest_monotone(r: Reserve, slot: u64)
    ensures
        accrued_liquidity(r, slot) matches Some((cbr, _, _)) ==> cbr
            >= r.liquidity.cumulative_borrow_rate_wads@,
{
    if slot > r.last_update.slot {
        if let Some(rate) = borrow_rate_of(r) {
            if let Some(growth) = rate_add(wad(), rate / (SLOTS_PER_YEAR as nat)) {
                let slots = (slot - r.last_update.slot) as nat;
                let acc = if slots % 2 != 0 {
                    growth
                } else {
                    wad()
                };
                crate::math::rate::lemma_pow_steps_grows(growth, acc, slots);
                if let Some(factor) = rate_pow(growth, slots) {
                    lemma_scale_ge(factor, r.liquidity.cumulative_borrow_rate_wads@);
                    vstd::arithmetic::mul::lemma_mul_is_commutative(
                        factor as int,
                        r.liquidity.cumulative_borrow_rate_wads@ as int,
                    );
                }
            }
        }
    }
}

/// The protocol's fees are covered by what the reserve holds and lends:
/// total supply is not negative.
pub open spec fn solvent(l: ReserveLiquidity) -> bool {
    l.accumulated_protocol_fees_wads@ <= (l.available_amount as nat) * wad()
        + l.borrowed_amount_wads@
}

/// A solvent reserve stays solvent when interest accrues, as long as the
/// protocol takes at most all of the new interest.
pub proof fn lemma_accrue_interest_solvent(r: Reserve, slot: u64)
    requires
        solvent(r.liquidity),
        r.config.protocol_take_rate <= 100,
    ensures
        accrued_liquidity(r, slot) matches Some((_, borrowed, fees)) ==> fees <= (
        r.liquidity.available_amount as nat) * wad() + borrowed,
{
    if slot > r.last_update.slot {
        if let Some(rate) = borrow_rate_of(r) {
            let l = r.liquidity;
            let take = (r.config.protocol_take_rate as nat) * (PERCENT_SCALER as nat);
            if let Some(growth) = rate_add(wad(), rate / (SLOTS_PER_YEAR as nat)) {
                if let Some(factor) = rate_pow(growth, (slot - r.last_update.slot) as nat) {
                    if let Some(grown) = dec_mul(l.borrowed_amount_wads@, factor) {
                        if let Some(new_debt) = dec_sub(grown, l.borrowed_amount_wads@) {
                            lemma_scale_le(take, new_debt);
                            vstd::arithmetic::mul::lemma_mul_is_commutative(
                                new_debt as int,
                                take as int,
                            );
                        }
                    }
                }
            }
        }
    }
}

/// Deposits keep a reserve solvent.
pub proof fn lemma_deposit_solvent(l: ReserveLiquidity, amount: u64)
    requires
        solvent(l),
    ensures
        l.accumulated_protocol_fees_wads@ <= ((l.available_amount + amount) as nat) * wad()
            + l.borrowed_amount_wads@,
{
    assert(((l.available_amount + amount) as nat) * wad() >= (l.available_amount as nat) * wad())
        by (nonlinear_arith);
}

/// Borrowing keeps a reserve solvent: the whole amount is added to the debt
/// and only its integer part leaves.
pub proof fn lemma_borrow_solvent(l: ReserveLiquidity, amount: nat, borrowed: nat, whole: nat)
    requires
        solvent(l),
        dec_floor(amount) == Some(whole),
        whole <= l.available_amount,
        dec_add(l.borrowed_amount_wads@, amount) == Some(borrowed),
    ensures
        l.accumulated_protocol_fees_wads@ <= ((l.available_amount - whole) as nat) * wad()
            + borrowed,
{
    vstd::arithmetic::div_mod::lemma_fundamental_div_mod(amount as int, wad() as int);
    assert(((l.available_amount - whole) as nat) * wad() == (l.available_amount as nat) * wad()
        - whole * wad()) by (nonlinear_arith)
        requires
            whole <= l.available_amount,
    ;
    vstd::arithmetic::mul::lemma_mul_is_commutative(whole as int, wad() as int);
}

/// Repaying keeps a reserve solvent: no more is settled than is repaid.
pub proof fn lemma_repay_solvent(l: ReserveLiquidity, repay: u64, settle: nat)
    requires
        solvent(l),
        settle <= (repay as nat) * wad(),
    ensures
        l.accumulated_protocol_fees_wads@ <= ((l.available_amount + repay) as nat) * wad() + (
        l.borrowed_amount_wads@ - nmin(settle, l.borrowed_amount_wads@)),
{
    assert(((l.available_amount + repay) as nat) * wad() == (l.available_amount as nat) * wad() + (
    repay as nat) * wad()) by (nonlinear_arith);
}

/// Paying out protocol fees keeps a reserve solvent.
pub proof fn lemma_redeem_fees_solvent(l: ReserveLiquidity, amount: u64)
    requires
        solvent(l),
        amount <= l.available_amount,
        (amount as nat) * wad() <= l.accumulated_protocol_fees_wads@,
    ensures
        (l.accumulated_protocol_fees_wads@ - (amount as nat) * wad()) <= ((l.available_amount
            - amount) as nat) * wad() + l.borrowed_amount_wads@,
{
    assert(((l.available_amount - amount) as nat) * wad() == (l.available_amount as nat) * wad() - (
    amount as nat) * wad()) by (nonlinear_arith)
        requires
            amount <= l.available_amount,
    ;
}

/// Forgiving debt keeps a reserve solvent as long as the forgiven amount
/// does not exceed the total supply.
pub proof fn lemma_forgive_debt_solvent(l: ReserveLiquidity, amount: nat)
    requires
        solvent(l),
        total_supply_of(l) matches Some(t) && amount <= t,
        amount <= l.borrowed_amount_wads@,
    ensures
        l.accumulated_protocol_fees_wads@ <= (l.available_amount as nat) * wad() + (
        l.borrowed_amount_wads@ - amount),
{
}

/// Under a valid configuration, and while the protocol's fees do not exceed
/// the available liquidity, the borrow rate lies between the min and the
/// super max rate, and at each knee of the curve it is that knee's rate.
pub proof fn lemma_borrow_rate_bounds(r: Reserve)
    requires
        config_valid(r.config),
        r.liquidity.accumulated_protocol_fees_wads@ <= (r.liquidity.available_amount as nat) * wad(),
    ensures
        borrow_rate_of(r) matches Some(x) ==> (r.config.min_borrow_rate as nat) * (
        PERCENT_SCALER as nat) <= x <= (r.config.super_max_borrow_rate as nat) * (
        PERCENT_SCALER as nat),
        utilization_of(r.liquidity) matches Some(u) ==> {
            let p = PERCENT_SCALER as nat;
            let c = r.config;
            &&& (u == 0 ==> borrow_rate_of(r) == Some((c.min_borrow_rate as nat) * p))
            &&& (u == (c.optimal_utilization_rate as nat) * p && c.optimal_utilization_rate > 0
                ==> borrow_rate_of(r) == Some((c.optimal_borrow_rate as nat) * p))
            &&& (u == (c.max_utilization_rate as nat) * p && c.max_utilization_rate
                > c.optimal_utilization_rate ==> borrow_rate_of(r) == Some(
                (c.max_borrow_rate as nat) * p,
            ))
        },
{
    let c = r.config;
    let p = PERCENT_SCALER as nat;
    lemma_utilization_at_most_one(r.liquidity);
    if let Some(u) = utilization_of(r.liquidity) {
        let opt_u = (c.optimal_utilization_rate as nat) * p;
        let max_u = (c.max_utilization_rate as nat) * p;
        let min_rate = (c.min_borrow_rate as nat) * p;
        let opt_rate = (c.optimal_borrow_rate as nat) * p;
        let max_rate = (c.max_borrow_rate as nat) * p;
        let super_rate = (c.super_max_borrow_rate as nat) * p;
        assert(min_rate <= opt_rate && opt_rate <= max_rate && max_rate <= super_rate
            && opt_u <= max_u) by (nonlinear_arith)
            requires
                c.min_borrow_rate <= c.optimal_borrow_rate,
                c.optimal_borrow_rate <= c.max_borrow_rate,
                c.max_borrow_rate <= c.super_max_borrow_rate,
                c.optimal_utilization_rate <= c.max_utilization_rate,
                min_rate == c.min_borrow_rate * p,
                opt_rate == c.optimal_borrow_rate * p,
                max_rate == c.max_borrow_rate * p,
                super_rate == c.super_max_borrow_rate * p,
                opt_u == c.optimal_utilization_rate * p,
                max_u == c.max_utilization_rate * p,
        ;
        if u <= opt_u {
            if opt_u > 0 {
                lemma_ratio_le_one(u, opt_u);
                let norm = wad() * u / opt_u;
                let range = ((c.optimal_borrow_rate - c.min_borrow_rate) as nat) * p;
                assert(range == opt_rate - min_rate) by (nonlinear_arith)
                    requires
                        range == (c.optimal_borrow_rate - c.min_borrow_rate) * p,
                        opt_rate == c.optimal_borrow_rate * p,
                        min_rate == c.min_borrow_rate * p,
                ;
                lemma_scale_le(norm, range);
                assert(wad() * u <= u128::MAX) by (nonlinear_arith)
                    requires
                        u <= wad(),
                ;
                assert(norm * range <= u128::MAX) by (nonlinear_arith)
                    requires
                        norm <= wad(),
                        range <= 255 * 10_000_000_000_000_000,
                ;
                if u == 0 {
                    assert(wad() * u / opt_u == 0);
                    assert(norm * range == 0) by (nonlinear_arith)
                        requires
                            norm == 0,
                    ;
                    assert(norm * range / wad() == 0);
                }
            }
        } else if u <= max_u {
            lemma_ratio_le_one((u - opt_u) as nat, (max_u - opt_u) as nat);
            let w = wad() * ((u - opt_u) as nat) / ((max_u - opt_u) as nat);
            lemma_scale_le(w, (max_rate - opt_rate) as nat);
            let a = (u - opt_u) as nat;
            let range = (max_rate - opt_rate) as nat;
            assert(a <= wad());
            assert(range <= 255 * 10_000_000_000_000_000) by (nonlinear_arith)
                requires
                    range <= max_rate,
                    max_rate == c.max_borrow_rate * p,
                    c.max_borrow_rate <= 255,
                    p == 10_000_000_000_000_000,
            ;
            assert(wad() * a <= u128::MAX) by (nonlinear_arith)
                requires
                    a <= wad(),
            ;
            assert(w * range <= u128::MAX) by (nonlinear_arith)
                requires
                    w <= wad(),
                    range <= 255 * 10_000_000_000_000_000,
            ;
        } else if c.max_utilization_rate <= 100 {
            let den = ((100 - c.max_utilization_rate) as nat) * p;
            assert(u - max_u <= den) by (nonlinear_arith)
                requires
                    u <= wad(),
                    wad() == 100 * p,
                    max_u == c.max_utilization_rate * p,
                    den == (100 - c.max_utilization_rate) * p,
            ;
            if den > 0 {
                lemma_ratio_le_one((u - max_u) as nat, den);
                let w = wad() * ((u - max_u) as nat) / den;
                lemma_scale_le(w, (super_rate - max_rate) as nat);
            }
        }
    }
}

/// Under a valid configuration, the liquidation bonus on an unhealthy
/// obligation is at least the configured bonus plus the protocol fee, and
/// never above `MAX_BONUS_PCT`.
pub proof fn lemma_bonus_bounds(
    c: ReserveConfig,
    borrowed: nat,
    unhealthy: nat,
    super_unhealthy: nat,
)
    requires
        config_valid(c),
        borrowed >= unhealthy,
        super_unhealthy >= unhealthy,
        borrowed < b192(),
        super_unhealthy < b192(),
    ensures
        bonus_of(c, borrowed, unhealthy, super_unhealthy) matches Ok(b) && (
        c.liquidation_bonus as nat) * (PERCENT_SCALER as nat) + (c.protocol_liquidation_fee as nat)
            * (DECA_BPS_SCALER as nat) <= b <= (MAX_BONUS_PCT as nat) * (PERCENT_SCALER as nat),
{
    let p = PERCENT_SCALER as nat;
    let lb = (c.liquidation_bonus as nat) * p;
    let mlb = (c.max_liquidation_bonus as nat) * p;
    let plf = (c.protocol_liquidation_fee as nat) * (DECA_BPS_SCALER as nat);
    let cap = (MAX_BONUS_PCT as nat) * p;
    crate::math::wide::lemma_pow2_128_192();
    assert(lb <= mlb && mlb + plf <= cap && mlb <= wad()) by (nonlinear_arith)
        requires
            c.liquidation_bonus <= c.max_liquidation_bonus,
            c.max_liquidation_bonus <= 100,
            c.max_liquidation_bonus * 100 + c.protocol_liquidation_fee * 10 <= 2500,
            lb == c.liquidation_bonus * p,
            mlb == c.max_liquidation_bonus * p,
            plf == c.protocol_liquidation_fee * 1_000_000_000_000_000,
            cap == 25 * p,
            p == 10_000_000_000_000_000,
    ;
    assert(b192() > 1_000_000_000_000_000_000_000_000_000_000_000_000_000) by {
        assert(crate::math::wide::b64() == 0x1_0000_0000_0000_0000);
    }
    if unhealthy != super_unhealthy {
        let span = (super_unhealthy - unhealthy) as nat;
        let w = match dec_div((borrowed - unhealthy) as nat, span) {
            Some(x) => nmin(x, wad()),
            None => wad(),
        };
        let spread = (mlb - lb) as nat;
        assert(w * spread <= wad() * wad()) by (nonlinear_arith)
            requires
                w <= wad(),
                spread <= wad(),
        ;
        lemma_scale_le(w, spread);
    }
}

/// The fees on a borrow of `amount` whole tokens: the total fee is at most
/// the amount, the host's share at most the total, and where both a fee and
/// a host share are configured the host gets at least one token.
pub proof fn lemma_borrow_fees_sane(host_pct: u8, amount: u64, fee_wad: u64, inclusive: bool)
    requires
        host_pct <= 100,
    ensures
        fees_of(host_pct as nat, (amount as nat) * wad(), fee_wad as nat, inclusive) matches Ok(
            (total, host),
        ) ==> total <= amount && host <= total && (host_pct > 0 && fee_wad > 0 && amount > 0
            ==> host >= 1),
{
    let a = (amount as nat) * wad();
    let p = PERCENT_SCALER as nat;
    if fee_wad > 0 && a > 0 {
        if let Some(f) = raw_fee(a, fee_wad as nat, inclusive) {
            let minimum: nat = if host_pct > 0 {
                2
            } else {
                1
            };
            let fee = if f >= minimum * wad() {
                f
            } else {
                minimum * wad()
            };
            if fee < a {
                let up = (fee + wad() - 1) as nat;
                vstd::arithmetic::div_mod::lemma_div_is_ordered(
                    up as int,
                    ((amount as nat) * wad() + (wad() - 1)) as int,
                    wad() as int,
                );
                vstd::arithmetic::div_mod::lemma_fundamental_div_mod_converse(
                    ((amount as nat) * wad() + (wad() - 1)) as int,
                    wad() as int,
                    amount as int,
                    (wad() - 1) as int,
                );
                if host_pct > 0 {
                    let total = up / wad();
                    let hp = (host_pct as nat) * p;
                    let half = wad() / 2;
                    vstd::arithmetic::div_mod::lemma_div_is_ordered(
                        (2 * wad()) as int,
                        up as int,
                        wad() as int,
                    );
                    vstd::arithmetic::div_mod::lemma_div_multiples_vanish(2, wad() as int);
                    assert(total * wad() * hp == (total * hp) * wad()) by (nonlinear_arith);
                    vstd::arithmetic::div_mod::lemma_div_multiples_vanish(
                        (total * hp) as int,
                        wad() as int,
                    );
                    assert(total * hp <= total * wad()) by (nonlinear_arith)
                        requires
                            hp <= wad(),
                    ;
                    vstd::arithmetic::div_mod::lemma_div_is_ordered(
                        (total * hp + half) as int,
                        (total * wad() + half) as int,
                        wad() as int,
                    );
                    vstd::arithmetic::div_mod::lemma_fundamental_div_mod_converse(
                        (total * wad() + half) as int,
                        wad() as int,
                        total as int,
                        half as int,
                    );
                }
            }
        }
    }
}

} // verus!
