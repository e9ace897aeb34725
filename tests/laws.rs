use solend_sdk::error::LendingError;
use solend_sdk::math::decimal::Decimal;
use solend_sdk::math::rate::Rate;
use solend_sdk::pubkey::Pubkey;
use solend_sdk::state::obligation::{Obligation, ObligationCollateral, ObligationLiquidity};
use solend_sdk::state::rate_limiter::{RateLimiter, RateLimiterConfig};
use solend_sdk::state::reserve::{
    FeeCalculation, Reserve, ReserveCollateral, ReserveConfig, ReserveFees, ReserveLiquidity,
    ReserveType,
};

fn key(b: u8) -> Pubkey {
    Pubkey::new_from_array([b; 32])
}

fn curve_reserve(available: u64, borrowed: u64) -> Reserve {
    Reserve {
        liquidity: ReserveLiquidity {
            available_amount: available,
            borrowed_amount_wads: Decimal::from_u64(borrowed),
            cumulative_borrow_rate_wads: Decimal::one(),
            ..ReserveLiquidity::default()
        },
        config: ReserveConfig {
            optimal_utilization_rate: 80,
            max_utilization_rate: 90,
            min_borrow_rate: 2,
            optimal_borrow_rate: 10,
            max_borrow_rate: 30,
            super_max_borrow_rate: 150,
            protocol_take_rate: 10,
            ..ReserveConfig::default()
        },
        ..Reserve::default()
    }
}

#[test]
fn round_trip_deposit_then_redeem() {
    let mut reserve = Reserve {
        liquidity: ReserveLiquidity {
            available_amount: 1_000,
            borrowed_amount_wads: Decimal::from_u64(3_000),
            ..ReserveLiquidity::default()
        },
        collateral: ReserveCollateral { mint_total_supply: 3_000, ..ReserveCollateral::default() },
        ..Reserve::default()
    };
    let before = reserve;
    let minted = reserve.deposit_liquidity(400).unwrap();
    assert_eq!(minted, 300);
    let paid = reserve.redeem_collateral(minted).unwrap();
    assert!(paid <= 400 && 400 - paid <= 1);
    assert_eq!(reserve.collateral, before.collateral);
    assert_eq!(
        reserve.liquidity,
        ReserveLiquidity { available_amount: before.liquidity.available_amount + 400 - paid, ..before.liquidity }
    );
}

#[test]
fn redeem_more_than_available_fails() {
    let mut reserve = Reserve {
        liquidity: ReserveLiquidity {
            available_amount: 10,
            borrowed_amount_wads: Decimal::from_u64(90),
            ..ReserveLiquidity::default()
        },
        collateral: ReserveCollateral { mint_total_supply: 100, ..ReserveCollateral::default() },
        ..Reserve::default()
    };
    let before = reserve;
    assert_eq!(reserve.redeem_collateral(50), Err(LendingError::InsufficientLiquidity));
    assert_eq!(reserve, before);
}

#[test]
fn accrue_interest_raises_cumulative_rate() {
    let mut reserve = curve_reserve(500, 500);
    let before = reserve.liquidity.cumulative_borrow_rate_wads;
    reserve.accrue_interest(1_000_000).unwrap();
    assert!(before.lt(&reserve.liquidity.cumulative_borrow_rate_wads));
    assert!(Decimal::from_u64(500).lt(&reserve.liquidity.borrowed_amount_wads));
    // the protocol took its share of the new debt
    assert!(!reserve.liquidity.accumulated_protocol_fees_wads.is_zero());
    assert!(reserve.liquidity.total_supply().is_ok());
}

#[test]
fn accrue_interest_in_same_slot_changes_nothing() {
    let mut reserve = curve_reserve(500, 500);
    let before = reserve;
    reserve.accrue_interest(0).unwrap();
    assert_eq!(reserve, before);
}

#[test]
fn accrue_interest_before_last_update_fails() {
    let mut reserve = curve_reserve(500, 500);
    reserve.last_update.slot = 10;
    assert_eq!(reserve.accrue_interest(9), Err(LendingError::MathOverflow));
}

#[test]
fn total_supply_after_borrow_stays_positive() {
    let mut liquidity = ReserveLiquidity {
        available_amount: 100,
        accumulated_protocol_fees_wads: Decimal::from_u64(5),
        ..ReserveLiquidity::default()
    };
    liquidity.borrow(Decimal::from_scaled_val(40_500_000_000_000_000_000)).unwrap();
    assert_eq!(liquidity.available_amount, 60);
    assert_eq!(liquidity.total_supply().unwrap(), Decimal::from_scaled_val(95_500_000_000_000_000_000));
}

#[test]
fn borrow_more_than_available_fails() {
    let mut liquidity = ReserveLiquidity { available_amount: 100, ..ReserveLiquidity::default() };
    assert_eq!(liquidity.borrow(Decimal::from_u64(101)), Err(LendingError::InsufficientLiquidity));
}

#[test]
fn utilization_at_most_one() {
    let reserve = curve_reserve(0, 1_000);
    assert_eq!(reserve.liquidity.utilization_rate().unwrap(), Rate::one());
    let reserve = curve_reserve(750, 250);
    assert_eq!(reserve.liquidity.utilization_rate().unwrap(), Rate::from_percent(25));
    let reserve = curve_reserve(750, 0);
    assert_eq!(reserve.liquidity.utilization_rate().unwrap(), Rate::zero());
}

#[test]
fn borrow_rate_at_knees() {
    assert_eq!(curve_reserve(100, 0).current_borrow_rate().unwrap(), Rate::from_percent(2));
    assert_eq!(curve_reserve(20, 80).current_borrow_rate().unwrap(), Rate::from_percent(10));
    assert_eq!(curve_reserve(10, 90).current_borrow_rate().unwrap(), Rate::from_percent(30));
    assert_eq!(curve_reserve(0, 100).current_borrow_rate().unwrap(), Rate::from_percent(150));
}

#[test]
fn borrow_rate_between_knees() {
    // halfway between the optimal and the max utilization
    assert_eq!(curve_reserve(15, 85).current_borrow_rate().unwrap(), Rate::from_percent(20));
    // halfway up to optimal utilization
    assert_eq!(curve_reserve(60, 40).current_borrow_rate().unwrap(), Rate::from_percent(6));
}

#[test]
fn bonus_between_bonus_plus_fee_and_cap() {
    let reserve = Reserve {
        config: ReserveConfig {
            liquidation_bonus: 5,
            max_liquidation_bonus: 10,
            protocol_liquidation_fee: 20,
            ..ReserveConfig::default()
        },
        ..Reserve::default()
    };
    let obligation = Obligation {
        borrowed_value: Decimal::from_u64(75),
        unhealthy_borrow_value: Decimal::from_u64(50),
        super_unhealthy_borrow_value: Decimal::from_u64(100),
        ..Obligation::default()
    };
    // 5% + 0.5 * 5% + 2%
    assert_eq!(reserve.calculate_bonus(&obligation).unwrap(), Decimal::from_bps(950));
}

#[test]
fn fees_never_exceed_amount() {
    let fees = ReserveFees { borrow_fee_wad: 999_999_999_999_999_999, flash_loan_fee_wad: 0, host_fee_percentage: 100 };
    let (total, host) = fees.calculate_borrow_fees(Decimal::from_u64(1_000), FeeCalculation::Exclusive).unwrap();
    assert!(total <= 1_000);
    assert_eq!(host, total);
    let fees = ReserveFees { borrow_fee_wad: 1, flash_loan_fee_wad: 0, host_fee_percentage: 1 };
    let (total, host) = fees.calculate_borrow_fees(Decimal::from_u64(1_000), FeeCalculation::Exclusive).unwrap();
    assert_eq!((total, host), (2, 1));
}

#[test]
fn inclusive_fee_comes_out_of_the_amount() {
    let fees = ReserveFees { borrow_fee_wad: 10_000_000_000_000_000, flash_loan_fee_wad: 0, host_fee_percentage: 0 };
    // 1% / 101% of 10100
    let (total, host) = fees.calculate_borrow_fees(Decimal::from_u64(10_100), FeeCalculation::Inclusive).unwrap();
    assert_eq!((total, host), (100, 0));
}

#[test]
fn flash_loan_fees_split() {
    let fees = ReserveFees { borrow_fee_wad: 0, flash_loan_fee_wad: 3_000_000_000_000_000, host_fee_percentage: 20 };
    let (origination, host) = fees.calculate_flash_loan_fees(Decimal::from_u64(10_000)).unwrap();
    assert_eq!((origination, host), (24, 6));
}

#[test]
fn isolated_borrow_stays_alone() {
    let mut obligation = Obligation::default();
    assert!(obligation.check_borrow_tier(&key(9), ReserveType::Isolated).is_ok());
    obligation.borrows.push(ObligationLiquidity { borrow_reserve: key(1), ..ObligationLiquidity::default() });
    assert_eq!(
        obligation.check_borrow_tier(&key(9), ReserveType::Isolated),
        Err(LendingError::IsolatedTierAssetViolation)
    );
    assert!(obligation.check_borrow_tier(&key(1), ReserveType::Isolated).is_ok());
    obligation.borrowing_isolated_asset = true;
    assert_eq!(
        obligation.check_borrow_tier(&key(2), ReserveType::Regular),
        Err(LendingError::IsolatedTierAssetViolation)
    );
}

#[test]
fn normalize_orders_and_prunes() {
    let borrow = |k: u8, amount: u64| ObligationLiquidity {
        borrow_reserve: key(k),
        cumulative_borrow_rate_wads: Decimal::one(),
        borrowed_amount_wads: Decimal::from_u64(amount),
        market_value: Decimal::zero(),
    };
    let mut obligation = Obligation {
        deposits: vec![
            ObligationCollateral { deposit_reserve: key(1), deposited_amount: 0, market_value: Decimal::zero() },
            ObligationCollateral { deposit_reserve: key(2), deposited_amount: 5, market_value: Decimal::zero() },
        ],
        borrows: vec![borrow(3, 10), borrow(4, 0), borrow(5, 7), borrow(6, 9)],
        ..Obligation::default()
    };
    let ranks = vec![(0, key(30)), (500, key(40)), (100, key(50)), (100, key(60))];
    let ranks = obligation.normalize(ranks);
    assert_eq!(obligation.deposits.len(), 1);
    assert_eq!(obligation.deposits[0].deposit_reserve, key(2));
    assert_eq!(obligation.borrows.len(), 3);
    // the zero borrow of weight 500 is gone; among the rest (100, key 60) ranks highest
    assert_eq!(obligation.borrows[0].borrow_reserve, key(6));
    assert_eq!(ranks[0], (100, key(60)));
    assert_eq!(ranks.len(), 3);
}

#[test]
fn rate_limiter_caps_a_window() {
    let mut limiter = RateLimiter::new(RateLimiterConfig { window_duration: 10, max_outflow: 100 }, 0);
    limiter.update(1, 60).unwrap();
    limiter.update(5, 40).unwrap();
    assert_eq!(limiter.update(9, 1), Err(LendingError::OutflowRateLimitExceeded));
    assert_eq!(limiter.remaining_outflow(9), 0);
    // in the next window the previous outflow decays
    assert_eq!(limiter.remaining_outflow(15), 50);
    // far in the future everything is forgotten
    assert_eq!(limiter.remaining_outflow(100), 100);
}

#[test]
fn rate_limiter_off_when_window_is_zero() {
    let mut limiter = RateLimiter::new(RateLimiterConfig { window_duration: 0, max_outflow: 0 }, 0);
    assert!(limiter.update(3, u64::MAX).is_ok());
    assert_eq!(limiter.remaining_outflow(3), u64::MAX);
}

#[test]
fn liquidation_of_nothing_is_too_small() {
    let reserve = Reserve {
        config: ReserveConfig { liquidation_bonus: 5, max_liquidation_bonus: 5, ..ReserveConfig::default() },
        ..Reserve::default()
    };
    let obligation = Obligation {
        borrowed_value: Decimal::one(),
        unhealthy_borrow_value: Decimal::one(),
        super_unhealthy_borrow_value: Decimal::one(),
        ..Obligation::default()
    };
    let liquidity = ObligationLiquidity {
        borrow_reserve: key(2),
        cumulative_borrow_rate_wads: Decimal::one(),
        borrowed_amount_wads: Decimal::zero(),
        market_value: Decimal::from_percent(50),
    };
    let collateral = ObligationCollateral { deposit_reserve: key(1), deposited_amount: 10, market_value: Decimal::one() };
    assert_eq!(
        reserve.calculate_liquidation(u64::MAX, &obligation, &liquidity, &collateral),
        Err(LendingError::LiquidationTooSmall)
    );
}

#[test]
fn borrow_interest_never_runs_backwards() {
    let mut liquidity = ObligationLiquidity {
        borrow_reserve: key(2),
        cumulative_borrow_rate_wads: Decimal::from_percent(120),
        borrowed_amount_wads: Decimal::from_u64(100),
        market_value: Decimal::zero(),
    };
    let before = liquidity;
    assert_eq!(liquidity.accrue_interest(Decimal::one()), Err(LendingError::NegativeInterestRate));
    assert_eq!(liquidity, before);
    liquidity.accrue_interest(Decimal::from_percent(150)).unwrap();
    assert_eq!(liquidity.borrowed_amount_wads, Decimal::from_u64(125));
    assert_eq!(liquidity.cumulative_borrow_rate_wads, Decimal::from_percent(150));
}

#[test]
fn health_predicates() {
    let obligation = Obligation {
        borrowed_value: Decimal::from_u64(60),
        unhealthy_borrow_value: Decimal::from_u64(55),
        super_unhealthy_borrow_value: Decimal::from_u64(60),
        ..Obligation::default()
    };
    assert!(obligation.is_unhealthy());
    assert!(obligation.is_super_unhealthy());
    let healthy = Obligation { borrowed_value: Decimal::from_u64(55), ..obligation.clone() };
    assert!(!healthy.is_unhealthy());
    assert!(!healthy.is_super_unhealthy());
}

#[test]
fn utilization_counts_protocol_fees() {
    let liquidity = ReserveLiquidity {
        available_amount: 1,
        borrowed_amount_wads: Decimal::from_u64(1),
        accumulated_protocol_fees_wads: Decimal::from_u64(1),
        ..ReserveLiquidity::default()
    };
    // borrowed / (borrowed + available - fees) = 1 / 1
    assert_eq!(liquidity.utilization_rate().unwrap(), Rate::one());
}

#[test]
fn borrow_fee_rounds_up() {
    let fees = ReserveFees { borrow_fee_wad: 10_000_000_000_000_000, flash_loan_fee_wad: 0, host_fee_percentage: 20 };
    // 1% of 1010 is 10.1: the fee is 11, the host gets 20% of 11, rounded
    let (total, host) = fees.calculate_borrow_fees(Decimal::from_u64(1010), FeeCalculation::Exclusive).unwrap();
    assert_eq!((total, host), (11, 2));
}

#[test]
fn redeem_reports_short_liquidity_first() {
    let mut reserve = Reserve {
        liquidity: ReserveLiquidity { available_amount: 10, ..ReserveLiquidity::default() },
        collateral: ReserveCollateral { mint_total_supply: 0, ..ReserveCollateral::default() },
        ..Reserve::default()
    };
    // more collateral than minted, worth more liquidity than available
    assert_eq!(reserve.redeem_collateral(20), Err(LendingError::InsufficientLiquidity));
    assert_eq!(reserve.redeem_collateral(5), Err(LendingError::MathOverflow));
}

#[test]
fn borrow_too_large_for_many_decimals() {
    let reserve = Reserve {
        liquidity: ReserveLiquidity {
            mint_decimals: 20,
            available_amount: u64::MAX,
            market_price: Decimal::from_u64(1),
            smoothed_market_price: Decimal::from_u64(1),
            ..ReserveLiquidity::default()
        },
        ..Reserve::default()
    };
    // 10^19 base units of a 20-decimal token are worth 0.1, above a headroom of 0.05
    assert_eq!(
        reserve.calculate_borrow(10_000_000_000_000_000_000, Decimal::from_bps(500), Decimal::from_u64(u64::MAX)),
        Err(LendingError::BorrowTooLarge)
    );
    let ok = reserve
        .calculate_borrow(10_000_000_000_000_000_000, Decimal::one(), Decimal::from_u64(u64::MAX))
        .unwrap();
    assert_eq!(ok.receive_amount, 10_000_000_000_000_000_000);
}

#[test]
fn flash_loan_fee_must_be_below_one() {
    let config = ReserveConfig {
        fees: ReserveFees { borrow_fee_wad: 0, flash_loan_fee_wad: 1_000_000_000_000_000_000, host_fee_percentage: 0 },
        ..ReserveConfig::default()
    };
    assert_eq!(solend_sdk::state::reserve::validate_reserve_config(config), Err(LendingError::InvalidConfig));
}

#[test]
fn forgive_debt_limited_by_total_supply() {
    let mut liquidity = ReserveLiquidity {
        available_amount: 0,
        borrowed_amount_wads: Decimal::from_u64(100),
        accumulated_protocol_fees_wads: Decimal::from_u64(10),
        ..ReserveLiquidity::default()
    };
    let before = liquidity;
    assert_eq!(liquidity.forgive_debt(Decimal::from_u64(91)), Err(LendingError::MathOverflow));
    assert_eq!(liquidity, before);
    assert!(liquidity.forgive_debt(Decimal::from_u64(90)).is_ok());
    assert!(liquidity.total_supply().unwrap().is_zero());
}

#[test]
fn round_trip_on_empty_reserve_is_exact() {
    let mut reserve = Reserve::default();
    assert_eq!(reserve.deposit_liquidity(12_345).unwrap(), 12_345);
    assert_eq!(reserve.redeem_collateral(12_345).unwrap(), 12_345);
    assert_eq!(reserve, Reserve::default());
}

#[test]
fn round_trip_loses_more_than_one_token_when_collateral_is_dear() {
    // one collateral token stands for ten liquidity tokens
    let mut reserve = Reserve {
        liquidity: ReserveLiquidity { available_amount: 10, ..ReserveLiquidity::default() },
        collateral: ReserveCollateral { mint_total_supply: 1, ..ReserveCollateral::default() },
        ..Reserve::default()
    };
    let minted = reserve.deposit_liquidity(19).unwrap();
    assert_eq!(minted, 1);
    let paid = reserve.redeem_collateral(minted).unwrap();
    assert_eq!(paid, 14);
}
