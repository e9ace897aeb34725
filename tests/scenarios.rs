use solend_sdk::error::LendingError;
use solend_sdk::math::decimal::Decimal;
use solend_sdk::offchain_utils::{
    null_pubkey, offchain_refresh_obligation, offchain_refresh_reserve, offchain_refresh_reserve_interest,
};
use solend_sdk::pubkey::Pubkey;
use solend_sdk::state::obligation::{Obligation, ObligationCollateral, ObligationLiquidity};
use solend_sdk::state::rate_limiter::{RateLimiter, RateLimiterConfig};
use solend_sdk::state::reserve::{
    Reserve, ReserveCollateral, ReserveConfig, ReserveFees, ReserveLiquidity, ReserveType,
};

fn key(b: u8) -> Pubkey {
    Pubkey::new_from_array([b; 32])
}

#[test]
fn basic_borrow_fees() {
    let mut reserve = Reserve {
        liquidity: ReserveLiquidity {
            mint_decimals: 9,
            available_amount: 6_000_000_000,
            market_price: Decimal::from_u64(10),
            smoothed_market_price: Decimal::from_u64(10),
            cumulative_borrow_rate_wads: Decimal::one(),
            ..ReserveLiquidity::default()
        },
        config: ReserveConfig {
            fees: ReserveFees { borrow_fee_wad: 100_000_000_000, flash_loan_fee_wad: 0, host_fee_percentage: 20 },
            ..ReserveConfig::default()
        },
        ..Reserve::default()
    };
    let result = reserve
        .calculate_borrow(4_000_000_000, Decimal::from_u64(1_000_000), Decimal::from_u64(u64::MAX))
        .unwrap();
    assert_eq!(result.receive_amount, 4_000_000_000);
    assert_eq!(result.borrow_fee, 400);
    assert_eq!(result.host_fee, 80);
    assert_eq!(result.borrow_fee - result.host_fee, 320);
    reserve.liquidity.borrow(result.borrow_amount).unwrap();
    assert_eq!(reserve.liquidity.available_amount, 6_000_000_000 - 4_000_000_400);
}

#[test]
fn borrow_max_under_rate_limiter() {
    let limiter = RateLimiter::new(RateLimiterConfig { window_duration: 20, max_outflow: 1_000_000_000 }, 0);
    let reserve = Reserve {
        liquidity: ReserveLiquidity {
            mint_decimals: 9,
            available_amount: 6_000_000_000,
            market_price: Decimal::from_u64(10),
            smoothed_market_price: Decimal::from_u64(10),
            ..ReserveLiquidity::default()
        },
        rate_limiter: limiter,
        ..Reserve::default()
    };
    let remaining = Decimal::from_u64(reserve.rate_limiter.remaining_outflow(0));
    let result = reserve.calculate_borrow(u64::MAX, Decimal::from_u64(1_000_000), remaining).unwrap();
    assert_eq!(result.borrow_amount, Decimal::from_u64(1_000_000_000));
    assert_eq!(result.receive_amount, 1_000_000_000);
}

#[test]
fn rate_limiter_decay() {
    let mut limiter = RateLimiter::new(RateLimiterConfig { window_duration: 20, max_outflow: 1_000_000_000 }, 0);
    limiter.update(0, 1_000_000_000).unwrap();
    // two slots into the next window, 18/20 of the previous outflow still counts
    assert_eq!(limiter.remaining_outflow(22), 100_000_000);
    let before = limiter;
    assert_eq!(limiter.update(22, 100_000_001), Err(LendingError::OutflowRateLimitExceeded));
    assert_eq!(limiter, before);
    assert!(limiter.update(22, 100_000_000).is_ok());
    assert_eq!(limiter.remaining_outflow(22), 0);
}

#[test]
fn isolated_asset_invariant() {
    let mut obligation = Obligation::default();
    obligation.borrows.push(ObligationLiquidity { borrow_reserve: key(1), ..ObligationLiquidity::default() });
    assert_eq!(
        obligation.check_borrow_tier(&key(2), ReserveType::Isolated),
        Err(LendingError::IsolatedTierAssetViolation)
    );
    let isolated = Obligation {
        borrows: vec![ObligationLiquidity { borrow_reserve: key(2), ..ObligationLiquidity::default() }],
        borrowing_isolated_asset: true,
        ..Obligation::default()
    };
    assert_eq!(
        isolated.check_borrow_tier(&key(1), ReserveType::Regular),
        Err(LendingError::IsolatedTierAssetViolation)
    );
}

#[test]
fn liquidation_of_unhealthy_obligation() {
    let usdc = Reserve {
        liquidity: ReserveLiquidity { mint_decimals: 6, ..ReserveLiquidity::default() },
        config: ReserveConfig { protocol_liquidation_fee: 10, ..ReserveConfig::default() },
        ..Reserve::default()
    };
    let wsol = Reserve {
        config: ReserveConfig { liquidation_bonus: 4, max_liquidation_bonus: 4, protocol_liquidation_fee: 10, ..ReserveConfig::default() },
        ..Reserve::default()
    };
    let obligation = Obligation {
        deposits: vec![ObligationCollateral {
            deposit_reserve: key(1),
            deposited_amount: 100_000_000_000,
            market_value: Decimal::from_u64(100_000),
        }],
        borrows: vec![ObligationLiquidity {
            borrow_reserve: key(2),
            cumulative_borrow_rate_wads: Decimal::one(),
            borrowed_amount_wads: Decimal::from_u64(10_000_000_000),
            market_value: Decimal::from_u64(55_000),
        }],
        borrowed_value: Decimal::from_u64(55_000),
        unhealthy_borrow_value: Decimal::from_u64(55_000),
        super_unhealthy_borrow_value: Decimal::from_u64(55_000),
        ..Obligation::default()
    };
    let result = wsol
        .calculate_liquidation(u64::MAX, &obligation, &obligation.borrows[0], &obligation.deposits[0])
        .unwrap();
    assert_eq!(result.settle_amount, Decimal::from_u64(2_000_000_000));
    assert_eq!(result.repay_amount, 2_000_000_000);
    assert_eq!(result.withdraw_amount, 11_550_000_000);
    assert_eq!(result.bonus_rate, Decimal::from_percent(105));
    let fee = usdc.calculate_protocol_liquidation_fee(result.withdraw_amount, result.bonus_rate).unwrap();
    assert_eq!(fee, 110_000_000);
}

#[test]
fn forgive_debt_socialises_loss() {
    let mut reserve = Reserve {
        liquidity: ReserveLiquidity {
            available_amount: 1_200_000_000,
            borrowed_amount_wads: Decimal::from_u64(800_000_000),
            ..ReserveLiquidity::default()
        },
        collateral: ReserveCollateral { mint_total_supply: 2_000_000_000, ..ReserveCollateral::default() },
        ..Reserve::default()
    };
    let before = reserve.collateral_exchange_rate().unwrap().collateral_to_liquidity(1_000_000).unwrap();
    assert_eq!(before, 1_000_000);
    reserve.liquidity.forgive_debt(Decimal::from_u64(800_000_000)).unwrap();
    assert!(reserve.liquidity.borrowed_amount_wads.is_zero());
    let after = reserve.collateral_exchange_rate().unwrap().collateral_to_liquidity(1_000_000).unwrap();
    assert_eq!(after, 600_000);
    assert_eq!(
        reserve.liquidity.forgive_debt(Decimal::from_u64(1)),
        Err(LendingError::MathOverflow)
    );
}

#[test]
fn repay_settles_at_most_the_debt() {
    let reserve = Reserve::default();
    let r = reserve.calculate_repay(u64::MAX, Decimal::from_scaled_val(1_500_000_000_000_000_000)).unwrap();
    assert_eq!(r.repay_amount, 2);
    assert_eq!(r.settle_amount, Decimal::from_scaled_val(1_500_000_000_000_000_000));
    let r = reserve.calculate_repay(5, Decimal::from_u64(3)).unwrap();
    assert_eq!((r.settle_amount, r.repay_amount), (Decimal::from_u64(3), 3));
    let mut liquidity = ReserveLiquidity { borrowed_amount_wads: Decimal::from_u64(3), ..ReserveLiquidity::default() };
    liquidity.repay(5, Decimal::from_u64(5)).unwrap();
    assert_eq!(liquidity.available_amount, 5);
    assert!(liquidity.borrowed_amount_wads.is_zero());
}

#[test]
fn redeem_fees_limited_by_available() {
    let reserve = Reserve {
        liquidity: ReserveLiquidity {
            available_amount: 7,
            accumulated_protocol_fees_wads: Decimal::from_scaled_val(9_900_000_000_000_000_000),
            ..ReserveLiquidity::default()
        },
        ..Reserve::default()
    };
    assert_eq!(reserve.calculate_redeem_fees().unwrap(), 7);
    let mut liquidity = reserve.liquidity;
    liquidity.redeem_fees(7).unwrap();
    assert_eq!(liquidity.available_amount, 0);
    assert_eq!(liquidity.accumulated_protocol_fees_wads, Decimal::from_scaled_val(2_900_000_000_000_000_000));
}

#[test]
fn refresh_reserve_takes_oracle_price() {
    let mut reserve = Reserve {
        liquidity: ReserveLiquidity {
            pyth_oracle_pubkey: key(7),
            switchboard_oracle_pubkey: key(8),
            cumulative_borrow_rate_wads: Decimal::one(),
            ..ReserveLiquidity::default()
        },
        ..Reserve::default()
    };
    let prices = vec![(key(8), Some(Decimal::from_u64(3))), (key(7), None)];
    offchain_refresh_reserve(&key(1), &mut reserve, 5, &prices).unwrap();
    assert_eq!(reserve.liquidity.market_price, Decimal::from_u64(3));
    assert_eq!(reserve.last_update.slot, 5);
    assert!(!reserve.last_update.stale);
    let prices = vec![(key(7), Some(Decimal::from_u64(4)))];
    offchain_refresh_reserve(&key(1), &mut reserve, 6, &prices).unwrap();
    assert_eq!(reserve.liquidity.market_price, Decimal::from_u64(4));
    let mut no_oracle = Reserve {
        liquidity: ReserveLiquidity { pyth_oracle_pubkey: null_pubkey(), ..ReserveLiquidity::default() },
        ..Reserve::default()
    };
    let prices = vec![(null_pubkey(), Some(Decimal::from_u64(4)))];
    assert_eq!(
        offchain_refresh_reserve(&key(1), &mut no_oracle, 6, &prices),
        Err(LendingError::InvalidOracleConfig)
    );
    offchain_refresh_reserve_interest(&mut reserve, 9).unwrap();
    assert_eq!(reserve.last_update.slot, 9);
}

#[test]
fn refresh_obligation_values() {
    let usdc = Reserve {
        liquidity: ReserveLiquidity {
            mint_decimals: 6,
            available_amount: 1_000_000_000,
            market_price: Decimal::one(),
            smoothed_market_price: Decimal::one(),
            cumulative_borrow_rate_wads: Decimal::one(),
            ..ReserveLiquidity::default()
        },
        collateral: ReserveCollateral { mint_total_supply: 1_000_000_000, ..ReserveCollateral::default() },
        config: ReserveConfig { liquidation_threshold: 55, max_liquidation_threshold: 65, ..ReserveConfig::default() },
        ..Reserve::default()
    };
    let wsol = Reserve {
        liquidity: ReserveLiquidity {
            mint_decimals: 9,
            market_price: Decimal::from_u64(10),
            smoothed_market_price: Decimal::from_u64(10),
            cumulative_borrow_rate_wads: Decimal::from_percent(110),
            ..ReserveLiquidity::default()
        },
        config: ReserveConfig { added_borrow_weight_bps: 10_000, ..ReserveConfig::default() },
        ..Reserve::default()
    };
    let reserves = vec![(key(1), usdc), (key(2), wsol)];
    let mut obligation = Obligation {
        deposits: vec![ObligationCollateral { deposit_reserve: key(1), deposited_amount: 100_000_000, market_value: Decimal::zero() }],
        borrows: vec![ObligationLiquidity {
            borrow_reserve: key(2),
            cumulative_borrow_rate_wads: Decimal::one(),
            borrowed_amount_wads: Decimal::from_u64(1_000_000_000),
            market_value: Decimal::zero(),
        }],
        ..Obligation::default()
    };
    offchain_refresh_obligation(&mut obligation, &reserves).unwrap();
    assert_eq!(obligation.deposited_value, Decimal::from_u64(100));
    assert_eq!(obligation.unhealthy_borrow_value, Decimal::from_u64(55));
    assert_eq!(obligation.super_unhealthy_borrow_value, Decimal::from_u64(65));
    assert_eq!(obligation.borrows[0].borrowed_amount_wads, Decimal::from_u64(1_100_000_000));
    assert_eq!(obligation.borrows[0].market_value, Decimal::from_u64(11));
    // borrow weight two
    assert_eq!(obligation.borrowed_value, Decimal::from_u64(22));
    let missing = vec![(key(1), usdc)];
    let before = obligation.clone();
    assert_eq!(offchain_refresh_obligation(&mut obligation, &missing), Err(LendingError::InvalidAccountInput));
    assert_eq!(obligation, before);
}
