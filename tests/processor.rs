use solend_sdk::error::LendingError;
use solend_sdk::math::decimal::Decimal;
use solend_sdk::pubkey::Pubkey;
use solend_sdk::processor::{
    borrow_obligation_liquidity, deposit_obligation_collateral, deposit_reserve_liquidity,
    flash_borrow_reserve_liquidity, flash_repay_reserve_liquidity, forgive_debt, liquidate_obligation, redeem_fees, redeem_reserve_collateral,
    repay_obligation_liquidity, withdraw_obligation_collateral,
};
use solend_sdk::state::last_update::LastUpdate;
use solend_sdk::state::lending_market::LendingMarket;
use solend_sdk::state::obligation::{Obligation, ObligationCollateral, ObligationLiquidity};
use solend_sdk::state::rate_limiter::{RateLimiter, RateLimiterConfig};
use solend_sdk::state::reserve::{
    Reserve, ReserveCollateral, ReserveConfig, ReserveFees, ReserveLiquidity, ReserveType,
};

const SLOT: u64 = 1_000;

fn key(b: u8) -> Pubkey {
    Pubkey::new_from_array([b; 32])
}

fn fresh() -> LastUpdate {
    LastUpdate { slot: SLOT, stale: false }
}

fn wsol(available: u64) -> Reserve {
    Reserve {
        last_update: fresh(),
        liquidity: ReserveLiquidity {
            mint_pubkey: key(20),
            mint_decimals: 9,
            available_amount: available,
            cumulative_borrow_rate_wads: Decimal::one(),
            market_price: Decimal::from_u64(10),
            smoothed_market_price: Decimal::from_u64(10),
            ..ReserveLiquidity::default()
        },
        collateral: ReserveCollateral { mint_total_supply: available, ..ReserveCollateral::default() },
        config: ReserveConfig {
            loan_to_value_ratio: 50,
            liquidation_threshold: 55,
            max_liquidation_threshold: 55,
            borrow_limit: u64::MAX,
            deposit_limit: u64::MAX,
            fees: ReserveFees { borrow_fee_wad: 100_000_000_000, flash_loan_fee_wad: 0, host_fee_percentage: 20 },
            ..ReserveConfig::default()
        },
        ..Reserve::default()
    }
}

fn healthy_obligation() -> Obligation {
    Obligation {
        last_update: fresh(),
        deposits: vec![ObligationCollateral {
            deposit_reserve: key(1),
            deposited_amount: 100_000_000_000,
            market_value: Decimal::from_u64(100_000),
        }],
        deposited_value: Decimal::from_u64(100_000),
        allowed_borrow_value: Decimal::from_u64(50_000),
        unhealthy_borrow_value: Decimal::from_u64(55_000),
        super_unhealthy_borrow_value: Decimal::from_u64(55_000),
        ..Obligation::default()
    }
}

#[test]
fn borrow_flow_pays_fees() {
    let mut market = LendingMarket::default();
    let mut reserve = wsol(6_000_000_000);
    let mut obligation = healthy_obligation();
    let result =
        borrow_obligation_liquidity(&mut market, &mut reserve, &key(2), &mut obligation, 4_000_000_000, SLOT)
            .unwrap();
    assert_eq!(result.receive_amount, 4_000_000_000);
    assert_eq!((result.borrow_fee, result.host_fee), (400, 80));
    assert_eq!(reserve.liquidity.available_amount, 6_000_000_000 - 4_000_000_400);
    assert_eq!(obligation.borrows.len(), 1);
    assert_eq!(obligation.borrows[0].borrowed_amount_wads, Decimal::from_u64(4_000_000_400));
    assert!(reserve.last_update.stale && obligation.last_update.stale);
}

#[test]
fn borrow_flow_max_under_rate_limiter() {
    let mut market = LendingMarket::default();
    let mut reserve = wsol(6_000_000_000);
    reserve.config.fees = ReserveFees::default();
    reserve.rate_limiter = RateLimiter::new(RateLimiterConfig { window_duration: 20, max_outflow: 1_000_000_000 }, SLOT);
    let mut obligation = healthy_obligation();
    let result =
        borrow_obligation_liquidity(&mut market, &mut reserve, &key(2), &mut obligation, u64::MAX, SLOT).unwrap();
    assert_eq!(result.borrow_amount, Decimal::from_u64(1_000_000_000));
    assert_eq!(reserve.rate_limiter.remaining_outflow(SLOT), 0);
}

#[test]
fn borrow_flow_rejects_stale_records() {
    let mut market = LendingMarket::default();
    let mut reserve = wsol(6_000_000_000);
    let mut obligation = healthy_obligation();
    assert_eq!(
        borrow_obligation_liquidity(&mut market, &mut reserve, &key(2), &mut obligation, 1, SLOT + 1),
        Err(LendingError::ReserveStale)
    );
    obligation.last_update.stale = true;
    assert_eq!(
        borrow_obligation_liquidity(&mut market, &mut reserve, &key(2), &mut obligation, 1, SLOT),
        Err(LendingError::ObligationStale)
    );
    assert_eq!(
        borrow_obligation_liquidity(&mut market, &mut reserve, &key(2), &mut obligation, 0, SLOT),
        Err(LendingError::InvalidAmount)
    );
}

#[test]
fn borrow_flow_isolated_tier() {
    let mut market = LendingMarket::default();
    let mut bonk = wsol(6_000_000_000);
    bonk.config.reserve_type = ReserveType::Isolated;
    bonk.config.loan_to_value_ratio = 0;
    bonk.config.liquidation_threshold = 0;
    let mut obligation = healthy_obligation();
    obligation.borrows.push(ObligationLiquidity {
        borrow_reserve: key(2),
        cumulative_borrow_rate_wads: Decimal::one(),
        borrowed_amount_wads: Decimal::from_u64(10),
        market_value: Decimal::zero(),
    });
    let before = (bonk, obligation.clone());
    assert_eq!(
        borrow_obligation_liquidity(&mut market, &mut bonk, &key(3), &mut obligation, 1_000_000, SLOT),
        Err(LendingError::IsolatedTierAssetViolation)
    );
    assert_eq!((bonk, obligation), before);
}

#[test]
fn borrow_flow_too_large() {
    let mut market = LendingMarket::default();
    let mut reserve = wsol(6_000_000_000);
    let mut obligation = healthy_obligation();
    obligation.borrowed_value_upper_bound = Decimal::from_u64(50_000);
    assert_eq!(
        borrow_obligation_liquidity(&mut market, &mut reserve, &key(2), &mut obligation, 1, SLOT),
        Err(LendingError::BorrowTooLarge)
    );
}

#[test]
fn liquidate_flow() {
    let market = LendingMarket::default();
    let mut sol = wsol(0);
    sol.config.liquidation_bonus = 4;
    sol.config.max_liquidation_bonus = 4;
    sol.config.protocol_liquidation_fee = 10;
    let usdc = Reserve {
        last_update: fresh(),
        config: ReserveConfig { protocol_liquidation_fee: 10, ..ReserveConfig::default() },
        ..Reserve::default()
    };
    let mut obligation = healthy_obligation();
    obligation.borrows.push(ObligationLiquidity {
        borrow_reserve: key(2),
        cumulative_borrow_rate_wads: Decimal::one(),
        borrowed_amount_wads: Decimal::from_u64(10_000_000_000),
        market_value: Decimal::from_u64(55_000),
    });
    obligation.borrowed_value = Decimal::from_u64(55_000);
    let (result, fee) = liquidate_obligation(
        &market, &key(9), &mut sol, &key(2), &usdc, &key(1), &mut obligation, u64::MAX, SLOT,
    )
    .unwrap();
    assert_eq!(result.repay_amount, 2_000_000_000);
    assert_eq!(result.withdraw_amount, 11_550_000_000);
    assert_eq!(fee, 110_000_000);
    assert_eq!(obligation.borrows[0].borrowed_amount_wads, Decimal::from_u64(8_000_000_000));
    assert_eq!(obligation.deposits[0].deposited_amount, 100_000_000_000 - 11_550_000_000);
    assert_eq!(sol.liquidity.available_amount, 2_000_000_000);
}

#[test]
fn liquidate_flow_needs_whitelisted_liquidator() {
    let market = LendingMarket { whitelisted_liquidator: Some(key(8)), ..LendingMarket::default() };
    let mut sol = wsol(0);
    let usdc = Reserve { last_update: fresh(), ..Reserve::default() };
    let mut obligation = healthy_obligation();
    assert_eq!(
        liquidate_obligation(&market, &key(9), &mut sol, &key(2), &usdc, &key(1), &mut obligation, 1, SLOT)
            .unwrap_err(),
        LendingError::NotWhitelistedLiquidator
    );
}

#[test]
fn liquidate_flow_healthy_obligation() {
    let market = LendingMarket::default();
    let mut sol = wsol(0);
    let usdc = Reserve { last_update: fresh(), ..Reserve::default() };
    let mut obligation = healthy_obligation();
    obligation.borrows.push(ObligationLiquidity {
        borrow_reserve: key(2),
        cumulative_borrow_rate_wads: Decimal::one(),
        borrowed_amount_wads: Decimal::from_u64(1_000_000_000),
        market_value: Decimal::from_u64(10_000),
    });
    obligation.borrowed_value = Decimal::from_u64(10_000);
    assert_eq!(
        liquidate_obligation(&market, &key(9), &mut sol, &key(2), &usdc, &key(1), &mut obligation, 1, SLOT)
            .unwrap_err(),
        LendingError::ObligationHealthy
    );
}

#[test]
fn forgive_debt_flow() {
    let owner = key(7);
    let market = LendingMarket { owner, ..LendingMarket::default() };
    let mut sol = wsol(1_200_000_000);
    sol.liquidity.borrowed_amount_wads = Decimal::from_u64(800_000_000);
    sol.collateral.mint_total_supply = 2_000_000_000;
    let mut obligation = Obligation {
        last_update: fresh(),
        borrows: vec![ObligationLiquidity {
            borrow_reserve: key(2),
            cumulative_borrow_rate_wads: Decimal::one(),
            borrowed_amount_wads: Decimal::from_u64(800_000_000),
            market_value: Decimal::from_u64(8),
        }],
        ..Obligation::default()
    };
    assert_eq!(
        forgive_debt(&market, &key(9), &mut sol, &key(2), &mut obligation, u64::MAX, SLOT),
        Err(LendingError::InvalidMarketOwner)
    );
    forgive_debt(&market, &owner, &mut sol, &key(2), &mut obligation, u64::MAX, SLOT).unwrap();
    assert!(obligation.borrows.is_empty());
    assert!(sol.liquidity.borrowed_amount_wads.is_zero());
    assert_eq!(sol.collateral_exchange_rate().unwrap().collateral_to_liquidity(1_000_000).unwrap(), 600_000);
    sol.last_update.stale = false;
    solend_sdk::refresh::refresh_obligation(&mut obligation, &vec![(key(2), sol)], SLOT).unwrap();
    assert!(obligation.borrowed_value.is_zero());
    assert!(obligation.allowed_borrow_value.is_zero());
}

#[test]
fn forgive_debt_needs_empty_deposits() {
    let owner = key(7);
    let market = LendingMarket { owner, ..LendingMarket::default() };
    let mut sol = wsol(0);
    let mut obligation = healthy_obligation();
    assert_eq!(
        forgive_debt(&market, &owner, &mut sol, &key(2), &mut obligation, 1, SLOT),
        Err(LendingError::InvalidAccountInput)
    );
}

#[test]
fn repay_flow_removes_settled_borrow() {
    let mut sol = wsol(0);
    sol.liquidity.borrowed_amount_wads = Decimal::from_u64(500);
    let mut obligation = healthy_obligation();
    obligation.borrows.push(ObligationLiquidity {
        borrow_reserve: key(2),
        cumulative_borrow_rate_wads: Decimal::one(),
        borrowed_amount_wads: Decimal::from_scaled_val(499_500_000_000_000_000_000),
        market_value: Decimal::zero(),
    });
    let repaid = repay_obligation_liquidity(&mut sol, &key(2), &mut obligation, u64::MAX, SLOT).unwrap();
    assert_eq!(repaid, 500);
    assert!(obligation.borrows.is_empty());
    assert_eq!(sol.liquidity.available_amount, 500);
    assert_eq!(sol.liquidity.borrowed_amount_wads, Decimal::from_scaled_val(500_000_000_000_000_000));
    assert_eq!(
        repay_obligation_liquidity(&mut sol, &key(2), &mut obligation, 5, SLOT),
        Err(LendingError::ReserveStale)
    );
    sol.last_update.stale = false;
    assert_eq!(
        repay_obligation_liquidity(&mut sol, &key(2), &mut obligation, 5, SLOT),
        Err(LendingError::InvalidAccountInput)
    );
}

#[test]
fn deposit_and_redeem_flow() {
    let mut sol = wsol(1_000);
    sol.config.deposit_limit = 1_500;
    assert_eq!(deposit_reserve_liquidity(&mut sol, 600, SLOT), Err(LendingError::InvalidAmount));
    assert_eq!(deposit_reserve_liquidity(&mut sol, 500, SLOT), Ok(500));
    assert!(sol.last_update.stale);
    assert_eq!(redeem_reserve_collateral(&mut sol, 100, SLOT), Err(LendingError::ReserveStale));
    sol.last_update.stale = false;
    assert_eq!(redeem_reserve_collateral(&mut sol, 100, SLOT), Ok(100));
    assert_eq!(sol.liquidity.available_amount, 1_400);
    assert_eq!(sol.collateral.mint_total_supply, 1_400);
}

#[test]
fn deposit_and_withdraw_collateral_flow() {
    let mut market = LendingMarket::default();
    let sol = wsol(1_000);
    let mut obligation = healthy_obligation();
    deposit_obligation_collateral(&mut obligation, &sol, &key(2), 300, SLOT).unwrap();
    deposit_obligation_collateral(&mut obligation, &sol, &key(2), 200, SLOT).unwrap();
    assert_eq!(obligation.deposits.len(), 2);
    assert_eq!(obligation.deposits[1].deposited_amount, 500);
    obligation.last_update.stale = false;
    let mut reserve = sol;
    // nothing borrowed: all of it may leave
    let taken =
        withdraw_obligation_collateral(&mut market, &mut reserve, &key(2), &mut obligation, u64::MAX, SLOT)
            .unwrap();
    assert_eq!(taken, 500);
    assert_eq!(obligation.deposits.len(), 1);
}

#[test]
fn withdraw_limited_by_headroom() {
    let mut market = LendingMarket::default();
    let mut usdc = Reserve {
        last_update: fresh(),
        liquidity: ReserveLiquidity {
            mint_decimals: 6,
            available_amount: 100_000_000_000,
            market_price: Decimal::one(),
            smoothed_market_price: Decimal::one(),
            ..ReserveLiquidity::default()
        },
        collateral: ReserveCollateral { mint_total_supply: 100_000_000_000, ..ReserveCollateral::default() },
        config: ReserveConfig { loan_to_value_ratio: 50, ..ReserveConfig::default() },
        ..Reserve::default()
    };
    let mut obligation = healthy_obligation();
    obligation.borrows.push(ObligationLiquidity::default());
    obligation.borrowed_value_upper_bound = Decimal::from_u64(40_000);
    // headroom 10 000 at 50% loan to value: 20 000 USDC of collateral may leave
    let taken =
        withdraw_obligation_collateral(&mut market, &mut usdc, &key(1), &mut obligation, u64::MAX, SLOT).unwrap();
    assert_eq!(taken, 20_000_000_000);
    obligation.last_update.stale = false;
    obligation.borrowed_value_upper_bound = Decimal::from_u64(50_000);
    assert_eq!(
        withdraw_obligation_collateral(&mut market, &mut usdc, &key(1), &mut obligation, 1, SLOT),
        Err(LendingError::InvalidAmount)
    );
}

#[test]
fn redeem_fees_flow() {
    let mut sol = wsol(7);
    sol.liquidity.accumulated_protocol_fees_wads = Decimal::from_u64(3);
    assert_eq!(redeem_fees(&mut sol, SLOT), Ok(3));
    assert!(sol.liquidity.accumulated_protocol_fees_wads.is_zero());
    assert_eq!(sol.liquidity.available_amount, 4);
}

#[test]
fn flash_loan_round_trip() {
    let mut sol = wsol(10_000);
    sol.config.fees = ReserveFees { borrow_fee_wad: 0, flash_loan_fee_wad: 3_000_000_000_000_000, host_fee_percentage: 20 };
    let before = sol;
    assert_eq!(flash_borrow_reserve_liquidity(&mut sol, 10_001, SLOT), Err(LendingError::InsufficientLiquidity));
    flash_borrow_reserve_liquidity(&mut sol, 10_000, SLOT).unwrap();
    assert_eq!(sol.liquidity.available_amount, 0);
    let (origination, host) = flash_repay_reserve_liquidity(&mut sol, 10_000, SLOT).unwrap();
    assert_eq!((origination, host), (24, 6));
    assert_eq!(sol, before);
}
