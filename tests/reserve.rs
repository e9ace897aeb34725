use solend_sdk::error::LendingError;
use solend_sdk::math::decimal::Decimal;
use solend_sdk::math::rate::Rate;
use solend_sdk::pubkey::Pubkey;
use solend_sdk::state::obligation::{Obligation, ObligationCollateral, ObligationLiquidity};
use solend_sdk::state::reserve::{
    validate_reserve_config, CalculateBorrowResult, CalculateLiquidationResult, FeeCalculation,
    Reserve, ReserveConfig, ReserveFees, ReserveLiquidity, ReserveType, LIQUIDATION_CLOSE_FACTOR,
};

const LAMPORTS_PER_SOL: u64 = 1_000_000_000;

fn key(b: u8) -> Pubkey {
    Pubkey::new_from_array([b; 32])
}

#[test]
fn borrow_fee_calculation_min_host() {
    let fees = ReserveFees {
        borrow_fee_wad: 10_000_000_000_000_000, // 1%
        flash_loan_fee_wad: 0,
        host_fee_percentage: 20,
    };

    // only 2 tokens borrowed, get error
    let err = fees
        .calculate_borrow_fees(Decimal::from_u64(2), FeeCalculation::Exclusive)
        .unwrap_err();
    assert_eq!(err, LendingError::BorrowTooSmall); // minimum of 3 tokens

    // only 1 token borrowed, get error
    let err = fees
        .calculate_borrow_fees(Decimal::one(), FeeCalculation::Exclusive)
        .unwrap_err();
    assert_eq!(err, LendingError::BorrowTooSmall);

    // 0 amount borrowed, 0 fee
    let (total_fee, host_fee) = fees
        .calculate_borrow_fees(Decimal::zero(), FeeCalculation::Exclusive)
        .unwrap();
    assert_eq!(total_fee, 0);
    assert_eq!(host_fee, 0);
}

#[test]
fn borrow_fee_calculation_min_no_host() {
    let fees = ReserveFees {
        borrow_fee_wad: 10_000_000_000_000_000, // 1%
        flash_loan_fee_wad: 0,
        host_fee_percentage: 0,
    };

    // only 2 tokens borrowed, ok
    let (total_fee, host_fee) = fees
        .calculate_borrow_fees(Decimal::from_u64(2), FeeCalculation::Exclusive)
        .unwrap();
    assert_eq!(total_fee, 1);
    assert_eq!(host_fee, 0);

    // only 1 token borrowed, get error
    let err = fees
        .calculate_borrow_fees(Decimal::one(), FeeCalculation::Exclusive)
        .unwrap_err();
    assert_eq!(err, LendingError::BorrowTooSmall); // minimum of 2 tokens

    // 0 amount borrowed, 0 fee
    let (total_fee, host_fee) = fees
        .calculate_borrow_fees(Decimal::zero(), FeeCalculation::Exclusive)
        .unwrap();
    assert_eq!(total_fee, 0);
    assert_eq!(host_fee, 0);
}

#[test]
fn borrow_fee_calculation_host() {
    let fees = ReserveFees {
        borrow_fee_wad: 10_000_000_000_000_000, // 1%
        flash_loan_fee_wad: 0,
        host_fee_percentage: 20,
    };

    let (total_fee, host_fee) = fees
        .calculate_borrow_fees(Decimal::from_u64(1000), FeeCalculation::Exclusive)
        .unwrap();

    assert_eq!(total_fee, 10); // 1% of 1000
    assert_eq!(host_fee, 2); // 20% of 10
}

#[test]
fn borrow_fee_calculation_no_host() {
    let fees = ReserveFees {
        borrow_fee_wad: 10_000_000_000_000_000, // 1%
        flash_loan_fee_wad: 0,
        host_fee_percentage: 0,
    };

    let (total_fee, host_fee) = fees
        .calculate_borrow_fees(Decimal::from_u64(1000), FeeCalculation::Exclusive)
        .unwrap();

    assert_eq!(total_fee, 10); // 1% of 1000
    assert_eq!(host_fee, 0); // 0 host fee
}

#[test]
fn calculate_protocol_liquidation_fee() {
    let mut reserve = Reserve {
        config: ReserveConfig {
            protocol_liquidation_fee: 10,
            ..Default::default()
        },
        ..Reserve::default()
    };

    assert_eq!(
        reserve
            .calculate_protocol_liquidation_fee(105, Decimal::from_percent(105))
            .unwrap(),
        1
    );

    reserve.config.protocol_liquidation_fee = 20;
    assert_eq!(
        reserve
            .calculate_protocol_liquidation_fee(105, Decimal::from_percent(105))
            .unwrap(),
        2
    );
}

#[test]
fn market_value() {
    let reserve = Reserve {
        liquidity: ReserveLiquidity {
            mint_decimals: 9,
            market_price: Decimal::from_u64(25),
            smoothed_market_price: Decimal::from_u64(50),
            ..ReserveLiquidity::default()
        },
        ..Reserve::default()
    };

    assert_eq!(
        reserve.market_value(Decimal::from_u64(1)).unwrap(),
        Decimal::from_u64(25).try_div_u64(1e9 as u64).unwrap()
    );
    assert_eq!(
        reserve
            .market_value(Decimal::from_u64(10 * LAMPORTS_PER_SOL))
            .unwrap(),
        Decimal::from_u64(250)
    );

    assert_eq!(
        reserve
            .market_value_lower_bound(Decimal::from_u64(10 * LAMPORTS_PER_SOL))
            .unwrap(),
        Decimal::from_u64(250)
    );

    assert_eq!(
        reserve
            .market_value_upper_bound(Decimal::from_u64(10 * LAMPORTS_PER_SOL))
            .unwrap(),
        Decimal::from_u64(500)
    );
}

#[test]
fn usd_to_liquidity_amount_lower_bound() {
    let reserve = Reserve {
        liquidity: ReserveLiquidity {
            mint_decimals: 9,
            market_price: Decimal::from_u64(25),
            smoothed_market_price: Decimal::from_u64(50),
            ..ReserveLiquidity::default()
        },
        ..Reserve::default()
    };

    assert_eq!(
        reserve
            .usd_to_liquidity_amount_lower_bound(Decimal::from_u64(100))
            .unwrap(),
        Decimal::from_u64(2 * LAMPORTS_PER_SOL)
    );
}

fn config_case(config: ReserveConfig, ok: bool) {
    let expected = if ok { Ok(()) } else { Err(LendingError::InvalidConfig) };
    assert_eq!(validate_reserve_config(config), expected);
}

#[test]
fn validate_reserve_config_isolated_with_ltv() {
    config_case(
        ReserveConfig { reserve_type: ReserveType::Isolated, loan_to_value_ratio: 1, ..ReserveConfig::default() },
        false,
    );
}

#[test]
fn validate_reserve_config_isolated_with_threshold() {
    config_case(
        ReserveConfig { reserve_type: ReserveType::Isolated, liquidation_threshold: 1, ..ReserveConfig::default() },
        false,
    );
}

#[test]
fn validate_reserve_config_isolated_ok() {
    config_case(
        ReserveConfig {
            reserve_type: ReserveType::Isolated,
            loan_to_value_ratio: 0,
            liquidation_threshold: 0,
            ..ReserveConfig::default()
        },
        true,
    );
}

#[test]
fn validate_reserve_config_max_threshold_below_threshold() {
    config_case(
        ReserveConfig { liquidation_threshold: 85, max_liquidation_threshold: 75, ..ReserveConfig::default() },
        false,
    );
}

#[test]
fn validate_reserve_config_max_bonus_below_bonus() {
    config_case(
        ReserveConfig { max_liquidation_bonus: 5, liquidation_bonus: 10, ..ReserveConfig::default() },
        false,
    );
}

#[test]
fn validate_reserve_config_bonus_and_fee_at_cap() {
    config_case(
        ReserveConfig { max_liquidation_bonus: 20, protocol_liquidation_fee: 50, ..ReserveConfig::default() },
        true,
    );
}

#[test]
fn validate_reserve_config_bonus_and_fee_over_cap() {
    config_case(
        ReserveConfig { max_liquidation_bonus: 20, protocol_liquidation_fee: 60, ..ReserveConfig::default() },
        false,
    );
}

#[test]
fn validate_reserve_config_fee_over_max() {
    config_case(ReserveConfig { protocol_liquidation_fee: 51, ..ReserveConfig::default() }, false);
}

fn bonus_case(
    borrowed: u64,
    unhealthy: u64,
    super_unhealthy: u64,
    bonus: u8,
    max_bonus: u8,
    fee: u8,
    expected: Result<Decimal, LendingError>,
) {
    let reserve = Reserve {
        config: ReserveConfig {
            liquidation_bonus: bonus,
            max_liquidation_bonus: max_bonus,
            protocol_liquidation_fee: fee,
            ..ReserveConfig::default()
        },
        ..Reserve::default()
    };
    let obligation = Obligation {
        borrowed_value: Decimal::from_u64(borrowed),
        unhealthy_borrow_value: Decimal::from_u64(unhealthy),
        super_unhealthy_borrow_value: Decimal::from_u64(super_unhealthy),
        ..Obligation::default()
    };
    assert_eq!(reserve.calculate_bonus(&obligation), expected);
}

#[test]
fn calculate_bonus_healthy() {
    bonus_case(100, 101, 150, 10, 20, 10, Err(LendingError::ObligationHealthy));
}

#[test]
fn calculate_bonus_at_unhealthy() {
    bonus_case(100, 100, 150, 10, 20, 10, Ok(Decimal::from_percent(11)));
}

#[test]
fn calculate_bonus_halfway() {
    bonus_case(100, 50, 150, 10, 20, 10, Ok(Decimal::from_percent(16)));
}

#[test]
fn calculate_bonus_at_super_unhealthy() {
    bonus_case(100, 50, 100, 10, 20, 10, Ok(Decimal::from_percent(21)));
}

#[test]
fn calculate_bonus_beyond_super_unhealthy() {
    bonus_case(200, 50, 100, 10, 20, 10, Ok(Decimal::from_percent(21)));
}

#[test]
fn calculate_bonus_equal_thresholds() {
    bonus_case(60, 50, 50, 10, 20, 10, Ok(Decimal::from_percent(11)));
}

#[test]
fn calculate_bonus_capped() {
    bonus_case(60, 40, 60, 10, 30, 10, Ok(Decimal::from_percent(25)));
}

#[test]
fn calculate_bonus_capped_high_fee() {
    bonus_case(60, 40, 60, 30, 30, 30, Ok(Decimal::from_percent(25)));
}

fn liquidation_case(
    deposit_amount: u64,
    deposit_market_value: Decimal,
    borrow_amount: u64,
    borrow_market_value: Decimal,
    expected: CalculateLiquidationResult,
) {
    let reserve = Reserve {
        config: ReserveConfig {
            liquidation_bonus: 5,
            max_liquidation_bonus: 5,
            ..ReserveConfig::default()
        },
        ..Reserve::default()
    };
    let obligation = Obligation {
        deposits: vec![ObligationCollateral {
            deposit_reserve: key(1),
            deposited_amount: deposit_amount,
            market_value: deposit_market_value,
        }],
        borrows: vec![ObligationLiquidity {
            borrow_reserve: key(2),
            cumulative_borrow_rate_wads: Decimal::one(),
            borrowed_amount_wads: Decimal::from_u64(borrow_amount),
            market_value: borrow_market_value,
        }],
        borrowed_value: borrow_market_value,
        unhealthy_borrow_value: borrow_market_value,
        super_unhealthy_borrow_value: borrow_market_value,
        ..Obligation::default()
    };
    assert_eq!(
        reserve
            .calculate_liquidation(u64::MAX, &obligation, &obligation.borrows[0], &obligation.deposits[0])
            .unwrap(),
        expected
    );
}

fn bonus_rate_105() -> Decimal {
    Decimal::from_rate(Rate::from_percent(5).try_add(Rate::one()).unwrap())
}

#[test]
fn calculate_liquidation_collateral_worth_more() {
    let close_factor = Decimal::from_rate(Rate::from_percent(LIQUIDATION_CLOSE_FACTOR));
    let bonus = bonus_rate_105();
    liquidation_case(
        1000,
        Decimal::from_u64(100),
        800,
        Decimal::from_u64(80),
        CalculateLiquidationResult {
            settle_amount: close_factor.try_mul(Decimal::from_u64(800)).unwrap(),
            repay_amount: close_factor.try_mul(Decimal::from_u64(800)).unwrap().try_ceil_u64().unwrap(),
            withdraw_amount: close_factor
                .try_mul(bonus)
                .unwrap()
                .try_mul(Decimal::from_u64(800))
                .unwrap()
                .try_floor_u64()
                .unwrap(),
            bonus_rate: bonus,
        },
    );
}

#[test]
fn calculate_liquidation_collateral_worth_the_same() {
    let cf = LIQUIDATION_CLOSE_FACTOR as u64;
    liquidation_case(
        (8000 * cf) * 105 / 10000,
        Decimal::from_u64((8000 * cf) * 105 / 10000),
        8000,
        Decimal::from_u64(8000),
        CalculateLiquidationResult {
            settle_amount: Decimal::from_u64((8000 * cf) / 100),
            repay_amount: (8000 * cf) / 100,
            withdraw_amount: (8000 * cf) * 105 / 10000,
            bonus_rate: bonus_rate_105(),
        },
    );
}

#[test]
fn calculate_liquidation_collateral_worth_less() {
    let cf = LIQUIDATION_CLOSE_FACTOR as u64;
    liquidation_case(
        (8000 * cf) * 105 / 10000 / 2,
        Decimal::from_u64((8000 * cf) * 105 / 10000 / 2),
        8000,
        Decimal::from_u64(8000),
        CalculateLiquidationResult {
            settle_amount: Decimal::from_u64((8000 * cf) / 100 / 2),
            repay_amount: (8000 * cf) / 100 / 2,
            withdraw_amount: (8000 * cf) * 105 / 10000 / 2,
            bonus_rate: bonus_rate_105(),
        },
    );
}

#[test]
fn calculate_liquidation_dust_collateral_worth_more() {
    liquidation_case(
        100,
        Decimal::from_u64(1),
        100,
        Decimal::from_percent(50),
        CalculateLiquidationResult {
            settle_amount: Decimal::from_u64(100),
            repay_amount: 100,
            // $0.5 * 1.05 = $0.525
            withdraw_amount: 52,
            bonus_rate: bonus_rate_105(),
        },
    );
}

#[test]
fn calculate_liquidation_dust_collateral_worth_the_same() {
    liquidation_case(
        1000,
        Decimal::from_percent(105),
        1,
        Decimal::from_u64(1),
        CalculateLiquidationResult {
            settle_amount: Decimal::from_u64(1),
            repay_amount: 1,
            withdraw_amount: 1000,
            bonus_rate: bonus_rate_105(),
        },
    );
}

#[test]
fn calculate_liquidation_dust_collateral_worth_less() {
    liquidation_case(
        10,
        Decimal::from_bps(5250), // $0.525
        10,
        Decimal::one(),
        CalculateLiquidationResult {
            settle_amount: Decimal::from_u64(5),
            repay_amount: 5,
            withdraw_amount: 10,
            bonus_rate: bonus_rate_105(),
        },
    );
}

#[test]
fn calculate_liquidation_dust_withdraws_at_least_one() {
    liquidation_case(
        1,
        Decimal::from_u64(10),
        1,
        Decimal::one(),
        CalculateLiquidationResult {
            settle_amount: Decimal::from_u64(1),
            repay_amount: 1,
            withdraw_amount: 1,
            bonus_rate: bonus_rate_105(),
        },
    );
}

#[allow(clippy::too_many_arguments)]
fn borrow_case(
    borrow_amount: u64,
    remaining_borrow_value: Decimal,
    remaining_reserve_capacity: Decimal,
    market_price: Decimal,
    smoothed_market_price: Decimal,
    added_borrow_weight_bps: u64,
    borrow_fee_wad: u64,
    host_fee: u8,
    expected: Result<CalculateBorrowResult, LendingError>,
) {
    let reserve = Reserve {
        config: ReserveConfig {
            added_borrow_weight_bps,
            fees: ReserveFees {
                borrow_fee_wad,
                host_fee_percentage: host_fee,
                flash_loan_fee_wad: 0,
            },
            ..ReserveConfig::default()
        },
        liquidity: ReserveLiquidity {
            mint_decimals: 9,
            market_price,
            smoothed_market_price,
            available_amount: remaining_reserve_capacity.to_scaled_val().unwrap() as u64,
            ..ReserveLiquidity::default()
        },
        ..Reserve::default()
    };
    assert_eq!(
        reserve.calculate_borrow(borrow_amount, remaining_borrow_value, remaining_reserve_capacity),
        expected
    );
}

#[test]
fn calculate_borrow_with_fees() {
    borrow_case(
        LAMPORTS_PER_SOL,
        Decimal::from_u64(10),
        Decimal::from_u64(LAMPORTS_PER_SOL * 10),
        Decimal::from_u64(1),
        Decimal::from_u64(1),
        0,
        10_000_000_000_000_000,
        20,
        Ok(CalculateBorrowResult {
            borrow_amount: Decimal::from_u64(LAMPORTS_PER_SOL * 101 / 100),
            receive_amount: LAMPORTS_PER_SOL,
            borrow_fee: LAMPORTS_PER_SOL / 100,
            host_fee: LAMPORTS_PER_SOL / 100 / 100 * 20,
        }),
    );
}

#[test]
fn calculate_borrow_max_with_fees() {
    borrow_case(
        u64::MAX,
        Decimal::from_u64(10),
        Decimal::from_u64(LAMPORTS_PER_SOL * 101 / 100),
        Decimal::from_u64(1),
        Decimal::from_u64(1),
        0,
        10_000_000_000_000_000,
        20,
        Ok(CalculateBorrowResult {
            borrow_amount: Decimal::from_u64(LAMPORTS_PER_SOL * 101 / 100),
            receive_amount: LAMPORTS_PER_SOL,
            borrow_fee: LAMPORTS_PER_SOL / 100,
            host_fee: LAMPORTS_PER_SOL / 100 / 100 * 20,
        }),
    );
}

#[test]
fn calculate_borrow_weight_two() {
    borrow_case(
        LAMPORTS_PER_SOL / 2,
        Decimal::from_u64(1),
        Decimal::from_u64(LAMPORTS_PER_SOL),
        Decimal::from_u64(1),
        Decimal::from_u64(1),
        10_000,
        0,
        0,
        Ok(CalculateBorrowResult {
            borrow_amount: Decimal::from_u64(LAMPORTS_PER_SOL / 2),
            receive_amount: LAMPORTS_PER_SOL / 2,
            borrow_fee: 0,
            host_fee: 0,
        }),
    );
}

#[test]
fn calculate_borrow_max_weight_two() {
    borrow_case(
        u64::MAX,
        Decimal::from_u64(1),
        Decimal::from_u64(LAMPORTS_PER_SOL),
        Decimal::from_u64(1),
        Decimal::from_u64(1),
        10_000,
        0,
        0,
        Ok(CalculateBorrowResult {
            borrow_amount: Decimal::from_u64(LAMPORTS_PER_SOL / 2),
            receive_amount: LAMPORTS_PER_SOL / 2,
            borrow_fee: 0,
            host_fee: 0,
        }),
    );
}

#[test]
fn calculate_borrow_max_smoothed_price_higher() {
    borrow_case(
        u64::MAX,
        Decimal::from_u64(100),
        Decimal::from_u64(100 * LAMPORTS_PER_SOL),
        Decimal::from_u64(10),
        Decimal::from_u64(20),
        0,
        0,
        0,
        Ok(CalculateBorrowResult {
            borrow_amount: Decimal::from_u64(5 * LAMPORTS_PER_SOL),
            receive_amount: 5 * LAMPORTS_PER_SOL,
            borrow_fee: 0,
            host_fee: 0,
        }),
    );
}

#[test]
fn calculate_borrow_max_market_price_higher() {
    borrow_case(
        u64::MAX,
        Decimal::from_u64(100),
        Decimal::from_u64(100 * LAMPORTS_PER_SOL),
        Decimal::from_u64(20),
        Decimal::from_u64(10),
        0,
        0,
        0,
        Ok(CalculateBorrowResult {
            borrow_amount: Decimal::from_u64(5 * LAMPORTS_PER_SOL),
            receive_amount: 5 * LAMPORTS_PER_SOL,
            borrow_fee: 0,
            host_fee: 0,
        }),
    );
}

#[test]
fn calculate_borrow_too_large_at_smoothed_price() {
    borrow_case(
        7 * LAMPORTS_PER_SOL,
        Decimal::from_u64(100),
        Decimal::from_u64(100 * LAMPORTS_PER_SOL),
        Decimal::from_u64(10),
        Decimal::from_u64(20),
        0,
        0,
        0,
        Err(LendingError::BorrowTooLarge),
    );
}
