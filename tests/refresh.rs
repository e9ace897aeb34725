use solend_sdk::error::LendingError;
use solend_sdk::math::decimal::Decimal;
use solend_sdk::processor::update_reserve_config;
use solend_sdk::refresh::refresh_obligation;
use solend_sdk::pubkey::Pubkey;
use solend_sdk::state::last_update::LastUpdate;
use solend_sdk::state::lending_market::LendingMarket;
use solend_sdk::state::obligation::{Obligation, ObligationCollateral, ObligationLiquidity};
use solend_sdk::state::reserve::{
    backfill_config, Reserve, ReserveCollateral, ReserveConfig, ReserveLiquidity, ReserveType,
};

const SLOT: u64 = 50;

fn key(b: u8) -> Pubkey {
    Pubkey::new_from_array([b; 32])
}

fn reserve(mint: u8, price: u64, smoothed: u64, weight_bps: u64, reserve_type: ReserveType) -> Reserve {
    Reserve {
        last_update: LastUpdate { slot: SLOT, stale: false },
        liquidity: ReserveLiquidity {
            mint_pubkey: key(mint),
            mint_decimals: 6,
            available_amount: 1_000_000_000,
            cumulative_borrow_rate_wads: Decimal::one(),
            market_price: Decimal::from_u64(price),
            smoothed_market_price: Decimal::from_u64(smoothed),
            ..ReserveLiquidity::default()
        },
        collateral: ReserveCollateral { mint_total_supply: 1_000_000_000, ..ReserveCollateral::default() },
        config: ReserveConfig {
            loan_to_value_ratio: 50,
            liquidation_threshold: 60,
            max_liquidation_threshold: 70,
            added_borrow_weight_bps: weight_bps,
            reserve_type,
            ..ReserveConfig::default()
        },
        ..Reserve::default()
    }
}

fn borrow(k: u8, amount: u64) -> ObligationLiquidity {
    ObligationLiquidity {
        borrow_reserve: key(k),
        cumulative_borrow_rate_wads: Decimal::one(),
        borrowed_amount_wads: Decimal::from_u64(amount),
        market_value: Decimal::zero(),
    }
}

#[test]
fn refresh_computes_all_values() {
    let reserves = vec![
        (key(1), reserve(11, 1, 2, 0, ReserveType::Regular)),
        (key(2), reserve(12, 2, 3, 10_000, ReserveType::Regular)),
        (key(3), reserve(13, 1, 1, 20_000, ReserveType::Isolated)),
    ];
    let mut obligation = Obligation {
        deposits: vec![
            ObligationCollateral { deposit_reserve: key(1), deposited_amount: 100_000_000, market_value: Decimal::zero() },
            ObligationCollateral { deposit_reserve: key(2), deposited_amount: 0, market_value: Decimal::zero() },
        ],
        borrows: vec![borrow(2, 1_000_000), borrow(3, 0)],
        ..Obligation::default()
    };
    refresh_obligation(&mut obligation, &reserves, SLOT).unwrap();
    assert_eq!(obligation.deposited_value, Decimal::from_u64(100));
    // lower price 1, loan to value 50%
    assert_eq!(obligation.allowed_borrow_value, Decimal::from_u64(50));
    assert_eq!(obligation.unhealthy_borrow_value, Decimal::from_u64(60));
    assert_eq!(obligation.super_unhealthy_borrow_value, Decimal::from_u64(70));
    // 1 token at 2, weight 2; upper bound at 3
    assert_eq!(obligation.borrowed_value, Decimal::from_u64(4));
    assert_eq!(obligation.borrowed_value_upper_bound, Decimal::from_u64(6));
    assert!(obligation.borrowing_isolated_asset);
    assert_eq!(obligation.deposits.len(), 1);
    assert_eq!(obligation.borrows.len(), 1);
    assert_eq!(obligation.last_update, LastUpdate { slot: SLOT, stale: false });
}

#[test]
fn refresh_puts_heaviest_borrow_first() {
    let reserves = vec![
        (key(1), reserve(11, 1, 1, 0, ReserveType::Regular)),
        (key(2), reserve(12, 1, 1, 5_000, ReserveType::Regular)),
        (key(3), reserve(13, 1, 1, 5_000, ReserveType::Regular)),
    ];
    let mut obligation = Obligation {
        borrows: vec![borrow(1, 10), borrow(3, 10), borrow(2, 10)],
        ..Obligation::default()
    };
    refresh_obligation(&mut obligation, &reserves, SLOT).unwrap();
    // equal weights: the greater mint wins
    assert_eq!(obligation.borrows[0].borrow_reserve, key(3));
}

#[test]
fn refresh_needs_fresh_reserves() {
    let mut stale = reserve(11, 1, 1, 0, ReserveType::Regular);
    stale.last_update.stale = true;
    let reserves = vec![(key(1), stale)];
    let mut obligation = Obligation { borrows: vec![borrow(1, 10)], ..Obligation::default() };
    let before = obligation.clone();
    assert_eq!(refresh_obligation(&mut obligation, &reserves, SLOT), Err(LendingError::ReserveStale));
    assert_eq!(obligation, before);
}

#[test]
fn owner_and_risk_authority_update_config() {
    let market = LendingMarket { owner: key(1), risk_authority: key(2), ..LendingMarket::default() };
    let mut sol = reserve(11, 1, 1, 0, ReserveType::Regular);
    sol.config.borrow_limit = 1_000;
    sol.config.deposit_limit = 10_000;
    let mut lower = sol.config;
    lower.borrow_limit = 500;
    lower.deposit_limit = 5_000;
    let mut raised = sol.config;
    raised.borrow_limit = 2_000;
    assert_eq!(update_reserve_config(&market, &key(3), &mut sol, lower), Err(LendingError::InvalidSigner));
    assert_eq!(update_reserve_config(&market, &key(2), &mut sol, raised), Err(LendingError::InvalidConfig));
    assert!(update_reserve_config(&market, &key(2), &mut sol, lower).is_ok());
    assert_eq!(sol.config.borrow_limit, 500);
    assert!(sol.last_update.stale);
    assert!(update_reserve_config(&market, &key(1), &mut sol, raised).is_ok());
    assert_eq!(sol.config.borrow_limit, 2_000);
    let mut invalid = raised;
    invalid.loan_to_value_ratio = 100;
    assert_eq!(update_reserve_config(&market, &key(1), &mut sol, invalid), Err(LendingError::InvalidConfig));
}

#[test]
fn legacy_config_is_backfilled() {
    let legacy = ReserveConfig {
        optimal_utilization_rate: 80,
        liquidation_bonus: 5,
        liquidation_threshold: 55,
        max_borrow_rate: 30,
        protocol_liquidation_fee: 200,
        ..ReserveConfig::default()
    };
    let config = backfill_config(legacy);
    assert_eq!(config.max_utilization_rate, 80);
    assert_eq!(config.max_liquidation_bonus, 5);
    assert_eq!(config.max_liquidation_threshold, 55);
    assert_eq!(config.super_max_borrow_rate, 30);
    assert_eq!(config.protocol_liquidation_fee, 50);
}
