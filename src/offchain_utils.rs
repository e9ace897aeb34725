//! Refreshing reserves and obligations from prices and reserve records that
//! were read elsewhere.
use crate::error::LendingError;
use crate::math::decimal::{dec_add, dec_div, dec_mul, wad, Decimal, PERCENT_SCALER};
use crate::math::rate::Rate;
use crate::pubkey::Pubkey;
use crate::state::last_update::LastUpdate;
use crate::state::obligation::{accrued_debt, Obligation, ObligationCollateral, ObligationLiquidity};
use crate::state::reserve::{
    accrued_liquidity, borrow_weight_of, exchange_rate_spec, value_at, Reserve, ReserveLiquidity,
};
use vstd::prelude::*;

verus! {

/// The address that stands for "no oracle".
pub open spec fn null_pubkey_spec() -> Pubkey {
    Pubkey(
        [
            11,
            193,
            238,
            216,
            208,
            116,
            241,
            195,
            55,
            212,
            76,
            22,
            75,
            202,
            40,
            216,
            76,
            206,
            27,
            169,
            138,
            64,
            177,
            28,
            19,
            90,
            156,
            0,
            0,
            0,
            0,
            0,
        ],
    )
}

/// The address that stands for "no oracle".
pub fn null_pubkey() -> (r: Pubkey)
    ensures
        r == null_pubkey_spec(),
{
    Pubkey(
        [
            11,
            193,
            238,
            216,
            208,
            116,
            241,
            195,
            55,
            212,
            76,
            22,
            75,
            202,
            40,
            216,
            76,
            206,
            27,
            169,
            138,
            64,
            177,
            28,
            19,
            90,
            156,
            0,
            0,
            0,
            0,
            0,
        ],
    )
}

/// The value of the first entry keyed by `key`. Lists of (key, value)
/// pairs stand for maps: their keys are meant to be distinct, and where a key
/// repeats, its first entry is the one that counts.
pub open spec fn find_first<T>(entries: Seq<(Pubkey, T)>, key: Pubkey) -> Option<T>
    decreases entries.len(),
{
    if entries.len() == 0 {
        None
    } else if entries[0].0@ == key@ {
        Some(entries[0].1)
    } else {
        find_first(entries.drop_first(), key)
    }
}

/// Index of the first entry keyed by `key`.
pub fn find_index<T>(entries: &Vec<(Pubkey, T)>, key: &Pubkey) -> (r: Option<usize>)
    ensures
        match r {
            Some(i) => i < entries@.len() && find_first(entries@, *key) == Some(entries@[i as int].1),
            None => find_first(entries@, *key) is None,
        },
{
    let mut i: usize = 0;
    assert(entries@.subrange(0, entries@.len() as int) =~= entries@);
    while i < entries.len()
        invariant
            i <= entries@.len(),
            find_first(entries@, *key) == find_first(
                entries@.subrange(i as int, entries@.len() as int),
                *key,
            ),
        decreases entries@.len() - i,
    {
        let ghost rest = entries@.subrange(i as int, entries@.len() as int);
        assert(rest[0] == entries@[i as int]);
        if entries[i].0.same(key) {
            return Some(i);
        }
        assert(rest.drop_first() =~= entries@.subrange(i + 1, entries@.len() as int));
        i = i + 1;
    }
    None
}

/// The price from the first oracle that has one: the primary oracle, then
/// the secondary. An oracle at the null address gives none.
pub open spec fn oracle_price(
    prices: Seq<(Pubkey, Option<Decimal>)>,
    primary: Pubkey,
    secondary: Pubkey,
) -> Option<Decimal> {
    match find_first(prices, primary) {
        Some(Some(p)) => if primary@ != null_pubkey_spec()@ {
            Some(p)
        } else {
            None
        },
        _ => match find_first(prices, secondary) {
            Some(Some(p)) => if secondary@ != null_pubkey_spec()@ {
                Some(p)
            } else {
                None
            },
            _ => None,
        },
    }
}

/// The reserve after interest accrued up to `slot`, marked fresh.
pub open spec fn refreshed_reserve(
    old: Reserve,
    new: Reserve,
    slot: u64,
    market_price: Decimal,
) -> bool {
    accrued_liquidity(old, slot) matches Some((cbr, borrowed, fees))
        && new.liquidity.cumulative_borrow_rate_wads@ == cbr
        && new.liquidity.borrowed_amount_wads@ == borrowed
        && new.liquidity.accumulated_protocol_fees_wads@ == fees && new.liquidity == (
    ReserveLiquidity {
        cumulative_borrow_rate_wads: new.liquidity.cumulative_borrow_rate_wads,
        borrowed_amount_wads: new.liquidity.borrowed_amount_wads,
        accumulated_protocol_fees_wads: new.liquidity.accumulated_protocol_fees_wads,
        market_price,
        ..old.liquidity
    }) && new == (Reserve {
        liquidity: new.liquidity,
        last_update: LastUpdate { slot, stale: false },
        ..old
    })
}

/// Accrues interest up to `slot` and marks the reserve fresh.
pub fn offchain_refresh_reserve_interest(reserve: &mut Reserve, slot: u64) -> (r: Result<
    (),
    LendingError,
>)
    ensures
        match accrued_liquidity(*old(reserve), slot) {
            Some(_) => r is Ok && refreshed_reserve(
                *old(reserve),
                *final(reserve),
                slot,
                old(reserve).liquidity.market_price,
            ),
            None => r == Err::<(), LendingError>(LendingError::MathOverflow) && *final(reserve)
                == *old(reserve),
        },
{
    match reserve.accrue_interest(slot) {
        Ok(()) => {},
        Err(e) => return Err(e),
    }
    reserve.last_update = LastUpdate { slot, stale: false };
    Ok(())
}

/// Takes the reserve's market price from `prices` (one entry per oracle
/// address; where an address repeats, its first entry counts), accrues
/// interest up to
/// `slot` and marks the reserve fresh. The address of the reserve itself is
/// not read.
pub fn offchain_refresh_reserve(
    _pubkey: &Pubkey,
    reserve: &mut Reserve,
    slot: u64,
    prices: &Vec<(Pubkey, Option<Decimal>)>,
) -> (r: Result<(), LendingError>)
    ensures
        match oracle_price(
            prices@,
            old(reserve).liquidity.pyth_oracle_pubkey,
            old(reserve).liquidity.switchboard_oracle_pubkey,
        ) {
            None => r == Err::<(), LendingError>(LendingError::InvalidOracleConfig)
                && *final(reserve) == *old(reserve),
            Some(price) => match accrued_liquidity(*old(reserve), slot) {
                Some(_) => r is Ok && refreshed_reserve(*old(reserve), *final(reserve), slot, price),
                None => r == Err::<(), LendingError>(LendingError::MathOverflow) && *final(reserve)
                    == *old(reserve),
            },
        },
{
    let pyth_oracle = reserve.liquidity.pyth_oracle_pubkey;
    let switchboard_oracle = reserve.liquidity.switchboard_oracle_pubkey;
    let null = null_pubkey();
    let pyth_entry = match find_index(prices, &pyth_oracle) {
        Some(i) => prices[i].1,
        None => None,
    };
    let price = match pyth_entry {
        Some(p) => if !pyth_oracle.same(&null) {
            Some(p)
        } else {
            None
        },
        None => {
            let switchboard_entry = match find_index(prices, &switchboard_oracle) {
                Some(i) => prices[i].1,
                None => None,
            };
            match switchboard_entry {
                Some(p) => if !switchboard_oracle.same(&null) {
                    Some(p)
                } else {
                    None
                },
                None => None,
            }
        },
    };
    let price = match price {
        Some(p) => p,
        None => return Err(LendingError::InvalidOracleConfig),
    };
    match reserve.accrue_interest(slot) {
        Ok(()) => {},
        Err(e) => return Err(e),
    }
    reserve.liquidity.market_price = price;
    reserve.last_update = LastUpdate { slot, stale: false };
    Ok(())
}

/// Value of the collateral `c` in reserve `r`, at the market price.
pub open spec fn collateral_value(r: Reserve, c: ObligationCollateral) -> Option<nat> {
    match exchange_rate_spec(r) {
        None => None,
        Some(x) => match dec_div((c.deposited_amount as nat) * wad(), x) {
            None => None,
            Some(l) => value_at(r.liquidity.market_price@, l, r.liquidity.mint_decimals as nat),
        },
    }
}

/// The values of the deposits `ds`, and the deposited, unhealthy and
/// super-unhealthy values they add up to.
pub open spec fn deposits_refreshed(
    reserves: Seq<(Pubkey, Reserve)>,
    ds: Seq<ObligationCollateral>,
) -> Result<(Seq<nat>, nat, nat, nat), LendingError>
    decreases ds.len(),
{
    if ds.len() == 0 {
        Ok((seq![], 0, 0, 0))
    } else {
        match deposits_refreshed(reserves, ds.drop_last()) {
            Err(e) => Err(e),
            Ok((vals, dep, unh, sup)) => match find_first(reserves, ds.last().deposit_reserve) {
                None => Err(LendingError::InvalidAccountInput),
                Some(r) => {
                    let p = PERCENT_SCALER as nat;
                    let lt = (r.config.liquidation_threshold as nat) * p;
                    let mlt = (r.config.max_liquidation_threshold as nat) * p;
                    match collateral_value(r, ds.last()) {
                        None => Err(LendingError::MathOverflow),
                        Some(mv) => match (
                            dec_add(dep, mv),
                            dec_mul(mv, lt),
                            dec_mul(mv, mlt),
                        ) {
                            (Some(dep2), Some(a), Some(b)) => match (
                                dec_add(unh, a),
                                dec_add(sup, b),
                            ) {
                                (Some(unh2), Some(sup2)) => Ok((vals.push(mv), dep2, unh2, sup2)),
                                _ => Err(LendingError::MathOverflow),
                            },
                            _ => Err(LendingError::MathOverflow),
                        },
                    }
                },
            },
        }
    }
}

/// For each borrow of `bs`, its debt, cumulative borrow rate and value once
/// brought up to its reserve; and the borrowed value they add up to, each
/// weighted by its reserve's borrow weight.
pub open spec fn borrows_refreshed(
    reserves: Seq<(Pubkey, Reserve)>,
    bs: Seq<ObligationLiquidity>,
) -> Result<(Seq<(nat, nat, nat)>, nat), LendingError>
    decreases bs.len(),
{
    if bs.len() == 0 {
        Ok((seq![], 0))
    } else {
        match borrows_refreshed(reserves, bs.drop_last()) {
            Err(e) => Err(e),
            Ok((vals, total)) => match find_first(reserves, bs.last().borrow_reserve) {
                None => Err(LendingError::InvalidAccountInput),
                Some(r) => match accrued_debt(bs.last(), r.liquidity.cumulative_borrow_rate_wads@) {
                    Err(e) => Err(e),
                    Ok(debt) => match value_at(
                        r.liquidity.market_price@,
                        debt,
                        r.liquidity.mint_decimals as nat,
                    ) {
                        None => Err(LendingError::MathOverflow),
                        Some(mv) => match dec_mul(mv, borrow_weight_of(r.config)) {
                            None => Err(LendingError::MathOverflow),
                            Some(w) => match dec_add(total, w) {
                                None => Err(LendingError::MathOverflow),
                                Some(t2) => Ok(
                                    (
                                        vals.push(
                                            (debt, r.liquidity.cumulative_borrow_rate_wads@, mv),
                                        ),
                                        t2,
                                    ),
                                ),
                            },
                        },
                    },
                },
            },
        }
    }
}

proof fn lemma_deposits_error_stays(
    reserves: Seq<(Pubkey, Reserve)>,
    ds: Seq<ObligationCollateral>,
    k: int,
)
    requires
        0 <= k <= ds.len(),
        deposits_refreshed(reserves, ds.subrange(0, k)) is Err,
    ensures
        deposits_refreshed(reserves, ds) == deposits_refreshed(reserves, ds.subrange(0, k)),
    decreases ds.len() - k,
{
    if k == ds.len() {
        assert(ds.subrange(0, k) =~= ds);
    } else {
        assert(ds.subrange(0, k + 1).drop_last() =~= ds.subrange(0, k));
        lemma_deposits_error_stays(reserves, ds, k + 1);
    }
}

proof fn lemma_borrows_error_stays(
    reserves: Seq<(Pubkey, Reserve)>,
    bs: Seq<ObligationLiquidity>,
    k: int,
)
    requires
        0 <= k <= bs.len(),
        borrows_refreshed(reserves, bs.subrange(0, k)) is Err,
    ensures
        borrows_refreshed(reserves, bs) == borrows_refreshed(reserves, bs.subrange(0, k)),
    decreases bs.len() - k,
{
    if k == bs.len() {
        assert(bs.subrange(0, k) =~= bs);
    } else {
        assert(bs.subrange(0, k + 1).drop_last() =~= bs.subrange(0, k));
        lemma_borrows_error_stays(reserves, bs, k + 1);
    }
}

/// What a refresh of obligation `old` into `new` with these results means.
pub open spec fn refreshed_obligation(
    old: Obligation,
    new: Obligation,
    dvals: Seq<nat>,
    dep: nat,
    unh: nat,
    sup: nat,
    bvals: Seq<(nat, nat, nat)>,
    total: nat,
) -> bool {
    &&& new.deposited_value@ == dep
    &&& new.unhealthy_borrow_value@ == unh
    &&& new.super_unhealthy_borrow_value@ == sup
    &&& new.borrowed_value@ == total
    &&& new.deposits@.len() == old.deposits@.len()
    &&& new.borrows@.len() == old.borrows@.len()
    &&& forall|i: int|
        0 <= i < new.deposits@.len() ==> {
            &&& #[trigger] new.deposits@[i].market_value@ == dvals[i]
            &&& new.deposits@[i].deposit_reserve == old.deposits@[i].deposit_reserve
            &&& new.deposits@[i].deposited_amount == old.deposits@[i].deposited_amount
        }
    &&& forall|i: int|
        0 <= i < new.borrows@.len() ==> {
            &&& #[trigger] new.borrows@[i].borrowed_amount_wads@ == bvals[i].0
            &&& new.borrows@[i].cumulative_borrow_rate_wads@ == bvals[i].1
            &&& new.borrows@[i].market_value@ == bvals[i].2
            &&& new.borrows@[i].borrow_reserve == old.borrows@[i].borrow_reserve
        }
    &&& new == (Obligation {
        deposits: new.deposits,
        borrows: new.borrows,
        deposited_value: new.deposited_value,
        unhealthy_borrow_value: new.unhealthy_borrow_value,
        super_unhealthy_borrow_value: new.super_unhealthy_borrow_value,
        borrowed_value: new.borrowed_value,
        ..old
    })
}

/// Recomputes the values of an obligation's deposits and borrows, and the
/// deposited, unhealthy, super-unhealthy and borrowed values, from the
/// reserves in `reserves` (one entry per reserve address; where an address
/// repeats, its first entry counts); each borrow's interest is brought up to its
/// reserve first.
pub fn offchain_refresh_obligation(o: &mut Obligation, reserves: &Vec<(Pubkey, Reserve)>) -> (r:
    Result<(), LendingError>)
    ensures
        match deposits_refreshed(reserves@, old(o).deposits@) {
            Err(e) => r == Err::<(), LendingError>(e) && *final(o) == *old(o),
            Ok((dvals, dep, unh, sup)) => match borrows_refreshed(reserves@, old(o).borrows@) {
                Err(e) => r == Err::<(), LendingError>(e) && *final(o) == *old(o),
                Ok((bvals, total)) => r is Ok && refreshed_obligation(
                    *old(o),
                    *final(o),
                    dvals,
                    dep,
                    unh,
                    sup,
                    bvals,
                    total,
                ),
            },
        },
{
    let mut deposited_value = Decimal::zero();
    let mut unhealthy_borrow_value = Decimal::zero();
    let mut super_unhealthy_borrow_value = Decimal::zero();
    let mut deposits: Vec<ObligationCollateral> = Vec::new();
    let ghost mut dvals: Seq<nat> = seq![];
    let mut i: usize = 0;
    while i < o.deposits.len()
        invariant
            i <= o.deposits@.len(),
            deposits@.len() == i,
            deposits_refreshed(reserves@, o.deposits@.subrange(0, i as int)) == Ok::<
                (Seq<nat>, nat, nat, nat),
                LendingError,
            >((dvals, deposited_value@, unhealthy_borrow_value@, super_unhealthy_borrow_value@)),
            forall|j: int|
                0 <= j < i ==> {
                    &&& #[trigger] deposits@[j].market_value@ == dvals[j]
                    &&& deposits@[j].deposit_reserve == o.deposits@[j].deposit_reserve
                    &&& deposits@[j].deposited_amount == o.deposits@[j].deposited_amount
                },
            dvals.len() == i,
        decreases o.deposits@.len() - i,
    {
        let c = o.deposits[i];
        proof {
            assert(o.deposits@.subrange(0, i + 1).drop_last() =~= o.deposits@.subrange(
                0,
                i as int,
            ));
            assert(o.deposits@.subrange(0, i + 1).last() == c);
        }
        let k = match find_index(reserves, &c.deposit_reserve) {
            Some(k) => k,
            None => {
                proof {
                    lemma_deposits_error_stays(reserves@, o.deposits@, i + 1);
                }
                return Err(LendingError::InvalidAccountInput);
            },
        };
        let reserve = reserves[k].1;
        let rate = match reserve.collateral_exchange_rate() {
            Ok(x) => x,
            Err(e) => {
                proof {
                    lemma_deposits_error_stays(reserves@, o.deposits@, i + 1);
                }
                return Err(e);
            },
        };
        let liquidity_amount = match rate.decimal_collateral_to_liquidity(
            Decimal::from_u64(c.deposited_amount),
        ) {
            Ok(l) => l,
            Err(e) => {
                proof {
                    lemma_deposits_error_stays(reserves@, o.deposits@, i + 1);
                }
                return Err(e);
            },
        };
        let market_value = match reserve.market_value(liquidity_amount) {
            Ok(v) => v,
            Err(e) => {
                proof {
                    lemma_deposits_error_stays(reserves@, o.deposits@, i + 1);
                }
                return Err(e);
            },
        };
        let threshold = Rate::from_percent(reserve.config.liquidation_threshold);
        let max_threshold = Rate::from_percent(reserve.config.max_liquidation_threshold);
        let dep2 = match deposited_value.try_add(market_value) {
            Ok(x) => x,
            Err(e) => {
                proof {
                    lemma_deposits_error_stays(reserves@, o.deposits@, i + 1);
                }
                return Err(e);
            },
        };
        let a = match market_value.try_mul_rate(threshold) {
            Ok(x) => x,
            Err(e) => {
                proof {
                    lemma_deposits_error_stays(reserves@, o.deposits@, i + 1);
                }
                return Err(e);
            },
        };
        let b = match market_value.try_mul_rate(max_threshold) {
            Ok(x) => x,
            Err(e) => {
                proof {
                    lemma_deposits_error_stays(reserves@, o.deposits@, i + 1);
                }
                return Err(e);
            },
        };
        let unh2 = match unhealthy_borrow_value.try_add(a) {
            Ok(x) => x,
            Err(e) => {
                proof {
                    lemma_deposits_error_stays(reserves@, o.deposits@, i + 1);
                }
                return Err(e);
            },
        };
        let sup2 = match super_unhealthy_borrow_value.try_add(b) {
            Ok(x) => x,
            Err(e) => {
                proof {
                    lemma_deposits_error_stays(reserves@, o.deposits@, i + 1);
                }
                return Err(e);
            },
        };
        deposited_value = dep2;
        unhealthy_borrow_value = unh2;
        super_unhealthy_borrow_value = sup2;
        let ghost prev = deposits@;
        deposits.push(ObligationCollateral { market_value, ..c });
        proof {
            dvals = dvals.push(market_value@);
            assert forall|t: int| 0 <= t < i + 1 implies {
                &&& #[trigger] deposits@[t].market_value@ == dvals[t]
                &&& deposits@[t].deposit_reserve == o.deposits@[t].deposit_reserve
                &&& deposits@[t].deposited_amount == o.deposits@[t].deposited_amount
            } by {
                if t < i {
                    assert(deposits@[t] == prev[t]);
                }
            }
        }
        i = i + 1;
    }
    proof {
        assert(o.deposits@.subrange(0, o.deposits@.len() as int) =~= o.deposits@);
    }
    let mut borrowed_value = Decimal::zero();
    let mut borrows: Vec<ObligationLiquidity> = Vec::new();
    let ghost mut bvals: Seq<(nat, nat, nat)> = seq![];
    let mut j: usize = 0;
    while j < o.borrows.len()
        invariant
            j <= o.borrows@.len(),
            borrows@.len() == j,
            deposits_refreshed(reserves@, o.deposits@) == Ok::<
                (Seq<nat>, nat, nat, nat),
                LendingError,
            >((dvals, deposited_value@, unhealthy_borrow_value@, super_unhealthy_borrow_value@)),
            borrows_refreshed(reserves@, o.borrows@.subrange(0, j as int)) == Ok::<
                (Seq<(nat, nat, nat)>, nat),
                LendingError,
            >((bvals, borrowed_value@)),
            forall|t: int|
                0 <= t < j ==> {
                    &&& #[trigger] borrows@[t].borrowed_amount_wads@ == bvals[t].0
                    &&& borrows@[t].cumulative_borrow_rate_wads@ == bvals[t].1
                    &&& borrows@[t].market_value@ == bvals[t].2
                    &&& borrows@[t].borrow_reserve == o.borrows@[t].borrow_reserve
                },
            bvals.len() == j,
        decreases o.borrows@.len() - j,
    {
        let mut liquidity = o.borrows[j];
        proof {
            assert(o.borrows@.subrange(0, j + 1).drop_last() =~= o.borrows@.subrange(
                0,
                j as int,
            ));
            assert(o.borrows@.subrange(0, j + 1).last() == liquidity);
        }
        let k = match find_index(reserves, &liquidity.borrow_reserve) {
            Some(k) => k,
            None => {
                proof {
                    lemma_borrows_error_stays(reserves@, o.borrows@, j + 1);
                }
                return Err(LendingError::InvalidAccountInput);
            },
        };
        let reserve = reserves[k].1;
        match liquidity.accrue_interest(reserve.liquidity.cumulative_borrow_rate_wads) {
            Ok(()) => {},
            Err(e) => {
                proof {
                    lemma_borrows_error_stays(reserves@, o.borrows@, j + 1);
                }
                return Err(e);
            },
        }
        let market_value = match reserve.market_value(liquidity.borrowed_amount_wads) {
            Ok(v) => v,
            Err(e) => {
                proof {
                    lemma_borrows_error_stays(reserves@, o.borrows@, j + 1);
                }
                return Err(e);
            },
        };
        let weighted = match market_value.try_mul(reserve.borrow_weight()) {
            Ok(v) => v,
            Err(e) => {
                proof {
                    lemma_borrows_error_stays(reserves@, o.borrows@, j + 1);
                }
                return Err(e);
            },
        };
        borrowed_value = match borrowed_value.try_add(weighted) {
            Ok(v) => v,
            Err(e) => {
                proof {
                    lemma_borrows_error_stays(reserves@, o.borrows@, j + 1);
                }
                return Err(e);
            },
        };
        liquidity.market_value = market_value;
        let ghost prevb = borrows@;
        borrows.push(liquidity);
        proof {
            assert forall|t: int| 0 <= t < j implies #[trigger] borrows@[t] == prevb[t] by {}
            bvals = bvals.push(
                (
                    liquidity.borrowed_amount_wads@,
                    reserve.liquidity.cumulative_borrow_rate_wads@,
                    market_value@,
                ),
            );
        }
        j = j + 1;
    }
    proof {
        assert(o.borrows@.subrange(0, o.borrows@.len() as int) =~= o.borrows@);
    }
    o.deposits = deposits;
    o.borrows = borrows;
    o.deposited_value = deposited_value;
    o.unhealthy_borrow_value = unhealthy_borrow_value;
    o.super_unhealthy_borrow_value = super_unhealthy_borrow_value;
    o.borrowed_value = borrowed_value;
    proof {
        assert(o.deposits@.len() == old(o).deposits@.len());
        assert(o.borrows@.len() == old(o).borrows@.len());
        assert(forall|t: int| 0 <= t < o.borrows@.len() ==> #[trigger] o.borrows@[t].borrowed_amount_wads@ == bvals[t].0);
        assert(deposits_refreshed(reserves@, old(o).deposits@) matches Ok((dv, _, _, _)) && dv == dvals);
        assert(borrows_refreshed(reserves@, old(o).borrows@) matches Ok((bv, _)) && bv == bvals);
    }
    Ok(())
}

} // verus!
