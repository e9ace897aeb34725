//! Refreshing an obligation: every deposit and borrow revalued from fresh
//! reserves, the aggregate values recomputed, and the entries normalized.
use crate::error::LendingError;
use crate::math::decimal::{dec_add, dec_div, dec_mul, wad, Decimal, PERCENT_SCALER};
use crate::math::rate::Rate;
use crate::offchain_utils::{find_first, find_index};
use crate::processor::fresh;
use crate::pubkey::Pubkey;
use crate::state::last_update::LastUpdate;
use crate::state::obligation::{
    accrued_debt, borrows_distinct, deposits_distinct, kept_borrows, kept_deposits, kept_ranks, rank_lt, swap_front, BorrowRank,
    Obligation, ObligationCollateral, ObligationLiquidity,
};
use crate::state::reserve::{
    borrow_weight_of, exchange_rate_spec, nmax, nmin, value_at, Reserve, ReserveType,
};
use vstd::prelude::*;

verus! {

/// Value of the collateral `c` in reserve `r`, and what it adds to the
/// allowed, unhealthy and super-unhealthy values. Collateral counts towards
/// the allowed value at the lower of its two prices.
pub open spec fn deposit_parts(r: Reserve, c: ObligationCollateral) -> Option<(nat, nat, nat, nat)> {
    let p = PERCENT_SCALER as nat;
    let l = r.liquidity;
    match exchange_rate_spec(r) {
        None => None,
        Some(x) => match dec_div((c.deposited_amount as nat) * wad(), x) {
            None => None,
            Some(amount) => match (
                value_at(l.market_price@, amount, l.mint_decimals as nat),
                value_at(
                    nmin(l.market_price@, l.smoothed_market_price@),
                    amount,
                    l.mint_decimals as nat,
                ),
            ) {
                (Some(mv), Some(lower)) => match (
                    dec_mul(lower, (r.config.loan_to_value_ratio as nat) * p),
                    dec_mul(mv, (r.config.liquidation_threshold as nat) * p),
                    dec_mul(mv, (r.config.max_liquidation_threshold as nat) * p),
                ) {
                    (Some(a), Some(u), Some(su)) => Some((mv, a, u, su)),
                    _ => None,
                },
                _ => None,
            },
        },
    }
}

/// The debt of borrow `b` brought up to reserve `r`, its value, and what it
/// adds to the borrowed value and to its upper bound.
pub open spec fn borrow_parts(r: Reserve, b: ObligationLiquidity) -> Result<
    (nat, nat, nat, nat),
    LendingError,
> {
    let l = r.liquidity;
    match accrued_debt(b, l.cumulative_borrow_rate_wads@) {
        Err(e) => Err(e),
        Ok(debt) => match (
            value_at(l.market_price@, debt, l.mint_decimals as nat),
            value_at(nmax(l.market_price@, l.smoothed_market_price@), debt, l.mint_decimals as nat),
        ) {
            (Some(mv), Some(uv)) => match (
                dec_mul(mv, borrow_weight_of(r.config)),
                dec_mul(uv, borrow_weight_of(r.config)),
            ) {
                (Some(w), Some(wu)) => Ok((debt, mv, w, wu)),
                _ => Err(LendingError::MathOverflow),
            },
            _ => Err(LendingError::MathOverflow),
        },
    }
}

/// For the deposits `ds`: each one's value, and the deposited, allowed,
/// unhealthy and super-unhealthy values they add up to.
pub open spec fn deposits_valued(
    reserves: Seq<(Pubkey, Reserve)>,
    slot: u64,
    ds: Seq<ObligationCollateral>,
) -> Result<(Seq<nat>, nat, nat, nat, nat), LendingError>
    decreases ds.len(),
{
    if ds.len() == 0 {
        Ok((seq![], 0, 0, 0, 0))
    } else {
        match deposits_valued(reserves, slot, ds.drop_last()) {
            Err(e) => Err(e),
            Ok((vals, dep, allowed, unh, sup)) => match find_first(
                reserves,
                ds.last().deposit_reserve,
            ) {
                None => Err(LendingError::InvalidAccountInput),
                Some(r) => if !fresh(r.last_update, slot) {
                    Err(LendingError::ReserveStale)
                } else {
                    match deposit_parts(r, ds.last()) {
                        None => Err(LendingError::MathOverflow),
                        Some((mv, a, u, su)) => match (
                            dec_add(dep, mv),
                            dec_add(allowed, a),
                            dec_add(unh, u),
                            dec_add(sup, su),
                        ) {
                            (Some(d2), Some(a2), Some(u2), Some(s2)) => Ok(
                                (vals.push(mv), d2, a2, u2, s2),
                            ),
                            _ => Err(LendingError::MathOverflow),
                        },
                    }
                },
            },
        }
    }
}

/// For the borrows `bs`: each one's debt, cumulative borrow rate and value
/// once brought up to its reserve, and its rank; the borrowed value and its
/// upper bound; and whether any borrow sits on an isolated reserve.
pub open spec fn borrows_valued(
    reserves: Seq<(Pubkey, Reserve)>,
    slot: u64,
    bs: Seq<ObligationLiquidity>,
) -> Result<(Seq<(nat, nat, nat)>, Seq<BorrowRank>, nat, nat, bool), LendingError>
    decreases bs.len(),
{
    if bs.len() == 0 {
        Ok((seq![], seq![], 0, 0, false))
    } else {
        match borrows_valued(reserves, slot, bs.drop_last()) {
            Err(e) => Err(e),
            Ok((vals, ranks, bv, upper, iso)) => match find_first(
                reserves,
                bs.last().borrow_reserve,
            ) {
                None => Err(LendingError::InvalidAccountInput),
                Some(r) => if !fresh(r.last_update, slot) {
                    Err(LendingError::ReserveStale)
                } else {
                    match borrow_parts(r, bs.last()) {
                        Err(e) => Err(e),
                        Ok((debt, mv, w, wu)) => match (dec_add(bv, w), dec_add(upper, wu)) {
                            (Some(bv2), Some(up2)) => Ok(
                                (
                                    vals.push((debt, r.liquidity.cumulative_borrow_rate_wads@, mv)),
                                    ranks.push(
                                        (r.config.added_borrow_weight_bps, r.liquidity.mint_pubkey),
                                    ),
                                    bv2,
                                    up2,
                                    iso || r.config.reserve_type == ReserveType::Isolated,
                                ),
                            ),
                            _ => Err(LendingError::MathOverflow),
                        },
                    }
                },
            },
        }
    }
}

proof fn lemma_deposits_valued_error(
    reserves: Seq<(Pubkey, Reserve)>,
    slot: u64,
    ds: Seq<ObligationCollateral>,
    k: int,
)
    requires
        0 <= k <= ds.len(),
        deposits_valued(reserves, slot, ds.subrange(0, k)) is Err,
    ensures
        deposits_valued(reserves, slot, ds) == deposits_valued(reserves, slot, ds.subrange(0, k)),
    decreases ds.len() - k,
{
    if k == ds.len() {
        assert(ds.subrange(0, k) =~= ds);
    } else {
        assert(ds.subrange(0, k + 1).drop_last() =~= ds.subrange(0, k));
        lemma_deposits_valued_error(reserves, slot, ds, k + 1);
    }
}

proof fn lemma_borrows_valued_error(
    reserves: Seq<(Pubkey, Reserve)>,
    slot: u64,
    bs: Seq<ObligationLiquidity>,
    k: int,
)
    requires
        0 <= k <= bs.len(),
        borrows_valued(reserves, slot, bs.subrange(0, k)) is Err,
    ensures
        borrows_valued(reserves, slot, bs) == borrows_valued(reserves, slot, bs.subrange(0, k)),
    decreases bs.len() - k,
{
    if k == bs.len() {
        assert(bs.subrange(0, k) =~= bs);
    } else {
        assert(bs.subrange(0, k + 1).drop_last() =~= bs.subrange(0, k));
        lemma_borrows_valued_error(reserves, slot, bs, k + 1);
    }
}

fn value_deposit(r: &Reserve, c: &ObligationCollateral) -> (res: Result<
    (Decimal, Decimal, Decimal, Decimal),
    LendingError,
>)
    ensures
        match res {
            Ok((mv, a, u, su)) => deposit_parts(*r, *c) == Some((mv@, a@, u@, su@)),
            Err(e) => deposit_parts(*r, *c) is None && e == LendingError::MathOverflow,
        },
{
    let rate = match r.collateral_exchange_rate() {
        Ok(x) => x,
        Err(e) => return Err(e),
    };
    let amount = match rate.decimal_collateral_to_liquidity(Decimal::from_u64(c.deposited_amount)) {
        Ok(x) => x,
        Err(e) => return Err(e),
    };
    let mv = match r.market_value(amount) {
        Ok(x) => x,
        Err(e) => return Err(e),
    };
    let lower = match r.market_value_lower_bound(amount) {
        Ok(x) => x,
        Err(e) => return Err(e),
    };
    let a = match lower.try_mul_rate(r.loan_to_value_ratio()) {
        Ok(x) => x,
        Err(e) => return Err(e),
    };
    let u = match mv.try_mul_rate(Rate::from_percent(r.config.liquidation_threshold)) {
        Ok(x) => x,
        Err(e) => return Err(e),
    };
    let su = match mv.try_mul_rate(Rate::from_percent(r.config.max_liquidation_threshold)) {
        Ok(x) => x,
        Err(e) => return Err(e),
    };
    Ok((mv, a, u, su))
}

fn value_borrow(r: &Reserve, b: &ObligationLiquidity) -> (res: Result<
    (ObligationLiquidity, Decimal, Decimal),
    LendingError,
>)
    ensures
        match res {
            Ok((nb, w, wu)) => borrow_parts(*r, *b) == Ok::<(nat, nat, nat, nat), LendingError>(
                (nb.borrowed_amount_wads@, nb.market_value@, w@, wu@),
            ) && nb.cumulative_borrow_rate_wads@ == r.liquidity.cumulative_borrow_rate_wads@
                && nb.borrow_reserve == b.borrow_reserve,
            Err(e) => borrow_parts(*r, *b) == Err::<(nat, nat, nat, nat), LendingError>(e),
        },
{
    let mut nb = *b;
    match nb.accrue_interest(r.liquidity.cumulative_borrow_rate_wads) {
        Ok(()) => {},
        Err(e) => return Err(e),
    }
    let mv = match r.market_value(nb.borrowed_amount_wads) {
        Ok(x) => x,
        Err(e) => return Err(e),
    };
    let uv = match r.market_value_upper_bound(nb.borrowed_amount_wads) {
        Ok(x) => x,
        Err(e) => return Err(e),
    };
    let weight = r.borrow_weight();
    let w = match mv.try_mul(weight) {
        Ok(x) => x,
        Err(e) => return Err(e),
    };
    let wu = match uv.try_mul(weight) {
        Ok(x) => x,
        Err(e) => return Err(e),
    };
    nb.market_value = mv;
    Ok((nb, w, wu))
}

/// Whether `new` is `old` with each deposit's value replaced by `vals`.
pub open spec fn revalued_deposits(
    old: Seq<ObligationCollateral>,
    new: Seq<ObligationCollateral>,
    vals: Seq<nat>,
) -> bool {
    &&& new.len() == old.len()
    &&& forall|i: int|
        0 <= i < old.len() ==> #[trigger] new[i].market_value@ == vals[i]
            && new[i].deposit_reserve == old[i].deposit_reserve
            && new[i].deposited_amount == old[i].deposited_amount
}

/// Whether `new` is `old` with each borrow's debt, cumulative borrow rate
/// and value replaced by `vals`.
pub open spec fn revalued_borrows(
    old: Seq<ObligationLiquidity>,
    new: Seq<ObligationLiquidity>,
    vals: Seq<(nat, nat, nat)>,
) -> bool {
    &&& new.len() == old.len()
    &&& forall|i: int|
        0 <= i < old.len() ==> #[trigger] new[i].borrowed_amount_wads@ == vals[i].0
            && new[i].cumulative_borrow_rate_wads@ == vals[i].1 && new[i].market_value@
            == vals[i].2 && new[i].borrow_reserve == old[i].borrow_reserve
}

/// Whether `new` holds the borrows of `bs` that owe something, the one of
/// greatest rank (by `ranks`) first.
pub open spec fn normalized_borrows(
    new: Seq<ObligationLiquidity>,
    bs: Seq<ObligationLiquidity>,
    ranks: Seq<BorrowRank>,
) -> bool {
    &&& new.len() == kept_borrows(bs).len()
    &&& new.len() > 0 ==> exists|k: int|
        0 <= k < new.len() && new == swap_front(kept_borrows(bs), k) && (forall|j: int|
            0 <= j < new.len() ==> !rank_lt(
                swap_front(kept_ranks(bs, ranks), k)[0],
                #[trigger] swap_front(kept_ranks(bs, ranks), k)[j],
            ))
}

/// Whether the entries of `new` are those of `old` revalued by `dvals` and
/// `bvals`, with empty entries dropped and the borrow of greatest rank (by
/// `ranks`) first.
pub open spec fn entries_refreshed(
    old: Obligation,
    new: Obligation,
    dvals: Seq<nat>,
    bvals: Seq<(nat, nat, nat)>,
    ranks: Seq<BorrowRank>,
) -> bool {
    &&& exists|ds: Seq<ObligationCollateral>|
        #![trigger revalued_deposits(old.deposits@, ds, dvals)]
        revalued_deposits(old.deposits@, ds, dvals) && new.deposits@ == kept_deposits(ds)
    &&& exists|bs: Seq<ObligationLiquidity>|
        #![trigger revalued_borrows(old.borrows@, bs, bvals)]
        revalued_borrows(old.borrows@, bs, bvals) && normalized_borrows(new.borrows@, bs, ranks)
}

/// Refreshes `obligation` at `slot` from the reserves in `reserves` (one
/// entry per reserve address; where an address repeats, its first entry
/// counts), each of which must be fresh: brings every borrow's interest up to its reserve,
/// values every deposit and borrow, recomputes the deposited, allowed,
/// unhealthy, super-unhealthy and borrowed values and the borrowed value's
/// upper bound, and whether an isolated asset is borrowed; then drops empty
/// entries and puts the borrow of greatest rank first.
pub fn refresh_obligation(
    obligation: &mut Obligation,
    reserves: &Vec<(Pubkey, Reserve)>,
    slot: u64,
) -> (r: Result<(), LendingError>)
    ensures
        match deposits_valued(reserves@, slot, old(obligation).deposits@) {
            Err(e) => r == Err::<(), LendingError>(e) && *final(obligation) == *old(obligation),
            Ok((dvals, dep, allowed, unh, sup)) => match borrows_valued(
                reserves@,
                slot,
                old(obligation).borrows@,
            ) {
                Err(e) => r == Err::<(), LendingError>(e) && *final(obligation) == *old(obligation),
                Ok((bvals, ranks, bv, upper, iso)) => {
                    &&& r is Ok
                    &&& final(obligation).deposited_value@ == dep
                    &&& final(obligation).allowed_borrow_value@ == allowed
                    &&& final(obligation).unhealthy_borrow_value@ == unh
                    &&& final(obligation).super_unhealthy_borrow_value@ == sup
                    &&& final(obligation).borrowed_value@ == bv
                    &&& final(obligation).borrowed_value_upper_bound@ == upper
                    &&& final(obligation).borrowing_isolated_asset == iso
                    &&& final(obligation).last_update == (LastUpdate { slot, stale: false })
                    &&& entries_refreshed(
                        *old(obligation),
                        *final(obligation),
                        dvals,
                        bvals,
                        ranks,
                    )
                    &&& *final(obligation) == (Obligation {
                        deposits: final(obligation).deposits,
                        borrows: final(obligation).borrows,
                        deposited_value: final(obligation).deposited_value,
                        allowed_borrow_value: final(obligation).allowed_borrow_value,
                        unhealthy_borrow_value: final(obligation).unhealthy_borrow_value,
                        super_unhealthy_borrow_value: final(obligation).super_unhealthy_borrow_value,
                        borrowed_value: final(obligation).borrowed_value,
                        borrowed_value_upper_bound: final(obligation).borrowed_value_upper_bound,
                        borrowing_isolated_asset: final(obligation).borrowing_isolated_asset,
                        last_update: final(obligation).last_update,
                        ..*old(obligation)
                    })
                },
            },
        },
{
    let mut deposited_value = Decimal::zero();
    let mut allowed_borrow_value = Decimal::zero();
    let mut unhealthy_borrow_value = Decimal::zero();
    let mut super_unhealthy_borrow_value = Decimal::zero();
    let mut deposits: Vec<ObligationCollateral> = Vec::new();
    let ghost mut dvals: Seq<nat> = seq![];
    let mut i: usize = 0;
    while i < obligation.deposits.len()
        invariant
            i <= obligation.deposits@.len(),
            deposits_valued(reserves@, slot, obligation.deposits@.subrange(0, i as int)) == Ok::<
                (Seq<nat>, nat, nat, nat, nat),
                LendingError,
            >(
                (
                    dvals,
                    deposited_value@,
                    allowed_borrow_value@,
                    unhealthy_borrow_value@,
                    super_unhealthy_borrow_value@,
                ),
            ),
            revalued_deposits(obligation.deposits@.subrange(0, i as int), deposits@, dvals),
            dvals.len() == i,
        decreases obligation.deposits@.len() - i,
    {
        let c = obligation.deposits[i];
        proof {
            assert(obligation.deposits@.subrange(0, i + 1).drop_last()
                =~= obligation.deposits@.subrange(0, i as int));
            assert(obligation.deposits@.subrange(0, i + 1).last() == c);
        }
        let k = match find_index(reserves, &c.deposit_reserve) {
            Some(k) => k,
            None => {
                proof {
                    lemma_deposits_valued_error(reserves@, slot, obligation.deposits@, i + 1);
                }
                return Err(LendingError::InvalidAccountInput);
            },
        };
        let reserve = reserves[k].1;
        if reserve.last_update.is_stale(slot) {
            proof {
                lemma_deposits_valued_error(reserves@, slot, obligation.deposits@, i + 1);
            }
            return Err(LendingError::ReserveStale);
        }
        let sums = match value_deposit(&reserve, &c) {
            Ok((mv, a, u, su)) => match (
                deposited_value.try_add(mv),
                allowed_borrow_value.try_add(a),
                unhealthy_borrow_value.try_add(u),
                super_unhealthy_borrow_value.try_add(su),
            ) {
                (Ok(d2), Ok(a2), Ok(u2), Ok(s2)) => Ok((mv, d2, a2, u2, s2)),
                _ => Err(LendingError::MathOverflow),
            },
            Err(e) => Err(e),
        };
        let (mv, d2, a2, u2, s2) = match sums {
            Ok(x) => x,
            Err(e) => {
                proof {
                    lemma_deposits_valued_error(reserves@, slot, obligation.deposits@, i + 1);
                }
                return Err(e);
            },
        };
        deposited_value = d2;
        allowed_borrow_value = a2;
        unhealthy_borrow_value = u2;
        super_unhealthy_borrow_value = s2;
        let ghost prev = deposits@;
        let ghost prev_vals = dvals;
        deposits.push(ObligationCollateral { market_value: mv, ..c });
        proof {
            dvals = dvals.push(mv@);
            assert(revalued_deposits(obligation.deposits@.subrange(0, i as int), prev, prev_vals));
            assert forall|t: int| 0 <= t < i + 1 implies #[trigger] deposits@[t].market_value@
                == dvals[t] && deposits@[t].deposit_reserve == obligation.deposits@.subrange(
                0,
                i + 1,
            )[t].deposit_reserve && deposits@[t].deposited_amount == obligation.deposits@.subrange(
                0,
                i + 1,
            )[t].deposited_amount by {
                assert(obligation.deposits@.subrange(0, i + 1)[t] == obligation.deposits@[t]);
                if t < i {
                    assert(deposits@[t] == prev[t]);
                    assert(dvals[t] == prev_vals[t]);
                    assert(obligation.deposits@.subrange(0, i as int)[t] == obligation.deposits@[t]);
                    assert(prev[t].market_value@ == prev_vals[t]);
                } else {
                    assert(deposits@[t] == (ObligationCollateral { market_value: mv, ..c }));
                    assert(dvals[t] == mv@);
                }
            }
        }
        i = i + 1;
    }
    proof {
        assert(obligation.deposits@.subrange(0, obligation.deposits@.len() as int)
            =~= obligation.deposits@);
    }
    let mut borrowed_value = Decimal::zero();
    let mut borrowed_value_upper_bound = Decimal::zero();
    let mut borrowing_isolated_asset = false;
    let mut borrows: Vec<ObligationLiquidity> = Vec::new();
    let mut ranks: Vec<BorrowRank> = Vec::new();
    let ghost mut bvals: Seq<(nat, nat, nat)> = seq![];
    let mut j: usize = 0;
    while j < obligation.borrows.len()
        invariant
            j <= obligation.borrows@.len(),
            deposits_valued(reserves@, slot, obligation.deposits@) == Ok::<
                (Seq<nat>, nat, nat, nat, nat),
                LendingError,
            >(
                (
                    dvals,
                    deposited_value@,
                    allowed_borrow_value@,
                    unhealthy_borrow_value@,
                    super_unhealthy_borrow_value@,
                ),
            ),
            revalued_deposits(obligation.deposits@, deposits@, dvals),
            dvals.len() == obligation.deposits@.len(),
            borrows_valued(reserves@, slot, obligation.borrows@.subrange(0, j as int)) == Ok::<
                (Seq<(nat, nat, nat)>, Seq<BorrowRank>, nat, nat, bool),
                LendingError,
            >(
                (
                    bvals,
                    ranks@,
                    borrowed_value@,
                    borrowed_value_upper_bound@,
                    borrowing_isolated_asset,
                ),
            ),
            revalued_borrows(obligation.borrows@.subrange(0, j as int), borrows@, bvals),
            ranks@.len() == j,
            bvals.len() == j,
        decreases obligation.borrows@.len() - j,
    {
        let b = obligation.borrows[j];
        proof {
            assert(obligation.borrows@.subrange(0, j + 1).drop_last()
                =~= obligation.borrows@.subrange(0, j as int));
            assert(obligation.borrows@.subrange(0, j + 1).last() == b);
        }
        let k = match find_index(reserves, &b.borrow_reserve) {
            Some(k) => k,
            None => {
                proof {
                    lemma_borrows_valued_error(reserves@, slot, obligation.borrows@, j + 1);
                }
                return Err(LendingError::InvalidAccountInput);
            },
        };
        let reserve = reserves[k].1;
        if reserve.last_update.is_stale(slot) {
            proof {
                lemma_borrows_valued_error(reserves@, slot, obligation.borrows@, j + 1);
            }
            return Err(LendingError::ReserveStale);
        }
        let sums = match value_borrow(&reserve, &b) {
            Ok((nb, w, wu)) => match (
                borrowed_value.try_add(w),
                borrowed_value_upper_bound.try_add(wu),
            ) {
                (Ok(bv2), Ok(up2)) => Ok((nb, bv2, up2)),
                _ => Err(LendingError::MathOverflow),
            },
            Err(e) => Err(e),
        };
        let (nb, bv2, up2) = match sums {
            Ok(x) => x,
            Err(e) => {
                proof {
                    lemma_borrows_valued_error(reserves@, slot, obligation.borrows@, j + 1);
                }
                return Err(e);
            },
        };
        borrowed_value = bv2;
        borrowed_value_upper_bound = up2;
        borrowing_isolated_asset = borrowing_isolated_asset || reserve.config.reserve_type
            == ReserveType::Isolated;
        let ghost prev = borrows@;
        let ghost prev_vals = bvals;
        borrows.push(nb);
        ranks.push((reserve.config.added_borrow_weight_bps, reserve.liquidity.mint_pubkey));
        proof {
            bvals = bvals.push(
                (
                    nb.borrowed_amount_wads@,
                    reserve.liquidity.cumulative_borrow_rate_wads@,
                    nb.market_value@,
                ),
            );
            assert forall|t: int| 0 <= t < j + 1 implies #[trigger] borrows@[t].borrowed_amount_wads@
                == bvals[t].0 && borrows@[t].cumulative_borrow_rate_wads@ == bvals[t].1
                && borrows@[t].market_value@ == bvals[t].2 && borrows@[t].borrow_reserve
                == obligation.borrows@.subrange(0, j + 1)[t].borrow_reserve by {
                assert(obligation.borrows@.subrange(0, j + 1)[t] == obligation.borrows@[t]);
                if t < j {
                    assert(borrows@[t] == prev[t]);
                    assert(bvals[t] == prev_vals[t]);
                    assert(obligation.borrows@.subrange(0, j as int)[t] == obligation.borrows@[t]);
                }
            }
        }
        j = j + 1;
    }
    proof {
        assert(obligation.borrows@.subrange(0, obligation.borrows@.len() as int)
            =~= obligation.borrows@);
    }
    let ghost ds = deposits@;
    let ghost bs = borrows@;
    let ghost rs = ranks@;
    proof {
        assert(obligation.deposits@ == old(obligation).deposits@);
        assert(obligation.borrows@ == old(obligation).borrows@);
        if deposits_distinct(old(obligation).deposits@) {
            assert forall|a: int, b: int| 0 <= a < b < deposits@.len() implies #[trigger] deposits@[
                a
            ].deposit_reserve@ != #[trigger] deposits@[b].deposit_reserve@ by {
                assert(deposits@[a].market_value@ == dvals[a]);
                assert(deposits@[b].market_value@ == dvals[b]);
                assert(deposits@[a].deposit_reserve == old(obligation).deposits@[a].deposit_reserve);
                assert(deposits@[b].deposit_reserve == old(obligation).deposits@[b].deposit_reserve);
            }
        }
        if borrows_distinct(old(obligation).borrows@) {
            assert forall|a: int, b: int| 0 <= a < b < borrows@.len() implies #[trigger] borrows@[
                a
            ].borrow_reserve@ != #[trigger] borrows@[b].borrow_reserve@ by {
                assert(borrows@[a].borrowed_amount_wads@ == bvals[a].0);
                assert(borrows@[b].borrowed_amount_wads@ == bvals[b].0);
                assert(borrows@[a].borrow_reserve == old(obligation).borrows@[a].borrow_reserve);
                assert(borrows@[b].borrow_reserve == old(obligation).borrows@[b].borrow_reserve);
            }
        }
    }
    obligation.deposits = deposits;
    obligation.borrows = borrows;
    obligation.normalize(ranks);
    obligation.deposited_value = deposited_value;
    obligation.allowed_borrow_value = allowed_borrow_value;
    obligation.unhealthy_borrow_value = unhealthy_borrow_value;
    obligation.super_unhealthy_borrow_value = super_unhealthy_borrow_value;
    obligation.borrowed_value = borrowed_value;
    obligation.borrowed_value_upper_bound = borrowed_value_upper_bound;
    obligation.borrowing_isolated_asset = borrowing_isolated_asset;
    obligation.last_update = LastUpdate { slot, stale: false };
    proof {
        assert(revalued_deposits(old(obligation).deposits@, ds, dvals));
        assert(revalued_borrows(old(obligation).borrows@, bs, bvals));
        assert(obligation.deposits@ == kept_deposits(ds));
        assert(normalized_borrows(obligation.borrows@, bs, rs));
        assert(entries_refreshed(*old(obligation), *obligation, dvals, bvals, rs));
    }
    Ok(())
}

} // verus!
