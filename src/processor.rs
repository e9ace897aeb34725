//! The market operations. Each checks its preconditions in a fixed order and
//! fails with the first that does not hold; then it changes the reserve, the
//! obligation and the rate limiters together, or changes nothing.
use crate::error::LendingError;
use crate::math::decimal::{dec_add, dec_floor, dec_sub, wad, Decimal};
use crate::pubkey::Pubkey;
use crate::state::last_update::LastUpdate;
use crate::state::lending_market::LendingMarket;
use crate::state::obligation::{
    borrows_distinct, deposits_distinct, max_withdraw_of, Obligation, ObligationCollateral,
    ObligationLiquidity,
};
use crate::state::rate_limiter::{allows, remaining_of, updated};
use crate::state::reserve::{
    after_deposit, after_redeem, borrow_of, collateral_for, config_valid, liquidation_of,
    liquidity_for, liquidity_for_value, nmax, nmin, protocol_fee_of, repay_of, total_supply_of,
    validate_reserve_config, value_at, CalculateBorrowResult, CalculateLiquidationResult, Reserve,
    ReserveConfig, ReserveLiquidity, ReserveType,
};
use vstd::prelude::*;

verus! {

/// Whether a record was refreshed in slot `slot` and not changed since.
pub open spec fn fresh(lu: LastUpdate, slot: u64) -> bool {
    lu.slot == slot && !lu.stale
}

/// `r` marked stale.
pub open spec fn stale_reserve(r: Reserve) -> Reserve {
    Reserve { last_update: LastUpdate { stale: true, ..r.last_update }, ..r }
}

/// `deposits` after `amount` collateral tokens of reserve `key` were credited:
/// to the first entry of that reserve, or to a new entry at the end.
pub open spec fn credited(
    old: Seq<ObligationCollateral>,
    new: Seq<ObligationCollateral>,
    key: Pubkey,
    amount: u64,
) -> bool {
    ||| exists|i: int|
        0 <= i < old.len() && old[i].deposit_reserve@ == key@ && (forall|j: int|
            0 <= j < i ==> #[trigger] old[j].deposit_reserve@ != key@) && old[i].deposited_amount
            + amount <= u64::MAX && new == old.update(
            i,
            ObligationCollateral {
                deposited_amount: (old[i].deposited_amount + amount) as u64,
                ..old[i]
            },
        )
    ||| (forall|j: int| 0 <= j < old.len() ==> #[trigger] old[j].deposit_reserve@ != key@)
        && new.len() == old.len() + 1 && new.subrange(0, old.len() as int) == old
        && new.last().deposit_reserve == key && new.last().deposited_amount == amount
        && new.last().market_value@ == 0
}

/// `borrows` after the debt of entry `i` fell to `rest`: an entry left with
/// no debt is removed.
pub open spec fn reduced(
    old: Seq<ObligationLiquidity>,
    new: Seq<ObligationLiquidity>,
    i: int,
    rest: nat,
) -> bool {
    if rest == 0 {
        new == old.remove(i)
    } else {
        new.len() == old.len() && (forall|j: int|
            0 <= j < old.len() && j != i ==> #[trigger] new[j] == old[j]) && new[i].borrowed_amount_wads@ == rest
            && new[i].borrow_reserve == old[i].borrow_reserve
            && new[i].cumulative_borrow_rate_wads == old[i].cumulative_borrow_rate_wads
            && new[i].market_value == old[i].market_value
    }
}

/// The first entry of `deposits` in reserve `key`.
pub open spec fn first_deposit(deposits: Seq<ObligationCollateral>, key: Pubkey, i: int) -> bool {
    0 <= i < deposits.len() && deposits[i].deposit_reserve@ == key@ && forall|j: int|
        0 <= j < i ==> #[trigger] deposits[j].deposit_reserve@ != key@
}

/// There is at most one first entry of a reserve.
pub proof fn lemma_first_deposit_unique(ds: Seq<ObligationCollateral>, key: Pubkey, a: int, b: int)
    requires
        first_deposit(ds, key, a),
        first_deposit(ds, key, b),
    ensures
        a == b,
{
    if a < b {
        assert(ds[a].deposit_reserve@ != key@);
    } else if b < a {
        assert(ds[b].deposit_reserve@ != key@);
    }
}

/// There is at most one first entry of a reserve.
pub proof fn lemma_first_borrow_unique(bs: Seq<ObligationLiquidity>, key: Pubkey, a: int, b: int)
    requires
        first_borrow(bs, key, a),
        first_borrow(bs, key, b),
    ensures
        a == b,
{
    if a < b {
        assert(bs[a].borrow_reserve@ != key@);
    } else if b < a {
        assert(bs[b].borrow_reserve@ != key@);
    }
}

/// The first entry of `borrows` from reserve `key`.
pub open spec fn first_borrow(borrows: Seq<ObligationLiquidity>, key: Pubkey, i: int) -> bool {
    0 <= i < borrows.len() && borrows[i].borrow_reserve@ == key@ && forall|j: int|
        0 <= j < i ==> #[trigger] borrows[j].borrow_reserve@ != key@
}

/// Crediting collateral keeps the deposits in distinct reserves: it adds to
/// the entry of the reserve, or opens one only where there is none.
pub proof fn lemma_credit_keeps_distinct(
    old: Seq<ObligationCollateral>,
    new: Seq<ObligationCollateral>,
    key: Pubkey,
    amount: u64,
)
    requires
        deposits_distinct(old),
        credited(old, new, key, amount),
    ensures
        deposits_distinct(new),
{
    if forall|j: int| 0 <= j < old.len() ==> #[trigger] old[j].deposit_reserve@ != key@ {
        if new.len() == old.len() + 1 && new.subrange(0, old.len() as int) == old {
            assert forall|i: int, j: int| 0 <= i < j < new.len() implies #[trigger] new[i].deposit_reserve@
                != #[trigger] new[j].deposit_reserve@ by {
                assert(new[i] == new.subrange(0, old.len() as int)[i]);
                if j < old.len() {
                    assert(new[j] == new.subrange(0, old.len() as int)[j]);
                } else {
                    assert(new[j] == new.last());
                }
            }
        }
    }
    if exists|i: int|
        0 <= i < old.len() && old[i].deposit_reserve@ == key@ && (forall|j: int|
            0 <= j < i ==> #[trigger] old[j].deposit_reserve@ != key@) && old[i].deposited_amount
            + amount <= u64::MAX && new == old.update(
            i,
            ObligationCollateral {
                deposited_amount: (old[i].deposited_amount + amount) as u64,
                ..old[i]
            },
        ) {
        assert forall|i: int, j: int| 0 <= i < j < new.len() implies #[trigger] new[i].deposit_reserve@
            != #[trigger] new[j].deposit_reserve@ by {
            assert(new[i].deposit_reserve == old[i].deposit_reserve);
            assert(new[j].deposit_reserve == old[j].deposit_reserve);
        }
    }
}

/// Lending keeps the borrows from distinct reserves: it adds to the entry of
/// the reserve, or opens one only where there is none.
pub proof fn lemma_borrow_credit_keeps_distinct(
    old: Seq<ObligationLiquidity>,
    new: Seq<ObligationLiquidity>,
    key: Pubkey,
    amount: nat,
    cbr: Decimal,
)
    requires
        borrows_distinct(old),
        borrow_credited(old, new, key, amount, cbr),
    ensures
        borrows_distinct(new),
{
    if no_borrow(old, key) && new.len() == old.len() + 1 && new.subrange(0, old.len() as int)
        == old {
        assert forall|i: int, j: int| 0 <= i < j < new.len() implies #[trigger] new[i].borrow_reserve@
            != #[trigger] new[j].borrow_reserve@ by {
            assert(new[i] == new.subrange(0, old.len() as int)[i]);
            if j < old.len() {
                assert(new[j] == new.subrange(0, old.len() as int)[j]);
            } else {
                assert(new[j] == new.last());
            }
        }
    }
    if exists|i: int|
        first_borrow(old, key, i) && dec_add(old[i].borrowed_amount_wads@, amount) == Some(
            new[i].borrowed_amount_wads@,
        ) && new.len() == old.len() && (forall|j: int|
            0 <= j < old.len() && j != i ==> #[trigger] new[j] == old[j])
            && new[i].borrow_reserve == old[i].borrow_reserve {
        let w = choose|i: int|
            first_borrow(old, key, i) && dec_add(old[i].borrowed_amount_wads@, amount) == Some(
                new[i].borrowed_amount_wads@,
            ) && new.len() == old.len() && (forall|j: int|
                0 <= j < old.len() && j != i ==> #[trigger] new[j] == old[j])
                && new[i].borrow_reserve == old[i].borrow_reserve;
        assert forall|i: int, j: int| 0 <= i < j < new.len() implies #[trigger] new[i].borrow_reserve@
            != #[trigger] new[j].borrow_reserve@ by {
            if i != w {
                assert(new[i] == old[i]);
            }
            if j != w {
                assert(new[j] == old[j]);
            }
        }
    }
}

/// Whether `borrows` holds no entry from reserve `key`.
pub open spec fn no_borrow(borrows: Seq<ObligationLiquidity>, key: Pubkey) -> bool {
    forall|j: int| 0 <= j < borrows.len() ==> #[trigger] borrows[j].borrow_reserve@ != key@
}

/// Deposits `liquidity_amount` tokens in `reserve`, and returns the
/// collateral tokens minted for them.
pub fn deposit_reserve_liquidity(reserve: &mut Reserve, liquidity_amount: u64, slot: u64) -> (r:
    Result<u64, LendingError>)
    ensures
        liquidity_amount == 0 ==> r == Err::<u64, LendingError>(LendingError::InvalidAmount),
        liquidity_amount > 0 && !fresh(old(reserve).last_update, slot) ==> r == Err::<
            u64,
            LendingError,
        >(LendingError::ReserveStale),
        liquidity_amount > 0 && fresh(old(reserve).last_update, slot)
            && old(reserve).liquidity.available_amount + liquidity_amount > old(
            reserve,
        ).config.deposit_limit ==> r == Err::<u64, LendingError>(LendingError::InvalidAmount),
        (liquidity_amount > 0 && fresh(old(reserve).last_update, slot)
            && old(reserve).liquidity.available_amount + liquidity_amount <= old(
            reserve,
        ).config.deposit_limit && (collateral_for(*old(reserve), liquidity_amount as nat) matches Some(
            c,
        ) && old(reserve).collateral.mint_total_supply + c <= u64::MAX)) ==> r is Ok,
        match r {
            Ok(c) => collateral_for(*old(reserve), liquidity_amount as nat) == Some(c as nat)
                && old(reserve).collateral.mint_total_supply + c <= u64::MAX && *final(reserve)
                == stale_reserve(after_deposit(*old(reserve), liquidity_amount as nat, c as nat)),
            Err(e) => *final(reserve) == *old(reserve) && (e == LendingError::MathOverflow ==> match
            collateral_for(*old(reserve), liquidity_amount as nat) {
                None => true,
                Some(c) => old(reserve).collateral.mint_total_supply + c > u64::MAX,
            }),
        },
{
    if liquidity_amount == 0 {
        return Err(LendingError::InvalidAmount);
    }
    if reserve.last_update.is_stale(slot) {
        return Err(LendingError::ReserveStale);
    }
    if reserve.liquidity.available_amount > reserve.config.deposit_limit || liquidity_amount
        > reserve.config.deposit_limit - reserve.liquidity.available_amount {
        return Err(LendingError::InvalidAmount);
    }
    let collateral_amount = match reserve.deposit_liquidity(liquidity_amount) {
        Ok(c) => c,
        Err(e) => return Err(e),
    };
    reserve.last_update.mark_stale();
    Ok(collateral_amount)
}

/// Redeems `collateral_amount` collateral tokens of `reserve`, and returns
/// the liquidity tokens paid for them.
pub fn redeem_reserve_collateral(reserve: &mut Reserve, collateral_amount: u64, slot: u64) -> (r:
    Result<u64, LendingError>)
    ensures
        collateral_amount == 0 ==> r == Err::<u64, LendingError>(LendingError::InvalidAmount),
        collateral_amount > 0 && !fresh(old(reserve).last_update, slot) ==> r == Err::<
            u64,
            LendingError,
        >(LendingError::ReserveStale),
        match r {
            Ok(l) => liquidity_for(*old(reserve), collateral_amount as nat) == Some(l as nat)
                && *final(reserve) == stale_reserve(
                after_redeem(*old(reserve), collateral_amount as nat, l as nat),
            ) && l <= old(reserve).liquidity.available_amount,
            Err(e) => *final(reserve) == *old(reserve) && (collateral_amount > 0 && fresh(
                old(reserve).last_update,
                slot,
            ) ==> match liquidity_for(*old(reserve), collateral_amount as nat) {
                None => e == LendingError::MathOverflow,
                Some(l) => if l > old(reserve).liquidity.available_amount {
                    e == LendingError::InsufficientLiquidity
                } else {
                    collateral_amount > old(reserve).collateral.mint_total_supply && e
                        == LendingError::MathOverflow
                },
            }),
        },
{
    if collateral_amount == 0 {
        return Err(LendingError::InvalidAmount);
    }
    if reserve.last_update.is_stale(slot) {
        return Err(LendingError::ReserveStale);
    }
    let liquidity_amount = match reserve.redeem_collateral(collateral_amount) {
        Ok(l) => l,
        Err(e) => return Err(e),
    };
    reserve.last_update.mark_stale();
    Ok(liquidity_amount)
}

/// Credits `collateral_amount` collateral tokens of the reserve `reserve_key`
/// to `obligation`.
pub fn deposit_obligation_collateral(
    obligation: &mut Obligation,
    reserve: &Reserve,
    reserve_key: &Pubkey,
    collateral_amount: u64,
    slot: u64,
) -> (r: Result<(), LendingError>)
    ensures
        collateral_amount == 0 ==> r == Err::<(), LendingError>(LendingError::InvalidAmount),
        collateral_amount > 0 && !fresh(reserve.last_update, slot) ==> r == Err::<(), LendingError>(
            LendingError::ReserveStale,
        ),
        collateral_amount > 0 && fresh(reserve.last_update, slot) && ((forall|j: int|
            0 <= j < old(obligation).deposits@.len()
                ==> #[trigger] old(obligation).deposits@[j].deposit_reserve@ != reserve_key@)
            || exists|i: int|
            first_deposit(old(obligation).deposits@, *reserve_key, i)
                && old(obligation).deposits@[i].deposited_amount + collateral_amount <= u64::MAX)
            ==> r is Ok,
        match r {
            Ok(()) => credited(
                old(obligation).deposits@,
                final(obligation).deposits@,
                *reserve_key,
                collateral_amount,
            ) && *final(obligation) == (Obligation {
                deposits: final(obligation).deposits,
                last_update: LastUpdate { stale: true, ..old(obligation).last_update },
                ..*old(obligation)
            }),
            Err(_) => *final(obligation) == *old(obligation),
        },
{
    if collateral_amount == 0 {
        return Err(LendingError::InvalidAmount);
    }
    if reserve.last_update.is_stale(slot) {
        return Err(LendingError::ReserveStale);
    }
    match obligation.find_collateral_in_deposits(reserve_key) {
        Some(i) => {
            let entry = obligation.deposits[i];
            if entry.deposited_amount > u64::MAX - collateral_amount {
                return Err(LendingError::MathOverflow);
            }
            obligation.deposits.set(
                i,
                ObligationCollateral {
                    deposited_amount: entry.deposited_amount + collateral_amount,
                    ..entry
                },
            );
        },
        None => {
            obligation.deposits.push(
                ObligationCollateral {
                    deposit_reserve: *reserve_key,
                    deposited_amount: collateral_amount,
                    market_value: Decimal::zero(),
                },
            );
            proof {
                assert(obligation.deposits@.subrange(0, old(obligation).deposits@.len() as int)
                    =~= old(obligation).deposits@);
            }
        },
    }
    obligation.last_update.mark_stale();
    Ok(())
}

/// Takes the debt of entry `i` of the obligation down by `settle`,
/// removing the entry when nothing is left.
fn settle_borrow(obligation: &mut Obligation, i: usize, settle: Decimal)
    requires
        i < old(obligation).borrows@.len(),
        settle@ <= old(obligation).borrows@[i as int].borrowed_amount_wads@,
    ensures
        reduced(
            old(obligation).borrows@,
            final(obligation).borrows@,
            i as int,
            (old(obligation).borrows@[i as int].borrowed_amount_wads@ - settle@) as nat,
        ),
        *final(obligation) == (Obligation { borrows: final(obligation).borrows, ..*old(obligation) }),
{
    let entry = obligation.borrows[i];
    let rest = match entry.borrowed_amount_wads.try_sub(settle) {
        Ok(x) => x,
        Err(_) => entry.borrowed_amount_wads,
    };
    if rest.is_zero() {
        obligation.borrows.remove(i);
    } else {
        obligation.borrows.set(i, ObligationLiquidity { borrowed_amount_wads: rest, ..entry });
    }
}

/// Repays up to `liquidity_amount` tokens (all of the debt where it is
/// `u64::MAX`) of the obligation's borrow from the reserve `reserve_key`, and
/// returns the tokens taken.
pub fn repay_obligation_liquidity(
    reserve: &mut Reserve,
    reserve_key: &Pubkey,
    obligation: &mut Obligation,
    liquidity_amount: u64,
    slot: u64,
) -> (r: Result<u64, LendingError>)
    ensures
        liquidity_amount == 0 ==> r == Err::<u64, LendingError>(LendingError::InvalidAmount),
        liquidity_amount > 0 && !fresh(old(reserve).last_update, slot) ==> r == Err::<
            u64,
            LendingError,
        >(LendingError::ReserveStale),
        liquidity_amount > 0 && fresh(old(reserve).last_update, slot) && no_borrow(
            old(obligation).borrows@,
            *reserve_key,
        ) ==> r == Err::<u64, LendingError>(LendingError::InvalidAccountInput),
        (liquidity_amount > 0 && fresh(old(reserve).last_update, slot) && exists|i: int|
            first_borrow(old(obligation).borrows@, *reserve_key, i) && match repay_of(
                liquidity_amount,
                old(obligation).borrows@[i].borrowed_amount_wads@,
            ) {
                Some((_, p)) => old(reserve).liquidity.available_amount + p <= u64::MAX,
                None => false,
            }) ==> r is Ok,
        match r {
            Ok(repaid) => exists|i: int|
                first_borrow(old(obligation).borrows@, *reserve_key, i) && {
                    let owed = old(obligation).borrows@[i].borrowed_amount_wads@;
                    repay_of(liquidity_amount, owed) matches Some((settle, p)) && p == repaid
                        && settle <= owed && reduced(
                        old(obligation).borrows@,
                        final(obligation).borrows@,
                        i,
                        (owed - settle) as nat,
                    ) && old(reserve).liquidity.available_amount + repaid <= u64::MAX
                        && final(reserve).liquidity.available_amount == old(
                        reserve,
                    ).liquidity.available_amount + repaid
                        && final(reserve).liquidity.borrowed_amount_wads@ == old(
                        reserve,
                    ).liquidity.borrowed_amount_wads@ - nmin(
                        settle,
                        old(reserve).liquidity.borrowed_amount_wads@,
                    )
                },
            Err(_) => *final(reserve) == *old(reserve) && *final(obligation) == *old(obligation),
        },
        r is Ok ==> *final(reserve) == stale_reserve(
            Reserve { liquidity: final(reserve).liquidity, ..*old(reserve) },
        ) && final(reserve).liquidity == (ReserveLiquidity {
            available_amount: final(reserve).liquidity.available_amount,
            borrowed_amount_wads: final(reserve).liquidity.borrowed_amount_wads,
            ..old(reserve).liquidity
        }) && *final(obligation) == (Obligation {
            borrows: final(obligation).borrows,
            last_update: LastUpdate { stale: true, ..old(obligation).last_update },
            ..*old(obligation)
        }),
{
    if liquidity_amount == 0 {
        return Err(LendingError::InvalidAmount);
    }
    if reserve.last_update.is_stale(slot) {
        return Err(LendingError::ReserveStale);
    }
    let i = match obligation.find_liquidity_in_borrows(reserve_key) {
        Some(i) => i,
        None => return Err(LendingError::InvalidAccountInput),
    };
    let owed = obligation.borrows[i].borrowed_amount_wads;
    let repay = match reserve.calculate_repay(liquidity_amount, owed) {
        Ok(x) => x,
        Err(e) => return Err(e),
    };
    match reserve.liquidity.repay(repay.repay_amount, repay.settle_amount) {
        Ok(()) => {},
        Err(e) => return Err(e),
    }
    let ghost borrows_before = obligation.borrows@;
    settle_borrow(obligation, i, repay.settle_amount);
    reserve.last_update.mark_stale();
    obligation.last_update.mark_stale();
    proof {
        assert(borrows_before == old(obligation).borrows@);
        assert(first_borrow(old(obligation).borrows@, *reserve_key, i as int));
    }
    Ok(repay.repay_amount)
}

/// Writes off up to `liquidity_amount` tokens (all where it is `u64::MAX`)
/// of the obligation's borrow from the reserve `reserve_key`: only the
/// market's owner may, and only on an obligation without collateral. The
/// loss falls on the reserve's depositors through the exchange rate.
pub fn forgive_debt(
    market: &LendingMarket,
    signer: &Pubkey,
    reserve: &mut Reserve,
    reserve_key: &Pubkey,
    obligation: &mut Obligation,
    liquidity_amount: u64,
    slot: u64,
) -> (r: Result<(), LendingError>)
    ensures
        signer@ != market.owner@ ==> r == Err::<(), LendingError>(LendingError::InvalidMarketOwner),
        signer@ == market.owner@ && old(obligation).deposits@.len() > 0 ==> r == Err::<
            (),
            LendingError,
        >(LendingError::InvalidAccountInput),
        signer@ == market.owner@ && old(obligation).deposits@.len() == 0 && !fresh(
            old(reserve).last_update,
            slot,
        ) ==> r == Err::<(), LendingError>(LendingError::ReserveStale),
        signer@ == market.owner@ && old(obligation).deposits@.len() == 0 && fresh(
            old(reserve).last_update,
            slot,
        ) && !fresh(old(obligation).last_update, slot) ==> r == Err::<(), LendingError>(
            LendingError::ObligationStale,
        ),
        (signer@ == market.owner@ && old(obligation).deposits@.len() == 0 && fresh(
            old(reserve).last_update,
            slot,
        ) && fresh(old(obligation).last_update, slot) && exists|i: int|
            first_borrow(old(obligation).borrows@, *reserve_key, i) && {
                let owed = old(obligation).borrows@[i].borrowed_amount_wads@;
                let settle = if liquidity_amount == u64::MAX {
                    owed
                } else {
                    nmin((liquidity_amount as nat) * wad(), owed)
                };
                settle <= old(reserve).liquidity.borrowed_amount_wads@ && match total_supply_of(
                    old(reserve).liquidity,
                ) {
                    Some(t) => settle <= t,
                    None => false,
                }
            }) ==> r is Ok,
        match r {
            Ok(()) => exists|i: int|
                first_borrow(old(obligation).borrows@, *reserve_key, i) && {
                    let owed = old(obligation).borrows@[i].borrowed_amount_wads@;
                    let settle = if liquidity_amount == u64::MAX {
                        owed
                    } else {
                        nmin((liquidity_amount as nat) * wad(), owed)
                    };
                    &&& reduced(
                        old(obligation).borrows@,
                        final(obligation).borrows@,
                        i,
                        (owed - settle) as nat,
                    )
                    &&& dec_sub(old(reserve).liquidity.borrowed_amount_wads@, settle) == Some(
                        final(reserve).liquidity.borrowed_amount_wads@,
                    )
                    &&& final(reserve).liquidity == (ReserveLiquidity {
                        borrowed_amount_wads: final(reserve).liquidity.borrowed_amount_wads,
                        ..old(reserve).liquidity
                    })
                    &&& *final(reserve) == stale_reserve(
                        Reserve { liquidity: final(reserve).liquidity, ..*old(reserve) },
                    )
                    &&& *final(obligation) == (Obligation {
                        borrows: final(obligation).borrows,
                        last_update: LastUpdate { stale: true, ..old(obligation).last_update },
                        ..*old(obligation)
                    })
                },
            Err(_) => *final(reserve) == *old(reserve) && *final(obligation) == *old(obligation),
        },
{
    if !signer.same(&market.owner) {
        return Err(LendingError::InvalidMarketOwner);
    }
    if obligation.deposits.len() > 0 {
        return Err(LendingError::InvalidAccountInput);
    }
    if reserve.last_update.is_stale(slot) {
        return Err(LendingError::ReserveStale);
    }
    if obligation.last_update.is_stale(slot) {
        return Err(LendingError::ObligationStale);
    }
    let i = match obligation.find_liquidity_in_borrows(reserve_key) {
        Some(i) => i,
        None => return Err(LendingError::InvalidAccountInput),
    };
    let owed = obligation.borrows[i].borrowed_amount_wads;
    let settle = if liquidity_amount == u64::MAX {
        owed
    } else {
        Decimal::from_u64(liquidity_amount).min(owed)
    };
    match reserve.liquidity.forgive_debt(settle) {
        Ok(()) => {},
        Err(e) => return Err(e),
    }
    settle_borrow(obligation, i, settle);
    reserve.last_update.mark_stale();
    obligation.last_update.mark_stale();
    proof {
        assert(first_borrow(old(obligation).borrows@, *reserve_key, i as int));
    }
    Ok(())
}

/// Pays the protocol's fees out of `reserve`, as far as its available
/// liquidity goes, and returns the tokens paid.
pub fn redeem_fees(reserve: &mut Reserve, slot: u64) -> (r: Result<u64, LendingError>)
    ensures
        !fresh(old(reserve).last_update, slot) ==> r == Err::<u64, LendingError>(
            LendingError::ReserveStale,
        ),
        fresh(old(reserve).last_update, slot) && crate::math::decimal::dec_floor(
            old(reserve).liquidity.accumulated_protocol_fees_wads@,
        ) is Some ==> r is Ok,
        match r {
            Ok(paid) => match crate::math::decimal::dec_floor(
                old(reserve).liquidity.accumulated_protocol_fees_wads@,
            ) {
                None => false,
                Some(f) => paid == nmin(old(reserve).liquidity.available_amount as nat, f)
                    && final(reserve).liquidity.available_amount
                    == old(reserve).liquidity.available_amount - paid
                    && final(reserve).liquidity.accumulated_protocol_fees_wads@
                    == old(reserve).liquidity.accumulated_protocol_fees_wads@ - (paid as nat) * wad()
                    && *final(reserve) == stale_reserve(
                    Reserve { liquidity: final(reserve).liquidity, ..*old(reserve) },
                ) && final(reserve).liquidity == (ReserveLiquidity {
                    available_amount: final(reserve).liquidity.available_amount,
                    accumulated_protocol_fees_wads:
                        final(reserve).liquidity.accumulated_protocol_fees_wads,
                    ..old(reserve).liquidity
                }),
            },
            Err(_) => *final(reserve) == *old(reserve),
        },
{
    if reserve.last_update.is_stale(slot) {
        return Err(LendingError::ReserveStale);
    }
    let amount = match reserve.calculate_redeem_fees() {
        Ok(a) => a,
        Err(e) => return Err(e),
    };
    proof {
        let f = reserve.liquidity.accumulated_protocol_fees_wads@;
        vstd::arithmetic::div_mod::lemma_fundamental_div_mod(f as int, wad() as int);
        assert((amount as nat) * wad() <= (f / wad()) * wad()) by (nonlinear_arith)
            requires
                amount <= f / wad(),
        ;
    }
    match reserve.liquidity.redeem_fees(amount) {
        Ok(()) => {},
        Err(e) => return Err(e),
    }
    reserve.last_update.mark_stale();
    Ok(amount)
}


/// Most liquidity that the reserve may lend now: what its borrow limit
/// leaves, what its rate limiter allows, and what the market's rate limiter
/// allows in value, converted at the higher of the two prices.
pub open spec fn borrow_capacity(market: LendingMarket, reserve: Reserve, slot: u64) -> Option<nat> {
    let limit = (reserve.config.borrow_limit as nat) * wad();
    let borrowed = reserve.liquidity.borrowed_amount_wads@;
    let by_limit: nat = if borrowed >= limit {
        0
    } else {
        (limit - borrowed) as nat
    };
    let by_reserve = nmin(by_limit, remaining_of(reserve.rate_limiter, slot) * wad());
    if market.rate_limiter.config.window_duration == 0 {
        Some(by_reserve)
    } else {
        match liquidity_for_value(reserve, remaining_of(market.rate_limiter, slot) * wad()) {
            None => None,
            Some(t) => Some(nmin(by_reserve, t)),
        }
    }
}

/// `borrows` after `amount` was lent from reserve `key`: added to the first
/// entry of that reserve, or to a new entry at the end that records the
/// reserve's cumulative borrow rate `cbr`.
pub open spec fn borrow_credited(
    old: Seq<ObligationLiquidity>,
    new: Seq<ObligationLiquidity>,
    key: Pubkey,
    amount: nat,
    cbr: Decimal,
) -> bool {
    ||| exists|i: int|
        first_borrow(old, key, i) && dec_add(old[i].borrowed_amount_wads@, amount) == Some(
            new[i].borrowed_amount_wads@,
        ) && new.len() == old.len() && (forall|j: int|
            0 <= j < old.len() && j != i ==> #[trigger] new[j] == old[j])
            && new[i].borrow_reserve == old[i].borrow_reserve
            && new[i].cumulative_borrow_rate_wads == old[i].cumulative_borrow_rate_wads
            && new[i].market_value == old[i].market_value
    ||| no_borrow(old, key) && new.len() == old.len() + 1 && new.subrange(0, old.len() as int)
        == old && new.last().borrow_reserve == key && new.last().cumulative_borrow_rate_wads
        == cbr && new.last().borrowed_amount_wads@ == amount && new.last().market_value@ == 0
}

/// The first condition that a borrow of `amount` tokens of reserve `key`
/// on `o` fails, in the order they are checked; none where it succeeds.
#[verifier::opaque]
pub open spec fn borrow_failure(
    m: LendingMarket,
    r: Reserve,
    key: Pubkey,
    o: Obligation,
    amount: u64,
    slot: u64,
) -> Option<LendingError> {
    if amount == 0 {
        Some(LendingError::InvalidAmount)
    } else if !fresh(r.last_update, slot) {
        Some(LendingError::ReserveStale)
    } else if !fresh(o.last_update, slot) {
        Some(LendingError::ObligationStale)
    } else if !crate::state::obligation::tier_allows(
        o.borrows@.map_values(|b: ObligationLiquidity| b.borrow_reserve@),
        o.borrowing_isolated_asset,
        key@,
        r.config.reserve_type,
    ) {
        Some(LendingError::IsolatedTierAssetViolation)
    } else if o.allowed_borrow_value@ <= o.borrowed_value_upper_bound@ {
        Some(LendingError::BorrowTooLarge)
    } else {
        match borrow_capacity(m, r, slot) {
            None => Some(LendingError::MathOverflow),
            Some(cap) => match borrow_of(
                r,
                amount,
                (o.allowed_borrow_value@ - o.borrowed_value_upper_bound@) as nat,
                cap,
            ) {
                Err(e) => Some(e),
                Ok((ba, received, _, _)) => if received == 0 {
                    Some(LendingError::BorrowTooSmall)
                } else {
                    match dec_add(r.liquidity.borrowed_amount_wads@, ba) {
                        None => Some(LendingError::MathOverflow),
                        Some(total) => if total > (r.config.borrow_limit as nat) * wad() {
                            Some(LendingError::InvalidAmount)
                        } else {
                            match dec_floor(ba) {
                                None => Some(LendingError::MathOverflow),
                                Some(out) => match value_at(
                                    nmax(
                                        r.liquidity.market_price@,
                                        r.liquidity.smoothed_market_price@,
                                    ),
                                    ba,
                                    r.liquidity.mint_decimals as nat,
                                ) {
                                    None => Some(LendingError::MathOverflow),
                                    Some(v) => match dec_floor(v) {
                                        None => Some(LendingError::MathOverflow),
                                        Some(vq) => if !allows(r.rate_limiter, slot, out as u64) {
                                            Some(LendingError::OutflowRateLimitExceeded)
                                        } else if !allows(m.rate_limiter, slot, vq as u64) {
                                            Some(LendingError::OutflowRateLimitExceeded)
                                        } else if out > r.liquidity.available_amount {
                                            Some(LendingError::InsufficientLiquidity)
                                        } else if (exists|i: int| first_borrow(o.borrows@, key, i))
                                            && dec_add(
                                            o.borrows@[choose|i: int|
                                                first_borrow(
                                                    o.borrows@,
                                                    key,
                                                    i,
                                                )].borrowed_amount_wads@,
                                            ba,
                                        ) is None {
                                            Some(LendingError::MathOverflow)
                                        } else {
                                            None
                                        },
                                    },
                                },
                            }
                        },
                    }
                },
            },
        }
    }
}

/// Everything a borrow of `amount` tokens of reserve `key` on `o` needs,
/// checked: the borrow, the reserve's outflow in tokens, the market's in
/// whole units of value, and where the obligation already borrows from the
/// reserve.
pub open spec fn borrow_planned(
    m: LendingMarket,
    r: Reserve,
    key: Pubkey,
    o: Obligation,
    amount: u64,
    slot: u64,
    res: CalculateBorrowResult,
    out: u64,
    vq: u64,
    found: Option<usize>,
) -> bool {
    let headroom = (o.allowed_borrow_value@ - o.borrowed_value_upper_bound@) as nat;
    &&& amount > 0 && fresh(r.last_update, slot) && fresh(o.last_update, slot)
    &&& crate::state::obligation::tier_allows(
        o.borrows@.map_values(|b: ObligationLiquidity| b.borrow_reserve@),
        o.borrowing_isolated_asset,
        key@,
        r.config.reserve_type,
    )
    &&& o.allowed_borrow_value@ > o.borrowed_value_upper_bound@
    &&& borrow_capacity(m, r, slot) matches Some(cap) && borrow_of(r, amount, headroom, cap) == Ok::<
        (nat, nat, nat, nat),
        LendingError,
    >((res.borrow_amount@, res.receive_amount as nat, res.borrow_fee as nat, res.host_fee as nat))
    &&& res.receive_amount > 0
    &&& r.liquidity.borrowed_amount_wads@ + res.borrow_amount@ < crate::math::wide::b192()
    &&& r.liquidity.borrowed_amount_wads@ + res.borrow_amount@ <= (r.config.borrow_limit as nat)
        * wad()
    &&& dec_floor(res.borrow_amount@) == Some(out as nat)
    &&& out <= r.liquidity.available_amount
    &&& allows(r.rate_limiter, slot, out)
    &&& value_at(
        nmax(r.liquidity.market_price@, r.liquidity.smoothed_market_price@),
        res.borrow_amount@,
        r.liquidity.mint_decimals as nat,
    ) matches Some(v) && dec_floor(v) == Some(vq as nat)
    &&& allows(m.rate_limiter, slot, vq)
    &&& match found {
        Some(i) => first_borrow(o.borrows@, key, i as int) && dec_add(
            o.borrows@[i as int].borrowed_amount_wads@,
            res.borrow_amount@,
        ) is Some,
        None => no_borrow(o.borrows@, key),
    }
}

/// Checks a borrow of `liquidity_amount` tokens of `reserve` on
/// `obligation` without changing anything.
#[verifier::rlimit(100)]
fn plan_borrow(
    market: &LendingMarket,
    reserve: &Reserve,
    reserve_key: &Pubkey,
    obligation: &Obligation,
    liquidity_amount: u64,
    slot: u64,
) -> (r: Result<(CalculateBorrowResult, u64, u64, Option<usize>), LendingError>)
    ensures
        match r {
            Ok((res, out, vq, found)) => borrow_failure(
                *market,
                *reserve,
                *reserve_key,
                *obligation,
                liquidity_amount,
                slot,
            ) is None && borrow_planned(
                *market,
                *reserve,
                *reserve_key,
                *obligation,
                liquidity_amount,
                slot,
                res,
                out,
                vq,
                found,
            ),
            Err(e) => borrow_failure(
                *market,
                *reserve,
                *reserve_key,
                *obligation,
                liquidity_amount,
                slot,
            ) == Some(e),
        },
{
    proof {
        reveal(borrow_failure);
    }
    if liquidity_amount == 0 {
        return Err(LendingError::InvalidAmount);
    }
    if reserve.last_update.is_stale(slot) {
        return Err(LendingError::ReserveStale);
    }
    if obligation.last_update.is_stale(slot) {
        return Err(LendingError::ObligationStale);
    }
    match obligation.check_borrow_tier(reserve_key, reserve.config.reserve_type) {
        Ok(()) => {},
        Err(e) => return Err(e),
    }
    if obligation.allowed_borrow_value.le(&obligation.borrowed_value_upper_bound) {
        return Err(LendingError::BorrowTooLarge);
    }
    let headroom = match obligation.allowed_borrow_value.try_sub(
        obligation.borrowed_value_upper_bound,
    ) {
        Ok(h) => h,
        Err(e) => return Err(e),
    };
    let limit = Decimal::from_u64(reserve.config.borrow_limit);
    let by_limit = match limit.try_sub(reserve.liquidity.borrowed_amount_wads) {
        Ok(x) => x,
        Err(_) => Decimal::zero(),
    };
    let by_reserve = by_limit.min(Decimal::from_u64(reserve.rate_limiter.remaining_outflow(slot)));
    let capacity = if market.rate_limiter.config.window_duration == 0 {
        by_reserve
    } else {
        match reserve.usd_to_liquidity_amount_lower_bound(
            Decimal::from_u64(market.rate_limiter.remaining_outflow(slot)),
        ) {
            Ok(t) => by_reserve.min(t),
            Err(e) => return Err(e),
        }
    };
    let calc = match reserve.calculate_borrow(liquidity_amount, headroom, capacity) {
        Ok(c) => c,
        Err(e) => return Err(e),
    };
    if calc.receive_amount == 0 {
        return Err(LendingError::BorrowTooSmall);
    }
    let new_borrowed = match reserve.liquidity.borrowed_amount_wads.try_add(calc.borrow_amount) {
        Ok(b) => b,
        Err(e) => return Err(e),
    };
    if limit.lt(&new_borrowed) {
        return Err(LendingError::InvalidAmount);
    }
    let outflow = match calc.borrow_amount.try_floor_u64() {
        Ok(o) => o,
        Err(e) => return Err(e),
    };
    let value = match reserve.market_value_upper_bound(calc.borrow_amount) {
        Ok(v) => v,
        Err(e) => return Err(e),
    };
    let value_outflow = match value.try_floor_u64() {
        Ok(o) => o,
        Err(e) => return Err(e),
    };
    if !reserve.rate_limiter.allows_outflow(slot, outflow) {
        return Err(LendingError::OutflowRateLimitExceeded);
    }
    if !market.rate_limiter.allows_outflow(slot, value_outflow) {
        return Err(LendingError::OutflowRateLimitExceeded);
    }
    if outflow > reserve.liquidity.available_amount {
        return Err(LendingError::InsufficientLiquidity);
    }
    let found = obligation.find_liquidity_in_borrows(reserve_key);
    proof {
        if let Some(i) = found {
            assert(first_borrow(obligation.borrows@, *reserve_key, i as int));
            let ic = choose|ic: int| first_borrow(obligation.borrows@, *reserve_key, ic);
            lemma_first_borrow_unique(obligation.borrows@, *reserve_key, i as int, ic);
        }
    }
    let entry_ok = match found {
        Some(i) => obligation.borrows[i].borrowed_amount_wads.try_add(calc.borrow_amount).is_ok(),
        None => true,
    };
    if !entry_ok {
        return Err(LendingError::MathOverflow);
    }
    Ok((calc, outflow, value_outflow, found))
}

/// Lends `liquidity_amount` tokens of `reserve` (as much as allowed where it
/// is `u64::MAX`) on `obligation`, within the obligation's borrow headroom,
/// the isolation rule, the reserve's borrow limit and both rate limiters.
pub fn borrow_obligation_liquidity(
    market: &mut LendingMarket,
    reserve: &mut Reserve,
    reserve_key: &Pubkey,
    obligation: &mut Obligation,
    liquidity_amount: u64,
    slot: u64,
) -> (r: Result<CalculateBorrowResult, LendingError>)
    ensures
        liquidity_amount == 0 ==> r == Err::<CalculateBorrowResult, LendingError>(
            LendingError::InvalidAmount,
        ),
        liquidity_amount > 0 && !fresh(old(reserve).last_update, slot) ==> r == Err::<
            CalculateBorrowResult,
            LendingError,
        >(LendingError::ReserveStale),
        liquidity_amount > 0 && fresh(old(reserve).last_update, slot) && !fresh(
            old(obligation).last_update,
            slot,
        ) ==> r == Err::<CalculateBorrowResult, LendingError>(LendingError::ObligationStale),
        liquidity_amount > 0 && fresh(old(reserve).last_update, slot) && fresh(
            old(obligation).last_update,
            slot,
        ) && !crate::state::obligation::tier_allows(
            old(obligation).borrows@.map_values(|b: ObligationLiquidity| b.borrow_reserve@),
            old(obligation).borrowing_isolated_asset,
            reserve_key@,
            old(reserve).config.reserve_type,
        ) ==> r == Err::<CalculateBorrowResult, LendingError>(
            LendingError::IsolatedTierAssetViolation,
        ),
        r is Ok <==> borrow_failure(
            *old(market),
            *old(reserve),
            *reserve_key,
            *old(obligation),
            liquidity_amount,
            slot,
        ) is None,
        r matches Err(e) ==> borrow_failure(
            *old(market),
            *old(reserve),
            *reserve_key,
            *old(obligation),
            liquidity_amount,
            slot,
        ) == Some(e),
        match r {
            Ok(res) => {
                let old_r = *old(reserve);
                let headroom = (old(obligation).allowed_borrow_value@
                    - old(obligation).borrowed_value_upper_bound@) as nat;
                &&& old(obligation).allowed_borrow_value@
                    > old(obligation).borrowed_value_upper_bound@
                &&& borrow_capacity(*old(market), old_r, slot) matches Some(cap) && borrow_of(
                    old_r,
                    liquidity_amount,
                    headroom,
                    cap,
                ) == Ok::<(nat, nat, nat, nat), LendingError>(
                    (
                        res.borrow_amount@,
                        res.receive_amount as nat,
                        res.borrow_fee as nat,
                        res.host_fee as nat,
                    ),
                )
                &&& res.receive_amount > 0
                &&& old_r.liquidity.borrowed_amount_wads@ + res.borrow_amount@ <= (
                old_r.config.borrow_limit as nat) * wad()
                &&& dec_floor(res.borrow_amount@) matches Some(out) && out
                    <= old_r.liquidity.available_amount && allows(
                    old_r.rate_limiter,
                    slot,
                    out as u64,
                ) && final(reserve).rate_limiter == updated(old_r.rate_limiter, slot, out as u64)
                    && final(reserve).liquidity.available_amount == old_r.liquidity.available_amount
                    - out
                &&& value_at(
                    nmax(old_r.liquidity.market_price@, old_r.liquidity.smoothed_market_price@),
                    res.borrow_amount@,
                    old_r.liquidity.mint_decimals as nat,
                ) matches Some(v) && dec_floor(v) matches Some(vq) && allows(
                    old(market).rate_limiter,
                    slot,
                    vq as u64,
                ) && *final(market) == (LendingMarket {
                    rate_limiter: updated(old(market).rate_limiter, slot, vq as u64),
                    ..*old(market)
                })
                &&& final(reserve).liquidity.borrowed_amount_wads@
                    == old_r.liquidity.borrowed_amount_wads@ + res.borrow_amount@
                &&& final(reserve).liquidity == (ReserveLiquidity {
                    available_amount: final(reserve).liquidity.available_amount,
                    borrowed_amount_wads: final(reserve).liquidity.borrowed_amount_wads,
                    ..old_r.liquidity
                })
                &&& *final(reserve) == stale_reserve(
                    Reserve {
                        liquidity: final(reserve).liquidity,
                        rate_limiter: final(reserve).rate_limiter,
                        ..old_r
                    },
                )
                &&& borrow_credited(
                    old(obligation).borrows@,
                    final(obligation).borrows@,
                    *reserve_key,
                    res.borrow_amount@,
                    old_r.liquidity.cumulative_borrow_rate_wads,
                )
                &&& final(obligation).borrowing_isolated_asset == (old(
                    obligation,
                ).borrowing_isolated_asset || old_r.config.reserve_type == ReserveType::Isolated)
                &&& *final(obligation) == (Obligation {
                    borrows: final(obligation).borrows,
                    borrowing_isolated_asset: final(obligation).borrowing_isolated_asset,
                    last_update: LastUpdate { stale: true, ..old(obligation).last_update },
                    ..*old(obligation)
                })
            },
            Err(_) => *final(market) == *old(market) && *final(reserve) == *old(reserve)
                && *final(obligation) == *old(obligation),
        },
{
    let (calc, outflow, value_outflow, found) = match plan_borrow(
        market,
        reserve,
        reserve_key,
        obligation,
        liquidity_amount,
        slot,
    ) {
        Ok(p) => p,
        Err(e) => {
            proof {
                reveal(borrow_failure);
            }
            return Err(e);
        },
    };
    let mut reserve_limiter = reserve.rate_limiter;
    match reserve_limiter.update(slot, outflow) {
        Ok(()) => {},
        Err(e) => return Err(e),
    }
    let mut market_limiter = market.rate_limiter;
    match market_limiter.update(slot, value_outflow) {
        Ok(()) => {},
        Err(e) => return Err(e),
    }
    let mut liquidity = reserve.liquidity;
    match liquidity.borrow(calc.borrow_amount) {
        Ok(()) => {},
        Err(e) => return Err(e),
    }
    let mut entry = match found {
        Some(i) => obligation.borrows[i],
        None => ObligationLiquidity::new(*reserve_key, reserve.liquidity.cumulative_borrow_rate_wads),
    };
    entry.borrowed_amount_wads = match entry.borrowed_amount_wads.try_add(calc.borrow_amount) {
        Ok(b) => b,
        Err(e) => return Err(e),
    };
    match found {
        Some(i) => {
            obligation.borrows.set(i, entry);
        },
        None => {
            obligation.borrows.push(entry);
            proof {
                assert(obligation.borrows@.subrange(0, old(obligation).borrows@.len() as int)
                    =~= old(obligation).borrows@);
            }
        },
    }
    if reserve.config.reserve_type == ReserveType::Isolated {
        obligation.borrowing_isolated_asset = true;
    }
    obligation.last_update.mark_stale();
    reserve.liquidity = liquidity;
    reserve.rate_limiter = reserve_limiter;
    reserve.last_update.mark_stale();
    market.rate_limiter = market_limiter;
    Ok(calc)
}


/// `deposits` after `amount` tokens left entry `i`: an entry left empty is
/// removed.
pub open spec fn withdrawn(
    old: Seq<ObligationCollateral>,
    new: Seq<ObligationCollateral>,
    i: int,
    amount: nat,
) -> bool {
    &&& 0 <= i < old.len()
    &&& amount <= old[i].deposited_amount
    &&& if amount == old[i].deposited_amount {
        new == old.remove(i)
    } else {
        new == old.update(
            i,
            ObligationCollateral {
                deposited_amount: (old[i].deposited_amount - amount) as u64,
                ..old[i]
            },
        )
    }
}

/// Takes `amount` collateral tokens out of deposit `i`, removing the entry
/// when it is emptied.
fn withdraw_collateral(obligation: &mut Obligation, i: usize, amount: u64)
    requires
        i < old(obligation).deposits@.len(),
        amount <= old(obligation).deposits@[i as int].deposited_amount,
    ensures
        withdrawn(old(obligation).deposits@, final(obligation).deposits@, i as int, amount as nat),
        *final(obligation) == (Obligation {
            deposits: final(obligation).deposits,
            ..*old(obligation)
        }),
{
    let entry = obligation.deposits[i];
    if amount == entry.deposited_amount {
        obligation.deposits.remove(i);
    } else {
        obligation.deposits.set(
            i,
            ObligationCollateral { deposited_amount: entry.deposited_amount - amount, ..entry },
        );
    }
}

/// The first condition that a liquidation of up to `amount` tokens of the
/// first borrow of `o`, from reserve `repay_key`, against its collateral in
/// reserve `withdraw_key`, fails, in the order they are checked; none where
/// it succeeds.
pub open spec fn liquidation_failure(
    m: LendingMarket,
    liquidator: Pubkey,
    repay: Reserve,
    repay_key: Pubkey,
    withdraw: Reserve,
    withdraw_key: Pubkey,
    o: Obligation,
    amount: u64,
    slot: u64,
) -> Option<LendingError> {
    if amount == 0 {
        Some(LendingError::InvalidAmount)
    } else if m.whitelisted_liquidator matches Some(w) && w@ != liquidator@ {
        Some(LendingError::NotWhitelistedLiquidator)
    } else if !fresh(repay.last_update, slot) || !fresh(withdraw.last_update, slot) {
        Some(LendingError::ReserveStale)
    } else if !fresh(o.last_update, slot) {
        Some(LendingError::ObligationStale)
    } else if o.borrows@.len() == 0 || o.borrows@[0].borrow_reserve@ != repay_key@ {
        Some(LendingError::InvalidAccountInput)
    } else if !exists|k: int| first_deposit(o.deposits@, withdraw_key, k) {
        Some(LendingError::InvalidAccountInput)
    } else {
        let k = choose|k: int| first_deposit(o.deposits@, withdraw_key, k);
        let liquidity = o.borrows@[0];
        let collateral = o.deposits@[k];
        match liquidation_of(repay, amount, o, liquidity, collateral) {
            Err(e) => Some(e),
            Ok((settle, repaid, withdrawn_amount, bonus_rate)) => if repaid == 0 || withdrawn_amount
                == 0 {
                Some(LendingError::LiquidationTooSmall)
            } else if liquidity.borrowed_amount_wads@ < settle || collateral.deposited_amount
                < withdrawn_amount {
                Some(LendingError::MathOverflow)
            } else if protocol_fee_of(withdraw.config, withdrawn_amount as u64, bonus_rate) is None {
                Some(LendingError::MathOverflow)
            } else if repay.liquidity.available_amount + repaid > u64::MAX {
                Some(LendingError::MathOverflow)
            } else {
                None
            },
        }
    }
}

/// Liquidates up to `liquidity_amount` tokens (as much as allowed where it is
/// `u64::MAX`) of the obligation's first borrow, which must be from
/// `repay_reserve`, against its collateral in `withdraw_reserve`. Returns the
/// liquidation and the protocol's cut of the withdrawn collateral.
pub fn liquidate_obligation(
    market: &LendingMarket,
    liquidator: &Pubkey,
    repay_reserve: &mut Reserve,
    repay_reserve_key: &Pubkey,
    withdraw_reserve: &Reserve,
    withdraw_reserve_key: &Pubkey,
    obligation: &mut Obligation,
    liquidity_amount: u64,
    slot: u64,
) -> (r: Result<(CalculateLiquidationResult, u64), LendingError>)
    ensures
        liquidity_amount == 0 ==> r == Err::<(CalculateLiquidationResult, u64), LendingError>(
            LendingError::InvalidAmount,
        ),
        liquidity_amount > 0 && (market.whitelisted_liquidator matches Some(w) && w@
            != liquidator@) ==> r == Err::<(CalculateLiquidationResult, u64), LendingError>(
            LendingError::NotWhitelistedLiquidator,
        ),
        r is Ok <==> liquidation_failure(
            *market,
            *liquidator,
            *old(repay_reserve),
            *repay_reserve_key,
            *withdraw_reserve,
            *withdraw_reserve_key,
            *old(obligation),
            liquidity_amount,
            slot,
        ) is None,
        r matches Err(e) ==> liquidation_failure(
            *market,
            *liquidator,
            *old(repay_reserve),
            *repay_reserve_key,
            *withdraw_reserve,
            *withdraw_reserve_key,
            *old(obligation),
            liquidity_amount,
            slot,
        ) == Some(e),
        match r {
            Ok((res, fee)) => {
                &&& fresh(old(repay_reserve).last_update, slot)
                &&& fresh(withdraw_reserve.last_update, slot)
                &&& fresh(old(obligation).last_update, slot)
                &&& old(obligation).borrows@.len() > 0
                &&& old(obligation).borrows@[0].borrow_reserve@ == repay_reserve_key@
                &&& exists|k: int|
                    0 <= k < old(obligation).deposits@.len()
                        && old(obligation).deposits@[k].deposit_reserve@ == withdraw_reserve_key@
                        && (forall|j: int|
                        0 <= j < k ==> #[trigger] old(obligation).deposits@[j].deposit_reserve@
                            != withdraw_reserve_key@) && liquidation_of(
                        *old(repay_reserve),
                        liquidity_amount,
                        *old(obligation),
                        old(obligation).borrows@[0],
                        old(obligation).deposits@[k],
                    ) == Ok::<(nat, nat, nat, nat), LendingError>(
                        (
                            res.settle_amount@,
                            res.repay_amount as nat,
                            res.withdraw_amount as nat,
                            res.bonus_rate@,
                        ),
                    ) && withdrawn(
                        old(obligation).deposits@,
                        final(obligation).deposits@,
                        k,
                        res.withdraw_amount as nat,
                    )
                &&& res.repay_amount > 0 && res.withdraw_amount > 0
                &&& protocol_fee_of(withdraw_reserve.config, res.withdraw_amount, res.bonus_rate@)
                    == Some(fee as nat)
                &&& res.settle_amount@ <= old(obligation).borrows@[0].borrowed_amount_wads@
                &&& reduced(
                    old(obligation).borrows@,
                    final(obligation).borrows@,
                    0,
                    (old(obligation).borrows@[0].borrowed_amount_wads@ - res.settle_amount@) as nat,
                )
                &&& final(repay_reserve).liquidity.available_amount == old(
                    repay_reserve,
                ).liquidity.available_amount + res.repay_amount
                &&& final(repay_reserve).liquidity.borrowed_amount_wads@ == old(
                    repay_reserve,
                ).liquidity.borrowed_amount_wads@ - nmin(
                    res.settle_amount@,
                    old(repay_reserve).liquidity.borrowed_amount_wads@,
                )
                &&& final(repay_reserve).liquidity == (ReserveLiquidity {
                    available_amount: final(repay_reserve).liquidity.available_amount,
                    borrowed_amount_wads: final(repay_reserve).liquidity.borrowed_amount_wads,
                    ..old(repay_reserve).liquidity
                })
                &&& *final(repay_reserve) == stale_reserve(
                    Reserve { liquidity: final(repay_reserve).liquidity, ..*old(repay_reserve) },
                )
                &&& *final(obligation) == (Obligation {
                    deposits: final(obligation).deposits,
                    borrows: final(obligation).borrows,
                    last_update: LastUpdate { stale: true, ..old(obligation).last_update },
                    ..*old(obligation)
                })
            },
            Err(_) => *final(repay_reserve) == *old(repay_reserve) && *final(obligation) == *old(
                obligation,
            ),
        },
{
    if liquidity_amount == 0 {
        return Err(LendingError::InvalidAmount);
    }
    if let Some(w) = market.whitelisted_liquidator {
        if !w.same(liquidator) {
            return Err(LendingError::NotWhitelistedLiquidator);
        }
    }
    if repay_reserve.last_update.is_stale(slot) || withdraw_reserve.last_update.is_stale(slot) {
        return Err(LendingError::ReserveStale);
    }
    if obligation.last_update.is_stale(slot) {
        return Err(LendingError::ObligationStale);
    }
    if obligation.borrows.len() == 0 || !obligation.borrows[0].borrow_reserve.same(
        repay_reserve_key,
    ) {
        return Err(LendingError::InvalidAccountInput);
    }
    let k = match obligation.find_collateral_in_deposits(withdraw_reserve_key) {
        Some(k) => k,
        None => return Err(LendingError::InvalidAccountInput),
    };
    proof {
        assert(first_deposit(old(obligation).deposits@, *withdraw_reserve_key, k as int));
        let kc = choose|kc: int| first_deposit(old(obligation).deposits@, *withdraw_reserve_key, kc);
        lemma_first_deposit_unique(old(obligation).deposits@, *withdraw_reserve_key, k as int, kc);
    }
    let liquidity = obligation.borrows[0];
    let collateral = obligation.deposits[k];
    let res = match repay_reserve.calculate_liquidation(
        liquidity_amount,
        obligation,
        &liquidity,
        &collateral,
    ) {
        Ok(x) => x,
        Err(e) => return Err(e),
    };
    if res.repay_amount == 0 || res.withdraw_amount == 0 {
        return Err(LendingError::LiquidationTooSmall);
    }
    if liquidity.borrowed_amount_wads.lt(&res.settle_amount) || collateral.deposited_amount
        < res.withdraw_amount {
        return Err(LendingError::MathOverflow);
    }
    let fee = match withdraw_reserve.calculate_protocol_liquidation_fee(
        res.withdraw_amount,
        res.bonus_rate,
    ) {
        Ok(f) => f,
        Err(e) => return Err(e),
    };
    let mut reserve_liquidity = repay_reserve.liquidity;
    match reserve_liquidity.repay(res.repay_amount, res.settle_amount) {
        Ok(()) => {},
        Err(e) => return Err(e),
    }
    let ghost before = *obligation;
    settle_borrow(obligation, 0, res.settle_amount);
    withdraw_collateral(obligation, k, res.withdraw_amount);
    obligation.last_update.mark_stale();
    repay_reserve.liquidity = reserve_liquidity;
    repay_reserve.last_update.mark_stale();
    proof {
        assert(before.deposits@ == old(obligation).deposits@);
    }
    Ok((res, fee))
}


/// A withdrawal of `taken` collateral tokens from deposit `k` of `o0`,
/// asked as `amount`, that took the records from (`m0`, `r0`, `o0`) to
/// (`m1`, `r1`, `o1`): within the most that may leave, and through both rate
/// limiters, the reserve's in liquidity tokens and the market's in value at
/// the higher price.
pub open spec fn withdraw_done(
    m0: LendingMarket,
    r0: Reserve,
    o0: Obligation,
    k: int,
    amount: u64,
    slot: u64,
    taken: u64,
    m1: LendingMarket,
    r1: Reserve,
    o1: Obligation,
) -> bool {
    match max_withdraw_of(o0, o0.deposits@[k], r0) {
        None => false,
        Some(most) => {
            &&& taken > 0 && taken <= most
            &&& amount != u64::MAX ==> taken == amount
            &&& amount == u64::MAX ==> taken == most
            &&& withdrawn(o0.deposits@, o1.deposits@, k, taken as nat)
            &&& o1 == (Obligation {
                deposits: o1.deposits,
                last_update: LastUpdate { stale: true, ..o0.last_update },
                ..o0
            })
            &&& match liquidity_for(r0, taken as nat) {
                None => false,
                Some(l) => {
                    &&& allows(r0.rate_limiter, slot, l as u64)
                    &&& r1 == (Reserve {
                        rate_limiter: updated(r0.rate_limiter, slot, l as u64),
                        ..r0
                    })
                    &&& match value_at(
                        nmax(r0.liquidity.market_price@, r0.liquidity.smoothed_market_price@),
                        l * wad(),
                        r0.liquidity.mint_decimals as nat,
                    ) {
                        None => false,
                        Some(v) => match dec_floor(v) {
                            None => false,
                            Some(vq) => allows(m0.rate_limiter, slot, vq as u64) && m1 == (
                            LendingMarket {
                                rate_limiter: updated(m0.rate_limiter, slot, vq as u64),
                                ..m0
                            }),
                        },
                    }
                },
            }
        },
    }
}

/// The first condition that a withdrawal of `amount` collateral tokens of
/// reserve `key` from `o` fails, in the order they are checked; none where
/// it succeeds.
pub open spec fn withdraw_failure(
    m: LendingMarket,
    r: Reserve,
    o: Obligation,
    key: Pubkey,
    amount: u64,
    slot: u64,
) -> Option<LendingError> {
    if amount == 0 {
        Some(LendingError::InvalidAmount)
    } else if !fresh(r.last_update, slot) {
        Some(LendingError::ReserveStale)
    } else if !fresh(o.last_update, slot) {
        Some(LendingError::ObligationStale)
    } else if !exists|k: int| first_deposit(o.deposits@, key, k) {
        Some(LendingError::InvalidAccountInput)
    } else {
        let k = choose|k: int| first_deposit(o.deposits@, key, k);
        match max_withdraw_of(o, o.deposits@[k], r) {
            None => Some(LendingError::MathOverflow),
            Some(most) => {
                let taken: nat = if amount == u64::MAX {
                    most
                } else {
                    amount as nat
                };
                if taken == 0 || taken > most {
                    Some(LendingError::InvalidAmount)
                } else {
                    match liquidity_for(r, taken) {
                        None => Some(LendingError::MathOverflow),
                        Some(l) => match value_at(
                            nmax(r.liquidity.market_price@, r.liquidity.smoothed_market_price@),
                            l * wad(),
                            r.liquidity.mint_decimals as nat,
                        ) {
                            None => Some(LendingError::MathOverflow),
                            Some(v) => match dec_floor(v) {
                                None => Some(LendingError::MathOverflow),
                                Some(vq) => if !allows(r.rate_limiter, slot, l as u64) {
                                    Some(LendingError::OutflowRateLimitExceeded)
                                } else if !allows(m.rate_limiter, slot, vq as u64) {
                                    Some(LendingError::OutflowRateLimitExceeded)
                                } else {
                                    None
                                },
                            },
                        },
                    }
                }
            },
        }
    }
}

/// Withdraws `collateral_amount` collateral tokens of reserve `reserve_key`
/// (as much as allowed where it is `u64::MAX`) from `obligation`, within its
/// borrow headroom and both rate limiters. Returns the tokens withdrawn.
#[verifier::rlimit(50)]
pub fn withdraw_obligation_collateral(
    market: &mut LendingMarket,
    reserve: &mut Reserve,
    reserve_key: &Pubkey,
    obligation: &mut Obligation,
    collateral_amount: u64,
    slot: u64,
) -> (r: Result<u64, LendingError>)
    ensures
        collateral_amount == 0 ==> r == Err::<u64, LendingError>(LendingError::InvalidAmount),
        collateral_amount > 0 && !fresh(old(reserve).last_update, slot) ==> r == Err::<
            u64,
            LendingError,
        >(LendingError::ReserveStale),
        collateral_amount > 0 && fresh(old(reserve).last_update, slot) && !fresh(
            old(obligation).last_update,
            slot,
        ) ==> r == Err::<u64, LendingError>(LendingError::ObligationStale),
        r is Ok <==> withdraw_failure(
            *old(market),
            *old(reserve),
            *old(obligation),
            *reserve_key,
            collateral_amount,
            slot,
        ) is None,
        r matches Err(e) ==> withdraw_failure(
            *old(market),
            *old(reserve),
            *old(obligation),
            *reserve_key,
            collateral_amount,
            slot,
        ) == Some(e),
        match r {
            Ok(taken) => exists|k: int|
                #![trigger old(obligation).deposits@[k]]
                0 <= k < old(obligation).deposits@.len()
                    && old(obligation).deposits@[k].deposit_reserve@ == reserve_key@ && (forall|
                    j: int,
                |
                    0 <= j < k ==> #[trigger] old(obligation).deposits@[j].deposit_reserve@
                        != reserve_key@) && withdraw_done(
                    *old(market),
                    *old(reserve),
                    *old(obligation),
                    k,
                    collateral_amount,
                    slot,
                    taken,
                    *final(market),
                    *final(reserve),
                    *final(obligation),
                ),
            Err(_) => *final(market) == *old(market) && *final(reserve) == *old(reserve)
                && *final(obligation) == *old(obligation),
        },
{
    if collateral_amount == 0 {
        return Err(LendingError::InvalidAmount);
    }
    if reserve.last_update.is_stale(slot) {
        return Err(LendingError::ReserveStale);
    }
    if obligation.last_update.is_stale(slot) {
        return Err(LendingError::ObligationStale);
    }
    let k = match obligation.find_collateral_in_deposits(reserve_key) {
        Some(k) => k,
        None => return Err(LendingError::InvalidAccountInput),
    };
    proof {
        assert(first_deposit(old(obligation).deposits@, *reserve_key, k as int));
        let kc = choose|kc: int| first_deposit(old(obligation).deposits@, *reserve_key, kc);
        lemma_first_deposit_unique(old(obligation).deposits@, *reserve_key, k as int, kc);
    }
    let collateral = obligation.deposits[k];
    let most = match obligation.max_withdraw_amount(&collateral, reserve) {
        Ok(m) => m,
        Err(e) => return Err(e),
    };
    let taken = if collateral_amount == u64::MAX {
        most
    } else {
        collateral_amount
    };
    if taken == 0 || taken > most {
        return Err(LendingError::InvalidAmount);
    }
    let rate = match reserve.collateral_exchange_rate() {
        Ok(x) => x,
        Err(e) => return Err(e),
    };
    let liquidity_amount = match rate.collateral_to_liquidity(taken) {
        Ok(l) => l,
        Err(e) => return Err(e),
    };
    let value = match reserve.market_value_upper_bound(Decimal::from_u64(liquidity_amount)) {
        Ok(v) => v,
        Err(e) => return Err(e),
    };
    let value_outflow = match value.try_floor_u64() {
        Ok(v) => v,
        Err(e) => return Err(e),
    };
    let mut reserve_limiter = reserve.rate_limiter;
    match reserve_limiter.update(slot, liquidity_amount) {
        Ok(()) => {},
        Err(e) => return Err(e),
    }
    let mut market_limiter = market.rate_limiter;
    match market_limiter.update(slot, value_outflow) {
        Ok(()) => {},
        Err(e) => return Err(e),
    }
    proof {
        assert(most <= collateral.deposited_amount);
    }
    let ghost o0 = *obligation;
    withdraw_collateral(obligation, k, taken);
    obligation.last_update.mark_stale();
    reserve.rate_limiter = reserve_limiter;
    market.rate_limiter = market_limiter;
    proof {
        assert(o0 == *old(obligation));
        assert(withdraw_done(
            *old(market),
            *old(reserve),
            *old(obligation),
            k as int,
            collateral_amount,
            slot,
            taken,
            *market,
            *reserve,
            *obligation,
        ));
    }
    Ok(taken)
}

/// Whether `new` differs from `old` only towards safety: lower or equal
/// borrow and deposit limits, loan-to-value ratio and liquidation
/// thresholds, and every other field the same (the fee receiver as an
/// address).
pub open spec fn more_conservative(old: ReserveConfig, new: ReserveConfig) -> bool {
    &&& new.borrow_limit <= old.borrow_limit
    &&& new.deposit_limit <= old.deposit_limit
    &&& new.loan_to_value_ratio <= old.loan_to_value_ratio
    &&& new.liquidation_threshold <= old.liquidation_threshold
    &&& new.max_liquidation_threshold <= old.max_liquidation_threshold
    &&& new.fee_receiver@ == old.fee_receiver@
    &&& new == (ReserveConfig {
        fee_receiver: new.fee_receiver,
        borrow_limit: new.borrow_limit,
        deposit_limit: new.deposit_limit,
        loan_to_value_ratio: new.loan_to_value_ratio,
        liquidation_threshold: new.liquidation_threshold,
        max_liquidation_threshold: new.max_liquidation_threshold,
        ..old
    })
}

/// Replaces the configuration of `reserve` with `config`: the market's
/// owner may set any valid configuration, its risk authority only a valid
/// one that is more conservative.
pub fn update_reserve_config(
    market: &LendingMarket,
    signer: &Pubkey,
    reserve: &mut Reserve,
    config: ReserveConfig,
) -> (r: Result<(), LendingError>)
    ensures
        signer@ != market.owner@ && signer@ != market.risk_authority@ ==> r == Err::<
            (),
            LendingError,
        >(LendingError::InvalidSigner),
        r is Ok <==> ((signer@ == market.owner@ || (signer@ == market.risk_authority@
            && more_conservative(old(reserve).config, config))) && config_valid(config)),
        r is Ok ==> *final(reserve) == (Reserve {
            config,
            last_update: LastUpdate { stale: true, ..old(reserve).last_update },
            ..*old(reserve)
        }),
        r is Err ==> *final(reserve) == *old(reserve),
        r is Err && (signer@ == market.owner@ || signer@ == market.risk_authority@) ==> r == Err::<
            (),
            LendingError,
        >(LendingError::InvalidConfig),
{
    let is_owner = signer.same(&market.owner);
    if !is_owner && !signer.same(&market.risk_authority) {
        return Err(LendingError::InvalidSigner);
    }
    if !is_owner {
        let old = reserve.config;
        let conservative = config.borrow_limit <= old.borrow_limit && config.deposit_limit
            <= old.deposit_limit && config.loan_to_value_ratio <= old.loan_to_value_ratio
            && config.liquidation_threshold <= old.liquidation_threshold
            && config.max_liquidation_threshold <= old.max_liquidation_threshold
            && config.optimal_utilization_rate == old.optimal_utilization_rate
            && config.max_utilization_rate == old.max_utilization_rate
            && config.liquidation_bonus == old.liquidation_bonus
            && config.max_liquidation_bonus == old.max_liquidation_bonus
            && config.min_borrow_rate == old.min_borrow_rate
            && config.optimal_borrow_rate == old.optimal_borrow_rate
            && config.max_borrow_rate == old.max_borrow_rate
            && config.super_max_borrow_rate == old.super_max_borrow_rate
            && config.fees.borrow_fee_wad == old.fees.borrow_fee_wad
            && config.fees.flash_loan_fee_wad == old.fees.flash_loan_fee_wad
            && config.fees.host_fee_percentage == old.fees.host_fee_percentage
            && config.fee_receiver.same(&old.fee_receiver)
            && config.protocol_liquidation_fee == old.protocol_liquidation_fee
            && config.protocol_take_rate == old.protocol_take_rate
            && config.added_borrow_weight_bps == old.added_borrow_weight_bps
            && config.reserve_type == old.reserve_type;
        if !conservative {
            return Err(LendingError::InvalidConfig);
        }
    }
    match validate_reserve_config(config) {
        Ok(()) => {},
        Err(e) => return Err(e),
    }
    reserve.config = config;
    reserve.last_update.mark_stale();
    Ok(())
}




/// Lends `liquidity_amount` tokens of `reserve` for the length of one
/// transaction; the same transaction must repay them with
/// `flash_repay_reserve_liquidity`.
pub fn flash_borrow_reserve_liquidity(reserve: &mut Reserve, liquidity_amount: u64, slot: u64) -> (r:
    Result<(), LendingError>)
    ensures
        liquidity_amount == 0 ==> r == Err::<(), LendingError>(LendingError::InvalidAmount),
        liquidity_amount > 0 && !fresh(old(reserve).last_update, slot) ==> r == Err::<
            (),
            LendingError,
        >(LendingError::ReserveStale),
        liquidity_amount > 0 && fresh(old(reserve).last_update, slot) ==> (r is Ok
            <==> liquidity_amount <= old(reserve).liquidity.available_amount && (
        old(reserve).liquidity.borrowed_amount_wads@ + (liquidity_amount as nat) * wad()
            < crate::math::wide::b192())),
        r is Ok ==> *final(reserve) == (Reserve {
            liquidity: final(reserve).liquidity,
            ..*old(reserve)
        }) && final(reserve).liquidity.available_amount == old(reserve).liquidity.available_amount
            - liquidity_amount && final(reserve).liquidity.borrowed_amount_wads@ == old(
            reserve,
        ).liquidity.borrowed_amount_wads@ + (liquidity_amount as nat) * wad()
            && final(reserve).liquidity == (ReserveLiquidity {
            available_amount: final(reserve).liquidity.available_amount,
            borrowed_amount_wads: final(reserve).liquidity.borrowed_amount_wads,
            ..old(reserve).liquidity
        }),
        r is Err ==> *final(reserve) == *old(reserve),
{
    if liquidity_amount == 0 {
        return Err(LendingError::InvalidAmount);
    }
    if reserve.last_update.is_stale(slot) {
        return Err(LendingError::ReserveStale);
    }
    proof {
        vstd::arithmetic::div_mod::lemma_div_multiples_vanish(liquidity_amount as int, wad() as int);
        vstd::arithmetic::mul::lemma_mul_is_commutative(liquidity_amount as int, wad() as int);
    }
    reserve.liquidity.borrow(Decimal::from_u64(liquidity_amount))
}

/// Takes back a flash loan of `liquidity_amount` tokens of `reserve`, and
/// returns the (origination fee, host fee) owed on top of it.
pub fn flash_repay_reserve_liquidity(reserve: &mut Reserve, liquidity_amount: u64, slot: u64) -> (r:
    Result<(u64, u64), LendingError>)
    ensures
        liquidity_amount == 0 ==> r == Err::<(u64, u64), LendingError>(LendingError::InvalidAmount),
        liquidity_amount > 0 && !fresh(old(reserve).last_update, slot) ==> r == Err::<
            (u64, u64),
            LendingError,
        >(LendingError::ReserveStale),
        (liquidity_amount > 0 && fresh(old(reserve).last_update, slot)
            && old(reserve).liquidity.available_amount + liquidity_amount <= u64::MAX && match
        crate::state::reserve::fees_of(
            old(reserve).config.fees.host_fee_percentage as nat,
            (liquidity_amount as nat) * wad(),
            old(reserve).config.fees.flash_loan_fee_wad as nat,
            false,
        ) {
            Ok((t, h)) => h <= t,
            Err(_) => false,
        }) ==> r is Ok,
        match r {
            Ok((origination, host)) => crate::state::reserve::fees_of(
                old(reserve).config.fees.host_fee_percentage as nat,
                (liquidity_amount as nat) * wad(),
                old(reserve).config.fees.flash_loan_fee_wad as nat,
                false,
            ) == Ok::<(nat, nat), LendingError>(((origination + host) as nat, host as nat))
                && final(reserve).liquidity.available_amount == old(
                reserve,
            ).liquidity.available_amount + liquidity_amount
                && final(reserve).liquidity.borrowed_amount_wads@ == old(
                reserve,
            ).liquidity.borrowed_amount_wads@ - nmin(
                (liquidity_amount as nat) * wad(),
                old(reserve).liquidity.borrowed_amount_wads@,
            ) && final(reserve).liquidity == (ReserveLiquidity {
                available_amount: final(reserve).liquidity.available_amount,
                borrowed_amount_wads: final(reserve).liquidity.borrowed_amount_wads,
                ..old(reserve).liquidity
            }) && *final(reserve) == (Reserve { liquidity: final(reserve).liquidity, ..*old(reserve) }),
            Err(_) => *final(reserve) == *old(reserve),
        },
{
    if liquidity_amount == 0 {
        return Err(LendingError::InvalidAmount);
    }
    if reserve.last_update.is_stale(slot) {
        return Err(LendingError::ReserveStale);
    }
    let amount = Decimal::from_u64(liquidity_amount);
    let fees = match reserve.config.fees.calculate_flash_loan_fees(amount) {
        Ok(f) => f,
        Err(e) => return Err(e),
    };
    match reserve.liquidity.repay(liquidity_amount, amount) {
        Ok(()) => {},
        Err(e) => return Err(e),
    }
    Ok(fees)
}

} // verus!
