//! An obligation: one borrower's collateral deposits and borrows, and the
//! values that decide its health.
use crate::error::LendingError;
use crate::math::decimal::{
    dec_div, dec_mul, dec_result, pow10, u64_result, wad, Decimal, PERCENT_SCALER,
};
use crate::math::rate::Rate;
use crate::pubkey::{bytes_lt, lemma_bytes_lt_transitive, Pubkey};
use crate::state::last_update::LastUpdate;
use crate::state::reserve::{
    exchange_rate_spec, nmin, Reserve, ReserveType, LIQUIDATION_CLOSE_FACTOR,
    MAX_LIQUIDATABLE_VALUE_AT_ONCE,
};
use vstd::prelude::*;

verus! {

/// Collateral deposited in one reserve.
#[derive(Clone, Copy, Debug, Default, PartialEq, Eq)]
pub struct ObligationCollateral {
    /// The reserve the collateral was deposited in.
    pub deposit_reserve: Pubkey,
    /// Collateral tokens deposited.
    pub deposited_amount: u64,
    /// Value of the deposit in the quote currency, as of the last refresh.
    pub market_value: Decimal,
}

/// Liquidity borrowed from one reserve.
#[derive(Clone, Copy, Debug, Default, PartialEq, Eq)]
pub struct ObligationLiquidity {
    /// The reserve the liquidity was borrowed from.
    pub borrow_reserve: Pubkey,
    /// The reserve's cumulative borrow rate when interest was last accrued.
    pub cumulative_borrow_rate_wads: Decimal,
    /// Liquidity owed, interest included.
    pub borrowed_amount_wads: Decimal,
    /// Value of the debt in the quote currency, as of the last refresh.
    pub market_value: Decimal,
}

/// One borrower's position.
#[derive(Clone, Debug, Default, PartialEq, Eq)]
pub struct Obligation {
    /// Version of the record.
    pub version: u8,
    /// Freshness of the aggregate values.
    pub last_update: LastUpdate,
    /// The market the obligation belongs to.
    pub lending_market: Pubkey,
    /// The borrower.
    pub owner: Pubkey,
    /// Collateral, one entry per reserve.
    pub deposits: Vec<ObligationCollateral>,
    /// Borrows, one entry per reserve.
    pub borrows: Vec<ObligationLiquidity>,
    /// Value of the collateral.
    pub deposited_value: Decimal,
    /// Value of the borrows, each weighted by its reserve's borrow weight.
    pub borrowed_value: Decimal,
    /// Weighted value of the borrows at the higher of the two prices.
    pub borrowed_value_upper_bound: Decimal,
    /// Borrow value allowed by the collateral.
    pub allowed_borrow_value: Decimal,
    /// Borrow value above which the obligation may be liquidated.
    pub unhealthy_borrow_value: Decimal,
    /// Borrow value at which the liquidation bonus is greatest.
    pub super_unhealthy_borrow_value: Decimal,
    /// Whether a borrow sits on an isolated reserve.
    pub borrowing_isolated_asset: bool,
    /// Whether the obligation may be closed out whatever its size.
    pub closeable: bool,
}

/// The most of `liquidity` that one liquidation may settle: the share of the
/// debt whose value is the least of the close factor times the obligation's
/// borrowed value, the debt's whole value, and the cap on one liquidation.
pub open spec fn max_liquidation_amount_of(borrowed_value: nat, liquidity: ObligationLiquidity) -> Option<nat> {
    match dec_mul(borrowed_value, (LIQUIDATION_CLOSE_FACTOR as nat) * (PERCENT_SCALER as nat)) {
        None => None,
        Some(by_close_factor) => {
            let mv = liquidity.market_value@;
            let cap = (MAX_LIQUIDATABLE_VALUE_AT_ONCE as nat) * wad();
            let v1 = if by_close_factor <= mv {
                by_close_factor
            } else {
                mv
            };
            let v = if v1 <= cap {
                v1
            } else {
                cap
            };
            match dec_div(v, mv) {
                None => None,
                Some(pct) => dec_mul(liquidity.borrowed_amount_wads@, pct),
            }
        },
    }
}

/// The debt after the reserve's cumulative borrow rate moved from the
/// recorded one to `cbr`.
pub open spec fn accrued_debt(l: ObligationLiquidity, cbr: nat) -> Result<nat, LendingError> {
    let old_cbr = l.cumulative_borrow_rate_wads@;
    if cbr < old_cbr {
        Err(LendingError::NegativeInterestRate)
    } else if cbr == old_cbr {
        Ok(l.borrowed_amount_wads@)
    } else {
        match dec_div(cbr, old_cbr) {
            None => Err(LendingError::MathOverflow),
            Some(growth) => if growth > u128::MAX {
                Err(LendingError::MathOverflow)
            } else {
                match dec_mul(l.borrowed_amount_wads@, growth) {
                    None => Err(LendingError::MathOverflow),
                    Some(b) => Ok(b),
                }
            },
        }
    }
}

impl ObligationLiquidity {
    /// A new, empty borrow from `borrow_reserve`.
    pub fn new(borrow_reserve: Pubkey, cumulative_borrow_rate_wads: Decimal) -> (r:
        ObligationLiquidity)
        ensures
            r.borrow_reserve == borrow_reserve,
            r.cumulative_borrow_rate_wads == cumulative_borrow_rate_wads,
            r.borrowed_amount_wads@ == 0,
            r.market_value@ == 0,
    {
        ObligationLiquidity {
            borrow_reserve,
            cumulative_borrow_rate_wads,
            borrowed_amount_wads: Decimal::zero(),
            market_value: Decimal::zero(),
        }
    }

    /// Brings the debt up to the reserve's cumulative borrow rate `cbr`.
    pub fn accrue_interest(&mut self, cbr: Decimal) -> (r: Result<(), LendingError>)
        ensures
            match accrued_debt(*old(self), cbr@) {
                Ok(b) => r is Ok && final(self).borrowed_amount_wads@ == b && (cbr@
                    != old(self).cumulative_borrow_rate_wads@ ==> final(self).cumulative_borrow_rate_wads == cbr)
                    && final(self).cumulative_borrow_rate_wads@ == cbr@
                    && final(self).borrow_reserve == old(self).borrow_reserve
                    && final(self).market_value == old(self).market_value,
                Err(e) => r == Err::<(), LendingError>(e) && *final(self) == *old(self),
            },
    {
        if cbr.lt(&self.cumulative_borrow_rate_wads) {
            return Err(LendingError::NegativeInterestRate);
        }
        if cbr.eq(&self.cumulative_borrow_rate_wads) {
            return Ok(());
        }
        let growth = match cbr.try_div(self.cumulative_borrow_rate_wads) {
            Ok(g) => g,
            Err(e) => return Err(e),
        };
        let rate = match Rate::try_from_decimal(growth) {
            Ok(g) => g,
            Err(e) => return Err(e),
        };
        let borrowed = match self.borrowed_amount_wads.try_mul_rate(rate) {
            Ok(b) => b,
            Err(e) => return Err(e),
        };
        self.borrowed_amount_wads = borrowed;
        self.cumulative_borrow_rate_wads = cbr;
        Ok(())
    }
}

impl Obligation {
    /// Whether the obligation may be liquidated: its borrowed value is above
    /// its unhealthy borrow value.
    pub fn is_unhealthy(&self) -> (r: bool)
        ensures
            r == (self.borrowed_value@ > self.unhealthy_borrow_value@),
    {
        self.unhealthy_borrow_value.lt(&self.borrowed_value)
    }

    /// Whether the liquidation bonus is at its greatest: the borrowed value
    /// has reached the super-unhealthy borrow value.
    pub fn is_super_unhealthy(&self) -> (r: bool)
        ensures
            r == (self.borrowed_value@ >= self.super_unhealthy_borrow_value@),
    {
        self.super_unhealthy_borrow_value.le(&self.borrowed_value)
    }

    /// The most of `liquidity` that one liquidation may settle.
    pub fn max_liquidation_amount(&self, liquidity: &ObligationLiquidity) -> (r: Result<
        Decimal,
        LendingError,
    >)
        ensures
            dec_result(r, max_liquidation_amount_of(self.borrowed_value@, *liquidity)),
    {
        let by_close_factor = match self.borrowed_value.try_mul_rate(
            Rate::from_percent(LIQUIDATION_CLOSE_FACTOR),
        ) {
            Ok(v) => v,
            Err(e) => return Err(e),
        };
        let max_liquidation_value = by_close_factor.min(liquidity.market_value).min(
            Decimal::from_u64(MAX_LIQUIDATABLE_VALUE_AT_ONCE),
        );
        let max_liquidation_pct = match max_liquidation_value.try_div(liquidity.market_value) {
            Ok(p) => p,
            Err(e) => return Err(e),
        };
        liquidity.borrowed_amount_wads.try_mul(max_liquidation_pct)
    }
}


/// The rank of a borrow: its reserve's added borrow weight, then its mint.
pub type BorrowRank = (u64, Pubkey);

/// Whether rank `a` is below rank `b`: by weight, then by mint bytes.
pub open spec fn rank_lt(a: BorrowRank, b: BorrowRank) -> bool {
    a.0 < b.0 || (a.0 == b.0 && bytes_lt(a.1@, b.1@))
}

proof fn lemma_rank_lt_transitive(a: BorrowRank, b: BorrowRank, c: BorrowRank)
    requires
        rank_lt(a, b),
        rank_lt(b, c),
    ensures
        rank_lt(a, c),
{
    if a.0 == b.0 && b.0 == c.0 {
        lemma_bytes_lt_transitive(a.1@, b.1@, c.1@);
    }
}

fn rank_less(a: &BorrowRank, b: &BorrowRank) -> (r: bool)
    ensures
        r == rank_lt(*a, *b),
{
    a.0 < b.0 || (a.0 == b.0 && a.1.lt(&b.1))
}

/// The deposits that hold collateral, in order.
pub open spec fn kept_deposits(s: Seq<ObligationCollateral>) -> Seq<ObligationCollateral>
    decreases s.len(),
{
    if s.len() == 0 {
        seq![]
    } else if s.last().deposited_amount == 0 {
        kept_deposits(s.drop_last())
    } else {
        kept_deposits(s.drop_last()).push(s.last())
    }
}

/// The borrows that owe something, in order.
pub open spec fn kept_borrows(s: Seq<ObligationLiquidity>) -> Seq<ObligationLiquidity>
    decreases s.len(),
{
    if s.len() == 0 {
        seq![]
    } else if s.last().borrowed_amount_wads@ == 0 {
        kept_borrows(s.drop_last())
    } else {
        kept_borrows(s.drop_last()).push(s.last())
    }
}

/// The ranks of the borrows that owe something, in order.
pub open spec fn kept_ranks(s: Seq<ObligationLiquidity>, ranks: Seq<BorrowRank>) -> Seq<BorrowRank>
    decreases s.len(),
{
    if s.len() == 0 || ranks.len() == 0 {
        seq![]
    } else if s.last().borrowed_amount_wads@ == 0 {
        kept_ranks(s.drop_last(), ranks.drop_last())
    } else {
        kept_ranks(s.drop_last(), ranks.drop_last()).push(ranks.last())
    }
}

proof fn lemma_kept_lengths(s: Seq<ObligationLiquidity>, ranks: Seq<BorrowRank>)
    requires
        s.len() == ranks.len(),
    ensures
        kept_borrows(s).len() == kept_ranks(s, ranks).len(),
        forall|i: int|
            0 <= i < kept_borrows(s).len() ==> #[trigger] kept_borrows(s)[i].borrowed_amount_wads@
                != 0,
    decreases s.len(),
{
    if s.len() > 0 {
        lemma_kept_lengths(s.drop_last(), ranks.drop_last());
    }
}

/// `s` with the entries at 0 and `k` exchanged.
pub open spec fn swap_front<T>(s: Seq<T>, k: int) -> Seq<T> {
    s.update(0, s[k]).update(k, s[0])
}

/// Whether a borrow of the reserve `key`, of type `reserve_type`, keeps an
/// isolated asset alone among the borrows with reserves `borrow_keys`.
pub open spec fn tier_allows(
    borrow_keys: Seq<Seq<u8>>,
    borrowing_isolated_asset: bool,
    key: Seq<u8>,
    reserve_type: ReserveType,
) -> bool {
    if reserve_type == ReserveType::Isolated {
        borrow_keys.len() == 0 || (borrow_keys.len() == 1 && borrow_keys[0] == key)
    } else {
        !borrowing_isolated_asset
    }
}

/// Borrows on reserves of types `tiers`: an isolated one is the only one.
pub open spec fn isolation_holds(tiers: Seq<ReserveType>) -> bool {
    (exists|i: int| 0 <= i < tiers.len() && tiers[i] == ReserveType::Isolated) ==> tiers.len() == 1
}

/// A borrow that the isolation rule allows keeps an isolated borrow alone:
/// on an obligation whose borrows obey the rule, a borrow of reserve `key`
/// of type `reserve_type` that `tier_allows` leaves them obeying it, whether
/// it opens a new entry or adds to the entry of that reserve.
pub proof fn lemma_isolation_preserved(
    keys: Seq<Seq<u8>>,
    tiers: Seq<ReserveType>,
    key: Seq<u8>,
    reserve_type: ReserveType,
)
    requires
        keys.len() == tiers.len(),
        isolation_holds(tiers),
        forall|i: int| 0 <= i < keys.len() && keys[i] == key ==> tiers[i] == reserve_type,
        tier_allows(
            keys,
            exists|i: int| 0 <= i < tiers.len() && tiers[i] == ReserveType::Isolated,
            key,
            reserve_type,
        ),
    ensures
        keys.contains(key) ==> isolation_holds(tiers),
        !keys.contains(key) ==> isolation_holds(tiers.push(reserve_type)),
{
    if !keys.contains(key) {
        let t2 = tiers.push(reserve_type);
        if reserve_type == ReserveType::Regular {
            assert forall|i: int| 0 <= i < t2.len() implies t2[i] != ReserveType::Isolated by {
                if i < tiers.len() {
                    assert(t2[i] == tiers[i]);
                }
            }
        } else {
            if keys.len() == 1 {
                assert(keys[0] == key);
                assert(keys.contains(key));
            }
        }
    }
}

/// No two deposits are in the same reserve.
pub open spec fn deposits_distinct(ds: Seq<ObligationCollateral>) -> bool {
    forall|i: int, j: int|
        0 <= i < j < ds.len() ==> #[trigger] ds[i].deposit_reserve@ != #[trigger] ds[j].deposit_reserve@
}

/// No two borrows are from the same reserve.
pub open spec fn borrows_distinct(bs: Seq<ObligationLiquidity>) -> bool {
    forall|i: int, j: int|
        0 <= i < j < bs.len() ==> #[trigger] bs[i].borrow_reserve@ != #[trigger] bs[j].borrow_reserve@
}

/// Dropping empty deposits keeps them in distinct reserves.
pub proof fn lemma_kept_deposits_distinct(ds: Seq<ObligationCollateral>)
    requires
        deposits_distinct(ds),
    ensures
        deposits_distinct(kept_deposits(ds)),
        forall|k: int|
            0 <= k < kept_deposits(ds).len() ==> exists|j: int|
                0 <= j < ds.len() && #[trigger] kept_deposits(ds)[k] == ds[j],
    decreases ds.len(),
{
    if ds.len() > 0 {
        let rest = ds.drop_last();
        assert(deposits_distinct(rest)) by {
            assert forall|i: int, j: int| 0 <= i < j < rest.len() implies #[trigger] rest[i].deposit_reserve@
                != #[trigger] rest[j].deposit_reserve@ by {
                assert(rest[i] == ds[i] && rest[j] == ds[j]);
            }
        }
        lemma_kept_deposits_distinct(rest);
        let kr = kept_deposits(rest);
        if ds.last().deposited_amount != 0 {
            let k2 = kr.push(ds.last());
            assert forall|i: int, j: int| 0 <= i < j < k2.len() implies #[trigger] k2[i].deposit_reserve@
                != #[trigger] k2[j].deposit_reserve@ by {
                if j == kr.len() {
                    let w = choose|w: int| 0 <= w < rest.len() && kr[i] == rest[w];
                    assert(rest[w] == ds[w]);
                    assert(ds[w].deposit_reserve@ != ds[ds.len() - 1].deposit_reserve@);
                } else {
                    assert(k2[i] == kr[i] && k2[j] == kr[j]);
                }
            }
            assert forall|k: int| 0 <= k < k2.len() implies exists|j: int|
                0 <= j < ds.len() && #[trigger] k2[k] == ds[j] by {
                if k == kr.len() {
                    assert(k2[k] == ds[ds.len() - 1]);
                } else {
                    let w = choose|w: int| 0 <= w < rest.len() && kr[k] == rest[w];
                    assert(k2[k] == ds[w]);
                }
            }
        } else {
            assert forall|k: int| 0 <= k < kr.len() implies exists|j: int|
                0 <= j < ds.len() && #[trigger] kr[k] == ds[j] by {
                let w = choose|w: int| 0 <= w < rest.len() && kr[k] == rest[w];
                assert(kr[k] == ds[w]);
            }
        }
    }
}

/// Dropping borrows of no debt keeps them from distinct reserves.
pub proof fn lemma_kept_borrows_distinct(bs: Seq<ObligationLiquidity>)
    requires
        borrows_distinct(bs),
    ensures
        borrows_distinct(kept_borrows(bs)),
        forall|k: int|
            0 <= k < kept_borrows(bs).len() ==> exists|j: int|
                0 <= j < bs.len() && #[trigger] kept_borrows(bs)[k] == bs[j],
    decreases bs.len(),
{
    if bs.len() > 0 {
        let rest = bs.drop_last();
        assert(borrows_distinct(rest)) by {
            assert forall|i: int, j: int| 0 <= i < j < rest.len() implies #[trigger] rest[i].borrow_reserve@
                != #[trigger] rest[j].borrow_reserve@ by {
                assert(rest[i] == bs[i] && rest[j] == bs[j]);
            }
        }
        lemma_kept_borrows_distinct(rest);
        let kr = kept_borrows(rest);
        if bs.last().borrowed_amount_wads@ != 0 {
            let k2 = kr.push(bs.last());
            assert forall|i: int, j: int| 0 <= i < j < k2.len() implies #[trigger] k2[i].borrow_reserve@
                != #[trigger] k2[j].borrow_reserve@ by {
                if j == kr.len() {
                    let w = choose|w: int| 0 <= w < rest.len() && kr[i] == rest[w];
                    assert(rest[w] == bs[w]);
                    assert(bs[w].borrow_reserve@ != bs[bs.len() - 1].borrow_reserve@);
                } else {
                    assert(k2[i] == kr[i] && k2[j] == kr[j]);
                }
            }
            assert forall|k: int| 0 <= k < k2.len() implies exists|j: int|
                0 <= j < bs.len() && #[trigger] k2[k] == bs[j] by {
                if k == kr.len() {
                    assert(k2[k] == bs[bs.len() - 1]);
                } else {
                    let w = choose|w: int| 0 <= w < rest.len() && kr[k] == rest[w];
                    assert(k2[k] == bs[w]);
                }
            }
        } else {
            assert forall|k: int| 0 <= k < kr.len() implies exists|j: int|
                0 <= j < bs.len() && #[trigger] kr[k] == bs[j] by {
                let w = choose|w: int| 0 <= w < rest.len() && kr[k] == rest[w];
                assert(kr[k] == bs[w]);
            }
        }
    }
}

/// Exchanging two borrows keeps them from distinct reserves.
pub proof fn lemma_swap_front_distinct(bs: Seq<ObligationLiquidity>, k: int)
    requires
        borrows_distinct(bs),
        0 <= k < bs.len(),
    ensures
        borrows_distinct(swap_front(bs, k)),
{
    let t = swap_front(bs, k);
    assert forall|i: int, j: int| 0 <= i < j < t.len() implies #[trigger] t[i].borrow_reserve@
        != #[trigger] t[j].borrow_reserve@ by {
        let si = if i == 0 { k } else if i == k { 0 } else { i };
        let sj = if j == 0 { k } else if j == k { 0 } else { j };
        assert(t[i] == bs[si] && t[j] == bs[sj]);
        if si < sj {
            assert(bs[si].borrow_reserve@ != bs[sj].borrow_reserve@);
        } else {
            assert(bs[sj].borrow_reserve@ != bs[si].borrow_reserve@);
        }
    }
}

impl Obligation {
    /// Whether a borrow from the reserve `reserve_key`, of type
    /// `reserve_type`, obeys the isolation rule.
    pub fn check_borrow_tier(&self, reserve_key: &Pubkey, reserve_type: ReserveType) -> (r:
        Result<(), LendingError>)
        ensures
            r is Ok == tier_allows(
                self.borrows@.map_values(|b: ObligationLiquidity| b.borrow_reserve@),
                self.borrowing_isolated_asset,
                reserve_key@,
                reserve_type,
            ),
            r is Err ==> r == Err::<(), LendingError>(LendingError::IsolatedTierAssetViolation),
    {
        let ghost keys = self.borrows@.map_values(|b: ObligationLiquidity| b.borrow_reserve@);
        let allowed = match reserve_type {
            ReserveType::Isolated => self.borrows.len() == 0 || (self.borrows.len() == 1
                && self.borrows[0].borrow_reserve.same(reserve_key)),
            ReserveType::Regular => !self.borrowing_isolated_asset,
        };
        if allowed {
            Ok(())
        } else {
            Err(LendingError::IsolatedTierAssetViolation)
        }
    }

    /// Drops deposits of no collateral and borrows of no debt, and moves the
    /// borrow of the greatest rank to the front. `ranks` holds the rank of
    /// each borrow; the ranks come back in the borrows' new order.
    pub fn normalize(&mut self, ranks: Vec<BorrowRank>) -> (r: Vec<BorrowRank>)
        requires
            ranks@.len() == old(self).borrows@.len(),
        ensures
            final(self).deposits@ == kept_deposits(old(self).deposits@),
            r@.len() == final(self).borrows@.len(),
            final(self).borrows@.len() == kept_borrows(old(self).borrows@).len(),
            final(self).borrows@.len() > 0 ==> exists|k: int|
                0 <= k < final(self).borrows@.len() && final(self).borrows@ == swap_front(
                    kept_borrows(old(self).borrows@),
                    k,
                ) && r@ == swap_front(kept_ranks(old(self).borrows@, ranks@), k),
            final(self).borrows@.len() == 0 ==> r@.len() == 0,
            forall|i: int|
                0 <= i < final(self).borrows@.len()
                    ==> #[trigger] final(self).borrows@[i].borrowed_amount_wads@ != 0,
            forall|j: int| 0 <= j < r@.len() ==> !rank_lt(r@[0], #[trigger] r@[j]),
            *final(self) == (Obligation {
                deposits: final(self).deposits,
                borrows: final(self).borrows,
                ..*old(self)
            }),
            deposits_distinct(old(self).deposits@) ==> deposits_distinct(final(self).deposits@),
            borrows_distinct(old(self).borrows@) ==> borrows_distinct(final(self).borrows@),
    {
        proof {
            if deposits_distinct(self.deposits@) {
                lemma_kept_deposits_distinct(self.deposits@);
            }
            if borrows_distinct(self.borrows@) {
                lemma_kept_borrows_distinct(self.borrows@);
            }
        }
        let mut deposits: Vec<ObligationCollateral> = Vec::new();
        let mut i: usize = 0;
        while i < self.deposits.len()
            invariant
                i <= self.deposits@.len(),
                deposits@ == kept_deposits(self.deposits@.subrange(0, i as int)),
            decreases self.deposits@.len() - i,
        {
            let d = self.deposits[i];
            proof {
                assert(self.deposits@.subrange(0, i + 1).drop_last() =~= self.deposits@.subrange(
                    0,
                    i as int,
                ));
            }
            if d.deposited_amount != 0 {
                deposits.push(d);
            }
            i = i + 1;
        }
        proof {
            assert(self.deposits@.subrange(0, self.deposits@.len() as int) =~= self.deposits@);
        }
        let mut borrows: Vec<ObligationLiquidity> = Vec::new();
        let mut kept: Vec<BorrowRank> = Vec::new();
        let mut j: usize = 0;
        while j < self.borrows.len()
            invariant
                j <= self.borrows@.len(),
                ranks@.len() == self.borrows@.len(),
                borrows@ == kept_borrows(self.borrows@.subrange(0, j as int)),
                kept@ == kept_ranks(
                    self.borrows@.subrange(0, j as int),
                    ranks@.subrange(0, j as int),
                ),
            decreases self.borrows@.len() - j,
        {
            let b = self.borrows[j];
            proof {
                assert(self.borrows@.subrange(0, j + 1).drop_last() =~= self.borrows@.subrange(
                    0,
                    j as int,
                ));
                assert(ranks@.subrange(0, j + 1).drop_last() =~= ranks@.subrange(0, j as int));
            }
            if !b.borrowed_amount_wads.is_zero() {
                borrows.push(b);
                kept.push(ranks[j]);
            }
            j = j + 1;
        }
        proof {
            assert(self.borrows@.subrange(0, self.borrows@.len() as int) =~= self.borrows@);
            assert(ranks@.subrange(0, ranks@.len() as int) =~= ranks@);
            lemma_kept_lengths(self.borrows@, ranks@);
        }
        let ghost kb = borrows@;
        let ghost kr = kept@;
        if kept.len() > 0 {
            let mut best: usize = 0;
            let mut t: usize = 1;
            while t < kept.len()
                invariant
                    kept@ == kr,
                    0 < t <= kr.len(),
                    best < kr.len(),
                    forall|x: int| 0 <= x < t ==> !rank_lt(kr[best as int], #[trigger] kr[x]),
                decreases kr.len() - t,
            {
                if rank_less(&kept[best], &kept[t]) {
                    proof {
                        assert forall|x: int| 0 <= x < t + 1 implies !rank_lt(
                            kr[t as int],
                            #[trigger] kr[x],
                        ) by {
                            if x < t && rank_lt(kr[t as int], kr[x]) {
                                lemma_rank_lt_transitive(kr[best as int], kr[t as int], kr[x]);
                            }
                            if x == t {
                                crate::pubkey::lemma_bytes_lt_irreflexive(kr[x].1@);
                            }
                        }
                    }
                    best = t;
                }
                t = t + 1;
            }
            let first_b = borrows[0];
            let best_b = borrows[best];
            borrows.set(0, best_b);
            borrows.set(best, first_b);
            let first_r = kept[0];
            let best_r = kept[best];
            kept.set(0, best_r);
            kept.set(best, first_r);
            proof {
                assert(borrows@ =~= swap_front(kb, best as int));
                if borrows_distinct(kb) {
                    lemma_swap_front_distinct(kb, best as int);
                }
                assert(kept@ =~= swap_front(kr, best as int));
                assert forall|x: int| 0 <= x < kept@.len() implies !rank_lt(
                    kept@[0],
                    #[trigger] kept@[x],
                ) by {
                    if x == best {
                        assert(kept@[x] == kr[0]);
                    } else if x != 0 {
                        assert(kept@[x] == kr[x]);
                    }
                }
                assert forall|x: int| 0 <= x < borrows@.len() implies #[trigger] borrows@[
                    x
                ].borrowed_amount_wads@ != 0 by {
                    if x == best {
                        assert(borrows@[x] == kb[0]);
                    } else if x != 0 {
                        assert(borrows@[x] == kb[x]);
                    } else {
                        assert(borrows@[x] == kb[best as int]);
                    }
                }
            }
        }
        self.deposits = deposits;
        self.borrows = borrows;
        kept
    }
}


impl Obligation {
    /// Index of the first deposit in reserve `key`.
    pub fn find_collateral_in_deposits(&self, key: &Pubkey) -> (r: Option<usize>)
        ensures
            match r {
                Some(i) => i < self.deposits@.len() && self.deposits@[i as int].deposit_reserve@
                    == key@ && forall|j: int|
                    0 <= j < i ==> #[trigger] self.deposits@[j].deposit_reserve@ != key@,
                None => forall|j: int|
                    0 <= j < self.deposits@.len() ==> #[trigger] self.deposits@[j].deposit_reserve@
                        != key@,
            },
    {
        let mut i: usize = 0;
        while i < self.deposits.len()
            invariant
                i <= self.deposits@.len(),
                forall|j: int| 0 <= j < i ==> #[trigger] self.deposits@[j].deposit_reserve@ != key@,
            decreases self.deposits@.len() - i,
        {
            if self.deposits[i].deposit_reserve.same(key) {
                return Some(i);
            }
            i = i + 1;
        }
        None
    }

    /// Index of the first borrow from reserve `key`.
    pub fn find_liquidity_in_borrows(&self, key: &Pubkey) -> (r: Option<usize>)
        ensures
            match r {
                Some(i) => i < self.borrows@.len() && self.borrows@[i as int].borrow_reserve@
                    == key@ && forall|j: int|
                    0 <= j < i ==> #[trigger] self.borrows@[j].borrow_reserve@ != key@,
                None => forall|j: int|
                    0 <= j < self.borrows@.len() ==> #[trigger] self.borrows@[j].borrow_reserve@
                        != key@,
            },
    {
        let mut i: usize = 0;
        while i < self.borrows.len()
            invariant
                i <= self.borrows@.len(),
                forall|j: int| 0 <= j < i ==> #[trigger] self.borrows@[j].borrow_reserve@ != key@,
            decreases self.borrows@.len() - i,
        {
            if self.borrows[i].borrow_reserve.same(key) {
                return Some(i);
            }
            i = i + 1;
        }
        None
    }
}


/// Most of the collateral `c`, in reserve `r`, that may leave `o` without
/// its upper-bound borrowed value passing its allowed borrow value: all of
/// it where nothing is borrowed or the reserve lends no value against it,
/// none where there is no headroom, and otherwise the collateral whose value
/// at the lower price, times the loan-to-value ratio, is the headroom.
pub open spec fn max_withdraw_of(o: Obligation, c: ObligationCollateral, r: Reserve) -> Option<nat> {
    let allowed = o.allowed_borrow_value@;
    let upper = o.borrowed_value_upper_bound@;
    if o.borrows@.len() == 0 || r.config.loan_to_value_ratio == 0 {
        Some(c.deposited_amount as nat)
    } else if allowed <= upper {
        Some(0)
    } else if pow10(r.liquidity.mint_decimals as nat) > u128::MAX {
        None
    } else {
        match dec_div(
            (allowed - upper) as nat,
            (r.config.loan_to_value_ratio as nat) * (PERCENT_SCALER as nat),
        ) {
            None => None,
            Some(value) => match dec_mul(value, pow10(r.liquidity.mint_decimals as nat) * wad()) {
                None => None,
                Some(x) => match dec_div(
                    x,
                    nmin(r.liquidity.market_price@, r.liquidity.smoothed_market_price@),
                ) {
                    None => None,
                    Some(l) => match exchange_rate_spec(r) {
                        None => None,
                        Some(rate) => match dec_mul(l, rate) {
                            None => None,
                            Some(cq) => Some(nmin(c.deposited_amount as nat, cq / wad())),
                        },
                    },
                },
            },
        }
    }
}

impl Obligation {
    /// Most of `collateral`, deposited in `withdraw_reserve`, that may be withdrawn.
    pub fn max_withdraw_amount(
        &self,
        collateral: &ObligationCollateral,
        withdraw_reserve: &Reserve,
    ) -> (r: Result<u64, LendingError>)
        ensures
            u64_result(r, max_withdraw_of(*self, *collateral, *withdraw_reserve)),
    {
        if self.borrows.len() == 0 || withdraw_reserve.config.loan_to_value_ratio == 0 {
            return Ok(collateral.deposited_amount);
        }
        if self.allowed_borrow_value.le(&self.borrowed_value_upper_bound) {
            return Ok(0);
        }
        let headroom = match self.allowed_borrow_value.try_sub(self.borrowed_value_upper_bound) {
            Ok(h) => h,
            Err(e) => return Err(e),
        };
        let value = match headroom.try_div_rate(withdraw_reserve.loan_to_value_ratio()) {
            Ok(v) => v,
            Err(e) => return Err(e),
        };
        let price = withdraw_reserve.liquidity.market_price.min(
            withdraw_reserve.liquidity.smoothed_market_price,
        );
        let scale = match crate::math::decimal::checked_pow10(
            withdraw_reserve.liquidity.mint_decimals as u32,
            u128::MAX,
        ) {
            Some(p) => Decimal::from_u128(p),
            None => return Err(LendingError::MathOverflow),
        };
        let x = match value.try_mul(scale) {
            Ok(x) => x,
            Err(e) => return Err(e),
        };
        let liquidity_amount = match x.try_div(price) {
            Ok(l) => l,
            Err(e) => return Err(e),
        };
        let rate = match withdraw_reserve.collateral_exchange_rate() {
            Ok(r) => r,
            Err(e) => return Err(e),
        };
        let collateral_amount = match rate.decimal_liquidity_to_collateral(liquidity_amount) {
            Ok(c) => c,
            Err(e) => return Err(e),
        };
        if Decimal::from_u64(collateral.deposited_amount).le(&collateral_amount) {
            Ok(collateral.deposited_amount)
        } else {
            collateral_amount.try_floor_u64()
        }
    }
}

} // verus!
