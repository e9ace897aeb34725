//! The freshness token of a reserve or an obligation.
use crate::error::LendingError;
use vstd::prelude::*;

verus! {

/// The slot of the last refresh, and whether a change made since then left
/// the record stale.
#[derive(Clone, Copy, Debug, Default, PartialEq, Eq, Structural)]
pub struct LastUpdate {
    /// Slot of the last refresh.
    pub slot: u64,
    /// Whether the record must be refreshed before the next risk check.
    pub stale: bool,
}

impl LastUpdate {
    /// A fresh token, stale until the first refresh.
    pub fn new(slot: u64) -> (r: LastUpdate)
        ensures
            r.slot == slot,
            r.stale,
    {
        LastUpdate { slot, stale: true }
    }

    /// Slots since the last refresh; an earlier slot is an error.
    pub fn slots_elapsed(&self, slot: u64) -> (r: Result<u64, LendingError>)
        ensures
            match r {
                Ok(n) => slot >= self.slot && n == slot - self.slot,
                Err(e) => slot < self.slot && e == LendingError::MathOverflow,
            },
    {
        match slot.checked_sub(self.slot) {
            Some(n) => Ok(n),
            None => Err(LendingError::MathOverflow),
        }
    }

    /// Records a refresh at `slot`.
    pub fn update_slot(&mut self, slot: u64)
        ensures
            final(self).slot == slot,
            !final(self).stale,
    {
        self.slot = slot;
        self.stale = false;
    }

    /// Marks the record stale.
    pub fn mark_stale(&mut self)
        ensures
            final(self).slot == old(self).slot,
            final(self).stale,
    {
        self.stale = true;
    }

    /// Whether the record must be refreshed before use at `slot`.
    pub fn is_stale(&self, slot: u64) -> (r: bool)
        ensures
            r == (self.stale || slot != self.slot),
    {
        self.stale || slot != self.slot
    }
}

} // verus!
