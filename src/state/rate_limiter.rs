//! A sliding-window cap on outflow.
//!
//! Outflow is counted per window of `window_duration` slots. The usage at a
//! slot is the outflow of the current window plus the share of the previous
//! window's outflow that still overlaps the trailing window ending at that slot.
use crate::error::LendingError;
use vstd::prelude::*;

verus! {

/// Window length and cap of a rate limiter.
#[derive(Clone, Copy, Debug, Default, PartialEq, Eq, Structural)]
pub struct RateLimiterConfig {
    /// Window length in slots; zero turns the limiter off.
    pub window_duration: u64,
    /// Most outflow in one window.
    pub max_outflow: u64,
}

/// Outflow in the current window and in the one before it.
#[derive(Clone, Copy, Debug, Default, PartialEq, Eq, Structural)]
pub struct RateLimiter {
    /// Window length and cap.
    pub config: RateLimiterConfig,
    /// Outflow in the window before the current one.
    pub prev_qty: u64,
    /// First slot of the current window.
    pub window_start: u64,
    /// Outflow in the current window.
    pub cur_qty: u64,
}

/// The limiter moved forward to slot `s`: into the next window, the current
/// outflow becomes the previous one; further on, both are forgotten.
pub open spec fn shifted(rl: RateLimiter, s: u64) -> RateLimiter {
    let w = rl.config.window_duration;
    if w == 0 || s < rl.window_start || s - rl.window_start < w {
        rl
    } else if s - rl.window_start < 2 * w {
        RateLimiter {
            prev_qty: rl.cur_qty,
            cur_qty: 0,
            window_start: (rl.window_start + w) as u64,
            ..rl
        }
    } else {
        RateLimiter { prev_qty: 0, cur_qty: 0, window_start: s, ..rl }
    }
}

/// Outflow counted against the cap at slot `s`.
pub open spec fn usage(rl: RateLimiter, s: u64) -> nat {
    let w = rl.config.window_duration as nat;
    let prev_share = if rl.window_start <= s && s + 1 < rl.window_start + w {
        (rl.prev_qty as nat) * ((w - (s - rl.window_start)) as nat) / w
    } else {
        0
    };
    prev_share + (rl.cur_qty as nat)
}

/// Outflow still allowed at slot `s`: unlimited where the limiter is off.
pub open spec fn remaining_of(rl: RateLimiter, s: u64) -> nat {
    if rl.config.window_duration == 0 {
        u64::MAX as nat
    } else if usage(shifted(rl, s), s) <= rl.config.max_outflow {
        (rl.config.max_outflow - usage(shifted(rl, s), s)) as nat
    } else {
        0
    }
}

/// `rl` after an outflow of `qty` at slot `s` that the cap allows.
pub open spec fn updated(rl: RateLimiter, s: u64, qty: u64) -> RateLimiter {
    if rl.config.window_duration == 0 {
        rl
    } else {
        RateLimiter { cur_qty: (shifted(rl, s).cur_qty + qty) as u64, ..shifted(rl, s) }
    }
}

/// Whether the cap allows an outflow of `qty` at slot `s`.
pub open spec fn allows(rl: RateLimiter, s: u64, qty: u64) -> bool {
    rl.config.window_duration == 0 || usage(shifted(rl, s), s) + qty <= rl.config.max_outflow
}

impl RateLimiter {
    /// A limiter whose current window starts at `cur_slot`, with no outflow yet.
    pub fn new(config: RateLimiterConfig, cur_slot: u64) -> (r: RateLimiter)
        ensures
            r.config == config,
            r.window_start == cur_slot,
            r.prev_qty == 0,
            r.cur_qty == 0,
    {
        RateLimiter { config, prev_qty: 0, window_start: cur_slot, cur_qty: 0 }
    }

    fn shift(&self, s: u64) -> (r: RateLimiter)
        ensures
            r == shifted(*self, s),
    {
        let w = self.config.window_duration;
        if w == 0 || s < self.window_start || s - self.window_start < w {
            *self
        } else if s - self.window_start - w < w {
            RateLimiter {
                config: self.config,
                prev_qty: self.cur_qty,
                cur_qty: 0,
                window_start: self.window_start + w,
            }
        } else {
            RateLimiter { config: self.config, prev_qty: 0, cur_qty: 0, window_start: s }
        }
    }

    fn usage_at(&self, s: u64) -> (r: u128)
        ensures
            r == usage(*self, s),
            r <= 2 * (u64::MAX as nat),
    {
        let w = self.config.window_duration;
        let prev_share: u128 = if self.window_start <= s && (s as u128) + 1 < (
        self.window_start as u128) + (w as u128) {
            let left = (w - (s - self.window_start)) as u128;
            proof {
                assert((self.prev_qty as nat) * (left as nat) <= (u64::MAX as nat) * (
                u64::MAX as nat)) by (nonlinear_arith)
                    requires
                        self.prev_qty <= u64::MAX,
                        left <= u64::MAX,
                ;
            }
            (self.prev_qty as u128) * left / (w as u128)
        } else {
            0
        };
        proof {
            if self.window_start <= s && s + 1 < self.window_start + w {
                let left = (w - (s - self.window_start)) as nat;
                assert((self.prev_qty as nat) * left <= (self.prev_qty as nat) * (w as nat))
                    by (nonlinear_arith)
                    requires
                        left <= w,
                ;
                vstd::arithmetic::div_mod::lemma_div_is_ordered(
                    ((self.prev_qty as nat) * left) as int,
                    ((self.prev_qty as nat) * (w as nat)) as int,
                    w as int,
                );
                vstd::arithmetic::div_mod::lemma_div_multiples_vanish(
                    self.prev_qty as int,
                    w as int,
                );
                vstd::arithmetic::mul::lemma_mul_is_commutative(self.prev_qty as int, w as int);
            }
        }
        prev_share + self.cur_qty as u128
    }

    /// Records an outflow of `qty` at slot `cur_slot`, where the cap allows it.
    pub fn update(&mut self, cur_slot: u64, qty: u64) -> (r: Result<(), LendingError>)
        ensures
            r is Ok == allows(*old(self), cur_slot, qty),
            r is Ok ==> *final(self) == updated(*old(self), cur_slot, qty),
            old(self).config.window_duration == 0 ==> r is Ok && *final(self) == *old(self),
            old(self).config.window_duration > 0 ==> {
                let moved = shifted(*old(self), cur_slot);
                &&& r is Ok == (usage(moved, cur_slot) + qty <= old(self).config.max_outflow)
                &&& r is Ok ==> *final(self) == (RateLimiter {
                    cur_qty: (moved.cur_qty + qty) as u64,
                    ..moved
                })
                &&& r is Err ==> *final(self) == *old(self) && r == Err::<(), LendingError>(
                    LendingError::OutflowRateLimitExceeded,
                )
            },
    {
        if self.config.window_duration == 0 {
            return Ok(());
        }
        let moved = self.shift(cur_slot);
        let used = moved.usage_at(cur_slot);
        if used + qty as u128 > self.config.max_outflow as u128 {
            return Err(LendingError::OutflowRateLimitExceeded);
        }
        *self = RateLimiter { cur_qty: moved.cur_qty + qty, ..moved };
        Ok(())
    }

    /// Whether the cap allows an outflow of `qty` at slot `cur_slot`.
    pub fn allows_outflow(&self, cur_slot: u64, qty: u64) -> (r: bool)
        ensures
            r == allows(*self, cur_slot, qty),
    {
        if self.config.window_duration == 0 {
            return true;
        }
        let used = self.shift(cur_slot).usage_at(cur_slot);
        used + qty as u128 <= self.config.max_outflow as u128
    }

    /// Outflow still allowed at slot `cur_slot`.
    pub fn remaining_outflow(&self, cur_slot: u64) -> (r: u64)
        ensures
            r == remaining_of(*self, cur_slot),
            self.config.window_duration == 0 ==> r == u64::MAX,
            self.config.window_duration > 0 ==> r == if usage(shifted(*self, cur_slot), cur_slot)
                <= self.config.max_outflow {
                self.config.max_outflow - usage(shifted(*self, cur_slot), cur_slot)
            } else {
                0
            },
    {
        if self.config.window_duration == 0 {
            return u64::MAX;
        }
        let used = self.shift(cur_slot).usage_at(cur_slot);
        if used <= self.config.max_outflow as u128 {
            (self.config.max_outflow as u128 - used) as u64
        } else {
            0
        }
    }
}

/// The outflow recorded in the current window never exceeds the cap: an
/// outflow that the cap allows leaves the usage at its slot, and so the
/// outflow of the current window, at most `max_outflow`.
pub proof fn lemma_window_outflow_capped(rl: RateLimiter, s: u64, qty: u64)
    requires
        rl.config.window_duration > 0,
        allows(rl, s, qty),
    ensures
        usage(updated(rl, s, qty), s) <= rl.config.max_outflow,
        updated(rl, s, qty).cur_qty <= rl.config.max_outflow,
{
}

} // verus!
