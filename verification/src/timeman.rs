//! Time management: turns a clock state into a per-move thinking budget.
//!
//! The policy is simple and conservative so the engine never flags: spend a
//! share of the remaining time plus most of the increment, never more than
//! half of what is left, and never nothing at all.

use vstd::prelude::*;

verus! {

/// A clock configuration for one side.
#[derive(Clone, Copy, Debug, Default)]
pub struct TimeControl {
    /// Milliseconds remaining on the clock.
    pub time_left_ms: u64,
    /// Increment added after each move, in milliseconds.
    pub increment_ms: u64,
    /// Moves remaining until the next time control, if known.
    pub moves_to_go: Option<u32>,
}

/// The safety margin (ms) kept back so the flag never falls.
pub const OVERHEAD_MS: u64 = 50;

/// `a - b`, or zero when `b` exceeds `a`.
pub open spec fn sat_sub(a: int, b: int) -> int {
    if a >= b {
        a - b
    } else {
        0
    }
}

pub open spec fn max_int(a: int, b: int) -> int {
    if a >= b {
        a
    } else {
        b
    }
}

/// `x` clamped into `[lo, hi]` (with `lo <= hi`).
pub open spec fn clamp_int(x: int, lo: int, hi: int) -> int {
    if x < lo {
        lo
    } else if x > hi {
        hi
    } else {
        x
    }
}

impl TimeControl {
    /// The number of moves the remaining time is shared across.
    pub open spec fn moves_spec(self) -> int {
        match self.moves_to_go {
            Some(m) => max_int(m as int, 1),
            None => 30,
        }
    }

    /// The remaining time less the safety margin.
    pub open spec fn usable_spec(self) -> int {
        sat_sub(self.time_left_ms as int, OVERHEAD_MS as int)
    }

    /// The budget before clamping: the time share plus three quarters of
    /// the increment.
    pub open spec fn raw_budget_spec(self) -> int {
        self.usable_spec() / self.moves_spec() + (self.increment_ms * 3) / 4
    }

    /// The thinking time for the current move, in milliseconds.
    pub open spec fn budget_spec(self) -> int {
        if self.time_left_ms == 0 {
            max_int(sat_sub(self.increment_ms as int, OVERHEAD_MS as int), 1)
        } else {
            clamp_int(self.raw_budget_spec(), 1, max_int(self.usable_spec() / 2, 1))
        }
    }

    /// The arithmetic of the budget fits in 64 bits.
    pub open spec fn fits(self) -> bool {
        self.time_left_ms == 0 || (self.increment_ms * 3 <= u64::MAX && self.raw_budget_spec()
            <= u64::MAX)
    }

    /// How long to think about the current move, in milliseconds: the
    /// remaining time (less a margin) divided across `moves_to_go` moves (30
    /// when unknown), plus three quarters of the increment, clamped to at
    /// least 1 and at most half the usable time. With no time left, the
    /// increment less the margin (at least 1).
    pub fn budget_ms(&self) -> (r: u64)
        requires
            self.fits(),
        ensures
            r == self.budget_spec(),
            r >= 1,
            self.time_left_ms > 0 ==> r <= max_int(self.usable_spec() / 2, 1),
    {
        if self.time_left_ms == 0 {
            let rest = self.increment_ms.saturating_sub(OVERHEAD_MS);
            return if rest > 1 {
                rest
            } else {
                1
            };
        }
        let mtg: u32 = match self.moves_to_go {
            Some(m) => m,
            None => 30,
        };
        let moves: u64 = if mtg > 1 {
            mtg as u64
        } else {
            1
        };
        let usable = self.time_left_ms.saturating_sub(OVERHEAD_MS);
        let base = usable / moves;
        let budget = base + (self.increment_ms * 3) / 4;
        let half = usable / 2;
        let cap = if half > 1 {
            half
        } else {
            1
        };
        if budget < 1 {
            1
        } else if budget > cap {
            cap
        } else {
            budget
        }
    }

    /// `true` when the budget's arithmetic fits in 64 bits, so that
    /// [`TimeControl::budget_ms`] may be called.
    pub fn fits_u64(&self) -> (r: bool)
        ensures
            r == self.fits(),
    {
        if self.time_left_ms == 0 {
            return true;
        }
        if self.increment_ms > u64::MAX / 3 {
            return false;
        }
        let mtg: u32 = match self.moves_to_go {
            Some(m) => m,
            None => 30,
        };
        let moves: u64 = if mtg > 1 {
            mtg as u64
        } else {
            1
        };
        let usable = self.time_left_ms.saturating_sub(OVERHEAD_MS);
        let base = usable / moves;
        let inc = (self.increment_ms * 3) / 4;
        base.checked_add(inc).is_some()
    }
}

} // verus!
