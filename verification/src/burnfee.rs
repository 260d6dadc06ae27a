//! The burn-fee curve: the fee-denominated work a block creator must burn,
//! decaying as a hyperbola of the time elapsed since the previous block.
//! All values are integers in base fee units.

use vstd::prelude::*;

verus! {

/// The burn fee of one block: `start` is the curve's value at elapsed time
/// zero, `current` the amount this block's creator actually burned.
#[derive(Clone, Copy, Debug, PartialEq, Eq, Structural)]
pub struct BurnFee {
    pub start: u64,
    pub current: u64,
}

/// Elapsed milliseconds between two timestamps, never less than one; a
/// candidate stamped at or before its predecessor counts as one
/// millisecond.
pub open spec fn elapsed_ms(prevts: u64, ts: u64) -> int {
    if ts > prevts {
        ts - prevts
    } else {
        1
    }
}

/// The work needed at elapsed time `e` on a curve with value `start` at
/// zero: `start / e`, rounded to the nearest integer with halves rounded
/// up; zero once the chain has stalled for more than two heartbeats, so
/// that anyone may mint a recovery block for free.
pub open spec fn work_needed_calc(prevts: u64, ts: u64, start: u64, heartbeat: u64) -> int {
    let e = elapsed_ms(prevts, ts);
    if e > 2 * heartbeat {
        0
    } else {
        (start + e / 2) / e
    }
}

/// The curve start for the successor of a block: scaled by the ratio of
/// the heartbeat to the observed interval, so a faster-than-heartbeat
/// cadence raises the bar and a slower one lowers it, capped at the
/// largest representable value.
pub open spec fn adjust_start_calc(prev_start: u64, prevts: u64, ts: u64, heartbeat: u64) -> int {
    let e = elapsed_ms(prevts, ts);
    let scaled = (prev_start * heartbeat) / e;
    if scaled > u64::MAX {
        u64::MAX as int
    } else {
        scaled
    }
}

impl BurnFee {
    /// A burn fee with the given curve start and burned amount.
    pub fn new(start: u64, current: u64) -> (r: BurnFee)
        ensures
            r.start == start,
            r.current == current,
    {
        BurnFee { start, current }
    }

    /// The amount of work needed to produce a block at time `ts` whose
    /// predecessor was produced at `prevts` on a curve starting at
    /// `start`. Used both when bundling blocks and when validating them.
    pub fn return_work_needed(prevts: u64, ts: u64, start: u64, heartbeat: u64) -> (r: u64)
        ensures
            r as int == work_needed_calc(prevts, ts, start, heartbeat),
    {
        let elapsed: u64 = if ts > prevts {
            ts - prevts
        } else {
            1
        };
        if heartbeat <= u64::MAX / 2 && elapsed > 2 * heartbeat {
            return 0;
        }
        if heartbeat > u64::MAX / 2 {
            proof {
                assert(2 * (heartbeat as int) > u64::MAX);
                assert(elapsed_ms(prevts, ts) <= u64::MAX);
            }
        }
        let num: u128 = (start as u128) + ((elapsed as u128) / 2);
        let q: u128 = num / (elapsed as u128);
        proof {
            let s = start as int;
            let e = elapsed as int;
            assert(q == (s + e / 2) / e);
            assert((s + e / 2) / e <= s) by (nonlinear_arith)
                requires
                    s >= 0,
                    e >= 1,
            ;
        }
        q as u64
    }

    /// The burn fee for the successor of a block whose curve started at
    /// `prev_start` and that was produced at `prevts`: the adjusted curve
    /// start, and as the burned amount the work the old curve demands at
    /// `ts`.
    pub fn adjust_work_needed(prev_start: u64, prevts: u64, ts: u64, heartbeat: u64) -> (r: BurnFee)
        ensures
            r.start as int == adjust_start_calc(prev_start, prevts, ts, heartbeat),
            r.current as int == work_needed_calc(prevts, ts, prev_start, heartbeat),
    {
        let elapsed: u64 = if ts > prevts {
            ts - prevts
        } else {
            1
        };
        proof {
            assert((prev_start as int) * (heartbeat as int) <= (u64::MAX as int) * (
            u64::MAX as int)) by (nonlinear_arith)
                requires
                    prev_start <= u64::MAX,
                    heartbeat <= u64::MAX,
            ;
        }
        let scaled: u128 = ((prev_start as u128) * (heartbeat as u128)) / (elapsed as u128);
        let start: u64 = if scaled > (u64::MAX as u128) {
            u64::MAX
        } else {
            scaled as u64
        };
        let current = BurnFee::return_work_needed(prevts, ts, prev_start, heartbeat);
        BurnFee { start, current }
    }
}

} // verus!
