//! The fixed-rate tick loop's bookkeeping of time, in nanoseconds.
//!
//! Each tick starts a stopwatch. The loop waits until the time since the
//! start of the tick, plus what the previous tick overran, reaches the tick
//! period; what then exceeds the period is carried over to the next tick.

use vstd::prelude::*;

verus! {

/// The tick period: 40 milliseconds.
pub const TICK_PERIOD_NANOS: u64 = 40_000_000;

/// The time a tick has taken so far, counting the previous overrun.
pub open spec fn delta(elapsed: u64, carryover: u64) -> int {
    elapsed + carryover
}

/// Whether the tick that has run for `elapsed` nanoseconds, after an overrun
/// of `carryover`, still has to wait for its period to end.
pub fn must_wait(elapsed: u64, carryover: u64, period: u64) -> (w: bool)
    ensures
        w == (delta(elapsed, carryover) < period),
{
    (elapsed as u128) + (carryover as u128) < (period as u128)
}

/// The overrun to carry into the next tick, once the period has ended.
pub fn next_carryover(elapsed: u64, carryover: u64, period: u64) -> (c: u64)
    requires
        delta(elapsed, carryover) >= period,
        delta(elapsed, carryover) - period <= u64::MAX,
    ensures
        c == delta(elapsed, carryover) - period,
{
    ((elapsed as u128) + (carryover as u128) - (period as u128)) as u64
}

} // verus!
