//! The time since boot, from the ticks of the platform's timer.

use vstd::prelude::*;

verus! {

/// How often the timer ticks in a second.
pub const TICKS_PER_SECOND: u64 = 10_000_000;

/// The nanoseconds of a second.
pub const NANOS_PER_SECOND: u64 = 1_000_000_000;

/// The nanoseconds between two ticks.
pub const NANOS_PER_TICK: u64 = NANOS_PER_SECOND / TICKS_PER_SECOND;

/// The clock of the kernel.
pub struct Time;

impl Time {
    /// The nanoseconds that have passed after `ticks` ticks of the timer.
    pub fn nanos(ticks: u64) -> (r: u64)
        requires
            ticks * 100 <= u64::MAX,
        ensures
            r == ticks * 100,
    {
        ticks * NANOS_PER_TICK
    }
}

} // verus!
