//! The timer: reading it in milliseconds and programming the next tick.
use vstd::prelude::*;
use crate::config::CLOCK_FREQ;

verus! {

/// Timer interrupts per second.
pub const TICKS_PER_SEC: usize = 100;
/// Milliseconds per second.
pub const MSEC_PER_SEC: usize = 1000;

/// The time of the next timer interrupt when the timer reads `now`: one
/// hundredth of a second later.
pub fn set_next_trigger(now: usize) -> (r: usize)
    requires
        now + CLOCK_FREQ / TICKS_PER_SEC <= usize::MAX,
    ensures
        r == now + CLOCK_FREQ / TICKS_PER_SEC,
{
    now + CLOCK_FREQ / TICKS_PER_SEC
}

/// The timer reading `time` in milliseconds.
pub fn get_time_ms(time: usize) -> (r: usize)
    ensures
        r == time / (CLOCK_FREQ / MSEC_PER_SEC),
{
    time / (CLOCK_FREQ / MSEC_PER_SEC)
}

} // verus!
