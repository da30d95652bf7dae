//! Conversions of timer ticks.
//!
//! The tick counter itself is read by the caller; this module turns a
//! reading into milliseconds and microseconds and computes when the next
//! timer interrupt is due.

use crate::config::CLOCK_FREQ;
use vstd::prelude::*;

verus! {

/// Milliseconds per second.
pub const MSEC_PER_SEC: usize = 1000;

/// Microseconds per second.
pub const MICRO_PER_SEC: usize = 1_000_000;

/// Timer interrupts per second.
pub const TICKS_PER_SEC: usize = 100;

/// A reading of the tick counter.
pub type Tick = usize;

/// The time of the reading `ticks` in milliseconds.
pub open spec fn ticks_to_ms(ticks: Tick) -> int {
    ticks * MSEC_PER_SEC / (CLOCK_FREQ as int)
}

/// The time of the reading `ticks` in microseconds.
pub open spec fn ticks_to_us(ticks: Tick) -> int {
    ticks * MICRO_PER_SEC / (CLOCK_FREQ as int)
}

/// The time of the reading `ticks` in milliseconds.
pub fn get_time_ms(ticks: Tick) -> (ms: usize)
    ensures
        ms == ticks_to_ms(ticks),
{
    let wide: u128 = ticks as u128 * MSEC_PER_SEC as u128 / CLOCK_FREQ as u128;
    assert(wide <= ticks) by (nonlinear_arith)
        requires
            wide == ticks * 1000 / 12_500_000,
    ;
    wide as usize
}

/// The time of the reading `ticks` in microseconds.
pub fn get_time_us(ticks: Tick) -> (us: usize)
    ensures
        us == ticks_to_us(ticks),
{
    let wide: u128 = ticks as u128 * MICRO_PER_SEC as u128 / CLOCK_FREQ as u128;
    assert(wide <= ticks) by (nonlinear_arith)
        requires
            wide == ticks * 1_000_000 / 12_500_000,
    ;
    wide as usize
}

/// The reading at which the next timer interrupt is due, 10 ms after the
/// reading `now`.  `None` when the counter would have wrapped by then.
pub fn set_next_trigger(now: Tick) -> (due: Option<Tick>)
    ensures
        now + CLOCK_FREQ / TICKS_PER_SEC <= usize::MAX ==> due == Some(
            (now + CLOCK_FREQ / TICKS_PER_SEC) as usize,
        ),
        now + CLOCK_FREQ / TICKS_PER_SEC > usize::MAX ==> due is None,
{
    now.checked_add(CLOCK_FREQ / TICKS_PER_SEC)
}

} // verus!
