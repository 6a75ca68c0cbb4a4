//! The repeating countdown behind timer-driven fire.

use bevy::time::{Timer, TimerMode};
use std::time::Duration;
use vstd::prelude::*;

verus! {

/// How many whole intervals end when a repeating countdown that stands at
/// `elapsed` is advanced by `delta`, as a 32-bit count.
///
/// A countdown of interval zero reports the largest count on every advance.
pub open spec fn completions(interval: int, elapsed: int, delta: int) -> int {
    if interval == 0 {
        u32::MAX as int
    } else {
        ((elapsed + delta) / interval) % 0x1_0000_0000
    }
}

/// Where the countdown stands after that advance.
pub open spec fn remainder(interval: int, elapsed: int, delta: int) -> int {
    if interval == 0 {
        0
    } else {
        (elapsed + delta) % interval
    }
}

/// Advances a repeating countdown and reports where it then stands and how
/// many intervals it completed, all in milliseconds.
///
/// Builds a `bevy::time::Timer` in `TimerMode::Repeating` with the given
/// interval, places it at `elapsed_ms` with `set_elapsed`, and calls
/// `Timer::tick` with `delta_ms`. The contract restates what `tick` does to
/// an unpaused repeating timer: the elapsed time becomes the sum modulo the
/// interval, and `times_finished_this_tick` is the quotient cut to 32 bits;
/// for an interval of zero the elapsed time is reset and the count is
/// `u32::MAX`.
#[verifier::external_body]
pub(crate) fn tick_repeating(interval_ms: u32, elapsed_ms: u32, delta_ms: u32) -> (out: (u32, u32))
    ensures
        out.0 == remainder(interval_ms as int, elapsed_ms as int, delta_ms as int),
        out.1 == completions(interval_ms as int, elapsed_ms as int, delta_ms as int),
{
    let mut timer = Timer::new(Duration::from_millis(interval_ms as u64), TimerMode::Repeating);
    timer.set_elapsed(Duration::from_millis(elapsed_ms as u64));
    timer.tick(Duration::from_millis(delta_ms as u64));
    (timer.elapsed().as_millis() as u32, timer.times_finished_this_tick())
}

} // verus!
