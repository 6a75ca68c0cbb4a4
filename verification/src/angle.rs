//! Headings: planar angles in microradians, and the bounded turn.

use vstd::prelude::*;

verus! {

/// Half a turn in microradians.
pub const HALF_TURN: i64 = 3_141_593;

/// A whole turn in microradians. Headings run from 0 up to but not
/// including this.
pub const FULL_TURN: i64 = 6_283_186;

/// `h` is a heading: at least 0 and less than a whole turn.
pub open spec fn is_heading(h: int) -> bool {
    0 <= h < FULL_TURN
}

/// The heading that an angle of any size stands for.
pub open spec fn wrap_angle(a: int) -> int {
    a % (FULL_TURN as int)
}

/// The shortest turn that leads from heading `from` to heading `to`:
/// counter-clockwise when positive, more than minus half a turn and at
/// most half a turn.
pub open spec fn shortest_turn(from: int, to: int) -> int {
    let d = wrap_angle(to - from);
    if d <= HALF_TURN {
        d
    } else {
        d - FULL_TURN
    }
}

/// The size of the shortest turn between two headings.
pub open spec fn angular_distance(from: int, to: int) -> int {
    let d = shortest_turn(from, to);
    if d >= 0 {
        d
    } else {
        -d
    }
}

/// The heading reached from `heading` by turning toward `target` by no
/// more than `max_step`: the target itself when it is that near, else the
/// heading `max_step` further along the shortest turn.
pub open spec fn turned_toward(heading: int, target: int, max_step: int) -> int {
    let d = shortest_turn(heading, target);
    if d > max_step {
        wrap_angle(heading + max_step)
    } else if -d > max_step {
        wrap_angle(heading - max_step)
    } else {
        target
    }
}

/// The most a heading may turn in `ms` milliseconds at `turn_rate`
/// milliradians per second, in microradians.
pub open spec fn max_turn(turn_rate: int, ms: int) -> int {
    turn_rate * ms
}

/// Brings an angle of any size into the range of headings.
pub fn normalize_heading(a: i64) -> (h: i64)
    ensures
        h == wrap_angle(a as int),
        is_heading(h as int),
{
    if a >= 0 {
        a % FULL_TURN
    } else {
        let b: i64 = -(a + 1);
        FULL_TURN - 1 - b % FULL_TURN
    }
}

/// Turns a heading toward a target by no more than `max_step`.
///
/// The heading never moves by more than `max_step` and never passes the
/// target: what is left of the way shrinks by exactly the step taken.
pub fn turn_toward(heading: i64, target: i64, max_step: u64) -> (out: i64)
    requires
        is_heading(heading as int),
        is_heading(target as int),
    ensures
        out == turned_toward(heading as int, target as int, max_step as int),
        is_heading(out as int),
        angular_distance(heading as int, out as int) <= max_step,
        angular_distance(out as int, target as int) == if angular_distance(
            heading as int,
            target as int,
        ) > max_step {
            angular_distance(heading as int, target as int) - max_step
        } else {
            0
        },
{
    let raw: i64 = target - heading;
    let around: i64 = if raw < 0 {
        raw + FULL_TURN
    } else {
        raw
    };
    let d: i64 = if around <= HALF_TURN {
        around
    } else {
        around - FULL_TURN
    };
    assert(d == shortest_turn(heading as int, target as int));
    if d >= 0 && d as u64 > max_step {
        let step: i64 = max_step as i64;
        let sum: i64 = heading + step;
        if sum >= FULL_TURN {
            sum - FULL_TURN
        } else {
            sum
        }
    } else if d < 0 && (-d) as u64 > max_step {
        let step: i64 = max_step as i64;
        let rest: i64 = heading - step;
        if rest < 0 {
            rest + FULL_TURN
        } else {
            rest
        }
    } else {
        target
    }
}

/// The bound on one frame's turn, in microradians.
pub fn turn_budget(turn_rate: u32, ms: u32) -> (budget: u64)
    ensures
        budget == max_turn(turn_rate as int, ms as int),
{
    assert(0 <= turn_rate * ms <= 0xffff_ffff * 0xffff_ffff) by (nonlinear_arith)
        requires
            0 <= turn_rate <= 0xffff_ffff,
            0 <= ms <= 0xffff_ffff,
    ;
    (turn_rate as u64) * (ms as u64)
}

} // verus!
