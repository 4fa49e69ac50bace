//! The bounded per-tick easing step.
//!
//! Each tick, a device's value moves toward its target by `percent` of the
//! remaining gap, truncated; a movement floor `min_step` keeps small gaps
//! from stalling, and the step is clamped so it never passes the target.

use vstd::prelude::*;

verus! {

/// Distance between two mathematical integers.
pub open spec fn dist(a: int, b: int) -> int {
    if a >= b {
        a - b
    } else {
        b - a
    }
}

/// Sign of a mathematical integer: -1, 0 or 1.
pub open spec fn sign(x: int) -> int {
    if x > 0 {
        1
    } else if x < 0 {
        -1
    } else {
        0
    }
}

/// The eased value: from `current`, move toward `target` by
/// `percent` percent of the gap (truncating), but at least `min_step`,
/// clamped to `target` when the step would reach or pass it.
pub open spec fn easing_spec(current: int, target: int, percent: int, min_step: int) -> int {
    let gap = dist(target, current);
    let raw = gap * percent / 100;
    let step = if raw >= min_step {
        raw
    } else {
        min_step
    };
    if step >= gap {
        target
    } else if target >= current {
        current + step
    } else {
        current - step
    }
}

/// Compute the next value to drive a device to, given its `current_val`,
/// the resolved target `set_val`, the per-tick percentage and the movement
/// floor. Pure and total; the result never passes `set_val`.
pub fn easing(current_val: i32, set_val: i32, easing_percent: u32, min_step: u32) -> (r: i32)
    requires
        1 <= easing_percent <= 100,
    ensures
        r == easing_spec(current_val as int, set_val as int, easing_percent as int, min_step as int),
{
    let cur: i64 = current_val as i64;
    let tgt: i64 = set_val as i64;
    let gap: u64 = if tgt >= cur {
        (tgt - cur) as u64
    } else {
        (cur - tgt) as u64
    };
    proof {
        assert(gap == dist(set_val as int, current_val as int));
        assert(gap * (easing_percent as int) <= gap * 100) by (nonlinear_arith)
            requires
                easing_percent <= 100,
                0 <= gap,
        ;
    }
    let raw: u64 = gap * (easing_percent as u64) / 100;
    let step: u64 = if raw >= min_step as u64 {
        raw
    } else {
        min_step as u64
    };
    if step >= gap {
        set_val
    } else if set_val >= current_val {
        (cur + step as i64) as i32
    } else {
        (cur - step as i64) as i32
    }
}

/// An easing policy: how aggressively a device is driven toward its
/// target each tick. `percent` is in 1..=100; `min_step` is the least
/// movement applied while the target has not been reached.
#[derive(Clone, Copy, Debug)]
pub struct EasingPolicy {
    pub percent: u32,
    pub min_step: u32,
}

impl EasingPolicy {
    pub open spec fn wf(&self) -> bool {
        1 <= self.percent <= 100
    }

    /// One easing step of this policy from `current` toward `target`.
    pub fn step(&self, current: i32, target: i32) -> (r: i32)
        requires
            self.wf(),
        ensures
            r == easing_spec(current as int, target as int, self.percent as int, self.min_step as int),
    {
        easing(current, target, self.percent, self.min_step)
    }
}

/// A device already at its target stays there: easing from `target` to
/// `target` returns `target` for every valid policy.
pub proof fn lemma_easing_idempotent(target: int, percent: int, min_step: int)
    requires
        1 <= percent <= 100,
        0 <= min_step,
    ensures
        easing_spec(target, target, percent, min_step) == target,
{
}

/// The eased value never overshoots: it stays between `current` and
/// `target`, so its distance to `target` never grows.
pub proof fn lemma_easing_bounded(current: int, target: int, percent: int, min_step: int)
    requires
        1 <= percent <= 100,
        0 <= min_step,
    ensures
        dist(easing_spec(current, target, percent, min_step), target) <= dist(current, target),
        current <= target ==> current <= easing_spec(current, target, percent, min_step) <= target,
        target <= current ==> target <= easing_spec(current, target, percent, min_step) <= current,
{
    let gap = dist(target, current);
    assert(0 <= gap * percent) by (nonlinear_arith)
        requires
            0 <= gap,
            0 <= percent,
    ;
}

/// With a movement floor of at least one, every eased step moves in the
/// direction of the target: the sign of the movement is the sign of the
/// remaining gap.
pub proof fn lemma_easing_directed(current: int, target: int, percent: int, min_step: int)
    requires
        1 <= percent <= 100,
        1 <= min_step,
    ensures
        sign(easing_spec(current, target, percent, min_step) - current) == sign(target - current),
{
    let gap = dist(target, current);
    assert(0 <= gap * percent) by (nonlinear_arith)
        requires
            0 <= gap,
            0 <= percent,
    ;
}

} // verus!
