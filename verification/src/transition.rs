//! Interpolation between two control points.
//!
//! A `TransitionCurve` says what brightness should hold at an instant
//! between a segment's starting point (`from`) and its ending point
//! (`to`): either the starting value until the segment ends (`Instant`),
//! or a value proportional to the elapsed share of the segment (`Linear`).

use vstd::prelude::*;
use crate::schedule::ControlPoint;
use crate::schedule::DAY_MS;
use crate::schedule::wrap_dur;
use crate::schedule::wrap_duration;

verus! {

/// How brightness progresses over a segment between two control points.
#[derive(Clone, Copy, Debug, PartialEq, Eq, Structural)]
pub enum TransitionCurve {
    /// Hold the segment's starting value; jump when the segment ends.
    Instant,
    /// Move proportionally to the time elapsed within the segment.
    Linear,
}

/// The value `el` milliseconds into a segment `tot` milliseconds long
/// that runs from value `from_b` to value `to_b`, with the proportional
/// part computed in truncating integer arithmetic.
pub open spec fn linear_value(from_b: int, to_b: int, el: int, tot: int) -> int {
    if to_b >= from_b {
        from_b + (to_b - from_b) * el / tot
    } else {
        from_b - (from_b - to_b) * el / tot
    }
}

/// The brightness a curve yields at `now` between control points `from`
/// and `to`, durations measured with 24-hour wraparound from `from.time`.
pub open spec fn curve_value(curve: TransitionCurve, from: ControlPoint, to: ControlPoint, now: int) -> int {
    match curve {
        TransitionCurve::Instant => from.bright as int,
        TransitionCurve::Linear => linear_value(
            from.bright as int,
            to.bright as int,
            wrap_dur(from.time as int, now),
            wrap_dur(from.time as int, to.time as int),
        ),
    }
}

impl TransitionCurve {
    /// The brightness that should hold at `now`, assuming continuous
    /// progression from `from` to `to` under this curve. A linear curve
    /// asks for a segment of positive length that `now` has not left.
    pub fn evaluate(&self, from: &ControlPoint, to: &ControlPoint, now: u32) -> (r: u32)
        requires
            from.wf(),
            to.wf(),
            now < DAY_MS,
            *self is Linear ==> 0 < wrap_dur(from.time as int, to.time as int),
            *self is Linear ==> wrap_dur(from.time as int, now as int) <= wrap_dur(from.time as int, to.time as int),
        ensures
            r == curve_value(*self, *from, *to, now as int),
            r <= 100,
    {
        match self {
            TransitionCurve::Instant => from.bright,
            TransitionCurve::Linear => {
                let el: u64 = wrap_duration(from.time, now) as u64;
                let tot: u64 = wrap_duration(from.time, to.time) as u64;
                if to.bright >= from.bright {
                    let d: u64 = (to.bright - from.bright) as u64;
                    proof {
                        lemma_scaled_elapsed_bounded(d as int, el as int, tot as int);
                    }
                    let q: u64 = d * el / tot;
                    from.bright + (q as u32)
                } else {
                    let d: u64 = (from.bright - to.bright) as u64;
                    proof {
                        lemma_scaled_elapsed_bounded(d as int, el as int, tot as int);
                    }
                    let q: u64 = d * el / tot;
                    from.bright - (q as u32)
                }
            },
        }
    }
}

/// The proportional part of a linear step never exceeds the segment's
/// full value change while the elapsed time is within the segment.
proof fn lemma_scaled_elapsed_bounded(d: int, el: int, tot: int)
    requires
        0 <= d <= 100,
        0 <= el <= tot,
        0 < tot,
    ensures
        0 <= d * el / tot <= d,
        d * el <= 100 * tot,
{
    assert(0 <= d * el <= d * tot) by (nonlinear_arith)
        requires
            0 <= d,
            0 <= el <= tot,
    ;
    assert(d * el <= 100 * tot) by (nonlinear_arith)
        requires
            0 <= el <= tot,
            0 <= d <= 100,
    ;
    assert(0 <= d * el / tot <= d * tot / tot) by (nonlinear_arith)
        requires
            0 <= d * el <= d * tot,
            0 < tot,
    ;
    assert(d * tot / tot == d) by (nonlinear_arith)
        requires
            0 < tot,
    ;
}

/// Boundary exactness of the linear curve: at the segment's start it
/// yields the `from` value, and at the segment's end the `to` value.
pub proof fn lemma_linear_boundaries(from: ControlPoint, to: ControlPoint)
    requires
        from.wf(),
        to.wf(),
        from.time != to.time,
    ensures
        curve_value(TransitionCurve::Linear, from, to, from.time as int) == from.bright,
        curve_value(TransitionCurve::Linear, from, to, to.time as int) == to.bright,
{
    let tot = wrap_dur(from.time as int, to.time as int);
    assert(wrap_dur(from.time as int, from.time as int) == 0);
    if to.bright >= from.bright {
        let d = to.bright - from.bright;
        assert(d * 0 == 0);
        assert(0int / tot == 0) by (nonlinear_arith)
            requires
                0 < tot,
        ;
        assert(d * tot / tot == d) by (nonlinear_arith)
            requires
                0 < tot,
        ;
    } else {
        let d = from.bright - to.bright;
        assert(d * 0 == 0);
        assert(0int / tot == 0) by (nonlinear_arith)
            requires
                0 < tot,
        ;
        assert(d * tot / tot == d) by (nonlinear_arith)
            requires
                0 < tot,
        ;
    }
}

/// The instant curve holds the `from` value at every instant of the
/// segment from `from` to `to`.
pub proof fn lemma_instant_holds(from: ControlPoint, to: ControlPoint, now: int)
    requires
        wrap_dur(from.time as int, now) < wrap_dur(from.time as int, to.time as int),
    ensures
        curve_value(TransitionCurve::Instant, from, to, now) == from.bright,
{
}

} // verus!
