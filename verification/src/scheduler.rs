//! The per-device control decision.
//!
//! Each tick the loop around a device observes the wall clock and the
//! device's brightness, and `tick` decides what follows: sleep until the
//! next control point when the device already sits at its target, write
//! an eased step when it does not, or do nothing at all. The surrounding
//! process only performs the returned action.

use vstd::prelude::*;
use crate::easing::EasingPolicy;
use crate::easing::easing;
use crate::easing::easing_spec;
use crate::easing::lemma_easing_bounded;
use crate::schedule::ControlPoint;
use crate::schedule::Schedule;
use crate::schedule::ScheduleInvariantError;
use crate::schedule::DAY_MS;
use crate::schedule::all_wf;
use crate::schedule::sorted;
use crate::schedule::is_prev_index;
use crate::schedule::is_next_index;
use crate::schedule::prev_index_of;
use crate::schedule::next_index_of;
use crate::schedule::wrap_dur;
use crate::schedule::wrap_duration;
use crate::transition::TransitionCurve;
use crate::transition::curve_value;

verus! {

/// A malformed device configuration.
#[derive(Clone, Copy, Debug, PartialEq, Eq, Structural)]
pub enum ConfigurationError {
    /// The easing percentage lies outside 1..=100.
    EasingPercentOutOfRange,
    /// The schedule breaks a construction invariant.
    Schedule(ScheduleInvariantError),
}

/// The curve governing the segment that starts at `p`: the point's
/// override when present, else the device's default curve.
pub open spec fn effective_curve(p: ControlPoint, default_curve: TransitionCurve) -> TransitionCurve {
    match p.transition {
        Some(c) => c,
        None => default_curve,
    }
}

/// The brightness the schedule asks for at `now`: the segment's curve
/// evaluated from the point most recently passed to the next point
/// ahead. When both lookups land on one and the same point (a single
/// point, or `now` exactly on a point of a two-point ring), that point's
/// own brightness holds.
pub open spec fn target_spec(s: Seq<ControlPoint>, default_curve: TransitionCurve, now: int) -> int {
    let i = prev_index_of(s, now);
    let j = next_index_of(s, now);
    if i == j {
        s[i].bright as int
    } else {
        curve_value(effective_curve(s[i], default_curve), s[i], s[j], now)
    }
}

/// While the segment's start and end are distinct points, the wraparound
/// duration already elapsed within the segment at `now` is strictly
/// below the segment's total wraparound length (which is positive).
pub proof fn lemma_segment_duration(s: Seq<ControlPoint>, now: int, i: int, j: int)
    requires
        all_wf(s),
        sorted(s),
        s.len() > 0,
        0 <= now < DAY_MS,
        is_prev_index(s, now, i),
        is_next_index(s, now, j),
        i != j,
    ensures
        wrap_dur(s[i].time as int, now) < wrap_dur(s[i].time as int, s[j].time as int),
        0 < wrap_dur(s[i].time as int, s[j].time as int),
{
    let n = s.len() as int;
    assert(s[i].wf());
    assert(s[j].wf());
    assert(s[0].wf());
    assert(s[n - 1].wf());
    if s[0].time >= now {
        assert(i == n - 1);
        if s[n - 1].time <= now {
            assert(j == 0);
            assert(s[0].time < s[n - 1].time);
            assert(false);
        } else {
            assert(s[j].time > now);
            if j < n - 1 {
                assert(s[j].time < s[n - 1].time);
            }
        }
    } else {
        assert(s[i].time < now);
        if s[n - 1].time <= now {
            assert(j == 0);
            if 0 < i {
                assert(s[0].time < s[i].time);
            }
        } else {
            assert(s[j].time > now);
            if j < i {
                assert(s[j].time < s[i].time);
            }
            if i < j {
                assert(s[i].time < s[j].time);
            }
        }
    }
}

/// Per-device configuration: the schedule ring, the default transition
/// curve, the tick interval and the easing policy. Immutable after
/// construction.
#[derive(Debug)]
pub struct DeviceSettings {
    pub schedule: Schedule,
    pub default_curve: TransitionCurve,
    /// Milliseconds between easing ticks while adjusting.
    pub interval_ms: u32,
    pub easing: EasingPolicy,
}

impl DeviceSettings {
    pub open spec fn wf(&self) -> bool {
        &&& self.schedule.wf()
        &&& self.easing.wf()
        &&& self.schedule@.len() == 1 ==> effective_curve(self.schedule@[0], self.default_curve) is Instant
    }

    /// Assemble a device's settings, rejecting an easing percentage
    /// outside 1..=100 and a single-point schedule whose only segment
    /// would interpolate linearly over a zero-length interval.
    pub fn new(
        schedule: Schedule,
        default_curve: TransitionCurve,
        interval_ms: u32,
        easing_policy: EasingPolicy,
    ) -> (r: Result<DeviceSettings, ConfigurationError>)
        requires
            schedule.wf(),
        ensures
            r is Ok <==> (1 <= easing_policy.percent <= 100 && (schedule@.len() == 1 ==> effective_curve(schedule@[0], default_curve) is Instant)),
            r matches Ok(d) ==> d.schedule@ == schedule@ && d.default_curve == default_curve && d.interval_ms == interval_ms && d.easing == easing_policy && d.wf(),
            (r == Err::<DeviceSettings, ConfigurationError>(ConfigurationError::EasingPercentOutOfRange)) <==> !(1 <= easing_policy.percent <= 100),
            (r == Err::<DeviceSettings, ConfigurationError>(ConfigurationError::Schedule(ScheduleInvariantError::ZeroDurationLinear))) <==> (1 <= easing_policy.percent <= 100 && schedule@.len() == 1 && !(effective_curve(schedule@[0], default_curve) is Instant)),
    {
        if easing_policy.percent < 1 || easing_policy.percent > 100 {
            return Err(ConfigurationError::EasingPercentOutOfRange);
        }
        if schedule.len() == 1 {
            let p = schedule.point_at(0);
            let curve = match p.transition {
                Some(c) => c,
                None => default_curve,
            };
            if let TransitionCurve::Linear = curve {
                return Err(ConfigurationError::Schedule(ScheduleInvariantError::ZeroDurationLinear));
            }
        }
        Ok(DeviceSettings { schedule, default_curve, interval_ms, easing: easing_policy })
    }

    /// The brightness the device should be driven toward at `now`.
    /// `None` exactly when the schedule is empty: such a device is
    /// inactive, not in error.
    pub fn resolve_target(&self, now: u32) -> (r: Option<u32>)
        requires
            self.wf(),
            now < DAY_MS,
        ensures
            r is Some <==> self.schedule@.len() > 0,
            r matches Some(v) ==> v == target_spec(self.schedule@, self.default_curve, now as int) && v <= 100,
    {
        let n = self.schedule.len();
        if n == 0 {
            return None;
        }
        let i = match self.schedule.previous_index(now) {
            Some(i) => i,
            None => {
                proof {
                    assert(false);
                }
                0
            },
        };
        let j = match self.schedule.next_index(now) {
            Some(j) => j,
            None => {
                proof {
                    assert(false);
                }
                0
            },
        };
        let from = self.schedule.point_at(i);
        proof {
            assert(self.schedule@[i as int].wf());
            assert(self.schedule@[j as int].wf());
        }
        if i == j {
            Some(from.bright)
        } else {
            proof {
                lemma_segment_duration(self.schedule@, now as int, i as int, j as int);
            }
            let to = self.schedule.point_at(j);
            let curve = match from.transition {
                Some(c) => c,
                None => self.default_curve,
            };
            Some(curve.evaluate(&from, &to, now))
        }
    }
}

/// What a device's loop should do this tick.
#[derive(Clone, Copy, Debug, PartialEq, Eq, Structural)]
pub enum TickAction {
    /// The schedule holds no points: leave the device alone.
    Inactive,
    /// The device already sits at its target: sleep this many
    /// milliseconds, until the next control point's time comes around.
    Sleep { millis: u32 },
    /// Drive the device to this value now.
    Write { value: u32 },
    /// An easing step would not move the value: skip the redundant write.
    Hold,
}

impl DeviceSettings {
    /// One control decision for a device observed at brightness
    /// `current` when the wall clock reads `now`.
    pub fn tick(&self, now: u32, current: u32) -> (r: TickAction)
        requires
            self.wf(),
            now < DAY_MS,
            current <= 100,
        ensures
            ({
                let s = self.schedule@;
                let tgt = target_spec(s, self.default_curve, now as int);
                let eased = easing_spec(current as int, tgt, self.easing.percent as int, self.easing.min_step as int);
                &&& (r is Inactive <==> s.len() == 0)
                &&& (s.len() > 0 && current == tgt ==> r == (TickAction::Sleep { millis: wrap_dur(now as int, s[next_index_of(s, now as int)].time as int) as u32 }))
                &&& (s.len() > 0 && current != tgt && eased != current ==> r == (TickAction::Write { value: eased as u32 }))
                &&& (s.len() > 0 && current != tgt && eased == current ==> r == TickAction::Hold)
                &&& (r matches TickAction::Write { value } ==> value <= 100)
            }),
    {
        let n = self.schedule.len();
        if n == 0 {
            return TickAction::Inactive;
        }
        let target = match self.resolve_target(now) {
            Some(v) => v,
            None => {
                proof {
                    assert(false);
                }
                0
            },
        };
        if current == target {
            let j = match self.schedule.next_index(now) {
                Some(j) => j,
                None => {
                    proof {
                        assert(false);
                    }
                    0
                },
            };
            let wake = self.schedule.point_at(j);
            proof {
                assert(self.schedule@[j as int].wf());
            }
            TickAction::Sleep { millis: wrap_duration(now, wake.time) }
        } else {
            let eased_i = easing(current as i32, target as i32, self.easing.percent, self.easing.min_step);
            proof {
                lemma_easing_bounded(current as int, target as int, self.easing.percent as int, self.easing.min_step as int);
            }
            let eased = eased_i as u32;
            if eased != current {
                TickAction::Write { value: eased }
            } else {
                TickAction::Hold
            }
        }
    }
}

} // verus!
