//! The wraparound schedule: an ascending ring of control points over a
//! repeating 24-hour cycle.
//!
//! Times of day are milliseconds since midnight, strictly below one day.
//! Lookups wrap past midnight: the point "before" an instant earlier than
//! every point is the last point of the day, and the point "after" an
//! instant later than every point is the first.

use vstd::prelude::*;
use crate::transition::TransitionCurve;

verus! {

/// Milliseconds in one 24-hour cycle.
pub const DAY_MS: u32 = 86_400_000;

/// One scheduled brightness target: a time of day, a brightness in
/// 0..=100, and an optional curve override for the segment starting here.
#[derive(Clone, Copy, Debug, PartialEq)]
pub struct ControlPoint {
    /// Milliseconds since midnight, below `DAY_MS`.
    pub time: u32,
    /// Brightness percentage, 0..=100.
    pub bright: u32,
    /// When present, supersedes the device's default curve for the
    /// segment that starts at this point.
    pub transition: Option<TransitionCurve>,
}

impl ControlPoint {
    pub open spec fn wf(&self) -> bool {
        self.time < DAY_MS && self.bright <= 100
    }
}

/// Duration in milliseconds from time-of-day `from` forward to `to`,
/// wrapping past midnight: a span that would come out negative gains a
/// day. Zero exactly when the two times are equal.
pub open spec fn wrap_dur(from: int, to: int) -> int {
    if to >= from {
        to - from
    } else {
        to + DAY_MS - from
    }
}

/// Compute the wraparound duration from `from` forward to `to`.
pub fn wrap_duration(from: u32, to: u32) -> (r: u32)
    requires
        from < DAY_MS,
        to < DAY_MS,
    ensures
        r == wrap_dur(from as int, to as int),
        r < DAY_MS,
{
    if to >= from {
        to - from
    } else {
        to + DAY_MS - from
    }
}

/// Every point has a time below one day and a brightness of at most 100.
pub open spec fn all_wf(s: Seq<ControlPoint>) -> bool {
    forall|i: int| 0 <= i < s.len() ==> s[i].wf()
}

/// Times are strictly ascending: sorted, with no duplicates.
pub open spec fn sorted(s: Seq<ControlPoint>) -> bool {
    forall|i: int, j: int| 0 <= i < j < s.len() ==> s[i].time < s[j].time
}

/// `i` is the index `previous` resolves to at `now`: the greatest index
/// whose time is strictly before `now`, or the last index when `now`
/// precedes every point (the ring wraps backward past midnight).
pub open spec fn is_prev_index(s: Seq<ControlPoint>, now: int, i: int) -> bool {
    &&& 0 <= i < s.len()
    &&& if s[0].time >= now {
        i == s.len() - 1
    } else {
        s[i].time < now && (i + 1 == s.len() || s[i + 1].time >= now)
    }
}

/// `i` is the index `next` resolves to at `now`: the least index whose
/// time is strictly after `now`, or index 0 when `now` is at or past
/// every point (the ring wraps forward past midnight).
pub open spec fn is_next_index(s: Seq<ControlPoint>, now: int, i: int) -> bool {
    &&& 0 <= i < s.len()
    &&& if s[s.len() - 1].time <= now {
        i == 0
    } else {
        s[i].time > now && (i == 0 || s[i - 1].time <= now)
    }
}

/// The index one step back around the ring.
pub open spec fn ring_pred(len: int, i: int) -> int {
    if i == 0 {
        len - 1
    } else {
        i - 1
    }
}

/// The index `previous` resolves to at `now` (meaningful for sorted,
/// non-empty sequences, where it exists and is unique).
pub open spec fn prev_index_of(s: Seq<ControlPoint>, now: int) -> int {
    choose|i: int| is_prev_index(s, now, i)
}

/// The index `next` resolves to at `now` (meaningful for sorted,
/// non-empty sequences, where it exists and is unique).
pub open spec fn next_index_of(s: Seq<ControlPoint>, now: int) -> int {
    choose|i: int| is_next_index(s, now, i)
}

/// At most one index satisfies `is_prev_index` for a sorted sequence.
pub proof fn lemma_prev_index_unique(s: Seq<ControlPoint>, now: int, i: int, j: int)
    requires
        sorted(s),
        is_prev_index(s, now, i),
        is_prev_index(s, now, j),
    ensures
        i == j,
{
    if s[0].time < now {
        if i < j {
            assert(s[i + 1].time <= s[j].time);
        }
        if j < i {
            assert(s[j + 1].time <= s[i].time);
        }
    }
}

/// At most one index satisfies `is_next_index` for a sorted sequence.
pub proof fn lemma_next_index_unique(s: Seq<ControlPoint>, now: int, i: int, j: int)
    requires
        sorted(s),
        is_next_index(s, now, i),
        is_next_index(s, now, j),
    ensures
        i == j,
{
    if s[s.len() - 1].time > now {
        if i < j {
            assert(s[i].time <= s[j - 1].time);
        }
        if j < i {
            assert(s[j].time <= s[i - 1].time);
        }
    }
}

/// Produce the index `previous` resolves to, scanning down from `k`,
/// every index at or above `k` having a time at or past `now`.
proof fn find_prev_from(s: Seq<ControlPoint>, now: int, k: int) -> (i: int)
    requires
        sorted(s),
        s.len() > 0,
        0 <= k <= s.len(),
        forall|m: int| k <= m < s.len() ==> s[m].time >= now,
    ensures
        is_prev_index(s, now, i),
    decreases k,
{
    if k == 0 {
        s.len() - 1
    } else if s[k - 1].time < now {
        assert(s[0].time < now) by {
            if k - 1 > 0 {
                assert(s[0].time < s[k - 1].time);
            }
        }
        k - 1
    } else {
        find_prev_from(s, now, k - 1)
    }
}

/// Produce the index `next` resolves to, scanning up from `k`, every
/// index below `k` having a time at or before `now`.
proof fn find_next_from(s: Seq<ControlPoint>, now: int, k: int) -> (i: int)
    requires
        sorted(s),
        s.len() > 0,
        0 <= k <= s.len(),
        forall|m: int| 0 <= m < k ==> s[m].time <= now,
    ensures
        is_next_index(s, now, i),
    decreases s.len() - k,
{
    if k == s.len() {
        0
    } else if s[k].time > now {
        assert(s[s.len() - 1].time > now) by {
            if k < s.len() - 1 {
                assert(s[k].time < s[s.len() - 1].time);
            }
        }
        k
    } else {
        find_next_from(s, now, k + 1)
    }
}

/// For every sorted, non-empty sequence and every time, the `previous`
/// and `next` indices exist.
pub proof fn lemma_lookup_indices_exist(s: Seq<ControlPoint>, now: int)
    requires
        sorted(s),
        s.len() > 0,
    ensures
        is_prev_index(s, now, prev_index_of(s, now)),
        is_next_index(s, now, next_index_of(s, now)),
{
    let i = find_prev_from(s, now, s.len() as int);
    assert(is_prev_index(s, now, i));
    let j = find_next_from(s, now, 0);
    assert(is_next_index(s, now, j));
}

/// For every non-empty sorted schedule and every time `t`: `previous`
/// lands on the latest point strictly before `t` when one exists and
/// otherwise wraps to the last point; `next` lands on the earliest point
/// strictly after `t` when one exists and otherwise wraps to the first.
pub proof fn lemma_lookup_wraparound(s: Seq<ControlPoint>, t: int)
    requires
        sorted(s),
        s.len() > 0,
    ensures
        (exists|k: int| 0 <= k < s.len() && s[k].time < t) ==> {
            let i = prev_index_of(s, t);
            &&& s[i].time < t
            &&& forall|k: int| 0 <= k < s.len() && s[k].time < t ==> s[k].time <= s[i].time
        },
        !(exists|k: int| 0 <= k < s.len() && s[k].time < t) ==> prev_index_of(s, t) == s.len() - 1,
        (exists|k: int| 0 <= k < s.len() && s[k].time > t) ==> {
            let j = next_index_of(s, t);
            &&& s[j].time > t
            &&& forall|k: int| 0 <= k < s.len() && s[k].time > t ==> s[j].time <= s[k].time
        },
        !(exists|k: int| 0 <= k < s.len() && s[k].time > t) ==> next_index_of(s, t) == 0,
{
    lemma_lookup_indices_exist(s, t);
    let i = prev_index_of(s, t);
    let j = next_index_of(s, t);
    if exists|k: int| 0 <= k < s.len() && s[k].time < t {
        let k0 = choose|k: int| 0 <= k < s.len() && s[k].time < t;
        assert(s[0].time < t) by {
            if k0 > 0 {
                assert(s[0].time < s[k0].time);
            }
        }
        assert forall|k: int| 0 <= k < s.len() && s[k].time < t implies s[k].time <= s[i].time by {
            if k > i {
                assert(s[i + 1].time <= s[k].time);
            }
        }
    }
    if exists|k: int| 0 <= k < s.len() && s[k].time > t {
        let k0 = choose|k: int| 0 <= k < s.len() && s[k].time > t;
        assert(s[s.len() - 1].time > t) by {
            if k0 < s.len() - 1 {
                assert(s[k0].time < s[s.len() - 1].time);
            }
        }
        assert forall|k: int| 0 <= k < s.len() && s[k].time > t implies s[j].time <= s[k].time by {
            if k < j {
                assert(s[k].time <= s[j - 1].time);
            }
        }
    }
}

/// Under wraparound semantics, `previous` is the nearest point strictly
/// behind `t`: among all points whose time differs from `t`, none lies
/// at a smaller wraparound distance backward from `t`.
pub proof fn lemma_previous_nearest_behind(s: Seq<ControlPoint>, t: int)
    requires
        all_wf(s),
        sorted(s),
        s.len() > 0,
        0 <= t < DAY_MS,
    ensures
        forall|k: int| 0 <= k < s.len() && s[k].time != t ==> wrap_dur(s[prev_index_of(s, t)].time as int, t) <= wrap_dur(#[trigger] s[k].time as int, t),
{
    lemma_lookup_indices_exist(s, t);
    let i = prev_index_of(s, t);
    assert forall|k: int| 0 <= k < s.len() && s[k].time != t implies wrap_dur(s[i].time as int, t) <= wrap_dur(s[k].time as int, t) by {
        assert(s[k].wf());
        assert(s[i].wf());
        assert(s[0].wf());
        if s[0].time >= t {
            if k > 0 {
                assert(s[0].time < s[k].time);
            }
            if k < i {
                assert(s[k].time < s[i].time);
            }
        } else {
            if s[k].time < t {
                if k > i {
                    assert(s[i + 1].time <= s[k].time);
                }
                if k < i {
                    assert(s[k].time < s[i].time);
                }
            }
        }
    }
}

/// Under wraparound semantics, `next` is the nearest point strictly
/// ahead of `t`: among all points whose time differs from `t`, none lies
/// at a smaller wraparound distance forward from `t`.
pub proof fn lemma_next_nearest_ahead(s: Seq<ControlPoint>, t: int)
    requires
        all_wf(s),
        sorted(s),
        s.len() > 0,
        0 <= t < DAY_MS,
    ensures
        forall|k: int| 0 <= k < s.len() && s[k].time != t ==> wrap_dur(t, s[next_index_of(s, t)].time as int) <= wrap_dur(t, #[trigger] s[k].time as int),
{
    lemma_lookup_indices_exist(s, t);
    let j = next_index_of(s, t);
    assert forall|k: int| 0 <= k < s.len() && s[k].time != t implies wrap_dur(t, s[j].time as int) <= wrap_dur(t, s[k].time as int) by {
        assert(s[k].wf());
        assert(s[j].wf());
        assert(s[s.len() - 1].wf());
        if s[s.len() - 1].time <= t {
            if k < s.len() - 1 {
                assert(s[k].time < s[s.len() - 1].time);
            }
            if j < k {
                assert(s[j as int].time < s[k].time);
            }
        } else {
            if s[k].time > t {
                if k < j {
                    assert(s[k].time <= s[j - 1].time);
                }
                if j < k {
                    assert(s[j as int].time < s[k].time);
                }
            }
        }
    }
}

/// A construction-time schedule violation.
#[derive(Clone, Copy, Debug, PartialEq, Eq, Structural)]
pub enum ScheduleInvariantError {
    /// A point's time is not below one day of milliseconds.
    TimeOutOfRange,
    /// Times are not strictly ascending: out of order or duplicated.
    NotAscending,
    /// A point's brightness exceeds 100.
    BrightnessOutOfRange,
    /// A single-point schedule whose only segment is linear would
    /// interpolate over a zero-length interval.
    ZeroDurationLinear,
}

/// The ordered, wraparound ring of control points for one device.
/// Read-only after construction.
#[derive(Debug)]
pub struct Schedule {
    points: Vec<ControlPoint>,
}

impl Schedule {
    /// The points, as the mathematical sequence contracts speak of.
    pub closed spec fn view(&self) -> Seq<ControlPoint> {
        self.points@
    }

    pub open spec fn wf(&self) -> bool {
        all_wf(self@) && sorted(self@)
    }

    /// Build a schedule from points already sorted ascending by time,
    /// rejecting any time at or past one day, any disorder or duplicate
    /// time, and any brightness above 100 - in that order of checks.
    #[verifier::loop_isolation(false)]
    pub fn new(points: Vec<ControlPoint>) -> (r: Result<Schedule, ScheduleInvariantError>)
        ensures
            r is Ok <==> all_wf(points@) && sorted(points@),
            r matches Ok(s) ==> s@ == points@ && s.wf(),
            (r == Err::<Schedule, ScheduleInvariantError>(ScheduleInvariantError::TimeOutOfRange)) <==> !(forall|i: int| 0 <= i < points@.len() ==> points@[i].time < DAY_MS),
            (r == Err::<Schedule, ScheduleInvariantError>(ScheduleInvariantError::NotAscending)) <==> ((forall|i: int| 0 <= i < points@.len() ==> points@[i].time < DAY_MS) && !sorted(points@)),
            (r == Err::<Schedule, ScheduleInvariantError>(ScheduleInvariantError::BrightnessOutOfRange)) <==> ((forall|i: int| 0 <= i < points@.len() ==> points@[i].time < DAY_MS) && sorted(points@) && !(forall|i: int| 0 <= i < points@.len() ==> points@[i].bright <= 100)),
    {
        let n = points.len();
        let mut k: usize = 0;
        while k < n
            invariant
                0 <= k <= n,
                forall|i: int| 0 <= i < k ==> points@[i].time < DAY_MS,
            decreases n - k,
        {
            if points[k].time >= DAY_MS {
                return Err(ScheduleInvariantError::TimeOutOfRange);
            }
            k = k + 1;
        }
        let mut k: usize = 1;
        while k < n
            invariant
                1 <= k <= n || n == 0,
                forall|i: int| 0 <= i < k - 1 ==> (#[trigger] points@[i].time) < points@[i + 1].time,
            decreases n - k,
        {
            if points[k - 1].time >= points[k].time {
                proof {
                    assert(!sorted(points@));
                }
                return Err(ScheduleInvariantError::NotAscending);
            }
            k = k + 1;
        }
        proof {
            lemma_adjacent_sorted(points@);
        }
        let mut k: usize = 0;
        while k < n
            invariant
                0 <= k <= n,
                forall|i: int| 0 <= i < k ==> points@[i].bright <= 100,
            decreases n - k,
        {
            if points[k].bright > 100 {
                return Err(ScheduleInvariantError::BrightnessOutOfRange);
            }
            k = k + 1;
        }
        Ok(Schedule { points })
    }

    /// How many control points the schedule holds.
    pub fn len(&self) -> (r: usize)
        ensures
            r == self@.len(),
    {
        self.points.len()
    }

    /// The point at an index, counting from the earliest time.
    pub fn point_at(&self, i: usize) -> (r: ControlPoint)
        requires
            i < self@.len(),
        ensures
            r == self@[i as int],
    {
        self.points[i]
    }

    /// Index of the control point most recently passed: the latest point
    /// strictly before `now`, wrapping to the last point when `now`
    /// precedes every point. `None` exactly when the schedule is empty.
    #[verifier::loop_isolation(false)]
    pub fn previous_index(&self, now: u32) -> (r: Option<usize>)
        requires
            self.wf(),
        ensures
            r is Some <==> self@.len() > 0,
            r matches Some(i) ==> is_prev_index(self@, now as int, i as int) && i as int == prev_index_of(self@, now as int),
    {
        let n = self.points.len();
        if n == 0 {
            return None;
        }
        let mut k: usize = n;
        while k > 0
            invariant
                0 <= k <= n,
                forall|m: int| k <= m < n ==> self@[m].time >= now,
            decreases k,
        {
            if self.points[k - 1].time < now {
                proof {
                    if k - 1 > 0 {
                        assert(self@[0].time < self@[k - 1].time);
                    }
                    assert(is_prev_index(self@, now as int, k - 1));
                    lemma_prev_index_unique(self@, now as int, k - 1, prev_index_of(self@, now as int));
                }
                return Some(k - 1);
            }
            k = k - 1;
        }
        proof {
            assert(is_prev_index(self@, now as int, n - 1));
            lemma_prev_index_unique(self@, now as int, n - 1, prev_index_of(self@, now as int));
        }
        Some(n - 1)
    }

    /// Index of the first control point strictly after `now`, wrapping
    /// to the first point when `now` is at or past every point. `None`
    /// exactly when the schedule is empty.
    #[verifier::loop_isolation(false)]
    pub fn next_index(&self, now: u32) -> (r: Option<usize>)
        requires
            self.wf(),
        ensures
            r is Some <==> self@.len() > 0,
            r matches Some(i) ==> is_next_index(self@, now as int, i as int) && i as int == next_index_of(self@, now as int),
    {
        let n = self.points.len();
        if n == 0 {
            return None;
        }
        let mut k: usize = 0;
        while k < n
            invariant
                0 <= k <= n,
                forall|m: int| 0 <= m < k ==> self@[m].time <= now,
            decreases n - k,
        {
            if self.points[k].time > now {
                proof {
                    if k < n - 1 {
                        assert(self@[k as int].time < self@[n - 1].time);
                    }
                    assert(is_next_index(self@, now as int, k as int));
                    lemma_next_index_unique(self@, now as int, k as int, next_index_of(self@, now as int));
                }
                return Some(k);
            }
            k = k + 1;
        }
        proof {
            assert(is_next_index(self@, now as int, 0));
            lemma_next_index_unique(self@, now as int, 0, next_index_of(self@, now as int));
        }
        Some(0)
    }

    /// The control point most recently passed before `now`, under
    /// wraparound. `None` exactly when the schedule is empty.
    pub fn previous(&self, now: u32) -> (r: Option<ControlPoint>)
        requires
            self.wf(),
        ensures
            r is Some <==> self@.len() > 0,
            r matches Some(p) ==> p == self@[prev_index_of(self@, now as int)] && is_prev_index(self@, now as int, prev_index_of(self@, now as int)),
    {
        match self.previous_index(now) {
            None => None,
            Some(i) => Some(self.points[i]),
        }
    }

    /// The control point the device is coming from: the same point as
    /// `previous`, under the name the segment logic uses.
    pub fn current(&self, now: u32) -> (r: Option<ControlPoint>)
        requires
            self.wf(),
        ensures
            r is Some <==> self@.len() > 0,
            r matches Some(p) ==> p == self@[prev_index_of(self@, now as int)] && is_prev_index(self@, now as int, prev_index_of(self@, now as int)),
    {
        self.previous(now)
    }

    /// The first control point strictly after `now`, under wraparound.
    /// `None` exactly when the schedule is empty.
    pub fn next(&self, now: u32) -> (r: Option<ControlPoint>)
        requires
            self.wf(),
        ensures
            r is Some <==> self@.len() > 0,
            r matches Some(p) ==> p == self@[next_index_of(self@, now as int)] && is_next_index(self@, now as int, next_index_of(self@, now as int)),
    {
        match self.next_index(now) {
            None => None,
            Some(i) => Some(self.points[i]),
        }
    }

    /// The control point immediately preceding the current segment's
    /// start: one ring step back from `previous`. `None` exactly when
    /// the schedule is empty.
    pub fn before_previous(&self, now: u32) -> (r: Option<ControlPoint>)
        requires
            self.wf(),
        ensures
            r is Some <==> self@.len() > 0,
            r matches Some(p) ==> p == self@[ring_pred(self@.len() as int, prev_index_of(self@, now as int))] && is_prev_index(self@, now as int, prev_index_of(self@, now as int)),
    {
        let n = self.points.len();
        match self.previous_index(now) {
            None => None,
            Some(i) => {
                if i == 0 {
                    Some(self.points[n - 1])
                } else {
                    Some(self.points[i - 1])
                }
            },
        }
    }
}

/// Strictly ascending adjacent times make the whole sequence sorted.
proof fn lemma_adjacent_sorted(s: Seq<ControlPoint>)
    requires
        forall|i: int| 0 <= i < s.len() - 1 ==> (#[trigger] s[i].time) < s[i + 1].time,
    ensures
        sorted(s),
{
    assert forall|i: int, j: int| 0 <= i < j < s.len() implies s[i].time < s[j].time by {
        lemma_sorted_step(s, i, j);
    }
}

proof fn lemma_sorted_step(s: Seq<ControlPoint>, i: int, j: int)
    requires
        forall|m: int| 0 <= m < s.len() - 1 ==> (#[trigger] s[m].time) < s[m + 1].time,
        0 <= i < j < s.len(),
    ensures
        s[i].time < s[j].time,
    decreases j - i,
{
    if i + 1 < j {
        lemma_sorted_step(s, i, j - 1);
        assert(s[j - 1].time < s[j].time);
    } else {
        assert(s[i].time < s[i + 1].time);
    }
}

} // verus!
