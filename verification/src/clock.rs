//! Reading the wall clock as a time of day.

use vstd::prelude::*;
use chrono::Timelike;
use crate::schedule::DAY_MS;

verus! {

/// Relies on chrono::Local::now and the chrono::Timelike accessors of
/// the returned time of day: num_seconds_from_midnight yields the whole
/// non-leap seconds past midnight, 0..=86399, and nanosecond the
/// nanoseconds within that second, below 2_000_000_000 (values of
/// 1_000_000_000 and above stand for a leap second).
#[verifier::external_body]
fn now_secs_nanos() -> (r: (u32, u32))
    ensures
        r.0 < 86400,
        r.1 < 2_000_000_000,
{
    let t = chrono::Local::now().time();
    (t.num_seconds_from_midnight(), t.nanosecond())
}

/// The wall clock's current time of day in milliseconds since midnight,
/// strictly below one day. A leap second is folded into the last
/// millisecond of its second.
pub fn now_time_of_day() -> (r: u32)
    ensures
        r < DAY_MS,
{
    let (secs, nanos) = now_secs_nanos();
    let sub_ms: u32 = nanos / 1_000_000;
    let sub_ms: u32 = if sub_ms > 999 {
        999
    } else {
        sub_ms
    };
    secs * 1000 + sub_ms
}

} // verus!
