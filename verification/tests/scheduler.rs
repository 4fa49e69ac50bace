use bright::ControlPoint;
use bright::ConfigurationError;
use bright::DeviceSettings;
use bright::EasingPolicy;
use bright::Schedule;
use bright::ScheduleInvariantError;
use bright::TickAction;
use bright::TransitionCurve;
use bright::now_time_of_day;
use bright::DAY_MS;

const HOUR: u32 = 3_600_000;

fn point(time: u32, bright: u32) -> ControlPoint {
    ControlPoint { time, bright, transition: None }
}

fn settings(points: Vec<ControlPoint>, curve: TransitionCurve, percent: u32, min_step: u32) -> DeviceSettings {
    let schedule = Schedule::new(points).unwrap();
    DeviceSettings::new(schedule, curve, 1000, EasingPolicy { percent, min_step }).unwrap()
}

#[test]
fn resolve_linear_interpolates() {
    // 08:00 -> 30, 18:00 -> 80, 22:00 -> 20 under Linear at 13:00:
    // between 08:00/30 and 18:00/80, 5h of 10h: 55.
    let d = settings(
        vec![point(8 * HOUR, 30), point(18 * HOUR, 80), point(22 * HOUR, 20)],
        TransitionCurve::Linear,
        100,
        1,
    );
    assert_eq!(d.resolve_target(13 * HOUR), Some(55));
}

#[test]
fn resolve_instant_holds() {
    let d = settings(
        vec![point(8 * HOUR, 30), point(18 * HOUR, 80)],
        TransitionCurve::Instant,
        100,
        1,
    );
    assert_eq!(d.resolve_target(10 * HOUR), Some(30));
    assert_eq!(d.resolve_target(19 * HOUR), Some(80));
    // Before the first point the segment comes from the day's last point.
    assert_eq!(d.resolve_target(7 * HOUR), Some(80));
}

#[test]
fn resolve_override_supersedes_default() {
    // The 08:00 point pins its segment to Instant inside a Linear device.
    let d = settings(
        vec![
            ControlPoint { time: 8 * HOUR, bright: 30, transition: Some(TransitionCurve::Instant) },
            point(18 * HOUR, 80),
            point(22 * HOUR, 20),
        ],
        TransitionCurve::Linear,
        100,
        1,
    );
    assert_eq!(d.resolve_target(13 * HOUR), Some(30));
    // The 18:00 segment has no override and interpolates: 80 + (20-80)*1/4 = 65.
    assert_eq!(d.resolve_target(19 * HOUR), Some(65));
}

#[test]
fn resolve_empty_is_none() {
    let d = settings(Vec::new(), TransitionCurve::Linear, 100, 1);
    assert_eq!(d.resolve_target(0), None);
    assert_eq!(d.resolve_target(13 * HOUR), None);
}

#[test]
fn resolve_single_point_holds_its_value() {
    let d = settings(vec![point(12 * HOUR, 50)], TransitionCurve::Instant, 100, 1);
    assert_eq!(d.resolve_target(0), Some(50));
    assert_eq!(d.resolve_target(12 * HOUR), Some(50));
    assert_eq!(d.resolve_target(23 * HOUR), Some(50));
}

#[test]
fn resolve_two_points_exactly_on_first_point() {
    // At the very instant of the earliest point, both lookups land on
    // the other point of a two-point ring: its value holds.
    let d = settings(
        vec![point(6 * HOUR, 40), point(23 * HOUR, 10)],
        TransitionCurve::Linear,
        100,
        1,
    );
    assert_eq!(d.resolve_target(6 * HOUR), Some(10));
}

#[test]
fn tick_inactive_on_empty() {
    let d = settings(Vec::new(), TransitionCurve::Linear, 100, 1);
    assert_eq!(d.tick(13 * HOUR, 50), TickAction::Inactive);
}

#[test]
fn tick_sleeps_until_next_point_when_at_target() {
    let d = settings(
        vec![point(8 * HOUR, 30), point(18 * HOUR, 80)],
        TransitionCurve::Instant,
        10,
        2,
    );
    // At 10:00 the target is 30; a device already there sleeps the
    // 8 hours until 18:00.
    assert_eq!(d.tick(10 * HOUR, 30), TickAction::Sleep { millis: 8 * HOUR });
    // At 19:00 the target is 80; the next point is 08:00 tomorrow.
    assert_eq!(d.tick(19 * HOUR, 80), TickAction::Sleep { millis: 13 * HOUR });
}

#[test]
fn tick_writes_eased_step() {
    let d = settings(
        vec![point(8 * HOUR, 30), point(18 * HOUR, 80)],
        TransitionCurve::Instant,
        10,
        2,
    );
    // At 10:00 the target is 30; from 50 a ten-percent step moves by 2.
    assert_eq!(d.tick(10 * HOUR, 50), TickAction::Write { value: 48 });
    // Near the target min_step clamps onto it.
    assert_eq!(d.tick(10 * HOUR, 31), TickAction::Write { value: 30 });
}

#[test]
fn tick_holds_when_step_cannot_move() {
    // min_step 0 with a gap below the percentage floor: the eased value
    // equals the current one, and no write is issued.
    let d = settings(
        vec![point(8 * HOUR, 30), point(18 * HOUR, 80)],
        TransitionCurve::Instant,
        10,
        0,
    );
    assert_eq!(d.tick(10 * HOUR, 31), TickAction::Hold);
}

#[test]
fn settings_reject_bad_percent() {
    let s = Schedule::new(vec![point(8 * HOUR, 30)]).unwrap();
    let e = DeviceSettings::new(s, TransitionCurve::Instant, 1000, EasingPolicy { percent: 0, min_step: 1 })
        .unwrap_err();
    assert_eq!(e, ConfigurationError::EasingPercentOutOfRange);
    let s = Schedule::new(vec![point(8 * HOUR, 30)]).unwrap();
    let e = DeviceSettings::new(s, TransitionCurve::Instant, 1000, EasingPolicy { percent: 101, min_step: 1 })
        .unwrap_err();
    assert_eq!(e, ConfigurationError::EasingPercentOutOfRange);
}

#[test]
fn settings_reject_single_point_linear() {
    let s = Schedule::new(vec![point(12 * HOUR, 50)]).unwrap();
    let e = DeviceSettings::new(s, TransitionCurve::Linear, 1000, EasingPolicy { percent: 100, min_step: 1 })
        .unwrap_err();
    assert_eq!(e, ConfigurationError::Schedule(ScheduleInvariantError::ZeroDurationLinear));
    // An Instant override on the only point makes the same device valid.
    let s = Schedule::new(vec![ControlPoint {
        time: 12 * HOUR,
        bright: 50,
        transition: Some(TransitionCurve::Instant),
    }])
    .unwrap();
    let d = DeviceSettings::new(s, TransitionCurve::Linear, 1000, EasingPolicy { percent: 100, min_step: 1 });
    assert!(d.is_ok());
}

#[test]
fn clock_reads_a_time_of_day() {
    let t = now_time_of_day();
    assert!(t < DAY_MS);
}
