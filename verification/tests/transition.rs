use bright::ControlPoint;
use bright::TransitionCurve;

const HOUR: u32 = 3_600_000;

fn point(time: u32, bright: u32) -> ControlPoint {
    ControlPoint { time, bright, transition: None }
}

#[test]
fn linear_boundary_exactness() {
    let from = point(8 * HOUR, 30);
    let to = point(18 * HOUR, 80);
    let c = TransitionCurve::Linear;
    assert_eq!(c.evaluate(&from, &to, 8 * HOUR), 30);
    assert_eq!(c.evaluate(&from, &to, 18 * HOUR), 80);
}

#[test]
fn linear_boundary_exactness_downward() {
    let from = point(18 * HOUR, 80);
    let to = point(22 * HOUR, 20);
    let c = TransitionCurve::Linear;
    assert_eq!(c.evaluate(&from, &to, 18 * HOUR), 80);
    assert_eq!(c.evaluate(&from, &to, 22 * HOUR), 20);
}

#[test]
fn linear_midpoint_proportion() {
    // elapsed 5h of a 10h segment from 30 to 80: 30 + 50 * 5 / 10 = 55.
    let from = point(8 * HOUR, 30);
    let to = point(18 * HOUR, 80);
    assert_eq!(TransitionCurve::Linear.evaluate(&from, &to, 13 * HOUR), 55);
}

#[test]
fn linear_across_midnight() {
    // 23:00 -> 10 toward 06:00 -> 40 is a 7-hour segment; at 02:30 the
    // elapsed share is 3.5h / 7h, so the value is 10 + 30 * 1 / 2 = 25.
    let from = point(23 * HOUR, 10);
    let to = point(6 * HOUR, 40);
    let half = 2 * HOUR + HOUR / 2;
    assert_eq!(TransitionCurve::Linear.evaluate(&from, &to, half), 25);
}

#[test]
fn linear_truncates() {
    // 0 -> 10 over 3 hours: after one hour, 10 * 1 / 3 truncates to 3.
    let from = point(0, 0);
    let to = point(3 * HOUR, 10);
    assert_eq!(TransitionCurve::Linear.evaluate(&from, &to, HOUR), 3);
}

#[test]
fn instant_holds_from_value() {
    let from = point(8 * HOUR, 30);
    let to = point(18 * HOUR, 80);
    let c = TransitionCurve::Instant;
    assert_eq!(c.evaluate(&from, &to, 8 * HOUR), 30);
    assert_eq!(c.evaluate(&from, &to, 13 * HOUR), 30);
    assert_eq!(c.evaluate(&from, &to, 18 * HOUR - 1), 30);
}
