use bright::easing;
use bright::EasingPolicy;

#[test]
fn test_easing() {
    // A percent too small to move a gap of one applies min_step, which
    // would pass the target; the step is clamped to the target.
    let r = easing(21, 20, 10, 2);
    assert_eq!(r, 20);
}

#[test]
fn easing_percent_step() {
    // gap 30, ten percent: a raw step of 3.
    let r = easing(50, 80, 10, 2);
    assert_eq!(r, 53);
}

#[test]
fn easing_min_step_clamped_to_target() {
    // gap 2, ten percent truncates to 0; min_step 5 would overshoot,
    // so the result is the target itself.
    let r = easing(78, 80, 10, 5);
    assert_eq!(r, 80);
}

#[test]
fn easing_at_target_is_fixed_point() {
    assert_eq!(easing(80, 80, 10, 2), 80);
    assert_eq!(easing(0, 0, 100, 0), 0);
    assert_eq!(easing(-7, -7, 1, 1000), -7);
}

#[test]
fn easing_policy_step_matches_free_function() {
    let p = EasingPolicy { percent: 10, min_step: 2 };
    assert_eq!(p.step(50, 80), easing(50, 80, 10, 2));
    assert_eq!(p.step(80, 80), 80);
}

#[test]
fn easing_downward() {
    // gap 60 downward, ten percent: a raw step of 6.
    assert_eq!(easing(80, 20, 10, 2), 74);
}

#[test]
fn easing_min_step_within_gap() {
    // raw step 0, min_step 1 moves one toward the target exactly.
    assert_eq!(easing(10, 11, 10, 5), 11);
    assert_eq!(easing(10, 12, 10, 1), 11);
}

#[test]
fn easing_zero_min_step_small_gap_stalls() {
    // A gap too small for the percentage, with no movement floor:
    // the value stays put.
    assert_eq!(easing(10, 11, 10, 0), 10);
    assert_eq!(easing(11, 10, 10, 0), 11);
}

#[test]
fn easing_extreme_range_is_total() {
    // The whole i32 range in one full-percent step lands on the target.
    assert_eq!(easing(i32::MIN, i32::MAX, 100, 0), i32::MAX);
    assert_eq!(easing(i32::MAX, i32::MIN, 100, 0), i32::MIN);
    // Half of the largest gap, truncating.
    assert_eq!(easing(i32::MIN, i32::MAX, 50, 0), i32::MIN + ((u32::MAX as i64 * 50 / 100) as i32));
}
