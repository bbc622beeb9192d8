use loop_points::{DurationWindow, LengthClass};

fn window(min_loop_duration: usize, max_loop_duration: usize) -> DurationWindow {
    DurationWindow { min_loop_duration, max_loop_duration }
}

#[test]
fn classify_within_bounds_inclusive() {
    let w = window(2, 5);
    assert_eq!(w.classify(10, 12), LengthClass::Within);
    assert_eq!(w.classify(10, 15), LengthClass::Within);
    assert_eq!(w.classify(0, 3), LengthClass::Within);
}

#[test]
fn classify_too_short() {
    let w = window(2, 5);
    assert_eq!(w.classify(10, 11), LengthClass::TooShort);
    assert_eq!(w.classify(7, 7), LengthClass::TooShort);
}

#[test]
fn classify_too_long() {
    let w = window(2, 5);
    assert_eq!(w.classify(10, 16), LengthClass::TooLong);
}

#[test]
fn classify_start_after_end_is_too_long() {
    let w = window(2, usize::MAX);
    assert_eq!(w.classify(4, 3), LengthClass::TooLong);
    assert_eq!(window(0, 0).classify(1, 0), LengthClass::TooLong);
}

#[test]
fn classify_zero_length_with_zero_minimum() {
    assert_eq!(window(0, 3).classify(6, 6), LengthClass::Within);
}

#[test]
fn classify_extreme_frames() {
    let w = window(1, usize::MAX);
    assert_eq!(w.classify(0, usize::MAX), LengthClass::Within);
    assert_eq!(window(0, usize::MAX - 1).classify(0, usize::MAX), LengthClass::TooLong);
}
