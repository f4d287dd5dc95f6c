//! Scenario tests for the debug overlay: timer cadence, label color
//! thresholds, and the printed digits.

use shipsim::overlay::{
    fps_color, fps_label_parts, text_update_system, DebugUpdateTimer, FpsColor,
    DEBUG_UPDATE_INTERVAL,
};

#[test]
fn fps_color_thresholds() {
    assert_eq!(fps_color(0), FpsColor::Red);
    assert_eq!(fps_color(29_999_999), FpsColor::Red);
    assert_eq!(fps_color(30_000_000), FpsColor::Amber);
    assert_eq!(fps_color(45_000_000), FpsColor::Amber);
    assert_eq!(fps_color(59_999_999), FpsColor::Amber);
    assert_eq!(fps_color(60_000_000), FpsColor::Green);
    assert_eq!(fps_color(120_000_000), FpsColor::Green);
}

#[test]
fn fps_label_digits() {
    assert_eq!(fps_label_parts(59_940_000), (59, 94));
    assert_eq!(fps_label_parts(60_000_000), (60, 0));
    assert_eq!(fps_label_parts(59_999_999), (59, 99));
    assert_eq!(fps_label_parts(0), (0, 0));
}

#[test]
fn timer_expires_on_the_half_second() {
    let mut timer = DebugUpdateTimer::new(DEBUG_UPDATE_INTERVAL);
    for _ in 0..29 {
        assert!(!timer.tick(16_667));
    }
    // The thirtieth 60 fps frame crosses 500_000 microseconds.
    assert!(timer.tick(16_667));
    assert_eq!(timer.elapsed, 10);
    assert_eq!(timer.interval, DEBUG_UPDATE_INTERVAL);
}

#[test]
fn timer_wraps_a_long_frame() {
    let mut timer = DebugUpdateTimer::new(DEBUG_UPDATE_INTERVAL);
    assert!(timer.tick(1_200_000));
    assert_eq!(timer.elapsed, 200_000);
}

#[test]
fn overlay_refresh_grades_the_average_on_expiry() {
    let mut timer = DebugUpdateTimer::new(DEBUG_UPDATE_INTERVAL);
    assert_eq!(
        text_update_system(&mut timer, 600_000, Some(45_000_000)),
        Some(FpsColor::Amber)
    );
    assert_eq!(timer.elapsed, 100_000);
    // Between expiries nothing is refreshed.
    assert_eq!(text_update_system(&mut timer, 16_667, Some(45_000_000)), None);
    // On expiry without a sample nothing is refreshed either.
    let mut timer = DebugUpdateTimer::new(DEBUG_UPDATE_INTERVAL);
    assert_eq!(text_update_system(&mut timer, 600_000, None), None);
}
