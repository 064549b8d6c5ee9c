//! Tests for the event window, the shake classifier, and the cursor-size
//! state machine.

use shake_cursor::backend::{fp1616_to_pixel, MotionEvent};
use shake_cursor::config::Config;
use shake_cursor::detector::{CursorState, ShakeDetector};

/// Helper: create a MotionEvent with the given values.
fn event(x: i16, y: i16, timestamp: u32) -> MotionEvent {
    MotionEvent { x, y, timestamp }
}

// ── record_motion (ring buffer eviction) ──────────────────────

#[test]
fn record_motion_keeps_events_within_time_window() {
    let config = Config { time_window_ms: 100, ..Config::default() };
    let mut det = ShakeDetector::new(config);

    det.record_motion(event(0, 0, 0));
    det.record_motion(event(1, 0, 50));
    det.record_motion(event(2, 0, 100));

    // All 3 events are within the 100ms window ending at t=100
    assert_eq!(det.events.len(), 3);
}

#[test]
fn record_motion_evicts_stale_events() {
    let config = Config { time_window_ms: 100, ..Config::default() };
    let mut det = ShakeDetector::new(config);

    det.record_motion(event(0, 0, 0));
    det.record_motion(event(1, 0, 50));
    // t=200: cutoff is 200 - 100 = 100, so t=0 and t=50 are evicted
    det.record_motion(event(2, 0, 200));

    assert_eq!(det.events.len(), 1);
    assert_eq!(det.events[0].timestamp, 200);
}

#[test]
fn record_motion_handles_empty_buffer() {
    let mut det = ShakeDetector::new(Config::default());
    det.record_motion(event(100, 200, 1000));

    assert_eq!(det.events.len(), 1);
    assert_eq!(det.events[0].x, 100);
}

#[test]
fn record_motion_retains_only_samples_at_or_past_cutoff() {
    let config = Config { time_window_ms: 150, ..Config::default() };
    let mut det = ShakeDetector::new(config);

    for t in [0u32, 40, 80, 120, 160, 200] {
        det.record_motion(event(0, 0, t));
    }

    // cutoff = 200 - 150 = 50: t=0 and t=40 are gone, the rest retained
    assert_eq!(det.events.len(), 4);
    for i in 0..det.events.len() {
        assert!(det.events[i].timestamp >= 50);
    }
}

#[test]
fn record_motion_small_timestamp_evicts_nothing() {
    // newest.timestamp < time_window_ms: the cutoff clamps to 0
    let config = Config { time_window_ms: 500, ..Config::default() };
    let mut det = ShakeDetector::new(config);

    det.record_motion(event(0, 0, 10));
    det.record_motion(event(1, 0, 20));
    det.record_motion(event(2, 0, 30));

    assert_eq!(det.events.len(), 3);
}

// ── is_shaking (detection algorithm) ──────────────────────────

#[test]
fn is_shaking_false_with_fewer_than_3_events() {
    let mut det = ShakeDetector::new(Config::default());

    assert!(!det.is_shaking()); // 0 events

    det.record_motion(event(0, 0, 0));
    assert!(!det.is_shaking()); // 1 event

    det.record_motion(event(10, 0, 10));
    assert!(!det.is_shaking()); // 2 events
}

#[test]
fn is_shaking_false_for_slow_straight_movement() {
    // Slow movement in one direction: reversals=0, low velocity
    let mut det = ShakeDetector::new(Config::default());

    for i in 0..10 {
        det.record_motion(event(i * 5, 0, i as u32 * 50));
    }

    assert!(!det.is_shaking());
}

#[test]
fn is_shaking_false_for_fast_straight_line() {
    // Fast movement but NO reversals — not a shake
    let mut det = ShakeDetector::new(Config::default());

    det.record_motion(event(0, 0, 0));
    det.record_motion(event(200, 0, 50));
    det.record_motion(event(400, 0, 100));
    det.record_motion(event(600, 0, 150));
    det.record_motion(event(800, 0, 200));

    // velocity is very high but 0 reversals
    assert!(!det.is_shaking());
}

#[test]
fn is_shaking_true_for_horizontal_shake() {
    // Rapid back-and-forth on X axis: 4 reversals, high velocity
    // Each segment is 100px in 50ms = 2000 px/s
    let mut det = ShakeDetector::new(Config::default());

    det.record_motion(event(500, 300, 0));
    det.record_motion(event(600, 300, 50)); // dx=+100
    det.record_motion(event(500, 300, 100)); // dx=-100 (reversal 1)
    det.record_motion(event(600, 300, 150)); // dx=+100 (reversal 2)
    det.record_motion(event(500, 300, 200)); // dx=-100 (reversal 3)
    det.record_motion(event(600, 300, 250)); // dx=+100 (reversal 4)

    assert!(det.is_shaking());
}

#[test]
fn is_shaking_true_for_vertical_shake() {
    // Rapid back-and-forth on Y axis
    let mut det = ShakeDetector::new(Config::default());

    det.record_motion(event(300, 500, 0));
    det.record_motion(event(300, 600, 50));
    det.record_motion(event(300, 500, 100));
    det.record_motion(event(300, 600, 150));
    det.record_motion(event(300, 500, 200));
    det.record_motion(event(300, 600, 250));

    assert!(det.is_shaking());
}

#[test]
fn is_shaking_false_when_reversals_below_threshold() {
    // Only 2 reversals (threshold is 3)
    let mut det = ShakeDetector::new(Config::default());

    det.record_motion(event(500, 300, 0));
    det.record_motion(event(600, 300, 50)); // dx=+100
    det.record_motion(event(500, 300, 100)); // reversal 1
    det.record_motion(event(600, 300, 150)); // reversal 2

    assert!(!det.is_shaking());
}

#[test]
fn is_shaking_false_when_velocity_below_threshold() {
    // Enough reversals but too slow (small movements)
    let config = Config { min_velocity: 500, ..Config::default() };
    let mut det = ShakeDetector::new(config);

    // 2px movements over 50ms = 40 px/s (way below 500)
    det.record_motion(event(100, 300, 0));
    det.record_motion(event(102, 300, 50));
    det.record_motion(event(100, 300, 100));
    det.record_motion(event(102, 300, 150));
    det.record_motion(event(100, 300, 200));
    det.record_motion(event(102, 300, 250));

    assert!(!det.is_shaking());
}

#[test]
fn is_shaking_false_when_all_timestamps_equal() {
    // All events at same timestamp → time_span=0 → guard returns false
    let mut det = ShakeDetector::new(Config::default());

    det.record_motion(event(0, 0, 100));
    det.record_motion(event(100, 0, 100));
    det.record_motion(event(0, 0, 100));
    det.record_motion(event(100, 0, 100));

    assert!(!det.is_shaking());
}

#[test]
fn is_shaking_true_at_exact_velocity_threshold() {
    // 4 segments of 125px over 1000ms = exactly 500 px/s, 3 reversals
    let config = Config {
        time_window_ms: 2000,
        min_reversals: 3,
        min_velocity: 500,
        ..Config::default()
    };
    let mut det = ShakeDetector::new(config);

    det.record_motion(event(0, 0, 0));
    det.record_motion(event(125, 0, 250));
    det.record_motion(event(0, 0, 500));
    det.record_motion(event(125, 0, 750));
    det.record_motion(event(0, 0, 1000));

    assert!(det.is_shaking());

    // One pixel per second below the threshold flips the verdict
    let config = Config { min_velocity: 501, ..config };
    let mut det = ShakeDetector::new(config);
    det.record_motion(event(0, 0, 0));
    det.record_motion(event(125, 0, 250));
    det.record_motion(event(0, 0, 500));
    det.record_motion(event(125, 0, 750));
    det.record_motion(event(0, 0, 1000));

    assert!(!det.is_shaking());
}

#[test]
fn is_shaking_ignores_zero_deltas_for_sign_history() {
    // A pause (zero delta) neither counts as a reversal nor resets the
    // sign history: +100, 0, -100 is one reversal.
    let config = Config { min_reversals: 1, time_window_ms: 2000, ..Config::default() };
    let mut det = ShakeDetector::new(config);

    det.record_motion(event(0, 0, 0));
    det.record_motion(event(100, 0, 50)); // dx=+100
    det.record_motion(event(100, 0, 100)); // dx=0 (keeps history)
    det.record_motion(event(0, 0, 150)); // dx=-100 (reversal 1)

    assert!(det.is_shaking());
}

// ── cursor state machine ──────────────────────────────────────

#[test]
fn cursor_state_cycle_enlarges_then_restores() {
    let config = Config::default(); // cooldown_ms = 2000
    let mut det = ShakeDetector::new(config);

    // Idle + shake: enlarge once
    assert_eq!(det.advance_state(true, 1000), Some(96));
    assert_eq!(det.state, CursorState::Enlarged { since: 1000 });

    // quiet sample before the cooldown: nothing changes
    assert_eq!(det.advance_state(false, 2000), None);
    assert_eq!(det.state, CursorState::Enlarged { since: 1000 });

    // still shaking: the cooldown timer restarts
    assert_eq!(det.advance_state(true, 2500), None);
    assert_eq!(det.state, CursorState::Enlarged { since: 2500 });

    // quiet sample at the cooldown: move to Restoring, no request yet
    assert_eq!(det.advance_state(false, 4500), None);
    assert_eq!(det.state, CursorState::Restoring);

    // next sample: restore once and return to Idle
    assert_eq!(det.advance_state(false, 4600), Some(24));
    assert_eq!(det.state, CursorState::Idle);
}

#[test]
fn cursor_state_restores_before_reenlarging() {
    // A shake verdict while Restoring still restores first; the shake can
    // only re-enlarge on the following sample.
    let mut det = ShakeDetector::new(Config::default());

    assert_eq!(det.advance_state(true, 0), Some(96));
    assert_eq!(det.advance_state(false, 3000), None); // cooldown expired
    assert_eq!(det.state, CursorState::Restoring);

    assert_eq!(det.advance_state(true, 3100), Some(24)); // restore fires first
    assert_eq!(det.state, CursorState::Idle);

    assert_eq!(det.advance_state(true, 3200), Some(96)); // then re-enlarge
    assert_eq!(det.state, CursorState::Enlarged { since: 3200 });
}

#[test]
fn cursor_state_idle_stays_idle_without_shake() {
    let mut det = ShakeDetector::new(Config::default());
    assert_eq!(det.advance_state(false, 10), None);
    assert_eq!(det.state, CursorState::Idle);
}

#[test]
fn cursor_state_timestamp_reset_reads_as_no_elapsed_time() {
    // since=5000 but the next timestamp is smaller (upstream counter
    // reset): the saturating difference is 0, so the state is kept.
    let mut det = ShakeDetector::new(Config::default());
    assert_eq!(det.advance_state(true, 5000), Some(96));
    assert_eq!(det.advance_state(false, 10), None);
    assert_eq!(det.state, CursorState::Enlarged { since: 5000 });
}

// ── host-loop composition ─────────────────────────────────────

#[test]
fn handle_motion_enlarges_on_first_shaking_sample() {
    let mut det = ShakeDetector::new(Config::default());

    // Alternating 100px horizontal motion at 50ms steps. The verdict
    // first turns true on the 5th sample (3 reversals, 2000 px/s).
    assert_eq!(det.handle_motion(event(500, 300, 0)), None);
    assert_eq!(det.handle_motion(event(600, 300, 50)), None);
    assert_eq!(det.handle_motion(event(500, 300, 100)), None);
    assert_eq!(det.handle_motion(event(600, 300, 150)), None);
    assert_eq!(det.handle_motion(event(500, 300, 200)), Some(96));
    assert_eq!(det.state, CursorState::Enlarged { since: 200 });

    // Still shaking: no second request
    assert_eq!(det.handle_motion(event(600, 300, 250)), None);
    assert_eq!(det.state, CursorState::Enlarged { since: 250 });
}

// ── fixed-point coordinate conversion ─────────────────────────

#[test]
fn fp1616_to_pixel_takes_the_whole_part() {
    assert_eq!(fp1616_to_pixel(0), 0);
    assert_eq!(fp1616_to_pixel(5 * 65536 + 123), 5);
    assert_eq!(fp1616_to_pixel(65536), 1);
    assert_eq!(fp1616_to_pixel(i32::MAX), 32767);
}

#[test]
fn fp1616_to_pixel_rounds_negatives_toward_negative_infinity() {
    assert_eq!(fp1616_to_pixel(-1), -1);
    assert_eq!(fp1616_to_pixel(-65536), -1);
    assert_eq!(fp1616_to_pixel(-65537), -2);
    assert_eq!(fp1616_to_pixel(i32::MIN), -32768);
}
