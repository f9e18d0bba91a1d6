use lib::tap_and_drag::{
    DragStartBehavior, TapPointer, TapPointerChange, TapSequenceShift, TapStatusTracker, TapTimer,
    TapTrackHook, DOUBLE_TAP_TIMEOUT_MICROS,
};

const PRIMARY: i32 = 1;
const SECONDARY: i32 = 2;

fn pointer(change: TapPointerChange, micros: i64, near: bool) -> TapPointer {
    TapPointer {
        change,
        buttons: PRIMARY,
        time_stamp_micros: micros,
        near_last_tap: near,
        past_hit_slop: false,
    }
}

/// One whole tap at the same place as the last: down, then up 120ms later.
fn one_tap(tracker: &mut TapStatusTracker, at: i64) -> Vec<TapTrackHook> {
    let hooks = tracker.add_pointer(&pointer(TapPointerChange::Down, at, true));
    tracker.handle_event(&pointer(TapPointerChange::Up, at + 120_000, true));
    hooks
}

#[test]
fn the_answer_is_taken_at_the_start_and_held() {
    let mut shift = TapSequenceShift::new();
    shift.sample(false);
    assert!(!shift.is_pressed());
    assert!(!shift.is_pressed(), "still what it was at the start");
}

#[test]
fn and_letting_go_of_shift_mid_gesture_keeps_extending() {
    let mut shift = TapSequenceShift::new();
    shift.sample(true);
    assert!(shift.is_pressed());
    assert!(shift.is_pressed());
}

#[test]
fn the_sequence_ending_clears_it_rather_than_re_reading() {
    let mut shift = TapSequenceShift::new();
    shift.sample(true);
    shift.reset();
    assert!(!shift.is_pressed());
}

#[test]
fn and_a_fresh_sequence_takes_a_fresh_reading() {
    let mut shift = TapSequenceShift::new();
    shift.sample(true);
    shift.reset();
    shift.sample(false);
    assert!(!shift.is_pressed());
    shift.reset();
    shift.sample(true);
    assert!(shift.is_pressed(), "the sample is not sticky either way");
}

#[test]
fn a_fresh_sequence_has_nothing_sampled() {
    assert!(!TapSequenceShift::new().is_pressed());
    assert_eq!(TapSequenceShift::default(), TapSequenceShift::new());
}

#[test]
fn a_drag_says_by_default_that_it_started_where_it_won() {
    assert_eq!(DragStartBehavior::default(), DragStartBehavior::Start);
}

#[test]
fn the_tracker_fires_both_hooks_this_hangs_from() {
    let mut started = 0u32;
    let mut was_reset = 0u32;
    let mut tracker = TapStatusTracker::new();
    for hook in tracker.reset() {
        match hook {
            TapTrackHook::Start => started += 1,
            TapTrackHook::Reset => was_reset += 1,
        }
    }
    assert_eq!(was_reset, 1, "reset fires the reset hook");
    assert_eq!(started, 0, "and not the start hook");
}

#[test]
fn three_taps_in_a_row_are_counted() {
    let mut tracker = TapStatusTracker::new();
    let mut counts = Vec::new();
    for at in [0, 200_000, 400_000] {
        let hooks = one_tap(&mut tracker, at);
        assert_eq!(hooks, vec![TapTrackHook::Start]);
        counts.push(tracker.consecutive_tap_count());
    }
    assert_eq!(counts, vec![1, 2, 3]);
}

#[test]
fn a_gap_too_long_starts_the_tracked_count_over() {
    let mut tracker = TapStatusTracker::new();
    one_tap(&mut tracker, 0);
    assert_eq!(tracker.consecutive_tap_count(), 1);
    assert!(tracker.tick(120_000 + DOUBLE_TAP_TIMEOUT_MICROS - 1));
    assert!(!tracker.tick(120_000 + DOUBLE_TAP_TIMEOUT_MICROS));
    assert_eq!(tracker.timer(), TapTimer::Expired);
    assert_eq!(tracker.consecutive_tap_count(), 1, "the timer expiring resets nothing by itself");
    let hooks = one_tap(&mut tracker, 1_000_000);
    assert_eq!(hooks, vec![TapTrackHook::Reset, TapTrackHook::Start]);
    assert_eq!(tracker.consecutive_tap_count(), 1, "a new series");
}

#[test]
fn a_tap_elsewhere_or_with_another_button_starts_the_tracked_count_over() {
    let mut tracker = TapStatusTracker::new();
    one_tap(&mut tracker, 0);
    tracker.add_pointer(&pointer(TapPointerChange::Down, 200_000, false));
    assert_eq!(tracker.consecutive_tap_count(), 1, "too far away");

    let mut tracker = TapStatusTracker::new();
    one_tap(&mut tracker, 0);
    let other = TapPointer { buttons: SECONDARY, ..pointer(TapPointerChange::Down, 200_000, true) };
    tracker.add_pointer(&other);
    assert_eq!(tracker.consecutive_tap_count(), 1, "another button");
    assert_eq!(tracker.current_down(), Some(&other));
    assert_eq!(tracker.current_up(), None);
}

#[test]
fn the_cap_starts_a_new_tracked_series() {
    let mut tracker = TapStatusTracker::new();
    tracker.max_consecutive_tap = Some(3);
    let mut counts = Vec::new();
    let mut resets = 0;
    for at in [0, 200_000, 400_000, 600_000] {
        resets += one_tap(&mut tracker, at)
            .iter()
            .filter(|hook| **hook == TapTrackHook::Reset)
            .count();
        counts.push(tracker.consecutive_tap_count());
    }
    assert_eq!(counts, vec![1, 2, 3, 1]);
    assert_eq!(resets, 1);
}

#[test]
fn a_drag_breaks_the_tracked_run() {
    let mut tracker = TapStatusTracker::new();
    one_tap(&mut tracker, 0);
    tracker.add_pointer(&pointer(TapPointerChange::Down, 200_000, true));
    assert_eq!(tracker.consecutive_tap_count(), 2);
    let drag = TapPointer { past_hit_slop: true, ..pointer(TapPointerChange::Move, 320_000, false) };
    tracker.handle_event(&drag);
    assert_eq!(tracker.consecutive_tap_count(), 2, "the count itself is left alone");
    tracker.handle_event(&pointer(TapPointerChange::Up, 340_000, false));
    one_tap(&mut tracker, 400_000);
    assert_eq!(tracker.consecutive_tap_count(), 1);
}

#[test]
fn a_cancel_abandons_the_series() {
    let mut tracker = TapStatusTracker::new();
    one_tap(&mut tracker, 0);
    let hooks = tracker.handle_event(&pointer(TapPointerChange::Cancel, 150_000, true));
    assert_eq!(hooks, vec![TapTrackHook::Reset]);
    assert_eq!(tracker.consecutive_tap_count(), 0);
    assert_eq!(tracker.current_down(), None);
    assert_eq!(tracker.timer(), TapTimer::Stopped);
}

#[test]
fn a_lift_starts_the_timer_from_its_own_time_stamp() {
    let mut tracker = TapStatusTracker::new();
    tracker.add_pointer(&pointer(TapPointerChange::Down, 0, true));
    assert_eq!(tracker.timer(), TapTimer::Stopped);
    tracker.handle_event(&pointer(TapPointerChange::Up, 50_000, true));
    assert_eq!(tracker.timer(), TapTimer::Running(50_000 + DOUBLE_TAP_TIMEOUT_MICROS));
}
