use lib::snapshot_widget::{
    DefaultSnapshotPainter, PlatformViewOutcome, SnapshotController, SnapshotMode, SnapshotWidget,
};

#[test]
fn the_default_mode_throws_rather_than_silently_not_snapshotting() {
    assert_eq!(SnapshotMode::default(), SnapshotMode::Normal);
    assert_eq!(SnapshotMode::Normal.on_platform_view(), PlatformViewOutcome::Error);
}

#[test]
fn permissive_falls_back_to_the_live_child_and_keeps_the_effect() {
    assert_eq!(SnapshotMode::Permissive.on_platform_view(), PlatformViewOutcome::PaintChildLive);
}

#[test]
fn forced_snapshots_anyway_and_lets_the_platform_view_fall_out() {
    assert_eq!(SnapshotMode::Forced.on_platform_view(), PlatformViewOutcome::SnapshotWithoutIt);
}

#[test]
fn which_paint_method_a_frame_uses() {
    let widget = SnapshotWidget::new();
    let mut controller = SnapshotController::new(false);
    assert!(!widget.paints_from_snapshot(&controller, false), "snapshotting is off, so the live child");

    controller.set_allow_snapshotting(true);
    assert!(widget.paints_from_snapshot(&controller, false));

    assert!(
        widget.paints_from_snapshot(&controller, true),
        "the normal mode would rather throw than paint live"
    );
    assert!(
        !SnapshotWidget::new()
            .with_mode(SnapshotMode::Permissive)
            .paints_from_snapshot(&controller, true),
        "where permissive steps back to the live child"
    );
    assert!(SnapshotWidget::new().with_mode(SnapshotMode::Forced).paints_from_snapshot(&controller, true));
}

#[test]
fn snapshotting_is_off_until_it_is_asked_for() {
    assert!(!SnapshotController::new(false).allow_snapshotting());
}

#[test]
fn turning_snapshotting_on_twice_says_nothing_the_second_time() {
    let mut controller = SnapshotController::new(false);
    controller.set_allow_snapshotting(true);
    assert_eq!(controller.notifications(), 1);

    controller.set_allow_snapshotting(true);
    assert_eq!(controller.notifications(), 1);

    controller.set_allow_snapshotting(false);
    assert_eq!(controller.notifications(), 2);
}

#[test]
fn asking_for_a_fresh_snapshot_twice_produces_two_notifications() {
    let mut controller = SnapshotController::new(true);
    controller.clear();
    controller.clear();
    assert_eq!(controller.notifications(), 2);
}

#[test]
fn clear_still_notifies_while_snapshotting_is_off() {
    let mut controller = SnapshotController::new(false);
    controller.clear();
    assert_eq!(controller.notifications(), 1);
}

#[test]
fn a_painter_with_no_state_has_nothing_that_can_change() {
    assert!(!DefaultSnapshotPainter.should_repaint(&DefaultSnapshotPainter));
}

#[test]
fn a_resize_stretches_the_old_picture_unless_autoresize_was_asked_for() {
    assert!(!SnapshotWidget::new().resize_invalidates_snapshot());
    assert!(SnapshotWidget::new().with_autoresize(true).resize_invalidates_snapshot());
}
