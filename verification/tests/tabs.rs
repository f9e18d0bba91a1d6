use lib::tabs::validate_tab_content;
use lib::tabs::{ChangeOutcome, DefaultTabController, TabBarScrollController, TabController};

fn controller(length: usize) -> TabController {
    TabController::new(length, 0).unwrap()
}

#[test]
fn an_unattached_scroll_controller_has_no_tab_bar_to_ask() {
    let mut scroll = TabBarScrollController::new();
    assert!(!scroll.debug_check_has_tab_bar_state());
    scroll.attached = true;
    assert!(scroll.debug_check_has_tab_bar_state());
}

#[test]
fn the_pixels_are_corrected_until_a_real_extent_arrives_and_then_once_more_when_asked() {
    let mut scroll = TabBarScrollController::new();
    assert!(scroll.apply_content_dimensions(false), "a zero extent is a transient");
    assert!(scroll.apply_content_dimensions(false));
    assert!(
        !scroll.apply_content_dimensions(true),
        "the correction owed at creation was paid by the transient frames"
    );
    scroll.mark_needs_pixels_correction();
    assert!(scroll.apply_content_dimensions(true));
}

#[test]
fn a_controller_with_no_tabs_refuses_an_index_its_own_assert_would_admit() {
    let mut empty = controller(0);
    assert_eq!(empty.change_index(47, false), ChangeOutcome::NothingToSwitchBetween);
    assert_eq!(empty.index(), 0, "and the index did not move");
}

#[test]
fn a_single_tab_has_nothing_to_switch_between_either() {
    let mut one = controller(1);
    assert_eq!(one.change_index(5, false), ChangeOutcome::NothingToSwitchBetween);
    let mut two = controller(2);
    assert_eq!(two.change_index(1, false), ChangeOutcome::Changed);
}

#[test]
fn the_doc_and_the_assert_disagree_about_a_zero_tab_controller() {
    assert!(TabController::new(0, 0).is_ok());
    let absurd = TabController::new(0, 47).expect("the range check is off with no tabs");
    assert_eq!(absurd.index(), 47, "and nothing ever corrects it");

    assert!(TabController::new(3, 2).is_ok());
    assert!(TabController::new(3, 3).is_err());
    assert_eq!(TabController::new(3, 3), Err("initialIndex must be valid given length"));
}

#[test]
fn nothing_repairs_that_index_it_is_only_prevented_from_moving() {
    let mut absurd = TabController::new(0, 47).unwrap();
    assert_eq!(absurd.change_index(0, false), ChangeOutcome::NothingToSwitchBetween);
    assert_eq!(absurd.index(), 47);
}

#[test]
fn a_second_tap_during_the_first_animation_keeps_the_flag_set() {
    let mut tabs = controller(5);
    tabs.animate_to(2);
    tabs.animate_to(3);
    assert!(tabs.index_is_changing());

    tabs.complete_animation();
    assert!(tabs.index_is_changing(), "one of the two is still in flight");

    tabs.complete_animation();
    assert!(!tabs.index_is_changing());
}

#[test]
fn an_unanimated_change_settles_at_once() {
    let mut tabs = controller(5);
    assert_eq!(tabs.change_index(3, false), ChangeOutcome::Changed);
    assert!(!tabs.index_is_changing());
    assert_eq!(tabs.index(), 3);
    assert_eq!(tabs.previous_index(), 0);
    assert_eq!(tabs.change_index(3, true), ChangeOutcome::AlreadySelected);
    assert!(!tabs.index_is_changing());
}

#[test]
fn a_completed_animation_on_a_disposed_controller_changes_nothing() {
    let mut tabs = controller(5);
    tabs.animate_to(2);
    tabs.dispose();
    assert!(!tabs.complete_animation(), "the value does not settle on a dead controller");
    assert!(tabs.index_is_changing());
    assert!(tabs.is_disposed());
}

#[test]
fn the_pages_cannot_be_dragged_while_a_tap_is_still_animating() {
    let mut tabs = controller(5);
    assert!(tabs.may_drag());
    tabs.animate_to(3);
    assert!(!tabs.may_drag());
    assert!(tabs.complete_animation());
    assert!(tabs.may_drag());
}

#[test]
fn a_shortened_list_pulls_the_selection_back_into_range() {
    let mut default = DefaultTabController::new(5, 4, 7).unwrap();
    default.update_length(2);
    assert_eq!(default.controller.index(), 1);
}

#[test]
fn a_changed_length_keeps_the_selection_and_the_running_animation() {
    let mut default = DefaultTabController::new(5, 3, 7).unwrap();
    default.controller.animate_to(1);
    default.update_length(6);
    assert_eq!(default.controller.length(), 6);
    assert_eq!(default.controller.index(), 1, "and stays where it was");
    assert!(default.controller.index_is_changing(), "the move in flight carries over");
    assert_eq!(default.child, 7);
    assert!(DefaultTabController::new(2, 2, 7).is_none());
}

#[test]
fn a_tab_needs_something_in_it_and_not_both_text_and_child() {
    assert_eq!(
        validate_tab_content(false, false, false),
        Err("Tab requires at least one of text, child, or icon to be non-null.")
    );
    assert_eq!(
        validate_tab_content(true, true, false),
        Err("Provide either text or child, not both, when creating a Tab.")
    );
    assert_eq!(validate_tab_content(true, false, true), Ok(()));
    assert_eq!(validate_tab_content(false, false, true), Ok(()));
}

#[test]
fn the_changes_in_flight_are_counted() {
    let mut tabs = controller(5);
    tabs.animate_to(2);
    tabs.animate_to(3);
    assert_eq!(tabs.changes_in_flight(), 2);
}
