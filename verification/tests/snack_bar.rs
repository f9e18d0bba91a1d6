use lib::color::Color;
use lib::snack_bar::{
    snack_bar_height_curve, HeightCurve, SnackBarAction, SnackBarClosedReason, SNACK_BAR_DISPLAY_DURATION_MICROS,
    SNACK_BAR_TRANSITION_DURATION_MICROS,
};
use std::cell::Cell;
use std::rc::Rc;

#[test]
fn the_action_fires_once_and_then_never_again() {
    let undone = Rc::new(Cell::new(0usize));
    let counter = undone.clone();
    let mut action = SnackBarAction::new("Undo", move || counter.set(counter.get() + 1));

    assert!(!action.has_triggered());
    assert_eq!(action.press(), Some(SnackBarClosedReason::Action));
    assert_eq!(undone.get(), 1);
    assert!(action.has_triggered());

    assert_eq!(action.press(), None, "the second press does nothing");
    assert_eq!(undone.get(), 1);
}

#[test]
fn the_guard_is_set_before_the_callback_runs() {
    let seen = Rc::new(Cell::new(false));
    let witness = seen.clone();
    let mut action = SnackBarAction::new("Undo", move || witness.set(true));
    action.press();
    assert!(seen.get(), "the callback did run");
    assert!(action.has_triggered());
}

#[test]
fn pressing_the_action_is_what_closes_the_bar_and_says_why() {
    let mut action = SnackBarAction::new("Undo", || {});
    assert_eq!(action.press(), Some(SnackBarClosedReason::Action));
    assert_ne!(SnackBarClosedReason::Action, SnackBarClosedReason::Timeout, "and those are different answers");
}

#[test]
fn a_state_coloured_background_already_answers_for_the_disabled_state() {
    let plain = SnackBarAction::new("Undo", || {});
    assert_eq!(plain.validate(true), None);

    let both = SnackBarAction::new("Undo", || {}).with_disabled_background_color(Color(0xFF00_0000));
    assert!(both.validate(true).is_some());
    assert_eq!(both.validate(false), None, "and it is fine beside a plain colour");
}

#[test]
fn the_durations_are_four_seconds_and_a_quarter_of_one() {
    assert_eq!(SNACK_BAR_DISPLAY_DURATION_MICROS, 4_000_000);
    assert_eq!(SNACK_BAR_TRANSITION_DURATION_MICROS, 250_000);
}

#[test]
fn the_colours_an_action_was_given_are_the_ones_it_keeps() {
    let action = SnackBarAction::new("Undo", || {})
        .with_text_color(Color(0xFF11_2233))
        .with_background_color(Color(0x8044_5566));
    assert_eq!(action.text_color, Some(Color(0xFF11_2233)));
    assert_eq!(action.background_color, Some(Color(0x8044_5566)));
    assert_eq!(action.disabled_text_color, None);
    assert_eq!(action.label, "Undo");
    assert_eq!(Color(0x8044_5566).alpha(), 0x80);
}

#[test]
fn each_colour_lands_in_its_own_field() {
    let action = SnackBarAction::new("Undo", || {})
        .with_text_color(Color(0xff00_00ff))
        .with_disabled_text_color(Color(0xff00_ff00));
    assert_eq!(action.text_color, Some(Color(0xff00_00ff)));
    assert_eq!(action.disabled_text_color, Some(Color(0xff00_ff00)));
    assert_eq!(action.background_color, None);
}

#[test]
fn material_three_changed_the_height_curve_and_only_that() {
    assert_eq!(snack_bar_height_curve(false), HeightCurve::FastOutSlowIn);
    assert_eq!(snack_bar_height_curve(true), HeightCurve::EaseInOutQuart);
    assert_ne!(snack_bar_height_curve(true), snack_bar_height_curve(false));
}
