use lib::small_widgets::filled_slots;
use lib::small_widgets::{
    ImageFiltered, KeyEventResult, KeyboardListener, SharedAppData, SpellCheckConfiguration,
};

#[test]
fn a_disabled_filter_skips_the_layer_where_a_no_op_filter_would_not() {
    assert!(ImageFiltered::new(1).creates_layer());
    assert!(!ImageFiltered::new(1).with_enabled(false).creates_layer());
}

#[test]
fn a_listener_with_no_callback_is_transparent_rather_than_a_hole() {
    let listener = KeyboardListener::new();
    assert_eq!(listener.handle(false, true), KeyEventResult::Ignored);
    assert_eq!(listener.handle(true, false), KeyEventResult::Ignored);
    assert_eq!(listener.handle(true, true), KeyEventResult::Handled);
}

#[test]
fn a_listener_does_not_grab_focus_but_does_appear_to_a_screen_reader() {
    let listener = KeyboardListener::new();
    assert!(!listener.autofocus);
    assert!(listener.include_semantics);
}

#[test]
fn skipping_the_remaining_handlers_is_not_the_same_as_claiming_the_key() {
    assert_ne!(KeyEventResult::SkipRemainingHandlers, KeyEventResult::Handled);
    assert_eq!(KeyEventResult::default(), KeyEventResult::Ignored);
}

#[test]
fn reading_a_key_creates_a_dependency_and_writing_one_does_not() {
    let mut data = SharedAppData::new();
    data.get_value("foo", || "one".to_string());
    assert!(data.rebuilds_for("foo"));

    data.set_value("bar", "two");
    assert!(!data.rebuilds_for("bar"), "writing created no dependency of its own");
}

#[test]
fn a_widget_reading_one_key_is_not_rebuilt_when_another_changes() {
    let mut data = SharedAppData::new();
    data.get_value("foo", || "one".to_string());
    assert!(!data.rebuilds_for("bar"));
}

#[test]
fn a_value_is_initialised_lazily_by_whoever_asks_first() {
    let mut data = SharedAppData::new();
    assert_eq!(data.peek("foo"), None);
    assert_eq!(data.get_value("foo", || "default".to_string()), "default");
    assert_eq!(data.get_value("foo", || panic!("init must not run twice")), "default");
}

#[test]
fn writing_the_same_value_rebuilds_nothing() {
    let mut data = SharedAppData::new();
    data.set_value("foo", "one");
    assert_eq!(data.rebuilds(), 1);

    data.set_value("foo", "one");
    assert_eq!(data.rebuilds(), 1);

    data.set_value("foo", "two");
    assert_eq!(data.rebuilds(), 2);
}

#[test]
fn a_disabled_configuration_cannot_be_copied_into_an_enabled_one() {
    let off = SpellCheckConfiguration::disabled();
    let attempted = off.copy_with(Some(true), Some(true), Some(true));

    assert!(!attempted.spell_check_enabled());
    assert!(!attempted.has_service, "every field was discarded");
    assert!(!attempted.has_misspelled_style);
    assert!(!attempted.has_toolbar_builder);
}

#[test]
fn an_enabled_configuration_copies_normally() {
    let on = SpellCheckConfiguration::new();
    let copied = on.copy_with(Some(true), None, None);
    assert!(copied.spell_check_enabled());
    assert!(copied.has_service);
    assert!(!copied.has_misspelled_style, "left as it was");
}

#[test]
fn disabled_is_a_kind_of_configuration_rather_than_a_field() {
    assert!(SpellCheckConfiguration::new().spell_check_enabled());
    assert!(!SpellCheckConfiguration::disabled().spell_check_enabled());
}

#[test]
fn a_value_written_is_what_peek_reads_back() {
    let mut data = SharedAppData::new();
    data.set_value("foo", "one");
    data.set_value("bar", "two");
    data.set_value("foo", "three");
    assert_eq!(data.peek("foo"), Some("three"));
    assert_eq!(data.peek("bar"), Some("two"));
    assert_eq!(data.rebuilds(), 3);
    assert!(data.dependencies().is_empty());
}

#[test]
fn an_empty_toolbar_slot_contributes_nothing() {
    assert_eq!(filled_slots(false, false, false), 0);
    assert_eq!(filled_slots(true, false, true), 2);
    assert_eq!(filled_slots(true, true, true), 3);
}
