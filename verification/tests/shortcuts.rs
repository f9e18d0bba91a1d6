use lib::intents::{AxisDirection, Intent, KeyResult, ScrollIncrementType, TargetPlatform, TraversalDirection};
use lib::keyboard::{KeyChange, KeyEvent, Keyboard, KeyboardLockMode, LogicalKey, PhysicalKey};
use lib::shortcuts::{
    default_apple_shortcuts_table, default_shortcuts, default_shortcuts_table,
    default_traversal_registry, default_web_shortcuts_table, CallbackShortcuts, LockState,
    LogicalKeySet, ShortcutActivator, ShortcutMapProperty, ShortcutRegistry,
};
use std::cell::Cell;
use std::collections::HashMap;
use std::rc::Rc;

type Table = ShortcutRegistry<fn()>;

fn shift() -> (PhysicalKey, LogicalKey) {
    (PhysicalKey(PhysicalKey::SHIFT_LEFT), LogicalKey(LogicalKey::SHIFT_LEFT))
}

fn control() -> (PhysicalKey, LogicalKey) {
    (PhysicalKey(PhysicalKey::CONTROL_LEFT), LogicalKey(LogicalKey::CONTROL_LEFT))
}

fn meta() -> (PhysicalKey, LogicalKey) {
    (PhysicalKey(PhysicalKey::META_LEFT), LogicalKey(LogicalKey::META_LEFT))
}

fn press(key: u64, held: &[(PhysicalKey, LogicalKey)]) -> (KeyEvent, Keyboard) {
    let mut keyboard = Keyboard::new();
    for (physical, logical) in held {
        let mut event = KeyEvent {
            change: KeyChange::Down,
            physical: *physical,
            logical: *logical,
            character: None,
            synthesized: false,
            time_stamp_micros: 0,
        };
        keyboard.record(&mut event);
    }
    let mut event = KeyEvent {
        change: KeyChange::Down,
        physical: PhysicalKey(key),
        logical: LogicalKey(key),
        character: None,
        synthesized: false,
        time_stamp_micros: 0,
    };
    keyboard.record(&mut event);
    (event, keyboard)
}

fn describe<C>(intent: Option<&Intent<C>>) -> String {
    let Some(intent) = intent else {
        return "nothing".to_string();
    };
    match intent {
        Intent::DirectionalFocus { direction } => format!("focus {direction:?}"),
        Intent::Scroll { direction, increment_type } => {
            format!("scroll {direction:?} by {increment_type:?}")
        }
        Intent::Prioritized { intents } => format!(
            "first of [{}]",
            intents
                .iter()
                .map(|intent| describe(Some(intent)))
                .collect::<Vec<_>>()
                .join(", ")
        ),
        other => other.action_name().to_string(),
    }
}

fn answer<C>(registry: &ShortcutRegistry<C>, key: u64, held: &[(PhysicalKey, LogicalKey)]) -> String {
    let (event, keyboard) = press(key, held);
    describe(registry.intent_for(&event, &keyboard))
}

#[test]
fn tab_moves_the_keyboard_rather_than_pressing_what_has_it() {
    let registry: Table = default_traversal_registry();
    assert_eq!(answer(&registry, LogicalKey::TAB, &[]), "NextFocus");
    assert_eq!(answer(&registry, LogicalKey::TAB, &[shift()]), "PreviousFocus");
}

#[test]
fn on_a_desktop_the_arrows_move_the_focus_and_control_scrolls() {
    let table: Table = default_shortcuts_table();
    assert_eq!(
        answer(&table, LogicalKey::ARROW_DOWN, &[]),
        format!("focus {:?}", TraversalDirection::Down)
    );
    assert_eq!(
        answer(&table, LogicalKey::ARROW_DOWN, &[control()]),
        format!("scroll {:?} by {:?}", AxisDirection::Down, ScrollIncrementType::Line),
        "the page is scrolled only when asked with a modifier"
    );
}

#[test]
fn on_the_web_the_bare_arrows_scroll_because_every_other_page_does() {
    let table: Table = default_web_shortcuts_table();
    assert_eq!(
        answer(&table, LogicalKey::ARROW_DOWN, &[]),
        format!("scroll {:?} by {:?}", AxisDirection::Down, ScrollIncrementType::Line)
    );
}

#[test]
fn on_the_web_space_means_two_things_in_order() {
    let table: Table = default_web_shortcuts_table();
    assert_eq!(
        answer(&table, LogicalKey::SPACE, &[]),
        format!(
            "first of [Activate, scroll {:?} by {:?}]",
            AxisDirection::Down,
            ScrollIncrementType::Page
        )
    );
    assert_eq!(
        answer(&table, LogicalKey::ENTER, &[]),
        "ButtonActivate",
        "and enter presses buttons only, not text fields"
    );
}

#[test]
fn apple_scrolls_with_meta_where_the_others_use_control() {
    let table: Table = default_apple_shortcuts_table();
    assert_eq!(
        answer(&table, LogicalKey::ARROW_UP, &[meta()]),
        format!("scroll {:?} by {:?}", AxisDirection::Up, ScrollIncrementType::Line)
    );
    assert_eq!(
        answer(&table, LogicalKey::ARROW_UP, &[control()]),
        "nothing",
        "control is not the modifier on a Mac"
    );
    assert_eq!(
        answer(&table, LogicalKey::ARROW_UP, &[]),
        format!("focus {:?}", TraversalDirection::Up),
        "and the bare arrow still moves the keyboard"
    );
}

#[test]
fn the_web_is_asked_before_the_platform() {
    let in_a_browser: Table = default_shortcuts(TargetPlatform::MacOS, true);
    assert_eq!(
        answer(&in_a_browser, LogicalKey::ARROW_DOWN, &[]),
        format!("scroll {:?} by {:?}", AxisDirection::Down, ScrollIncrementType::Line)
    );

    let on_the_mac: Table = default_shortcuts(TargetPlatform::MacOS, false);
    assert_eq!(
        answer(&on_the_mac, LogicalKey::ARROW_DOWN, &[]),
        format!("focus {:?}", TraversalDirection::Down)
    );
    assert_eq!(
        answer(&on_the_mac, LogicalKey::ARROW_DOWN, &[meta()]),
        format!("scroll {:?} by {:?}", AxisDirection::Down, ScrollIncrementType::Line)
    );
    assert_eq!(answer(&on_the_mac, LogicalKey::ARROW_DOWN, &[control()]), "nothing");

    let on_windows: Table = default_shortcuts(TargetPlatform::Windows, false);
    assert_eq!(
        answer(&on_windows, LogicalKey::ARROW_DOWN, &[control()]),
        format!("scroll {:?} by {:?}", AxisDirection::Down, ScrollIncrementType::Line)
    );
}

#[test]
fn the_numeric_keypads_enter_activates_too() {
    let tables: [Table; 2] = [default_shortcuts_table(), default_apple_shortcuts_table()];
    for table in tables {
        assert_eq!(answer(&table, LogicalKey::NUMPAD_ENTER, &[]), "Activate");
    }
    let web: Table = default_web_shortcuts_table();
    assert_eq!(
        answer(&web, LogicalKey::NUMPAD_ENTER, &[]),
        "ButtonActivate",
        "and on the web it presses buttons only, as the main Enter does"
    );
}

#[test]
fn every_table_dismisses_on_escape_and_pages_on_the_page_keys() {
    let tables: [Table; 3] = [
        default_shortcuts_table(),
        default_web_shortcuts_table(),
        default_apple_shortcuts_table(),
    ];
    for table in tables {
        assert_eq!(answer(&table, LogicalKey::ESCAPE, &[]), "Dismiss");
        assert_eq!(
            answer(&table, LogicalKey::PAGE_DOWN, &[]),
            format!("scroll {:?} by {:?}", AxisDirection::Down, ScrollIncrementType::Page)
        );
    }
}

fn event(key: u64, character: Option<&str>) -> KeyEvent {
    KeyEvent {
        change: KeyChange::Down,
        physical: PhysicalKey(0x04),
        logical: LogicalKey(key),
        character: character.map(std::string::ToString::to_string),
        synthesized: false,
        time_stamp_micros: 0,
    }
}

struct HeldKeys(Vec<u64>);

impl HeldKeys {
    fn keyboard(&self) -> Keyboard {
        let mut keyboard = Keyboard::new();
        for key in &self.0 {
            let mut event = KeyEvent {
                change: KeyChange::Down,
                physical: PhysicalKey(*key),
                logical: LogicalKey(*key),
                character: None,
                synthesized: false,
                time_stamp_micros: 0,
            };
            keyboard.record(&mut event);
        }
        keyboard
    }
}

#[test]
fn a_key_set_activator_wants_exactly_its_keys() {
    let activator = ShortcutActivator::KeySet(LogicalKeySet::single(LogicalKey::TAB));
    assert!(activator.accepts(
        &event(LogicalKey::TAB, None),
        &HeldKeys(vec![LogicalKey::TAB]).keyboard()
    ));
    assert!(!activator.accepts(
        &event(LogicalKey::TAB, None),
        &HeldKeys(vec![LogicalKey::TAB, LogicalKey::SHIFT_LEFT]).keyboard()
    ));
}

#[test]
fn a_single_activator_demands_its_modifiers() {
    let activator = ShortcutActivator::Single {
        key: LogicalKey::KEY_S,
        control: true,
        shift: false,
        alt: false,
        meta: false,
        num_lock: LockState::Ignored,
    };
    let ctrl_s = event(LogicalKey::KEY_S, None);
    assert!(activator.accepts(&ctrl_s, &HeldKeys(vec![0x700e0, LogicalKey::KEY_S]).keyboard()));
    assert!(!activator.accepts(&ctrl_s, &HeldKeys(vec![LogicalKey::KEY_S]).keyboard()));
}

#[test]
fn the_registry_serves_the_first_match() {
    let fired = Rc::new(Cell::new(""));
    let on_call = {
        let fired = Rc::clone(&fired);
        move || fired.set("escape")
    };
    let registry = ShortcutRegistry::new().with(
        ShortcutActivator::KeySet(LogicalKeySet::single(LogicalKey::ESCAPE)),
        Intent::VoidCallback { on_call },
    );
    let keyboard = HeldKeys(vec![LogicalKey::ESCAPE]).keyboard();
    let intent = registry
        .intent_for(&event(LogicalKey::ESCAPE, None), &keyboard)
        .expect("escape is registered");
    assert!(registry.intent_for(&event(LogicalKey::F5, None), &keyboard).is_none());
    if let Intent::VoidCallback { on_call } = intent {
        on_call();
        assert_eq!(fired.get(), "escape");
    }
}

#[test]
fn callback_shortcuts_handle_their_own() {
    let fired = Rc::new(Cell::new(false));
    let on_call = {
        let fired = Rc::clone(&fired);
        move || fired.set(true)
    };
    let shortcuts = CallbackShortcuts {
        registry: ShortcutRegistry::new().with(
            ShortcutActivator::Character { character: 's', control: true, single_modifier: true },
            Intent::VoidCallback { on_call },
        ),
        callbacks: HashMap::new(),
    };
    let keyboard = HeldKeys(vec![0x700e0]).keyboard();
    assert_eq!(
        shortcuts.handle(&event(LogicalKey::KEY_S, Some("s")), &keyboard),
        KeyResult::Handled
    );
    assert!(fired.get());
}

#[test]
fn a_shortcut_prints_as_a_reader_would_say_it() {
    let copy = ShortcutActivator::Single {
        key: LogicalKey::from_char('c').0,
        control: true,
        shift: false,
        alt: false,
        meta: false,
        num_lock: LockState::Ignored,
    };
    assert_eq!(copy.debug_describe_keys(), "Control + C");
}

#[test]
fn the_modifier_order_is_upstreams_and_not_alphabetical() {
    let all = ShortcutActivator::Single {
        key: LogicalKey::from_char('a').0,
        control: true,
        shift: true,
        alt: true,
        meta: true,
        num_lock: LockState::Ignored,
    };
    assert_eq!(all.debug_describe_keys(), "Control + Alt + Meta + Shift + A");
}

#[test]
fn a_character_activator_quotes_its_character() {
    let question =
        ShortcutActivator::Character { character: '?', control: false, single_modifier: false };
    assert_eq!(question.debug_describe_keys(), "'?'");
}

#[test]
fn a_key_set_puts_the_modifiers_first_so_two_spellings_print_alike() {
    let one = ShortcutActivator::KeySet(LogicalKeySet::new(&[
        LogicalKey::from_char('a').0,
        LogicalKey::CONTROL,
    ]));
    let other = ShortcutActivator::KeySet(LogicalKeySet::new(&[
        LogicalKey::CONTROL,
        LogicalKey::from_char('a').0,
    ]));
    assert_eq!(one.debug_describe_keys(), "Control + A");
    assert_eq!(one.debug_describe_keys(), other.debug_describe_keys());
}

#[test]
fn a_key_with_no_name_says_so_rather_than_inventing_one() {
    let unknown = ShortcutActivator::Single {
        key: 0x1234_5678,
        control: false,
        shift: false,
        alt: false,
        meta: false,
        num_lock: LockState::Ignored,
    };
    assert_eq!(unknown.debug_describe_keys(), "0x12345678");
}

#[test]
fn the_map_prints_with_the_doubled_braces() {
    let property = ShortcutMapProperty::new(
        "shortcuts",
        vec![
            (
                ShortcutActivator::Single {
                    key: LogicalKey::from_char('c').0,
                    control: true,
                    shift: false,
                    alt: false,
                    meta: false,
                    num_lock: LockState::Ignored,
                },
                "CopySelectionTextIntent",
            ),
            (
                ShortcutActivator::Single {
                    key: LogicalKey::ESCAPE,
                    control: false,
                    shift: false,
                    alt: false,
                    meta: false,
                    num_lock: LockState::Ignored,
                },
                "DismissIntent",
            ),
        ],
    );
    assert_eq!(
        property.value_to_string(),
        "{{Control + C}: CopySelectionTextIntent, {Escape}: DismissIntent}"
    );
    assert_eq!(property.property().name.as_deref(), Some("shortcuts"));
}

#[test]
fn an_empty_map_is_still_a_map() {
    assert_eq!(ShortcutMapProperty::new("shortcuts", Vec::new()).value_to_string(), "{}");
}

fn down(physical: u64, logical: u64) -> KeyEvent {
    KeyEvent {
        physical: PhysicalKey(physical),
        logical: LogicalKey(logical),
        change: KeyChange::Down,
        character: None,
        synthesized: false,
        time_stamp_micros: 0,
    }
}

fn after_num_lock(times: usize) -> Keyboard {
    let mut keyboard = Keyboard::new();
    for _ in 0..times {
        let mut press = down(PhysicalKey::NUM_LOCK, LogicalKey::NUM_LOCK);
        keyboard.record(&mut press);
        let mut release =
            KeyEvent { change: KeyChange::Up, ..down(PhysicalKey::NUM_LOCK, LogicalKey::NUM_LOCK) };
        keyboard.record(&mut release);
    }
    keyboard
}

#[test]
fn ignored_is_not_the_same_as_unlocked() {
    assert!(LockState::Ignored.matches(true));
    assert!(LockState::Ignored.matches(false));
    assert!(!LockState::Unlocked.matches(true));
    assert!(LockState::Unlocked.matches(false));
    assert!(LockState::Locked.matches(true));
    assert!(!LockState::Locked.matches(false));
    assert_ne!(LockState::Locked.matches(true), LockState::Unlocked.matches(true));
}

#[test]
fn a_lock_stays_on_with_nothing_held_down() {
    let keyboard = after_num_lock(1);
    assert!(keyboard.is_locked(KeyboardLockMode::NumLock));
    assert!(!keyboard.is_pressed(PhysicalKey(PhysicalKey::NUM_LOCK)), "and released");
}

#[test]
fn and_pressing_it_again_turns_it_off() {
    assert!(!after_num_lock(0).is_locked(KeyboardLockMode::NumLock));
    assert!(after_num_lock(1).is_locked(KeyboardLockMode::NumLock));
    assert!(!after_num_lock(2).is_locked(KeyboardLockMode::NumLock));
    assert!(after_num_lock(3).is_locked(KeyboardLockMode::NumLock));
}

#[test]
fn and_an_ordinary_key_toggles_nothing() {
    let mut keyboard = Keyboard::new();
    for _ in 0..3 {
        let mut press = down(PhysicalKey::KEY_A, LogicalKey::KEY_A);
        keyboard.record(&mut press);
    }
    assert!(!keyboard.is_locked(KeyboardLockMode::NumLock));
    assert!(!keyboard.is_locked(KeyboardLockMode::CapsLock));
    assert!(!keyboard.is_locked(KeyboardLockMode::ScrollLock));
}

#[test]
fn and_a_lock_key_release_toggles_nothing_either() {
    let mut keyboard = Keyboard::new();
    let mut release =
        KeyEvent { change: KeyChange::Up, ..down(PhysicalKey::NUM_LOCK, LogicalKey::NUM_LOCK) };
    keyboard.record(&mut release);
    assert!(!keyboard.is_locked(KeyboardLockMode::NumLock));
}

#[test]
fn and_the_other_locks_are_left_alone() {
    let keyboard = after_num_lock(1);
    assert!(!keyboard.is_locked(KeyboardLockMode::CapsLock));
    assert!(!keyboard.is_locked(KeyboardLockMode::ScrollLock));
}

#[test]
fn a_shortcut_can_demand_the_lock_be_off() {
    let activator = |num_lock| ShortcutActivator::Single {
        key: LogicalKey::KEY_A,
        control: false,
        shift: false,
        alt: false,
        meta: false,
        num_lock,
    };
    let mut press_a = down(PhysicalKey::KEY_A, LogicalKey::KEY_A);

    let unlocked = after_num_lock(0);
    assert!(activator(LockState::Unlocked).accepts(&press_a, &unlocked));
    assert!(!activator(LockState::Locked).accepts(&press_a, &unlocked));

    let locked = after_num_lock(1);
    assert!(!activator(LockState::Unlocked).accepts(&press_a, &locked));
    assert!(activator(LockState::Locked).accepts(&press_a, &locked));

    assert!(activator(LockState::Ignored).accepts(&press_a, &unlocked));
    assert!(activator(LockState::Ignored).accepts(&press_a, &locked));
    let _ = &mut press_a;
}

#[test]
fn a_shortcut_asks_nothing_of_the_lock_unless_told_to() {
    assert_eq!(LockState::default(), LockState::Ignored);
}

#[test]
fn a_dispatched_key_is_answered_by_whoever_handles_its_intent() {
    let registry: Table = default_traversal_registry();
    let keyboard = HeldKeys(vec![LogicalKey::TAB]).keyboard();
    let seen = Rc::new(Cell::new(""));
    let witness = Rc::clone(&seen);
    let result = registry.dispatch(&event(LogicalKey::TAB, None), &keyboard, move |intent, _| {
        witness.set(intent.action_name());
        KeyResult::Handled
    });
    assert_eq!(result, KeyResult::Handled);
    assert_eq!(seen.get(), "NextFocus");

    let unmatched = registry.dispatch(&event(LogicalKey::F5, None), &keyboard, |_, _| {
        KeyResult::Handled
    });
    assert_eq!(unmatched, KeyResult::Ignored, "a key that means nothing here is ignored");
}

#[test]
fn a_live_registry_prints_the_same_as_its_table() {
    let registry: Table = default_traversal_registry();
    let property = ShortcutMapProperty::from_registry("shortcuts", &registry);
    assert!(property.value_to_string().starts_with("{{Tab}: NextFocus, "));
    assert_eq!(property.property().name.as_deref(), Some("shortcuts"));
}
