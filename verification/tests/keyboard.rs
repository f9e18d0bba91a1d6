use lib::keyboard::{KeyChange, KeyEvent, Keyboard, KeyboardLockMode, LogicalKey, PhysicalKey};

fn key(change: KeyChange, physical: u64, logical: u64) -> KeyEvent {
    KeyEvent {
        change,
        physical: PhysicalKey(physical),
        logical: LogicalKey(logical),
        character: None,
        synthesized: false,
        time_stamp_micros: 0,
    }
}

fn record(keyboard: &mut Keyboard, change: KeyChange, physical: u64, logical: u64) -> KeyChange {
    let mut event = key(change, physical, logical);
    keyboard.record(&mut event);
    event.change
}

#[test]
fn a_released_key_is_no_longer_held_and_the_others_still_are() {
    let mut keyboard = Keyboard::new();
    record(&mut keyboard, KeyChange::Down, PhysicalKey::SHIFT_LEFT, LogicalKey::SHIFT_LEFT);
    record(&mut keyboard, KeyChange::Down, PhysicalKey::KEY_A, LogicalKey::KEY_A);
    assert_eq!(keyboard.pressed_count(), 2);
    record(&mut keyboard, KeyChange::Up, PhysicalKey::KEY_A, LogicalKey::KEY_A);
    assert!(!keyboard.is_pressed(PhysicalKey(PhysicalKey::KEY_A)));
    assert!(keyboard.is_pressed(PhysicalKey(PhysicalKey::SHIFT_LEFT)));
    assert!(keyboard.shift());
    assert_eq!(keyboard.pressed_count(), 1);
}

#[test]
fn a_lock_flips_on_a_press_and_not_on_the_release() {
    let mut keyboard = Keyboard::new();
    assert!(!keyboard.is_locked(KeyboardLockMode::CapsLock));
    record(&mut keyboard, KeyChange::Down, PhysicalKey::CAPS_LOCK, LogicalKey::CAPS_LOCK);
    assert!(keyboard.is_locked(KeyboardLockMode::CapsLock));
    record(&mut keyboard, KeyChange::Up, PhysicalKey::CAPS_LOCK, LogicalKey::CAPS_LOCK);
    assert!(keyboard.is_locked(KeyboardLockMode::CapsLock), "the release leaves it on");
    assert!(!keyboard.is_locked(KeyboardLockMode::NumLock), "and the other locks alone");
    record(&mut keyboard, KeyChange::Down, PhysicalKey::KEY_S, LogicalKey::KEY_S);
    assert!(keyboard.is_locked(KeyboardLockMode::CapsLock), "another key leaves it too");
}

#[test]
fn a_lock_key_pressed_twice_restores_its_lock() {
    let mut keyboard = Keyboard::new();
    for _ in 0..2 {
        record(&mut keyboard, KeyChange::Down, PhysicalKey::NUM_LOCK, LogicalKey::NUM_LOCK);
        record(&mut keyboard, KeyChange::Up, PhysicalKey::NUM_LOCK, LogicalKey::NUM_LOCK);
    }
    assert!(!keyboard.is_locked(KeyboardLockMode::NumLock));
    assert!(!keyboard.is_pressed(PhysicalKey(PhysicalKey::NUM_LOCK)));
}
