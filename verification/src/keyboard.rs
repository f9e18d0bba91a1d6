//! Keys, key events, and the keyboard state folded from them: which keys are
//! held down and which locks are on.
//!
//! A key has two names. The **physical** key is the place on the keyboard; the
//! **logical** key is what that place means under the current layout. The
//! modifiers are asked about by place, a shortcut's keys by meaning.

use vstd::prelude::*;

verus! {

/// A key by what it means under the current layout. The named keys are the
/// values of its associated constants.
#[derive(Clone, Copy, Debug, PartialEq, Eq, Hash, Structural)]
pub struct LogicalKey(pub u64);

impl LogicalKey {
    pub const BACKSPACE: u64 = 0x1_0000_0008;
    pub const TAB: u64 = 0x1_0000_0009;
    pub const ENTER: u64 = 0x1_0000_000d;
    pub const ESCAPE: u64 = 0x1_0000_001b;
    pub const SPACE: u64 = 0x20;
    pub const DELETE: u64 = 0x1_0000_007f;
    pub const KEY_A: u64 = 0x61;
    pub const KEY_S: u64 = 0x73;
    pub const CAPS_LOCK: u64 = 0x1_0000_0104;
    pub const NUM_LOCK: u64 = 0x1_0000_010a;
    pub const SCROLL_LOCK: u64 = 0x1_0000_010c;
    pub const ARROW_DOWN: u64 = 0x1_0000_0301;
    pub const ARROW_LEFT: u64 = 0x1_0000_0302;
    pub const ARROW_RIGHT: u64 = 0x1_0000_0303;
    pub const ARROW_UP: u64 = 0x1_0000_0304;
    pub const END: u64 = 0x1_0000_0305;
    pub const HOME: u64 = 0x1_0000_0306;
    pub const PAGE_DOWN: u64 = 0x1_0000_0307;
    pub const PAGE_UP: u64 = 0x1_0000_0308;
    pub const SELECT: u64 = 0x1_0000_050c;
    pub const F5: u64 = 0x1_0000_0805;
    pub const CONTROL_LEFT: u64 = 0x2_0000_0100;
    pub const CONTROL_RIGHT: u64 = 0x2_0000_0101;
    pub const SHIFT_LEFT: u64 = 0x2_0000_0102;
    pub const SHIFT_RIGHT: u64 = 0x2_0000_0103;
    pub const ALT_LEFT: u64 = 0x2_0000_0104;
    pub const ALT_RIGHT: u64 = 0x2_0000_0105;
    pub const META_LEFT: u64 = 0x2_0000_0106;
    pub const META_RIGHT: u64 = 0x2_0000_0107;
    pub const NUMPAD_ENTER: u64 = 0x2_0000_020d;
    pub const CONTROL: u64 = 0x2_0000_01f0;
    pub const SHIFT: u64 = 0x2_0000_01f2;
    pub const ALT: u64 = 0x2_0000_01f4;
    pub const META: u64 = 0x2_0000_01f6;

    /// The logical key a printable character stands for: its code point.
    pub fn from_char(c: char) -> (r: LogicalKey)
        ensures
            r.0 == c as u64,
    {
        LogicalKey(c as u64)
    }
}

/// A key by where it is on the keyboard. The named keys are the values of its
/// associated constants.
#[derive(Clone, Copy, Debug, PartialEq, Eq, Hash, Structural)]
pub struct PhysicalKey(pub u64);

impl PhysicalKey {
    pub const KEY_A: u64 = 0x7_0004;
    pub const KEY_S: u64 = 0x7_0016;
    pub const CAPS_LOCK: u64 = 0x7_0039;
    pub const SCROLL_LOCK: u64 = 0x7_0047;
    pub const NUM_LOCK: u64 = 0x7_0053;
    pub const CONTROL_LEFT: u64 = 0x7_00e0;
    pub const SHIFT_LEFT: u64 = 0x7_00e1;
    pub const ALT_LEFT: u64 = 0x7_00e2;
    pub const META_LEFT: u64 = 0x7_00e3;
    pub const CONTROL_RIGHT: u64 = 0x7_00e4;
    pub const SHIFT_RIGHT: u64 = 0x7_00e5;
    pub const ALT_RIGHT: u64 = 0x7_00e6;
    pub const META_RIGHT: u64 = 0x7_00e7;
}

/// What happened to a key.
#[derive(Clone, Copy, Debug, PartialEq, Eq, Structural)]
pub enum KeyChange {
    Down,
    Up,
    /// The key was already down and the platform repeated it.
    Repeat,
}

/// The three locks a keyboard keeps.
#[derive(Clone, Copy, Debug, PartialEq, Eq, Structural)]
pub enum KeyboardLockMode {
    NumLock,
    CapsLock,
    ScrollLock,
}

/// One key event as the platform reports it.
#[derive(Clone, Debug)]
pub struct KeyEvent {
    pub change: KeyChange,
    pub physical: PhysicalKey,
    pub logical: LogicalKey,
    /// The text the key produces, if any.
    pub character: Option<String>,
    pub synthesized: bool,
    pub time_stamp_micros: i64,
}

impl KeyEvent {
    /// A press or a repeat: the key is down after this event.
    pub fn is_down(&self) -> (r: bool)
        ensures
            r == (self.change != KeyChange::Up),
    {
        match self.change {
            KeyChange::Up => false,
            _ => true,
        }
    }
}

/// The keyboard as its callers see it: the held keys in the order they went
/// down, and the three locks.
pub struct KeyboardView {
    pub pressed: Seq<(PhysicalKey, LogicalKey)>,
    pub num_lock: bool,
    pub caps_lock: bool,
    pub scroll_lock: bool,
}

/// Whether the physical key `key` is among the held keys.
pub open spec fn holds_physical(pressed: Seq<(PhysicalKey, LogicalKey)>, key: PhysicalKey) -> bool {
    exists|i: int| 0 <= i < pressed.len() && #[trigger] pressed[i].0 == key
}

/// Whether the logical key `key` is among the held keys.
pub open spec fn holds_logical(pressed: Seq<(PhysicalKey, LogicalKey)>, key: LogicalKey) -> bool {
    exists|i: int| 0 <= i < pressed.len() && #[trigger] pressed[i].1 == key
}

/// The held keys with every entry for the physical key `key` taken out.
pub open spec fn released(pressed: Seq<(PhysicalKey, LogicalKey)>, key: PhysicalKey) -> Seq<
    (PhysicalKey, LogicalKey),
>
    decreases pressed.len(),
{
    if pressed.len() == 0 {
        pressed
    } else if pressed.last().0 == key {
        released(pressed.drop_last(), key)
    } else {
        released(pressed.drop_last(), key).push(pressed.last())
    }
}

/// The keyboard after a lock key went down: that lock flips, the others stay.
pub open spec fn toggled(k: KeyboardView, logical: LogicalKey) -> KeyboardView {
    KeyboardView {
        pressed: k.pressed,
        num_lock: if logical.0 == LogicalKey::NUM_LOCK {
            !k.num_lock
        } else {
            k.num_lock
        },
        caps_lock: if logical.0 == LogicalKey::CAPS_LOCK {
            !k.caps_lock
        } else {
            k.caps_lock
        },
        scroll_lock: if logical.0 == LogicalKey::SCROLL_LOCK {
            !k.scroll_lock
        } else {
            k.scroll_lock
        },
    }
}

/// The keyboard after `event`, and what the event turns out to be: a press
/// of a key already held is a repeat, which changes nothing; a press adds the
/// key and flips its lock, if it is a lock key; a release takes the key out.
pub open spec fn after_event(k: KeyboardView, event: KeyEvent) -> (KeyboardView, KeyChange) {
    match event.change {
        KeyChange::Down => if holds_physical(k.pressed, event.physical) {
            (k, KeyChange::Repeat)
        } else {
            (
                toggled(
                    KeyboardView {
                        pressed: k.pressed.push((event.physical, event.logical)),
                        num_lock: k.num_lock,
                        caps_lock: k.caps_lock,
                        scroll_lock: k.scroll_lock,
                    },
                    event.logical,
                ),
                KeyChange::Down,
            )
        },
        KeyChange::Up => (
            KeyboardView {
                pressed: released(k.pressed, event.physical),
                num_lock: k.num_lock,
                caps_lock: k.caps_lock,
                scroll_lock: k.scroll_lock,
            },
            KeyChange::Up,
        ),
        KeyChange::Repeat => (k, KeyChange::Repeat),
    }
}

/// Whether either of the two physical keys is held.
pub open spec fn holds_either(k: KeyboardView, left: PhysicalKey, right: PhysicalKey) -> bool {
    holds_physical(k.pressed, left) || holds_physical(k.pressed, right)
}

/// The keyboard state, folded from key events.
#[derive(Clone, Debug)]
pub struct Keyboard {
    pressed: Vec<(PhysicalKey, LogicalKey)>,
    num_lock: bool,
    caps_lock: bool,
    scroll_lock: bool,
}

impl View for Keyboard {
    type V = KeyboardView;

    closed spec fn view(&self) -> KeyboardView {
        KeyboardView {
            pressed: self.pressed@,
            num_lock: self.num_lock,
            caps_lock: self.caps_lock,
            scroll_lock: self.scroll_lock,
        }
    }
}

impl Keyboard {
    /// Nothing held and every lock off.
    pub fn new() -> (r: Keyboard)
        ensures
            r@.pressed == Seq::<(PhysicalKey, LogicalKey)>::empty(),
            !r@.num_lock,
            !r@.caps_lock,
            !r@.scroll_lock,
    {
        Keyboard { pressed: Vec::new(), num_lock: false, caps_lock: false, scroll_lock: false }
    }

    /// Whether the physical key is held.
    pub fn is_pressed(&self, key: PhysicalKey) -> (r: bool)
        ensures
            r == holds_physical(self@.pressed, key),
    {
        let mut i: usize = 0;
        while i < self.pressed.len()
            invariant
                i <= self.pressed@.len(),
                forall|j: int| 0 <= j < i ==> #[trigger] self.pressed@[j].0 != key,
            decreases self.pressed@.len() - i,
        {
            if self.pressed[i].0 == key {
                return true;
            }
            i = i + 1;
        }
        false
    }

    /// Whether a key meaning `key` is held.
    pub fn is_logical_pressed(&self, key: LogicalKey) -> (r: bool)
        ensures
            r == holds_logical(self@.pressed, key),
    {
        let mut i: usize = 0;
        while i < self.pressed.len()
            invariant
                i <= self.pressed@.len(),
                forall|j: int| 0 <= j < i ==> #[trigger] self.pressed@[j].1 != key,
            decreases self.pressed@.len() - i,
        {
            if self.pressed[i].1 == key {
                return true;
            }
            i = i + 1;
        }
        false
    }

    /// How many keys are held.
    pub fn pressed_count(&self) -> (r: usize)
        ensures
            r == self@.pressed.len(),
    {
        self.pressed.len()
    }

    /// Whether a control key, left or right, is held.
    pub fn control(&self) -> (r: bool)
        ensures
            r == holds_either(self@, PhysicalKey(PhysicalKey::CONTROL_LEFT), PhysicalKey(PhysicalKey::CONTROL_RIGHT)),
    {
        self.is_pressed(PhysicalKey(PhysicalKey::CONTROL_LEFT)) || self.is_pressed(PhysicalKey(PhysicalKey::CONTROL_RIGHT))
    }

    /// Whether a shift key, left or right, is held.
    pub fn shift(&self) -> (r: bool)
        ensures
            r == holds_either(self@, PhysicalKey(PhysicalKey::SHIFT_LEFT), PhysicalKey(PhysicalKey::SHIFT_RIGHT)),
    {
        self.is_pressed(PhysicalKey(PhysicalKey::SHIFT_LEFT)) || self.is_pressed(PhysicalKey(PhysicalKey::SHIFT_RIGHT))
    }

    /// Whether an alt key, left or right, is held.
    pub fn alt(&self) -> (r: bool)
        ensures
            r == holds_either(self@, PhysicalKey(PhysicalKey::ALT_LEFT), PhysicalKey(PhysicalKey::ALT_RIGHT)),
    {
        self.is_pressed(PhysicalKey(PhysicalKey::ALT_LEFT)) || self.is_pressed(PhysicalKey(PhysicalKey::ALT_RIGHT))
    }

    /// Whether a meta key, left or right, is held.
    pub fn meta(&self) -> (r: bool)
        ensures
            r == holds_either(self@, PhysicalKey(PhysicalKey::META_LEFT), PhysicalKey(PhysicalKey::META_RIGHT)),
    {
        self.is_pressed(PhysicalKey(PhysicalKey::META_LEFT)) || self.is_pressed(PhysicalKey(PhysicalKey::META_RIGHT))
    }

    /// Whether the lock is on.
    pub fn is_locked(&self, mode: KeyboardLockMode) -> (r: bool)
        ensures
            r == (match mode {
                KeyboardLockMode::NumLock => self@.num_lock,
                KeyboardLockMode::CapsLock => self@.caps_lock,
                KeyboardLockMode::ScrollLock => self@.scroll_lock,
            }),
    {
        match mode {
            KeyboardLockMode::NumLock => self.num_lock,
            KeyboardLockMode::CapsLock => self.caps_lock,
            KeyboardLockMode::ScrollLock => self.scroll_lock,
        }
    }

    /// Folds one event into the keyboard. A press of a key that is already
    /// held is rewritten into a repeat, which is what it is.
    pub fn record(&mut self, event: &mut KeyEvent)
        ensures
            (final(self)@, final(event).change) == after_event(old(self)@, *old(event)),
            final(event).physical == old(event).physical,
            final(event).logical == old(event).logical,
            final(event).character == old(event).character,
            final(event).synthesized == old(event).synthesized,
            final(event).time_stamp_micros == old(event).time_stamp_micros,
    {
        match event.change {
            KeyChange::Down => {
                if self.is_pressed(event.physical) {
                    event.change = KeyChange::Repeat;
                } else {
                    self.pressed.push((event.physical, event.logical));
                    if event.logical.0 == LogicalKey::NUM_LOCK {
                        self.num_lock = !self.num_lock;
                    }
                    if event.logical.0 == LogicalKey::CAPS_LOCK {
                        self.caps_lock = !self.caps_lock;
                    }
                    if event.logical.0 == LogicalKey::SCROLL_LOCK {
                        self.scroll_lock = !self.scroll_lock;
                    }
                }
            },
            KeyChange::Up => {
                let ghost before = self.pressed@;
                let mut kept: Vec<(PhysicalKey, LogicalKey)> = Vec::new();
                let mut i: usize = 0;
                while i < self.pressed.len()
                    invariant
                        self.pressed@ == before,
                        i <= before.len(),
                        kept@ == released(before.subrange(0, i as int), event.physical),
                    decreases before.len() - i,
                {
                    proof {
                        assert(before.subrange(0, i + 1).drop_last() =~= before.subrange(
                            0,
                            i as int,
                        ));
                    }
                    if self.pressed[i].0 != event.physical {
                        kept.push(self.pressed[i]);
                    }
                    i = i + 1;
                }
                proof {
                    assert(before.subrange(0, before.len() as int) =~= before);
                }
                self.pressed = kept;
            },
            KeyChange::Repeat => {},
        }
    }
}

/// After a release, the released key is no longer held, and every other
/// held key still is.
pub proof fn lemma_released(pressed: Seq<(PhysicalKey, LogicalKey)>, key: PhysicalKey, other: PhysicalKey)
    ensures
        !holds_physical(released(pressed, key), key),
        other != key ==> (holds_physical(released(pressed, key), other) <==> holds_physical(
            pressed,
            other,
        )),
    decreases pressed.len(),
{
    if pressed.len() > 0 {
        let rest = pressed.drop_last();
        lemma_released(rest, key, other);
        let r = released(rest, key);
        if pressed.last().0 != key {
            assert(r.push(pressed.last())[r.len() as int] == pressed.last());
            if holds_physical(r.push(pressed.last()), key) {
                let i = choose|i: int|
                    0 <= i < r.len() + 1 && #[trigger] r.push(pressed.last())[i].0 == key;
                assert(r[i].0 == key);
            }
            if holds_physical(r.push(pressed.last()), other) {
                let i = choose|i: int|
                    0 <= i < r.len() + 1 && #[trigger] r.push(pressed.last())[i].0 == other;
                if i < r.len() {
                    assert(r[i].0 == other);
                } else {
                    assert(pressed[pressed.len() - 1].0 == other);
                }
            }
            if holds_physical(r, other) {
                let i = choose|i: int| 0 <= i < r.len() && #[trigger] r[i].0 == other;
                assert(r.push(pressed.last())[i].0 == other);
            }
        }
        if holds_physical(pressed, other) {
            let i = choose|i: int| 0 <= i < pressed.len() && #[trigger] pressed[i].0 == other;
            if i < rest.len() {
                assert(rest[i].0 == other);
            }
        }
        if holds_physical(rest, other) {
            let i = choose|i: int| 0 <= i < rest.len() && #[trigger] rest[i].0 == other;
            assert(pressed[i].0 == other);
        }
    }
}

/// **A lock flips on each press of its key and on nothing else**: a release,
/// a repeat, a press of a key already held, or a press of any other key
/// leaves all three locks as they were.
pub proof fn lemma_locks_flip_on_press_only(k: KeyboardView, event: KeyEvent)
    ensures
        ({
            let after = after_event(k, event).0;
            let pressed_now = event.change == KeyChange::Down && !holds_physical(
                k.pressed,
                event.physical,
            );
            &&& after.num_lock == (k.num_lock != (pressed_now && event.logical.0
                == LogicalKey::NUM_LOCK))
            &&& after.caps_lock == (k.caps_lock != (pressed_now && event.logical.0
                == LogicalKey::CAPS_LOCK))
            &&& after.scroll_lock == (k.scroll_lock != (pressed_now && event.logical.0
                == LogicalKey::SCROLL_LOCK))
        }),
{
}

/// Pressing and releasing a lock key twice leaves its lock as it started.
pub proof fn lemma_lock_key_twice_restores(
    k: KeyboardView,
    press: KeyEvent,
    release: KeyEvent,
)
    requires
        press.change == KeyChange::Down,
        release.change == KeyChange::Up,
        press.physical == release.physical,
        press.logical == release.logical,
        !holds_physical(k.pressed, press.physical),
    ensures
        ({
            let once = after_event(after_event(k, press).0, release).0;
            let twice = after_event(after_event(once, press).0, release).0;
            &&& twice.num_lock == k.num_lock
            &&& twice.caps_lock == k.caps_lock
            &&& twice.scroll_lock == k.scroll_lock
            &&& !holds_physical(twice.pressed, press.physical)
        }),
{
    let down = after_event(k, press).0;
    lemma_released(down.pressed, press.physical, press.physical);
    let once = after_event(down, release).0;
    let again = after_event(once, press).0;
    lemma_released(again.pressed, press.physical, press.physical);
}

} // verus!
