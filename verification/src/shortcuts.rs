//! The shortcut system: activators say which keystroke they mean, a registry
//! maps activators to intents, and the first activator that accepts a key
//! event decides what the key means.

use crate::intents::{
    AxisDirection, Intent, KeyResult, ScrollIncrementType, TargetPlatform, TraversalDirection,
};
use crate::keyboard::{
    holds_either, holds_logical, KeyChange, KeyEvent, Keyboard, KeyboardLockMode, KeyboardView,
    LogicalKey, PhysicalKey,
};
use crate::diagnostics::{DiagnosticsProperty, PropertyValue};
use crate::intents::intent_name;
use crate::text::{append_str, chars_of, hexadecimal, owned, push_char, push_hexadecimal};
use std::collections::HashMap;
use vstd::prelude::*;

verus! {

/// Whether every key of `s` is smaller than every key after it.
pub open spec fn strictly_ascending(s: Seq<u64>) -> bool {
    forall|i: int, j: int| 0 <= i < j < s.len() ==> s[i] < s[j]
}

/// The set of logical keys an activator means, kept sorted and without
/// repeats, so that two spellings of one set are one value.
#[derive(Clone, Debug, PartialEq, Eq, Hash)]
pub struct LogicalKeySet {
    pub keys: Vec<u64>,
}

proof fn lemma_contains_insert(s: Seq<u64>, at: int, x: u64, k: u64)
    requires
        0 <= at <= s.len(),
    ensures
        s.insert(at, x).contains(k) <==> (s.contains(k) || k == x),
{
    let t = s.insert(at, x);
    if t.contains(k) {
        let m = choose|m: int| 0 <= m < t.len() && t[m] == k;
        if m < at {
            assert(s[m] == k);
        } else if m > at {
            assert(s[m - 1] == k);
        }
    }
    if s.contains(k) {
        let m = choose|m: int| 0 <= m < s.len() && s[m] == k;
        if m < at {
            assert(t[m] == k);
        } else {
            assert(t[m + 1] == k);
        }
    }
    if k == x {
        assert(t[at] == k);
    }
}

proof fn lemma_contains_push(s: Seq<u64>, x: u64, k: u64)
    ensures
        s.push(x).contains(k) <==> (s.contains(k) || k == x),
{
    lemma_contains_insert(s, s.len() as int, x, k);
    assert(s.insert(s.len() as int, x) =~= s.push(x));
}

impl LogicalKeySet {
    /// The set of the given keys, in any order and with any repeats.
    pub fn new(keys: &[u64]) -> (r: LogicalKeySet)
        ensures
            strictly_ascending(r.keys@),
            forall|k: u64| r.keys@.contains(k) <==> keys@.contains(k),
    {
        let mut sorted: Vec<u64> = Vec::new();
        let mut i: usize = 0;
        while i < keys.len()
            invariant
                i <= keys@.len(),
                strictly_ascending(sorted@),
                forall|k: u64| sorted@.contains(k) <==> keys@.subrange(0, i as int).contains(k),
            decreases keys@.len() - i,
        {
            let key = keys[i];
            let mut j: usize = 0;
            while j < sorted.len() && sorted[j] < key
                invariant
                    j <= sorted@.len(),
                    forall|m: int| 0 <= m < j ==> #[trigger] sorted@[m] < key,
                decreases sorted@.len() - j,
            {
                j = j + 1;
            }
            let ghost before = sorted@;
            if j < sorted.len() && sorted[j] == key {
                proof {
                    assert(before.contains(key));
                }
            } else {
                sorted.insert(j, key);
                proof {
                    assert forall|a: int, b: int| 0 <= a < b < sorted@.len() implies sorted@[a]
                        < sorted@[b] by {
                        if b < j {
                        } else if a > j {
                        } else if a == j {
                            assert(before[b - 1] > key || before[b - 1] == key || before[b - 1]
                                < key);
                            if b - 1 > j {
                                assert(before[j as int] < before[b - 1]);
                            }
                        } else {
                        }
                    }
                }
            }
            proof {
                assert forall|k: u64| sorted@.contains(k) <==> keys@.subrange(
                    0,
                    i + 1,
                ).contains(k) by {
                    assert(keys@.subrange(0, i + 1) =~= keys@.subrange(0, i as int).push(key));
                    lemma_contains_push(keys@.subrange(0, i as int), key, k);
                    if !(j < before.len() && before[j as int] == key) {
                        lemma_contains_insert(before, j as int, key, k);
                    }
                }
            }
            i = i + 1;
        }
        proof {
            assert(keys@.subrange(0, keys@.len() as int) =~= keys@);
        }
        LogicalKeySet { keys: sorted }
    }

    /// One key, the common case.
    pub fn single(key: u64) -> (r: LogicalKeySet)
        ensures
            r.keys@ == seq![key],
    {
        let keys = vec![key];
        LogicalKeySet { keys }
    }

    pub fn contains(&self, key: u64) -> (r: bool)
        ensures
            r == self.keys@.contains(key),
    {
        let mut i: usize = 0;
        while i < self.keys.len()
            invariant
                i <= self.keys@.len(),
                forall|j: int| 0 <= j < i ==> #[trigger] self.keys@[j] != key,
            decreases self.keys@.len() - i,
        {
            if self.keys[i] == key {
                return true;
            }
            i = i + 1;
        }
        false
    }
}

/// What a shortcut asks of a lock key.
///
/// Three answers to a yes-or-no question, and the third one is the reason the
/// type exists: **`Ignored` is not `Unlocked`.** A shortcut that does not care
/// fires either way; one that says `Unlocked` refuses while the lock is on.
#[derive(Clone, Copy, Debug, PartialEq, Eq, Hash, Structural)]
pub enum LockState {
    /// The lock is not consulted.
    Ignored,
    /// The lock must be on.
    Locked,
    /// The lock must be off.
    Unlocked,
}

impl Default for LockState {
    fn default() -> (r: LockState)
        ensures
            r == LockState::Ignored,
    {
        LockState::Ignored
    }
}

/// Whether a lock in the state `is_locked` satisfies `state`.
pub open spec fn lock_matches(state: LockState, is_locked: bool) -> bool {
    match state {
        LockState::Ignored => true,
        LockState::Locked => is_locked,
        LockState::Unlocked => !is_locked,
    }
}

impl LockState {
    pub const ALL: [LockState; 3] = [LockState::Ignored, LockState::Locked, LockState::Unlocked];

    /// Whether a lock that is on (or off) satisfies this demand.
    pub fn matches(self, is_locked: bool) -> (r: bool)
        ensures
            r == lock_matches(self, is_locked),
    {
        match self {
            LockState::Ignored => true,
            LockState::Locked => is_locked,
            LockState::Unlocked => !is_locked,
        }
    }
}

/// The thing that says whether a key event is the one it means.
#[derive(Clone, Debug, PartialEq, Eq, Hash)]
pub enum ShortcutActivator {
    /// Exactly these logical keys held, no more.
    KeySet(LogicalKeySet),
    /// One key, with the modifiers demanded exactly.
    Single {
        key: u64,
        control: bool,
        shift: bool,
        alt: bool,
        meta: bool,
        /// Only num lock gets a say: num lock changes **what the number-pad
        /// keys are**, so a shortcut bound to one of them has to say which
        /// meaning it wants. Caps lock and scroll lock change what a key
        /// produces, not which key it is, and a shortcut is bound to the key.
        num_lock: LockState,
    },
    /// A character, with optional control and single-modifier demands.
    Character { character: char, control: bool, single_modifier: bool },
}

/// An activator as the contracts see it.
pub enum ActivatorView {
    KeySet(Seq<u64>),
    Single {
        key: u64,
        control: bool,
        shift: bool,
        alt: bool,
        meta: bool,
        num_lock: LockState,
    },
    Character { character: char, control: bool, single_modifier: bool },
}

impl View for ShortcutActivator {
    type V = ActivatorView;

    open spec fn view(&self) -> ActivatorView {
        match self {
            ShortcutActivator::KeySet(set) => ActivatorView::KeySet(set.keys@),
            ShortcutActivator::Single { key, control, shift, alt, meta, num_lock } =>
                ActivatorView::Single {
                key: *key,
                control: *control,
                shift: *shift,
                alt: *alt,
                meta: *meta,
                num_lock: *num_lock,
            },
            ShortcutActivator::Character { character, control, single_modifier } =>
                ActivatorView::Character {
                character: *character,
                control: *control,
                single_modifier: *single_modifier,
            },
        }
    }
}

pub open spec fn control_held(k: KeyboardView) -> bool {
    holds_either(k, PhysicalKey(PhysicalKey::CONTROL_LEFT), PhysicalKey(PhysicalKey::CONTROL_RIGHT))
}

pub open spec fn shift_held(k: KeyboardView) -> bool {
    holds_either(k, PhysicalKey(PhysicalKey::SHIFT_LEFT), PhysicalKey(PhysicalKey::SHIFT_RIGHT))
}

pub open spec fn alt_held(k: KeyboardView) -> bool {
    holds_either(k, PhysicalKey(PhysicalKey::ALT_LEFT), PhysicalKey(PhysicalKey::ALT_RIGHT))
}

pub open spec fn meta_held(k: KeyboardView) -> bool {
    holds_either(k, PhysicalKey(PhysicalKey::META_LEFT), PhysicalKey(PhysicalKey::META_RIGHT))
}

/// How many of the four modifiers are held.
pub open spec fn modifier_count(k: KeyboardView) -> int {
    (if shift_held(k) {
        1int
    } else {
        0
    }) + (if alt_held(k) {
        1int
    } else {
        0
    }) + (if meta_held(k) {
        1int
    } else {
        0
    }) + (if control_held(k) {
        1int
    } else {
        0
    })
}

/// Whether the activator takes this event, against the keyboard as it is
/// now: a key set wants the event's key among its keys, all its keys held and
/// nothing else; a single activator wants its key and exactly its modifiers,
/// and the num lock as it says; a character activator wants the character,
/// control as it says, and one modifier exactly when it asks for a single one.
pub open spec fn activator_accepts(a: ActivatorView, event: KeyEvent, k: KeyboardView) -> bool {
    &&& event.change != KeyChange::Up
    &&& match a {
        ActivatorView::KeySet(keys) => {
            &&& keys.contains(event.logical.0)
            &&& forall|i: int|
                0 <= i < keys.len() ==> holds_logical(k.pressed, LogicalKey(#[trigger] keys[i]))
            &&& k.pressed.len() == keys.len()
        },
        ActivatorView::Single { key, control, shift, alt, meta, num_lock } => {
            &&& event.logical.0 == key
            &&& control_held(k) == control
            &&& shift_held(k) == shift
            &&& alt_held(k) == alt
            &&& meta_held(k) == meta
            &&& lock_matches(num_lock, k.num_lock)
        },
        ActivatorView::Character { character, control, single_modifier } => {
            &&& match event.character {
                Some(text) => text@ == seq![character],
                None => false,
            }
            &&& control_held(k) == control
            &&& (!single_modifier || modifier_count(k) == 1)
        },
    }
}

impl ShortcutActivator {
    /// Whether this event, against the keyboard's current held set, is this
    /// activator's keystroke.
    pub fn accepts(&self, event: &KeyEvent, keyboard: &Keyboard) -> (r: bool)
        ensures
            r == activator_accepts(self@, *event, keyboard@),
    {
        if !event.is_down() {
            return false;
        }
        match self {
            ShortcutActivator::KeySet(set) => {
                if !set.contains(event.logical.0) {
                    return false;
                }
                let mut i: usize = 0;
                while i < set.keys.len()
                    invariant
                        self@ == ActivatorView::KeySet(set.keys@),
                        event.change != KeyChange::Up,
                        set.keys@.contains(event.logical.0),
                        i <= set.keys@.len(),
                        forall|j: int|
                            0 <= j < i ==> holds_logical(
                                keyboard@.pressed,
                                LogicalKey(#[trigger] set.keys@[j]),
                            ),
                    decreases set.keys@.len() - i,
                {
                    if !keyboard.is_logical_pressed(LogicalKey(set.keys[i])) {
                        assert(!holds_logical(keyboard@.pressed, LogicalKey(set.keys@[i as int])));
                        return false;
                    }
                    i = i + 1;
                }
                keyboard.pressed_count() == set.keys.len()
            },
            ShortcutActivator::Single { key, control, shift, alt, meta, num_lock } => {
                event.logical.0 == *key && keyboard.control() == *control && keyboard.shift()
                    == *shift && keyboard.alt() == *alt && keyboard.meta() == *meta
                    && num_lock.matches(keyboard.is_locked(KeyboardLockMode::NumLock))
            },
            ShortcutActivator::Character { character, control, single_modifier } => {
                let same_character = match &event.character {
                    Some(text) => {
                        let chars = chars_of(text.as_str());
                        chars.len() == 1 && chars[0] == *character
                    },
                    None => false,
                };
                proof {
                    if same_character {
                        assert(event.character->0@ =~= seq![*character]);
                    }
                }
                if !same_character || keyboard.control() != *control {
                    return false;
                }
                if !*single_modifier {
                    return true;
                }
                let count: usize = (if keyboard.shift() {
                    1
                } else {
                    0
                }) + (if keyboard.alt() {
                    1
                } else {
                    0
                }) + (if keyboard.meta() {
                    1
                } else {
                    0
                }) + (if keyboard.control() {
                    1
                } else {
                    0
                });
                count == 1
            },
        }
    }
}

/// Activator `j` of `entries` takes the event.
pub open spec fn accepts_at<C>(
    entries: Seq<(ShortcutActivator, Intent<C>)>,
    event: KeyEvent,
    k: KeyboardView,
    j: int,
) -> bool {
    activator_accepts(entries[j].0@, event, k)
}

/// `j` is the first entry whose activator takes the event.
pub open spec fn is_first_accepting<C>(
    entries: Seq<(ShortcutActivator, Intent<C>)>,
    event: KeyEvent,
    k: KeyboardView,
    j: int,
) -> bool {
    &&& 0 <= j < entries.len()
    &&& accepts_at(entries, event, k, j)
    &&& forall|m: int| 0 <= m < j ==> !#[trigger] accepts_at(entries, event, k, m)
}

/// The first entry whose activator takes the event, if any does.
pub open spec fn first_accepting<C>(
    entries: Seq<(ShortcutActivator, Intent<C>)>,
    event: KeyEvent,
    k: KeyboardView,
) -> Option<int> {
    if exists|j: int| is_first_accepting(entries, event, k, j) {
        Some(choose|j: int| is_first_accepting(entries, event, k, j))
    } else {
        None
    }
}

proof fn lemma_first_accepting<C>(
    entries: Seq<(ShortcutActivator, Intent<C>)>,
    event: KeyEvent,
    k: KeyboardView,
    j: int,
)
    requires
        is_first_accepting(entries, event, k, j),
    ensures
        first_accepting(entries, event, k) == Some(j),
{
    let q = choose|q: int| is_first_accepting(entries, event, k, q);
    assert(is_first_accepting(entries, event, k, q));
    if q < j {
        assert(!accepts_at(entries, event, k, q));
    }
    if j < q {
        assert(!accepts_at(entries, event, k, j));
    }
}

/// The activator-to-intent map and the matching, in the order the entries
/// were added: the first match wins.
pub struct ShortcutRegistry<C> {
    entries: Vec<(ShortcutActivator, Intent<C>)>,
}

impl<C> View for ShortcutRegistry<C> {
    type V = Seq<(ShortcutActivator, Intent<C>)>;

    closed spec fn view(&self) -> Seq<(ShortcutActivator, Intent<C>)> {
        self.entries@
    }
}

impl<C> Default for ShortcutRegistry<C> {
    fn default() -> (r: ShortcutRegistry<C>)
        ensures
            r@ == Seq::<(ShortcutActivator, Intent<C>)>::empty(),
    {
        ShortcutRegistry { entries: Vec::new() }
    }
}

impl<C> ShortcutRegistry<C> {
    pub fn new() -> (r: ShortcutRegistry<C>)
        ensures
            r@ == Seq::<(ShortcutActivator, Intent<C>)>::empty(),
    {
        ShortcutRegistry { entries: Vec::new() }
    }

    /// The registry with one more entry, after all the others.
    pub fn with(self, activator: ShortcutActivator, intent: Intent<C>) -> (r: ShortcutRegistry<C>)
        ensures
            r@ == self@.push((activator, intent)),
    {
        let mut entries = self.entries;
        entries.push((activator, intent));
        ShortcutRegistry { entries }
    }

    /// The intent of the first entry whose activator takes the event.
    pub fn intent_for(&self, event: &KeyEvent, keyboard: &Keyboard) -> (r: Option<&Intent<C>>)
        ensures
            match first_accepting(self@, *event, keyboard@) {
                Some(j) => r == Some(&self@[j].1),
                None => r is None,
            },
    {
        let mut j: usize = 0;
        while j < self.entries.len()
            invariant
                j <= self@.len(),
                forall|m: int| 0 <= m < j ==> !#[trigger] accepts_at(self@, *event, keyboard@, m),
            decreases self@.len() - j,
        {
            if self.entries[j].0.accepts(event, keyboard) {
                proof {
                    lemma_first_accepting(self@, *event, keyboard@, j as int);
                }
                return Some(&self.entries[j].1);
            }
            j = j + 1;
        }
        proof {
            if exists|q: int| is_first_accepting(self@, *event, keyboard@, q) {
                let q = choose|q: int| is_first_accepting(self@, *event, keyboard@, q);
                assert(!accepts_at(self@, *event, keyboard@, q));
            }
        }
        None
    }
}

impl<C> ShortcutRegistry<C> {
    /// The whole route: the key event's intent, handed to the dispatcher,
    /// whose answer is the key's result; a key that means nothing here is
    /// ignored.
    pub fn dispatch<F: Fn(&Intent<C>, &KeyEvent) -> KeyResult>(
        &self,
        event: &KeyEvent,
        keyboard: &Keyboard,
        maybe_invoke: F,
    ) -> (r: KeyResult)
        requires
            forall|j: int| 0 <= j < self@.len() ==> maybe_invoke.requires((&self@[j].1, event)),
        ensures
            match first_accepting(self@, *event, keyboard@) {
                Some(j) => maybe_invoke.ensures((&self@[j].1, event), r),
                None => r == KeyResult::Ignored,
            },
    {
        match self.intent_for(event, keyboard) {
            Some(intent) => maybe_invoke(intent, event),
            None => KeyResult::Ignored,
        }
    }
}

/// The spec form of an activator for one key with the given modifiers and
/// the num lock ignored.
pub open spec fn key_with(key: u64, control: bool, shift: bool, meta: bool) -> ActivatorView {
    ActivatorView::Single {
        key,
        control,
        shift,
        alt: false,
        meta,
        num_lock: LockState::Ignored,
    }
}

/// One key with no modifiers, and the num lock ignored.
fn single(key: u64) -> (r: ShortcutActivator)
    ensures
        r@ == key_with(key, false, false, false),
{
    ShortcutActivator::Single {
        key,
        control: false,
        shift: false,
        alt: false,
        meta: false,
        num_lock: LockState::Ignored,
    }
}

/// One key with no modifiers.
fn plain(key: u64) -> (r: ShortcutActivator)
    ensures
        r@ == key_with(key, false, false, false),
{
    single(key)
}

/// One key with control held.
fn with_control(key: u64) -> (r: ShortcutActivator)
    ensures
        r@ == key_with(key, true, false, false),
{
    ShortcutActivator::Single {
        key,
        control: true,
        shift: false,
        alt: false,
        meta: false,
        num_lock: LockState::Ignored,
    }
}

/// One key with meta held.
fn with_meta(key: u64) -> (r: ShortcutActivator)
    ensures
        r@ == key_with(key, false, false, true),
{
    ShortcutActivator::Single {
        key,
        control: false,
        shift: false,
        alt: false,
        meta: true,
        num_lock: LockState::Ignored,
    }
}

/// One key with shift held.
fn with_shift(key: u64) -> (r: ShortcutActivator)
    ensures
        r@ == key_with(key, false, true, false),
{
    ShortcutActivator::Single {
        key,
        control: false,
        shift: true,
        alt: false,
        meta: false,
        num_lock: LockState::Ignored,
    }
}

fn scroll<C>(direction: AxisDirection) -> (r: Intent<C>)
    ensures
        r == (Intent::<C>::Scroll { direction, increment_type: ScrollIncrementType::Line }),
{
    Intent::Scroll { direction, increment_type: ScrollIncrementType::Line }
}

fn scroll_page<C>(direction: AxisDirection) -> (r: Intent<C>)
    ensures
        r == (Intent::<C>::Scroll { direction, increment_type: ScrollIncrementType::Page }),
{
    Intent::Scroll { direction, increment_type: ScrollIncrementType::Page }
}

fn arrow<C>(direction: TraversalDirection) -> (r: Intent<C>)
    ensures
        r == (Intent::<C>::DirectionalFocus { direction }),
{
    Intent::DirectionalFocus { direction }
}

/// A registry's entries with each activator seen through its view.
pub open spec fn rows_of<C>(entries: Seq<(ShortcutActivator, Intent<C>)>) -> Seq<
    (ActivatorView, Intent<C>),
> {
    entries.map_values(|e: (ShortcutActivator, Intent<C>)| (e.0@, e.1))
}

/// The rows every table shares: escape dismisses, Tab and Shift+Tab
/// traverse, and the page keys scroll by a page.
pub open spec fn common_rows_spec<C>() -> Seq<(ActivatorView, Intent<C>)> {
    seq![
        (key_with(LogicalKey::ESCAPE, false, false, false), Intent::Dismiss),
        (key_with(LogicalKey::TAB, false, false, false), Intent::NextFocus),
        (key_with(LogicalKey::TAB, false, true, false), Intent::PreviousFocus),
        (
            key_with(LogicalKey::PAGE_UP, false, false, false),
            Intent::Scroll { direction: AxisDirection::Up, increment_type: ScrollIncrementType::Page },
        ),
        (
            key_with(LogicalKey::PAGE_DOWN, false, false, false),
            Intent::Scroll {
                direction: AxisDirection::Down,
                increment_type: ScrollIncrementType::Page,
            },
        ),
    ]
}

/// The table for Android, Fuchsia, Linux and Windows: the arrows move the
/// keyboard, and control plus an arrow scrolls.
pub open spec fn desktop_rows_spec<C>() -> Seq<(ActivatorView, Intent<C>)> {
    common_rows_spec() + seq![
        (key_with(LogicalKey::ENTER, false, false, false), Intent::Activate),
        (key_with(LogicalKey::NUMPAD_ENTER, false, false, false), Intent::Activate),
        (key_with(LogicalKey::SPACE, false, false, false), Intent::Activate),
        (key_with(LogicalKey::SELECT, false, false, false), Intent::Activate),
        (
            key_with(LogicalKey::ARROW_LEFT, false, false, false),
            Intent::DirectionalFocus { direction: TraversalDirection::Left },
        ),
        (
            key_with(LogicalKey::ARROW_RIGHT, false, false, false),
            Intent::DirectionalFocus { direction: TraversalDirection::Right },
        ),
        (
            key_with(LogicalKey::ARROW_UP, false, false, false),
            Intent::DirectionalFocus { direction: TraversalDirection::Up },
        ),
        (
            key_with(LogicalKey::ARROW_DOWN, false, false, false),
            Intent::DirectionalFocus { direction: TraversalDirection::Down },
        ),
        (
            key_with(LogicalKey::ARROW_UP, true, false, false),
            Intent::Scroll { direction: AxisDirection::Up, increment_type: ScrollIncrementType::Line },
        ),
        (
            key_with(LogicalKey::ARROW_DOWN, true, false, false),
            Intent::Scroll {
                direction: AxisDirection::Down,
                increment_type: ScrollIncrementType::Line,
            },
        ),
        (
            key_with(LogicalKey::ARROW_LEFT, true, false, false),
            Intent::Scroll {
                direction: AxisDirection::Left,
                increment_type: ScrollIncrementType::Line,
            },
        ),
        (
            key_with(LogicalKey::ARROW_RIGHT, true, false, false),
            Intent::Scroll {
                direction: AxisDirection::Right,
                increment_type: ScrollIncrementType::Line,
            },
        ),
    ]
}

/// The table for iOS and macOS: the desktop table with meta where control
/// was, and without the select row.
pub open spec fn apple_rows_spec<C>() -> Seq<(ActivatorView, Intent<C>)> {
    common_rows_spec() + seq![
        (key_with(LogicalKey::ENTER, false, false, false), Intent::Activate),
        (key_with(LogicalKey::NUMPAD_ENTER, false, false, false), Intent::Activate),
        (key_with(LogicalKey::SPACE, false, false, false), Intent::Activate),
        (
            key_with(LogicalKey::ARROW_LEFT, false, false, false),
            Intent::DirectionalFocus { direction: TraversalDirection::Left },
        ),
        (
            key_with(LogicalKey::ARROW_RIGHT, false, false, false),
            Intent::DirectionalFocus { direction: TraversalDirection::Right },
        ),
        (
            key_with(LogicalKey::ARROW_UP, false, false, false),
            Intent::DirectionalFocus { direction: TraversalDirection::Up },
        ),
        (
            key_with(LogicalKey::ARROW_DOWN, false, false, false),
            Intent::DirectionalFocus { direction: TraversalDirection::Down },
        ),
        (
            key_with(LogicalKey::ARROW_UP, false, false, true),
            Intent::Scroll { direction: AxisDirection::Up, increment_type: ScrollIncrementType::Line },
        ),
        (
            key_with(LogicalKey::ARROW_DOWN, false, false, true),
            Intent::Scroll {
                direction: AxisDirection::Down,
                increment_type: ScrollIncrementType::Line,
            },
        ),
        (
            key_with(LogicalKey::ARROW_LEFT, false, false, true),
            Intent::Scroll {
                direction: AxisDirection::Left,
                increment_type: ScrollIncrementType::Line,
            },
        ),
        (
            key_with(LogicalKey::ARROW_RIGHT, false, false, true),
            Intent::Scroll {
                direction: AxisDirection::Right,
                increment_type: ScrollIncrementType::Line,
            },
        ),
    ]
}

/// The web table's rows after the space row: enter presses buttons only,
/// and the bare arrows scroll.
pub open spec fn web_rows_after_space<C>() -> Seq<(ActivatorView, Intent<C>)> {
    seq![
        (key_with(LogicalKey::ENTER, false, false, false), Intent::ButtonActivate),
        (key_with(LogicalKey::NUMPAD_ENTER, false, false, false), Intent::ButtonActivate),
        (
            key_with(LogicalKey::ARROW_UP, false, false, false),
            Intent::Scroll { direction: AxisDirection::Up, increment_type: ScrollIncrementType::Line },
        ),
        (
            key_with(LogicalKey::ARROW_DOWN, false, false, false),
            Intent::Scroll {
                direction: AxisDirection::Down,
                increment_type: ScrollIncrementType::Line,
            },
        ),
        (
            key_with(LogicalKey::ARROW_LEFT, false, false, false),
            Intent::Scroll {
                direction: AxisDirection::Left,
                increment_type: ScrollIncrementType::Line,
            },
        ),
        (
            key_with(LogicalKey::ARROW_RIGHT, false, false, false),
            Intent::Scroll {
                direction: AxisDirection::Right,
                increment_type: ScrollIncrementType::Line,
            },
        ),
    ]
}

/// The web table: the shared rows; space, which means two intents in order
/// (activate, and failing that scroll a page down); then the rows of
/// `web_rows_after_space`.
pub open spec fn is_web_table<C>(entries: Seq<(ShortcutActivator, Intent<C>)>) -> bool {
    &&& entries.len() == 12
    &&& rows_of(entries).subrange(0, 5) == common_rows_spec::<C>()
    &&& entries[5].0@ == key_with(LogicalKey::SPACE, false, false, false)
    &&& match entries[5].1 {
        Intent::Prioritized { intents } => {
            &&& intents@.len() == 2
            &&& intents@[0] is Activate
            &&& intents@[1] == (Intent::<C>::Scroll {
                direction: AxisDirection::Down,
                increment_type: ScrollIncrementType::Page,
            })
        },
        _ => false,
    }
    &&& rows_of(entries).subrange(6, 12) == web_rows_after_space::<C>()
}

/// The rows every table shares.
fn common_rows<C>(registry: ShortcutRegistry<C>) -> (r: ShortcutRegistry<C>)
    ensures
        rows_of(r@) == rows_of(registry@) + common_rows_spec::<C>(),
{
    let r = registry.with(plain(LogicalKey::ESCAPE), Intent::Dismiss).with(
        plain(LogicalKey::TAB),
        Intent::NextFocus,
    ).with(with_shift(LogicalKey::TAB), Intent::PreviousFocus).with(
        plain(LogicalKey::PAGE_UP),
        scroll_page(AxisDirection::Up),
    ).with(plain(LogicalKey::PAGE_DOWN), scroll_page(AxisDirection::Down));
    assert(rows_of(r@) =~= rows_of(registry@) + common_rows_spec::<C>());
    r
}

/// The traversal shortcut every app has: Tab to the next stop, Shift+Tab to
/// the previous one.
pub fn default_traversal_registry<C>() -> (r: ShortcutRegistry<C>)
    ensures
        rows_of(r@) == seq![
            (ActivatorView::KeySet(seq![LogicalKey::TAB]), Intent::<C>::NextFocus),
            (
                ActivatorView::KeySet(seq![LogicalKey::TAB, LogicalKey::SHIFT_LEFT]),
                Intent::<C>::PreviousFocus,
            ),
        ],
{
    let keys: [u64; 2] = [LogicalKey::SHIFT_LEFT, LogicalKey::TAB];
    let shift_tab = LogicalKeySet::new(keys.as_slice());
    proof {
        let expected = seq![LogicalKey::TAB, LogicalKey::SHIFT_LEFT];
        assert forall|k: u64| shift_tab.keys@.contains(k) <==> expected.contains(k) by {
            if expected.contains(k) {
                let m = choose|m: int| 0 <= m < expected.len() && expected[m] == k;
                if m == 0 {
                    assert(keys@[1] == k);
                } else {
                    assert(keys@[0] == k);
                }
            }
            if keys@.contains(k) {
                let m = choose|m: int| 0 <= m < keys@.len() && keys@[m] == k;
                if m == 0 {
                    assert(expected[1] == k);
                } else {
                    assert(expected[0] == k);
                }
            }
        }
        lemma_ascending_same_keys(shift_tab.keys@, expected);
    }
    let r = ShortcutRegistry::new().with(
        ShortcutActivator::KeySet(LogicalKeySet::single(LogicalKey::TAB)),
        Intent::NextFocus,
    ).with(ShortcutActivator::KeySet(shift_tab), Intent::PreviousFocus);
    assert(rows_of(r@) =~= seq![
        (ActivatorView::KeySet(seq![LogicalKey::TAB]), Intent::<C>::NextFocus),
        (
            ActivatorView::KeySet(seq![LogicalKey::TAB, LogicalKey::SHIFT_LEFT]),
            Intent::<C>::PreviousFocus,
        ),
    ]);
    r
}

/// Two strictly ascending sequences holding the same keys are the same
/// sequence.
pub proof fn lemma_ascending_same_keys(s: Seq<u64>, t: Seq<u64>)
    requires
        strictly_ascending(s),
        strictly_ascending(t),
        forall|k: u64| s.contains(k) <==> t.contains(k),
    ensures
        s == t,
    decreases s.len(),
{
    if s.len() == 0 {
        if t.len() > 0 {
            assert(t.contains(t[0]));
        }
        assert(s =~= t);
    } else {
        assert(s.contains(s[0]));
        assert(t.len() > 0);
        assert(t.contains(t[0]));
        let i = choose|i: int| 0 <= i < t.len() && t[i] == s[0];
        let j = choose|j: int| 0 <= j < s.len() && s[j] == t[0];
        if i > 0 {
            assert(t[0] < t[i]);
            if j > 0 {
                assert(s[0] < s[j]);
            }
        }
        if j > 0 {
            assert(s[0] < s[j]);
        }
        assert(s[0] == t[0]);
        let s1 = s.drop_first();
        let t1 = t.drop_first();
        assert forall|k: u64| s1.contains(k) <==> t1.contains(k) by {
            if s1.contains(k) {
                let m = choose|m: int| 0 <= m < s1.len() && s1[m] == k;
                assert(s[m + 1] == k);
                assert(s[0] < s[m + 1]);
                assert(t.contains(k));
                let n = choose|n: int| 0 <= n < t.len() && t[n] == k;
                assert(n != 0);
                assert(t1[n - 1] == k);
            }
            if t1.contains(k) {
                let m = choose|m: int| 0 <= m < t1.len() && t1[m] == k;
                assert(t[m + 1] == k);
                assert(t[0] < t[m + 1]);
                assert(s.contains(k));
                let n = choose|n: int| 0 <= n < s.len() && s[n] == k;
                assert(n != 0);
                assert(s1[n - 1] == k);
            }
        }
        lemma_ascending_same_keys(s1, t1);
        assert(s =~= seq![s[0]] + s1);
        assert(t =~= seq![t[0]] + t1);
    }
}

/// The table for Android, Fuchsia, Linux and Windows.
///
/// **The arrows move the keyboard, and control plus an arrow scrolls**: on a
/// desktop the arrows belong to whatever has the focus, so scrolling the page
/// needs a modifier to ask for it.
pub fn default_shortcuts_table<C>() -> (r: ShortcutRegistry<C>)
    ensures
        rows_of(r@) == desktop_rows_spec::<C>(),
{
    let r = common_rows(ShortcutRegistry::new()).with(plain(LogicalKey::ENTER), Intent::Activate)
        // The numeric keypad's Enter is a different logical key from the main
        // one on every host that can tell them apart.
        .with(plain(LogicalKey::NUMPAD_ENTER), Intent::Activate).with(
        plain(LogicalKey::SPACE),
        Intent::Activate,
    ).with(plain(LogicalKey::SELECT), Intent::Activate).with(
        plain(LogicalKey::ARROW_LEFT),
        arrow(TraversalDirection::Left),
    ).with(plain(LogicalKey::ARROW_RIGHT), arrow(TraversalDirection::Right)).with(
        plain(LogicalKey::ARROW_UP),
        arrow(TraversalDirection::Up),
    ).with(plain(LogicalKey::ARROW_DOWN), arrow(TraversalDirection::Down)).with(
        with_control(LogicalKey::ARROW_UP),
        scroll(AxisDirection::Up),
    ).with(with_control(LogicalKey::ARROW_DOWN), scroll(AxisDirection::Down)).with(
        with_control(LogicalKey::ARROW_LEFT),
        scroll(AxisDirection::Left),
    ).with(with_control(LogicalKey::ARROW_RIGHT), scroll(AxisDirection::Right));
    assert(rows_of(r@) =~= desktop_rows_spec::<C>());
    r
}

/// The web table, which differs from the desktop one in three ways that are
/// all about a page being a page: **space is two intents in order**
/// (activate what has the keyboard, failing that scroll a page down),
/// **enter presses buttons only**, and **the bare arrows scroll** rather than
/// move the focus, as on every other page in the browser.
pub fn default_web_shortcuts_table<C>() -> (r: ShortcutRegistry<C>)
    ensures
        is_web_table(r@),
{
    let mut intents: Vec<Intent<C>> = Vec::new();
    intents.push(Intent::Activate);
    intents.push(scroll_page(AxisDirection::Down));
    let r = common_rows(ShortcutRegistry::new()).with(
        plain(LogicalKey::SPACE),
        Intent::Prioritized { intents },
    ).with(plain(LogicalKey::ENTER), Intent::ButtonActivate).with(
        plain(LogicalKey::NUMPAD_ENTER),
        Intent::ButtonActivate,
    ).with(plain(LogicalKey::ARROW_UP), scroll(AxisDirection::Up)).with(
        plain(LogicalKey::ARROW_DOWN),
        scroll(AxisDirection::Down),
    ).with(plain(LogicalKey::ARROW_LEFT), scroll(AxisDirection::Left)).with(
        plain(LogicalKey::ARROW_RIGHT),
        scroll(AxisDirection::Right),
    );
    assert(rows_of(r@).subrange(0, 5) =~= common_rows_spec::<C>());
    assert(rows_of(r@).subrange(6, 12) =~= web_rows_after_space::<C>());
    r
}

/// The table for iOS and macOS: **meta where control was**, the scroll
/// modifier following the platform's own convention, and no select row.
pub fn default_apple_shortcuts_table<C>() -> (r: ShortcutRegistry<C>)
    ensures
        rows_of(r@) == apple_rows_spec::<C>(),
{
    let r = common_rows(ShortcutRegistry::new()).with(plain(LogicalKey::ENTER), Intent::Activate)
        .with(plain(LogicalKey::NUMPAD_ENTER), Intent::Activate).with(
        plain(LogicalKey::SPACE),
        Intent::Activate,
    ).with(plain(LogicalKey::ARROW_LEFT), arrow(TraversalDirection::Left)).with(
        plain(LogicalKey::ARROW_RIGHT),
        arrow(TraversalDirection::Right),
    ).with(plain(LogicalKey::ARROW_UP), arrow(TraversalDirection::Up)).with(
        plain(LogicalKey::ARROW_DOWN),
        arrow(TraversalDirection::Down),
    ).with(with_meta(LogicalKey::ARROW_UP), scroll(AxisDirection::Up)).with(
        with_meta(LogicalKey::ARROW_DOWN),
        scroll(AxisDirection::Down),
    ).with(with_meta(LogicalKey::ARROW_LEFT), scroll(AxisDirection::Left)).with(
        with_meta(LogicalKey::ARROW_RIGHT),
        scroll(AxisDirection::Right),
    );
    assert(rows_of(r@) =~= apple_rows_spec::<C>());
    r
}

/// The table an application gets. **The web is asked first and the platform
/// second**: on the web, an application is the web before it is macOS.
pub fn default_shortcuts<C>(platform: TargetPlatform, is_web: bool) -> (r: ShortcutRegistry<C>)
    ensures
        is_web ==> is_web_table(r@),
        !is_web ==> rows_of(r@) == (match platform {
            TargetPlatform::IOS | TargetPlatform::MacOS => apple_rows_spec::<C>(),
            _ => desktop_rows_spec::<C>(),
        }),
{
    if is_web {
        return default_web_shortcuts_table();
    }
    match platform {
        TargetPlatform::Android | TargetPlatform::Fuchsia | TargetPlatform::Linux
        | TargetPlatform::Windows => default_shortcuts_table(),
        TargetPlatform::IOS | TargetPlatform::MacOS => default_apple_shortcuts_table(),
    }
}

/// Whether two tables hold the same activators, row for row.
pub open spec fn same_activators<C>(
    a: Seq<(ShortcutActivator, Intent<C>)>,
    b: Seq<(ShortcutActivator, Intent<C>)>,
) -> bool {
    &&& a.len() == b.len()
    &&& forall|j: int| 0 <= j < a.len() ==> #[trigger] a[j].0@ == b[j].0@
}

/// **An activator for one key is exact about its modifiers**: a release is
/// never taken; a one-key activator takes only its own key; and two one-key
/// activators for the same key that differ in any of control, shift, alt or
/// meta never both take the same event, so a table can give each combination
/// its own meaning.
pub proof fn lemma_one_key_activators_are_exact(
    a: ActivatorView,
    b: ActivatorView,
    event: KeyEvent,
    k: KeyboardView,
)
    ensures
        event.change == KeyChange::Up ==> !activator_accepts(a, event, k),
        a matches ActivatorView::Single { key, .. } ==> (activator_accepts(a, event, k)
            ==> event.logical.0 == key),
        a matches ActivatorView::Single { key: ka, control: ca, shift: sa, alt: aa, meta: ma, .. }
            ==> (b matches ActivatorView::Single {
            key: kb,
            control: cb,
            shift: sb,
            alt: ab,
            meta: mb,
            ..
        } ==> (ka == kb && (ca != cb || sa != sb || aa != ab || ma != mb) ==> !(activator_accepts(
            a,
            event,
            k,
        ) && activator_accepts(b, event, k)))),
{
}

/// The way an arrow key points, for the four arrow keys.
pub open spec fn arrow_points(key: u64) -> Option<AxisDirection> {
    if key == LogicalKey::ARROW_LEFT {
        Some(AxisDirection::Left)
    } else if key == LogicalKey::ARROW_RIGHT {
        Some(AxisDirection::Right)
    } else if key == LogicalKey::ARROW_UP {
        Some(AxisDirection::Up)
    } else if key == LogicalKey::ARROW_DOWN {
        Some(AxisDirection::Down)
    } else {
        None
    }
}

/// The focus move that goes the way `d` points.
pub open spec fn traversal_toward(d: AxisDirection) -> TraversalDirection {
    match d {
        AxisDirection::Left => TraversalDirection::Left,
        AxisDirection::Right => TraversalDirection::Right,
        AxisDirection::Up => TraversalDirection::Up,
        AxisDirection::Down => TraversalDirection::Down,
    }
}

/// Whether `rows` has a row for `activator`, and every row for it means
/// `intent`.
pub open spec fn answers_with<C>(
    rows: Seq<(ActivatorView, Intent<C>)>,
    activator: ActivatorView,
    intent: Intent<C>,
) -> bool {
    &&& exists|j: int| 0 <= j < rows.len() && #[trigger] rows[j].0 == activator
    &&& forall|j: int| 0 <= j < rows.len() && #[trigger] rows[j].0 == activator ==> rows[j].1 == intent
}

/// **The arrows go the way they point** in the desktop and Apple tables: a
/// bare arrow moves the focus that way, and an arrow with control (on the
/// desktop) or with meta (on Apple's hosts) scrolls that way by a line.
pub proof fn lemma_arrows_go_the_way_they_point<C>(key: u64)
    requires
        arrow_points(key) is Some,
    ensures
        ({
            let d = arrow_points(key)->0;
            let line = Intent::<C>::Scroll { direction: d, increment_type: ScrollIncrementType::Line };
            let focus = Intent::<C>::DirectionalFocus { direction: traversal_toward(d) };
            &&& answers_with(desktop_rows_spec::<C>(), key_with(key, true, false, false), line)
            &&& answers_with(desktop_rows_spec::<C>(), key_with(key, false, false, false), focus)
            &&& answers_with(apple_rows_spec::<C>(), key_with(key, false, false, true), line)
            &&& answers_with(apple_rows_spec::<C>(), key_with(key, false, false, false), focus)
        }),
{
    let desktop = desktop_rows_spec::<C>();
    let apple = apple_rows_spec::<C>();
    assert(desktop.len() == 17);
    assert(apple.len() == 16);
    if key == LogicalKey::ARROW_LEFT {
        assert(desktop[15].0 == key_with(key, true, false, false));
        assert(desktop[9].0 == key_with(key, false, false, false));
        assert(apple[14].0 == key_with(key, false, false, true));
        assert(apple[8].0 == key_with(key, false, false, false));
    } else if key == LogicalKey::ARROW_RIGHT {
        assert(desktop[16].0 == key_with(key, true, false, false));
        assert(desktop[10].0 == key_with(key, false, false, false));
        assert(apple[15].0 == key_with(key, false, false, true));
        assert(apple[9].0 == key_with(key, false, false, false));
    } else if key == LogicalKey::ARROW_UP {
        assert(desktop[13].0 == key_with(key, true, false, false));
        assert(desktop[11].0 == key_with(key, false, false, false));
        assert(apple[12].0 == key_with(key, false, false, true));
        assert(apple[10].0 == key_with(key, false, false, false));
    } else {
        assert(desktop[14].0 == key_with(key, true, false, false));
        assert(desktop[12].0 == key_with(key, false, false, false));
        assert(apple[13].0 == key_with(key, false, false, true));
        assert(apple[11].0 == key_with(key, false, false, false));
    }
}

/// On the web a bare arrow scrolls by a line the way it points.
pub proof fn lemma_web_arrows_scroll_the_way_they_point<C>(
    entries: Seq<(ShortcutActivator, Intent<C>)>,
    key: u64,
)
    requires
        is_web_table(entries),
        arrow_points(key) is Some,
    ensures
        answers_with(
            rows_of(entries),
            key_with(key, false, false, false),
            Intent::<C>::Scroll {
                direction: arrow_points(key)->0,
                increment_type: ScrollIncrementType::Line,
            },
        ),
{
    let rows = rows_of(entries);
    let common = rows.subrange(0, 5);
    let after = rows.subrange(6, 12);
    assert forall|j: int| 0 <= j < 5 implies #[trigger] rows[j] == common[j] by {}
    assert forall|j: int| 6 <= j < 12 implies #[trigger] rows[j] == after[j - 6] by {}
    assert(rows[5].0 == key_with(LogicalKey::SPACE, false, false, false));
    if key == LogicalKey::ARROW_UP {
        assert(rows[8].0 == key_with(key, false, false, false));
    } else if key == LogicalKey::ARROW_DOWN {
        assert(rows[9].0 == key_with(key, false, false, false));
    } else if key == LogicalKey::ARROW_LEFT {
        assert(rows[10].0 == key_with(key, false, false, false));
    } else {
        assert(rows[11].0 == key_with(key, false, false, false));
    }
}

/// **The keys every table shares mean the same in each**: escape
/// dismisses, Tab moves the focus on and Shift+Tab back, and the page keys
/// scroll by a page the way they name, in the desktop, Apple and web tables
/// alike.
pub proof fn lemma_shared_keys_mean_the_same_everywhere<C>(
    rows: Seq<(ActivatorView, Intent<C>)>,
    web: Seq<(ShortcutActivator, Intent<C>)>,
)
    requires
        rows == desktop_rows_spec::<C>() || rows == apple_rows_spec::<C>() || (is_web_table(web)
            && rows == rows_of(web)),
    ensures
        answers_with(rows, key_with(LogicalKey::ESCAPE, false, false, false), Intent::<C>::Dismiss),
        answers_with(rows, key_with(LogicalKey::TAB, false, false, false), Intent::<C>::NextFocus),
        answers_with(rows, key_with(LogicalKey::TAB, false, true, false), Intent::<C>::PreviousFocus),
        answers_with(
            rows,
            key_with(LogicalKey::PAGE_UP, false, false, false),
            Intent::<C>::Scroll { direction: AxisDirection::Up, increment_type: ScrollIncrementType::Page },
        ),
        answers_with(
            rows,
            key_with(LogicalKey::PAGE_DOWN, false, false, false),
            Intent::<C>::Scroll {
                direction: AxisDirection::Down,
                increment_type: ScrollIncrementType::Page,
            },
        ),
{
    let common = common_rows_spec::<C>();
    assert forall|j: int| 0 <= j < 5 implies #[trigger] rows[j] == common[j] by {
        if !(rows == desktop_rows_spec::<C>() || rows == apple_rows_spec::<C>()) {
            assert(rows.subrange(0, 5)[j] == rows[j]);
        }
    }
    if !(rows == desktop_rows_spec::<C>() || rows == apple_rows_spec::<C>()) {
        let after = rows.subrange(6, 12);
        assert forall|j: int| 6 <= j < 12 implies #[trigger] rows[j] == after[j - 6] by {}
        assert(rows[5].0 == key_with(LogicalKey::SPACE, false, false, false));
        assert(rows.len() == 12);
    }
    assert(rows[0].0 == key_with(LogicalKey::ESCAPE, false, false, false));
    assert(rows[1].0 == key_with(LogicalKey::TAB, false, false, false));
    assert(rows[2].0 == key_with(LogicalKey::TAB, false, true, false));
    assert(rows[3].0 == key_with(LogicalKey::PAGE_UP, false, false, false));
    assert(rows[4].0 == key_with(LogicalKey::PAGE_DOWN, false, false, false));
}

/// Tables with the same activators row for row answer every key at the same
/// row; with the same rows they answer it with the same intent. So the table
/// an application gets answers every key as the table it is built from: the
/// web's on the web, whatever the platform, and otherwise Apple's on macOS
/// and iOS and the common desktop table everywhere else.
pub proof fn lemma_same_activators_same_answers<C>(
    a: Seq<(ShortcutActivator, Intent<C>)>,
    b: Seq<(ShortcutActivator, Intent<C>)>,
    event: KeyEvent,
    k: KeyboardView,
)
    requires
        same_activators(a, b) || rows_of(a) == rows_of(b),
    ensures
        first_accepting(a, event, k) == first_accepting(b, event, k),
        rows_of(a) == rows_of(b) ==> match first_accepting(a, event, k) {
            Some(j) => a[j].1 == b[j].1,
            None => true,
        },
{
    if rows_of(a) == rows_of(b) {
        assert(a.len() == rows_of(a).len());
        assert forall|j: int| 0 <= j < a.len() implies #[trigger] a[j].0@ == b[j].0@ by {
            assert(rows_of(a)[j] == rows_of(b)[j]);
        }
    }
    assert forall|j: int| 0 <= j < a.len() implies accepts_at(a, event, k, j) == accepts_at(
        b,
        event,
        k,
        j,
    ) by {
        assert(a[j].0@ == b[j].0@);
    }
    if exists|j: int| is_first_accepting(a, event, k, j) {
        let j = choose|j: int| is_first_accepting(a, event, k, j);
        assert forall|m: int| 0 <= m < j implies !#[trigger] accepts_at(b, event, k, m) by {
            assert(!accepts_at(a, event, k, m));
        }
        assert(is_first_accepting(b, event, k, j));
        lemma_first_accepting(a, event, k, j);
        lemma_first_accepting(b, event, k, j);
        if rows_of(a) == rows_of(b) {
            assert(rows_of(a)[j] == rows_of(b)[j]);
        }
    } else if exists|j: int| is_first_accepting(b, event, k, j) {
        let j = choose|j: int| is_first_accepting(b, event, k, j);
        assert forall|m: int| 0 <= m < j implies !#[trigger] accepts_at(a, event, k, m) by {
            assert(!accepts_at(b, event, k, m));
        }
        assert(is_first_accepting(a, event, k, j));
    }
}

/// Any two web tables hold the same activators, so the table an application
/// gets on the web answers every key at the same row as the web table,
/// whatever the platform.
pub proof fn lemma_web_tables_share_activators<C>(
    a: Seq<(ShortcutActivator, Intent<C>)>,
    b: Seq<(ShortcutActivator, Intent<C>)>,
)
    requires
        is_web_table(a),
        is_web_table(b),
    ensures
        same_activators(a, b),
{
    assert forall|j: int| 0 <= j < a.len() implies #[trigger] a[j].0@ == b[j].0@ by {
        if j < 5 {
            assert(rows_of(a).subrange(0, 5)[j] == rows_of(b).subrange(0, 5)[j]);
        } else if j > 5 {
            assert(rows_of(a).subrange(6, 12)[j - 6] == rows_of(b).subrange(6, 12)[j - 6]);
        }
    }
}

/// Whether the intent, if it is a callback, can be called.
pub open spec fn callback_ready<C: Fn()>(intent: Intent<C>) -> bool {
    match intent {
        Intent::VoidCallback { on_call } => on_call.requires(()),
        _ => true,
    }
}

/// A map of activators to plain callbacks: the whole shortcut system in its
/// smallest spelling.
pub struct CallbackShortcuts<C> {
    pub registry: ShortcutRegistry<C>,
    pub callbacks: HashMap<String, C>,
}

impl<C: Fn()> CallbackShortcuts<C> {
    /// Runs the callback the key means, if it means one: only callback
    /// intents can be served here, anything else is not this map's.
    pub fn handle(&self, event: &KeyEvent, keyboard: &Keyboard) -> (r: KeyResult)
        requires
            forall|j: int|
                0 <= j < self.registry@.len() ==> callback_ready(#[trigger] self.registry@[j].1),
        ensures
            r == (match first_accepting(self.registry@, *event, keyboard@) {
                Some(j) => match self.registry@[j].1 {
                    Intent::VoidCallback { .. } => KeyResult::Handled,
                    _ => KeyResult::Ignored,
                },
                None => KeyResult::Ignored,
            }),
            // The callback the key means has run.
            match first_accepting(self.registry@, *event, keyboard@) {
                Some(j) => match self.registry@[j].1 {
                    Intent::VoidCallback { on_call } => on_call.ensures((), ()),
                    _ => true,
                },
                None => true,
            },
    {
        let intent = match self.registry.intent_for(event, keyboard) {
            Some(intent) => intent,
            None => {
                return KeyResult::Ignored;
            },
        };
        proof {
            let j = first_accepting(self.registry@, *event, keyboard@)->0;
            assert(callback_ready(self.registry@[j].1));
        }
        match intent {
            Intent::VoidCallback { on_call } => {
                on_call();
                KeyResult::Handled
            },
            _ => KeyResult::Ignored,
        }
    }
}

/// The name a key has in a shortcut's description, when it has one.
pub open spec fn named_key(key: u64) -> Option<Seq<char>> {
    if key == LogicalKey::CONTROL {
        Some("Control"@)
    } else if key == LogicalKey::CONTROL_LEFT {
        Some("Control Left"@)
    } else if key == LogicalKey::CONTROL_RIGHT {
        Some("Control Right"@)
    } else if key == LogicalKey::SHIFT {
        Some("Shift"@)
    } else if key == LogicalKey::SHIFT_LEFT {
        Some("Shift Left"@)
    } else if key == LogicalKey::SHIFT_RIGHT {
        Some("Shift Right"@)
    } else if key == LogicalKey::ALT {
        Some("Alt"@)
    } else if key == LogicalKey::ALT_LEFT {
        Some("Alt Left"@)
    } else if key == LogicalKey::ALT_RIGHT {
        Some("Alt Right"@)
    } else if key == LogicalKey::META {
        Some("Meta"@)
    } else if key == LogicalKey::META_LEFT {
        Some("Meta Left"@)
    } else if key == LogicalKey::META_RIGHT {
        Some("Meta Right"@)
    } else if key == LogicalKey::ENTER {
        Some("Enter"@)
    } else if key == LogicalKey::ESCAPE {
        Some("Escape"@)
    } else if key == LogicalKey::TAB {
        Some("Tab"@)
    } else if key == LogicalKey::SPACE {
        Some("Space"@)
    } else if key == LogicalKey::BACKSPACE {
        Some("Backspace"@)
    } else if key == LogicalKey::DELETE {
        Some("Delete"@)
    } else if key == LogicalKey::ARROW_LEFT {
        Some("Arrow Left"@)
    } else if key == LogicalKey::ARROW_RIGHT {
        Some("Arrow Right"@)
    } else if key == LogicalKey::ARROW_UP {
        Some("Arrow Up"@)
    } else if key == LogicalKey::ARROW_DOWN {
        Some("Arrow Down"@)
    } else if key == LogicalKey::HOME {
        Some("Home"@)
    } else if key == LogicalKey::END {
        Some("End"@)
    } else {
        None
    }
}

/// Whether a logical key is one of the four modifiers, side or sideless.
pub open spec fn modifier_key(key: u64) -> bool {
    key == LogicalKey::CONTROL || key == LogicalKey::CONTROL_LEFT || key
        == LogicalKey::CONTROL_RIGHT || key == LogicalKey::SHIFT || key == LogicalKey::SHIFT_LEFT
        || key == LogicalKey::SHIFT_RIGHT || key == LogicalKey::ALT || key == LogicalKey::ALT_LEFT
        || key == LogicalKey::ALT_RIGHT || key == LogicalKey::META || key == LogicalKey::META_LEFT
        || key == LogicalKey::META_RIGHT
}

/// A printable ASCII character in upper case.
pub open spec fn ascii_upper(key: u64) -> char {
    if 0x61 <= key <= 0x7a {
        (key - 0x20) as char
    } else {
        key as char
    }
}

/// A logical key as a reader would name it: its name if it has one, a
/// printable ASCII key as its upper-case character, and anything else as its
/// value in hexadecimal, which says plainly that the name is not known.
pub open spec fn key_name(key: u64) -> Seq<char> {
    match named_key(key) {
        Some(name) => name,
        None => if 0x20 <= key < 0x7f {
            seq![ascii_upper(key)]
        } else {
            "0x"@ + hexadecimal(key as nat)
        },
    }
}

/// `text` when the modifier is demanded, nothing otherwise.
pub open spec fn modifier_part(demanded: bool, text: Seq<char>) -> Seq<char> {
    if demanded {
        text
    } else {
        Seq::empty()
    }
}

/// Whether text `a` sorts before text `b`, character by character.
pub open spec fn text_less(a: Seq<char>, b: Seq<char>) -> bool
    decreases a.len(),
{
    if a.len() == 0 {
        b.len() > 0
    } else if b.len() == 0 {
        false
    } else if a[0] != b[0] {
        (a[0] as u32) < (b[0] as u32)
    } else {
        text_less(a.drop_first(), b.drop_first())
    }
}

/// Whether described key `a` prints before `b`: modifiers first, then by
/// name.
pub open spec fn prints_before(a: (bool, Seq<char>), b: (bool, Seq<char>)) -> bool {
    (a.0 && !b.0) || (a.0 == b.0 && text_less(a.1, b.1))
}

/// `x` placed into `sorted` after every element it does not print before.
pub open spec fn insert_described(sorted: Seq<(bool, Seq<char>)>, x: (bool, Seq<char>)) -> Seq<
    (bool, Seq<char>),
>
    decreases sorted.len(),
{
    if sorted.len() == 0 {
        seq![x]
    } else if prints_before(x, sorted[0]) {
        seq![x] + sorted
    } else {
        seq![sorted[0]] + insert_described(sorted.drop_first(), x)
    }
}

/// The stable sort of described keys into print order.
pub open spec fn print_order(described: Seq<(bool, Seq<char>)>) -> Seq<(bool, Seq<char>)>
    decreases described.len(),
{
    if described.len() == 0 {
        described
    } else {
        insert_described(print_order(described.drop_last()), described.last())
    }
}

/// The names of described keys joined with `" + "`.
pub open spec fn joined_names(described: Seq<(bool, Seq<char>)>) -> Seq<char>
    decreases described.len(),
{
    if described.len() == 0 {
        Seq::empty()
    } else if described.len() == 1 {
        described[0].1
    } else {
        joined_names(described.drop_last()) + " + "@ + described.last().1
    }
}

/// Each key of a set with whether it is a modifier and its name.
pub open spec fn described_keys(keys: Seq<u64>) -> Seq<(bool, Seq<char>)> {
    keys.map_values(|key: u64| (modifier_key(key), key_name(key)))
}

/// A shortcut as a reader would say it. The modifier order is not the same
/// for all three: a single activator says Control, Alt, Meta, Shift; a
/// character activator says Control and whether it wants a single modifier,
/// and has no shift, since a character already carries whether shift was
/// involved; a key set puts the modifiers first and then sorts by name, so
/// that the same set written two ways prints one way.
pub open spec fn describe_activator(a: ActivatorView) -> Seq<char> {
    match a {
        ActivatorView::Single { key, control, shift, alt, meta, .. } => modifier_part(
            control,
            "Control + "@,
        ) + modifier_part(alt, "Alt + "@) + modifier_part(meta, "Meta + "@) + modifier_part(
            shift,
            "Shift + "@,
        ) + key_name(key),
        ActivatorView::Character { character, control, single_modifier } => modifier_part(
            control,
            "Control + "@,
        ) + modifier_part(single_modifier, "Modifier + "@) + seq!['\'', character, '\''],
        ActivatorView::KeySet(keys) => joined_names(print_order(described_keys(keys))),
    }
}

/// The name of a key, when it has one.
fn named_key_text(key: u64) -> (r: Option<&'static str>)
    ensures
        match r {
            Some(text) => named_key(key) == Some(text@),
            None => named_key(key) is None,
        },
{
    if key == LogicalKey::CONTROL {
        Some("Control")
    } else if key == LogicalKey::CONTROL_LEFT {
        Some("Control Left")
    } else if key == LogicalKey::CONTROL_RIGHT {
        Some("Control Right")
    } else if key == LogicalKey::SHIFT {
        Some("Shift")
    } else if key == LogicalKey::SHIFT_LEFT {
        Some("Shift Left")
    } else if key == LogicalKey::SHIFT_RIGHT {
        Some("Shift Right")
    } else if key == LogicalKey::ALT {
        Some("Alt")
    } else if key == LogicalKey::ALT_LEFT {
        Some("Alt Left")
    } else if key == LogicalKey::ALT_RIGHT {
        Some("Alt Right")
    } else if key == LogicalKey::META {
        Some("Meta")
    } else if key == LogicalKey::META_LEFT {
        Some("Meta Left")
    } else if key == LogicalKey::META_RIGHT {
        Some("Meta Right")
    } else if key == LogicalKey::ENTER {
        Some("Enter")
    } else if key == LogicalKey::ESCAPE {
        Some("Escape")
    } else if key == LogicalKey::TAB {
        Some("Tab")
    } else if key == LogicalKey::SPACE {
        Some("Space")
    } else if key == LogicalKey::BACKSPACE {
        Some("Backspace")
    } else if key == LogicalKey::DELETE {
        Some("Delete")
    } else if key == LogicalKey::ARROW_LEFT {
        Some("Arrow Left")
    } else if key == LogicalKey::ARROW_RIGHT {
        Some("Arrow Right")
    } else if key == LogicalKey::ARROW_UP {
        Some("Arrow Up")
    } else if key == LogicalKey::ARROW_DOWN {
        Some("Arrow Down")
    } else if key == LogicalKey::HOME {
        Some("Home")
    } else if key == LogicalKey::END {
        Some("End")
    } else {
        None
    }
}

/// Whether a logical key is a modifier, for the key-set sort.
fn is_modifier(key: u64) -> (r: bool)
    ensures
        r == modifier_key(key),
{
    key == LogicalKey::CONTROL || key == LogicalKey::CONTROL_LEFT || key
        == LogicalKey::CONTROL_RIGHT || key == LogicalKey::SHIFT || key == LogicalKey::SHIFT_LEFT
        || key == LogicalKey::SHIFT_RIGHT || key == LogicalKey::ALT || key == LogicalKey::ALT_LEFT
        || key == LogicalKey::ALT_RIGHT || key == LogicalKey::META || key == LogicalKey::META_LEFT
        || key == LogicalKey::META_RIGHT
}

/// A logical key as a reader would name it.
fn describe_key(key: u64) -> (r: String)
    ensures
        r@ == key_name(key),
{
    match named_key_text(key) {
        Some(name) => owned(name),
        None => {
            let mut out = String::new();
            if 0x20 <= key && key < 0x7f {
                let code: u8 = if 0x61 <= key && key <= 0x7a {
                    (key - 0x20) as u8
                } else {
                    key as u8
                };
                push_char(&mut out, code as char);
                assert(out@ =~= seq![ascii_upper(key)]);
            } else {
                append_str(&mut out, "0x");
                push_hexadecimal(&mut out, key);
            }
            out
        },
    }
}

/// Whether text `a` sorts before text `b`.
fn text_less_exec(a: &String, b: &String) -> (r: bool)
    ensures
        r == text_less(a@, b@),
{
    let x = chars_of(a.as_str());
    let y = chars_of(b.as_str());
    let mut i: usize = 0;
    proof {
        assert(a@.subrange(0, a@.len() as int) =~= a@);
        assert(b@.subrange(0, b@.len() as int) =~= b@);
    }
    while i < x.len() && i < y.len() && x[i] == y[i]
        invariant
            i <= x@.len(),
            i <= y@.len(),
            x@ == a@,
            y@ == b@,
            text_less(a@, b@) == text_less(
                a@.subrange(i as int, a@.len() as int),
                b@.subrange(i as int, b@.len() as int),
            ),
        decreases x@.len() - i,
    {
        proof {
            let ra = a@.subrange(i as int, a@.len() as int);
            let rb = b@.subrange(i as int, b@.len() as int);
            assert(ra.drop_first() =~= a@.subrange(i + 1, a@.len() as int));
            assert(rb.drop_first() =~= b@.subrange(i + 1, b@.len() as int));
        }
        i = i + 1;
    }
    proof {
        assert(a@.subrange(0, a@.len() as int) =~= a@);
        assert(b@.subrange(0, b@.len() as int) =~= b@);
    }
    if i == x.len() {
        i < y.len()
    } else if i == y.len() {
        false
    } else {
        (x[i] as u32) < (y[i] as u32)
    }
}

/// Where `x` goes in `sorted`: before the first element it prints before.
proof fn lemma_insert_described_at(sorted: Seq<(bool, Seq<char>)>, x: (bool, Seq<char>), at: int)
    requires
        0 <= at <= sorted.len(),
        forall|m: int| 0 <= m < at ==> !prints_before(x, #[trigger] sorted[m]),
        at < sorted.len() ==> prints_before(x, sorted[at]),
    ensures
        insert_described(sorted, x) == sorted.insert(at, x),
    decreases sorted.len(),
{
    if sorted.len() == 0 {
        assert(sorted.insert(at, x) =~= seq![x]);
    } else if at == 0 {
        assert(sorted.insert(at, x) =~= seq![x] + sorted);
    } else {
        let rest = sorted.drop_first();
        assert forall|m: int| 0 <= m < at - 1 implies !prints_before(x, #[trigger] rest[m]) by {
            assert(rest[m] == sorted[m + 1]);
        }
        lemma_insert_described_at(rest, x, at - 1);
        assert(sorted.insert(at, x) =~= seq![sorted[0]] + rest.insert(at - 1, x));
    }
}

/// The views of a list of described keys.
pub open spec fn described_view(v: Seq<(bool, String)>) -> Seq<(bool, Seq<char>)> {
    v.map_values(|e: (bool, String)| (e.0, e.1@))
}

impl ShortcutActivator {
    /// The shortcut as a reader would say it.
    pub fn debug_describe_keys(&self) -> (r: String)
        ensures
            r@ == describe_activator(self@),
    {
        match self {
            ShortcutActivator::Single { key, control, shift, alt, meta, .. } => {
                let mut out = String::new();
                if *control {
                    append_str(&mut out, "Control + ");
                }
                if *alt {
                    append_str(&mut out, "Alt + ");
                }
                if *meta {
                    append_str(&mut out, "Meta + ");
                }
                if *shift {
                    append_str(&mut out, "Shift + ");
                }
                let name = describe_key(*key);
                append_str(&mut out, name.as_str());
                assert(out@ =~= describe_activator(self@));
                out
            },
            ShortcutActivator::Character { character, control, single_modifier } => {
                let mut out = String::new();
                if *control {
                    append_str(&mut out, "Control + ");
                }
                if *single_modifier {
                    append_str(&mut out, "Modifier + ");
                }
                push_char(&mut out, '\'');
                push_char(&mut out, *character);
                push_char(&mut out, '\'');
                assert(out@ =~= describe_activator(self@));
                out
            },
            ShortcutActivator::KeySet(set) => {
                let ghost keys = set.keys@;
                // Modifiers first, then by name; a stable insertion keeps keys
                // that print alike in the order the set holds them.
                let mut sorted: Vec<(bool, String)> = Vec::new();
                let mut i: usize = 0;
                while i < set.keys.len()
                    invariant
                        keys == set.keys@,
                        i <= keys.len(),
                        described_view(sorted@) == print_order(
                            described_keys(keys.subrange(0, i as int)),
                        ),
                    decreases keys.len() - i,
                {
                    let key = set.keys[i];
                    let flag = is_modifier(key);
                    let name = describe_key(key);
                    let ghost x = (flag, name@);
                    let ghost view = described_view(sorted@);
                    let mut at: usize = 0;
                    while at < sorted.len() && !(flag && !sorted[at].0 || flag == sorted[at].0
                        && text_less_exec(&name, &sorted[at].1))
                        invariant
                            view == described_view(sorted@),
                            x == (flag, name@),
                            at <= sorted@.len(),
                            forall|m: int| 0 <= m < at ==> !prints_before(x, #[trigger] view[m]),
                        decreases sorted@.len() - at,
                    {
                        at = at + 1;
                    }
                    proof {
                        lemma_insert_described_at(view, x, at as int);
                        let d = described_keys(keys.subrange(0, i + 1));
                        assert(d.drop_last() =~= described_keys(keys.subrange(0, i as int)));
                        assert(d.last() == x);
                    }
                    sorted.insert(at, (flag, name));
                    proof {
                        assert(described_view(sorted@) =~= view.insert(at as int, x));
                    }
                    i = i + 1;
                }
                proof {
                    assert(keys.subrange(0, keys.len() as int) =~= keys);
                }
                let ghost order = described_view(sorted@);
                let mut out = String::new();
                let mut j: usize = 0;
                while j < sorted.len()
                    invariant
                        order == described_view(sorted@),
                        j <= sorted@.len(),
                        out@ == joined_names(order.subrange(0, j as int)),
                    decreases sorted@.len() - j,
                {
                    if j > 0 {
                        append_str(&mut out, " + ");
                    }
                    append_str(&mut out, sorted[j].1.as_str());
                    proof {
                        let part = order.subrange(0, j + 1);
                        assert(part.drop_last() =~= order.subrange(0, j as int));
                        if j == 0 {
                            assert(out@ =~= joined_names(part));
                        } else {
                            assert(out@ =~= joined_names(part));
                        }
                    }
                    j = j + 1;
                }
                proof {
                    assert(order.subrange(0, order.len() as int) =~= order);
                }
                out
            },
        }
    }
}

/// The text of one entry of a shortcut map: `{keys}: intent`.
pub open spec fn entry_text(entry: (ActivatorView, Seq<char>)) -> Seq<char> {
    "{"@ + describe_activator(entry.0) + "}: "@ + entry.1
}

/// The entries of a shortcut map, comma-separated.
pub open spec fn entries_text(entries: Seq<(ActivatorView, Seq<char>)>) -> Seq<char>
    decreases entries.len(),
{
    if entries.len() == 0 {
        Seq::empty()
    } else if entries.len() == 1 {
        entry_text(entries[0])
    } else {
        entries_text(entries.drop_last()) + ", "@ + entry_text(entries.last())
    }
}

/// A shortcut map printed: `{{keys}: intent, {keys}: intent}`, the outer
/// braces for the map and the inner ones for each activator's keys.
pub open spec fn map_text(entries: Seq<(ActivatorView, Seq<char>)>) -> Seq<char> {
    "{"@ + entries_text(entries) + "}"@
}

/// A shortcut map's entries as the contracts see them.
pub open spec fn property_entries(entries: Seq<(ShortcutActivator, &'static str)>) -> Seq<
    (ActivatorView, Seq<char>),
> {
    entries.map_values(|e: (ShortcutActivator, &'static str)| (e.0@, e.1@))
}

/// A copy of an activator.
fn copy_activator(a: &ShortcutActivator) -> (r: ShortcutActivator)
    ensures
        r@ == a@,
{
    match a {
        ShortcutActivator::KeySet(set) => {
            let mut keys: Vec<u64> = Vec::new();
            let mut i: usize = 0;
            while i < set.keys.len()
                invariant
                    i <= set.keys@.len(),
                    keys@ == set.keys@.subrange(0, i as int),
                decreases set.keys@.len() - i,
            {
                keys.push(set.keys[i]);
                i = i + 1;
                assert(keys@ =~= set.keys@.subrange(0, i as int));
            }
            assert(keys@ =~= set.keys@);
            ShortcutActivator::KeySet(LogicalKeySet { keys })
        },
        ShortcutActivator::Single { key, control, shift, alt, meta, num_lock } =>
            ShortcutActivator::Single {
            key: *key,
            control: *control,
            shift: *shift,
            alt: *alt,
            meta: *meta,
            num_lock: *num_lock,
        },
        ShortcutActivator::Character { character, control, single_modifier } =>
            ShortcutActivator::Character {
            character: *character,
            control: *control,
            single_modifier: *single_modifier,
        },
    }
}

/// A shortcut map as a diagnostics property, printed so that each activator
/// reads as the keys a reader would type.
pub struct ShortcutMapProperty {
    pub name: String,
    /// Each activator with the name of the action its intent asks for.
    pub entries: Vec<(ShortcutActivator, &'static str)>,
}

impl ShortcutMapProperty {
    pub fn new(name: &str, entries: Vec<(ShortcutActivator, &'static str)>) -> (r:
        ShortcutMapProperty)
        ensures
            r.name@ == name@,
            r.entries@ == entries@,
    {
        ShortcutMapProperty { name: owned(name), entries }
    }

    /// The same property, taken from a live registry.
    pub fn from_registry<C>(name: &str, registry: &ShortcutRegistry<C>) -> (r: ShortcutMapProperty)
        ensures
            r.name@ == name@,
            property_entries(r.entries@) == registry@.map_values(
                |e: (ShortcutActivator, Intent<C>)| (e.0@, intent_name(e.1)),
            ),
    {
        let mut entries: Vec<(ShortcutActivator, &'static str)> = Vec::new();
        let mut i: usize = 0;
        while i < registry.entries.len()
            invariant
                i <= registry@.len(),
                property_entries(entries@) == registry@.subrange(0, i as int).map_values(
                    |e: (ShortcutActivator, Intent<C>)| (e.0@, intent_name(e.1)),
                ),
            decreases registry@.len() - i,
        {
            let activator = copy_activator(&registry.entries[i].0);
            let intent = registry.entries[i].1.action_name();
            let ghost before = entries@;
            entries.push((activator, intent));
            proof {
                assert(property_entries(entries@) =~= property_entries(before).push(
                    (registry@[i as int].0@, intent_name(registry@[i as int].1)),
                ));
                assert(registry@.subrange(0, i + 1) =~= registry@.subrange(0, i as int).push(
                    registry@[i as int],
                ));
            }
            i = i + 1;
            assert(property_entries(entries@) =~= registry@.subrange(0, i as int).map_values(
                |e: (ShortcutActivator, Intent<C>)| (e.0@, intent_name(e.1)),
            ));
        }
        assert(registry@.subrange(0, registry@.len() as int) =~= registry@);
        ShortcutMapProperty { name: owned(name), entries }
    }

    /// The map printed: `{{keys}: intent, {keys}: intent}`.
    pub fn value_to_string(&self) -> (r: String)
        ensures
            r@ == map_text(property_entries(self.entries@)),
    {
        let ghost entries = property_entries(self.entries@);
        let mut body = String::new();
        let mut i: usize = 0;
        while i < self.entries.len()
            invariant
                entries == property_entries(self.entries@),
                i <= entries.len(),
                body@ == entries_text(entries.subrange(0, i as int)),
            decreases entries.len() - i,
        {
            if i > 0 {
                append_str(&mut body, ", ");
            }
            append_str(&mut body, "{");
            let keys = self.entries[i].0.debug_describe_keys();
            append_str(&mut body, keys.as_str());
            append_str(&mut body, "}: ");
            append_str(&mut body, self.entries[i].1);
            proof {
                let part = entries.subrange(0, i + 1);
                assert(part.drop_last() =~= entries.subrange(0, i as int));
                assert(body@ =~= entries_text(part));
            }
            i = i + 1;
        }
        proof {
            assert(entries.subrange(0, entries.len() as int) =~= entries);
        }
        let mut out = String::new();
        append_str(&mut out, "{");
        append_str(&mut out, body.as_str());
        append_str(&mut out, "}");
        assert(out@ =~= map_text(entries));
        out
    }

    /// The diagnostics property this stands for.
    pub fn property(&self) -> (r: DiagnosticsProperty)
        ensures
            r.name matches Some(name) && name@ == self.name@,
            r.value matches PropertyValue::Text(text) && text@ == map_text(
                property_entries(self.entries@),
            ),
    {
        DiagnosticsProperty::new(Some(self.name.clone()), PropertyValue::Text(self.value_to_string()))
    }
}

/// **`Ignored` is not `Unlocked`**: a shortcut that ignores the lock fires
/// whether it is on or off, while `Locked` and `Unlocked` never agree.
pub proof fn lemma_ignored_is_not_unlocked(is_locked: bool)
    ensures
        lock_matches(LockState::Ignored, is_locked),
        lock_matches(LockState::Locked, is_locked) != lock_matches(LockState::Unlocked, is_locked),
        lock_matches(LockState::Unlocked, true) != lock_matches(LockState::Ignored, true),
{
}

/// Two spellings of one set of keys are one key set: key sets built from
/// lists holding the same keys, in whatever order and with whatever repeats,
/// hold the same keys in the same order, and so describe themselves alike.
pub proof fn lemma_two_spellings_one_set(a: Seq<u64>, b: Seq<u64>, x: Seq<u64>, y: Seq<u64>)
    requires
        strictly_ascending(x),
        strictly_ascending(y),
        forall|k: u64| x.contains(k) <==> a.contains(k),
        forall|k: u64| y.contains(k) <==> b.contains(k),
        forall|k: u64| a.contains(k) <==> b.contains(k),
    ensures
        x == y,
        describe_activator(ActivatorView::KeySet(x)) == describe_activator(ActivatorView::KeySet(y)),
{
    lemma_ascending_same_keys(x, y);
}

} // verus!
