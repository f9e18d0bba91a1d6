//! The decisions of the fused tap-and-drag recogniser that need no geometry:
//! how many taps in a row this is, where a drag says it started, which axis
//! counts, and whether shift was held when a tap sequence began.
//!
//! The count is the whole point of the fused recogniser: one tap places a
//! caret, two select a word, three a paragraph. Positions stay with the
//! caller, who measures them; the tracker receives the two answers it needs
//! of them with each event, and decides everything else.

use vstd::prelude::*;

verus! {

/// Which position a drag says it started from.
#[derive(Clone, Copy, Debug, PartialEq, Eq, Structural)]
pub enum DragStartBehavior {
    /// The default: where the pointer was when the recogniser won the arena.
    Start,
    /// Where the first down event was. The two differ only when something
    /// else was competing.
    Down,
}

impl Default for DragStartBehavior {
    fn default() -> (r: DragStartBehavior)
        ensures
            r == DragStartBehavior::Start,
    {
        DragStartBehavior::Start
    }
}

/// Which axis a recogniser counts movement along, and against which slop.
#[derive(Clone, Copy, Debug, PartialEq, Eq, Structural)]
pub enum TapDragAxis {
    /// Only the horizontal component counts, against the hit slop.
    Horizontal,
    /// The whole movement counts, against the pan slop, which is twice as far.
    Pan,
}

/// Whether shift was held, **sampled once when a tap sequence begins** and
/// held for the whole of it. A reader who presses shift after putting a finger
/// down does not turn a tap into an extend, and one who lets go of shift
/// mid-drag keeps extending; reading the keyboard at each event instead would
/// change the meaning of a gesture underneath the reader's hand.
#[derive(Clone, Copy, Debug, PartialEq, Eq, Structural)]
pub struct TapSequenceShift {
    pressed: bool,
}

impl Default for TapSequenceShift {
    fn default() -> (r: TapSequenceShift)
        ensures
            !r@,
    {
        TapSequenceShift { pressed: false }
    }
}

impl View for TapSequenceShift {
    type V = bool;

    closed spec fn view(&self) -> bool {
        self.pressed
    }
}

impl TapSequenceShift {
    pub fn new() -> (r: TapSequenceShift)
        ensures
            !r@,
    {
        TapSequenceShift { pressed: false }
    }

    /// The sequence begins: read the keyboard once, now.
    pub fn sample(&mut self, shift_held_now: bool)
        ensures
            final(self)@ == shift_held_now,
    {
        self.pressed = shift_held_now;
    }

    /// The sequence is over, so the answer expires: cleared rather than
    /// re-read, since between sequences there is no sequence to describe.
    pub fn reset(&mut self)
        ensures
            !final(self)@,
    {
        self.pressed = false;
    }

    /// What the gesture acts on: the sample, never the keyboard.
    pub fn is_pressed(&self) -> (r: bool)
        ensures
            r == self@,
    {
        self.pressed
    }
}

/// How long a lifted finger may rest before the next tap no longer continues
/// the series, in microseconds.
pub const DOUBLE_TAP_TIMEOUT_MICROS: i64 = 300_000;

/// What happened to a pointer, as far as the tap count cares.
#[derive(Clone, Copy, Debug, PartialEq, Eq, Structural)]
pub enum TapPointerChange {
    Down,
    Move,
    Up,
    Cancel,
    /// Anything else (hover, scroll): the tracker ignores it.
    Other,
}

/// A pointer event as the tap tracker reads it.
///
/// The two geometric answers are measured by the caller against the position
/// of the last down event it handed to [`TapStatusTracker::add_pointer`].
#[derive(Clone, Copy, Debug, PartialEq, Eq, Structural)]
pub struct TapPointer {
    pub change: TapPointerChange,
    pub buttons: i32,
    pub time_stamp_micros: i64,
    /// Whether the event lies within the double-tap slop of that position.
    pub near_last_tap: bool,
    /// Whether the event lies further than the hit slop from that position.
    pub past_hit_slop: bool,
}

/// The timer between taps. Its three states are all meaningful: a stopped
/// timer and one that has run out are different things, because **expiry
/// resets nothing by itself** -- the timer may run out before a tap down or
/// tap up has been reported, and resetting there would throw away state a
/// callback still needs. The expiry is noticed lazily, at the next down.
#[derive(Clone, Copy, Debug, PartialEq, Eq, Structural)]
pub enum TapTimer {
    Stopped,
    /// Running until the given time stamp.
    Running(i64),
    Expired,
}

/// The two moments a tap sequence has hooks for. The tracker reports which
/// occurred, in order; whoever holds the hooks runs them.
#[derive(Clone, Copy, Debug, PartialEq, Eq, Structural)]
pub enum TapTrackHook {
    /// A tap was taken on as the latest of its series.
    Start,
    /// The series was abandoned.
    Reset,
}

/// How many taps in a row this is.
pub struct TapStatusTracker {
    /// `None` lets the count grow without limit; a value resets the series
    /// when the count reaches it, so a quadruple tap on a field that only
    /// understands three starts over rather than reporting a fourth nobody
    /// handles.
    pub max_consecutive_tap: Option<u32>,
    consecutive_tap_count: u32,
    down: Option<TapPointer>,
    up: Option<TapPointer>,
    has_origin: bool,
    previous_buttons: Option<i32>,
    has_last_tap: bool,
    timer: TapTimer,
}

/// The tracker as the contracts see it.
pub struct TapTrackerView {
    pub max_consecutive_tap: Option<u32>,
    pub count: int,
    pub down: Option<TapPointer>,
    pub up: Option<TapPointer>,
    /// Whether a series origin is held, for measuring a drag.
    pub has_origin: bool,
    pub previous_buttons: Option<i32>,
    /// Whether the last tap's position is held, for joining the next tap on.
    pub has_last_tap: bool,
    pub timer: TapTimer,
}

/// The series abandoned: nothing is held and the count is zero.
pub open spec fn tracker_reset(v: TapTrackerView) -> TapTrackerView {
    TapTrackerView {
        max_consecutive_tap: v.max_consecutive_tap,
        count: 0,
        down: None,
        up: None,
        has_origin: false,
        previous_buttons: None,
        has_last_tap: false,
        timer: TapTimer::Stopped,
    }
}

/// Whether a down joins the series: three conditions, all required -- the
/// timer was started by a lifted finger, the tap is near the last one, and
/// it uses the same buttons.
pub open spec fn same_series(v: TapTrackerView, e: TapPointer) -> bool {
    &&& v.timer != TapTimer::Stopped
    &&& v.has_last_tap
    &&& e.near_last_tap
    &&& v.previous_buttons == Some(e.buttons)
}

/// Before a down is counted: an expired timer ends the series.
pub open spec fn after_expiry_check(v: TapTrackerView) -> TapTrackerView {
    if v.timer == TapTimer::Expired { tracker_reset(v) } else { v }
}

/// Then a count that has reached the cap ends it too.
pub open spec fn after_cap_check(v: TapTrackerView) -> TapTrackerView {
    let w = after_expiry_check(v);
    if w.max_consecutive_tap == Some(w.count as u32) && 0 <= w.count <= u32::MAX {
        tracker_reset(w)
    } else {
        w
    }
}

/// The count a down gets: one more if it continues the series (or nothing is
/// held), one if it starts a new one.
pub open spec fn added_count(v: TapTrackerView, e: TapPointer) -> int {
    let w = after_cap_check(v);
    if w.down is Some && !same_series(w, e) { 1 } else { w.count + 1 }
}

/// The tracker after a down is added.
pub open spec fn tracker_after_add(v: TapTrackerView, e: TapPointer) -> TapTrackerView {
    let w = after_cap_check(v);
    TapTrackerView {
        max_consecutive_tap: w.max_consecutive_tap,
        count: added_count(v, e),
        down: Some(e),
        up: None,
        has_origin: true,
        previous_buttons: Some(e.buttons),
        has_last_tap: true,
        timer: TapTimer::Stopped,
    }
}

/// The hooks a down fires, in order: a reset for each check that ended the
/// series, then the start of the tap.
pub open spec fn hooks_of_add(v: TapTrackerView) -> Seq<TapTrackHook> {
    let w = after_expiry_check(v);
    let first: Seq<TapTrackHook> = if v.timer == TapTimer::Expired {
        seq![TapTrackHook::Reset]
    } else {
        seq![]
    };
    let second: Seq<TapTrackHook> = if w.max_consecutive_tap == Some(w.count as u32) && 0 <= w.count
        <= u32::MAX {
        seq![TapTrackHook::Reset]
    } else {
        seq![]
    };
    first + second + seq![TapTrackHook::Start]
}

/// The tracker after any other event.
pub open spec fn tracker_after_event(v: TapTrackerView, e: TapPointer) -> TapTrackerView {
    match e.change {
        TapPointerChange::Move => {
            if v.has_origin && e.past_hit_slop {
                // A drag breaks the run: the count is left alone, but the two
                // things that would let the next tap join this series go.
                TapTrackerView {
                    timer: TapTimer::Stopped,
                    previous_buttons: None,
                    has_last_tap: false,
                    ..v
                }
            } else {
                v
            }
        },
        TapPointerChange::Up => TapTrackerView {
            up: Some(e),
            timer: if v.down is Some {
                TapTimer::Running((e.time_stamp_micros + DOUBLE_TAP_TIMEOUT_MICROS) as i64)
            } else {
                v.timer
            },
            ..v
        },
        TapPointerChange::Cancel => tracker_reset(v),
        _ => v,
    }
}

/// The timer after the clock reads `now`.
pub open spec fn timer_after_tick(t: TapTimer, now: i64) -> TapTimer {
    match t {
        TapTimer::Running(deadline) => if now >= deadline { TapTimer::Expired } else { t },
        _ => t,
    }
}

impl TapStatusTracker {
    pub closed spec fn view(&self) -> TapTrackerView {
        TapTrackerView {
            max_consecutive_tap: self.max_consecutive_tap,
            count: self.consecutive_tap_count as int,
            down: self.down,
            up: self.up,
            has_origin: self.has_origin,
            previous_buttons: self.previous_buttons,
            has_last_tap: self.has_last_tap,
            timer: self.timer,
        }
    }

    /// What every operation keeps: an origin is held exactly while a down
    /// is, the last tap only alongside the origin, and a tracker holding no
    /// down counts nothing.
    pub open spec fn wf(&self) -> bool {
        tracker_wf(self.view())
    }

    pub fn new() -> (r: TapStatusTracker)
        ensures
            r.wf(),
            r.view() == tracker_reset(r.view()),
            r.view().max_consecutive_tap is None,
    {
        TapStatusTracker {
            max_consecutive_tap: None,
            consecutive_tap_count: 0,
            down: None,
            up: None,
            has_origin: false,
            previous_buttons: None,
            has_last_tap: false,
            timer: TapTimer::Stopped,
        }
    }

    /// Zero when no series is being tracked.
    pub fn consecutive_tap_count(&self) -> (r: u32)
        ensures
            r == self.view().count,
    {
        self.consecutive_tap_count
    }

    pub fn current_down(&self) -> (r: Option<&TapPointer>)
        ensures
            (r is Some) == (self.view().down is Some),
            r is Some ==> *r->0 == self.view().down->0,
    {
        match &self.down {
            Some(e) => Some(e),
            None => None,
        }
    }

    pub fn current_up(&self) -> (r: Option<&TapPointer>)
        ensures
            (r is Some) == (self.view().up is Some),
            r is Some ==> *r->0 == self.view().up->0,
    {
        match &self.up {
            Some(e) => Some(e),
            None => None,
        }
    }

    pub fn timer(&self) -> (r: TapTimer)
        ensures
            r == self.view().timer,
    {
        self.timer
    }

    /// A pointer went down: count it, either as the next of the series or
    /// as the first of a new one.
    pub fn add_pointer(&mut self, event: &TapPointer) -> (hooks: Vec<TapTrackHook>)
        requires
            old(self).wf(),
            added_count(old(self).view(), *event) <= u32::MAX,
        ensures
            final(self).wf(),
            final(self).view() == tracker_after_add(old(self).view(), *event),
            hooks@ == hooks_of_add(old(self).view()),
    {
        let mut hooks: Vec<TapTrackHook> = Vec::new();
        if self.timer == TapTimer::Expired {
            self.clear();
            hooks.push(TapTrackHook::Reset);
        }
        let capped = match self.max_consecutive_tap {
            Some(max) => max == self.consecutive_tap_count,
            None => false,
        };
        if capped {
            self.clear();
            hooks.push(TapTrackHook::Reset);
        }
        self.up = None;
        if self.down.is_some() && !self.represents_same_series(event) {
            self.consecutive_tap_count = 1;
        } else {
            self.consecutive_tap_count = self.consecutive_tap_count + 1;
        }
        self.timer = TapTimer::Stopped;
        self.down = Some(*event);
        self.previous_buttons = Some(event.buttons);
        self.has_last_tap = true;
        self.has_origin = true;
        hooks.push(TapTrackHook::Start);
        proof {
            assert(hooks@ =~= hooks_of_add(old(self).view()));
        }
        hooks
    }

    /// Any other event of a tracked pointer: a drag breaks the run, a lift
    /// starts the timer, a cancel abandons the series.
    pub fn handle_event(&mut self, event: &TapPointer) -> (hooks: Vec<TapTrackHook>)
        requires
            old(self).wf(),
            event.change == TapPointerChange::Up && old(self).view().down is Some
                ==> event.time_stamp_micros + DOUBLE_TAP_TIMEOUT_MICROS <= i64::MAX,
        ensures
            final(self).wf(),
            final(self).view() == tracker_after_event(old(self).view(), *event),
            hooks@ == (if event.change == TapPointerChange::Cancel {
                seq![TapTrackHook::Reset]
            } else {
                Seq::<TapTrackHook>::empty()
            }),
    {
        let mut hooks: Vec<TapTrackHook> = Vec::new();
        match event.change {
            TapPointerChange::Move => {
                if self.has_origin && event.past_hit_slop {
                    self.timer = TapTimer::Stopped;
                    self.previous_buttons = None;
                    self.has_last_tap = false;
                }
            },
            TapPointerChange::Up => {
                self.up = Some(*event);
                if self.down.is_some() {
                    self.timer = TapTimer::Running(
                        event.time_stamp_micros + DOUBLE_TAP_TIMEOUT_MICROS,
                    );
                }
            },
            TapPointerChange::Cancel => {
                self.clear();
                hooks.push(TapTrackHook::Reset);
            },
            _ => {},
        }
        proof {
            assert(hooks@ =~= (if event.change == TapPointerChange::Cancel {
                seq![TapTrackHook::Reset]
            } else {
                Seq::<TapTrackHook>::empty()
            }));
        }
        hooks
    }

    /// Walks the between-taps timer. Returns whether one is still running.
    /// Expiring does **not** reset anything.
    pub fn tick(&mut self, now_micros: i64) -> (running: bool)
        requires
            old(self).wf(),
        ensures
            final(self).wf(),
            final(self).view() == (TapTrackerView {
                timer: timer_after_tick(old(self).view().timer, now_micros),
                ..old(self).view()
            }),
            running == final(self).view().timer is Running,
    {
        if let TapTimer::Running(deadline) = self.timer {
            if now_micros >= deadline {
                self.timer = TapTimer::Expired;
            }
        }
        match self.timer {
            TapTimer::Running(_) => true,
            _ => false,
        }
    }

    fn represents_same_series(&self, event: &TapPointer) -> (r: bool)
        ensures
            r == same_series(self.view(), *event),
    {
        self.timer != TapTimer::Stopped && self.has_last_tap && event.near_last_tap
            && self.previous_buttons == Some(event.buttons)
    }

    fn clear(&mut self)
        ensures
            final(self).view() == tracker_reset(old(self).view()),
    {
        self.timer = TapTimer::Stopped;
        self.previous_buttons = None;
        self.has_origin = false;
        self.has_last_tap = false;
        self.consecutive_tap_count = 0;
        self.down = None;
        self.up = None;
    }

    /// The series is abandoned.
    pub fn reset(&mut self) -> (hooks: Vec<TapTrackHook>)
        requires
            old(self).wf(),
        ensures
            final(self).wf(),
            final(self).view() == tracker_reset(old(self).view()),
            hooks@ == seq![TapTrackHook::Reset],
    {
        self.clear();
        let mut hooks: Vec<TapTrackHook> = Vec::new();
        hooks.push(TapTrackHook::Reset);
        proof {
            assert(hooks@ =~= seq![TapTrackHook::Reset]);
        }
        hooks
    }
}

/// The well-formedness every operation keeps.
pub open spec fn tracker_wf(v: TapTrackerView) -> bool {
    &&& 0 <= v.count <= u32::MAX
    &&& v.has_origin == (v.down is Some)
    &&& v.has_last_tap ==> v.has_origin
    &&& v.down is None ==> v.count == 0
}

/// A drag breaks the run: once a tracked finger has moved past the hit slop,
/// the next down starts a new series, whatever it looks like.
pub proof fn lemma_a_drag_breaks_the_run(v: TapTrackerView, drag: TapPointer, next: TapPointer)
    requires
        tracker_wf(v),
        v.has_origin,
        drag.change == TapPointerChange::Move,
        drag.past_hit_slop,
    ensures
        added_count(tracker_after_event(v, drag), next) == 1,
{
}

/// A cap bounds the count: with a cap of at least one, a tracker within it
/// stays within it whatever down comes next, because reaching the cap starts
/// a new series rather than counting past it.
pub proof fn lemma_the_cap_bounds_the_count(v: TapTrackerView, e: TapPointer, cap: u32)
    requires
        tracker_wf(v),
        v.max_consecutive_tap == Some(cap),
        cap >= 1,
        v.count <= cap,
    ensures
        1 <= tracker_after_add(v, e).count <= cap,
        v.count == cap ==> tracker_after_add(v, e).count == 1,
{
}

/// A tap lifted, and another put down near it with the same buttons before
/// the timer ran out, is the next tap of the same series.
pub proof fn lemma_a_quick_near_tap_continues_the_series(
    v: TapTrackerView,
    first: TapPointer,
    lift: TapPointer,
    now: i64,
    second: TapPointer,
)
    requires
        tracker_wf(v),
        added_count(v, first) < u32::MAX,
        v.max_consecutive_tap != Some(added_count(v, first) as u32),
        lift.change == TapPointerChange::Up,
        lift.time_stamp_micros + DOUBLE_TAP_TIMEOUT_MICROS <= i64::MAX,
        now < lift.time_stamp_micros + DOUBLE_TAP_TIMEOUT_MICROS,
        second.near_last_tap,
        second.buttons == first.buttons,
    ensures
        ({
            let tapped = tracker_after_event(tracker_after_add(v, first), lift);
            let waited = TapTrackerView {
                timer: timer_after_tick(tapped.timer, now),
                ..tapped
            };
            tracker_after_add(waited, second).count == added_count(v, first) + 1
        }),
{
}

/// A gap too long starts the count over: once the timer has run out, the
/// next down is the first of a new series, noticed only then.
pub proof fn lemma_a_gap_too_long_starts_over(
    v: TapTrackerView,
    first: TapPointer,
    lift: TapPointer,
    now: i64,
    second: TapPointer,
)
    requires
        tracker_wf(v),
        added_count(v, first) <= u32::MAX,
        lift.change == TapPointerChange::Up,
        lift.time_stamp_micros + DOUBLE_TAP_TIMEOUT_MICROS <= i64::MAX,
        now >= lift.time_stamp_micros + DOUBLE_TAP_TIMEOUT_MICROS,
    ensures
        ({
            let tapped = tracker_after_event(tracker_after_add(v, first), lift);
            let waited = TapTrackerView {
                timer: timer_after_tick(tapped.timer, now),
                ..tapped
            };
            &&& waited.count == tapped.count
            &&& tracker_after_add(waited, second).count == 1
            &&& hooks_of_add(waited)[0] == TapTrackHook::Reset
        }),
{
}

} // verus!
