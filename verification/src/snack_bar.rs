//! The one word on a snack bar a reader can press.
//!
//! There is at most one action: a bar is up for four seconds, and a choice
//! between two things is not a decision anyone can make in four seconds.

use crate::color::Color;
use crate::text::owned;
use vstd::prelude::*;

verus! {

/// How long a bar stays up before closing itself: four seconds, long enough
/// to read a sentence and short enough not to sit over what the reader was
/// looking at.
pub const SNACK_BAR_DISPLAY_DURATION_MICROS: i64 = 4_000_000;

/// How long a bar takes to come in or go out.
pub const SNACK_BAR_TRANSITION_DURATION_MICROS: i64 = 250_000;

/// The easing curve a bar's height follows as it comes in.
#[derive(Clone, Copy, Debug, PartialEq, Eq, Structural)]
pub enum HeightCurve {
    FastOutSlowIn,
    EaseInOutQuart,
}

/// The curve a bar's height follows: Material 3 changed it, and only it.
pub fn snack_bar_height_curve(use_material3: bool) -> (r: HeightCurve)
    ensures
        r == (if use_material3 {
            HeightCurve::EaseInOutQuart
        } else {
            HeightCurve::FastOutSlowIn
        }),
{
    if use_material3 {
        HeightCurve::EaseInOutQuart
    } else {
        HeightCurve::FastOutSlowIn
    }
}

/// Why a snack bar closed.
#[derive(Clone, Copy, Debug, PartialEq, Eq, Structural)]
pub enum SnackBarClosedReason {
    /// The reader pressed its action.
    Action,
    Dismiss,
    Swipe,
    Hide,
    Remove,
    /// It was up for its whole duration.
    Timeout,
}

/// The action as the contracts see it.
pub struct ActionView {
    pub label: Seq<char>,
    pub text_color: Option<Color>,
    pub disabled_text_color: Option<Color>,
    pub background_color: Option<Color>,
    pub disabled_background_color: Option<Color>,
    pub triggered: bool,
}

/// The one thing on a snack bar a reader can press; `F` is its callback.
pub struct SnackBarAction<F> {
    pub label: String,
    pub text_color: Option<Color>,
    pub disabled_text_color: Option<Color>,
    pub background_color: Option<Color>,
    pub disabled_background_color: Option<Color>,
    on_pressed: F,
    /// Whether the action has fired, which is also what disables the button.
    triggered: bool,
}

/// The message a state-coloured background beside a disabled background
/// colour is refused with.
pub open spec fn state_color_message() -> Seq<char> {
    "disabledBackgroundColor must not be provided when background color is a WidgetStateColor"@
}

impl<F> View for SnackBarAction<F> {
    type V = ActionView;

    closed spec fn view(&self) -> ActionView {
        ActionView {
            label: self.label@,
            text_color: self.text_color,
            disabled_text_color: self.disabled_text_color,
            background_color: self.background_color,
            disabled_background_color: self.disabled_background_color,
            triggered: self.triggered,
        }
    }
}

impl<F: Fn()> SnackBarAction<F> {
    /// The callback the action runs.
    pub closed spec fn callback(&self) -> F {
        self.on_pressed
    }

    pub fn new(label: &str, on_pressed: F) -> (r: SnackBarAction<F>)
        ensures
            r@ == (ActionView {
                label: label@,
                text_color: None,
                disabled_text_color: None,
                background_color: None,
                disabled_background_color: None,
                triggered: false,
            }),
            r.callback() == on_pressed,
    {
        SnackBarAction {
            label: owned(label),
            text_color: None,
            disabled_text_color: None,
            background_color: None,
            disabled_background_color: None,
            on_pressed,
            triggered: false,
        }
    }

    pub fn with_text_color(self, color: Color) -> (r: Self)
        ensures
            r@ == (ActionView { text_color: Some(color), ..self@ }),
            r.callback() == self.callback(),
    {
        let mut r = self;
        r.text_color = Some(color);
        r
    }

    pub fn with_disabled_text_color(self, color: Color) -> (r: Self)
        ensures
            r@ == (ActionView { disabled_text_color: Some(color), ..self@ }),
            r.callback() == self.callback(),
    {
        let mut r = self;
        r.disabled_text_color = Some(color);
        r
    }

    pub fn with_background_color(self, color: Color) -> (r: Self)
        ensures
            r@ == (ActionView { background_color: Some(color), ..self@ }),
            r.callback() == self.callback(),
    {
        let mut r = self;
        r.background_color = Some(color);
        r
    }

    pub fn with_disabled_background_color(self, color: Color) -> (r: Self)
        ensures
            r@ == (ActionView { disabled_background_color: Some(color), ..self@ }),
            r.callback() == self.callback(),
    {
        let mut r = self;
        r.disabled_background_color = Some(color);
        r
    }

    /// Whether the action has fired, which is also what disables the button.
    pub fn has_triggered(&self) -> (r: bool)
        ensures
            r == self@.triggered,
    {
        self.triggered
    }

    /// A state-coloured background already answers for every state, so a
    /// disabled background colour beside it would be a second answer to the
    /// same question; that is refused with a message, and nothing else is.
    pub fn validate(&self, background_is_state_color: bool) -> (r: Option<&'static str>)
        ensures
            match r {
                Some(message) => background_is_state_color && self@.disabled_background_color is Some
                    && message@ == state_color_message(),
                None => !(background_is_state_color && self@.disabled_background_color is Some),
            },
    {
        if background_is_state_color && self.disabled_background_color.is_some() {
            return Some(
                "disabledBackgroundColor must not be provided when background color is a WidgetStateColor",
            );
        }
        None
    }

    /// Presses the action. **It fires once and then never again**: a reader
    /// who taps "Undo" twice while the bar is animating out would otherwise
    /// undo twice. The guard is set before the callback runs, so even a
    /// callback that presses again cannot let a second press through.
    ///
    /// Gives the reason to close the bar with, or `None` for a press that did
    /// nothing.
    pub fn press(&mut self) -> (r: Option<SnackBarClosedReason>)
        requires
            !old(self)@.triggered ==> old(self).callback().requires(()),
        ensures
            final(self)@ == pressed(old(self)@),
            final(self).callback() == old(self).callback(),
            r == press_result(old(self)@),
            runs_callback(old(self)@) ==> old(self).callback().ensures((), ()),
    {
        if self.triggered {
            return None;
        }
        self.triggered = true;
        (self.on_pressed)();
        Some(SnackBarClosedReason::Action)
    }
}

/// The action after a press: triggered, whatever it was before.
pub open spec fn pressed(v: ActionView) -> ActionView {
    ActionView { triggered: true, ..v }
}

/// What a press gives: the reason to close the bar the first time, nothing
/// after.
pub open spec fn press_result(v: ActionView) -> Option<SnackBarClosedReason> {
    if v.triggered {
        None
    } else {
        Some(SnackBarClosedReason::Action)
    }
}

/// Whether a press runs the callback: only one that finds the action not yet
/// triggered.
pub open spec fn runs_callback(v: ActionView) -> bool {
    !v.triggered
}

/// The results of `k` presses in a row.
pub open spec fn press_results(v: ActionView, k: nat) -> Seq<Option<SnackBarClosedReason>>
    decreases k,
{
    if k == 0 {
        Seq::empty()
    } else {
        seq![press_result(v)] + press_results(pressed(v), (k - 1) as nat)
    }
}

/// How many of `k` presses in a row run the callback.
pub open spec fn callback_runs(v: ActionView, k: nat) -> nat
    decreases k,
{
    if k == 0 {
        0
    } else {
        (if runs_callback(v) {
            1nat
        } else {
            0nat
        }) + callback_runs(pressed(v), (k - 1) as nat)
    }
}

proof fn lemma_triggered_presses(v: ActionView, k: nat)
    requires
        v.triggered,
    ensures
        callback_runs(v, k) == 0,
        press_results(v, k).len() == k,
        forall|i: int| 0 <= i < k ==> #[trigger] press_results(v, k)[i] is None,
    decreases k,
{
    if k > 0 {
        assert(pressed(v) == v);
        lemma_triggered_presses(v, (k - 1) as nat);
    }
}

/// **It fires once and then never again**: of any number of presses on a
/// fresh action, the first gives the action as the reason to close and runs
/// the callback, every later one gives nothing and runs nothing, so the
/// callback runs exactly once.
pub proof fn lemma_the_action_fires_once(v: ActionView, k: nat)
    requires
        !v.triggered,
        k >= 1,
    ensures
        press_results(v, k).len() == k,
        press_results(v, k)[0] == Some(SnackBarClosedReason::Action),
        forall|i: int| 1 <= i < k ==> #[trigger] press_results(v, k)[i] is None,
        callback_runs(v, k) == 1,
{
    lemma_triggered_presses(pressed(v), (k - 1) as nat);
    let rest = press_results(pressed(v), (k - 1) as nat);
    assert forall|i: int| 1 <= i < k implies #[trigger] press_results(v, k)[i] is None by {
        assert(press_results(v, k)[i] == rest[i - 1]);
    }
}

} // verus!
