//! What a keystroke can mean once a shortcut has matched it, and the small
//! vocabularies those meanings are written in.

use vstd::prelude::*;

verus! {

/// A direction along a scroll axis.
#[derive(Clone, Copy, Debug, PartialEq, Eq, Structural)]
pub enum AxisDirection {
    Up,
    Right,
    Down,
    Left,
}

/// A direction the keyboard focus can move in.
#[derive(Clone, Copy, Debug, PartialEq, Eq, Structural)]
pub enum TraversalDirection {
    Up,
    Right,
    Down,
    Left,
}

/// How far one scroll step goes.
#[derive(Clone, Copy, Debug, PartialEq, Eq, Structural)]
pub enum ScrollIncrementType {
    Line,
    Page,
}

/// The platform an application runs on.
#[derive(Clone, Copy, Debug, PartialEq, Eq, Structural)]
pub enum TargetPlatform {
    Android,
    Fuchsia,
    IOS,
    Linux,
    MacOS,
    Windows,
}

/// What a key handler did with a key.
#[derive(Clone, Copy, Debug, PartialEq, Eq, Structural)]
pub enum KeyResult {
    Handled,
    Ignored,
    SkipRemainingHandlers,
}

/// What a keystroke means, for an action to carry out. `C` is the type of
/// the callback a `VoidCallback` intent carries.
#[derive(Debug)]
pub enum Intent<C> {
    Activate,
    /// Presses buttons only; text fields are left alone.
    ButtonActivate,
    Dismiss,
    NextFocus,
    PreviousFocus,
    DirectionalFocus { direction: TraversalDirection },
    Scroll { direction: AxisDirection, increment_type: ScrollIncrementType },
    /// Several intents in order: the first one something can serve wins.
    Prioritized { intents: Vec<Intent<C>> },
    VoidCallback { on_call: C },
}

/// The name of the action an intent asks for.
pub open spec fn intent_name<C>(intent: Intent<C>) -> Seq<char> {
    match intent {
        Intent::Activate => "Activate"@,
        Intent::ButtonActivate => "ButtonActivate"@,
        Intent::Dismiss => "Dismiss"@,
        Intent::NextFocus => "NextFocus"@,
        Intent::PreviousFocus => "PreviousFocus"@,
        Intent::DirectionalFocus { .. } => "DirectionalFocus"@,
        Intent::Scroll { .. } => "Scroll"@,
        Intent::Prioritized { .. } => "Prioritized"@,
        Intent::VoidCallback { .. } => "VoidCallback"@,
    }
}

impl<C> Intent<C> {
    /// The name of the action this intent asks for.
    pub fn action_name(&self) -> (r: &'static str)
        ensures
            r@ == intent_name(*self),
    {
        match self {
            Intent::Activate => "Activate",
            Intent::ButtonActivate => "ButtonActivate",
            Intent::Dismiss => "Dismiss",
            Intent::NextFocus => "NextFocus",
            Intent::PreviousFocus => "PreviousFocus",
            Intent::DirectionalFocus { .. } => "DirectionalFocus",
            Intent::Scroll { .. } => "Scroll",
            Intent::Prioritized { .. } => "Prioritized",
            Intent::VoidCallback { .. } => "VoidCallback",
        }
    }
}

} // verus!
