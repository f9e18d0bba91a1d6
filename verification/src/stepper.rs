//! The state a stepper keeps per step, and the two things called "active"
//! that are not the same thing.

use vstd::prelude::*;

verus! {

/// What a step's circle shows.
#[derive(Clone, Copy, Debug, PartialEq, Eq, Structural)]
pub enum StepState {
    /// Its index.
    Indexed,
    /// A pencil.
    Editing,
    /// A tick.
    Complete,
    /// A step that does not react to taps.
    Disabled,
    /// A triangle.
    Error,
}

impl Default for StepState {
    fn default() -> (r: StepState)
        ensures
            r == StepState::Indexed,
    {
        StepState::Indexed
    }
}

impl StepState {
    /// Only one of the five refuses taps.
    pub fn reacts_to_taps(self) -> (r: bool)
        ensures
            r == (self != StepState::Disabled),
    {
        match self {
            StepState::Disabled => false,
            _ => true,
        }
    }
}

/// Where a stepper puts its content.
#[derive(Clone, Copy, Debug, PartialEq, Eq, Structural)]
pub enum StepperType {
    /// Between the titles.
    Vertical,
    /// Below the titles.
    Horizontal,
}

impl Default for StepperType {
    fn default() -> (r: StepperType)
        ensures
            r == StepperType::Vertical,
    {
        StepperType::Vertical
    }
}

/// Everything a controls builder needs. Two indices exist because **while
/// the stepper animates, both steps are on screen**, and the builder runs for
/// each: one index says where the stepper is going, the other which of the
/// two this call is building.
#[derive(Clone, Copy, Debug, PartialEq, Eq, Structural)]
pub struct ControlsDetails {
    pub current_step: usize,
    pub step_index: usize,
    pub has_on_step_continue: bool,
    pub has_on_step_cancel: bool,
}

impl ControlsDetails {
    pub fn new(current_step: usize, step_index: usize) -> (r: ControlsDetails)
        ensures
            r == (ControlsDetails {
                current_step,
                step_index,
                has_on_step_continue: true,
                has_on_step_cancel: true,
            }),
    {
        ControlsDetails { current_step, step_index, has_on_step_continue: true, has_on_step_cancel: true }
    }

    /// Whether this call builds the step the stepper is heading for. Not the
    /// same as a step's own `is_active`, which is a styling flag the caller
    /// sets; this one is derived.
    pub fn is_active(&self) -> (r: bool)
        ensures
            r == (self.current_step == self.step_index),
    {
        self.current_step == self.step_index
    }
}

/// One step of a stepper.
#[derive(Clone, Copy, Debug, PartialEq, Eq, Structural)]
pub struct Step {
    pub state: StepState,
    /// Only influences styling.
    pub is_active: bool,
    pub has_subtitle: bool,
    pub has_label: bool,
    pub has_step_style: bool,
}

impl Default for Step {
    fn default() -> (r: Step)
        ensures
            r == (Step {
                state: StepState::Indexed,
                is_active: false,
                has_subtitle: false,
                has_label: false,
                has_step_style: false,
            }),
    {
        Step {
            state: StepState::Indexed,
            is_active: false,
            has_subtitle: false,
            has_label: false,
            has_step_style: false,
        }
    }
}

/// Why a stepper's construction was refused.
#[derive(Clone, Copy, Debug, PartialEq, Eq, Structural)]
pub enum StepperError {
    CurrentStepOutOfRange,
    IconHeightOutOfRange,
    IconWidthOutOfRange,
    IconNotSquare,
}

/// A stepper must be somewhere in its own list: unlike a tab controller, an
/// empty stepper has no valid step at all. The icon-size checks that follow
/// this one measure lengths and stand with them.
pub fn check_current_step(step_count: usize, current_step: usize) -> (r: Result<(), StepperError>)
    ensures
        r == (if current_step >= step_count {
            Err(StepperError::CurrentStepOutOfRange)
        } else {
            Ok(())
        }),
{
    if current_step >= step_count {
        Err(StepperError::CurrentStepOutOfRange)
    } else {
        Ok(())
    }
}

/// The list may be rebuilt but not resized: each step's previous state is
/// remembered by index, so a changed length would pair every later step
/// with somebody else's past.
pub fn accepts_update(old_steps: &Vec<Step>, new_steps: &Vec<Step>) -> (r: bool)
    ensures
        r == (old_steps@.len() == new_steps@.len()),
{
    old_steps.len() == new_steps.len()
}

/// What each step used to be, by index.
pub fn old_states(steps: &Vec<Step>) -> (r: Vec<StepState>)
    ensures
        r@ == steps@.map_values(|s: Step| s.state),
{
    let mut r: Vec<StepState> = Vec::new();
    let mut i: usize = 0;
    while i < steps.len()
        invariant
            i <= steps@.len(),
            r@ == steps@.take(i as int).map_values(|s: Step| s.state),
        decreases steps@.len() - i,
    {
        r.push(steps[i].state);
        i = i + 1;
        assert(r@ =~= steps@.take(i as int).map_values(|s: Step| s.state));
    }
    assert(steps@.take(i as int) =~= steps@);
    r
}

/// A row of toggle buttons: the children and their selection flags are
/// correlated by index, so there must be as many of one as of the other.
pub fn toggle_lengths_match(child_count: usize, selected_count: usize) -> (r: bool)
    ensures
        r == (child_count == selected_count),
{
    child_count == selected_count
}

/// No focus nodes is fine; given ones must be one per child.
pub fn focus_nodes_match(focus_node_count: Option<usize>, child_count: usize) -> (r: bool)
    ensures
        r == match focus_node_count {
            Some(count) => count == child_count,
            None => true,
        },
{
    match focus_node_count {
        Some(count) => count == child_count,
        None => true,
    }
}

} // verus!
