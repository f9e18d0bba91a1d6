use lib::stepper::{accepts_update, check_current_step, focus_nodes_match, old_states, toggle_lengths_match, StepperError};
use lib::stepper::{ControlsDetails, Step, StepState};

#[test]
fn only_the_disabled_state_refuses_a_tap() {
    for state in [StepState::Indexed, StepState::Editing, StepState::Complete, StepState::Error] {
        assert!(state.reacts_to_taps(), "{state:?}");
    }
    assert!(!StepState::Disabled.reacts_to_taps());
}

#[test]
fn mid_transition_exactly_one_of_the_two_builders_is_building_the_active_step() {
    let arriving = ControlsDetails::new(2, 2);
    let leaving = ControlsDetails::new(2, 1);
    assert!(arriving.is_active());
    assert!(!leaving.is_active());
    assert_eq!(arriving.current_step, leaving.current_step, "the same stepper, told to two different builders");
}

#[test]
fn the_two_is_actives_in_this_file_are_not_the_same_thing() {
    let mut step = Step::default();
    step.is_active = true;
    assert!(step.is_active);
    assert!(!ControlsDetails::new(0, 3).is_active());
}

#[test]
fn a_stepper_must_be_somewhere_in_its_own_list_of_steps() {
    assert_eq!(check_current_step(3, 2), Ok(()));
    assert_eq!(check_current_step(3, 3), Err(StepperError::CurrentStepOutOfRange));
    assert_eq!(check_current_step(0, 0), Err(StepperError::CurrentStepOutOfRange));
}

#[test]
fn the_steps_may_be_rebuilt_but_not_resized_and_remember_their_states() {
    let mut list = vec![Step::default(); 3];
    list[0].state = StepState::Complete;
    list[1].state = StepState::Editing;
    assert!(accepts_update(&list, &vec![Step::default(); 3]));
    assert!(!accepts_update(&list, &vec![Step::default(); 4]));
    assert_eq!(old_states(&list), vec![StepState::Complete, StepState::Editing, StepState::Indexed]);
}

#[test]
fn toggle_buttons_correlate_children_and_states_by_index() {
    assert!(toggle_lengths_match(3, 3));
    assert!(!toggle_lengths_match(3, 2));
    assert!(focus_nodes_match(None, 3));
    assert!(focus_nodes_match(Some(3), 3));
    assert!(!focus_nodes_match(Some(2), 3));
}
