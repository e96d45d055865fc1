use matrix_rain::input::{action_for, InputAction, InputEvent};

fn key(ch: Option<char>, pressed: bool, control: bool) -> InputEvent {
    InputEvent::Key { ch, pressed, control }
}

#[test]
fn resize_reports_size() {
    assert_eq!(action_for(InputEvent::Resize(80, 24)), InputAction::Resized(80, 24));
}

#[test]
fn quit_keys() {
    assert_eq!(action_for(key(Some('q'), true, false)), InputAction::Quit);
    assert_eq!(action_for(key(Some('Q'), true, false)), InputAction::Quit);
    assert_eq!(action_for(key(Some('c'), true, true)), InputAction::Quit);
    assert_eq!(action_for(key(Some('c'), true, false)), InputAction::NoAction);
}

#[test]
fn toggle_keys() {
    assert_eq!(action_for(key(Some(' '), true, false)), InputAction::TogglePause);
    assert_eq!(action_for(key(Some('h'), true, false)), InputAction::ToggleOverlay);
    assert_eq!(action_for(key(Some('H'), true, true)), InputAction::ToggleOverlay);
}

#[test]
fn released_and_other_keys_do_nothing() {
    assert_eq!(action_for(key(Some('q'), false, false)), InputAction::NoAction);
    assert_eq!(action_for(key(None, true, true)), InputAction::NoAction);
    assert_eq!(action_for(key(Some('x'), true, false)), InputAction::NoAction);
    assert_eq!(action_for(InputEvent::Other), InputAction::NoAction);
}
