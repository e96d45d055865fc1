//! What a key press or a resize of the terminal asks the animation to do.

use vstd::prelude::*;

verus! {

/// What the animation is asked to do.
#[derive(Clone, Copy, Debug, PartialEq, Eq, Structural)]
pub enum InputAction {
    NoAction,
    Quit,
    TogglePause,
    ToggleOverlay,
    Resized(u16, u16),
}

/// A terminal event, as far as the animation reads it: a new size, a key
/// (its character, if it is one, whether it was pressed rather than
/// released or repeated, and whether Control was held), or anything else.
#[derive(Clone, Copy, Debug, PartialEq, Eq, Structural)]
pub enum InputEvent {
    Resize(u16, u16),
    Key { ch: Option<char>, pressed: bool, control: bool },
    Other,
}

/// The action for an event: a resize reports the new size; a pressed `q`
/// or `Q` quits, a space toggles pausing, `h` or `H` toggles the overlay,
/// and Control with `c` quits; anything else asks for nothing.
pub open spec fn action_of(event: InputEvent) -> InputAction {
    match event {
        InputEvent::Resize(w, h) => InputAction::Resized(w, h),
        InputEvent::Key { ch, pressed, control } => if !pressed {
            InputAction::NoAction
        } else if ch == Some('q') || ch == Some('Q') {
            InputAction::Quit
        } else if ch == Some(' ') {
            InputAction::TogglePause
        } else if ch == Some('h') || ch == Some('H') {
            InputAction::ToggleOverlay
        } else if ch == Some('c') && control {
            InputAction::Quit
        } else {
            InputAction::NoAction
        },
        InputEvent::Other => InputAction::NoAction,
    }
}

/// The action that `event` asks for.
pub fn action_for(event: InputEvent) -> (a: InputAction)
    ensures
        a == action_of(event),
        event matches InputEvent::Key { pressed, .. } && !pressed ==> a == InputAction::NoAction,
        event matches InputEvent::Key { ch, pressed, .. } && pressed && (ch == Some('q') || ch
            == Some('Q')) ==> a == InputAction::Quit,
        event matches InputEvent::Resize(w, h) ==> a == InputAction::Resized(w, h),
{
    match event {
        InputEvent::Resize(w, h) => InputAction::Resized(w, h),
        InputEvent::Key { ch, pressed, control } => {
            if !pressed {
                return InputAction::NoAction;
            }
            match ch {
                Some(c) => {
                    if c == 'q' || c == 'Q' {
                        InputAction::Quit
                    } else if c == ' ' {
                        InputAction::TogglePause
                    } else if c == 'h' || c == 'H' {
                        InputAction::ToggleOverlay
                    } else if c == 'c' && control {
                        InputAction::Quit
                    } else {
                        InputAction::NoAction
                    }
                },
                None => InputAction::NoAction,
            }
        },
        InputEvent::Other => InputAction::NoAction,
    }
}

/// A key that is released or repeated rather than pressed asks for
/// nothing, whatever its character and whether Control is held.
pub proof fn lemma_only_pressed_keys_act(ch: Option<char>, control: bool)
    ensures
        action_of(InputEvent::Key { ch, pressed: false, control }) == InputAction::NoAction,
{
}

/// Pressing `q` or `Q` quits, whether or not Control is held, and so does
/// Control with `c`.
pub proof fn lemma_quit_keys(control: bool)
    ensures
        action_of(InputEvent::Key { ch: Some('q'), pressed: true, control }) == InputAction::Quit,
        action_of(InputEvent::Key { ch: Some('Q'), pressed: true, control }) == InputAction::Quit,
        action_of(InputEvent::Key { ch: Some('c'), pressed: true, control: true })
            == InputAction::Quit,
{
}

/// A resize reports exactly the new size.
pub proof fn lemma_resize_reports_size(w: u16, h: u16)
    ensures
        action_of(InputEvent::Resize(w, h)) == InputAction::Resized(w, h),
{
}

} // verus!
