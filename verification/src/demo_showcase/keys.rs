//! Keyboard input handling of the showcase: what a key press asks for.
use vstd::prelude::*;

verus! {

/// Key actions that can be handled during demo execution.
#[derive(Debug, Clone, Copy, PartialEq, Eq, Structural)]
pub enum KeyAction {
    /// Quit the demo early.
    Quit,
    /// Pause/resume the demo (toggle).
    Pause,
    /// No action (key not recognized or no key pressed).
    NoAction,
}

/// A key as far as the showcase cares about it.
#[derive(Debug, Clone, Copy, PartialEq, Eq, Structural)]
pub enum Key {
    /// A character key.
    Char(char),
    /// The escape key.
    Esc,
    /// Any other key.
    Other,
}

/// The action that a key press asks for: `q`, `Q`, escape and control-`c`
/// quit; `p`, `P` and the space bar pause; every other key does nothing.
pub open spec fn action_of(key: Key, control: bool) -> KeyAction {
    match key {
        Key::Char(c) => if c == 'q' || c == 'Q' {
            KeyAction::Quit
        } else if c == 'c' && control {
            KeyAction::Quit
        } else if c == 'p' || c == 'P' || c == ' ' {
            KeyAction::Pause
        } else {
            KeyAction::NoAction
        },
        Key::Esc => KeyAction::Quit,
        Key::Other => KeyAction::NoAction,
    }
}

/// Map a key event to an action; `control` says whether the control key was
/// held.
pub fn map_key_event(key: Key, control: bool) -> (action: KeyAction)
    ensures
        action == action_of(key, control),
{
    match key {
        Key::Char(c) => {
            if c == 'q' || c == 'Q' {
                KeyAction::Quit
            } else if c == 'c' && control {
                KeyAction::Quit
            } else if c == 'p' || c == 'P' || c == ' ' {
                KeyAction::Pause
            } else {
                KeyAction::NoAction
            }
        },
        Key::Esc => KeyAction::Quit,
        Key::Other => KeyAction::NoAction,
    }
}

/// Check if the user wants to quit: whether the action that was polled is
/// the one that quits.
pub fn should_quit(action: KeyAction) -> (quit: bool)
    ensures
        quit == (action == KeyAction::Quit),
{
    action == KeyAction::Quit
}

} // verus!
