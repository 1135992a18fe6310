//! The input dispatcher: which key asks for which change.

use vstd::prelude::*;

verus! {

/// A key press, reduced to what the metronome tells apart.
#[derive(Copy, Clone, Debug, PartialEq, Eq, Structural)]
pub enum Key {
    Char(char),
    Esc,
    Enter,
    Tab,
    Up,
    Down,
    Left,
    Right,
    Other,
}

/// What a key press asks of the running metronome.
#[derive(Copy, Clone, Debug, PartialEq, Eq, Structural)]
pub enum Action {
    Quit,
    TogglePlay,
    BpmUp,
    BpmDown,
    BpmUpFive,
    BpmDownFive,
    CycleSubdivision,
    CycleSignature,
    ToggleHelp,
    Ignore,
}

/// `q` and Esc quit, Space plays or pauses, Up and Down move the tempo by one,
/// Right and Left by five, `s` cycles the subdivision, Tab the signature, `h`
/// shows or hides the help. Every other key is ignored.
pub open spec fn action_of(key: Key) -> Action {
    match key {
        Key::Char(c) => if c == 'q' {
            Action::Quit
        } else if c == ' ' {
            Action::TogglePlay
        } else if c == 's' {
            Action::CycleSubdivision
        } else if c == 'h' {
            Action::ToggleHelp
        } else {
            Action::Ignore
        },
        Key::Esc => Action::Quit,
        Key::Up => Action::BpmUp,
        Key::Down => Action::BpmDown,
        Key::Right => Action::BpmUpFive,
        Key::Left => Action::BpmDownFive,
        Key::Tab => Action::CycleSignature,
        Key::Enter => Action::Ignore,
        Key::Other => Action::Ignore,
    }
}

pub fn key_action(key: Key) -> (action: Action)
    ensures
        action == action_of(key),
{
    match key {
        Key::Char(c) => {
            if c == 'q' {
                Action::Quit
            } else if c == ' ' {
                Action::TogglePlay
            } else if c == 's' {
                Action::CycleSubdivision
            } else if c == 'h' {
                Action::ToggleHelp
            } else {
                Action::Ignore
            }
        },
        Key::Esc => Action::Quit,
        Key::Up => Action::BpmUp,
        Key::Down => Action::BpmDown,
        Key::Right => Action::BpmUpFive,
        Key::Left => Action::BpmDownFive,
        Key::Tab => Action::CycleSignature,
        Key::Enter => Action::Ignore,
        Key::Other => Action::Ignore,
    }
}

} // verus!
