use vstd::prelude::*;

verus! {

/// A key as the viewer reads it from the terminal.
#[derive(Debug, Clone, Copy, PartialEq, Eq, Structural)]
pub enum KeyCode {
    Char(char),
    Up,
    Down,
    Enter,
    Esc,
    Backspace,
    Tab,
    /// Any key that the viewer gives no meaning.
    Other,
}

/// A key press with the modifiers that the viewer looks at.
#[derive(Debug, Clone, Copy, PartialEq, Eq, Structural)]
pub struct KeyPress {
    pub code: KeyCode,
    pub ctrl: bool,
    pub shift: bool,
}

} // verus!
