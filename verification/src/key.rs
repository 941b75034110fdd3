use vstd::prelude::*;

verus! {

/// A key of the keyboard, as far as the menu and its dialogs tell keys
/// apart.
#[derive(Debug, Clone, Copy, PartialEq, Eq)]
pub enum Key {
    Enter,
    Esc,
    Backspace,
    Up,
    Down,
    Char(char),
    Other,
}

} // verus!
