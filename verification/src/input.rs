//! Host input vocabulary: keys, modifier state and pointer buttons.
use vstd::prelude::*;

verus! {

/// Keys the widgets react to; every other key is `Other`.
#[derive(Clone, Copy, Debug, PartialEq, Eq, Structural)]
pub enum KeyCode {
    Tab,
    Enter,
    Escape,
    Backspace,
    Delete,
    Insert,
    Home,
    End,
    ArrowLeft,
    ArrowRight,
    ArrowUp,
    ArrowDown,
    A,
    C,
    X,
    Y,
    Z,
    Other,
}

/// Modifier keys held during an event.
#[derive(Clone, Copy, Debug, PartialEq, Eq, Structural)]
pub struct Modifiers {
    pub ctrl: bool,
    pub alt: bool,
    pub shift: bool,
    pub meta: bool,
}

/// A key press with the modifiers held at the time.
#[derive(Clone, Copy, Debug, PartialEq, Eq, Structural)]
pub struct KeyPress {
    pub code: KeyCode,
    pub modifiers: Modifiers,
}

/// Pointer buttons as the host numbers them.
#[derive(Clone, Copy, Debug, PartialEq, Eq, Structural)]
pub enum PointerButton {
    Left,
    Middle,
    Right,
    Other(u16),
}

/// Maps a DOM `MouseEvent.button` number to a [`PointerButton`]:
/// 0 is left, 1 middle, 2 right, anything else is kept as `Other`.
pub fn map_button(button: u16) -> (res: PointerButton)
    ensures
        button == 0 ==> res == PointerButton::Left,
        button == 1 ==> res == PointerButton::Middle,
        button == 2 ==> res == PointerButton::Right,
        button > 2 ==> res == PointerButton::Other(button),
{
    match button {
        0 => PointerButton::Left,
        1 => PointerButton::Middle,
        2 => PointerButton::Right,
        other => PointerButton::Other(other),
    }
}

} // verus!
