use vstd::prelude::*;

verus! {

/// Marker for types that take part in keyboard input handling.
pub trait InputListenerTrait {
}

pub struct Key {
    pub keycode: KeyCode,
}

/// A key of the keyboard, independent of any terminal library.
#[derive(Debug, Clone, Copy, PartialEq, Eq, Hash, Structural)]
pub enum KeyCode {
    Backspace,
    Enter,
    Left,
    Right,
    Up,
    Down,
    Home,
    End,
    PageUp,
    PageDown,
    Tab,
    BackTab,
    Delete,
    Insert,
    F(u8),
    Char(char),
    Null,
    Esc,
    CapsLock,
    ScrollLock,
    NumLock,
    PrintScreen,
    Pause,
    Menu,
    KeypadBegin,
}

/// The phase of a key event.
#[derive(Debug, Clone, Copy, PartialEq, Eq, Structural)]
pub enum InputAction {
    Press,
    Hold,
    Release,
}

/// One keyboard event: which key, and in which phase.
pub struct Input {
    pub key_code: KeyCode,
    pub action: InputAction,
}

impl Input {
    pub fn new(key_code: KeyCode, action: InputAction) -> (r: Self)
        ensures
            r.key_code == key_code,
            r.action == action,
    {
        Input { key_code, action }
    }
}

} // verus!
