use vstd::prelude::*;

verus! {

/// A key, as the terminal reports it.
#[derive(Debug, Clone, Copy, PartialEq, Eq, Structural)]
pub enum KeyCode {
    Char(char),
    Enter,
    Backspace,
    Tab,
    BackTab,
    Esc,
    Up,
    Down,
    Left,
    Right,
    Home,
    End,
    PageUp,
    PageDown,
    Delete,
    Insert,
    F(u8),
    /// Any other key (Null, CapsLock, media keys, ...).
    Other,
}

/// The modifier keys held with a key.
#[derive(Debug, Clone, Copy, PartialEq, Eq, Structural)]
pub struct KeyModifiers {
    pub shift: bool,
    pub control: bool,
    pub alt: bool,
}

impl KeyModifiers {
    pub fn none() -> (r: Self)
        ensures
            !r.shift && !r.control && !r.alt,
    {
        KeyModifiers { shift: false, control: false, alt: false }
    }
}

/// A key press: the key and the modifiers held with it.
#[derive(Debug, Clone, Copy, PartialEq, Eq, Structural)]
pub struct KeyEvent {
    pub code: KeyCode,
    pub modifiers: KeyModifiers,
}

impl KeyEvent {
    pub fn new(code: KeyCode, modifiers: KeyModifiers) -> (r: Self)
        ensures
            r.code == code && r.modifiers == modifiers,
    {
        KeyEvent { code, modifiers }
    }

    /// A key press with no modifiers.
    pub fn plain(code: KeyCode) -> (r: Self)
        ensures
            r.code == code && !r.modifiers.shift && !r.modifiers.control && !r.modifiers.alt,
    {
        KeyEvent { code, modifiers: KeyModifiers::none() }
    }
}

impl From<KeyCode> for KeyEvent {
    /// A key press with no modifiers.
    fn from(code: KeyCode) -> (r: Self) {
        KeyEvent::plain(code)
    }
}

impl vstd::std_specs::convert::FromSpecImpl<KeyCode> for KeyEvent {
    open spec fn obeys_from_spec() -> bool {
        true
    }

    open spec fn from_spec(code: KeyCode) -> Self {
        KeyEvent { code, modifiers: KeyModifiers { shift: false, control: false, alt: false } }
    }
}

} // verus!
