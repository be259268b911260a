pub mod app;
pub mod preset;
pub mod preview;

use vstd::prelude::*;

verus! {

/// A key the wizard reacts to.
#[derive(Clone, Copy, PartialEq, Eq, Structural, Debug)]
pub enum KeyCode {
    Backspace,
    Enter,
    Left,
    Right,
    Up,
    Down,
    Tab,
    BackTab,
    Esc,
    Char(char),
    /// Any other key.
    Other,
}

/// The modifier keys held with a key, as bits: shift, control, alt.
#[derive(Clone, Copy, PartialEq, Eq, Structural, Debug)]
pub struct KeyModifiers {
    pub bits: u8,
}

impl KeyModifiers {
    pub const NONE: u8 = 0;
    pub const SHIFT: u8 = 1;
    pub const CONTROL: u8 = 2;
    pub const ALT: u8 = 4;

    /// Whether every modifier in `bits` is held.
    pub fn contains(&self, bits: u8) -> (b: bool)
        ensures
            b == (self.bits & bits == bits),
    {
        self.bits & bits == bits
    }
}

/// A key press.
#[derive(Clone, Copy, PartialEq, Eq, Structural, Debug)]
pub struct KeyEvent {
    pub code: KeyCode,
    pub modifiers: KeyModifiers,
}

impl KeyEvent {
    /// A press of `code` with the modifiers in `modifiers` held.
    pub fn new(code: KeyCode, modifiers: u8) -> (k: KeyEvent)
        ensures
            k == (KeyEvent { code, modifiers: KeyModifiers { bits: modifiers } }),
    {
        KeyEvent { code, modifiers: KeyModifiers { bits: modifiers } }
    }
}

} // verus!
