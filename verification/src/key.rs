use vstd::prelude::*;

verus! {

/// The key that was pressed, as far as the bindings tell keys apart.
#[derive(Clone, Copy, PartialEq, Eq, Structural, Debug)]
pub enum KeyCode {
    Down,
    Up,
    Left,
    Right,
    Esc,
    Enter,
    Char(char),
    Other,
}

/// The modifier keys held during a press. `other` stands for any modifier
/// besides shift, control and alt.
#[derive(Clone, Copy, PartialEq, Eq, Structural, Debug)]
pub struct KeyModifiers {
    pub shift: bool,
    pub control: bool,
    pub alt: bool,
    pub other: bool,
}

/// One key press.
#[derive(Clone, Copy, PartialEq, Eq, Structural, Debug)]
pub struct KeyEvent {
    pub modifiers: KeyModifiers,
    pub code: KeyCode,
}

impl KeyModifiers {
    /// No modifier is held.
    pub open spec fn is_none(self) -> bool {
        !self.shift && !self.control && !self.alt && !self.other
    }

    /// Shift and nothing else is held.
    pub open spec fn is_shift(self) -> bool {
        self.shift && !self.control && !self.alt && !self.other
    }

    /// Control and nothing else is held.
    pub open spec fn is_control(self) -> bool {
        !self.shift && self.control && !self.alt && !self.other
    }

    /// Alt and nothing else is held.
    pub open spec fn is_alt(self) -> bool {
        !self.shift && !self.control && self.alt && !self.other
    }

    pub fn none() -> (modifiers: Self)
        ensures
            modifiers.is_none(),
    {
        KeyModifiers { shift: false, control: false, alt: false, other: false }
    }

    pub fn shift() -> (modifiers: Self)
        ensures
            modifiers.is_shift(),
    {
        KeyModifiers { shift: true, control: false, alt: false, other: false }
    }

    pub fn control() -> (modifiers: Self)
        ensures
            modifiers.is_control(),
    {
        KeyModifiers { shift: false, control: true, alt: false, other: false }
    }

    pub fn alt() -> (modifiers: Self)
        ensures
            modifiers.is_alt(),
    {
        KeyModifiers { shift: false, control: false, alt: true, other: false }
    }
}

impl KeyEvent {
    pub fn new(code: KeyCode, modifiers: KeyModifiers) -> (event: Self)
        ensures
            event == (KeyEvent { modifiers, code }),
    {
        KeyEvent { modifiers, code }
    }
}

} // verus!
