use vstd::prelude::*;

verus! {

/// The key that was pressed.
#[derive(Debug, Clone, Copy, PartialEq, Eq, Hash, Structural)]
pub enum KeyCode {
    Backspace,
    Enter,
    Left,
    Right,
    Up,
    Down,
    Home,
    End,
    PageUp,
    PageDown,
    Tab,
    BackTab,
    Delete,
    Insert,
    F(u8),
    Char(char),
    Null,
    Esc,
    /// A key that the outline has no use for.
    Other,
}

/// The modifier keys held while a key was pressed.
#[derive(Debug, Clone, Copy, PartialEq, Eq, Hash, Structural)]
pub struct KeyModifiers {
    pub shift: bool,
    pub control: bool,
    pub alt: bool,
    /// Whether any further modifier was held.
    pub other: bool,
}

/// No modifier.
pub open spec fn mods_none() -> KeyModifiers {
    KeyModifiers { shift: false, control: false, alt: false, other: false }
}

/// Shift alone.
pub open spec fn mods_shift() -> KeyModifiers {
    KeyModifiers { shift: true, control: false, alt: false, other: false }
}

/// Control alone.
pub open spec fn mods_control() -> KeyModifiers {
    KeyModifiers { shift: false, control: true, alt: false, other: false }
}

/// Alt alone.
pub open spec fn mods_alt() -> KeyModifiers {
    KeyModifiers { shift: false, control: false, alt: true, other: false }
}

impl KeyModifiers {
    pub fn none() -> (r: KeyModifiers)
        ensures
            r == mods_none(),
    {
        KeyModifiers { shift: false, control: false, alt: false, other: false }
    }

    pub fn shift() -> (r: KeyModifiers)
        ensures
            r == mods_shift(),
    {
        KeyModifiers { shift: true, control: false, alt: false, other: false }
    }

    pub fn control() -> (r: KeyModifiers)
        ensures
            r == mods_control(),
    {
        KeyModifiers { shift: false, control: true, alt: false, other: false }
    }

    pub fn alt() -> (r: KeyModifiers)
        ensures
            r == mods_alt(),
    {
        KeyModifiers { shift: false, control: false, alt: true, other: false }
    }

    pub fn is_none(&self) -> (r: bool)
        ensures
            r == (*self == mods_none()),
    {
        !self.shift && !self.control && !self.alt && !self.other
    }

    pub fn is_shift(&self) -> (r: bool)
        ensures
            r == (*self == mods_shift()),
    {
        self.shift && !self.control && !self.alt && !self.other
    }

    pub fn is_control(&self) -> (r: bool)
        ensures
            r == (*self == mods_control()),
    {
        !self.shift && self.control && !self.alt && !self.other
    }

    /// The modifiers of `self` together with those of `other`.
    pub fn union(self, other: KeyModifiers) -> (r: KeyModifiers)
        ensures
            r.shift == (self.shift || other.shift),
            r.control == (self.control || other.control),
            r.alt == (self.alt || other.alt),
            r.other == (self.other || other.other),
    {
        KeyModifiers {
            shift: self.shift || other.shift,
            control: self.control || other.control,
            alt: self.alt || other.alt,
            other: self.other || other.other,
        }
    }
}

/// One press of a key.
#[derive(Debug, Clone, Copy, PartialEq, Eq, Hash, Structural)]
pub struct KeyEvent {
    pub code: KeyCode,
    pub modifiers: KeyModifiers,
}

impl KeyEvent {
    pub fn new(code: KeyCode, modifiers: KeyModifiers) -> (k: KeyEvent)
        ensures
            k.code == code,
            k.modifiers == modifiers,
    {
        KeyEvent { code, modifiers }
    }
}

} // verus!
