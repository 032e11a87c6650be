use vstd::prelude::*;

verus! {

/// What the keyboard sent, as read one byte at a time from a terminal in raw
/// mode.
#[derive(Clone, Copy, Debug, PartialEq, Eq, Structural)]
pub enum InputEvent {
    NoInput,
    Key { ctrl: bool, key: char },
    Enter,
    Backspace,
}

/// The event a byte stands for in raw mode: carriage return is Enter, DEL is
/// Backspace, bytes 1 to 26 are Ctrl held with `a` to `z`, and every other
/// byte is its own character typed without Ctrl.
pub open spec fn event_of_byte(b: u8) -> InputEvent {
    if b == 13 {
        InputEvent::Enter
    } else if b == 127 {
        InputEvent::Backspace
    } else if 1 <= b <= 26 {
        InputEvent::Key { ctrl: true, key: ((b + 96) as u8) as char }
    } else {
        InputEvent::Key { ctrl: false, key: b as char }
    }
}

impl InputEvent {
    /// The event for the byte `b`.
    pub fn from_raw(b: u8) -> (e: InputEvent)
        ensures
            e == event_of_byte(b),
    {
        if b == 13 {
            InputEvent::Enter
        } else if b == 127 {
            InputEvent::Backspace
        } else if 1 <= b && b <= 26 {
            InputEvent::Key { ctrl: true, key: (b + 96) as char }
        } else {
            InputEvent::Key { ctrl: false, key: b as char }
        }
    }

    /// Whether something was sent.
    pub fn is_some(&self) -> (b: bool)
        ensures
            b == !(*self is NoInput),
    {
        match self {
            InputEvent::NoInput => false,
            _ => true,
        }
    }
}

} // verus!
