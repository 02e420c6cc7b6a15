//! Key events and the bindings that give them meaning.

use vstd::prelude::*;

verus! {

/// The key of an event.
#[derive(Debug, Clone, Copy, PartialEq, Eq, Structural)]
pub enum KeyCode {
    Char(char),
    Enter,
    Esc,
    Backspace,
    Delete,
    Left,
    Right,
    Up,
    Down,
    Home,
    End,
    Tab,
    /// Any key without a meaning here.
    Other,
}

/// The modifiers held during an event.
///
/// `alt_gr` says that the platform reports a level-three shift by these modifiers, so that the
/// character of the event is plain text.
#[derive(Debug, Clone, Copy, PartialEq, Eq, Structural)]
pub struct KeyModifiers {
    pub shift: bool,
    pub control: bool,
    pub alt: bool,
    pub alt_gr: bool,
}

impl KeyModifiers {
    /// No modifier held.
    pub open spec fn none_held() -> KeyModifiers {
        KeyModifiers { shift: false, control: false, alt: false, alt_gr: false }
    }

    /// Shift alone held.
    pub open spec fn shift_held() -> KeyModifiers {
        KeyModifiers { shift: true, control: false, alt: false, alt_gr: false }
    }

    /// No modifier held.
    pub fn none() -> (r: KeyModifiers)
        ensures
            r == Self::none_held(),
    {
        KeyModifiers { shift: false, control: false, alt: false, alt_gr: false }
    }

    /// Shift alone held.
    pub fn shift() -> (r: KeyModifiers)
        ensures
            r == Self::shift_held(),
    {
        KeyModifiers { shift: true, control: false, alt: false, alt_gr: false }
    }
}

/// A key press.
#[derive(Debug, Clone, Copy, PartialEq, Eq, Structural)]
pub struct KeyEvent {
    pub code: KeyCode,
    pub modifiers: KeyModifiers,
}

impl KeyEvent {
    pub fn new(code: KeyCode, modifiers: KeyModifiers) -> (r: KeyEvent)
        ensures
            r == (KeyEvent { code, modifiers }),
    {
        KeyEvent { code, modifiers }
    }
}

/// A key that a command is bound to.
#[derive(Debug, Clone, Copy, PartialEq, Eq, Structural)]
pub struct KeyBinding {
    pub code: KeyCode,
    pub modifiers: KeyModifiers,
}

/// Whether `event` presses `binding`. A terminal may or may not report the shift that an upper
/// case letter or a symbol took, so it does not count for such characters.
pub open spec fn presses(binding: KeyBinding, event: KeyEvent) -> bool {
    &&& event.code == binding.code
    &&& {
        ||| event.modifiers == binding.modifiers
        ||| {
            &&& event.modifiers == KeyModifiers::shift_held()
            &&& binding.modifiers == KeyModifiers::none_held()
            &&& event.code matches KeyCode::Char(c)
            &&& !('a' <= c <= 'z')
        }
    }
}

/// Whether `event` presses one of the bindings.
pub open spec fn pressed(bindings: Seq<KeyBinding>, event: KeyEvent) -> bool {
    exists|i: int| 0 <= i < bindings.len() && presses(#[trigger] bindings[i], event)
}

impl KeyBinding {
    /// Whether `event` presses this binding.
    pub fn is_press(&self, event: KeyEvent) -> (r: bool)
        ensures
            r == presses(*self, event),
    {
        if event.code != self.code {
            return false;
        }
        if event.modifiers == self.modifiers {
            return true;
        }
        if event.modifiers == KeyModifiers::shift() && self.modifiers == KeyModifiers::none() {
            match event.code {
                KeyCode::Char(c) => !('a' <= c && c <= 'z'),
                _ => false,
            }
        } else {
            false
        }
    }
}

/// A binding to `code` without modifiers.
pub fn plain(code: KeyCode) -> (r: KeyBinding)
    ensures
        r == (KeyBinding { code, modifiers: KeyModifiers::none_held() }),
{
    KeyBinding { code, modifiers: KeyModifiers::none() }
}

/// Whether `event` presses one of the bindings.
pub fn is_pressed(bindings: &Vec<KeyBinding>, event: KeyEvent) -> (r: bool)
    ensures
        r == pressed(bindings@, event),
{
    let mut i: usize = 0;
    while i < bindings.len()
        invariant
            i <= bindings.len(),
            forall|j: int| 0 <= j < i ==> !presses(#[trigger] bindings@[j], event),
        decreases bindings.len() - i,
    {
        if bindings[i].is_press(event) {
            return true;
        }
        i = i + 1;
    }
    false
}

/// The digit that an event types without modifiers.
pub open spec fn count_digit(event: KeyEvent) -> Option<u8> {
    match event.code {
        KeyCode::Char(c) => if event.modifiers == KeyModifiers::none_held() && '0' <= c <= '9' {
            Some((c as u8 - '0' as u8) as u8)
        } else {
            None
        },
        _ => None,
    }
}

/// The digit that `event` types, if it can be part of a count.
pub fn vim_count_digit(event: KeyEvent) -> (r: Option<u8>)
    ensures
        r == count_digit(event),
        r matches Some(d) ==> d <= 9,
{
    if event.modifiers != KeyModifiers::none() {
        return None;
    }
    match event.code {
        KeyCode::Char(c) => if '0' <= c && c <= '9' {
            Some(c as u8 - '0' as u8)
        } else {
            None
        },
        _ => None,
    }
}

/// `c`, in upper case if it is a lower case ASCII letter.
pub open spec fn ascii_upper(c: char) -> char {
    if 'a' <= c <= 'z' {
        (c as u8 - 0x20) as u8 as char
    } else {
        c
    }
}

/// The character that an event hands to a command waiting for one.
pub open spec fn command_char(event: KeyEvent) -> Option<char> {
    match event.code {
        KeyCode::Enter => Some('\n'),
        KeyCode::Char(c) => if event.modifiers == KeyModifiers::none_held() {
            Some(c)
        } else if event.modifiers == KeyModifiers::shift_held() {
            Some(ascii_upper(c))
        } else if event.modifiers.alt_gr {
            Some(c)
        } else {
            None
        },
        _ => None,
    }
}

/// The character that `event` hands to a command waiting for one.
pub fn vim_command_char(event: KeyEvent) -> (r: Option<char>)
    ensures
        r == command_char(event),
{
    match event.code {
        KeyCode::Enter => Some('\n'),
        KeyCode::Char(c) => if event.modifiers == KeyModifiers::none() {
            Some(c)
        } else if event.modifiers == KeyModifiers::shift() {
            if 'a' <= c && c <= 'z' {
                Some((c as u8 - 0x20) as char)
            } else {
                Some(c)
            }
        } else if event.modifiers.alt_gr {
            Some(c)
        } else {
            None
        },
        _ => None,
    }
}

} // verus!
