use vstd::prelude::*;

use crate::status::Status;

verus! {

/// A keystroke as the firmware's text input reports it.
#[derive(Clone, Copy, Debug, PartialEq, Eq, Structural)]
pub struct TextInputKey {
    pub scan_code: u16,
    pub unicode_char: u16,
}

/// A decoded key press.
#[derive(Clone, Copy, Debug, PartialEq, Eq, Structural)]
pub enum Key {
    Backspace,
    Tab,
    Enter,
    Character(char),
    Up,
    Down,
    Right,
    Left,
    Home,
    End,
    Insert,
    Delete,
    PageUp,
    PageDown,
    F1,
    F2,
    F3,
    F4,
    F5,
    F6,
    F7,
    F8,
    F9,
    F10,
    F11,
    F12,
    Escape,
    Scancode(u16),
}

/// The character a UTF-16 code unit stands for; a lone surrogate has none.
pub open spec fn char_of_unit(u: u16) -> Option<char> {
    if 0xD800 <= u <= 0xDFFF {
        None
    } else {
        Some(u as u32 as char)
    }
}

/// The key that a raw keystroke means.
pub open spec fn key_of(raw: TextInputKey) -> Key {
    let s = raw.scan_code;
    if s == 0 {
        if raw.unicode_char == 8 {
            Key::Backspace
        } else if raw.unicode_char == 9 {
            Key::Tab
        } else if raw.unicode_char == 13 {
            Key::Enter
        } else {
            match char_of_unit(raw.unicode_char) {
                Some(c) => Key::Character(c),
                None => Key::Character('\u{FFFD}'),
            }
        }
    } else if s == 1 { Key::Up }
    else if s == 2 { Key::Down }
    else if s == 3 { Key::Right }
    else if s == 4 { Key::Left }
    else if s == 5 { Key::Home }
    else if s == 6 { Key::End }
    else if s == 7 { Key::Insert }
    else if s == 8 { Key::Delete }
    else if s == 9 { Key::PageUp }
    else if s == 10 { Key::PageDown }
    else if s == 11 { Key::F1 }
    else if s == 12 { Key::F2 }
    else if s == 13 { Key::F3 }
    else if s == 14 { Key::F4 }
    else if s == 15 { Key::F5 }
    else if s == 16 { Key::F6 }
    else if s == 17 { Key::F7 }
    else if s == 18 { Key::F8 }
    else if s == 19 { Key::F9 }
    else if s == 20 { Key::F10 }
    else if s == 21 { Key::F11 }
    else if s == 22 { Key::F12 }
    else if s == 23 { Key::Escape }
    else { Key::Scancode(s) }
}

/// Relies on char::from_u32: a character for every scalar value, none for a surrogate.
#[verifier::external_body]
fn char_from_u32(v: u32) -> (r: Option<char>)
    ensures
        (0xD800 <= v <= 0xDFFF || v > 0x10FFFF) ==> r.is_none(),
        !(0xD800 <= v <= 0xDFFF || v > 0x10FFFF) ==> r == Some(v as char),
{
    char::from_u32(v)
}

fn char_from_unit(u: u16) -> (r: Option<char>)
    ensures
        r == char_of_unit(u),
{
    char_from_u32(u as u32)
}

impl From<TextInputKey> for Key {
    fn from(raw: TextInputKey) -> (k: Key)
        ensures
            k == key_of(raw),
    {
        match raw.scan_code {
            0 => {
                if raw.unicode_char == 8 {
                    Key::Backspace
                } else if raw.unicode_char == 9 {
                    Key::Tab
                } else if raw.unicode_char == 13 {
                    Key::Enter
                } else {
                    match char_from_unit(raw.unicode_char) {
                        Some(c) => Key::Character(c),
                        None => Key::Character('\u{FFFD}'),
                    }
                }
            },
            1 => Key::Up,
            2 => Key::Down,
            3 => Key::Right,
            4 => Key::Left,
            5 => Key::Home,
            6 => Key::End,
            7 => Key::Insert,
            8 => Key::Delete,
            9 => Key::PageUp,
            10 => Key::PageDown,
            11 => Key::F1,
            12 => Key::F2,
            13 => Key::F3,
            14 => Key::F4,
            15 => Key::F5,
            16 => Key::F6,
            17 => Key::F7,
            18 => Key::F8,
            19 => Key::F9,
            20 => Key::F10,
            21 => Key::F11,
            22 => Key::F12,
            23 => Key::Escape,
            s => Key::Scancode(s),
        }
    }
}

impl vstd::std_specs::convert::FromSpecImpl<TextInputKey> for Key {
    open spec fn obeys_from_spec() -> bool {
        true
    }

    open spec fn from_spec(raw: TextInputKey) -> Key {
        key_of(raw)
    }
}

/// Decodes the outcome of reading one keystroke: a failed read stays that
/// failure, a keystroke becomes the key it means.
pub fn key(read: Result<TextInputKey, Status>) -> (r: Result<Key, Status>)
    ensures
        read is Err ==> r == Err::<Key, Status>(read->Err_0),
        read is Ok ==> r == Ok::<Key, Status>(key_of(read->Ok_0)),
{
    match read {
        Ok(raw) => Ok(Key::from(raw)),
        Err(e) => Err(e),
    }
}

} // verus!
