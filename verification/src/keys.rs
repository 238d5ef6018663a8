//! Keys and mouse events as the dashboard sees them, and the bytes a key sends
//! to a terminal.

use vstd::prelude::*;
use vstd::utf8::{encode_utf8, encode_scalar};

verus! {

/// Which key was pressed.
#[derive(PartialEq, Eq, Structural, Clone, Copy, Debug)]
pub enum KeyCode {
    Char(char),
    Enter,
    Backspace,
    Tab,
    BackTab,
    Esc,
    Up,
    Down,
    Left,
    Right,
    Home,
    End,
    /// Any other key (function keys, Delete, ...).
    Other,
}

/// A key press: the key and whether Control was held.
#[derive(PartialEq, Eq, Structural, Clone, Copy, Debug)]
pub struct Key {
    pub code: KeyCode,
    pub ctrl: bool,
}

/// What the mouse did.
#[derive(PartialEq, Eq, Structural, Clone, Copy, Debug)]
pub enum MouseKind {
    LeftDown,
    ScrollUp,
    ScrollDown,
    Other,
}

/// A mouse event at a screen cell.
#[derive(PartialEq, Eq, Structural, Clone, Copy, Debug)]
pub struct Mouse {
    pub kind: MouseKind,
    pub column: u16,
    pub row: u16,
}

/// A screen rectangle.
#[derive(PartialEq, Eq, Structural, Clone, Copy, Debug)]
pub struct Rect {
    pub x: u16,
    pub y: u16,
    pub width: u16,
    pub height: u16,
}

/// `c` with `a..=z` turned into `A..=Z` (std's `char::to_ascii_uppercase`).
pub open spec fn ascii_upper(c: char) -> u32 {
    if 'a' <= c <= 'z' {
        (c as u32 - 32) as u32
    } else {
        c as u32
    }
}

/// The bytes a terminal receives for a key.
pub open spec fn key_bytes(k: Key) -> Seq<u8> {
    match k.code {
        KeyCode::Char(c) => if k.ctrl {
            // the control code of the upper-cased character: its low five bits
            seq![(ascii_upper(c) % 32) as u8]
        } else {
            encode_utf8(seq![c])
        },
        KeyCode::Enter => seq![13u8],
        KeyCode::Backspace => seq![0x7fu8],
        KeyCode::Tab => seq![9u8],
        KeyCode::Esc => seq![0x1bu8],
        KeyCode::Up => seq![0x1bu8, 0x5bu8, 0x41u8],
        KeyCode::Down => seq![0x1bu8, 0x5bu8, 0x42u8],
        KeyCode::Right => seq![0x1bu8, 0x5bu8, 0x43u8],
        KeyCode::Left => seq![0x1bu8, 0x5bu8, 0x44u8],
        KeyCode::Home => seq![0x1bu8, 0x5bu8, 0x48u8],
        KeyCode::End => seq![0x1bu8, 0x5bu8, 0x46u8],
        _ => Seq::empty(),
    }
}

/// The UTF-8 bytes of one character.
fn utf8_of(c: char) -> (v: Vec<u8>)
    ensures
        v@ == encode_utf8(seq![c]),
{
    let s = c as u32;
    let mut v: Vec<u8> = Vec::new();
    if s <= 0x7f {
        v.push((s & 0x7f) as u8);
    } else if s <= 0x7ff {
        v.push(0xC0 | ((s >> 6) & 0x1F) as u8);
        v.push(0x80 | (s & 0x3F) as u8);
    } else if s <= 0xffff {
        v.push(0xE0 | ((s >> 12) & 0x0F) as u8);
        v.push(0x80 | ((s >> 6) & 0x3F) as u8);
        v.push(0x80 | (s & 0x3F) as u8);
    } else {
        v.push(0xF0 | ((s >> 18) & 0x7) as u8);
        v.push(0x80 | ((s >> 12) & 0x3F) as u8);
        v.push(0x80 | ((s >> 6) & 0x3F) as u8);
        v.push(0x80 | (s & 0x3F) as u8);
    }
    proof {
        assert(seq![c].drop_first() =~= Seq::<char>::empty());
        assert(encode_utf8(seq![c]) =~= encode_scalar(s) + encode_utf8(Seq::<char>::empty()));
        assert(encode_utf8(seq![c]) =~= encode_scalar(s));
        assert(v@ =~= encode_scalar(s));
    }
    v
}

/// encode_key turns a key press into the bytes a terminal expects: Control with a
/// character sends that character's control code, a plain character its UTF-8
/// bytes, and the named keys their usual bytes or escape sequences.
pub fn encode_key(k: Key) -> (v: Vec<u8>)
    ensures
        v@ == key_bytes(k),
{
    match k.code {
        KeyCode::Char(c) => {
            if k.ctrl {
                let up: u32 = if 'a' <= c && c <= 'z' { c as u32 - 32 } else { c as u32 };
                let b: u8 = (up % 256) as u8;
                let r: u8 = b.wrapping_sub(0x40) & 0x1f;
                assert(r == (up % 32) as u8) by (bit_vector)
                    requires
                        b == (up % 256) as u8,
                        r == (b.wrapping_sub(0x40) & 0x1f);
                vec![r]
            } else {
                utf8_of(c)
            }
        },
        KeyCode::Enter => vec![13u8],
        KeyCode::Backspace => vec![0x7fu8],
        KeyCode::Tab => vec![9u8],
        KeyCode::Esc => vec![0x1bu8],
        KeyCode::Up => vec![0x1bu8, 0x5bu8, 0x41u8],
        KeyCode::Down => vec![0x1bu8, 0x5bu8, 0x42u8],
        KeyCode::Right => vec![0x1bu8, 0x5bu8, 0x43u8],
        KeyCode::Left => vec![0x1bu8, 0x5bu8, 0x44u8],
        KeyCode::Home => vec![0x1bu8, 0x5bu8, 0x48u8],
        KeyCode::End => vec![0x1bu8, 0x5bu8, 0x46u8],
        _ => Vec::new(),
    }
}

} // verus!
