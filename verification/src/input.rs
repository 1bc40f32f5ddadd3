//! Keys and buttons as the web engine counts them.
//!
//! The engine wants X11 keysyms, not characters: a Latin-1 character is its
//! own keysym, any other one lies in a plane of its own, and named keys have
//! fixed values. A wrong one is silent: the page just gets nothing useful.

use vstd::prelude::*;
use crate::text::chars_of;

verus! {

#[derive(Debug, Clone, Copy, PartialEq, Eq, Structural)]
pub enum NamedKey {
    Backspace,
    Tab,
    Enter,
    Escape,
    Space,
    ArrowDown,
    ArrowLeft,
    ArrowRight,
    ArrowUp,
    End,
    Home,
    PageDown,
    PageUp,
    Delete,
    Control,
    Shift,
    Alt,
    Super,
    F5,
}

#[derive(Debug, Clone)]
pub enum Key {
    /// What the key types.
    Character(String),
    Named(NamedKey),
}

pub open spec fn named_keysym(k: NamedKey) -> u32 {
    match k {
        NamedKey::Backspace => 0xff08,
        NamedKey::Tab => 0xff09,
        NamedKey::Enter => 0xff0d,
        NamedKey::Escape => 0xff1b,
        NamedKey::Space => 0x0020,
        NamedKey::ArrowDown => 0xff54,
        NamedKey::ArrowLeft => 0xff51,
        NamedKey::ArrowRight => 0xff53,
        NamedKey::ArrowUp => 0xff52,
        NamedKey::End => 0xff57,
        NamedKey::Home => 0xff50,
        NamedKey::PageDown => 0xff56,
        NamedKey::PageUp => 0xff55,
        NamedKey::Delete => 0xffff,
        NamedKey::Control => 0xffe3,
        NamedKey::Shift => 0xffe1,
        NamedKey::Alt => 0xffe9,
        NamedKey::Super => 0xffeb,
        NamedKey::F5 => 0xffc2,
    }
}

/// Latin-1 is identity, the rest is the code point in the plane at 2^24.
pub open spec fn char_keysym(c: char) -> int {
    if 0x20 <= c as u32 <= 0xff {
        c as u32 as int
    } else {
        c as u32 + 0x0100_0000
    }
}

/// A character as a keysym.
pub fn unicode_keysym(c: char) -> (r: u32)
    ensures
        r == char_keysym(c),
{
    let cp: u32 = c as u32;
    if 0x20 <= cp && cp <= 0xff {
        cp
    } else {
        cp + 0x0100_0000
    }
}

pub open spec fn keysym(k: Key) -> Option<int> {
    match k {
        Key::Character(s) => if s@.len() == 0 {
            None
        } else {
            Some(char_keysym(s@[0]))
        },
        Key::Named(n) => Some(named_keysym(n) as int),
    }
}

/// A key's keysym; a key that types nothing has none.
pub fn keyval(key: &Key) -> (r: Option<u32>)
    ensures
        r is Some <==> keysym(*key) is Some,
        r matches Some(v) ==> keysym(*key) == Some(v as int),
{
    match key {
        Key::Character(s) => {
            let cs = chars_of(s.as_str());
            if cs.len() == 0 {
                None
            } else {
                Some(unicode_keysym(cs[0]))
            }
        },
        Key::Named(n) => Some(
            match n {
                NamedKey::Backspace => 0xff08,
                NamedKey::Tab => 0xff09,
                NamedKey::Enter => 0xff0d,
                NamedKey::Escape => 0xff1b,
                NamedKey::Space => 0x0020,
                NamedKey::ArrowDown => 0xff54,
                NamedKey::ArrowLeft => 0xff51,
                NamedKey::ArrowRight => 0xff53,
                NamedKey::ArrowUp => 0xff52,
                NamedKey::End => 0xff57,
                NamedKey::Home => 0xff50,
                NamedKey::PageDown => 0xff56,
                NamedKey::PageUp => 0xff55,
                NamedKey::Delete => 0xffff,
                NamedKey::Control => 0xffe3,
                NamedKey::Shift => 0xffe1,
                NamedKey::Alt => 0xffe9,
                NamedKey::Super => 0xffeb,
                NamedKey::F5 => 0xffc2,
            },
        ),
    }
}

#[derive(Debug, Clone, Copy, PartialEq, Eq, Structural)]
pub enum MouseButton {
    Left,
    Right,
    Middle,
    Back,
    Forward,
    Other,
}

/// A button's number. Only the three main ones are the page's to see.
pub fn button_number(b: MouseButton) -> (r: Option<u32>)
    ensures
        r == match b {
            MouseButton::Left => Some(1u32),
            MouseButton::Middle => Some(2u32),
            MouseButton::Right => Some(3u32),
            _ => None,
        },
{
    match b {
        MouseButton::Left => Some(1),
        MouseButton::Middle => Some(2),
        MouseButton::Right => Some(3),
        _ => None,
    }
}

/// The engine's bits for the modifier keys.
#[derive(Debug, Clone, Copy, PartialEq, Eq, Structural)]
pub struct ModifierBits {
    pub control: u32,
    pub shift: u32,
    pub alt: u32,
}

pub open spec fn bit_if(held: bool, bit: u32) -> u32 {
    if held {
        bit
    } else {
        0
    }
}

/// The modifiers that are held, as the engine's bits.
pub fn modifiers(ctrl: bool, shift: bool, alt: bool, bits: ModifierBits) -> (r: u32)
    ensures
        r == bit_if(ctrl, bits.control) | bit_if(shift, bits.shift) | bit_if(alt, bits.alt),
{
    let c: u32 = if ctrl {
        bits.control
    } else {
        0
    };
    let s: u32 = if shift {
        bits.shift
    } else {
        0
    };
    let a: u32 = if alt {
        bits.alt
    } else {
        0
    };
    c | s | a
}

/// Two characters never share a keysym.
pub proof fn characters_have_their_own_keysyms(a: char, b: char)
    ensures
        char_keysym(a) == char_keysym(b) ==> a == b,
{
    broadcast use vstd::utf8::char_u32_cast;

}

/// Two named keys never share a keysym.
pub proof fn named_keys_have_their_own_keysyms(a: NamedKey, b: NamedKey)
    ensures
        named_keysym(a) == named_keysym(b) ==> a == b,
{
}

} // verus!
