//! Keyboard macros: what a recording holds, how key events are recorded,
//! and how a recording is played back.
use vstd::prelude::*;
use crate::text::{chars_eq, string_of, to_chars};

verus! {

/// A key that a recorded macro can name, by the name the recorder gives it.
#[derive(Clone, Copy, Debug, PartialEq, Eq, Structural)]
pub enum MacroKey {
    Alt,
    AltGr,
    Backspace,
    CapsLock,
    ControlLeft,
    ControlRight,
    Delete,
    DownArrow,
    End,
    Escape,
    F1,
    F2,
    F3,
    F4,
    F5,
    F6,
    F7,
    F8,
    F9,
    F10,
    F11,
    F12,
    Home,
    LeftArrow,
    MetaLeft,
    MetaRight,
    PageDown,
    PageUp,
    Return,
    RightArrow,
    ShiftLeft,
    ShiftRight,
    Space,
    Tab,
    UpArrow,
    KeyA,
    KeyB,
    KeyC,
    KeyD,
    KeyE,
    KeyF,
    KeyG,
    KeyH,
    KeyI,
    KeyJ,
    KeyK,
    KeyL,
    KeyM,
    KeyN,
    KeyO,
    KeyP,
    KeyQ,
    KeyR,
    KeyS,
    KeyT,
    KeyU,
    KeyV,
    KeyW,
    KeyX,
    KeyY,
    KeyZ,
    Num0,
    Num1,
    Num2,
    Num3,
    Num4,
    Num5,
    Num6,
    Num7,
    Num8,
    Num9,
}

/// The name of a key, as the recorder writes it.
pub open spec fn key_name(k: MacroKey) -> Seq<char> {
    match k {
        MacroKey::Alt => seq!['A', 'l', 't'],
        MacroKey::AltGr => seq!['A', 'l', 't', 'G', 'r'],
        MacroKey::Backspace => seq!['B', 'a', 'c', 'k', 's', 'p', 'a', 'c', 'e'],
        MacroKey::CapsLock => seq!['C', 'a', 'p', 's', 'L', 'o', 'c', 'k'],
        MacroKey::ControlLeft => seq!['C', 'o', 'n', 't', 'r', 'o', 'l', 'L', 'e', 'f', 't'],
        MacroKey::ControlRight => seq!['C', 'o', 'n', 't', 'r', 'o', 'l', 'R', 'i', 'g', 'h', 't'],
        MacroKey::Delete => seq!['D', 'e', 'l', 'e', 't', 'e'],
        MacroKey::DownArrow => seq!['D', 'o', 'w', 'n', 'A', 'r', 'r', 'o', 'w'],
        MacroKey::End => seq!['E', 'n', 'd'],
        MacroKey::Escape => seq!['E', 's', 'c', 'a', 'p', 'e'],
        MacroKey::F1 => seq!['F', '1'],
        MacroKey::F2 => seq!['F', '2'],
        MacroKey::F3 => seq!['F', '3'],
        MacroKey::F4 => seq!['F', '4'],
        MacroKey::F5 => seq!['F', '5'],
        MacroKey::F6 => seq!['F', '6'],
        MacroKey::F7 => seq!['F', '7'],
        MacroKey::F8 => seq!['F', '8'],
        MacroKey::F9 => seq!['F', '9'],
        MacroKey::F10 => seq!['F', '1', '0'],
        MacroKey::F11 => seq!['F', '1', '1'],
        MacroKey::F12 => seq!['F', '1', '2'],
        MacroKey::Home => seq!['H', 'o', 'm', 'e'],
        MacroKey::LeftArrow => seq!['L', 'e', 'f', 't', 'A', 'r', 'r', 'o', 'w'],
        MacroKey::MetaLeft => seq!['M', 'e', 't', 'a', 'L', 'e', 'f', 't'],
        MacroKey::MetaRight => seq!['M', 'e', 't', 'a', 'R', 'i', 'g', 'h', 't'],
        MacroKey::PageDown => seq!['P', 'a', 'g', 'e', 'D', 'o', 'w', 'n'],
        MacroKey::PageUp => seq!['P', 'a', 'g', 'e', 'U', 'p'],
        MacroKey::Return => seq!['R', 'e', 't', 'u', 'r', 'n'],
        MacroKey::RightArrow => seq!['R', 'i', 'g', 'h', 't', 'A', 'r', 'r', 'o', 'w'],
        MacroKey::ShiftLeft => seq!['S', 'h', 'i', 'f', 't', 'L', 'e', 'f', 't'],
        MacroKey::ShiftRight => seq!['S', 'h', 'i', 'f', 't', 'R', 'i', 'g', 'h', 't'],
        MacroKey::Space => seq!['S', 'p', 'a', 'c', 'e'],
        MacroKey::Tab => seq!['T', 'a', 'b'],
        MacroKey::UpArrow => seq!['U', 'p', 'A', 'r', 'r', 'o', 'w'],
        MacroKey::KeyA => seq!['K', 'e', 'y', 'A'],
        MacroKey::KeyB => seq!['K', 'e', 'y', 'B'],
        MacroKey::KeyC => seq!['K', 'e', 'y', 'C'],
        MacroKey::KeyD => seq!['K', 'e', 'y', 'D'],
        MacroKey::KeyE => seq!['K', 'e', 'y', 'E'],
        MacroKey::KeyF => seq!['K', 'e', 'y', 'F'],
        MacroKey::KeyG => seq!['K', 'e', 'y', 'G'],
        MacroKey::KeyH => seq!['K', 'e', 'y', 'H'],
        MacroKey::KeyI => seq!['K', 'e', 'y', 'I'],
        MacroKey::KeyJ => seq!['K', 'e', 'y', 'J'],
        MacroKey::KeyK => seq!['K', 'e', 'y', 'K'],
        MacroKey::KeyL => seq!['K', 'e', 'y', 'L'],
        MacroKey::KeyM => seq!['K', 'e', 'y', 'M'],
        MacroKey::KeyN => seq!['K', 'e', 'y', 'N'],
        MacroKey::KeyO => seq!['K', 'e', 'y', 'O'],
        MacroKey::KeyP => seq!['K', 'e', 'y', 'P'],
        MacroKey::KeyQ => seq!['K', 'e', 'y', 'Q'],
        MacroKey::KeyR => seq!['K', 'e', 'y', 'R'],
        MacroKey::KeyS => seq!['K', 'e', 'y', 'S'],
        MacroKey::KeyT => seq!['K', 'e', 'y', 'T'],
        MacroKey::KeyU => seq!['K', 'e', 'y', 'U'],
        MacroKey::KeyV => seq!['K', 'e', 'y', 'V'],
        MacroKey::KeyW => seq!['K', 'e', 'y', 'W'],
        MacroKey::KeyX => seq!['K', 'e', 'y', 'X'],
        MacroKey::KeyY => seq!['K', 'e', 'y', 'Y'],
        MacroKey::KeyZ => seq!['K', 'e', 'y', 'Z'],
        MacroKey::Num0 => seq!['N', 'u', 'm', '0'],
        MacroKey::Num1 => seq!['N', 'u', 'm', '1'],
        MacroKey::Num2 => seq!['N', 'u', 'm', '2'],
        MacroKey::Num3 => seq!['N', 'u', 'm', '3'],
        MacroKey::Num4 => seq!['N', 'u', 'm', '4'],
        MacroKey::Num5 => seq!['N', 'u', 'm', '5'],
        MacroKey::Num6 => seq!['N', 'u', 'm', '6'],
        MacroKey::Num7 => seq!['N', 'u', 'm', '7'],
        MacroKey::Num8 => seq!['N', 'u', 'm', '8'],
        MacroKey::Num9 => seq!['N', 'u', 'm', '9'],
    }
}

/// The key `Key<c>` of a letter `c`.
pub open spec fn letter_key(c: char) -> Option<MacroKey> {
    if c == 'A' {
        Some(MacroKey::KeyA)
    } else if c == 'B' {
        Some(MacroKey::KeyB)
    } else if c == 'C' {
        Some(MacroKey::KeyC)
    } else if c == 'D' {
        Some(MacroKey::KeyD)
    } else if c == 'E' {
        Some(MacroKey::KeyE)
    } else if c == 'F' {
        Some(MacroKey::KeyF)
    } else if c == 'G' {
        Some(MacroKey::KeyG)
    } else if c == 'H' {
        Some(MacroKey::KeyH)
    } else if c == 'I' {
        Some(MacroKey::KeyI)
    } else if c == 'J' {
        Some(MacroKey::KeyJ)
    } else if c == 'K' {
        Some(MacroKey::KeyK)
    } else if c == 'L' {
        Some(MacroKey::KeyL)
    } else if c == 'M' {
        Some(MacroKey::KeyM)
    } else if c == 'N' {
        Some(MacroKey::KeyN)
    } else if c == 'O' {
        Some(MacroKey::KeyO)
    } else if c == 'P' {
        Some(MacroKey::KeyP)
    } else if c == 'Q' {
        Some(MacroKey::KeyQ)
    } else if c == 'R' {
        Some(MacroKey::KeyR)
    } else if c == 'S' {
        Some(MacroKey::KeyS)
    } else if c == 'T' {
        Some(MacroKey::KeyT)
    } else if c == 'U' {
        Some(MacroKey::KeyU)
    } else if c == 'V' {
        Some(MacroKey::KeyV)
    } else if c == 'W' {
        Some(MacroKey::KeyW)
    } else if c == 'X' {
        Some(MacroKey::KeyX)
    } else if c == 'Y' {
        Some(MacroKey::KeyY)
    } else if c == 'Z' {
        Some(MacroKey::KeyZ)
    } else {
        None
    }
}

/// The key `Num<c>` of a digit `c`.
pub open spec fn digit_key(c: char) -> Option<MacroKey> {
    if c == '0' {
        Some(MacroKey::Num0)
    } else if c == '1' {
        Some(MacroKey::Num1)
    } else if c == '2' {
        Some(MacroKey::Num2)
    } else if c == '3' {
        Some(MacroKey::Num3)
    } else if c == '4' {
        Some(MacroKey::Num4)
    } else if c == '5' {
        Some(MacroKey::Num5)
    } else if c == '6' {
        Some(MacroKey::Num6)
    } else if c == '7' {
        Some(MacroKey::Num7)
    } else if c == '8' {
        Some(MacroKey::Num8)
    } else if c == '9' {
        Some(MacroKey::Num9)
    } else {
        None
    }
}

/// The key named `s` among those that are not `Key<letter>` nor `Num<digit>`.
pub open spec fn special_key(s: Seq<char>) -> Option<MacroKey> {
    if s.len() == 2 {
        if s == key_name(MacroKey::F1) {
            Some(MacroKey::F1)
        } else if s == key_name(MacroKey::F2) {
            Some(MacroKey::F2)
        } else if s == key_name(MacroKey::F3) {
            Some(MacroKey::F3)
        } else if s == key_name(MacroKey::F4) {
            Some(MacroKey::F4)
        } else if s == key_name(MacroKey::F5) {
            Some(MacroKey::F5)
        } else if s == key_name(MacroKey::F6) {
            Some(MacroKey::F6)
        } else if s == key_name(MacroKey::F7) {
            Some(MacroKey::F7)
        } else if s == key_name(MacroKey::F8) {
            Some(MacroKey::F8)
        } else if s == key_name(MacroKey::F9) {
            Some(MacroKey::F9)
        } else {
            None
        }
    } else if s.len() == 3 {
        if s == key_name(MacroKey::Alt) {
            Some(MacroKey::Alt)
        } else if s == key_name(MacroKey::End) {
            Some(MacroKey::End)
        } else if s == key_name(MacroKey::F10) {
            Some(MacroKey::F10)
        } else if s == key_name(MacroKey::F11) {
            Some(MacroKey::F11)
        } else if s == key_name(MacroKey::F12) {
            Some(MacroKey::F12)
        } else if s == key_name(MacroKey::Tab) {
            Some(MacroKey::Tab)
        } else {
            None
        }
    } else if s.len() == 4 {
        if s == key_name(MacroKey::Home) {
            Some(MacroKey::Home)
        } else {
            None
        }
    } else if s.len() == 5 {
        if s == key_name(MacroKey::AltGr) {
            Some(MacroKey::AltGr)
        } else if s == key_name(MacroKey::Space) {
            Some(MacroKey::Space)
        } else {
            None
        }
    } else if s.len() == 6 {
        if s == key_name(MacroKey::Delete) {
            Some(MacroKey::Delete)
        } else if s == key_name(MacroKey::Escape) {
            Some(MacroKey::Escape)
        } else if s == key_name(MacroKey::PageUp) {
            Some(MacroKey::PageUp)
        } else if s == key_name(MacroKey::Return) {
            Some(MacroKey::Return)
        } else {
            None
        }
    } else if s.len() == 7 {
        if s == key_name(MacroKey::UpArrow) {
            Some(MacroKey::UpArrow)
        } else {
            None
        }
    } else if s.len() == 8 {
        if s == key_name(MacroKey::CapsLock) {
            Some(MacroKey::CapsLock)
        } else if s == key_name(MacroKey::MetaLeft) {
            Some(MacroKey::MetaLeft)
        } else if s == key_name(MacroKey::PageDown) {
            Some(MacroKey::PageDown)
        } else {
            None
        }
    } else if s.len() == 9 {
        if s == key_name(MacroKey::Backspace) {
            Some(MacroKey::Backspace)
        } else if s == key_name(MacroKey::DownArrow) {
            Some(MacroKey::DownArrow)
        } else if s == key_name(MacroKey::LeftArrow) {
            Some(MacroKey::LeftArrow)
        } else if s == key_name(MacroKey::MetaRight) {
            Some(MacroKey::MetaRight)
        } else if s == key_name(MacroKey::ShiftLeft) {
            Some(MacroKey::ShiftLeft)
        } else {
            None
        }
    } else if s.len() == 10 {
        if s == key_name(MacroKey::RightArrow) {
            Some(MacroKey::RightArrow)
        } else if s == key_name(MacroKey::ShiftRight) {
            Some(MacroKey::ShiftRight)
        } else {
            None
        }
    } else if s.len() == 11 {
        if s == key_name(MacroKey::ControlLeft) {
            Some(MacroKey::ControlLeft)
        } else {
            None
        }
    } else if s.len() == 12 {
        if s == key_name(MacroKey::ControlRight) {
            Some(MacroKey::ControlRight)
        } else {
            None
        }
    } else {
        None
    }
}

/// The key a name stands for: one of the names of `key_name`.
pub open spec fn key_named(s: Seq<char>) -> Option<MacroKey> {
    if s.len() == 4 && s[0] == 'K' && s[1] == 'e' && s[2] == 'y' {
        letter_key(s[3])
    } else if s.len() == 4 && s[0] == 'N' && s[1] == 'u' && s[2] == 'm' {
        digit_key(s[3])
    } else {
        special_key(s)
    }
}

fn letter_key_of(c: char) -> (r: Option<MacroKey>)
    ensures
        r == letter_key(c),
{
    if c == 'A' {
        Some(MacroKey::KeyA)
    } else if c == 'B' {
        Some(MacroKey::KeyB)
    } else if c == 'C' {
        Some(MacroKey::KeyC)
    } else if c == 'D' {
        Some(MacroKey::KeyD)
    } else if c == 'E' {
        Some(MacroKey::KeyE)
    } else if c == 'F' {
        Some(MacroKey::KeyF)
    } else if c == 'G' {
        Some(MacroKey::KeyG)
    } else if c == 'H' {
        Some(MacroKey::KeyH)
    } else if c == 'I' {
        Some(MacroKey::KeyI)
    } else if c == 'J' {
        Some(MacroKey::KeyJ)
    } else if c == 'K' {
        Some(MacroKey::KeyK)
    } else if c == 'L' {
        Some(MacroKey::KeyL)
    } else if c == 'M' {
        Some(MacroKey::KeyM)
    } else if c == 'N' {
        Some(MacroKey::KeyN)
    } else if c == 'O' {
        Some(MacroKey::KeyO)
    } else if c == 'P' {
        Some(MacroKey::KeyP)
    } else if c == 'Q' {
        Some(MacroKey::KeyQ)
    } else if c == 'R' {
        Some(MacroKey::KeyR)
    } else if c == 'S' {
        Some(MacroKey::KeyS)
    } else if c == 'T' {
        Some(MacroKey::KeyT)
    } else if c == 'U' {
        Some(MacroKey::KeyU)
    } else if c == 'V' {
        Some(MacroKey::KeyV)
    } else if c == 'W' {
        Some(MacroKey::KeyW)
    } else if c == 'X' {
        Some(MacroKey::KeyX)
    } else if c == 'Y' {
        Some(MacroKey::KeyY)
    } else if c == 'Z' {
        Some(MacroKey::KeyZ)
    } else {
        None
    }
}

fn digit_key_of(c: char) -> (r: Option<MacroKey>)
    ensures
        r == digit_key(c),
{
    if c == '0' {
        Some(MacroKey::Num0)
    } else if c == '1' {
        Some(MacroKey::Num1)
    } else if c == '2' {
        Some(MacroKey::Num2)
    } else if c == '3' {
        Some(MacroKey::Num3)
    } else if c == '4' {
        Some(MacroKey::Num4)
    } else if c == '5' {
        Some(MacroKey::Num5)
    } else if c == '6' {
        Some(MacroKey::Num6)
    } else if c == '7' {
        Some(MacroKey::Num7)
    } else if c == '8' {
        Some(MacroKey::Num8)
    } else if c == '9' {
        Some(MacroKey::Num9)
    } else {
        None
    }
}

fn special_key_of(s: &Vec<char>) -> (r: Option<MacroKey>)
    ensures
        r == special_key(s@),
{
    let n = s.len();
    if n == 2 {
        if chars_eq(s, &vec!['F', '1']) {
            Some(MacroKey::F1)
        } else if chars_eq(s, &vec!['F', '2']) {
            Some(MacroKey::F2)
        } else if chars_eq(s, &vec!['F', '3']) {
            Some(MacroKey::F3)
        } else if chars_eq(s, &vec!['F', '4']) {
            Some(MacroKey::F4)
        } else if chars_eq(s, &vec!['F', '5']) {
            Some(MacroKey::F5)
        } else if chars_eq(s, &vec!['F', '6']) {
            Some(MacroKey::F6)
        } else if chars_eq(s, &vec!['F', '7']) {
            Some(MacroKey::F7)
        } else if chars_eq(s, &vec!['F', '8']) {
            Some(MacroKey::F8)
        } else if chars_eq(s, &vec!['F', '9']) {
            Some(MacroKey::F9)
        } else {
            None
        }
    } else if n == 3 {
        if chars_eq(s, &vec!['A', 'l', 't']) {
            Some(MacroKey::Alt)
        } else if chars_eq(s, &vec!['E', 'n', 'd']) {
            Some(MacroKey::End)
        } else if chars_eq(s, &vec!['F', '1', '0']) {
            Some(MacroKey::F10)
        } else if chars_eq(s, &vec!['F', '1', '1']) {
            Some(MacroKey::F11)
        } else if chars_eq(s, &vec!['F', '1', '2']) {
            Some(MacroKey::F12)
        } else if chars_eq(s, &vec!['T', 'a', 'b']) {
            Some(MacroKey::Tab)
        } else {
            None
        }
    } else if n == 4 {
        if chars_eq(s, &vec!['H', 'o', 'm', 'e']) {
            Some(MacroKey::Home)
        } else {
            None
        }
    } else if n == 5 {
        if chars_eq(s, &vec!['A', 'l', 't', 'G', 'r']) {
            Some(MacroKey::AltGr)
        } else if chars_eq(s, &vec!['S', 'p', 'a', 'c', 'e']) {
            Some(MacroKey::Space)
        } else {
            None
        }
    } else if n == 6 {
        if chars_eq(s, &vec!['D', 'e', 'l', 'e', 't', 'e']) {
            Some(MacroKey::Delete)
        } else if chars_eq(s, &vec!['E', 's', 'c', 'a', 'p', 'e']) {
            Some(MacroKey::Escape)
        } else if chars_eq(s, &vec!['P', 'a', 'g', 'e', 'U', 'p']) {
            Some(MacroKey::PageUp)
        } else if chars_eq(s, &vec!['R', 'e', 't', 'u', 'r', 'n']) {
            Some(MacroKey::Return)
        } else {
            None
        }
    } else if n == 7 {
        if chars_eq(s, &vec!['U', 'p', 'A', 'r', 'r', 'o', 'w']) {
            Some(MacroKey::UpArrow)
        } else {
            None
        }
    } else if n == 8 {
        if chars_eq(s, &vec!['C', 'a', 'p', 's', 'L', 'o', 'c', 'k']) {
            Some(MacroKey::CapsLock)
        } else if chars_eq(s, &vec!['M', 'e', 't', 'a', 'L', 'e', 'f', 't']) {
            Some(MacroKey::MetaLeft)
        } else if chars_eq(s, &vec!['P', 'a', 'g', 'e', 'D', 'o', 'w', 'n']) {
            Some(MacroKey::PageDown)
        } else {
            None
        }
    } else if n == 9 {
        if chars_eq(s, &vec!['B', 'a', 'c', 'k', 's', 'p', 'a', 'c', 'e']) {
            Some(MacroKey::Backspace)
        } else if chars_eq(s, &vec!['D', 'o', 'w', 'n', 'A', 'r', 'r', 'o', 'w']) {
            Some(MacroKey::DownArrow)
        } else if chars_eq(s, &vec!['L', 'e', 'f', 't', 'A', 'r', 'r', 'o', 'w']) {
            Some(MacroKey::LeftArrow)
        } else if chars_eq(s, &vec!['M', 'e', 't', 'a', 'R', 'i', 'g', 'h', 't']) {
            Some(MacroKey::MetaRight)
        } else if chars_eq(s, &vec!['S', 'h', 'i', 'f', 't', 'L', 'e', 'f', 't']) {
            Some(MacroKey::ShiftLeft)
        } else {
            None
        }
    } else if n == 10 {
        if chars_eq(s, &vec!['R', 'i', 'g', 'h', 't', 'A', 'r', 'r', 'o', 'w']) {
            Some(MacroKey::RightArrow)
        } else if chars_eq(s, &vec!['S', 'h', 'i', 'f', 't', 'R', 'i', 'g', 'h', 't']) {
            Some(MacroKey::ShiftRight)
        } else {
            None
        }
    } else if n == 11 {
        if chars_eq(s, &vec!['C', 'o', 'n', 't', 'r', 'o', 'l', 'L', 'e', 'f', 't']) {
            Some(MacroKey::ControlLeft)
        } else {
            None
        }
    } else if n == 12 {
        if chars_eq(s, &vec!['C', 'o', 'n', 't', 'r', 'o', 'l', 'R', 'i', 'g', 'h', 't']) {
            Some(MacroKey::ControlRight)
        } else {
            None
        }
    } else {
        None
    }
}

/// Every key has a name that stands for it.
pub proof fn lemma_key_name_round_trip(k: MacroKey)
    ensures
        key_named(key_name(k)) == Some(k),
{
    match k {
        MacroKey::Alt => {},
        MacroKey::AltGr => {},
        MacroKey::Backspace => {},
        MacroKey::CapsLock => {},
        MacroKey::ControlLeft => {},
        MacroKey::ControlRight => {},
        MacroKey::Delete => {},
        MacroKey::DownArrow => {},
        MacroKey::End => {},
        MacroKey::Escape => {},
        MacroKey::F1 => {},
        MacroKey::F2 => {},
        MacroKey::F3 => {},
        MacroKey::F4 => {},
        MacroKey::F5 => {},
        MacroKey::F6 => {},
        MacroKey::F7 => {},
        MacroKey::F8 => {},
        MacroKey::F9 => {},
        MacroKey::F10 => {},
        MacroKey::F11 => {},
        MacroKey::F12 => {},
        MacroKey::Home => {},
        MacroKey::LeftArrow => {},
        MacroKey::MetaLeft => {},
        MacroKey::MetaRight => {},
        MacroKey::PageDown => {},
        MacroKey::PageUp => {},
        MacroKey::Return => {},
        MacroKey::RightArrow => {},
        MacroKey::ShiftLeft => {},
        MacroKey::ShiftRight => {},
        MacroKey::Space => {},
        MacroKey::Tab => {},
        MacroKey::UpArrow => {},
        MacroKey::KeyA => {},
        MacroKey::KeyB => {},
        MacroKey::KeyC => {},
        MacroKey::KeyD => {},
        MacroKey::KeyE => {},
        MacroKey::KeyF => {},
        MacroKey::KeyG => {},
        MacroKey::KeyH => {},
        MacroKey::KeyI => {},
        MacroKey::KeyJ => {},
        MacroKey::KeyK => {},
        MacroKey::KeyL => {},
        MacroKey::KeyM => {},
        MacroKey::KeyN => {},
        MacroKey::KeyO => {},
        MacroKey::KeyP => {},
        MacroKey::KeyQ => {},
        MacroKey::KeyR => {},
        MacroKey::KeyS => {},
        MacroKey::KeyT => {},
        MacroKey::KeyU => {},
        MacroKey::KeyV => {},
        MacroKey::KeyW => {},
        MacroKey::KeyX => {},
        MacroKey::KeyY => {},
        MacroKey::KeyZ => {},
        MacroKey::Num0 => {},
        MacroKey::Num1 => {},
        MacroKey::Num2 => {},
        MacroKey::Num3 => {},
        MacroKey::Num4 => {},
        MacroKey::Num5 => {},
        MacroKey::Num6 => {},
        MacroKey::Num7 => {},
        MacroKey::Num8 => {},
        MacroKey::Num9 => {},
    }
}

/// The key that `name` stands for in a recording, if any.
pub fn string_to_key(name: &str) -> (r: Option<MacroKey>)
    ensures
        r == key_named(name@),
{
    let s = to_chars(name);
    if s.len() == 4 && s[0] == 'K' && s[1] == 'e' && s[2] == 'y' {
        letter_key_of(s[3])
    } else if s.len() == 4 && s[0] == 'N' && s[1] == 'u' && s[2] == 'm' {
        digit_key_of(s[3])
    } else {
        special_key_of(&s)
    }
}

// ---------------------------------------------------------------------------
// Recordings

#[derive(Clone, Debug, PartialEq, Eq)]
pub enum MacroEventKind {
    KeyPress(String),
    KeyRelease(String),
}

/// A key event of a recording, `time_us` microseconds after it started.
#[derive(Clone, Debug, PartialEq, Eq)]
pub struct MacroEvent {
    pub time_us: u128,
    pub kind: MacroEventKind,
}

pub open spec fn is_press(k: MacroEventKind) -> bool {
    k is KeyPress
}

/// The name of the key of an event.
pub open spec fn event_key(k: MacroEventKind) -> Seq<char> {
    match k {
        MacroEventKind::KeyPress(n) => n@,
        MacroEventKind::KeyRelease(n) => n@,
    }
}

/// A recorder of key events.
pub struct MacroRecorder {
    pub events: Vec<MacroEvent>,
    pub recording: bool,
    /// The name of the key that ends a recording.
    pub stop_key: String,
}

/// The times of the events never go back.
pub open spec fn times_in_order(events: Seq<MacroEvent>) -> bool {
    forall|i: int, j: int| 0 <= i <= j < events.len() ==> events[i].time_us <= events[j].time_us
}

/// No event of a recording is of the stop key.
pub open spec fn stop_key_unrecorded(r: &MacroRecorder) -> bool {
    forall|i: int| 0 <= i < r.events@.len() ==> event_key(#[trigger] r.events@[i].kind) != r.stop_key@
}

impl MacroRecorder {
    /// An idle recorder with no events, stopped by F8.
    pub fn new() -> (r: MacroRecorder)
        ensures
            r.events@.len() == 0,
            !r.recording,
            r.stop_key@ == seq!['F', '8'],
    {
        let f8 = vec!['F', '8'];
        MacroRecorder { events: Vec::new(), recording: false, stop_key: string_of(&f8, 0, 2) }
    }

    /// Begins a recording, unless one is under way. Returns whether it began:
    /// then the events are cleared, and key events must be fed to `record`.
    pub fn start(&mut self) -> (began: bool)
        ensures
            began == !old(self).recording,
            final(self).recording,
            final(self).stop_key == old(self).stop_key,
            began ==> final(self).events@.len() == 0 && times_in_order(final(self).events@),
            !began ==> final(self).events@ == old(self).events@,
    {
        if self.recording {
            return false;
        }
        self.recording = true;
        self.events.clear();
        true
    }

    /// Ends the recording.
    pub fn stop(&mut self)
        ensures
            !final(self).recording,
            final(self).events@ == old(self).events@,
            final(self).stop_key == old(self).stop_key,
    {
        self.recording = false;
    }

    /// A key event at `time_us`. While recording, a press of the stop key
    /// ends the recording, a release of it is ignored, and any other event
    /// is added; when not recording, nothing changes.
    pub fn record(&mut self, time_us: u128, kind: MacroEventKind)
        ensures
            final(self).stop_key == old(self).stop_key,
            if !old(self).recording {
                &&& final(self).events@ == old(self).events@
                &&& !final(self).recording
            } else if event_key(kind) == old(self).stop_key@ {
                &&& final(self).events@ == old(self).events@
                &&& final(self).recording == !is_press(kind)
            } else {
                &&& final(self).events@ == old(self).events@.push(MacroEvent { time_us, kind })
                &&& final(self).recording
            },
            stop_key_unrecorded(old(self)) ==> stop_key_unrecorded(final(self)),
            times_in_order(old(self).events@) && (old(self).events@.len() == 0 || old(
                self,
            ).events@.last().time_us <= time_us) ==> times_in_order(final(self).events@),
    {
        if !self.recording {
            return;
        }
        let name = match &kind {
            MacroEventKind::KeyPress(n) => n,
            MacroEventKind::KeyRelease(n) => n,
        };
        if *name == self.stop_key {
            if let MacroEventKind::KeyPress(_) = &kind {
                self.recording = false;
            }
            return;
        }
        let ghost old_events = self.events@;
        self.events.push(MacroEvent { time_us, kind });
        assert forall|i: int| 0 <= i < self.events@.len() && stop_key_unrecorded(old(self))
            implies event_key(#[trigger] self.events@[i].kind) != self.stop_key@ by {
            if i < old_events.len() {
                assert(self.events@[i] == old_events[i]);
            }
        }
        assert forall|i: int, j: int|
            0 <= i <= j < self.events@.len() && times_in_order(old_events) && (old_events.len() == 0
                || old_events.last().time_us <= time_us) implies self.events@[i].time_us
            <= self.events@[j].time_us by {
            if j < old_events.len() {
                assert(self.events@[j] == old_events[j]);
                assert(self.events@[i] == old_events[i]);
            } else if i < old_events.len() {
                assert(self.events@[i] == old_events[i]);
                assert(old_events[i].time_us <= old_events[old_events.len() - 1].time_us);
            }
        }
    }

    /// The steps of a playback of the recording, in order.
    pub fn play(&self) -> (steps: Vec<PlaybackStep>)
        ensures
            steps@.len() == self.events@.len(),
            forall|i: int|
                0 <= i < steps@.len() ==> #[trigger] steps@[i] == playback_step(self.events@, i),
            forall|i: int|
                0 <= i < steps@.len() ==> #[trigger] steps@[i].press == (
                self.events@[i].kind is KeyPress),
            forall|i: int, k: MacroKey|
                #![trigger steps@[i], key_name(k)]
                0 <= i < steps@.len() && event_key(self.events@[i].kind) == key_name(k)
                    ==> steps@[i].key == Some(k),
    {
        let mut steps: Vec<PlaybackStep> = Vec::new();
        let mut last: u128 = 0;
        let mut i: usize = 0;
        while i < self.events.len()
            invariant
                0 <= i <= self.events@.len(),
                steps@.len() == i,
                last == (if i == 0 {
                    0
                } else {
                    self.events@[i - 1].time_us
                }),
                forall|k: int|
                    0 <= k < i ==> #[trigger] steps@[k] == playback_step(self.events@, k),
            decreases self.events@.len() - i,
        {
            let ev = &self.events[i];
            let wait = if ev.time_us >= last {
                ev.time_us - last
            } else {
                0
            };
            last = ev.time_us;
            let (press, key) = match &ev.kind {
                MacroEventKind::KeyPress(n) => (true, string_to_key(n.as_str())),
                MacroEventKind::KeyRelease(n) => (false, string_to_key(n.as_str())),
            };
            steps.push(PlaybackStep { wait_us: wait, press, key });
            i = i + 1;
        }
        assert forall|i: int, k: MacroKey|
            #![trigger steps@[i], key_name(k)]
            0 <= i < steps@.len() && event_key(self.events@[i].kind) == key_name(k) implies
            steps@[i].key == Some(k) by {
            lemma_playback_sends_recorded_keys(self.events@, i, k);
        }
        steps
    }
}

/// One step of a playback: wait `wait_us` microseconds, then press or
/// release `key` (nothing where the name is of no known key).
#[derive(Clone, Copy, Debug, PartialEq, Eq, Structural)]
pub struct PlaybackStep {
    pub wait_us: u128,
    pub press: bool,
    pub key: Option<MacroKey>,
}

/// The time of the event before event `i` (0 for the first).
pub open spec fn previous_time(events: Seq<MacroEvent>, i: int) -> u128 {
    if i == 0 {
        0
    } else {
        events[i - 1].time_us
    }
}

/// Playing event `i`: wait the time since the event before it (none where
/// the clock went back), then send its key.
pub open spec fn playback_step(events: Seq<MacroEvent>, i: int) -> PlaybackStep {
    let t = events[i].time_us;
    let p = previous_time(events, i);
    PlaybackStep {
        wait_us: if t >= p {
            (t - p) as u128
        } else {
            0
        },
        press: is_press(events[i].kind),
        key: key_named(event_key(events[i].kind)),
    }
}

/// Playing an event presses its key where the event was a press and releases
/// it where it was a release, and sends the very key the event names, for
/// every key of the list.
pub proof fn lemma_playback_sends_recorded_keys(events: Seq<MacroEvent>, i: int, k: MacroKey)
    requires
        0 <= i < events.len(),
    ensures
        playback_step(events, i).press == (events[i].kind is KeyPress),
        event_key(events[i].kind) == key_name(k) ==> playback_step(events, i).key == Some(k),
{
    lemma_key_name_round_trip(k);
}

/// The sum of the waits of the first `n` steps.
pub open spec fn total_wait(steps: Seq<PlaybackStep>, n: int) -> int
    decreases n,
{
    if n <= 0 {
        0
    } else {
        total_wait(steps, n - 1) + steps[n - 1].wait_us
    }
}

/// Playback keeps the timing of a recording: where the times never go
/// back, the waits before each step add up to the time of its event.
pub proof fn lemma_playback_keeps_timing(events: Seq<MacroEvent>, steps: Seq<PlaybackStep>, n: int)
    requires
        0 <= n <= events.len(),
        steps.len() == events.len(),
        forall|i: int| 0 <= i < steps.len() ==> #[trigger] steps[i] == playback_step(events, i),
        forall|i: int, j: int| 0 <= i <= j < events.len() ==> events[i].time_us <= events[j].time_us,
    ensures
        total_wait(steps, n) == previous_time(events, n),
    decreases n,
{
    if n > 0 {
        lemma_playback_keeps_timing(events, steps, n - 1);
        assert(steps[n - 1] == playback_step(events, n - 1));
    }
}

} // verus!
