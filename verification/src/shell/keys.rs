//! What the keys do.
use pc_keyboard::{DecodedKey, KeyCode};
use vstd::prelude::*;

verus! {

/// The keys of a keyboard, as `pc_keyboard` numbers them.
#[verifier::external_type_specification]
pub struct ExKeyCode(KeyCode);

/// A character, or a key that stands for none.
#[verifier::external_type_specification]
pub struct ExDecodedKey(DecodedKey);

/// What a key asks of the shell.
#[derive(Clone, Copy, Debug, PartialEq, Eq, Structural)]
pub enum Action {
    Enter,
    Cancel,
    Clear,
    Complete,
    Backspace,
    Delete,
    Start,
    End,
    Left,
    Right,
    Previous,
    Next,
    EraseBefore,
    EraseAfter,
    EraseWord,
    PageUp,
    PageDown,
    Insert(u8),
    Nothing,
}

/// The meaning of the control characters and of the other characters.
pub open spec fn action_of_char(c: char) -> Action {
    let n = c as int;
    if c == '\n' || c == '\r' {
        Action::Enter
    } else if n == 0x03 {
        Action::Cancel
    } else if n == 0x0c {
        Action::Clear
    } else if c == '\t' {
        Action::Complete
    } else if n == 0x08 {
        Action::Backspace
    } else if n == 0x7f || n == 0x04 {
        Action::Delete
    } else if n == 0x01 {
        Action::Start
    } else if n == 0x05 {
        Action::End
    } else if n == 0x02 {
        Action::Left
    } else if n == 0x06 {
        Action::Right
    } else if n == 0x10 {
        Action::Previous
    } else if n == 0x0e {
        Action::Next
    } else if n == 0x15 {
        Action::EraseBefore
    } else if n == 0x0b {
        Action::EraseAfter
    } else if n == 0x17 {
        Action::EraseWord
    } else if n < 128 {
        Action::Insert(n as u8)
    } else {
        Action::Nothing
    }
}

pub open spec fn action_of_key(key: DecodedKey) -> Action {
    match key {
        DecodedKey::Unicode(c) => action_of_char(c),
        DecodedKey::RawKey(KeyCode::Home) => Action::Start,
        DecodedKey::RawKey(KeyCode::End) => Action::End,
        DecodedKey::RawKey(KeyCode::ArrowLeft) => Action::Left,
        DecodedKey::RawKey(KeyCode::ArrowRight) => Action::Right,
        DecodedKey::RawKey(KeyCode::ArrowUp) => Action::Previous,
        DecodedKey::RawKey(KeyCode::ArrowDown) => Action::Next,
        DecodedKey::RawKey(KeyCode::Delete) => Action::Delete,
        DecodedKey::RawKey(KeyCode::PageUp) => Action::PageUp,
        DecodedKey::RawKey(KeyCode::PageDown) => Action::PageDown,
        DecodedKey::RawKey(_) => Action::Nothing,
    }
}

fn char_action(c: char) -> (action: Action)
    ensures
        action == action_of_char(c),
{
    let n: u32 = c as u32;
    match n {
        0x0a | 0x0d => Action::Enter,
        0x03 => Action::Cancel,
        0x0c => Action::Clear,
        0x09 => Action::Complete,
        0x08 => Action::Backspace,
        0x7f | 0x04 => Action::Delete,
        0x01 => Action::Start,
        0x05 => Action::End,
        0x02 => Action::Left,
        0x06 => Action::Right,
        0x10 => Action::Previous,
        0x0e => Action::Next,
        0x15 => Action::EraseBefore,
        0x0b => Action::EraseAfter,
        0x17 => Action::EraseWord,
        _ => if n < 128 {
            Action::Insert(n as u8)
        } else {
            Action::Nothing
        },
    }
}

pub fn key_action(key: DecodedKey) -> (action: Action)
    ensures
        action == action_of_key(key),
{
    match key {
        DecodedKey::Unicode(c) => char_action(c),
        DecodedKey::RawKey(KeyCode::Home) => Action::Start,
        DecodedKey::RawKey(KeyCode::End) => Action::End,
        DecodedKey::RawKey(KeyCode::ArrowLeft) => Action::Left,
        DecodedKey::RawKey(KeyCode::ArrowRight) => Action::Right,
        DecodedKey::RawKey(KeyCode::ArrowUp) => Action::Previous,
        DecodedKey::RawKey(KeyCode::ArrowDown) => Action::Next,
        DecodedKey::RawKey(KeyCode::Delete) => Action::Delete,
        DecodedKey::RawKey(KeyCode::PageUp) => Action::PageUp,
        DecodedKey::RawKey(KeyCode::PageDown) => Action::PageDown,
        DecodedKey::RawKey(_) => Action::Nothing,
    }
}

} // verus!
