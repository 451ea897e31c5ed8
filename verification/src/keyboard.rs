//! Popup keyboard shortcuts: Esc closes, `1`–`9` pick the Nth filtered
//! clipboard entry, `/` focuses the search box.

use vstd::prelude::*;

use crate::text::{chars_of, str_eq};

verus! {

/// A key press, as far as the shortcuts care.
pub enum Key {
    Escape,
    Character(String),
    Other,
}

/// What a shortcut asks for.
#[derive(PartialEq, Eq, Structural, Clone, Copy, Debug)]
pub enum KeyAction {
    CloseEscape,
    FocusSearch,
    /// Pick the clipboard entry at this (0-based) place of the filtered list.
    PickByNumber(usize),
}

/// The action of a key press. `captured` says that a focused widget
/// already consumed the key (such as typing into the search box): then
/// only Esc acts.
pub open spec fn key_action_of(captured: bool, key: Key) -> Option<KeyAction> {
    match key {
        Key::Escape => Some(KeyAction::CloseEscape),
        Key::Other => None,
        Key::Character(s) => if captured {
            None
        } else if s@ == "/"@ {
            Some(KeyAction::FocusSearch)
        } else if s@.len() > 0 && '1' <= s@[0] <= '9' {
            Some(KeyAction::PickByNumber((s@[0] as u32 - 0x31) as usize))
        } else {
            None
        },
    }
}

/// The action of a key press.
pub fn key_action(captured: bool, key: &Key) -> (r: Option<KeyAction>)
    ensures
        r == key_action_of(captured, *key),
{
    match key {
        Key::Escape => Some(KeyAction::CloseEscape),
        Key::Other => None,
        Key::Character(s) => {
            if captured {
                return None;
            }
            if str_eq(s.as_str(), "/") {
                return Some(KeyAction::FocusSearch);
            }
            let cs = chars_of(s.as_str());
            if cs.len() > 0 && '1' <= cs[0] && cs[0] <= '9' {
                Some(KeyAction::PickByNumber((cs[0] as u32 - 0x31) as usize))
            } else {
                None
            }
        },
    }
}

} // verus!
