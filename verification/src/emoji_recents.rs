//! Bounded "recently picked emoji" list.

use vstd::prelude::*;

use crate::mru::{mru_push, mru_push_string};
use crate::text::string_of_str;

verus! {

/// Cap on stored recents: one full popover row plus some overflow.
pub const MAX_RECENT_EMOJI: usize = 20;

/// Recently picked emoji, newest first.
pub struct EmojiRecents {
    entries: Vec<String>,
}

impl View for EmojiRecents {
    type V = Seq<Seq<char>>;

    closed spec fn view(&self) -> Seq<Seq<char>> {
        self.entries.deep_view()
    }
}

impl EmojiRecents {
    pub fn new() -> (r: Self)
        ensures
            r@ == Seq::<Seq<char>>::empty(),
    {
        let r = EmojiRecents { entries: Vec::new() };
        assert(r@ =~= Seq::<Seq<char>>::empty());
        r
    }

    /// A list holding `entries` as they are (as read back from disk).
    pub fn from_entries(entries: Vec<String>) -> (r: Self)
        ensures
            r@ == entries.deep_view(),
    {
        EmojiRecents { entries }
    }

    /// The emoji, newest first.
    pub fn iter(&self) -> (r: &[String])
        ensures
            r@.map_values(|s: String| s@) == self@,
    {
        assert(self.entries@.map_values(|s: String| s@) =~= self.entries.deep_view());
        self.entries.as_slice()
    }

    pub fn is_empty(&self) -> (r: bool)
        ensures
            r == (self@.len() == 0),
    {
        self.entries.len() == 0
    }

    /// Push an emoji: one already present moves to the front, a new one
    /// goes there and the list is trimmed to its cap. An empty string is
    /// ignored.
    pub fn push(&mut self, emoji: &str)
        ensures
            final(self)@ == if emoji@.len() == 0 {
                old(self)@
            } else {
                mru_push(old(self)@, emoji@, MAX_RECENT_EMOJI as nat)
            },
    {
        if emoji.is_empty() {
            return;
        }
        mru_push_string(&mut self.entries, string_of_str(emoji), MAX_RECENT_EMOJI);
    }
}

} // verus!
