//! Bounded clipboard history.
//!
//! Pinned entries float to the top, are not evicted by the size cap,
//! and survive `clear()`.

use vstd::prelude::*;

use crate::text::{clone_strings, contains_string, strings_eq};

verus! {

/// What an entry's payload is, as plain values.
pub enum PayloadView {
    Text,
    Image { blob: Seq<char>, mime: Seq<char>, ext: Seq<char>, bytes: u64 },
    Files { uris: Seq<Seq<char>> },
    Html { blob: Seq<char> },
}

/// An entry as plain values.
pub struct EntryView {
    pub text: Seq<char>,
    pub captured_at: i64,
    pub pinned: bool,
    pub sensitive: bool,
    pub payload: PayloadView,
}

/// Type of payload an entry carries.
pub enum Payload {
    Text,
    Image { blob: String, mime: String, ext: String, bytes: u64 },
    Files { uris: Vec<String> },
    Html { blob: String },
}

impl View for Payload {
    type V = PayloadView;

    open spec fn view(&self) -> PayloadView {
        match self {
            Payload::Text => PayloadView::Text,
            Payload::Image { blob, mime, ext, bytes } => PayloadView::Image {
                blob: blob@,
                mime: mime@,
                ext: ext@,
                bytes: *bytes,
            },
            Payload::Files { uris } => PayloadView::Files { uris: uris.deep_view() },
            Payload::Html { blob } => PayloadView::Html { blob: blob@ },
        }
    }
}

impl View for Entry {
    type V = EntryView;

    open spec fn view(&self) -> EntryView {
        EntryView {
            text: self.text@,
            captured_at: self.captured_at,
            pinned: self.pinned,
            sensitive: self.sensitive,
            payload: self.payload@,
        }
    }
}

impl Clone for Payload {
    fn clone(&self) -> (r: Self)
        ensures
            r@ == self@,
    {
        match self {
            Payload::Text => Payload::Text,
            Payload::Image { blob, mime, ext, bytes } => Payload::Image {
                blob: blob.clone(),
                mime: mime.clone(),
                ext: ext.clone(),
                bytes: *bytes,
            },
            Payload::Files { uris } => Payload::Files { uris: clone_strings(uris) },
            Payload::Html { blob } => Payload::Html { blob: blob.clone() },
        }
    }
}

impl Default for Payload {
    fn default() -> (r: Self)
        ensures
            r@ == PayloadView::Text,
    {
        Payload::Text
    }
}

/// One captured clipboard item.
pub struct Entry {
    /// Searchable, displayable label. For text this is the content.
    pub text: String,
    /// Unix seconds.
    pub captured_at: i64,
    /// Pinned entries float to the top, survive clearing, and are
    /// never evicted by the cap.
    pub pinned: bool,
    /// Looks like a secret: masked in the popup, never saved to disk.
    pub sensitive: bool,
    pub payload: Payload,
}

impl Clone for Entry {
    fn clone(&self) -> (r: Self)
        ensures
            r@ == self@,
    {
        Entry {
            text: self.text.clone(),
            captured_at: self.captured_at,
            pinned: self.pinned,
            sensitive: self.sensitive,
            payload: self.payload.clone(),
        }
    }
}

/// Whether two entries refer to the same content: text by its body,
/// images and rich text by blob hash, files by their URI list.
pub open spec fn same_content(a: EntryView, b: EntryView) -> bool {
    match (a.payload, b.payload) {
        (PayloadView::Text, PayloadView::Text) => a.text == b.text,
        (PayloadView::Image { blob: x, .. }, PayloadView::Image { blob: y, .. }) => x == y,
        (PayloadView::Files { uris: x }, PayloadView::Files { uris: y }) => x == y,
        (PayloadView::Html { blob: x }, PayloadView::Html { blob: y }) => x == y,
        _ => false,
    }
}

/// The blob hashes an entry references (images and rich text).
pub open spec fn entry_blobs(e: EntryView) -> Seq<Seq<char>> {
    match e.payload {
        PayloadView::Image { blob, .. } => seq![blob],
        PayloadView::Html { blob } => seq![blob],
        _ => Seq::empty(),
    }
}

impl Entry {
    /// Whether `self` and `other` hold the same content.
    pub fn same_content(&self, other: &Entry) -> (r: bool)
        ensures
            r == same_content(self@, other@),
    {
        match (&self.payload, &other.payload) {
            (Payload::Text, Payload::Text) => self.text == other.text,
            (Payload::Image { blob: a, .. }, Payload::Image { blob: b, .. }) => *a == *b,
            (Payload::Files { uris: a }, Payload::Files { uris: b }) => strings_eq(a, b),
            (Payload::Html { blob: a }, Payload::Html { blob: b }) => *a == *b,
            _ => false,
        }
    }

    /// All blob hashes this entry references.
    pub fn blob_hashes(&self) -> (r: Vec<String>)
        ensures
            r.deep_view() == entry_blobs(self@),
    {
        let mut hashes: Vec<String> = Vec::new();
        match &self.payload {
            Payload::Image { blob, .. } => hashes.push(blob.clone()),
            Payload::Html { blob } => hashes.push(blob.clone()),
            _ => {},
        }
        assert(hashes.deep_view() =~= entry_blobs(self@));
        hashes
    }
}

// ---------------------------------------------------------------------
// The model of a history: a sequence of entries, newest first within
// each section.

/// The index of the first unpinned entry, or the length when every
/// entry is pinned.
pub open spec fn first_unpinned(s: Seq<EntryView>) -> int
    decreases s.len(),
{
    if s.len() == 0 {
        0
    } else if !s[0].pinned {
        0
    } else {
        1 + first_unpinned(s.drop_first())
    }
}

/// The index of the last unpinned entry, or -1 when there is none.
pub open spec fn last_unpinned(s: Seq<EntryView>) -> int
    decreases s.len(),
{
    if s.len() == 0 {
        -1
    } else if !s.last().pinned {
        s.len() - 1
    } else {
        last_unpinned(s.drop_last())
    }
}

/// The index of the first entry with the same content as `e`, or -1.
pub open spec fn find_same(s: Seq<EntryView>, e: EntryView) -> int
    decreases s.len(),
{
    if s.len() == 0 {
        -1
    } else if same_content(s[0], e) {
        0
    } else {
        let r = find_same(s.drop_first(), e);
        if r < 0 { -1 } else { r + 1 }
    }
}

/// The pinned entries of `s`, in order.
pub open spec fn pinned_of(s: Seq<EntryView>) -> Seq<EntryView>
    decreases s.len(),
{
    if s.len() == 0 {
        Seq::empty()
    } else if s.last().pinned {
        pinned_of(s.drop_last()).push(s.last())
    } else {
        pinned_of(s.drop_last())
    }
}

/// The unpinned entries of `s`, in order.
pub open spec fn unpinned_of(s: Seq<EntryView>) -> Seq<EntryView>
    decreases s.len(),
{
    if s.len() == 0 {
        Seq::empty()
    } else if !s.last().pinned {
        unpinned_of(s.drop_last()).push(s.last())
    } else {
        unpinned_of(s.drop_last())
    }
}

/// Every pinned entry comes before every unpinned one.
pub open spec fn sectioned(s: Seq<EntryView>) -> bool {
    forall|i: int, j: int| 0 <= i < j < s.len() && #[trigger] s[j].pinned ==> #[trigger] s[i].pinned
}

/// The entries of `s` not flagged sensitive, in order.
pub open spec fn unsensitive_of(s: Seq<EntryView>) -> Seq<EntryView>
    decreases s.len(),
{
    if s.len() == 0 {
        Seq::empty()
    } else if !s.last().sensitive {
        unsensitive_of(s.drop_last()).push(s.last())
    } else {
        unsensitive_of(s.drop_last())
    }
}

/// Whether some entry of `s` references blob `h`.
pub open spec fn references_blob(s: Seq<EntryView>, h: Seq<char>) -> bool {
    exists|i: int| 0 <= i < s.len() && #[trigger] entry_blobs(s[i]).contains(h)
}

/// `e` placed at the top of its section: pinned entries go to the very
/// front, unpinned ones just after the last pinned entry.
pub open spec fn insert_in_section(s: Seq<EntryView>, e: EntryView) -> Seq<EntryView> {
    if e.pinned {
        seq![e] + s
    } else {
        s.insert(first_unpinned(s), e)
    }
}

/// Drop the oldest unpinned entry while the history is longer than
/// `cap`; stop when only pinned entries are left.
pub open spec fn evict(s: Seq<EntryView>, cap: nat) -> Seq<EntryView>
    decreases s.len(),
{
    if s.len() <= cap || last_unpinned(s) < 0 {
        s
    } else {
        proof { lemma_last_unpinned(s); }
        evict(s.remove(last_unpinned(s)), cap)
    }
}

/// An empty text entry: never recorded.
pub open spec fn is_blank(e: EntryView) -> bool {
    e.text.len() == 0 && e.payload is Text
}

/// The history after pushing `e` with size cap `cap`.
pub open spec fn pushed(s: Seq<EntryView>, e: EntryView, cap: nat) -> Seq<EntryView> {
    if is_blank(e) {
        s
    } else if find_same(s, e) >= 0 {
        let p = find_same(s, e);
        insert_in_section(s.remove(p), EntryView { captured_at: e.captured_at, ..s[p] })
    } else {
        evict(insert_in_section(s, e), cap)
    }
}

/// `s` with the pin of entry `idx` flipped, pinned entries first.
pub open spec fn pin_toggled(s: Seq<EntryView>, idx: int) -> Seq<EntryView> {
    let t = s.update(idx, EntryView { pinned: !s[idx].pinned, ..s[idx] });
    pinned_of(t) + unpinned_of(t)
}

// ---------------------------------------------------------------------
// Facts about the model.

pub proof fn lemma_first_unpinned(s: Seq<EntryView>)
    ensures
        0 <= first_unpinned(s) <= s.len(),
        forall|j: int| 0 <= j < first_unpinned(s) ==> #[trigger] s[j].pinned,
        first_unpinned(s) < s.len() ==> !s[first_unpinned(s)].pinned,
    decreases s.len(),
{
    if s.len() > 0 && s[0].pinned {
        lemma_first_unpinned(s.drop_first());
        assert forall|j: int| 0 <= j < first_unpinned(s) implies #[trigger] s[j].pinned by {
            if j > 0 {
                assert(s[j] == s.drop_first()[j - 1]);
            }
        }
    }
}

pub proof fn lemma_last_unpinned(s: Seq<EntryView>)
    ensures
        -1 <= last_unpinned(s) < s.len(),
        forall|j: int| last_unpinned(s) < j < s.len() ==> #[trigger] s[j].pinned,
        last_unpinned(s) >= 0 ==> !s[last_unpinned(s)].pinned,
    decreases s.len(),
{
    if s.len() > 0 && s.last().pinned {
        lemma_last_unpinned(s.drop_last());
        assert forall|j: int| last_unpinned(s) < j < s.len() implies #[trigger] s[j].pinned by {
            if j < s.len() - 1 {
                assert(s[j] == s.drop_last()[j]);
            }
        }
    }
}

pub proof fn lemma_find_same(s: Seq<EntryView>, e: EntryView)
    ensures
        -1 <= find_same(s, e) < s.len(),
        find_same(s, e) >= 0 ==> same_content(s[find_same(s, e)], e),
        forall|j: int| 0 <= j < s.len() && (find_same(s, e) < 0 || j < find_same(s, e))
            ==> !same_content(#[trigger] s[j], e),
    decreases s.len(),
{
    if s.len() > 0 && !same_content(s[0], e) {
        lemma_find_same(s.drop_first(), e);
        assert forall|j: int| 0 <= j < s.len() && (find_same(s, e) < 0 || j < find_same(s, e))
            implies !same_content(#[trigger] s[j], e) by {
            if j > 0 {
                assert(s[j] == s.drop_first()[j - 1]);
            }
        }
    }
}

// ---------------------------------------------------------------------

/// Bounded clipboard history, newest first within each section.
pub struct History {
    entries: Vec<Entry>,
}

impl View for History {
    type V = Seq<EntryView>;

    closed spec fn view(&self) -> Seq<EntryView> {
        self.entries@.map_values(|e: Entry| e@)
    }
}

impl Clone for History {
    fn clone(&self) -> (r: Self)
        ensures
            r@ == self@,
    {
        let mut entries: Vec<Entry> = Vec::new();
        let mut i: usize = 0;
        while i < self.entries.len()
            invariant
                i <= self.entries.len(),
                entries@.map_values(|e: Entry| e@) =~= self@.take(i as int),
            decreases self.entries.len() - i,
        {
            let e = self.entries[i].clone();
            assert(self@[i as int] == self.entries@[i as int]@);
            entries.push(e);
            assert(self@.take(i + 1) =~= self@.take(i as int).push(e@));
            i += 1;
        }
        assert(self@.take(self@.len() as int) =~= self@);
        History { entries }
    }
}

impl History {
    /// An empty history.
    pub fn new() -> (r: Self)
        ensures
            r@ == Seq::<EntryView>::empty(),
    {
        let r = History { entries: Vec::new() };
        assert(r@ =~= Seq::<EntryView>::empty());
        r
    }

    /// A history holding `entries` in the given order.
    pub fn from_entries(entries: Vec<Entry>) -> (r: Self)
        ensures
            r@ == entries@.map_values(|e: Entry| e@),
    {
        History { entries }
    }

    /// The entries, in order.
    pub fn iter(&self) -> (r: &[Entry])
        ensures
            r@.map_values(|e: Entry| e@) == self@,
    {
        self.entries.as_slice()
    }

    pub fn len(&self) -> (r: usize)
        ensures
            r == self@.len(),
    {
        self.entries.len()
    }

    pub fn is_empty(&self) -> (r: bool)
        ensures
            r == (self@.len() == 0),
    {
        self.entries.len() == 0
    }

    pub fn get(&self, idx: usize) -> (r: Option<&Entry>)
        ensures
            idx < self@.len() ==> (r matches Some(e) && e@ == self@[idx as int]),
            idx >= self@.len() ==> r is None,
    {
        if idx < self.entries.len() {
            Some(&self.entries[idx])
        } else {
            None
        }
    }

    fn first_unpinned_index(&self) -> (r: usize)
        ensures
            r == first_unpinned(self@),
    {
        proof { lemma_first_unpinned(self@); }
        let mut i: usize = 0;
        while i < self.entries.len()
            invariant
                i <= self.entries.len(),
                forall|j: int| 0 <= j < i ==> #[trigger] self@[j].pinned,
            decreases self.entries.len() - i,
        {
            if !self.entries[i].pinned {
                proof { lemma_first_unpinned(self@); }
                assert(!self@[i as int].pinned);
                return i;
            }
            i += 1;
        }
        i
    }

    /// Insert `entry` at the top of its section.
    fn insert_in_section(&mut self, entry: Entry)
        ensures
            final(self)@ == insert_in_section(old(self)@, entry@),
    {
        let ghost s = self@;
        if entry.pinned {
            self.entries.insert(0, entry);
            assert(self@ =~= seq![entry@] + s);
        } else {
            let at = self.first_unpinned_index();
            proof { lemma_first_unpinned(s); }
            self.entries.insert(at, entry);
            assert(self@ =~= s.insert(at as int, entry@));
        }
    }

    fn last_unpinned_index(&self) -> (r: Option<usize>)
        ensures
            match r {
                Some(p) => p as int == last_unpinned(self@),
                None => last_unpinned(self@) < 0,
            },
    {
        let mut i: usize = self.entries.len();
        while i > 0
            invariant
                i <= self.entries.len(),
                forall|j: int| i <= j < self@.len() ==> #[trigger] self@[j].pinned,
            decreases i,
        {
            if !self.entries[i - 1].pinned {
                proof { lemma_last_unpinned(self@); }
                assert(!self@[i - 1].pinned);
                return Some(i - 1);
            }
            i -= 1;
        }
        proof { lemma_last_unpinned(self@); }
        None
    }

    /// Push an entry. An empty text entry is ignored. An entry whose
    /// content is already present is not added again: the existing
    /// entry keeps its pin, takes the new capture time, and moves to
    /// the top of its section. A new entry goes to the top of its
    /// section, then the oldest unpinned entries are evicted while the
    /// history is longer than `cap`; when only pinned entries are left
    /// the cap is exceeded.
    pub fn push(&mut self, entry: Entry, cap: usize)
        ensures
            final(self)@ == pushed(old(self)@, entry@, cap as nat),
    {
        let ghost s = self@;
        if entry.text.as_str().is_empty() {
            if let Payload::Text = entry.payload {
                return;
            }
        }
        let mut pos: usize = 0;
        while pos < self.entries.len()
            invariant
                self@ == s,
                pos <= self.entries.len(),
                forall|j: int| 0 <= j < pos ==> !same_content(#[trigger] s[j], entry@),
            ensures
                self@ == s,
                pos <= self.entries.len(),
                forall|j: int| 0 <= j < pos ==> !same_content(#[trigger] s[j], entry@),
                pos < self.entries.len() ==> same_content(s[pos as int], entry@),
            decreases self.entries.len() - pos,
        {
            if self.entries[pos].same_content(&entry) {
                assert(s[pos as int] == self.entries@[pos as int]@);
                break;
            }
            pos += 1;
        }
        proof { lemma_find_same(s, entry@); }
        if pos < self.entries.len() {
            assert(find_same(s, entry@) == pos as int) by {
                assert(same_content(s[pos as int], entry@));
            }
            let mut existing = self.entries.remove(pos);
            assert(self@ =~= s.remove(pos as int));
            existing.captured_at = entry.captured_at;
            assert(existing@ == (EntryView { captured_at: entry@.captured_at, ..s[pos as int] }));
            self.insert_in_section(existing);
            return;
        }
        assert(find_same(s, entry@) < 0);
        self.insert_in_section(entry);
        let ghost target = evict(self@, cap as nat);
        loop
            invariant
                evict(self@, cap as nat) == target,
            ensures
                self@ == target,
            decreases self.entries.len(),
        {
            if self.entries.len() <= cap {
                break;
            }
            match self.last_unpinned_index() {
                Some(p) => {
                    proof { lemma_last_unpinned(self@); }
                    let ghost before = self@;
                    self.entries.remove(p);
                    assert(self@ =~= before.remove(p as int));
                },
                None => {
                    break;
                },
            }
        }
    }

    /// Toggle the pin of the entry at `idx`, then order the entries so
    /// that pinned ones come first (each section keeps its order).
    /// Returns the new pin state, or `None` when `idx` is out of range.
    pub fn toggle_pin(&mut self, idx: usize) -> (r: Option<bool>)
        ensures
            idx < old(self)@.len() ==> r == Some(!old(self)@[idx as int].pinned)
                && final(self)@ == pin_toggled(old(self)@, idx as int),
            idx >= old(self)@.len() ==> r is None && final(self)@ == old(self)@,
    {
        if idx >= self.entries.len() {
            return None;
        }
        let ghost s = self@;
        let mut e = self.entries.remove(idx);
        e.pinned = !e.pinned;
        let new_state = e.pinned;
        self.entries.insert(idx, e);
        let ghost t = self@;
        assert(t =~= s.update(idx as int, EntryView { pinned: !s[idx as int].pinned, ..s[idx as int] }));
        let mut all: Vec<Entry> = Vec::new();
        std::mem::swap(&mut all, &mut self.entries);
        let mut pinned: Vec<Entry> = Vec::new();
        let mut unpinned: Vec<Entry> = Vec::new();
        for e in it: all.into_iter()
            invariant
                it.seq().map_values(|e: Entry| e@) == t,
                pinned@.map_values(|e: Entry| e@) == pinned_of(t.take(it.index() as int)),
                unpinned@.map_values(|e: Entry| e@) == unpinned_of(t.take(it.index() as int)),
        {
            let ghost k = it.index() as int;
            assert(t.take(k + 1).drop_last() =~= t.take(k));
            assert(t[k] == e@);
            if e.pinned {
                let ghost before = pinned@;
                pinned.push(e);
                assert(pinned@.map_values(|e: Entry| e@) =~= before.map_values(|e: Entry| e@).push(t[k]));
            } else {
                let ghost before = unpinned@;
                unpinned.push(e);
                assert(unpinned@.map_values(|e: Entry| e@) =~= before.map_values(|e: Entry| e@).push(t[k]));
            }
        }
        assert(t.take(t.len() as int) =~= t);
        let ghost p = pinned@;
        let ghost u = unpinned@;
        pinned.append(&mut unpinned);
        assert(pinned@.map_values(|e: Entry| e@) =~= p.map_values(|e: Entry| e@) + u.map_values(|e: Entry| e@));
        self.entries = pinned;
        Some(new_state)
    }

    /// Remove every unpinned entry; pinned entries stay, in order.
    pub fn clear(&mut self)
        ensures
            final(self)@ == pinned_of(old(self)@),
    {
        let ghost t = self@;
        let mut all: Vec<Entry> = Vec::new();
        std::mem::swap(&mut all, &mut self.entries);
        let mut kept: Vec<Entry> = Vec::new();
        for e in it: all.into_iter()
            invariant
                it.seq().map_values(|e: Entry| e@) == t,
                kept@.map_values(|e: Entry| e@) == pinned_of(t.take(it.index() as int)),
        {
            let ghost k = it.index() as int;
            assert(t.take(k + 1).drop_last() =~= t.take(k));
            assert(t[k] == e@);
            if e.pinned {
                let ghost before = kept@;
                kept.push(e);
                assert(kept@.map_values(|e: Entry| e@) =~= before.map_values(|e: Entry| e@).push(t[k]));
            }
        }
        assert(t.take(t.len() as int) =~= t);
        self.entries = kept;
    }

    /// The history as it is written to disk: every entry flagged
    /// sensitive is left out, pinned or not.
    pub fn persistable(&self) -> (r: History)
        ensures
            r@ == unsensitive_of(self@),
    {
        let ghost t = self@;
        let mut kept: Vec<Entry> = Vec::new();
        let mut i: usize = 0;
        while i < self.entries.len()
            invariant
                t == self@,
                i <= self.entries.len(),
                kept@.map_values(|e: Entry| e@) == unsensitive_of(t.take(i as int)),
            decreases self.entries.len() - i,
        {
            assert(t.take(i + 1).drop_last() =~= t.take(i as int));
            assert(t[i as int] == self.entries@[i as int]@);
            if !self.entries[i].sensitive {
                let ghost before = kept@;
                kept.push(self.entries[i].clone());
                assert(kept@.map_values(|e: Entry| e@) =~= before.map_values(|e: Entry| e@).push(t[i as int]));
            }
            i += 1;
        }
        assert(t.take(t.len() as int) =~= t);
        History { entries: kept }
    }

    /// The hashes of all blobs referenced by some entry, each once.
    pub fn live_blob_hashes(&self) -> (r: Vec<String>)
        ensures
            r.deep_view().no_duplicates(),
            forall|h: Seq<char>| r.deep_view().contains(h) <==> references_blob(self@, h),
    {
        let ghost t = self@;
        let mut r: Vec<String> = Vec::new();
        let mut i: usize = 0;
        while i < self.entries.len()
            invariant
                t == self@,
                i <= self.entries.len(),
                r.deep_view().no_duplicates(),
                forall|h: Seq<char>| r.deep_view().contains(h) <==> references_blob(t.take(i as int), h),
            decreases self.entries.len() - i,
        {
            let hashes = self.entries[i].blob_hashes();
            assert(t[i as int] == self.entries@[i as int]@);
            let ghost before = r.deep_view();
            if hashes.len() > 0 {
                let h = &hashes[0];
                assert(hashes.deep_view()[0] == h@);
                if !contains_string(&r, h.as_str()) {
                    r.push(h.clone());
                    assert(r.deep_view() =~= before.push(h@));
                    assert forall|a: int, b: int| 0 <= a < b < r.deep_view().len()
                        implies r.deep_view()[a] != r.deep_view()[b] by {
                        if b == before.len() {
                            assert(before[a] == r.deep_view()[a]);
                        } else {
                            assert(before[a] == r.deep_view()[a]);
                            assert(before[b] == r.deep_view()[b]);
                        }
                    }
                    assert(r.deep_view().contains(h@)) by {
                        assert(r.deep_view()[before.len() as int] == h@);
                    }
                }
                assert(r.deep_view().contains(h@));
            }
            assert(hashes.deep_view().len() <= 1);
            assert(hashes.len() > 0 ==> r.deep_view().contains(hashes.deep_view()[0]));
            assert forall|x: Seq<char>| before.contains(x) implies r.deep_view().contains(x) by {
                let j = choose|j: int| 0 <= j < before.len() && before[j] == x;
                assert(r.deep_view()[j] == x);
            }
            let ghost p = t.take(i + 1);
            assert forall|x: Seq<char>| references_blob(p, x) implies r.deep_view().contains(x) by {
                let j = choose|j: int| 0 <= j < p.len() && #[trigger] entry_blobs(p[j]).contains(x);
                if j < i {
                    assert(t.take(i as int)[j] == p[j]);
                    assert(references_blob(t.take(i as int), x));
                    assert(before.contains(x));
                } else {
                    assert(p[j] == t[i as int]);
                    assert(hashes.deep_view().contains(x));
                    assert(x == hashes.deep_view()[0]);
                }
            }
            assert forall|x: Seq<char>| r.deep_view().contains(x) implies references_blob(p, x) by {
                if before.contains(x) {
                    assert(references_blob(t.take(i as int), x));
                    let j = choose|j: int| 0 <= j < i && #[trigger] entry_blobs(t.take(i as int)[j]).contains(x);
                    assert(p[j] == t.take(i as int)[j]);
                } else {
                    let j = choose|j: int| 0 <= j < r.deep_view().len() && r.deep_view()[j] == x;
                    assert(j == before.len());
                    assert(x == hashes.deep_view()[0]);
                    assert(p[i as int] == t[i as int]);
                    assert(entry_blobs(p[i as int]).contains(x));
                }
            }
            i += 1;
        }
        assert(t.take(t.len() as int) =~= t);
        r
    }
}

} // verus!
