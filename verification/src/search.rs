//! Case-insensitive search over labels, as the popup's search box does
//! it.

use vstd::prelude::*;

use crate::history::{EntryView, History};
use crate::text::{chars_of, contains_chars, contains_seq};

verus! {

/// What `str::to_lowercase` gives for `s`: the Unicode lowercase
/// mapping, which takes tables to state.
pub uninterp spec fn lowercase(s: Seq<char>) -> Seq<char>;

/// Calls `str::to_lowercase`; the contract claims only that the result
/// is a function of the text alone.
#[verifier::external_body]
fn to_lowercase(s: &str) -> (r: String)
    ensures
        r@ == lowercase(s@),
{
    s.to_lowercase()
}

/// Whether `name` matches the search text `search`: everything matches
/// an empty search; otherwise the lowercased search must occur in the
/// lowercased name.
pub open spec fn is_match(name: Seq<char>, search: Seq<char>) -> bool {
    search.len() == 0 || contains_seq(lowercase(name), lowercase(search))
}

/// The indices of the names that match `search`, in order.
pub open spec fn match_indices(names: Seq<Seq<char>>, search: Seq<char>) -> Seq<int>
    decreases names.len(),
{
    if names.len() == 0 {
        Seq::empty()
    } else {
        let head = match_indices(names.drop_last(), search);
        if is_match(names.last(), search) {
            head.push(names.len() - 1)
        } else {
            head
        }
    }
}

/// The first `limit` indices of the names that match `search`.
pub open spec fn first_matches(names: Seq<Seq<char>>, search: Seq<char>, limit: nat) -> Seq<int> {
    let m = match_indices(names, search);
    if m.len() > limit { m.take(limit as int) } else { m }
}

/// Whether a name matches a search, given both lowercased.
pub open spec fn is_lowered_match(lowered_name: Seq<char>, lowered_search: Seq<char>, search_empty: bool) -> bool {
    search_empty || contains_seq(lowered_name, lowered_search)
}

/// The indices of the lowered names that match, in order.
pub open spec fn lowered_match_indices(names: Seq<Seq<char>>, lowered_search: Seq<char>, search_empty: bool) -> Seq<int>
    decreases names.len(),
{
    if names.len() == 0 {
        Seq::empty()
    } else {
        let head = lowered_match_indices(names.drop_last(), lowered_search, search_empty);
        if is_lowered_match(names.last(), lowered_search, search_empty) {
            head.push(names.len() - 1)
        } else {
            head
        }
    }
}

/// The first `limit` indices of the lowercased names that contain the
/// lowercased search text (every index when the search is empty).
pub fn matching_lowered(
    lowered_names: &Vec<String>,
    lowered_search: &str,
    search_empty: bool,
    limit: usize,
) -> (r: Vec<usize>)
    ensures
        ({
            let m = lowered_match_indices(lowered_names.deep_view(), lowered_search@, search_empty);
            r@.map_values(|i: usize| i as int) == if m.len() > limit { m.take(limit as int) } else { m }
        }),
{
    let ghost n = lowered_names.deep_view();
    let needle = chars_of(lowered_search);
    let mut out: Vec<usize> = Vec::new();
    let mut i: usize = 0;
    while i < lowered_names.len()
        invariant
            i <= lowered_names.len(),
            n == lowered_names.deep_view(),
            needle@ == lowered_search@,
            ({
                let m = lowered_match_indices(n.take(i as int), lowered_search@, search_empty);
                out@.map_values(|k: usize| k as int) == if m.len() > limit { m.take(limit as int) } else { m }
            }),
        decreases lowered_names.len() - i,
    {
        assert(n.take(i + 1).drop_last() =~= n.take(i as int));
        assert(n.take(i + 1).last() == lowered_names@[i as int]@);
        proof { lemma_lowered_len(n.take(i as int), lowered_search@, search_empty); }
        if out.len() >= limit {
            proof {
                let mi = lowered_match_indices(n.take(i as int), lowered_search@, search_empty);
                let m = lowered_match_indices(n, lowered_search@, search_empty);
                assert(out@.map_values(|k: usize| k as int).len() == out.len());
                assert(mi.len() >= limit);
                lemma_lowered_full(n, i as int, lowered_search@, search_empty, limit as nat);
                assert(mi.take(limit as int).len() == limit);
                if mi.len() == limit {
                    assert(mi.take(limit as int) =~= mi);
                }
                if m.len() == limit {
                    assert(m.take(limit as int) =~= m);
                }
            }
            return out;
        }
        let hit = if search_empty {
            true
        } else {
            let hay = chars_of(lowered_names[i].as_str());
            contains_chars(hay.as_slice(), needle.as_slice())
        };
        if hit {
            let ghost before = out@;
            out.push(i);
            assert(out@.map_values(|k: usize| k as int) =~= before.map_values(|k: usize| k as int).push(i as int));
        }
        i += 1;
    }
    assert(n.take(n.len() as int) =~= n);
    out
}

proof fn lemma_lowered_len(names: Seq<Seq<char>>, q: Seq<char>, e: bool)
    ensures
        lowered_match_indices(names, q, e).len() <= names.len(),
    decreases names.len(),
{
    if names.len() > 0 {
        lemma_lowered_len(names.drop_last(), q, e);
    }
}

proof fn lemma_lowered_full(names: Seq<Seq<char>>, i: int, q: Seq<char>, e: bool, limit: nat)
    requires
        0 <= i <= names.len(),
        lowered_match_indices(names.take(i), q, e).len() >= limit,
    ensures
        lowered_match_indices(names, q, e).take(limit as int) == lowered_match_indices(names.take(i), q, e).take(limit as int),
        lowered_match_indices(names, q, e).len() >= limit,
    decreases names.len() - i,
{
    if i < names.len() {
        assert(names.take(i + 1).drop_last() =~= names.take(i));
        let a = lowered_match_indices(names.take(i), q, e);
        let b = lowered_match_indices(names.take(i + 1), q, e);
        assert(b.len() >= a.len());
        lemma_lowered_full(names, i + 1, q, e, limit);
        assert(b.take(limit as int) =~= a.take(limit as int));
    } else {
        assert(names.take(i) =~= names);
    }
}

/// The lowercased names are the names, each lowercased: then matching
/// the lowered names is matching the names.
proof fn lemma_lowered_is_match(names: Seq<Seq<char>>, lowered: Seq<Seq<char>>, search: Seq<char>, lq: Seq<char>)
    requires
        lowered.len() == names.len(),
        forall|k: int| 0 <= k < names.len() ==> #[trigger] lowered[k] == lowercase(names[k]),
        lq == lowercase(search),
    ensures
        lowered_match_indices(lowered, lq, search.len() == 0) == match_indices(names, search),
    decreases names.len(),
{
    if names.len() > 0 {
        assert forall|k: int| 0 <= k < names.len() - 1 implies #[trigger] lowered.drop_last()[k] == lowercase(names.drop_last()[k]) by {
            assert(lowered.drop_last()[k] == lowered[k]);
        }
        lemma_lowered_is_match(names.drop_last(), lowered.drop_last(), search, lq);
    }
}

/// The indices, in order, of at most `limit` names that match `search`.
pub fn matching_indices(names: &Vec<String>, search: &str, limit: usize) -> (r: Vec<usize>)
    ensures
        r@.map_values(|i: usize| i as int) == first_matches(names.deep_view(), search@, limit as nat),
{
    let lq = to_lowercase(search);
    let mut lowered: Vec<String> = Vec::new();
    let mut i: usize = 0;
    while i < names.len()
        invariant
            i <= names.len(),
            lowered.len() == i,
            forall|k: int| 0 <= k < i ==> #[trigger] lowered.deep_view()[k] == lowercase(names.deep_view()[k]),
        decreases names.len() - i,
    {
        let l = to_lowercase(names[i].as_str());
        let ghost before = lowered.deep_view();
        lowered.push(l);
        assert(lowered.deep_view() =~= before.push(l@));
        assert(names.deep_view()[i as int] == names@[i as int]@);
        i += 1;
    }
    proof { lemma_lowered_is_match(names.deep_view(), lowered.deep_view(), search@, lq@); }
    matching_lowered(&lowered, lq.as_str(), search.is_empty(), limit)
}

pub proof fn lemma_match_indices_len(names: Seq<Seq<char>>, search: Seq<char>)
    ensures
        match_indices(names, search).len() <= names.len(),
    decreases names.len(),
{
    if names.len() > 0 {
        lemma_match_indices_len(names.drop_last(), search);
    }
}

/// The labels of the entries of a history.
pub open spec fn entry_texts(s: Seq<EntryView>) -> Seq<Seq<char>> {
    s.map_values(|e: EntryView| e.text)
}

/// The indices of the history entries whose label matches `search`.
pub fn filtered_clipboard(history: &History, search: &str) -> (r: Vec<usize>)
    ensures
        r@.map_values(|i: usize| i as int) == match_indices(entry_texts(history@), search@),
{
    let entries = history.iter();
    let mut names: Vec<String> = Vec::new();
    let mut i: usize = 0;
    while i < entries.len()
        invariant
            i <= entries.len(),
            entries@.map_values(|e: crate::history::Entry| e@) == history@,
            names.deep_view() =~= entry_texts(history@).take(i as int),
        decreases entries.len() - i,
    {
        assert(history@[i as int] == entries@[i as int]@);
        names.push(entries[i].text.clone());
        assert(entry_texts(history@).take(i + 1) =~= entry_texts(history@).take(i as int).push(entries@[i as int].text@));
        i += 1;
    }
    assert(entry_texts(history@).take(entries.len() as int) =~= entry_texts(history@));
    proof { lemma_match_indices_len(names.deep_view(), search@); }
    matching_indices(&names, search, names.len())
}

/// Every match index points at a name.
pub proof fn lemma_match_indices_bound(names: Seq<Seq<char>>, search: Seq<char>)
    ensures
        forall|k: int| 0 <= k < match_indices(names, search).len()
            ==> 0 <= #[trigger] match_indices(names, search)[k] < names.len(),
    decreases names.len(),
{
    if names.len() > 0 {
        lemma_match_indices_bound(names.drop_last(), search);
        let head = match_indices(names.drop_last(), search);
        let all = match_indices(names, search);
        assert forall|k: int| 0 <= k < all.len() implies 0 <= #[trigger] all[k] < names.len() by {
            if k < head.len() {
                assert(all[k] == head[k]);
            }
        }
    }
}

// ---------------------------------------------------------------------
// The emoji picker.

/// How many emojis `emojis::iter` walks in emojis 0.9.1: the entries of
/// the crate's table that have no skin tone or the default one.
pub const EMOJI_COUNT: usize = 1923;

/// What `Emoji::as_str` gives for the `i`-th emoji that `emojis::iter`
/// walks: its characters.
pub uninterp spec fn emoji_glyph(i: int) -> Seq<char>;

/// What `Emoji::name` gives for the `i`-th emoji that `emojis::iter`
/// walks: its CLDR short name.
pub uninterp spec fn emoji_name(i: int) -> Seq<char>;

/// Calls `emojis::iter`, which walks the crate's static emoji table in
/// its order, default skin tones only, and hands each emoji back as its
/// characters (`Emoji::as_str`) and its name (`Emoji::name`). The
/// contract claims the table's length and names its entries by
/// position.
#[verifier::external_body]
fn emoji_table() -> (r: Vec<(String, String)>)
    ensures
        r@.len() == EMOJI_COUNT,
        forall|i: int| 0 <= i < r@.len() ==> (#[trigger] r@[i]).0@ == emoji_glyph(i) && r@[i].1@ == emoji_name(i),
{
    emojis::iter().map(|e| (e.as_str().to_string(), e.name().to_string())).collect()
}

/// The names of the emojis `emojis::iter` walks, in order.
pub open spec fn all_emoji_names() -> Seq<Seq<char>> {
    Seq::new(EMOJI_COUNT as nat, |i: int| emoji_name(i))
}

/// The characters of the emojis at the indices `idx` of the table.
pub open spec fn emoji_glyphs(idx: Seq<int>) -> Seq<Seq<char>> {
    idx.map_values(|i: int| emoji_glyph(i))
}

/// The names of an emoji table.
pub open spec fn emoji_names(t: Seq<(String, String)>) -> Seq<Seq<char>> {
    t.map_values(|p: (String, String)| p.1@)
}

/// The characters of the emojis of `t` at the indices `idx`.
pub open spec fn emoji_glyphs_at(t: Seq<(String, String)>, idx: Seq<int>) -> Seq<Seq<char>> {
    idx.map_values(|i: int| t[i].0@)
}

/// The characters of the first `limit` emojis of `table` whose name
/// matches `search`, in table order.
pub fn pick_emojis(table: &Vec<(String, String)>, search: &str, limit: usize) -> (r: Vec<String>)
    ensures
        r.deep_view() == emoji_glyphs_at(table@, first_matches(emoji_names(table@), search@, limit as nat)),
{
    let mut names: Vec<String> = Vec::new();
    let mut i: usize = 0;
    while i < table.len()
        invariant
            i <= table.len(),
            names.deep_view() =~= emoji_names(table@).take(i as int),
        decreases table.len() - i,
    {
        names.push(table[i].1.clone());
        assert(emoji_names(table@).take(i + 1) =~= emoji_names(table@).take(i as int).push(table@[i as int].1@));
        i += 1;
    }
    assert(emoji_names(table@).take(table.len() as int) =~= emoji_names(table@));
    let idx = matching_indices(&names, search, limit);
    let ghost m = first_matches(emoji_names(table@), search@, limit as nat);
    proof {
        lemma_match_indices_bound(emoji_names(table@), search@);
        let all = match_indices(emoji_names(table@), search@);
        assert forall|k: int| 0 <= k < m.len() implies 0 <= #[trigger] m[k] < table.len() by {
            assert(m[k] == all[k]);
        }
    }
    let mut out: Vec<String> = Vec::new();
    let mut k: usize = 0;
    while k < idx.len()
        invariant
            k <= idx.len(),
            idx@.map_values(|j: usize| j as int) == m,
            forall|q: int| 0 <= q < m.len() ==> 0 <= #[trigger] m[q] < table.len(),
            out.deep_view() =~= emoji_glyphs_at(table@, m.take(k as int)),
        decreases idx.len() - k,
    {
        let j = idx[k];
        assert(m[k as int] == j as int);
        out.push(table[j].0.clone());
        assert(m.take(k + 1) =~= m.take(k as int).push(j as int));
        assert(emoji_glyphs_at(table@, m.take(k + 1)) =~= emoji_glyphs_at(table@, m.take(k as int)).push(table@[j as int].0@));
        k += 1;
    }
    assert(m.take(idx.len() as int) =~= m);
    out
}

/// The emoji picker's matches for `search`: the characters of the
/// first `limit` emojis of the `emojis` table whose name matches (every
/// emoji when the search is empty), in table order.
pub fn filtered_emoji(search: &str, limit: usize) -> (r: Vec<String>)
    ensures
        r.deep_view() == emoji_glyphs(first_matches(all_emoji_names(), search@, limit as nat)),
        r.len() <= limit,
{
    let table = emoji_table();
    assert(emoji_names(table@) =~= all_emoji_names());
    let r = pick_emojis(&table, search, limit);
    proof {
        let m = first_matches(all_emoji_names(), search@, limit as nat);
        let all = match_indices(all_emoji_names(), search@);
        lemma_match_indices_bound(all_emoji_names(), search@);
        assert forall|k: int| 0 <= k < m.len() implies #[trigger] emoji_glyphs_at(table@, m)[k] == emoji_glyphs(m)[k] by {
            assert(m[k] == all[k]);
            assert(0 <= m[k] < table@.len());
        }
        assert(emoji_glyphs_at(table@, m) =~= emoji_glyphs(m));
    }
    assert(r.deep_view().len() == r.len());
    r
}

} // verus!
