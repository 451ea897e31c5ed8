//! Laws of the clipboard history: what every operation keeps.

use vstd::prelude::*;

use crate::history::{
    evict, find_same, first_unpinned, insert_in_section, is_blank, last_unpinned, lemma_find_same,
    lemma_first_unpinned, lemma_last_unpinned, pin_toggled, pinned_of, pushed, same_content, sectioned,
    unpinned_of, unsensitive_of, EntryView,
};

verus! {

/// No two entries of `s` hold the same content.
pub open spec fn unique_content(s: Seq<EntryView>) -> bool {
    forall|i: int, j: int| 0 <= i < j < s.len() ==> !same_content(#[trigger] s[i], #[trigger] s[j])
}

proof fn lemma_remove_sectioned(s: Seq<EntryView>, p: int)
    requires
        sectioned(s),
        0 <= p < s.len(),
    ensures
        sectioned(s.remove(p)),
{
    let r = s.remove(p);
    assert forall|i: int, j: int| 0 <= i < j < r.len() && #[trigger] r[j].pinned implies #[trigger] r[i].pinned by {
        let i2 = if i < p { i } else { i + 1 };
        let j2 = if j < p { j } else { j + 1 };
        assert(r[i] == s[i2]);
        assert(r[j] == s[j2]);
    }
}

proof fn lemma_insert_in_section_sectioned(s: Seq<EntryView>, e: EntryView)
    requires
        sectioned(s),
    ensures
        sectioned(insert_in_section(s, e)),
{
    lemma_first_unpinned(s);
    let r = insert_in_section(s, e);
    let k = first_unpinned(s);
    if e.pinned {
        assert forall|i: int, j: int| 0 <= i < j < r.len() && #[trigger] r[j].pinned implies #[trigger] r[i].pinned by {
            if i > 0 {
                assert(r[i] == s[i - 1]);
                assert(r[j] == s[j - 1]);
            }
        }
    } else {
        assert forall|i: int, j: int| 0 <= i < j < r.len() && #[trigger] r[j].pinned implies #[trigger] r[i].pinned by {
            if j < k {
                assert(r[i] == s[i]);
                assert(r[j] == s[j]);
            } else if j == k {
                assert(r[j] == e);
            } else {
                assert(r[j] == s[j - 1]);
                if j - 1 > k {
                    assert(s[k].pinned);
                }
            }
        }
    }
}

proof fn lemma_evict_sectioned(s: Seq<EntryView>, cap: nat)
    requires
        sectioned(s),
    ensures
        sectioned(evict(s, cap)),
    decreases s.len(),
{
    if !(s.len() <= cap || last_unpinned(s) < 0) {
        lemma_last_unpinned(s);
        lemma_remove_sectioned(s, last_unpinned(s));
        lemma_evict_sectioned(s.remove(last_unpinned(s)), cap);
    }
}

/// Pushing keeps every pinned entry ahead of every unpinned one.
pub proof fn push_keeps_sections(s: Seq<EntryView>, e: EntryView, cap: nat)
    requires
        sectioned(s),
    ensures
        sectioned(pushed(s, e, cap)),
{
    if !is_blank(e) {
        lemma_find_same(s, e);
        if find_same(s, e) >= 0 {
            let p = find_same(s, e);
            lemma_remove_sectioned(s, p);
            lemma_insert_in_section_sectioned(s.remove(p), EntryView { captured_at: e.captured_at, ..s[p] });
        } else {
            lemma_insert_in_section_sectioned(s, e);
            lemma_evict_sectioned(insert_in_section(s, e), cap);
        }
    }
}

/// Eviction stops at the cap or, past it, leaves only pinned entries.
pub proof fn evict_respects_cap(s: Seq<EntryView>, cap: nat)
    ensures
        evict(s, cap).len() <= cap || forall|i: int| 0 <= i < evict(s, cap).len() ==> #[trigger] evict(s, cap)[i].pinned,
    decreases s.len(),
{
    lemma_last_unpinned(s);
    if !(s.len() <= cap || last_unpinned(s) < 0) {
        evict_respects_cap(s.remove(last_unpinned(s)), cap);
    }
}

/// A new entry pushed into the history leaves it no longer than the
/// cap, unless every entry left is pinned.
pub proof fn push_respects_cap(s: Seq<EntryView>, e: EntryView, cap: nat)
    requires
        !is_blank(e),
        find_same(s, e) < 0,
    ensures
        pushed(s, e, cap).len() <= cap
            || forall|i: int| 0 <= i < pushed(s, e, cap).len() ==> #[trigger] pushed(s, e, cap)[i].pinned,
{
    evict_respects_cap(insert_in_section(s, e), cap);
}

proof fn lemma_pinned_of_remove_unpinned(s: Seq<EntryView>, p: int)
    requires
        0 <= p < s.len(),
        !s[p].pinned,
    ensures
        pinned_of(s.remove(p)) == pinned_of(s),
    decreases s.len(),
{
    if p == s.len() - 1 {
        assert(s.remove(p) =~= s.drop_last());
    } else {
        assert(s.remove(p).drop_last() =~= s.drop_last().remove(p));
        assert(s.remove(p).last() == s.last());
        lemma_pinned_of_remove_unpinned(s.drop_last(), p);
    }
}

/// Eviction never drops a pinned entry: the pinned entries, in order,
/// are the same before and after.
pub proof fn evict_keeps_pinned(s: Seq<EntryView>, cap: nat)
    ensures
        pinned_of(evict(s, cap)) == pinned_of(s),
    decreases s.len(),
{
    lemma_last_unpinned(s);
    if !(s.len() <= cap || last_unpinned(s) < 0) {
        lemma_pinned_of_remove_unpinned(s, last_unpinned(s));
        evict_keeps_pinned(s.remove(last_unpinned(s)), cap);
    }
}

proof fn lemma_pinned_of_prepend(e: EntryView, s: Seq<EntryView>)
    requires
        e.pinned,
    ensures
        pinned_of(seq![e] + s) == seq![e] + pinned_of(s),
    decreases s.len(),
{
    if s.len() == 0 {
        assert(seq![e] + s =~= seq![e]);
        assert(seq![e].drop_last() =~= Seq::<EntryView>::empty());
        assert(pinned_of(Seq::<EntryView>::empty()) =~= Seq::<EntryView>::empty());
        assert(seq![e] + pinned_of(s) =~= seq![e]);
    } else {
        assert((seq![e] + s).drop_last() =~= seq![e] + s.drop_last());
        assert((seq![e] + s).last() == s.last());
        lemma_pinned_of_prepend(e, s.drop_last());
        if s.last().pinned {
            assert(seq![e] + pinned_of(s.drop_last()).push(s.last()) =~= (seq![e] + pinned_of(s.drop_last())).push(s.last()));
        }
    }
}

proof fn lemma_pinned_of_insert_unpinned(s: Seq<EntryView>, k: int, e: EntryView)
    requires
        0 <= k <= s.len(),
        !e.pinned,
    ensures
        pinned_of(s.insert(k, e)) == pinned_of(s),
    decreases s.len(),
{
    if k == s.len() {
        assert(s.insert(k, e).drop_last() =~= s);
    } else {
        assert(s.insert(k, e).drop_last() =~= s.drop_last().insert(k, e));
        assert(s.insert(k, e).last() == s.last());
        lemma_pinned_of_insert_unpinned(s.drop_last(), k, e);
    }
}

/// A new entry never costs a pinned entry its place: afterwards the
/// pinned entries are the old ones, with the new entry in front when
/// it is pinned itself.
pub proof fn push_keeps_pinned(s: Seq<EntryView>, e: EntryView, cap: nat)
    requires
        !is_blank(e),
        find_same(s, e) < 0,
    ensures
        pinned_of(pushed(s, e, cap)) == if e.pinned { seq![e] + pinned_of(s) } else { pinned_of(s) },
{
    evict_keeps_pinned(insert_in_section(s, e), cap);
    if e.pinned {
        lemma_pinned_of_prepend(e, s);
    } else {
        lemma_first_unpinned(s);
        lemma_pinned_of_insert_unpinned(s, first_unpinned(s), e);
    }
}

proof fn lemma_remove_unique(s: Seq<EntryView>, p: int)
    requires
        unique_content(s),
        0 <= p < s.len(),
    ensures
        unique_content(s.remove(p)),
{
    let r = s.remove(p);
    assert forall|i: int, j: int| 0 <= i < j < r.len() implies !same_content(#[trigger] r[i], #[trigger] r[j]) by {
        let i2 = if i < p { i } else { i + 1 };
        let j2 = if j < p { j } else { j + 1 };
        assert(r[i] == s[i2]);
        assert(r[j] == s[j2]);
    }
}

proof fn lemma_insert_unique(s: Seq<EntryView>, k: int, x: EntryView)
    requires
        unique_content(s),
        0 <= k <= s.len(),
        forall|j: int| 0 <= j < s.len() ==> !same_content(#[trigger] s[j], x),
    ensures
        unique_content(s.insert(k, x)),
{
    let r = s.insert(k, x);
    assert forall|i: int, j: int| 0 <= i < j < r.len() implies !same_content(#[trigger] r[i], #[trigger] r[j]) by {
        if i == k {
            assert(r[j] == s[j - 1]);
            assert(!same_content(s[j - 1], x));
        } else if j == k {
            assert(r[i] == s[i]);
        } else {
            let i2 = if i < k { i } else { i - 1 };
            let j2 = if j < k { j } else { j - 1 };
            assert(r[i] == s[i2]);
            assert(r[j] == s[j2]);
        }
    }
}

proof fn lemma_insert_in_section_unique(s: Seq<EntryView>, x: EntryView)
    requires
        unique_content(s),
        forall|j: int| 0 <= j < s.len() ==> !same_content(#[trigger] s[j], x),
    ensures
        unique_content(insert_in_section(s, x)),
{
    lemma_first_unpinned(s);
    if x.pinned {
        assert(seq![x] + s =~= s.insert(0, x));
        lemma_insert_unique(s, 0, x);
    } else {
        lemma_insert_unique(s, first_unpinned(s), x);
    }
}

proof fn lemma_evict_unique(s: Seq<EntryView>, cap: nat)
    requires
        unique_content(s),
    ensures
        unique_content(evict(s, cap)),
    decreases s.len(),
{
    if !(s.len() <= cap || last_unpinned(s) < 0) {
        lemma_last_unpinned(s);
        lemma_remove_unique(s, last_unpinned(s));
        lemma_evict_unique(s.remove(last_unpinned(s)), cap);
    }
}

/// Pushing never lets two entries hold the same content.
pub proof fn push_keeps_unique(s: Seq<EntryView>, e: EntryView, cap: nat)
    requires
        unique_content(s),
    ensures
        unique_content(pushed(s, e, cap)),
{
    if !is_blank(e) {
        lemma_find_same(s, e);
        if find_same(s, e) >= 0 {
            let p = find_same(s, e);
            let moved = EntryView { captured_at: e.captured_at, ..s[p] };
            lemma_remove_unique(s, p);
            let r = s.remove(p);
            assert forall|j: int| 0 <= j < r.len() implies !same_content(#[trigger] r[j], moved) by {
                if j < p {
                    assert(r[j] == s[j]);
                    assert(!same_content(s[j], s[p]));
                } else {
                    assert(r[j] == s[j + 1]);
                    assert(!same_content(s[p], s[j + 1]));
                }
            }
            lemma_insert_in_section_unique(r, moved);
        } else {
            lemma_insert_in_section_unique(s, e);
            lemma_evict_unique(insert_in_section(s, e), cap);
        }
    }
}

proof fn lemma_pinned_of_all_pinned(s: Seq<EntryView>)
    ensures
        forall|i: int| 0 <= i < pinned_of(s).len() ==> #[trigger] pinned_of(s)[i].pinned,
        pinned_of(s).len() <= s.len(),
    decreases s.len(),
{
    if s.len() > 0 {
        lemma_pinned_of_all_pinned(s.drop_last());
    }
}

proof fn lemma_unpinned_of_all_unpinned(s: Seq<EntryView>)
    ensures
        forall|i: int| 0 <= i < unpinned_of(s).len() ==> !(#[trigger] unpinned_of(s)[i]).pinned,
    decreases s.len(),
{
    if s.len() > 0 {
        lemma_unpinned_of_all_unpinned(s.drop_last());
    }
}

proof fn lemma_split_len(s: Seq<EntryView>)
    ensures
        pinned_of(s).len() + unpinned_of(s).len() == s.len(),
    decreases s.len(),
{
    if s.len() > 0 {
        lemma_split_len(s.drop_last());
    }
}

/// After a pin is toggled, pinned entries come first again, and no
/// entry is lost or added.
pub proof fn toggle_pin_sections(s: Seq<EntryView>, idx: int)
    requires
        0 <= idx < s.len(),
    ensures
        sectioned(pin_toggled(s, idx)),
        pin_toggled(s, idx).len() == s.len(),
{
    let t = s.update(idx, EntryView { pinned: !s[idx].pinned, ..s[idx] });
    lemma_pinned_of_all_pinned(t);
    lemma_unpinned_of_all_unpinned(t);
    lemma_split_len(t);
    let r = pin_toggled(s, idx);
    let n = pinned_of(t).len();
    assert forall|i: int, j: int| 0 <= i < j < r.len() && #[trigger] r[j].pinned implies #[trigger] r[i].pinned by {
        if j >= n {
            assert(r[j] == unpinned_of(t)[j - n]);
        }
        assert(r[i] == pinned_of(t)[i]);
    }
}

proof fn lemma_pinned_of_idempotent(s: Seq<EntryView>)
    ensures
        pinned_of(pinned_of(s)) == pinned_of(s),
    decreases s.len(),
{
    if s.len() > 0 {
        lemma_pinned_of_idempotent(s.drop_last());
        if s.last().pinned {
            assert(pinned_of(s.drop_last()).push(s.last()).drop_last() =~= pinned_of(s.drop_last()));
        }
    }
}

/// Clearing keeps exactly the pinned entries, so clearing twice is the
/// same as clearing once, and only pinned entries remain.
pub proof fn clear_keeps_only_pinned(s: Seq<EntryView>)
    ensures
        forall|i: int| 0 <= i < pinned_of(s).len() ==> #[trigger] pinned_of(s)[i].pinned,
        pinned_of(pinned_of(s)) == pinned_of(s),
{
    lemma_pinned_of_all_pinned(s);
    lemma_pinned_of_idempotent(s);
}

/// Nothing flagged sensitive is ever written to disk.
pub proof fn persistable_has_no_secrets(s: Seq<EntryView>)
    ensures
        forall|i: int| 0 <= i < unsensitive_of(s).len() ==> !(#[trigger] unsensitive_of(s)[i]).sensitive,
    decreases s.len(),
{
    if s.len() > 0 {
        persistable_has_no_secrets(s.drop_last());
    }
}

proof fn lemma_first_unpinned_unique(s: Seq<EntryView>, k: int)
    requires
        0 <= k <= s.len(),
        forall|j: int| 0 <= j < k ==> #[trigger] s[j].pinned,
        k < s.len() ==> !s[k].pinned,
    ensures
        first_unpinned(s) == k,
{
    lemma_first_unpinned(s);
    let f = first_unpinned(s);
    if f < k {
        assert(s[f].pinned);
    } else if f > k {
        assert(s[k].pinned);
    }
}

proof fn lemma_sectioned_pinned_count(s: Seq<EntryView>)
    requires
        sectioned(s),
    ensures
        pinned_of(s).len() == first_unpinned(s),
        forall|j: int| first_unpinned(s) <= j < s.len() ==> !(#[trigger] s[j]).pinned,
    decreases s.len(),
{
    lemma_first_unpinned(s);
    if s.len() > 0 {
        let t = s.drop_last();
        assert(sectioned(t)) by {
            assert forall|i: int, j: int| 0 <= i < j < t.len() && #[trigger] t[j].pinned implies #[trigger] t[i].pinned by {
                assert(t[i] == s[i] && t[j] == s[j]);
            }
        }
        lemma_sectioned_pinned_count(t);
        lemma_first_unpinned(t);
        let k = first_unpinned(t);
        if s.last().pinned {
            assert forall|j: int| 0 <= j < s.len() implies #[trigger] s[j].pinned by {
                if j < s.len() - 1 {
                    assert(s[j] == t[j]);
                }
            }
            lemma_first_unpinned_unique(s, s.len() as int);
            assert forall|j: int| 0 <= j < t.len() implies #[trigger] t[j].pinned by {
                assert(s[j] == t[j]);
            }
            lemma_first_unpinned_unique(t, t.len() as int);
        } else {
            assert forall|j: int| 0 <= j < k implies #[trigger] s[j].pinned by {
                assert(s[j] == t[j]);
            }
            if k < t.len() {
                assert(s[k] == t[k]);
            }
            lemma_first_unpinned_unique(s, k);
        }
        assert forall|j: int| first_unpinned(s) <= j < s.len() implies !(#[trigger] s[j]).pinned by {
            if j < s.len() - 1 {
                assert(s[j] == t[j]);
            }
        }
    }
}

proof fn lemma_evict_keeps_front_pinned(t: Seq<EntryView>, cap: nat, e: EntryView)
    requires
        t.len() > 0,
        t[0] == e,
        e.pinned,
    ensures
        evict(t, cap).len() > 0,
        evict(t, cap)[0] == e,
    decreases t.len(),
{
    lemma_last_unpinned(t);
    if !(t.len() <= cap || last_unpinned(t) < 0) {
        let p = last_unpinned(t);
        assert(p != 0);
        assert(t.remove(p)[0] == e);
        lemma_evict_keeps_front_pinned(t.remove(p), cap, e);
    }
}

proof fn lemma_evict_keeps_first_unpinned(t: Seq<EntryView>, cap: nat, k: int, e: EntryView)
    requires
        0 <= k < t.len(),
        k < cap,
        t[k] == e,
        forall|j: int| 0 <= j < k ==> #[trigger] t[j].pinned,
        forall|j: int| k <= j < t.len() ==> !(#[trigger] t[j]).pinned,
    ensures
        k < evict(t, cap).len(),
        evict(t, cap)[k] == e,
        forall|j: int| 0 <= j < k ==> #[trigger] evict(t, cap)[j].pinned,
    decreases t.len(),
{
    lemma_last_unpinned(t);
    if !(t.len() <= cap || last_unpinned(t) < 0) {
        let p = last_unpinned(t);
        assert(!t[t.len() - 1].pinned);
        assert(p == t.len() - 1);
        let r = t.remove(p);
        assert forall|j: int| 0 <= j < r.len() implies #[trigger] r[j] == t[j] by {}
        lemma_evict_keeps_first_unpinned(r, cap, k, e);
    }
}

/// A new entry lands at the top of its section: at the very front when
/// it is pinned, and just after the pinned entries otherwise. For an
/// unpinned entry this needs room under the cap beside the pinned
/// entries (else the cap evicts it at once) and a history whose pinned
/// entries come first.
pub proof fn push_puts_entry_on_top(s: Seq<EntryView>, e: EntryView, cap: nat)
    requires
        !is_blank(e),
        find_same(s, e) < 0,
        e.pinned || (sectioned(s) && pinned_of(s).len() < cap),
    ensures
        e.pinned ==> pushed(s, e, cap).len() > 0 && pushed(s, e, cap)[0] == e,
        !e.pinned ==> first_unpinned(s) < pushed(s, e, cap).len()
            && pushed(s, e, cap)[first_unpinned(s)] == e
            && first_unpinned(pushed(s, e, cap)) == first_unpinned(s),
{
    let t = insert_in_section(s, e);
    if e.pinned {
        lemma_evict_keeps_front_pinned(t, cap, e);
    } else {
        lemma_sectioned_pinned_count(s);
        lemma_first_unpinned(s);
        let k = first_unpinned(s);
        assert forall|j: int| 0 <= j < k implies #[trigger] t[j].pinned by {
            assert(t[j] == s[j]);
        }
        assert forall|j: int| k <= j < t.len() implies !(#[trigger] t[j]).pinned by {
            if j > k {
                assert(t[j] == s[j - 1]);
            }
        }
        lemma_evict_keeps_first_unpinned(t, cap, k, e);
        let r = evict(t, cap);
        lemma_first_unpinned_unique(r, k);
    }
}

// ---------------------------------------------------------------------
// The history's invariant, kept by every push.

/// `r` holds an entry pinned, with the text and payload of `x`.
pub open spec fn holds_pinned(r: Seq<EntryView>, x: EntryView) -> bool {
    exists|j: int| 0 <= j < r.len() && (#[trigger] r[j]).pinned && r[j].text == x.text && r[j].payload == x.payload
}

/// Every pinned entry of `s` is still in `r`, pinned, with its text
/// and payload.
pub open spec fn keeps_pinned(s: Seq<EntryView>, r: Seq<EntryView>) -> bool {
    forall|i: int| 0 <= i < s.len() && s[i].pinned ==> holds_pinned(r, #[trigger] s[i])
}

/// What a history always is: pinned entries first, no content twice,
/// and no longer than the cap unless the pinned entries alone exceed
/// it.
pub open spec fn well_kept(s: Seq<EntryView>, cap: nat) -> bool {
    &&& sectioned(s)
    &&& unique_content(s)
    &&& (s.len() <= cap || s.len() <= pinned_of(s).len())
}

proof fn lemma_pinned_count_remove(s: Seq<EntryView>, p: int)
    requires
        0 <= p < s.len(),
    ensures
        pinned_of(s.remove(p)).len() + (if s[p].pinned { 1int } else { 0int }) == pinned_of(s).len(),
    decreases s.len(),
{
    if p == s.len() - 1 {
        assert(s.remove(p) =~= s.drop_last());
    } else {
        assert(s.remove(p).drop_last() =~= s.drop_last().remove(p));
        assert(s.remove(p).last() == s.last());
        lemma_pinned_count_remove(s.drop_last(), p);
    }
}

proof fn lemma_pinned_count_insert(s: Seq<EntryView>, k: int, x: EntryView)
    requires
        0 <= k <= s.len(),
    ensures
        pinned_of(s.insert(k, x)).len() == pinned_of(s).len() + (if x.pinned { 1int } else { 0int }),
    decreases s.len(),
{
    if k == s.len() {
        assert(s.insert(k, x).drop_last() =~= s);
        assert(s.insert(k, x).last() == x);
    } else {
        assert(s.insert(k, x).drop_last() =~= s.drop_last().insert(k, x));
        assert(s.insert(k, x).last() == s.last());
        lemma_pinned_count_insert(s.drop_last(), k, x);
    }
}

/// `insert_in_section` as an insertion at a position.
proof fn lemma_insert_in_section_at(s: Seq<EntryView>, x: EntryView)
    ensures
        0 <= (if x.pinned { 0 } else { first_unpinned(s) }) <= s.len(),
        insert_in_section(s, x) == s.insert(if x.pinned { 0 } else { first_unpinned(s) }, x),
{
    lemma_first_unpinned(s);
    if x.pinned {
        assert(seq![x] + s =~= s.insert(0, x));
    }
}

proof fn lemma_all_pinned_count(s: Seq<EntryView>)
    requires
        forall|i: int| 0 <= i < s.len() ==> #[trigger] s[i].pinned,
    ensures
        pinned_of(s).len() == s.len(),
    decreases s.len(),
{
    if s.len() > 0 {
        assert forall|i: int| 0 <= i < s.len() - 1 implies #[trigger] s.drop_last()[i].pinned by {
            assert(s.drop_last()[i] == s[i]);
        }
        lemma_all_pinned_count(s.drop_last());
    }
}

proof fn lemma_evict_holds(t: Seq<EntryView>, cap: nat, x: EntryView)
    requires
        holds_pinned(t, x),
    ensures
        holds_pinned(evict(t, cap), x),
    decreases t.len(),
{
    lemma_last_unpinned(t);
    if !(t.len() <= cap || last_unpinned(t) < 0) {
        let p = last_unpinned(t);
        let j = choose|j: int| 0 <= j < t.len() && (#[trigger] t[j]).pinned && t[j].text == x.text && t[j].payload == x.payload;
        let r = t.remove(p);
        let j2 = if j < p { j } else { j - 1 };
        assert(j != p);
        assert(r[j2] == t[j]);
        assert(holds_pinned(r, x));
        lemma_evict_holds(r, cap, x);
    }
}

/// Pushing keeps the history well kept, whichever way the push goes (a
/// blank entry ignored, a known content moved to the top of its
/// section, a new entry inserted and the oldest unpinned entries
/// evicted), and never loses a pinned entry.
pub proof fn push_keeps_history_laws(s: Seq<EntryView>, e: EntryView, cap: nat)
    requires
        well_kept(s, cap),
    ensures
        well_kept(pushed(s, e, cap), cap),
        keeps_pinned(s, pushed(s, e, cap)),
{
    let r = pushed(s, e, cap);
    push_keeps_sections(s, e, cap);
    push_keeps_unique(s, e, cap);
    if is_blank(e) {
        assert forall|i: int| 0 <= i < s.len() && s[i].pinned implies holds_pinned(r, #[trigger] s[i]) by {
            assert(r[i] == s[i]);
        }
    } else {
        lemma_find_same(s, e);
        if find_same(s, e) >= 0 {
            let p = find_same(s, e);
            let x = EntryView { captured_at: e.captured_at, ..s[p] };
            let m = s.remove(p);
            lemma_insert_in_section_at(m, x);
            let k = if x.pinned { 0 } else { first_unpinned(m) };
            lemma_pinned_count_remove(s, p);
            lemma_pinned_count_insert(m, k, x);
            assert(r == m.insert(k, x));
            assert(r.len() == s.len());
            assert forall|i: int| 0 <= i < s.len() && s[i].pinned implies holds_pinned(r, #[trigger] s[i]) by {
                if i == p {
                    assert(r[k] == x);
                } else {
                    let i2 = if i < p { i } else { i - 1 };
                    assert(m[i2] == s[i]);
                    let i3 = if i2 < k { i2 } else { i2 + 1 };
                    assert(r[i3] == m[i2]);
                }
            }
        } else {
            let t = insert_in_section(s, e);
            lemma_insert_in_section_at(s, e);
            let k = if e.pinned { 0 } else { first_unpinned(s) };
            assert forall|i: int| 0 <= i < s.len() && s[i].pinned implies holds_pinned(r, #[trigger] s[i]) by {
                let i3 = if i < k { i } else { i + 1 };
                assert(t[i3] == s[i]);
                assert(holds_pinned(t, s[i]));
                lemma_evict_holds(t, cap, s[i]);
            }
            evict_respects_cap(t, cap);
            if r.len() > cap {
                lemma_all_pinned_count(r);
            }
        }
    }
}

// ---------------------------------------------------------------------
// What counts as the same content, and what is saved.

/// What makes two entries copies of one another, by kind: two texts
/// with the same text, two images with the same blob hash (whatever
/// their mime type, size or label), two file lists with the same URIs,
/// two rich texts with the same HTML blob. Entries of different kinds
/// are never the same.
pub proof fn same_content_by_kind(a: EntryView, b: EntryView)
    ensures
        (a.payload is Text && b.payload is Text) ==> (same_content(a, b) <==> a.text == b.text),
        (a.payload is Image && b.payload is Image) ==> (same_content(a, b) <==> a.payload->Image_blob
            == b.payload->Image_blob),
        (a.payload is Files && b.payload is Files) ==> (same_content(a, b) <==> a.payload->uris
            == b.payload->uris),
        (a.payload is Html && b.payload is Html) ==> (same_content(a, b) <==> a.payload->Html_blob
            == b.payload->Html_blob),
        ((a.payload is Text) != (b.payload is Text) || (a.payload is Image) != (b.payload is Image)
            || (a.payload is Files) != (b.payload is Files)) ==> !same_content(a, b),
{
}

proof fn lemma_find_same_none(s: Seq<EntryView>, e: EntryView)
    requires
        forall|j: int| 0 <= j < s.len() ==> !same_content(#[trigger] s[j], e),
    ensures
        find_same(s, e) < 0,
    decreases s.len(),
{
    if s.len() > 0 {
        assert forall|j: int| 0 <= j < s.len() - 1 implies !same_content(#[trigger] s.drop_first()[j], e) by {
            assert(s.drop_first()[j] == s[j + 1]);
        }
        lemma_find_same_none(s.drop_first(), e);
    }
}

/// An image whose blob hash no image of the history has is a new
/// capture: pushing it records it, even when an image of the same type
/// or size is already there (given room for it, as for any new entry).
pub proof fn push_records_new_image(s: Seq<EntryView>, e: EntryView, cap: nat)
    requires
        e.payload is Image,
        forall|j: int| 0 <= j < s.len() && (#[trigger] s[j]).payload is Image ==> s[j].payload->Image_blob
            != e.payload->Image_blob,
        e.pinned || (sectioned(s) && pinned_of(s).len() < cap),
    ensures
        pushed(s, e, cap).contains(e),
        find_same(s, e) < 0,
{
    assert forall|j: int| 0 <= j < s.len() implies !same_content(#[trigger] s[j], e) by {
        same_content_by_kind(s[j], e);
    }
    lemma_find_same_none(s, e);
    assert(!is_blank(e));
    push_puts_entry_on_top(s, e, cap);
    let r = pushed(s, e, cap);
    lemma_first_unpinned(s);
    let k = if e.pinned { 0 } else { first_unpinned(s) };
    assert(0 <= k < r.len() && r[k] == e);
}

/// What is saved is every entry not flagged sensitive, pinned or not,
/// in order; only the sensitive ones are left out.
pub proof fn persistable_is_all_but_secrets(s: Seq<EntryView>)
    ensures
        unsensitive_of(s) == s.filter(|e: EntryView| !e.sensitive),
    decreases s.len(),
{
    reveal(Seq::filter);
    if s.len() > 0 {
        persistable_is_all_but_secrets(s.drop_last());
    }
}

/// Clearing keeps every pinned entry, in order, and nothing else.
pub proof fn clear_is_pinned_filter(s: Seq<EntryView>)
    ensures
        pinned_of(s) == s.filter(|e: EntryView| e.pinned),
    decreases s.len(),
{
    reveal(Seq::filter);
    if s.len() > 0 {
        clear_is_pinned_filter(s.drop_last());
    }
}

proof fn lemma_in_section(t: Seq<EntryView>, i: int)
    requires
        0 <= i < t.len(),
    ensures
        t[i].pinned ==> pinned_of(t).contains(t[i]),
        !t[i].pinned ==> unpinned_of(t).contains(t[i]),
    decreases t.len(),
{
    let l = t.len() - 1;
    if i == l {
        if t[i].pinned {
            assert(pinned_of(t)[pinned_of(t).len() - 1] == t[i]);
        } else {
            assert(unpinned_of(t)[unpinned_of(t).len() - 1] == t[i]);
        }
    } else {
        assert(t.drop_last()[i] == t[i]);
        lemma_in_section(t.drop_last(), i);
        if t[i].pinned {
            let k = choose|k: int| 0 <= k < pinned_of(t.drop_last()).len() && pinned_of(t.drop_last())[k] == t[i];
            assert(pinned_of(t)[k] == t[i]);
        } else {
            let k = choose|k: int| 0 <= k < unpinned_of(t.drop_last()).len() && unpinned_of(t.drop_last())[k] == t[i];
            assert(unpinned_of(t)[k] == t[i]);
        }
    }
}

/// Toggling the pin of entry `idx` flips that entry's pin and keeps
/// every other entry: nothing is lost, and no other pin changes.
pub proof fn toggle_pin_flips_one(s: Seq<EntryView>, idx: int)
    requires
        0 <= idx < s.len(),
    ensures
        pin_toggled(s, idx).contains(EntryView { pinned: !s[idx].pinned, ..s[idx] }),
        forall|j: int| 0 <= j < s.len() && j != idx ==> pin_toggled(s, idx).contains(#[trigger] s[j]),
        pin_toggled(s, idx).len() == s.len(),
{
    let t = s.update(idx, EntryView { pinned: !s[idx].pinned, ..s[idx] });
    let r = pin_toggled(s, idx);
    toggle_pin_sections(s, idx);
    let n = pinned_of(t).len();
    assert forall|i: int| 0 <= i < t.len() implies r.contains(#[trigger] t[i]) by {
        lemma_in_section(t, i);
        if t[i].pinned {
            let k = choose|k: int| 0 <= k < pinned_of(t).len() && pinned_of(t)[k] == t[i];
            assert(r[k] == t[i]);
        } else {
            let k = choose|k: int| 0 <= k < unpinned_of(t).len() && unpinned_of(t)[k] == t[i];
            assert(r[n + k] == t[i]);
        }
    }
    assert(t[idx] == EntryView { pinned: !s[idx].pinned, ..s[idx] });
    assert forall|j: int| 0 <= j < s.len() && j != idx implies r.contains(#[trigger] s[j]) by {
        assert(t[j] == s[j]);
    }
}

} // verus!
