//! Most-recently-used lists of strings: the newest pick first, no
//! duplicates, and a bound on the length.

use vstd::prelude::*;

use crate::text::{find_string, first_index, lemma_first_index};

verus! {

/// The list `s` after picking `x`: a string already present moves to the
/// front; a new one goes to the front and the oldest strings are dropped
/// past `max`.
pub open spec fn mru_push(s: Seq<Seq<char>>, x: Seq<char>, max: nat) -> Seq<Seq<char>> {
    let p = first_index(s, x);
    if p >= 0 {
        seq![x] + s.remove(p)
    } else if s.len() + 1 > max {
        (seq![x] + s).take(max as int)
    } else {
        seq![x] + s
    }
}

/// Move `x` to the front of `v`, or insert it there and drop the last
/// strings while `v` is longer than `max`.
pub fn mru_push_string(v: &mut Vec<String>, x: String, max: usize)
    ensures
        final(v).deep_view() == mru_push(old(v).deep_view(), x@, max as nat),
{
    let ghost s = v.deep_view();
    match find_string(v, x.as_str()) {
        Some(p) => {
            proof { lemma_first_index(s, x@); }
            let moved = v.remove(p);
            assert(moved@ == x@) by {
                assert(s[p as int] == moved@);
            }
            v.insert(0, moved);
            assert(v.deep_view() =~= seq![x@] + s.remove(p as int));
        },
        None => {
            v.insert(0, x);
            let ghost t = seq![x@] + s;
            assert(v.deep_view() =~= t);
            while v.len() > max
                invariant
                    t.len() > max ==> v.len() >= max,
                    t.len() <= max ==> v.len() == t.len(),
                    v.deep_view() =~= t.take(v.len() as int),
                    t.len() >= v.len(),
                decreases v.len(),
            {
                v.pop();
                assert(v.deep_view() =~= t.take(v.len() as int));
            }
            assert(t.take(t.len() as int) =~= t);
            assert(first_index(s, x@) < 0);
        },
    }
}

/// A picked string always ends up first.
pub proof fn mru_push_puts_first(s: Seq<Seq<char>>, x: Seq<char>, max: nat)
    requires
        max >= 1 || s.contains(x),
    ensures
        mru_push(s, x, max).len() > 0,
        mru_push(s, x, max)[0] == x,
{
    lemma_first_index(s, x);
}

/// Picking never lets a string appear twice.
pub proof fn mru_push_keeps_unique(s: Seq<Seq<char>>, x: Seq<char>, max: nat)
    requires
        s.no_duplicates(),
    ensures
        mru_push(s, x, max).no_duplicates(),
{
    lemma_first_index(s, x);
    let p = first_index(s, x);
    let r = mru_push(s, x, max);
    if p >= 0 {
        let q = s.remove(p);
        assert forall|i: int, j: int| 0 <= i < j < r.len() implies r[i] != r[j] by {
            if i == 0 {
                let j2 = if j - 1 < p { j - 1 } else { j };
                assert(r[j] == s[j2]);
                assert(j2 != p);
            } else {
                let i2 = if i - 1 < p { i - 1 } else { i };
                let j2 = if j - 1 < p { j - 1 } else { j };
                assert(r[i] == s[i2]);
                assert(r[j] == s[j2]);
            }
        }
    } else {
        let t = seq![x] + s;
        assert forall|i: int, j: int| 0 <= i < j < t.len() implies t[i] != t[j] by {
            if i == 0 {
                assert(t[j] == s[j - 1]);
            } else {
                assert(t[i] == s[i - 1]);
                assert(t[j] == s[j - 1]);
            }
        }
    }
}

/// Picking never grows a list past `max` that was within it.
pub proof fn mru_push_bounded(s: Seq<Seq<char>>, x: Seq<char>, max: nat)
    requires
        s.len() <= max,
        max >= 1,
    ensures
        mru_push(s, x, max).len() <= max,
{
    lemma_first_index(s, x);
}

proof fn lemma_filter_keeps_all(s: Seq<Seq<char>>, x: Seq<char>)
    requires
        !s.contains(x),
    ensures
        s.filter(|y: Seq<char>| y != x) == s,
    decreases s.len(),
{
    reveal(Seq::filter);
    if s.len() > 0 {
        assert(!s.drop_last().contains(x)) by {
            if s.drop_last().contains(x) {
                let i = choose|i: int| 0 <= i < s.drop_last().len() && s.drop_last()[i] == x;
                assert(s[i] == x);
            }
        }
        lemma_filter_keeps_all(s.drop_last(), x);
        assert(s.last() != x) by {
            if s.last() == x {
                assert(s[s.len() - 1] == x);
            }
        }
        assert(s.drop_last().push(s.last()) =~= s);
    }
}

proof fn lemma_filter_drops_one(s: Seq<Seq<char>>, x: Seq<char>, p: int)
    requires
        0 <= p < s.len(),
        s[p] == x,
        forall|i: int| 0 <= i < s.len() && i != p ==> s[i] != x,
    ensures
        s.filter(|y: Seq<char>| y != x) == s.remove(p),
    decreases s.len(),
{
    reveal(Seq::filter);
    let t = s.drop_last();
    if p == s.len() - 1 {
        assert(!t.contains(x)) by {
            if t.contains(x) {
                let i = choose|i: int| 0 <= i < t.len() && t[i] == x;
                assert(s[i] == x);
            }
        }
        lemma_filter_keeps_all(t, x);
        assert(s.remove(p) =~= t);
    } else {
        assert forall|i: int| 0 <= i < t.len() && i != p implies t[i] != x by {
            assert(t[i] == s[i]);
        }
        lemma_filter_drops_one(t, x, p);
        assert(s.last() != x) by {
            assert(s[s.len() - 1] == s.last());
        }
        assert(t.remove(p).push(s.last()) =~= s.remove(p));
    }
}

/// Picking `x` into a list without duplicates puts `x` first and keeps
/// the other strings in their order, newest first: what follows `x` is
/// a prefix of the list without `x`, so when the list is full only the
/// oldest strings are dropped.
pub proof fn mru_push_keeps_order(s: Seq<Seq<char>>, x: Seq<char>, max: nat)
    requires
        s.no_duplicates(),
        max >= 1,
    ensures
        mru_push(s, x, max).len() > 0,
        mru_push(s, x, max)[0] == x,
        mru_push(s, x, max).drop_first() == s.filter(|y: Seq<char>| y != x).take(
            mru_push(s, x, max).len() - 1,
        ),
        !s.contains(x) ==> mru_push(s, x, max).len() == if s.len() + 1 > max { max as int } else { s.len() + 1int },
{
    lemma_first_index(s, x);
    let p = first_index(s, x);
    let r = mru_push(s, x, max);
    let f = s.filter(|y: Seq<char>| y != x);
    if p >= 0 {
        assert forall|i: int| 0 <= i < s.len() && i != p implies s[i] != x by {
            if s[i] == x {
                assert(s[i] == s[p]);
            }
        }
        lemma_filter_drops_one(s, x, p);
        assert(r.drop_first() =~= s.remove(p));
        assert(f.take(r.len() - 1) =~= f);
    } else {
        assert(!s.contains(x)) by {
            if s.contains(x) {
                let i = choose|i: int| 0 <= i < s.len() && s[i] == x;
            }
        }
        lemma_filter_keeps_all(s, x);
        assert(r.drop_first() =~= s.take(r.len() - 1));
    }
}

} // verus!
