//! Persistent settings and the rules of the settings form.

use vstd::prelude::*;

use crate::text::chars_of;

verus! {

/// The version of the settings schema.
pub const CONFIG_VERSION: u64 = 1;

/// The applet's settings.
#[derive(PartialEq, Eq, Structural, Clone, Copy, Debug)]
pub struct PickConfig {
    /// Max number of distinct clipboard entries to keep.
    pub history_size: u32,
    /// Clipboard poll interval. Lower = snappier, higher = less CPU.
    pub poll_interval_ms: u64,
    /// Persist clipboard history across applet restarts.
    pub persist_history: bool,
    /// Reject clipboard entries longer than this.
    pub max_entry_chars: u32,
}

impl Default for PickConfig {
    fn default() -> (r: Self)
        ensures
            r.history_size == 50,
            r.poll_interval_ms == 500,
            r.persist_history,
            r.max_entry_chars == 10_000,
    {
        PickConfig { history_size: 50, poll_interval_ms: 500, persist_history: true, max_entry_chars: 10_000 }
    }
}

/// The value of a decimal string, or -1 when a character is not a digit.
pub open spec fn decimal_value(d: Seq<char>) -> int
    decreases d.len(),
{
    if d.len() == 0 {
        0
    } else {
        let v = decimal_value(d.drop_last());
        let c = d.last();
        if v < 0 || !('0' <= c <= '9') { -1 } else { v * 10 + (c as u32 - 0x30) }
    }
}

/// `s.parse::<u32>()`: an optional `+`, then at least one digit, and a
/// value that fits in 32 bits.
pub open spec fn parse_u32(s: Seq<char>) -> Option<u32> {
    let digits = if s.len() > 0 && s[0] == '+' { s.drop_first() } else { s };
    if digits.len() == 0 {
        None
    } else if 0 <= decimal_value(digits) <= u32::MAX {
        Some(decimal_value(digits) as u32)
    } else {
        None
    }
}

proof fn lemma_decimal_value_grows(d: Seq<char>, i: int)
    requires
        0 <= i <= d.len(),
        decimal_value(d.take(i)) < 0 || decimal_value(d.take(i)) > u32::MAX,
    ensures
        decimal_value(d) < 0 || decimal_value(d) > u32::MAX,
    decreases d.len(),
{
    if i < d.len() {
        assert(d.take(i) =~= d.drop_last().take(i));
        lemma_decimal_value_grows(d.drop_last(), i);
    } else {
        assert(d.take(i) =~= d);
    }
}

/// Parse a `u32` as `str::parse` does.
pub fn parse_u32_str(s: &str) -> (r: Option<u32>)
    ensures
        r == parse_u32(s@),
{
    let c = chars_of(s);
    let start: usize = if c.len() > 0 && c[0] == '+' { 1 } else { 0 };
    let ghost digits = if c@.len() > 0 && c@[0] == '+' { c@.drop_first() } else { c@ };
    assert(digits =~= c@.subrange(start as int, c@.len() as int));
    if start == c.len() {
        return None;
    }
    let mut v: u64 = 0;
    let mut i: usize = start;
    assert(digits.take(0) =~= Seq::<char>::empty());
    while i < c.len()
        invariant
            start <= i <= c.len(),
            start < c.len(),
            c@ == s@,
            digits == (if c@.len() > 0 && c@[0] == '+' { c@.drop_first() } else { c@ }),
            digits =~= c@.subrange(start as int, c@.len() as int),
            v == decimal_value(digits.take(i - start)),
            v <= u32::MAX,
        decreases c.len() - i,
    {
        let ghost k = i - start;
        assert(digits.take(k + 1).drop_last() =~= digits.take(k));
        assert(digits.take(k + 1).last() == c@[i as int]);
        let ch = c[i];
        if !('0' <= ch && ch <= '9') {
            proof { lemma_decimal_value_grows(digits, k + 1); }
            return None;
        }
        v = v * 10 + (ch as u32 - 0x30) as u64;
        i += 1;
        if v > 0xffff_ffff {
            proof { lemma_decimal_value_grows(digits, i - start); }
            return None;
        }
    }
    assert(digits.take(c.len() - start) =~= digits);
    Some(v as u32)
}

/// Whether the settings form takes `s` into a number field: only ASCII
/// digits, and at most `max_len` of them.
pub open spec fn accepts_digits(s: Seq<char>, max_len: nat) -> bool {
    s.len() <= max_len && forall|i: int| 0 <= i < s.len() ==> '0' <= #[trigger] s[i] <= '9'
}

/// Whether the settings form takes `s` into a number field.
pub fn accept_digits(s: &str, max_len: usize) -> (r: bool)
    ensures
        r == accepts_digits(s@, max_len as nat),
{
    let c = chars_of(s);
    let mut i: usize = 0;
    while i < c.len()
        invariant
            i <= c.len(),
            c@ == s@,
            forall|j: int| 0 <= j < i ==> '0' <= #[trigger] c@[j] <= '9',
        decreases c.len() - i,
    {
        if !('0' <= c[i] && c[i] <= '9') {
            return false;
        }
        i += 1;
    }
    c.len() <= max_len
}

/// The number typed into a settings field: its value when it parses,
/// `default` when it does not, and at least 1.
pub open spec fn field_value(s: Seq<char>, default: u32) -> u32 {
    let v = match parse_u32(s) {
        Some(v) => v,
        None => default,
    };
    if v < 1 { 1 } else { v }
}

fn field_value_of(s: &str, default: u32) -> (r: u32)
    ensures
        r == field_value(s@, default),
{
    let v = match parse_u32_str(s) {
        Some(v) => v,
        None => default,
    };
    if v < 1 { 1 } else { v }
}

impl PickConfig {
    /// The settings the form describes: the history size (50 when it
    /// does not parse) and the character cap (10000 when it does not
    /// parse), each at least 1, and the persistence switch; the poll
    /// interval, which the form does not edit, is kept from `current`.
    pub fn from_form(
        current: &PickConfig,
        history_size_text: &str,
        max_chars_text: &str,
        persist_history: bool,
    ) -> (r: PickConfig)
        ensures
            r.history_size == field_value(history_size_text@, 50),
            r.max_entry_chars == field_value(max_chars_text@, 10_000),
            r.persist_history == persist_history,
            r.poll_interval_ms == current.poll_interval_ms,
    {
        PickConfig {
            history_size: field_value_of(history_size_text, 50),
            poll_interval_ms: current.poll_interval_ms,
            persist_history,
            max_entry_chars: field_value_of(max_chars_text, 10_000),
        }
    }

    /// How many entries the history keeps: the configured size, at least 1.
    pub fn history_cap(&self) -> (r: usize)
        ensures
            r == if self.history_size < 1 { 1 } else { self.history_size as int },
    {
        if self.history_size < 1 { 1 } else { self.history_size as usize }
    }
}

} // verus!
