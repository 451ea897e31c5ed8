//! Bounded "recently picked colors" list.
//!
//! Colors are stored as 7-character lowercase `#rrggbb` strings, the
//! format the color tab hands to the clipboard.

use vstd::prelude::*;

use crate::colors::{all_hex, all_hex_chars, hex_digit, hex_digit_of, hex_pair, hex_pair_of, rgb_of};
use crate::mru::{mru_push, mru_push_string};
use crate::text::{
    chars_of, is_whitespace, string_of, strip_leading, strip_leading_chars, trim, trim_chars, trim_end,
    trim_start,
};

verus! {

/// Cap on stored recent colors.
pub const MAX_RECENT_COLORS: usize = 16;

/// Parse `#rrggbb`, `#rgb` or their bare-hex forms: surrounding
/// whitespace and leading `#`s are dropped, then exactly three or six
/// hex digits must be left (each `#rgb` digit stands for itself
/// written twice). Anything else does not parse.
pub open spec fn parse_color(input: Seq<char>) -> Option<(u8, u8, u8)> {
    let t = strip_leading(trim(input), '#');
    if !all_hex(t) {
        None
    } else if t.len() == 3 {
        Some(
            (
                (hex_digit(t[0]) * 17) as u8,
                (hex_digit(t[1]) * 17) as u8,
                (hex_digit(t[2]) * 17) as u8,
            ),
        )
    } else if t.len() == 6 {
        Some((hex_pair(t, 0), hex_pair(t, 2), hex_pair(t, 4)))
    } else {
        None
    }
}

/// The lowercase hex digit for `n < 16`.
pub open spec fn hex_char(n: int) -> char {
    if n < 10 {
        (0x30 + n) as char
    } else {
        (0x61 + n - 10) as char
    }
}

/// The uppercase hex digit for `n < 16`.
pub open spec fn hex_char_upper(n: int) -> char {
    if n < 10 {
        (0x30 + n) as char
    } else {
        (0x41 + n - 10) as char
    }
}

/// `#rrggbb` in lowercase.
pub open spec fn color_text(r: u8, g: u8, b: u8) -> Seq<char> {
    seq![
        '#',
        hex_char(r as int / 16),
        hex_char(r as int % 16),
        hex_char(g as int / 16),
        hex_char(g as int % 16),
        hex_char(b as int / 16),
        hex_char(b as int % 16),
    ]
}

/// `#RRGGBB` in uppercase.
pub open spec fn color_text_upper(r: u8, g: u8, b: u8) -> Seq<char> {
    seq![
        '#',
        hex_char_upper(r as int / 16),
        hex_char_upper(r as int % 16),
        hex_char_upper(g as int / 16),
        hex_char_upper(g as int % 16),
        hex_char_upper(b as int / 16),
        hex_char_upper(b as int % 16),
    ]
}

/// The normalized form of `input`, when it parses.
pub open spec fn normalized(input: Seq<char>) -> Option<Seq<char>> {
    match parse_color(input) {
        Some((r, g, b)) => Some(color_text(r, g, b)),
        None => None,
    }
}

fn hex_char_of(n: u8) -> (c: char)
    requires
        n < 16,
    ensures
        c == hex_char(n as int),
{
    if n < 10 {
        (0x30u8 + n) as char
    } else {
        (0x61u8 + n - 10) as char
    }
}

fn tripled(t: &[char], i: usize) -> (r: u8)
    requires
        i < t.len(),
        hex_digit(t@[i as int]) >= 0,
    ensures
        r == (hex_digit(t@[i as int]) * 17) as u8,
{
    let d = hex_digit_of(t[i]);
    (d * 17) as u8
}

fn parse_color_chars(input: &[char]) -> (r: Option<(u8, u8, u8)>)
    ensures
        r == parse_color(input@),
{
    let trimmed = trim_chars(input);
    let t = strip_leading_chars(trimmed.as_slice(), '#');
    if !all_hex_chars(t.as_slice()) {
        None
    } else if t.len() == 3 {
        Some((tripled(t.as_slice(), 0), tripled(t.as_slice(), 1), tripled(t.as_slice(), 2)))
    } else if t.len() == 6 {
        Some((hex_pair_of(t.as_slice(), 0), hex_pair_of(t.as_slice(), 2), hex_pair_of(t.as_slice(), 4)))
    } else {
        None
    }
}

/// Accept `#rrggbb`, `#rgb`, or bare-hex variants; emit `#rrggbb`
/// lowercase. Returns `None` if it can't be parsed.
pub fn normalize_hex(input: &str) -> (r: Option<String>)
    ensures
        match r {
            Some(s) => normalized(input@) == Some(s@),
            None => normalized(input@) is None,
        },
{
    let all = chars_of(input);
    match parse_color_chars(all.as_slice()) {
        Some((r, g, b)) => {
            let mut v: Vec<char> = Vec::new();
            v.push('#');
            v.push(hex_char_of(r / 16));
            v.push(hex_char_of(r % 16));
            v.push(hex_char_of(g / 16));
            v.push(hex_char_of(g % 16));
            v.push(hex_char_of(b / 16));
            v.push(hex_char_of(b % 16));
            assert(v@ =~= color_text(r, g, b));
            Some(string_of(v.as_slice()))
        },
        None => None,
    }
}

/// Recently picked colors, newest first.
pub struct RecentColors {
    entries: Vec<String>,
}

impl View for RecentColors {
    type V = Seq<Seq<char>>;

    closed spec fn view(&self) -> Seq<Seq<char>> {
        self.entries.deep_view()
    }
}

impl RecentColors {
    pub fn new() -> (r: Self)
        ensures
            r@ == Seq::<Seq<char>>::empty(),
    {
        let r = RecentColors { entries: Vec::new() };
        assert(r@ =~= Seq::<Seq<char>>::empty());
        r
    }

    /// A list holding `entries` as they are (as read back from disk).
    pub fn from_entries(entries: Vec<String>) -> (r: Self)
        ensures
            r@ == entries.deep_view(),
    {
        RecentColors { entries }
    }

    /// The colors, newest first.
    pub fn iter(&self) -> (r: &[String])
        ensures
            r@.map_values(|s: String| s@) == self@,
    {
        assert(self.entries@.map_values(|s: String| s@) =~= self.entries.deep_view());
        self.entries.as_slice()
    }

    pub fn is_empty(&self) -> (r: bool)
        ensures
            r == (self@.len() == 0),
    {
        self.entries.len() == 0
    }

    /// Push a color, normalized to `#rrggbb`: a color already present
    /// moves to the front, a new one goes there and the list is trimmed
    /// to its cap. A color that does not parse is ignored.
    pub fn push(&mut self, color: &str)
        ensures
            final(self)@ == match normalized(color@) {
                Some(c) => mru_push(old(self)@, c, MAX_RECENT_COLORS as nat),
                None => old(self)@,
            },
    {
        match normalize_hex(color) {
            Some(normalized) => mru_push_string(&mut self.entries, normalized, MAX_RECENT_COLORS),
            None => {},
        }
    }
}

proof fn lemma_hex_char(n: int)
    requires
        0 <= n < 16,
    ensures
        hex_digit(hex_char(n)) == n,
        hex_digit(hex_char_upper(n)) == n,
        hex_char(n) != '#',
        hex_char_upper(n) != '#',
        !is_whitespace(hex_char(n)),
        !is_whitespace(hex_char_upper(n)),
        ('0' <= hex_char(n) <= '9') || ('a' <= hex_char(n) <= 'f'),
{
}

/// The two digits `t[i]`, `t[i + 1]` that write `v` write `v`.
proof fn lemma_pair(t: Seq<char>, i: int, v: u8)
    requires
        0 <= i,
        i + 1 < t.len(),
        hex_digit(t[i]) == v as int / 16,
        hex_digit(t[i + 1]) == v as int % 16,
    ensures
        hex_pair(t, i) == v,
{
}

/// A color text `#` + six hex digits is its own trimmed form, and its
/// digits are what follows the `#`.
proof fn lemma_color_shape(c: Seq<char>)
    requires
        c.len() == 7,
        c[0] == '#',
        forall|i: int| 1 <= i < 7 ==> hex_digit(#[trigger] c[i]) >= 0 && c[i] != '#' && !is_whitespace(c[i]),
    ensures
        strip_leading(c, '#') == c.drop_first(),
        strip_leading(trim(c), '#') == c.drop_first(),
        all_hex(c.drop_first()),
        c.drop_first().len() == 6,
{
    let t = c.drop_first();
    assert(t[0] == c[1]);
    assert(c.last() == c[6]);
    assert(trim_start(c) == c);
    assert(trim_end(c) == c);
    assert(strip_leading(t, '#') == t);
    assert(strip_leading(c, '#') == t);
    assert forall|i: int| 0 <= i < t.len() implies hex_digit(#[trigger] t[i]) >= 0 by {
        assert(t[i] == c[i + 1]);
    }
}

proof fn lemma_color_text(r: u8, g: u8, b: u8)
    ensures
        strip_leading(color_text(r, g, b), '#') == color_text(r, g, b).drop_first(),
        strip_leading(trim(color_text(r, g, b)), '#') == color_text(r, g, b).drop_first(),
        all_hex(color_text(r, g, b).drop_first()),
        hex_pair(color_text(r, g, b).drop_first(), 0) == r,
        hex_pair(color_text(r, g, b).drop_first(), 2) == g,
        hex_pair(color_text(r, g, b).drop_first(), 4) == b,
        strip_leading(color_text_upper(r, g, b), '#') == color_text_upper(r, g, b).drop_first(),
        all_hex(color_text_upper(r, g, b).drop_first()),
        hex_pair(color_text_upper(r, g, b).drop_first(), 0) == r,
        hex_pair(color_text_upper(r, g, b).drop_first(), 2) == g,
        hex_pair(color_text_upper(r, g, b).drop_first(), 4) == b,
{
    lemma_hex_char(r as int / 16);
    lemma_hex_char(r as int % 16);
    lemma_hex_char(g as int / 16);
    lemma_hex_char(g as int % 16);
    lemma_hex_char(b as int / 16);
    lemma_hex_char(b as int % 16);
    let c = color_text(r, g, b);
    let u = color_text_upper(r, g, b);
    lemma_color_shape(c);
    lemma_color_shape(u);
    lemma_pair(c.drop_first(), 0, r);
    lemma_pair(c.drop_first(), 2, g);
    lemma_pair(c.drop_first(), 4, b);
    lemma_pair(u.drop_first(), 0, r);
    lemma_pair(u.drop_first(), 2, g);
    lemma_pair(u.drop_first(), 4, b);
}

/// Normalizing is idempotent: a normalized color normalizes to itself.
pub proof fn normalize_is_idempotent(r: u8, g: u8, b: u8)
    ensures
        parse_color(color_text(r, g, b)) == Some((r, g, b)),
        normalized(color_text(r, g, b)) == Some(color_text(r, g, b)),
{
    lemma_color_text(r, g, b);
}

/// `#rrggbb` reads back as the color it writes, in lowercase and in
/// uppercase digits alike.
pub proof fn rgb_of_normalized(r: u8, g: u8, b: u8)
    ensures
        rgb_of(color_text(r, g, b)) == (r, g, b),
        rgb_of(color_text_upper(r, g, b)) == (r, g, b),
{
    lemma_color_text(r, g, b);
}

/// The swatch of a normalized color is the color that was parsed.
pub proof fn normalized_reads_back(input: Seq<char>)
    ensures
        parse_color(input) matches Some((r, g, b)) ==> normalized(input) == Some(color_text(r, g, b))
            && rgb_of(color_text(r, g, b)) == (r, g, b),
{
    if let Some((r, g, b)) = parse_color(input) {
        rgb_of_normalized(r, g, b);
    }
}

/// A lowercase hexadecimal digit.
pub open spec fn is_lower_hex(c: char) -> bool {
    ('0' <= c <= '9') || ('a' <= c <= 'f')
}

/// A normalized color is `#` and six lowercase hex digits.
pub proof fn normalized_form(input: Seq<char>)
    ensures
        normalized(input) matches Some(c) ==> c.len() == 7 && c[0] == '#'
            && forall|i: int| 1 <= i < 7 ==> is_lower_hex(#[trigger] c[i]),
{
    match parse_color(input) {
        Some((r, g, b)) => {
            let c = color_text(r, g, b);
            assert forall|i: int| 1 <= i < 7 implies is_lower_hex(#[trigger] c[i]) by {
                lemma_hex_char(r as int / 16);
                lemma_hex_char(r as int % 16);
                lemma_hex_char(g as int / 16);
                lemma_hex_char(g as int % 16);
                lemma_hex_char(b as int / 16);
                lemma_hex_char(b as int % 16);
            }
        },
        None => {},
    }
}

} // verus!
