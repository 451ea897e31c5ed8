//! Hex color parsing shared by the color tab and the recent colors, and
//! the conversion of `#rrggbb` to an RGB triple.

use vstd::prelude::*;

use crate::text::{chars_of, strip_leading, strip_leading_chars};

verus! {

/// The value of an ASCII hexadecimal digit, or -1.
pub open spec fn hex_digit(c: char) -> int {
    let u = c as u32;
    if 0x30 <= u <= 0x39 {
        u - 0x30
    } else if 0x61 <= u <= 0x66 {
        u - 0x61 + 10
    } else if 0x41 <= u <= 0x46 {
        u - 0x41 + 10
    } else {
        -1
    }
}

/// Every character of `t` is an ASCII hexadecimal digit.
pub open spec fn all_hex(t: Seq<char>) -> bool {
    forall|i: int| 0 <= i < t.len() ==> hex_digit(#[trigger] t[i]) >= 0
}

/// The byte that the two hex digits at `i` and `i + 1` of `t` write.
pub open spec fn hex_pair(t: Seq<char>, i: int) -> u8 {
    (hex_digit(t[i]) * 16 + hex_digit(t[i + 1])) as u8
}

/// Neutral gray, what a color that does not parse is drawn as.
pub open spec fn gray() -> (u8, u8, u8) {
    (128u8, 128u8, 128u8)
}

/// The RGB triple of `#rrggbb`: after leading `#`s, exactly six hex
/// digits, in either case; anything else is neutral gray.
pub open spec fn rgb_of(hex: Seq<char>) -> (u8, u8, u8) {
    let s = strip_leading(hex, '#');
    if s.len() == 6 && all_hex(s) {
        (hex_pair(s, 0), hex_pair(s, 2), hex_pair(s, 4))
    } else {
        gray()
    }
}

/// The curated palette of the color tab: searchable names, and the hex
/// strings that land in the clipboard. Roughly Tailwind 500/700 hues
/// plus neutrals.
pub const PALETTE: [(&'static str, &'static str); 26] = [
    ("red", "#ef4444"),
    ("red dark", "#b91c1c"),
    ("orange", "#f97316"),
    ("orange dark", "#c2410c"),
    ("amber", "#f59e0b"),
    ("yellow", "#eab308"),
    ("lime", "#84cc16"),
    ("green", "#22c55e"),
    ("green dark", "#15803d"),
    ("emerald", "#10b981"),
    ("teal", "#14b8a6"),
    ("cyan", "#06b6d4"),
    ("sky", "#0ea5e9"),
    ("blue", "#3b82f6"),
    ("blue dark", "#1d4ed8"),
    ("indigo", "#6366f1"),
    ("violet", "#8b5cf6"),
    ("purple", "#a855f7"),
    ("fuchsia", "#d946ef"),
    ("pink", "#ec4899"),
    ("rose", "#f43f5e"),
    ("white", "#ffffff"),
    ("gray light", "#e5e7eb"),
    ("gray", "#6b7280"),
    ("gray dark", "#374151"),
    ("black", "#000000"),
];

// ---------------------------------------------------------------------

/// The value of `c` as a hexadecimal digit, or -1.
pub fn hex_digit_of(c: char) -> (r: i32)
    ensures
        r == hex_digit(c),
{
    let u = c as u32;
    if 0x30 <= u && u <= 0x39 {
        (u - 0x30) as i32
    } else if 0x61 <= u && u <= 0x66 {
        (u - 0x61 + 10) as i32
    } else if 0x41 <= u && u <= 0x46 {
        (u - 0x41 + 10) as i32
    } else {
        -1
    }
}

/// Whether every character of `t` is an ASCII hexadecimal digit.
pub fn all_hex_chars(t: &[char]) -> (r: bool)
    ensures
        r == all_hex(t@),
{
    let mut i: usize = 0;
    while i < t.len()
        invariant
            i <= t.len(),
            forall|j: int| 0 <= j < i ==> hex_digit(#[trigger] t@[j]) >= 0,
        decreases t.len() - i,
    {
        if hex_digit_of(t[i]) < 0 {
            return false;
        }
        i += 1;
    }
    true
}

/// The byte written by the hex digits at `i` and `i + 1` of `t`.
pub fn hex_pair_of(t: &[char], i: usize) -> (r: u8)
    requires
        i + 1 < t.len(),
        hex_digit(t@[i as int]) >= 0,
        hex_digit(t@[i + 1]) >= 0,
    ensures
        r == hex_pair(t@, i as int),
{
    let hi = hex_digit_of(t[i]);
    let lo = hex_digit_of(t[i + 1]);
    (hi * 16 + lo) as u8
}

/// Convert `#rrggbb` to an `(r, g, b)` triple, falling back to neutral
/// gray when the text after its leading `#`s is not six hex digits.
pub fn hex_to_rgb(hex: &str) -> (r: (u8, u8, u8))
    ensures
        r == rgb_of(hex@),
{
    let all = chars_of(hex);
    let s = strip_leading_chars(all.as_slice(), '#');
    if s.len() == 6 && all_hex_chars(s.as_slice()) {
        (hex_pair_of(s.as_slice(), 0), hex_pair_of(s.as_slice(), 2), hex_pair_of(s.as_slice(), 4))
    } else {
        (128, 128, 128)
    }
}

} // verus!
