//! Labels and local paths for file URIs copied from a file manager.

use vstd::prelude::*;

use crate::text::{chars_of, extend_chars, starts_with, starts_with_str, string_of, sub_chars};

verus! {

/// A quote a terminal's "copy path" may put around a path.
pub open spec fn is_quote(c: char) -> bool {
    c == '\'' || c == '"'
}

/// `s` without leading quotes.
pub open spec fn trim_start_quotes(s: Seq<char>) -> Seq<char>
    decreases s.len(),
{
    if s.len() > 0 && is_quote(s[0]) { trim_start_quotes(s.drop_first()) } else { s }
}

/// `s` without trailing quotes.
pub open spec fn trim_end_quotes(s: Seq<char>) -> Seq<char>
    decreases s.len(),
{
    if s.len() > 0 && is_quote(s.last()) { trim_end_quotes(s.drop_last()) } else { s }
}

/// `s` without surrounding quotes, as `trim_matches` with `'` and `"`.
pub open spec fn trim_quotes(s: Seq<char>) -> Seq<char> {
    trim_end_quotes(trim_start_quotes(s))
}

/// The index of the first occurrence of `p` in `s`, or -1.
pub open spec fn find_sub(s: Seq<char>, p: Seq<char>) -> int
    decreases s.len(),
{
    if s.len() < p.len() {
        -1
    } else if s.take(p.len() as int) == p {
        0
    } else if s.len() == 0 {
        -1
    } else {
        let r = find_sub(s.drop_first(), p);
        if r < 0 { -1 } else { r + 1 }
    }
}

pub proof fn lemma_find_sub(s: Seq<char>, p: Seq<char>)
    ensures
        find_sub(s, p) >= 0 ==> find_sub(s, p) + p.len() <= s.len(),
        find_sub(s, p) >= 0 ==> s.subrange(find_sub(s, p), find_sub(s, p) + p.len()) == p,
        find_sub(s, p) >= -1,
    decreases s.len(),
{
    if s.len() >= p.len() && s.take(p.len() as int) != p && s.len() > 0 {
        lemma_find_sub(s.drop_first(), p);
        let r = find_sub(s.drop_first(), p);
        if r >= 0 {
            assert(s.subrange(r + 1, r + 1 + p.len()) =~= s.drop_first().subrange(r, r + p.len()));
        }
    }
    if s.len() >= p.len() && s.take(p.len() as int) == p {
        assert(s.subrange(0, p.len() as int) =~= s.take(p.len() as int));
    }
}

/// The character that an escape at the start of `s` stands for, for
/// the escapes a file manager emits: `%20`, `%2F` and `%25`.
pub open spec fn escape_at(s: Seq<char>) -> Option<char> {
    if s.len() >= 3 && s[0] == '%' && s[1] == '2' {
        if s[2] == '0' {
            Some(' ')
        } else if s[2] == 'F' {
            Some('/')
        } else if s[2] == '5' {
            Some('%')
        } else {
            None
        }
    } else {
        None
    }
}

/// `s` with `%20`, `%2F` and `%25` decoded in one pass from left to
/// right: each escape is decoded once, and what it decodes to is not
/// read again.
pub open spec fn decode_percent(s: Seq<char>) -> Seq<char>
    decreases s.len(),
{
    if s.len() == 0 {
        Seq::empty()
    } else {
        match escape_at(s) {
            Some(c) => seq![c] + decode_percent(s.subrange(3, s.len() as int)),
            None => seq![s[0]] + decode_percent(s.drop_first()),
        }
    }
}

/// The part of `u` after its first `://`, or `u`.
pub open spec fn after_scheme(u: Seq<char>) -> Seq<char> {
    let i = find_sub(u, "://"@);
    if i < 0 { u } else { u.subrange(i + 3, u.len() as int) }
}

/// `s` without trailing `/`.
pub open spec fn trim_end_slashes(s: Seq<char>) -> Seq<char>
    decreases s.len(),
{
    if s.len() > 0 && s.last() == '/' { trim_end_slashes(s.drop_last()) } else { s }
}

/// The index of the last `c` in `s`, or -1.
pub open spec fn last_index(s: Seq<char>, c: char) -> int
    decreases s.len(),
{
    if s.len() == 0 {
        -1
    } else if s.last() == c {
        s.len() - 1
    } else {
        last_index(s.drop_last(), c)
    }
}

pub proof fn lemma_last_index(s: Seq<char>, c: char)
    ensures
        -1 <= last_index(s, c) < s.len(),
        last_index(s, c) >= 0 ==> s[last_index(s, c)] == c,
        forall|j: int| last_index(s, c) < j < s.len() ==> #[trigger] s[j] != c,
    decreases s.len(),
{
    if s.len() > 0 && s.last() != c {
        lemma_last_index(s.drop_last(), c);
        assert forall|j: int| last_index(s, c) < j < s.len() implies #[trigger] s[j] != c by {
            if j < s.len() - 1 {
                assert(s[j] == s.drop_last()[j]);
            }
        }
    }
}

/// The last non-empty `/`-separated segment of `path`, or `path` when
/// it has none.
pub open spec fn last_segment(path: Seq<char>) -> Seq<char> {
    let q = trim_end_slashes(path);
    if q.len() == 0 {
        path
    } else {
        q.subrange(last_index(q, '/') + 1, q.len() as int)
    }
}

/// The displayable basename of a URI or path.
pub open spec fn basename_of(uri: Seq<char>) -> Seq<char> {
    decode_percent(trim_quotes(last_segment(after_scheme(trim_quotes(uri)))))
}

fn is_quote_char(c: char) -> (r: bool)
    ensures
        r == is_quote(c),
{
    c == '\'' || c == '"'
}

/// The characters of `s` without surrounding quotes.
pub fn trim_quotes_chars(s: &[char]) -> (r: Vec<char>)
    ensures
        r@ == trim_quotes(s@),
{
    let mut a: usize = 0;
    assert(s@.subrange(0, s@.len() as int) =~= s@);
    while a < s.len() && is_quote_char(s[a])
        invariant
            a <= s.len(),
            trim_start_quotes(s@) == trim_start_quotes(s@.subrange(a as int, s@.len() as int)),
        decreases s.len() - a,
    {
        assert(s@.subrange(a as int, s@.len() as int).drop_first() =~= s@.subrange(a + 1, s@.len() as int));
        a += 1;
    }
    let ghost st = s@.subrange(a as int, s@.len() as int);
    let mut b: usize = s.len();
    while b > a && is_quote_char(s[b - 1])
        invariant
            a <= b <= s.len(),
            trim_end_quotes(st) == trim_end_quotes(s@.subrange(a as int, b as int)),
        decreases b,
    {
        assert(s@.subrange(a as int, b as int).drop_last() =~= s@.subrange(a as int, b - 1));
        b -= 1;
    }
    sub_chars(s, a, b)
}

/// The index of the first occurrence of `p` in `s`.
pub fn find_sub_chars(s: &[char], p: &[char]) -> (r: Option<usize>)
    ensures
        match r {
            Some(i) => i as int == find_sub(s@, p@),
            None => find_sub(s@, p@) < 0,
        },
{
    let mut i: usize = 0;
    assert(s@.subrange(0, s@.len() as int) =~= s@);
    loop
        invariant
            i <= s.len(),
            find_sub(s@, p@) == (if find_sub(s@.subrange(i as int, s@.len() as int), p@) < 0 { -1 } else { find_sub(s@.subrange(i as int, s@.len() as int), p@) + i }),
        decreases s.len() - i,
    {
        let ghost sub = s@.subrange(i as int, s@.len() as int);
        let rest = sub_chars(s, i, s.len());
        if p.len() > rest.len() {
            return None;
        }
        if crate::text::starts_with_chars(rest.as_slice(), p) {
            return Some(i);
        }
        if i == s.len() {
            return None;
        }
        assert(sub.drop_first() =~= s@.subrange(i + 1, s@.len() as int));
        i += 1;
    }
}

/// `%20`, `%2F` and `%25` decoded in one pass.
pub fn decode_percent_chars(s: &[char]) -> (r: Vec<char>)
    ensures
        r@ == decode_percent(s@),
{
    let mut out: Vec<char> = Vec::new();
    let mut i: usize = 0;
    assert(s@.subrange(0, s@.len() as int) =~= s@);
    while i < s.len()
        invariant
            i <= s.len(),
            decode_percent(s@) == out@ + decode_percent(s@.subrange(i as int, s@.len() as int)),
        decreases s.len() - i,
    {
        let ghost sub = s@.subrange(i as int, s@.len() as int);
        let ghost before = out@;
        let mut esc: Option<char> = None;
        if s.len() - i >= 3 && s[i] == '%' && s[i + 1] == '2' {
            if s[i + 2] == '0' {
                esc = Some(' ');
            } else if s[i + 2] == 'F' {
                esc = Some('/');
            } else if s[i + 2] == '5' {
                esc = Some('%');
            }
        }
        assert(sub.len() >= 3 ==> sub[0] == s@[i as int] && sub[1] == s@[i + 1] && sub[2] == s@[i + 2]);
        assert(esc == escape_at(sub));
        match esc {
            Some(c) => {
                out.push(c);
                assert(sub.subrange(3, sub.len() as int) =~= s@.subrange(i + 3, s@.len() as int));
                assert(before + (seq![c] + decode_percent(sub.subrange(3, sub.len() as int))) =~= out@ + decode_percent(s@.subrange(i + 3, s@.len() as int)));
                i = i + 3;
            },
            None => {
                out.push(s[i]);
                assert(sub[0] == s@[i as int]);
                assert(sub.drop_first() =~= s@.subrange(i + 1, s@.len() as int));
                assert(before + (seq![sub[0]] + decode_percent(sub.drop_first())) =~= out@ + decode_percent(s@.subrange(i + 1, s@.len() as int)));
                i = i + 1;
            },
        }
    }
    assert(s@.subrange(s@.len() as int, s@.len() as int) =~= Seq::<char>::empty());
    assert(out@ + Seq::<char>::empty() =~= out@);
    out
}

fn trim_end_slashes_len(s: &[char]) -> (r: usize)
    ensures
        r <= s.len(),
        s@.take(r as int) == trim_end_slashes(s@),
{
    let mut b: usize = s.len();
    assert(s@.take(s@.len() as int) =~= s@);
    while b > 0 && s[b - 1] == '/'
        invariant
            b <= s.len(),
            trim_end_slashes(s@) == trim_end_slashes(s@.take(b as int)),
        decreases b,
    {
        assert(s@.take(b as int).drop_last() =~= s@.take(b - 1));
        b -= 1;
    }
    b
}

fn last_index_of(s: &[char], c: char) -> (r: Option<usize>)
    ensures
        match r {
            Some(i) => i as int == last_index(s@, c),
            None => last_index(s@, c) < 0,
        },
{
    let mut b: usize = s.len();
    assert(s@.take(s@.len() as int) =~= s@);
    while b > 0 && s[b - 1] != c
        invariant
            b <= s.len(),
            last_index(s@, c) == last_index(s@.take(b as int), c),
        decreases b,
    {
        assert(s@.take(b as int).drop_last() =~= s@.take(b - 1));
        b -= 1;
    }
    if b == 0 {
        None
    } else {
        Some(b - 1)
    }
}

/// Extract the displayable basename from a URI or path: a
/// `scheme://` prefix and surrounding quotes go, the last non-empty
/// `/`-separated segment stays, and `%20`, `%2F`, `%25` are decoded.
pub fn uri_basename(uri: &str) -> (r: String)
    ensures
        r@ == basename_of(uri@),
{
    let all = chars_of(uri);
    let u = trim_quotes_chars(all.as_slice());
    let sep = chars_of("://");
    proof { reveal_strlit("://"); }
    let n = u.len();
    let path = match find_sub_chars(u.as_slice(), sep.as_slice()) {
        Some(i) => {
            proof { lemma_find_sub(u@, "://"@); }
            sub_chars(u.as_slice(), i + 3, n)
        },
        None => sub_chars(u.as_slice(), 0, n),
    };
    assert(path@ =~= after_scheme(trim_quotes(uri@)));
    let qlen = trim_end_slashes_len(path.as_slice());
    let q = sub_chars(path.as_slice(), 0, qlen);
    assert(q@ =~= trim_end_slashes(path@));
    let seg = if qlen == 0 {
        path
    } else {
        proof { lemma_last_index(q@, '/'); }
        match last_index_of(q.as_slice(), '/') {
            Some(i) => sub_chars(q.as_slice(), i + 1, q.len()),
            None => {
                assert(q@.subrange(0, q@.len() as int) =~= q@);
                sub_chars(q.as_slice(), 0, q.len())
            },
        }
    };
    assert(seg@ =~= last_segment(after_scheme(trim_quotes(uri@))));
    let t = trim_quotes_chars(seg.as_slice());
    let d = decode_percent_chars(t.as_slice());
    string_of(d.as_slice())
}

/// The decimal digits of `n`.
pub open spec fn decimal(n: nat) -> Seq<char>
    decreases n,
{
    if n < 10 {
        seq![(0x30 + n) as char]
    } else {
        decimal(n / 10).push((0x30 + n % 10) as char)
    }
}

/// The decimal digits of `n`.
pub fn decimal_chars(n: usize) -> (r: Vec<char>)
    ensures
        r@ == decimal(n as nat),
    decreases n,
{
    if n < 10 {
        let mut v: Vec<char> = Vec::new();
        v.push(((0x30u8 + n as u8) as char));
        v
    } else {
        let mut v = decimal_chars(n / 10);
        v.push(((0x30u8 + (n % 10) as u8) as char));
        v
    }
}

/// The label of a file-list entry: the first file's basename, with
/// `+ N more` when there are several.
pub open spec fn files_label(uris: Seq<Seq<char>>) -> Seq<char> {
    let name = if uris.len() > 0 { basename_of(uris[0]) } else { Seq::empty() };
    if uris.len() > 1 {
        name + " + "@ + decimal((uris.len() - 1) as nat) + " more"@
    } else {
        name
    }
}

/// The label of a file-list entry.
pub fn format_files_label(uris: &Vec<String>) -> (r: String)
    ensures
        r@ == files_label(uris.deep_view()),
{
    let mut out: Vec<char> = if uris.len() > 0 {
        let b = uri_basename(uris[0].as_str());
        chars_of(b.as_str())
    } else {
        Vec::new()
    };
    assert(uris.len() > 0 ==> uris.deep_view()[0] == uris@[0]@);
    if uris.len() > 1 {
        let sep = chars_of(" + ");
        extend_chars(&mut out, sep.as_slice());
        let n = decimal_chars(uris.len() - 1);
        extend_chars(&mut out, n.as_slice());
        let more = chars_of(" more");
        extend_chars(&mut out, more.as_slice());
    }
    string_of(out.as_slice())
}

// ---------------------------------------------------------------------
// Local paths.

/// `s` without the prefix `p`, when it has it.
pub open spec fn strip_prefix(s: Seq<char>, p: Seq<char>) -> Seq<char> {
    if starts_with(s, p) { s.subrange(p.len() as int, s.len() as int) } else { s }
}

/// Whether a URI names a directory by its trailing slash.
pub open spec fn names_dir(uri: Seq<char>) -> bool {
    let r = trim_quotes(uri);
    r.len() > 0 && r.last() == '/'
}

/// The local path a URI points at: quotes and a `file://` prefix go and
/// the escapes are decoded.
pub open spec fn local_path_of(uri: Seq<char>) -> Seq<char> {
    decode_percent(strip_prefix(trim_quotes(uri), "file://"@))
}

/// Whether `uri` ends with `/` once its quotes are trimmed.
pub fn uri_names_dir(uri: &str) -> (r: bool)
    ensures
        r == names_dir(uri@),
{
    let all = chars_of(uri);
    let t = trim_quotes_chars(all.as_slice());
    t.len() > 0 && t[t.len() - 1] == '/'
}

/// The local path `uri` points at; whether it is a directory on disk is
/// for the caller to check.
pub fn uri_local_path(uri: &str) -> (r: String)
    ensures
        r@ == local_path_of(uri@),
{
    let all = chars_of(uri);
    let t = trim_quotes_chars(all.as_slice());
    let n = t.len();
    proof { reveal_strlit("file://"); }
    let p = if starts_with_str(t.as_slice(), "file://") {
        sub_chars(t.as_slice(), 7, n)
    } else {
        sub_chars(t.as_slice(), 0, n)
    };
    assert(p@ =~= strip_prefix(t@, "file://"@));
    let d = decode_percent_chars(p.as_slice());
    string_of(d.as_slice())
}

pub proof fn lemma_trim_end_slashes(s: Seq<char>)
    ensures
        trim_end_slashes(s).len() <= s.len(),
        trim_end_slashes(s) == s.take(trim_end_slashes(s).len() as int),
        trim_end_slashes(s).len() > 0 ==> trim_end_slashes(s).last() != '/',
    decreases s.len(),
{
    if s.len() > 0 && s.last() == '/' {
        lemma_trim_end_slashes(s.drop_last());
        assert(s.drop_last().take(trim_end_slashes(s).len() as int) =~= s.take(trim_end_slashes(s).len() as int));
    } else {
        assert(s.take(s.len() as int) =~= s);
    }
}

/// The file name of a Unix path, as `Path::file_name`: its last
/// component, skipping `.` components; none when the path has no
/// component or ends in `..`.
pub open spec fn file_name(p: Seq<char>) -> Option<Seq<char>>
    decreases p.len(),
{
    let q = trim_end_slashes(p);
    if q.len() == 0 {
        None
    } else {
        proof {
            lemma_trim_end_slashes(p);
            lemma_last_index(q, '/');
        }
        let i = last_index(q, '/');
        let seg = q.subrange(i + 1, q.len() as int);
        if seg == "."@ {
            file_name(q.take(i + 1))
        } else if seg == ".."@ {
            None
        } else {
            Some(seg)
        }
    }
}

/// The extension of a Unix path, as `Path::extension`: what follows the
/// last `.` of the file name, unless that dot starts the name.
pub open spec fn path_extension(p: Seq<char>) -> Option<Seq<char>> {
    match file_name(p) {
        None => None,
        Some(n) => {
            let d = last_index(n, '.');
            if d <= 0 { None } else { Some(n.subrange(d + 1, n.len() as int)) }
        },
    }
}

/// ASCII letters in lowercase.
pub open spec fn ascii_lower(s: Seq<char>) -> Seq<char> {
    s.map_values(|c: char| if 'A' <= c <= 'Z' { ((c as u32) + 32) as char } else { c })
}

/// An image extension the popup renders as a thumbnail.
pub open spec fn is_image_ext(e: Seq<char>) -> bool {
    e == "png"@ || e == "jpg"@ || e == "jpeg"@ || e == "webp"@ || e == "gif"@ || e == "bmp"@ || e == "ico"@
}

/// The local path of the first URI when it is a `file://` URI or an
/// absolute path whose extension (in any case) is an image one.
pub open spec fn image_candidate(uris: Seq<Seq<char>>) -> Option<Seq<char>> {
    if uris.len() == 0 {
        None
    } else {
        let raw = trim_quotes(uris[0]);
        let part = if starts_with(raw, "file://"@) {
            Some(raw.subrange(7, raw.len() as int))
        } else if starts_with(raw, "/"@) {
            Some(raw)
        } else {
            None
        };
        match part {
            None => None,
            Some(p) => {
                let d = decode_percent(p);
                match path_extension(d) {
                    Some(e) => if is_image_ext(ascii_lower(e)) { Some(d) } else { None },
                    None => None,
                }
            },
        }
    }
}

fn file_name_chars(p: &[char]) -> (r: Option<Vec<char>>)
    ensures
        match r {
            Some(n) => file_name(p@) == Some(n@),
            None => file_name(p@) is None,
        },
    decreases p.len(),
{
    let qlen = trim_end_slashes_len(p);
    let q = sub_chars(p, 0, qlen);
    assert(q@ =~= trim_end_slashes(p@));
    if qlen == 0 {
        return None;
    }
    proof {
        lemma_trim_end_slashes(p@);
        lemma_last_index(q@, '/');
    }
    let start: usize = match last_index_of(q.as_slice(), '/') {
        Some(i) => i + 1,
        None => 0,
    };
    let seg = sub_chars(q.as_slice(), start, qlen);
    proof {
        reveal_strlit(".");
        reveal_strlit("..");
    }
    if crate::text::chars_eq_str(seg.as_slice(), ".") {
        let head = sub_chars(q.as_slice(), 0, start);
        assert(head@ =~= q@.take(start as int));
        file_name_chars(head.as_slice())
    } else if crate::text::chars_eq_str(seg.as_slice(), "..") {
        None
    } else {
        Some(seg)
    }
}

fn ascii_lower_chars(s: &[char]) -> (r: Vec<char>)
    ensures
        r@ == ascii_lower(s@),
{
    let mut out: Vec<char> = Vec::new();
    let mut i: usize = 0;
    while i < s.len()
        invariant
            i <= s.len(),
            out@ == ascii_lower(s@.take(i as int)),
        decreases s.len() - i,
    {
        let c = s[i];
        let l = if 'A' <= c && c <= 'Z' { ((c as u32 + 32) as u8) as char } else { c };
        assert(l == (if 'A' <= c <= 'Z' { ((c as u32) + 32) as char } else { c })) by {
            if 'A' <= c && c <= 'Z' {
                assert((c as u32 + 32) < 256);
            }
        }
        out.push(l);
        assert(ascii_lower(s@.take(i + 1)) =~= ascii_lower(s@.take(i as int)).push(l));
        i += 1;
    }
    assert(s@.take(s@.len() as int) =~= s@);
    out
}

fn is_image_ext_chars(e: &[char]) -> (r: bool)
    ensures
        r == is_image_ext(e@),
{
    crate::text::chars_eq_str(e, "png") || crate::text::chars_eq_str(e, "jpg")
        || crate::text::chars_eq_str(e, "jpeg") || crate::text::chars_eq_str(e, "webp")
        || crate::text::chars_eq_str(e, "gif") || crate::text::chars_eq_str(e, "bmp")
        || crate::text::chars_eq_str(e, "ico")
}

/// The path of a local image that the first URI points at, for a
/// thumbnail; whether the file exists is for the caller to check.
pub fn local_image_candidate(uris: &Vec<String>) -> (r: Option<String>)
    ensures
        match r {
            Some(p) => image_candidate(uris.deep_view()) == Some(p@),
            None => image_candidate(uris.deep_view()) is None,
        },
{
    if uris.len() == 0 {
        return None;
    }
    assert(uris.deep_view()[0] == uris@[0]@);
    let all = chars_of(uris[0].as_str());
    let raw = trim_quotes_chars(all.as_slice());
    let n = raw.len();
    proof {
        reveal_strlit("file://");
        reveal_strlit("/");
    }
    let part = if starts_with_str(raw.as_slice(), "file://") {
        sub_chars(raw.as_slice(), 7, n)
    } else if starts_with_str(raw.as_slice(), "/") {
        sub_chars(raw.as_slice(), 0, n)
    } else {
        return None;
    };
    assert(starts_with(raw@, "/"@) && !starts_with(raw@, "file://"@) ==> part@ =~= raw@);
    let d = decode_percent_chars(part.as_slice());
    let name = match file_name_chars(d.as_slice()) {
        Some(n) => n,
        None => return None,
    };
    proof { lemma_last_index(name@, '.'); }
    let dot = match last_index_of(name.as_slice(), '.') {
        Some(i) => i,
        None => return None,
    };
    if dot == 0 {
        return None;
    }
    assert(dot < name.len());
    let ext = sub_chars(name.as_slice(), dot + 1, name.len());
    let lower = ascii_lower_chars(ext.as_slice());
    if is_image_ext_chars(lower.as_slice()) {
        Some(string_of(d.as_slice()))
    } else {
        None
    }
}

} // verus!
