//! Cleanup of captured text: byte-order mark, terminal escape
//! sequences, shell prompts, URL tracking parameters and surrounding
//! whitespace.

use vstd::prelude::*;

use crate::text::{
    chars_of, contains_seq, first_index, is_whitespace, is_whitespace_char, lemma_first_index, starts_with,
    starts_with_str, string_of, sub_chars, trim, trim_chars,
};

verus! {

/// The escape character that starts a terminal control sequence.
pub open spec fn esc() -> char {
    '\x1b'
}

/// A character that ends a CSI sequence: an ASCII letter or `~`.
pub open spec fn is_csi_final(c: char) -> bool {
    ('a' <= c <= 'z') || ('A' <= c <= 'Z') || c == '~'
}

/// What follows a CSI sequence whose parameters start `s`.
pub open spec fn after_csi(s: Seq<char>) -> Seq<char>
    decreases s.len(),
{
    if s.len() == 0 {
        s
    } else if is_csi_final(s[0]) {
        s.drop_first()
    } else {
        after_csi(s.drop_first())
    }
}

/// What follows an OSC sequence whose body starts `s`: it ends at a
/// BEL, or at an ESC together with the character after it.
pub open spec fn after_osc(s: Seq<char>) -> Seq<char>
    decreases s.len(),
{
    if s.len() == 0 {
        s
    } else if s[0] == '\x07' {
        s.drop_first()
    } else if s[0] == esc() {
        if s.len() >= 2 { s.subrange(2, s.len() as int) } else { Seq::empty() }
    } else {
        after_osc(s.drop_first())
    }
}

pub proof fn lemma_after_csi_len(s: Seq<char>)
    ensures
        after_csi(s).len() <= s.len(),
    decreases s.len(),
{
    if s.len() > 0 && !is_csi_final(s[0]) {
        lemma_after_csi_len(s.drop_first());
    }
}

pub proof fn lemma_after_osc_len(s: Seq<char>)
    ensures
        after_osc(s).len() <= s.len(),
    decreases s.len(),
{
    if s.len() > 0 && s[0] != '\x07' && s[0] != esc() {
        lemma_after_osc_len(s.drop_first());
    }
}

/// `s` without ANSI escape sequences: CSI (`ESC [` up to a letter or
/// `~`), OSC (`ESC ]` up to BEL or `ESC` and one more character), and
/// any other `ESC` with the character after it.
pub open spec fn strip_ansi(s: Seq<char>) -> Seq<char>
    decreases s.len(),
{
    if s.len() == 0 {
        s
    } else if s[0] != esc() {
        seq![s[0]] + strip_ansi(s.drop_first())
    } else if s.len() == 1 {
        Seq::empty()
    } else if s[1] == '[' {
        proof { lemma_after_csi_len(s.subrange(2, s.len() as int)); }
        strip_ansi(after_csi(s.subrange(2, s.len() as int)))
    } else if s[1] == ']' {
        proof { lemma_after_osc_len(s.subrange(2, s.len() as int)); }
        strip_ansi(after_osc(s.subrange(2, s.len() as int)))
    } else {
        strip_ansi(s.subrange(2, s.len() as int))
    }
}

fn is_csi_final_char(c: char) -> (r: bool)
    ensures
        r == is_csi_final(c),
{
    ('a' <= c && c <= 'z') || ('A' <= c && c <= 'Z') || c == '~'
}

/// The index where the text after a CSI sequence starting at `from`
/// begins.
fn skip_csi(s: &[char], from: usize) -> (r: usize)
    requires
        from <= s.len(),
    ensures
        from <= r <= s.len(),
        s@.subrange(r as int, s@.len() as int) == after_csi(s@.subrange(from as int, s@.len() as int)),
{
    let mut j = from;
    while j < s.len() && !is_csi_final_char(s[j])
        invariant
            from <= j <= s.len(),
            after_csi(s@.subrange(from as int, s@.len() as int)) == after_csi(s@.subrange(j as int, s@.len() as int)),
        decreases s.len() - j,
    {
        assert(s@.subrange(j as int, s@.len() as int).drop_first() =~= s@.subrange(j + 1, s@.len() as int));
        j += 1;
    }
    if j < s.len() {
        assert(s@.subrange(j as int, s@.len() as int).drop_first() =~= s@.subrange(j + 1, s@.len() as int));
        j + 1
    } else {
        j
    }
}

/// The index where the text after an OSC sequence starting at `from`
/// begins.
fn skip_osc(s: &[char], from: usize) -> (r: usize)
    requires
        from <= s.len(),
    ensures
        from <= r <= s.len(),
        s@.subrange(r as int, s@.len() as int) == after_osc(s@.subrange(from as int, s@.len() as int)),
{
    let mut j = from;
    while j < s.len() && s[j] != '\x07' && s[j] != '\x1b'
        invariant
            from <= j <= s.len(),
            after_osc(s@.subrange(from as int, s@.len() as int)) == after_osc(s@.subrange(j as int, s@.len() as int)),
        decreases s.len() - j,
    {
        assert(s@.subrange(j as int, s@.len() as int).drop_first() =~= s@.subrange(j + 1, s@.len() as int));
        j += 1;
    }
    let ghost sub = s@.subrange(j as int, s@.len() as int);
    if j == s.len() {
        j
    } else if s[j] == '\x07' {
        assert(sub.drop_first() =~= s@.subrange(j + 1, s@.len() as int));
        j + 1
    } else if j + 1 < s.len() {
        assert(sub.subrange(2, sub.len() as int) =~= s@.subrange(j + 2, s@.len() as int));
        j + 2
    } else {
        assert(s@.subrange(s@.len() as int, s@.len() as int) =~= Seq::<char>::empty());
        s.len()
    }
}

/// The characters of `s` without ANSI escape sequences.
pub fn strip_ansi_chars(s: &[char]) -> (r: Vec<char>)
    ensures
        r@ == strip_ansi(s@),
{
    let mut out: Vec<char> = Vec::new();
    let mut i: usize = 0;
    assert(s@.subrange(0, s@.len() as int) =~= s@);
    while i < s.len()
        invariant
            i <= s.len(),
            strip_ansi(s@) == out@ + strip_ansi(s@.subrange(i as int, s@.len() as int)),
        decreases s.len() - i,
    {
        let ghost sub = s@.subrange(i as int, s@.len() as int);
        let ghost before = out@;
        let c = s[i];
        if c != '\x1b' {
            assert(sub.drop_first() =~= s@.subrange(i + 1, s@.len() as int));
            out.push(c);
            assert(before + (seq![c] + strip_ansi(sub.drop_first())) =~= out@ + strip_ansi(sub.drop_first()));
            i += 1;
        } else if i + 1 == s.len() {
            assert(strip_ansi(sub) =~= Seq::<char>::empty());
            assert(out@ + strip_ansi(s@.subrange(s@.len() as int, s@.len() as int)) =~= out@);
            i = s.len();
        } else {
            assert(sub.subrange(2, sub.len() as int) =~= s@.subrange(i + 2, s@.len() as int));
            assert(sub[1] == s@[i + 1]);
            let next = s[i + 1];
            if next == '[' {
                i = skip_csi(s, i + 2);
            } else if next == ']' {
                i = skip_osc(s, i + 2);
            } else {
                i = i + 2;
            }
        }
    }
    assert(strip_ansi(s@.subrange(s@.len() as int, s@.len() as int)) =~= Seq::<char>::empty());
    assert(out@ + Seq::<char>::empty() =~= out@);
    out
}

// ---------------------------------------------------------------------
// Shell prompts.

/// The length of the first line of `s`, its `\n` included.
pub open spec fn line_len(s: Seq<char>) -> int
    decreases s.len(),
{
    if s.len() == 0 {
        0
    } else if s[0] == '\n' {
        1
    } else {
        1 + line_len(s.drop_first())
    }
}

/// How many leading characters of `s` are whitespace other than `\n`.
pub open spec fn lead_len(s: Seq<char>) -> int
    decreases s.len(),
{
    if s.len() > 0 && is_whitespace(s[0]) && s[0] != '\n' {
        1 + lead_len(s.drop_first())
    } else {
        0
    }
}

/// The length of the shell prompt `body` starts with (`$ `, `# `,
/// `> `, `❯ `, `PS> ` or `% `), or 0.
pub open spec fn prompt_len(body: Seq<char>) -> int {
    if starts_with(body, "$ "@) || starts_with(body, "# "@) || starts_with(body, "> "@)
        || starts_with(body, "\u{276f} "@) {
        2
    } else if starts_with(body, "PS> "@) {
        4
    } else if starts_with(body, "% "@) {
        2
    } else {
        0
    }
}

/// A line without the prompt after its leading whitespace.
pub open spec fn strip_line_prompt(line: Seq<char>) -> Seq<char> {
    let k = lead_len(line);
    let body = line.subrange(k, line.len() as int);
    let p = prompt_len(body);
    if p > 0 {
        line.take(k) + body.subrange(p, body.len() as int)
    } else {
        line
    }
}

pub proof fn lemma_line_len(s: Seq<char>)
    ensures
        s.len() > 0 ==> 1 <= line_len(s) <= s.len(),
        s.len() == 0 ==> line_len(s) == 0,
    decreases s.len(),
{
    if s.len() > 0 && s[0] != '\n' {
        lemma_line_len(s.drop_first());
    }
}

pub proof fn lemma_lead_len(s: Seq<char>)
    ensures
        0 <= lead_len(s) <= s.len(),
    decreases s.len(),
{
    if s.len() > 0 && is_whitespace(s[0]) && s[0] != '\n' {
        lemma_lead_len(s.drop_first());
    }
}

/// `s` with the shell prompt (`$ `, `# `, `> `, `❯ `, `PS> `, `% `)
/// after each line's leading whitespace removed.
pub open spec fn strip_prompts(s: Seq<char>) -> Seq<char>
    decreases s.len(),
{
    if s.len() == 0 {
        s
    } else {
        proof { lemma_line_len(s); }
        let k = line_len(s);
        strip_line_prompt(s.take(k)) + strip_prompts(s.subrange(k, s.len() as int))
    }
}

fn prompt_len_of(body: &[char]) -> (r: usize)
    ensures
        r == prompt_len(body@),
{
    if starts_with_str(body, "$ ") || starts_with_str(body, "# ") || starts_with_str(body, "> ")
        || starts_with_str(body, "\u{276f} ") {
        2
    } else if starts_with_str(body, "PS> ") {
        4
    } else if starts_with_str(body, "% ") {
        2
    } else {
        0
    }
}

fn strip_line_prompt_chars(line: &[char]) -> (r: Vec<char>)
    ensures
        r@ == strip_line_prompt(line@),
{
    let mut k: usize = 0;
    assert(line@.subrange(0, line@.len() as int) =~= line@);
    while k < line.len() && is_whitespace_char(line[k]) && line[k] != '\n'
        invariant
            k <= line.len(),
            lead_len(line@) == k + lead_len(line@.subrange(k as int, line@.len() as int)),
        decreases line.len() - k,
    {
        assert(line@.subrange(k as int, line@.len() as int).drop_first() =~= line@.subrange(k + 1, line@.len() as int));
        k += 1;
    }
    assert(lead_len(line@.subrange(k as int, line@.len() as int)) == 0);
    let body = sub_chars(line, k, line.len());
    let p = prompt_len_of(body.as_slice());
    if p > 0 {
        proof {
            reveal_strlit("$ ");
            reveal_strlit("# ");
            reveal_strlit("> ");
            reveal_strlit("\u{276f} ");
            reveal_strlit("PS> ");
            reveal_strlit("% ");
        }
        assert(p <= body.len());
        let mut out = sub_chars(line, 0, k);
        let rest = sub_chars(body.as_slice(), p, body.len());
        crate::text::extend_chars(&mut out, rest.as_slice());
        assert(line@.subrange(0, k as int) =~= line@.take(k as int));
        out
    } else {
        sub_chars(line, 0, line.len())
    }
}

/// The characters of `s` with the shell prompt of each line removed.
pub fn strip_prompts_chars(s: &[char]) -> (r: Vec<char>)
    ensures
        r@ == strip_prompts(s@),
{
    let mut out: Vec<char> = Vec::new();
    let mut i: usize = 0;
    assert(s@.subrange(0, s@.len() as int) =~= s@);
    while i < s.len()
        invariant
            i <= s.len(),
            strip_prompts(s@) == out@ + strip_prompts(s@.subrange(i as int, s@.len() as int)),
        decreases s.len() - i,
    {
        let ghost sub = s@.subrange(i as int, s@.len() as int);
        let mut j = i;
        while j < s.len() && s[j] != '\n'
            invariant
                i <= j <= s.len(),
                line_len(sub) == (j - i) + line_len(s@.subrange(j as int, s@.len() as int)),
            decreases s.len() - j,
        {
            assert(s@.subrange(j as int, s@.len() as int).drop_first() =~= s@.subrange(j + 1, s@.len() as int));
            j += 1;
        }
        let end = if j < s.len() { j + 1 } else { j };
        assert(line_len(sub) == end - i);
        let line = sub_chars(s, i, end);
        assert(line@ =~= sub.take(end - i));
        assert(s@.subrange(end as int, s@.len() as int) =~= sub.subrange(end - i, sub.len() as int));
        let stripped = strip_line_prompt_chars(line.as_slice());
        let ghost before = out@;
        crate::text::extend_chars(&mut out, stripped.as_slice());
        assert(before + (stripped@ + strip_prompts(s@.subrange(end as int, s@.len() as int))) =~= out@ + strip_prompts(s@.subrange(end as int, s@.len() as int)));
        i = end;
    }
    assert(strip_prompts(s@.subrange(s@.len() as int, s@.len() as int)) =~= Seq::<char>::empty());
    assert(out@ + Seq::<char>::empty() =~= out@);
    out
}

// ---------------------------------------------------------------------
// URL tracking parameters.

/// The query parameters that only serve tracking.
pub open spec fn tracking_params() -> Seq<Seq<char>> {
    seq![
        "utm_source"@,
        "utm_medium"@,
        "utm_campaign"@,
        "utm_term"@,
        "utm_content"@,
        "utm_id"@,
        "utm_name"@,
        "fbclid"@,
        "gclid"@,
        "yclid"@,
        "dclid"@,
        "msclkid"@,
        "twclid"@,
        "igshid"@,
        "mc_eid"@,
        "mc_cid"@,
        "_hsenc"@,
        "_hsmi"@,
        "hsCtaTracking"@,
        "ref"@,
        "ref_src"@,
        "ref_url"@,
        "referer"@,
        "vero_id"@,
        "vero_conv"@,
        "trk"@,
        "trkCampaign"@,
        "_ga"@,
        "_gl"@,
        "spm"@,
    ]
}

/// Whether `key` names a tracking parameter.
pub open spec fn is_tracking_param(key: Seq<char>) -> bool {
    tracking_params().contains(key)
}

/// The key of a `key=value` query pair: up to the first `=`.
pub open spec fn param_key(kv: Seq<char>) -> Seq<char> {
    let e = first_index(kv, '=');
    if e < 0 { kv } else { kv.take(e) }
}

/// `s` split at every `c`, as `str::split(c)`: always at least one part.
pub open spec fn split_on(s: Seq<char>, c: char) -> Seq<Seq<char>>
    decreases s.len(),
{
    let k = first_index(s, c);
    if k < 0 || k >= s.len() {
        seq![s]
    } else {
        seq![s.take(k)] + split_on(s.subrange(k + 1, s.len() as int), c)
    }
}

/// The query pairs of `parts` whose key is not a tracking parameter.
pub open spec fn kept_params(parts: Seq<Seq<char>>) -> Seq<Seq<char>>
    decreases parts.len(),
{
    if parts.len() == 0 {
        Seq::empty()
    } else if is_tracking_param(param_key(parts[0])) {
        kept_params(parts.drop_first())
    } else {
        seq![parts[0]] + kept_params(parts.drop_first())
    }
}

/// `parts` joined with `c` between them.
pub open spec fn join_with(parts: Seq<Seq<char>>, c: char) -> Seq<char>
    decreases parts.len(),
{
    if parts.len() == 0 {
        Seq::empty()
    } else if parts.len() == 1 {
        parts[0]
    } else {
        parts[0] + seq![c] + join_with(parts.drop_first(), c)
    }
}

/// A URL without its tracking query parameters; the fragment stays,
/// and the `?` goes when no parameter is left.
pub open spec fn strip_url_token(tok: Seq<char>) -> Seq<char> {
    let q = first_index(tok, '?');
    if q < 0 {
        tok
    } else {
        let base = tok.take(q);
        let rest = tok.subrange(q + 1, tok.len() as int);
        let h = first_index(rest, '#');
        let query = if h < 0 { rest } else { rest.take(h) };
        let frag = if h < 0 { Seq::empty() } else { rest.subrange(h, rest.len() as int) };
        let kept = kept_params(split_on(query, '&'));
        base + (if kept.len() > 0 { seq!['?'] + join_with(kept, '&') } else { Seq::empty() }) + frag
    }
}

/// A whitespace-separated token: URLs lose their tracking parameters.
pub open spec fn clean_token(tok: Seq<char>) -> Seq<char> {
    if starts_with(tok, "http://"@) || starts_with(tok, "https://"@) {
        strip_url_token(tok)
    } else {
        tok
    }
}

/// The index of the first whitespace character of `s`, or -1.
pub open spec fn first_ws(s: Seq<char>) -> int
    decreases s.len(),
{
    if s.len() == 0 {
        -1
    } else if is_whitespace(s[0]) {
        0
    } else {
        let r = first_ws(s.drop_first());
        if r < 0 { -1 } else { r + 1 }
    }
}

pub proof fn lemma_first_ws(s: Seq<char>)
    ensures
        -1 <= first_ws(s) < s.len(),
        first_ws(s) >= 0 ==> is_whitespace(s[first_ws(s)]),
        forall|j: int| 0 <= j < s.len() && (first_ws(s) < 0 || j < first_ws(s)) ==> !is_whitespace(#[trigger] s[j]),
    decreases s.len(),
{
    if s.len() > 0 && !is_whitespace(s[0]) {
        lemma_first_ws(s.drop_first());
        assert forall|j: int| 0 <= j < s.len() && (first_ws(s) < 0 || j < first_ws(s)) implies !is_whitespace(#[trigger] s[j]) by {
            if j > 0 {
                assert(s[j] == s.drop_first()[j - 1]);
            }
        }
    }
}

/// `s` with every whitespace-separated token cleaned: URL tokens lose
/// their tracking parameters, and everything else, the whitespace
/// between tokens included, stays as it is.
pub open spec fn strip_url_tracking(s: Seq<char>) -> Seq<char>
    decreases s.len(),
{
    let k = first_ws(s);
    if k < 0 || k >= s.len() {
        clean_token(s)
    } else {
        clean_token(s.take(k)) + seq![s[k]] + strip_url_tracking(s.subrange(k + 1, s.len() as int))
    }
}

proof fn lemma_no_scheme_token(t: Seq<char>, s: Seq<char>, k: int)
    requires
        0 <= k <= s.len(),
        t == s.take(k),
        !contains_seq(s, "://"@),
    ensures
        clean_token(t) == t,
{
    reveal_strlit("://");
    reveal_strlit("http://");
    reveal_strlit("https://");
    if starts_with(t, "http://"@) {
        assert(t.take(7)[4] == ':' && t.take(7)[5] == '/' && t.take(7)[6] == '/');
        assert(s[4] == t[4] && s[5] == t[5] && s[6] == t[6]);
        assert(s.subrange(4, 4 + "://"@.len() as int) =~= "://"@);
        assert(contains_seq(s, "://"@));
    }
    if starts_with(t, "https://"@) {
        assert(t.take(8)[5] == ':' && t.take(8)[6] == '/' && t.take(8)[7] == '/');
        assert(s[5] == t[5] && s[6] == t[6] && s[7] == t[7]);
        assert(s.subrange(5, 5 + "://"@.len() as int) =~= "://"@);
        assert(contains_seq(s, "://"@));
    }
}

/// Text with no URL scheme separator (`://`) in it passes the tracking
/// cleanup unchanged: only URL tokens are ever rewritten, and the
/// whitespace between tokens is kept as it is.
pub proof fn url_free_text_unchanged(s: Seq<char>)
    requires
        !contains_seq(s, "://"@),
    ensures
        strip_url_tracking(s) == s,
    decreases s.len(),
{
    lemma_first_ws(s);
    let k = first_ws(s);
    if k < 0 {
        assert(s.take(s.len() as int) =~= s);
        lemma_no_scheme_token(s, s, s.len() as int);
    } else {
        lemma_no_scheme_token(s.take(k), s, k);
        let rest = s.subrange(k + 1, s.len() as int);
        assert(!contains_seq(rest, "://"@)) by {
            if contains_seq(rest, "://"@) {
                let i = choose|i: int| 0 <= i && i + "://"@.len() <= rest.len() && #[trigger] rest.subrange(i, i + "://"@.len()) == "://"@;
                assert(s.subrange(k + 1 + i, k + 1 + i + "://"@.len()) =~= rest.subrange(i, i + "://"@.len()));
            }
        }
        url_free_text_unchanged(rest);
        assert(s.take(k) + seq![s[k]] + rest =~= s);
    }
}

/// The query pairs kept are exactly those whose key is not a tracking
/// parameter, every one of them, in their order.
pub proof fn kept_params_is_filter(parts: Seq<Seq<char>>)
    ensures
        kept_params(parts) == parts.filter(|kv: Seq<char>| !is_tracking_param(param_key(kv))),
    decreases parts.len(),
{
    let pred = |kv: Seq<char>| !is_tracking_param(param_key(kv));
    if parts.len() > 0 {
        kept_params_is_filter(parts.drop_first());
        assert(parts =~= seq![parts[0]] + parts.drop_first());
        Seq::filter_distributes_over_add(seq![parts[0]], parts.drop_first(), pred);
        reveal(Seq::filter);
        assert(seq![parts[0]].drop_last() =~= Seq::<Seq<char>>::empty());
        assert(Seq::<Seq<char>>::empty().filter(pred) =~= Seq::<Seq<char>>::empty());
        if pred(parts[0]) {
            assert(seq![parts[0]].filter(pred) =~= seq![parts[0]]);
        } else {
            assert(seq![parts[0]].filter(pred) =~= Seq::<Seq<char>>::empty());
        }
    }
}

/// Splitting at `c` and joining with `c` gives the text back.
pub proof fn join_split_inverse(s: Seq<char>, c: char)
    ensures
        join_with(split_on(s, c), c) == s,
        split_on(s, c).len() >= 1,
    decreases s.len(),
{
    lemma_first_index(s, c);
    let k = first_index(s, c);
    if k < 0 || k >= s.len() {
    } else {
        let rest = s.subrange(k + 1, s.len() as int);
        join_split_inverse(rest, c);
        let parts = seq![s.take(k)] + split_on(rest, c);
        assert(parts.drop_first() =~= split_on(rest, c));
        assert(parts[0] == s.take(k));
        assert(s.take(k) + seq![c] + rest =~= s);
    }
}

proof fn lemma_kept_all(parts: Seq<Seq<char>>)
    requires
        forall|i: int| 0 <= i < parts.len() ==> !is_tracking_param(param_key(#[trigger] parts[i])),
    ensures
        kept_params(parts) == parts,
    decreases parts.len(),
{
    if parts.len() > 0 {
        assert forall|i: int| 0 <= i < parts.drop_first().len() implies !is_tracking_param(
            param_key(#[trigger] parts.drop_first()[i]),
        ) by {
            assert(parts.drop_first()[i] == parts[i + 1]);
        }
        lemma_kept_all(parts.drop_first());
        assert(!is_tracking_param(param_key(parts[0])));
        assert(seq![parts[0]] + parts.drop_first() =~= parts);
    }
}

/// The query of a URL token: between its first `?` and the `#` of the
/// fragment (empty when it has no `?`).
pub open spec fn query_of(tok: Seq<char>) -> Seq<char> {
    let q = first_index(tok, '?');
    if q < 0 {
        Seq::empty()
    } else {
        let rest = tok.subrange(q + 1, tok.len() as int);
        let h = first_index(rest, '#');
        if h < 0 { rest } else { rest.take(h) }
    }
}

/// A URL whose query has no tracking parameter is left as it is, the
/// order of its parameters, an empty query and its fragment included.
pub proof fn clean_url_unchanged(tok: Seq<char>)
    requires
        forall|i: int| 0 <= i < split_on(query_of(tok), '&').len() ==> !is_tracking_param(
            param_key(#[trigger] split_on(query_of(tok), '&')[i]),
        ),
    ensures
        strip_url_token(tok) == tok,
{
    lemma_first_index(tok, '?');
    let q = first_index(tok, '?');
    if q >= 0 {
        let rest = tok.subrange(q + 1, tok.len() as int);
        lemma_first_index(rest, '#');
        let h = first_index(rest, '#');
        let query = if h < 0 { rest } else { rest.take(h) };
        let frag = if h < 0 { Seq::<char>::empty() } else { rest.subrange(h, rest.len() as int) };
        assert(query == query_of(tok));
        lemma_kept_all(split_on(query, '&'));
        join_split_inverse(query, '&');
        assert(query + frag =~= rest);
        assert(tok.take(q) + (seq!['?'] + query) + frag =~= tok);
    }
}

/// Whether `key` names a tracking parameter.
pub fn is_tracking_param_chars(key: &[char]) -> (r: bool)
    ensures
        r == is_tracking_param(key@),
{
    let names: Vec<&str> = vec![
        "utm_source",
        "utm_medium",
        "utm_campaign",
        "utm_term",
        "utm_content",
        "utm_id",
        "utm_name",
        "fbclid",
        "gclid",
        "yclid",
        "dclid",
        "msclkid",
        "twclid",
        "igshid",
        "mc_eid",
        "mc_cid",
        "_hsenc",
        "_hsmi",
        "hsCtaTracking",
        "ref",
        "ref_src",
        "ref_url",
        "referer",
        "vero_id",
        "vero_conv",
        "trk",
        "trkCampaign",
        "_ga",
        "_gl",
        "spm",
    ];
    assert(names@.map_values(|n: &str| n@) =~= tracking_params());
    let mut i: usize = 0;
    while i < names.len()
        invariant
            i <= names.len(),
            names@.map_values(|n: &str| n@) == tracking_params(),
            forall|j: int| 0 <= j < i ==> #[trigger] tracking_params()[j] != key@,
        decreases names.len() - i,
    {
        assert(tracking_params()[i as int] == names@[i as int]@);
        if crate::text::chars_eq_str(key, names[i]) {
            assert(tracking_params()[i as int] == key@);
            return true;
        }
        i += 1;
    }
    false
}

fn param_key_chars(kv: &[char]) -> (r: Vec<char>)
    ensures
        r@ == param_key(kv@),
{
    match crate::text::find_char(kv, '=') {
        Some(e) => {
            proof { lemma_first_index(kv@, '='); }
            sub_chars(kv, 0, e)
        },
        None => sub_chars(kv, 0, kv.len()),
    }
}

/// The characters of each vector of `v`.
pub open spec fn views(v: Seq<Vec<char>>) -> Seq<Seq<char>> {
    v.map_values(|x: Vec<char>| x@)
}

/// The query pairs of `query` that are not tracking parameters, joined
/// with `&`, and whether any is left.
fn kept_query(query: &[char]) -> (r: (Vec<char>, bool))
    ensures
        r.1 == (kept_params(split_on(query@, '&')).len() > 0),
        r.0@ == join_with(kept_params(split_on(query@, '&')), '&'),
{
    let mut kept: Vec<Vec<char>> = Vec::new();
    let mut i: usize = 0;
    assert(query@.subrange(0, query@.len() as int) =~= query@);
    loop
        invariant_except_break
            i <= query.len(),
            kept_params(split_on(query@, '&')) == views(kept@) + kept_params(split_on(query@.subrange(i as int, query@.len() as int), '&')),
        ensures
            kept_params(split_on(query@, '&')) == views(kept@),
        decreases query.len() - i,
    {
        let ghost sub = query@.subrange(i as int, query@.len() as int);
        let rest = sub_chars(query, i, query.len());
        proof { lemma_first_index(sub, '&'); }
        let (part, next) = match crate::text::find_char(rest.as_slice(), '&') {
            Some(k) => (sub_chars(rest.as_slice(), 0, k), Some(i + k + 1)),
            None => (rest, None),
        };
        let key = param_key_chars(part.as_slice());
        let tracking = is_tracking_param_chars(key.as_slice());
        let ghost before = views(kept@);
        match next {
            Some(n) => {
                assert(query@.subrange(n as int, query@.len() as int) =~= sub.subrange(n - i, sub.len() as int));
                assert(split_on(sub, '&') =~= seq![part@] + split_on(query@.subrange(n as int, query@.len() as int), '&'));
                assert((seq![part@] + split_on(query@.subrange(n as int, query@.len() as int), '&')).drop_first() =~= split_on(query@.subrange(n as int, query@.len() as int), '&'));
                if !tracking {
                    kept.push(part);
                    assert(views(kept@) =~= before.push(part@));
                    assert(before + (seq![part@] + kept_params(split_on(query@.subrange(n as int, query@.len() as int), '&'))) =~= views(kept@) + kept_params(split_on(query@.subrange(n as int, query@.len() as int), '&')));
                }
                i = n;
            },
            None => {
                assert(split_on(sub, '&') =~= seq![part@]);
                assert(seq![part@].drop_first() =~= Seq::<Seq<char>>::empty());
                assert(kept_params(Seq::<Seq<char>>::empty()) =~= Seq::<Seq<char>>::empty());
                assert(kept_params(seq![part@]) == (if tracking { Seq::<Seq<char>>::empty() } else { seq![part@] + Seq::<Seq<char>>::empty() }));
                if !tracking {
                    kept.push(part);
                    assert(views(kept@) =~= before.push(part@));
                    assert(before + (seq![part@] + Seq::<Seq<char>>::empty()) =~= views(kept@));
                } else {
                    assert(before + Seq::<Seq<char>>::empty() =~= before);
                }
                break;
            },
        }
    }
    let any = kept.len() > 0;
    let joined = join_chars(&kept, '&');
    (joined, any)
}

pub fn join_chars(parts: &Vec<Vec<char>>, c: char) -> (r: Vec<char>)
    ensures
        r@ == join_with(views(parts@), c),
{
    let mut out: Vec<char> = Vec::new();
    if parts.len() == 0 {
        return out;
    }
    let n = parts.len();
    let mut i: usize = n;
    // Build from the back: join_with(parts[i-1..]) is known.
    out = sub_chars(parts[n - 1].as_slice(), 0, parts[n - 1].len());
    i = n - 1;
    assert(views(parts@).subrange(n - 1, n as int) =~= seq![views(parts@)[n - 1]]);
    while i > 0
        invariant
            0 <= i < n,
            n == parts.len(),
            out@ == join_with(views(parts@).subrange(i as int, n as int), c),
        decreases i,
    {
        let mut next = sub_chars(parts[i - 1].as_slice(), 0, parts[i - 1].len());
        next.push(c);
        crate::text::extend_chars(&mut next, out.as_slice());
        let ghost tail = views(parts@).subrange(i - 1, n as int);
        assert(tail.drop_first() =~= views(parts@).subrange(i as int, n as int));
        assert(tail[0] == parts@[i - 1]@);
        out = next;
        i -= 1;
    }
    assert(views(parts@).subrange(0, n as int) =~= views(parts@));
    out
}

/// A URL token without its tracking parameters.
fn strip_url_token_chars(tok: &[char]) -> (r: Vec<char>)
    ensures
        r@ == strip_url_token(tok@),
{
    proof { lemma_first_index(tok@, '?'); }
    match crate::text::find_char(tok, '?') {
        None => sub_chars(tok, 0, tok.len()),
        Some(q) => {
            proof { lemma_first_index(tok@, '?'); }
            let n = tok.len();
            assert(q < n);
            let base = sub_chars(tok, 0, q);
            let rest = sub_chars(tok, q + 1, n);
            proof { lemma_first_index(rest@, '#'); }
            let (query, frag) = match crate::text::find_char(rest.as_slice(), '#') {
                None => (sub_chars(rest.as_slice(), 0, rest.len()), Vec::new()),
                Some(h) => (sub_chars(rest.as_slice(), 0, h), sub_chars(rest.as_slice(), h, rest.len())),
            };
            assert(frag@ == (if first_index(rest@, '#') < 0 { Seq::<char>::empty() } else { rest@.subrange(first_index(rest@, '#'), rest@.len() as int) }));
            assert(query@ == (if first_index(rest@, '#') < 0 { rest@ } else { rest@.take(first_index(rest@, '#')) }));
            let (joined, any) = kept_query(query.as_slice());
            let mut out = base;
            if any {
                out.push('?');
                crate::text::extend_chars(&mut out, joined.as_slice());
            }
            crate::text::extend_chars(&mut out, frag.as_slice());
            assert(tok@.take(q as int) =~= base@);
            out
        },
    }
}

fn clean_token_chars(tok: &[char]) -> (r: Vec<char>)
    ensures
        r@ == clean_token(tok@),
{
    if starts_with_str(tok, "http://") || starts_with_str(tok, "https://") {
        strip_url_token_chars(tok)
    } else {
        sub_chars(tok, 0, tok.len())
    }
}

/// The characters of `s` with tracking parameters removed from URLs;
/// the whitespace between tokens is kept.
pub fn strip_url_tracking_chars(s: &[char]) -> (r: Vec<char>)
    ensures
        r@ == strip_url_tracking(s@),
{
    let mut out: Vec<char> = Vec::new();
    let mut i: usize = 0;
    assert(s@.subrange(0, s@.len() as int) =~= s@);
    loop
        invariant_except_break
            i <= s.len(),
            strip_url_tracking(s@) == out@ + strip_url_tracking(s@.subrange(i as int, s@.len() as int)),
        ensures
            strip_url_tracking(s@) == out@,
        decreases s.len() - i,
    {
        let ghost sub = s@.subrange(i as int, s@.len() as int);
        proof { lemma_first_ws(sub); }
        let mut j = i;
        while j < s.len() && !is_whitespace_char(s[j])
            invariant
                i <= j <= s.len(),
                sub == s@.subrange(i as int, s@.len() as int),
                forall|m: int| i <= m < j ==> !is_whitespace(#[trigger] s@[m]),
            decreases s.len() - j,
        {
            j += 1;
        }
        let tok = sub_chars(s, i, j);
        let cleaned = clean_token_chars(tok.as_slice());
        let ghost before = out@;
        crate::text::extend_chars(&mut out, cleaned.as_slice());
        if j == s.len() {
            assert(first_ws(sub) < 0) by {
                if first_ws(sub) >= 0 {
                    assert(sub[first_ws(sub)] == s@[i + first_ws(sub)]);
                }
            }
            assert(tok@ =~= sub);
            assert(before + clean_token(sub) == out@);
            break;
        } else {
            assert(first_ws(sub) == j - i) by {
                assert(sub[j - i] == s@[j as int]);
                if first_ws(sub) < j - i && first_ws(sub) >= 0 {
                    assert(sub[first_ws(sub)] == s@[i + first_ws(sub)]);
                }
            }
            assert(tok@ =~= sub.take(j - i));
            out.push(s[j]);
            assert(s@.subrange(j + 1, s@.len() as int) =~= sub.subrange(j - i + 1, sub.len() as int));
            assert(before + (clean_token(sub.take(j - i)) + seq![sub[j - i]] + strip_url_tracking(s@.subrange(j + 1, s@.len() as int))) =~= out@ + strip_url_tracking(s@.subrange(j + 1, s@.len() as int)));
            i = j + 1;
        }
    }
    out
}

// ---------------------------------------------------------------------
// The whole cleanup.

/// `s` without a leading byte-order mark.
pub open spec fn strip_bom(s: Seq<char>) -> Seq<char> {
    if s.len() > 0 && s[0] == '\u{feff}' { s.drop_first() } else { s }
}

/// Captured text after cleanup: the byte-order mark, ANSI escapes and
/// shell prompts go, URLs lose their tracking parameters, and
/// surrounding whitespace is trimmed. Internal whitespace is kept.
pub open spec fn clean_text(s: Seq<char>) -> Seq<char> {
    trim(strip_url_tracking(strip_prompts(strip_ansi(strip_bom(s)))))
}

/// Run the cleanup on a captured text payload.
pub fn cleanup_text(raw: &str) -> (r: String)
    ensures
        r@ == clean_text(raw@),
{
    let all = chars_of(raw);
    let no_bom = if all.len() > 0 && all[0] == '\u{feff}' {
        sub_chars(all.as_slice(), 1, all.len())
    } else {
        all
    };
    assert(no_bom@ =~= strip_bom(raw@));
    let a = strip_ansi_chars(no_bom.as_slice());
    let p = strip_prompts_chars(a.as_slice());
    let u = strip_url_tracking_chars(p.as_slice());
    let t = trim_chars(u.as_slice());
    string_of(t.as_slice())
}

// ---------------------------------------------------------------------
// Secrets.

/// Prefixes of well-known API keys and tokens.
pub open spec fn secret_prefixes() -> Seq<Seq<char>> {
    seq![
        "sk-"@,
        "sk_"@,
        "pk-"@,
        "pk_"@,
        "rk_"@,
        "ghp_"@,
        "gho_"@,
        "ghs_"@,
        "ghu_"@,
        "ghr_"@,
        "github_pat_"@,
        "xoxb-"@,
        "xoxa-"@,
        "xoxp-"@,
        "xoxs-"@,
        "xoxr-"@,
        "ya29."@,
        "AIza"@,
        "EAACEdEose0cBA"@,
        "AKIA"@,
        "ASIA"@,
    ]
}

/// The first line of `t`, as `str::lines().next()`: up to the first
/// `\n`, without a `\r` just before it.
pub open spec fn first_line(t: Seq<char>) -> Seq<char> {
    let k = first_index(t, '\n');
    if k < 0 {
        t
    } else {
        let l = t.take(k);
        if l.len() > 0 && l.last() == '\r' { l.drop_last() } else { l }
    }
}

/// How many times `c` occurs in `s`.
pub open spec fn count_char(s: Seq<char>, c: char) -> nat
    decreases s.len(),
{
    if s.len() == 0 {
        0
    } else {
        count_char(s.drop_last(), c) + if s.last() == c { 1nat } else { 0nat }
    }
}

/// An ASCII letter or digit.
pub open spec fn is_ascii_alnum(c: char) -> bool {
    ('a' <= c <= 'z') || ('A' <= c <= 'Z') || ('0' <= c <= '9')
}

/// A non-empty run of URL-safe base64 characters (and `=`).
pub open spec fn is_jwt_part(p: Seq<char>) -> bool {
    p.len() > 0 && forall|i: int| 0 <= i < p.len() ==> is_ascii_alnum(#[trigger] p[i]) || p[i] == '-' || p[i] == '_' || p[i] == '='
}

/// Three URL-safe base64 segments joined by two dots, the first longer
/// than ten characters: a JWT.
pub open spec fn is_jwt_like(line: Seq<char>) -> bool {
    count_char(line, '.') == 2 && {
        let d1 = first_index(line, '.');
        let rest = line.subrange(d1 + 1, line.len() as int);
        let d2 = d1 + 1 + first_index(rest, '.');
        let p0 = line.take(d1);
        let p1 = line.subrange(d1 + 1, d2);
        let p2 = line.subrange(d2 + 1, line.len() as int);
        is_jwt_part(p0) && is_jwt_part(p1) && is_jwt_part(p2) && p0.len() > 10
    }
}

/// A private key, a well-known token prefix, or a JWT.
pub open spec fn looks_like_secret(t: Seq<char>) -> bool {
    contains_seq(t, "-----BEGIN "@)
        || (exists|i: int| 0 <= i < secret_prefixes().len() && starts_with(first_line(t), #[trigger] secret_prefixes()[i]))
        || is_jwt_like(first_line(t))
}

/// At least 32 characters, every one an ASCII letter, digit, `-` or `_`:
/// shaped like an API token, secret if its entropy is high.
pub open spec fn is_token_shaped(t: Seq<char>) -> bool {
    t.len() >= 32 && forall|i: int| 0 <= i < t.len() ==> is_ascii_alnum(#[trigger] t[i]) || t[i] == '-' || t[i] == '_'
}

/// Whether a text looks like a secret.
pub enum Sensitivity {
    Sensitive,
    NotSensitive,
    /// The text (trimmed) is shaped like a token: it is a secret when
    /// its Shannon entropy is at least 4 bits per byte.
    IfHighEntropy(String),
}

fn is_ascii_alnum_char(c: char) -> (r: bool)
    ensures
        r == is_ascii_alnum(c),
{
    ('a' <= c && c <= 'z') || ('A' <= c && c <= 'Z') || ('0' <= c && c <= '9')
}

fn is_jwt_part_chars(p: &[char]) -> (r: bool)
    ensures
        r == is_jwt_part(p@),
{
    if p.len() == 0 {
        return false;
    }
    let mut i: usize = 0;
    while i < p.len()
        invariant
            i <= p.len(),
            forall|j: int| 0 <= j < i ==> is_ascii_alnum(#[trigger] p@[j]) || p@[j] == '-' || p@[j] == '_' || p@[j] == '=',
        decreases p.len() - i,
    {
        let c = p[i];
        if !(is_ascii_alnum_char(c) || c == '-' || c == '_' || c == '=') {
            return false;
        }
        i += 1;
    }
    true
}

fn count_char_of(s: &[char], c: char) -> (r: usize)
    ensures
        r == count_char(s@, c),
{
    let mut n: usize = 0;
    let mut i: usize = 0;
    while i < s.len()
        invariant
            i <= s.len(),
            n == count_char(s@.take(i as int), c),
            n <= i,
        decreases s.len() - i,
    {
        assert(s@.take(i + 1).drop_last() =~= s@.take(i as int));
        if s[i] == c {
            n += 1;
        }
        i += 1;
    }
    assert(s@.take(s@.len() as int) =~= s@);
    n
}

fn first_line_chars(t: &[char]) -> (r: Vec<char>)
    ensures
        r@ == first_line(t@),
{
    proof { lemma_first_index(t@, '\n'); }
    match crate::text::find_char(t, '\n') {
        None => sub_chars(t, 0, t.len()),
        Some(k) => {
            let l = sub_chars(t, 0, k);
            assert(l@ =~= t@.take(k as int));
            if l.len() > 0 && l[l.len() - 1] == '\r' {
                let r = sub_chars(l.as_slice(), 0, l.len() - 1);
                assert(r@ =~= l@.drop_last());
                r
            } else {
                l
            }
        },
    }
}

fn is_jwt_like_chars(line: &[char]) -> (r: bool)
    ensures
        r == is_jwt_like(line@),
{
    if count_char_of(line, '.') != 2 {
        return false;
    }
    proof { lemma_count_char_first(line@, '.'); }
    let d1 = match crate::text::find_char(line, '.') {
        Some(d) => d,
        None => {
            proof { lemma_first_index(line@, '.'); }
            return false;
        },
    };
    proof { lemma_first_index(line@, '.'); }
    let n = line.len();
    let rest = sub_chars(line, d1 + 1, n);
    proof { lemma_first_index(rest@, '.'); }
    let d2 = match crate::text::find_char(rest.as_slice(), '.') {
        Some(d) => d1 + 1 + d,
        None => {
            proof { lemma_count_after_first(line@, '.'); }
            return false;
        },
    };
    let p0 = sub_chars(line, 0, d1);
    let p1 = sub_chars(line, d1 + 1, d2);
    let p2 = sub_chars(line, d2 + 1, n);
    assert(p0@ =~= line@.take(d1 as int));
    is_jwt_part_chars(p0.as_slice()) && is_jwt_part_chars(p1.as_slice()) && is_jwt_part_chars(p2.as_slice())
        && p0.len() > 10
}

proof fn lemma_count_char_first(s: Seq<char>, c: char)
    ensures
        count_char(s, c) > 0 ==> first_index(s, c) >= 0,
    decreases s.len(),
{
    lemma_first_index(s, c);
    if s.len() > 0 {
        lemma_count_char_first(s.drop_last(), c);
        lemma_first_index(s.drop_last(), c);
        if count_char(s, c) > 0 && first_index(s, c) < 0 {
            if s.last() == c {
                assert(s[s.len() - 1] == c);
            } else {
                let j = first_index(s.drop_last(), c);
                assert(s[j] == s.drop_last()[j]);
            }
        }
    }
}

proof fn lemma_count_char_split(s: Seq<char>, k: int, c: char)
    requires
        0 <= k <= s.len(),
    ensures
        count_char(s, c) == count_char(s.take(k), c) + count_char(s.subrange(k, s.len() as int), c),
    decreases s.len(),
{
    if k < s.len() {
        lemma_count_char_split(s.drop_last(), k, c);
        assert(s.drop_last().take(k) =~= s.take(k));
        assert(s.subrange(k, s.len() as int).drop_last() =~= s.drop_last().subrange(k, s.len() - 1));
    } else {
        assert(s.take(k) =~= s);
        assert(s.subrange(k, s.len() as int) =~= Seq::<char>::empty());
    }
}

proof fn lemma_count_after_first(s: Seq<char>, c: char)
    requires
        count_char(s, c) == 2,
        first_index(s, c) >= 0,
    ensures
        first_index(s.subrange(first_index(s, c) + 1, s.len() as int), c) >= 0,
{
    lemma_first_index(s, c);
    let d = first_index(s, c);
    lemma_count_char_split(s, d + 1, c);
    let pre = s.take(d + 1);
    assert(pre.drop_last() =~= s.take(d));
    assert(count_char(s.take(d), c) == 0) by {
        lemma_count_zero(s.take(d), c);
    }
    lemma_count_char_first(s.subrange(d + 1, s.len() as int), c);
}

proof fn lemma_count_zero(s: Seq<char>, c: char)
    requires
        forall|j: int| 0 <= j < s.len() ==> #[trigger] s[j] != c,
    ensures
        count_char(s, c) == 0,
    decreases s.len(),
{
    if s.len() > 0 {
        assert forall|j: int| 0 <= j < s.len() - 1 implies #[trigger] s.drop_last()[j] != c by {
            assert(s.drop_last()[j] == s[j]);
        }
        lemma_count_zero(s.drop_last(), c);
    }
}

fn is_token_shaped_chars(t: &[char]) -> (r: bool)
    ensures
        r == is_token_shaped(t@),
{
    if t.len() < 32 {
        return false;
    }
    let mut i: usize = 0;
    while i < t.len()
        invariant
            i <= t.len(),
            forall|j: int| 0 <= j < i ==> is_ascii_alnum(#[trigger] t@[j]) || t@[j] == '-' || t@[j] == '_',
        decreases t.len() - i,
    {
        let c = t[i];
        if !(is_ascii_alnum_char(c) || c == '-' || c == '_') {
            return false;
        }
        i += 1;
    }
    true
}

fn has_secret_prefix(line: &[char]) -> (r: bool)
    ensures
        r == exists|i: int| 0 <= i < secret_prefixes().len() && starts_with(line@, #[trigger] secret_prefixes()[i]),
{
    let prefixes: Vec<&str> = vec![
        "sk-",
        "sk_",
        "pk-",
        "pk_",
        "rk_",
        "ghp_",
        "gho_",
        "ghs_",
        "ghu_",
        "ghr_",
        "github_pat_",
        "xoxb-",
        "xoxa-",
        "xoxp-",
        "xoxs-",
        "xoxr-",
        "ya29.",
        "AIza",
        "EAACEdEose0cBA",
        "AKIA",
        "ASIA",
    ];
    assert(prefixes@.map_values(|n: &str| n@) =~= secret_prefixes());
    let mut i: usize = 0;
    while i < prefixes.len()
        invariant
            i <= prefixes.len(),
            prefixes@.map_values(|n: &str| n@) == secret_prefixes(),
            forall|j: int| 0 <= j < i ==> !starts_with(line@, #[trigger] secret_prefixes()[j]),
        decreases prefixes.len() - i,
    {
        assert(secret_prefixes()[i as int] == prefixes@[i as int]@);
        if starts_with_str(line, prefixes[i]) {
            return true;
        }
        i += 1;
    }
    false
}

/// Heuristic: does this text look like a secret? Private keys, token
/// prefixes and JWTs are secrets; a long token-shaped text is one when
/// its entropy is high, which the caller measures.
pub fn looks_sensitive(text: &str) -> (r: Sensitivity)
    ensures
        match r {
            Sensitivity::Sensitive => looks_like_secret(trim(text@)),
            Sensitivity::NotSensitive => !looks_like_secret(trim(text@)) && !is_token_shaped(trim(text@)),
            Sensitivity::IfHighEntropy(t) => !looks_like_secret(trim(text@)) && is_token_shaped(trim(text@))
                && t@ == trim(text@),
        },
{
    let all = chars_of(text);
    let t = trim_chars(all.as_slice());
    let begin = chars_of("-----BEGIN ");
    if crate::text::contains_chars(t.as_slice(), begin.as_slice()) {
        return Sensitivity::Sensitive;
    }
    let line = first_line_chars(t.as_slice());
    if has_secret_prefix(line.as_slice()) {
        return Sensitivity::Sensitive;
    }
    if is_jwt_like_chars(line.as_slice()) {
        return Sensitivity::Sensitive;
    }
    if is_token_shaped_chars(t.as_slice()) {
        return Sensitivity::IfHighEntropy(string_of(t.as_slice()));
    }
    Sensitivity::NotSensitive
}

// ---------------------------------------------------------------------
// Popup labels.

/// Line breaks and tabs turned into spaces.
pub open spec fn flatten_breaks(s: Seq<char>) -> Seq<char> {
    s.map_values(|c: char| if c == '\n' || c == '\r' || c == '\t' { ' ' } else { c })
}

/// The popup label of a text: on one line, trimmed, cut to 80
/// characters with an ellipsis, and `placeholder` when nothing is left.
pub open spec fn preview(text: Seq<char>, placeholder: Seq<char>) -> Seq<char> {
    let t = trim(flatten_breaks(text));
    if t.len() > 80 {
        t.take(80).push('\u{2026}')
    } else if t.len() == 0 {
        placeholder
    } else {
        t
    }
}

/// The label the popup shows for `text`; `whitespace_label` stands in
/// for text that is only whitespace.
pub fn preview_label(text: &str, whitespace_label: &str) -> (r: String)
    ensures
        r@ == preview(text@, whitespace_label@),
{
    let all = chars_of(text);
    let mut flat: Vec<char> = Vec::new();
    let mut i: usize = 0;
    while i < all.len()
        invariant
            i <= all.len(),
            flat@ == flatten_breaks(all@.take(i as int)),
        decreases all.len() - i,
    {
        let c = all[i];
        flat.push(if c == '\n' || c == '\r' || c == '\t' { ' ' } else { c });
        assert(flatten_breaks(all@.take(i + 1)) =~= flatten_breaks(all@.take(i as int)).push(if c == '\n' || c == '\r' || c == '\t' { ' ' } else { c }));
        i += 1;
    }
    assert(all@.take(all@.len() as int) =~= all@);
    let t = trim_chars(flat.as_slice());
    if t.len() > 80 {
        let mut cut = sub_chars(t.as_slice(), 0, 80);
        cut.push('\u{2026}');
        assert(cut@ =~= t@.take(80).push('\u{2026}'));
        string_of(cut.as_slice())
    } else if t.len() == 0 {
        crate::text::string_of_str(whitespace_label)
    } else {
        string_of(t.as_slice())
    }
}

} // verus!
