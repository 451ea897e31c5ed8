//! Turning what the clipboard offers into history entries, and the
//! watcher that decides which clipboard events become entries and when
//! the primary selection is re-snapped.

use vstd::prelude::*;

use crate::cleanup::{clean_text, cleanup_text, join_chars, join_with, lemma_line_len, line_len, views};
use crate::history::{Entry, EntryView, Payload, PayloadView};
use crate::paths::{blake3_digest, blob_hash, hex_lower};
use crate::uris::{files_label, format_files_label};
use vstd::utf8::encode_utf8;
use crate::text::{
    chars_of, contains_string, starts_with, starts_with_str, str_eq, string_of, string_of_str,
    sub_chars, trim, trim_chars,
};

verus! {

/// An image type the history keeps.
pub open spec fn is_image_mime(m: Seq<char>) -> bool {
    m == "image/png"@ || m == "image/jpeg"@ || m == "image/webp"@
}

/// The index of the first image type in `types`, or -1.
pub open spec fn first_image(types: Seq<Seq<char>>) -> int
    decreases types.len(),
{
    if types.len() == 0 {
        -1
    } else if is_image_mime(types[0]) {
        0
    } else {
        let r = first_image(types.drop_first());
        if r < 0 { -1 } else { r + 1 }
    }
}

pub proof fn lemma_first_image(types: Seq<Seq<char>>)
    ensures
        -1 <= first_image(types) < types.len(),
    decreases types.len(),
{
    if types.len() > 0 && !is_image_mime(types[0]) {
        lemma_first_image(types.drop_first());
    }
}

/// Which payload to capture from the offered mime types.
pub enum CaptureKind {
    Image(String),
    Files,
    Html,
    Text,
    Nothing,
}

/// Priority: image (png, jpeg, webp; the first offered) > file URI list
/// > rich text > any `text/` type.
pub open spec fn capture_kind(types: Seq<Seq<char>>) -> (int, int) {
    if first_image(types) >= 0 {
        (0, first_image(types))
    } else if types.contains("text/uri-list"@) {
        (1, 0)
    } else if types.contains("text/html"@) {
        (2, 0)
    } else if exists|i: int| 0 <= i < types.len() && starts_with(#[trigger] types[i], "text/"@) {
        (3, 0)
    } else {
        (4, 0)
    }
}

fn is_image_mime_str(m: &str) -> (r: bool)
    ensures
        r == is_image_mime(m@),
{
    str_eq(m, "image/png") || str_eq(m, "image/jpeg") || str_eq(m, "image/webp")
}

/// Pick the highest-priority payload from the clipboard's mime types.
pub fn pick_capture(types: &Vec<String>) -> (r: CaptureKind)
    ensures
        match r {
            CaptureKind::Image(m) => capture_kind(types.deep_view()).0 == 0
                && m@ == types.deep_view()[capture_kind(types.deep_view()).1],
            CaptureKind::Files => capture_kind(types.deep_view()).0 == 1,
            CaptureKind::Html => capture_kind(types.deep_view()).0 == 2,
            CaptureKind::Text => capture_kind(types.deep_view()).0 == 3,
            CaptureKind::Nothing => capture_kind(types.deep_view()).0 == 4,
        },
{
    let ghost t = types.deep_view();
    let mut i: usize = 0;
    proof { lemma_first_image(t); }
    assert(t.subrange(0, t.len() as int) =~= t);
    while i < types.len()
        invariant
            i <= types.len(),
            t == types.deep_view(),
            first_image(t) == (if first_image(t.subrange(i as int, t.len() as int)) < 0 { -1 } else { first_image(t.subrange(i as int, t.len() as int)) + i }),
        decreases types.len() - i,
    {
        assert(t.subrange(i as int, t.len() as int).drop_first() =~= t.subrange(i + 1, t.len() as int));
        assert(t[i as int] == types@[i as int]@);
        if is_image_mime_str(types[i].as_str()) {
            return CaptureKind::Image(types[i].clone());
        }
        i += 1;
    }
    assert(t.subrange(t.len() as int, t.len() as int) =~= Seq::<Seq<char>>::empty());
    if contains_string(types, "text/uri-list") {
        return CaptureKind::Files;
    }
    if contains_string(types, "text/html") {
        return CaptureKind::Html;
    }
    let mut j: usize = 0;
    while j < types.len()
        invariant
            j <= types.len(),
            t == types.deep_view(),
            first_image(t) < 0,
            !t.contains("text/uri-list"@),
            !t.contains("text/html"@),
            forall|k: int| 0 <= k < j ==> !starts_with(#[trigger] t[k], "text/"@),
        decreases types.len() - j,
    {
        let c = chars_of(types[j].as_str());
        assert(t[j as int] == types@[j as int]@);
        if starts_with_str(c.as_slice(), "text/") {
            return CaptureKind::Text;
        }
        j += 1;
    }
    CaptureKind::Nothing
}

/// The file extension stored for an image mime type.
pub open spec fn image_extension_of(mime: Seq<char>) -> Seq<char> {
    if mime == "image/jpeg"@ {
        "jpg"@
    } else if mime == "image/webp"@ {
        "webp"@
    } else {
        "png"@
    }
}

/// The file extension for an image mime type: `jpg`, `webp`, or `png`.
pub fn image_extension(mime: &str) -> (r: &'static str)
    ensures
        r@ == image_extension_of(mime@),
{
    if str_eq(mime, "image/jpeg") {
        "jpg"
    } else if str_eq(mime, "image/webp") {
        "webp"
    } else {
        "png"
    }
}

/// A line of `str::lines`: without its `\n`, and without a `\r` right
/// before that.
pub open spec fn strip_eol(line: Seq<char>) -> Seq<char> {
    if line.len() > 0 && line.last() == '\n' {
        let l = line.drop_last();
        if l.len() > 0 && l.last() == '\r' { l.drop_last() } else { l }
    } else {
        line
    }
}

/// The URIs of a `text/uri-list` body: each line trimmed; empty lines
/// and `#` comments dropped.
pub open spec fn uri_list(s: Seq<char>) -> Seq<Seq<char>>
    decreases s.len(),
{
    if s.len() == 0 {
        Seq::empty()
    } else {
        proof { lemma_line_len(s); }
        let k = line_len(s);
        let l = trim(strip_eol(s.take(k)));
        let rest = uri_list(s.subrange(k, s.len() as int));
        if l.len() > 0 && l[0] != '#' { seq![l] + rest } else { rest }
    }
}

/// Parse a `text/uri-list` body.
pub fn parse_uri_list(body: &str) -> (r: Vec<String>)
    ensures
        r.deep_view() == uri_list(body@),
{
    let s = chars_of(body);
    let mut out: Vec<String> = Vec::new();
    let mut i: usize = 0;
    assert(s@.subrange(0, s@.len() as int) =~= s@);
    while i < s.len()
        invariant
            i <= s.len(),
            s@ == body@,
            uri_list(s@) == out.deep_view() + uri_list(s@.subrange(i as int, s@.len() as int)),
        decreases s.len() - i,
    {
        let ghost sub = s@.subrange(i as int, s@.len() as int);
        let mut j = i;
        while j < s.len() && s[j] != '\n'
            invariant
                i <= j <= s.len(),
                line_len(sub) == (j - i) + line_len(s@.subrange(j as int, s@.len() as int)),
            decreases s.len() - j,
        {
            assert(s@.subrange(j as int, s@.len() as int).drop_first() =~= s@.subrange(j + 1, s@.len() as int));
            j += 1;
        }
        let end = if j < s.len() { j + 1 } else { j };
        let line = sub_chars(s.as_slice(), i, end);
        assert(line@ =~= sub.take(end - i));
        assert(s@.subrange(end as int, s@.len() as int) =~= sub.subrange(end - i, sub.len() as int));
        let mut stripped = line;
        if stripped.len() > 0 && stripped[stripped.len() - 1] == '\n' {
            stripped.pop();
            if stripped.len() > 0 && stripped[stripped.len() - 1] == '\r' {
                stripped.pop();
            }
        }
        assert(stripped@ =~= strip_eol(sub.take(end - i)));
        let t = trim_chars(stripped.as_slice());
        let ghost before = out.deep_view();
        if t.len() > 0 && t[0] != '#' {
            out.push(string_of(t.as_slice()));
            assert(out.deep_view() =~= before.push(t@));
            assert(before + (seq![t@] + uri_list(s@.subrange(end as int, s@.len() as int))) =~= out.deep_view() + uri_list(s@.subrange(end as int, s@.len() as int)));
        }
        i = end;
    }
    assert(uri_list(s@.subrange(s@.len() as int, s@.len() as int)) =~= Seq::<Seq<char>>::empty());
    assert(out.deep_view() + Seq::<Seq<char>>::empty() =~= out.deep_view());
    out
}

/// The label of a rich-text entry: the plain-text fallback, trimmed and
/// cut to `cap` characters, or `[rich text]` when there is none.
pub open spec fn html_label_of(plain: Option<Seq<char>>, cap: nat) -> Seq<char> {
    match plain {
        Some(p) => {
            let t = trim(p);
            if t.len() == 0 {
                "[rich text]"@
            } else if t.len() > cap {
                t.take(cap as int)
            } else {
                t
            }
        },
        None => "[rich text]"@,
    }
}

/// The label of a rich-text entry.
pub fn html_label(plain: Option<String>, cap: usize) -> (r: String)
    ensures
        r@ == html_label_of(
            match plain {
                Some(p) => Some(p@),
                None => None,
            },
            cap as nat,
        ),
{
    match plain {
        Some(p) => {
            let all = chars_of(p.as_str());
            let t = trim_chars(all.as_slice());
            if t.len() == 0 {
                string_of_str("[rich text]")
            } else if t.len() > cap {
                let cut = sub_chars(t.as_slice(), 0, cap);
                assert(cut@ =~= t@.take(cap as int));
                string_of(cut.as_slice())
            } else {
                string_of(t.as_slice())
            }
        },
        None => string_of_str("[rich text]"),
    }
}

/// The text of a plain-text capture: cleaned up, and refused when empty
/// or longer than `cap` characters.
pub open spec fn text_capture_of(raw: Seq<char>, cap: nat) -> Option<Seq<char>> {
    let t = clean_text(raw);
    if t.len() == 0 || t.len() > cap { None } else { Some(t) }
}

/// Clean a captured plain text, or refuse it.
pub fn capture_text(raw: &str, cap: usize) -> (r: Option<String>)
    ensures
        match r {
            Some(t) => text_capture_of(raw@, cap as nat) == Some(t@),
            None => text_capture_of(raw@, cap as nat) is None,
        },
{
    let t = cleanup_text(raw);
    let n = chars_of(t.as_str()).len();
    if n == 0 || n > cap {
        None
    } else {
        Some(t)
    }
}

/// A captured plain text as a history entry, unpinned, with the
/// content hash that tells it from the last capture: the BLAKE3 hex of
/// the text's UTF-8 bytes. `sensitive` is the caller's verdict on it.
pub fn text_entry(text: String, captured_at: i64, sensitive: bool) -> (r: (Entry, String))
    ensures
        r.0@ == (EntryView { text: text@, captured_at, pinned: false, sensitive, payload: PayloadView::Text }),
        r.1@ == hex_lower(blake3_digest(encode_utf8(text@))),
        r.1@.len() == 64,
{
    let hash = blob_hash(text.as_str().as_bytes());
    (Entry { text, captured_at, pinned: false, sensitive, payload: Payload::Text }, hash)
}

/// A captured image as a history entry, with its content hash (the
/// BLAKE3 hex of the image bytes, which also names its blob file); none
/// when the clipboard gave no bytes. `label` is the popup label.
pub fn image_entry(bytes: &[u8], mime: &str, label: String, captured_at: i64) -> (r: Option<(Entry, String)>)
    ensures
        r is None <==> bytes@.len() == 0,
        r matches Some((e, h)) ==> {
            &&& h@ == hex_lower(blake3_digest(bytes@))
            &&& e@ == (EntryView {
                text: label@,
                captured_at,
                pinned: false,
                sensitive: false,
                payload: PayloadView::Image {
                    blob: h@,
                    mime: mime@,
                    ext: image_extension_of(mime@),
                    bytes: bytes@.len() as u64,
                },
            })
        },
{
    if bytes.len() == 0 {
        return None;
    }
    let hash = blob_hash(bytes);
    let ext = image_extension(mime);
    let payload = Payload::Image {
        blob: hash.clone(),
        mime: string_of_str(mime),
        ext: string_of_str(ext),
        bytes: bytes.len() as u64,
    };
    Some((Entry { text: label, captured_at, pinned: false, sensitive: false, payload }, hash))
}

/// A captured file list as a history entry labelled by its first file,
/// with the content hash of the URIs joined by newlines; none when the
/// list is empty.
pub fn files_entry(uris: Vec<String>, captured_at: i64) -> (r: Option<(Entry, String)>)
    ensures
        r is None <==> uris@.len() == 0,
        r matches Some((e, h)) ==> {
            &&& h@ == hex_lower(blake3_digest(encode_utf8(join_with(uris.deep_view(), '\n'))))
            &&& e@ == (EntryView {
                text: files_label(uris.deep_view()),
                captured_at,
                pinned: false,
                sensitive: false,
                payload: PayloadView::Files { uris: uris.deep_view() },
            })
        },
{
    if uris.len() == 0 {
        return None;
    }
    let joined = join_strings(&uris, '\n');
    let hash = blob_hash(joined.as_str().as_bytes());
    let label = format_files_label(&uris);
    let ghost v = uris.deep_view();
    let e = Entry { text: label, captured_at, pinned: false, sensitive: false, payload: Payload::Files { uris } };
    assert(e@.payload == PayloadView::Files { uris: v });
    Some((e, hash))
}

/// A captured rich text as a history entry, with the content hash of
/// the HTML (which also names its blob file); its label is the plain
/// text fallback as `html_label` makes it. None when the HTML is empty.
pub fn html_entry(html: &[u8], plain: Option<String>, cap: usize, captured_at: i64) -> (r: Option<(Entry, String)>)
    ensures
        r is None <==> html@.len() == 0,
        r matches Some((e, h)) ==> {
            &&& h@ == hex_lower(blake3_digest(html@))
            &&& e@ == (EntryView {
                text: html_label_of(opt_view(plain), cap as nat),
                captured_at,
                pinned: false,
                sensitive: false,
                payload: PayloadView::Html { blob: h@ },
            })
        },
{
    if html.len() == 0 {
        return None;
    }
    let hash = blob_hash(html);
    let text = html_label(plain, cap);
    Some((Entry { text, captured_at, pinned: false, sensitive: false, payload: Payload::Html { blob: hash.clone() } }, hash))
}

// ---------------------------------------------------------------------
// The clipboard watcher.

/// The strings of `v` joined with `c` between them.
pub fn join_strings(v: &Vec<String>, c: char) -> (r: String)
    ensures
        r@ == join_with(v.deep_view(), c),
{
    let mut parts: Vec<Vec<char>> = Vec::new();
    let mut i: usize = 0;
    while i < v.len()
        invariant
            i <= v.len(),
            views(parts@) =~= v.deep_view().take(i as int),
        decreases v.len() - i,
    {
        let cs = chars_of(v[i].as_str());
        parts.push(cs);
        assert(views(parts@) =~= v.deep_view().take(i as int).push(v@[i as int]@));
        assert(v.deep_view().take(i + 1) =~= v.deep_view().take(i as int).push(v.deep_view()[i as int]));
        i += 1;
    }
    assert(v.deep_view().take(v.len() as int) =~= v.deep_view());
    let joined = join_chars(&parts, c);
    string_of(joined.as_slice())
}

/// The text the primary selection should hold while `e` is on the
/// clipboard: the text itself, the URI list one per line, the plain
/// fallback of rich text; nothing for an image.
pub open spec fn canonical_text_of(e: EntryView) -> Option<Seq<char>> {
    match e.payload {
        PayloadView::Text => Some(e.text),
        PayloadView::Files { uris } => Some(join_with(uris, '\n')),
        PayloadView::Html { .. } => Some(e.text),
        PayloadView::Image { .. } => None,
    }
}

/// The text the primary selection should hold for `entry`.
pub fn canonical_text(entry: &Entry) -> (r: Option<String>)
    ensures
        match r {
            Some(t) => canonical_text_of(entry@) == Some(t@),
            None => canonical_text_of(entry@) is None,
        },
{
    match &entry.payload {
        Payload::Text => Some(entry.text.clone()),
        Payload::Files { uris } => Some(join_strings(uris, '\n')),
        Payload::Html { .. } => Some(entry.text.clone()),
        Payload::Image { .. } => None,
    }
}

/// The watcher's memory, as plain values.
pub struct WatchView {
    pub last_hash: Option<Seq<char>>,
    pub canonical: Option<Seq<char>>,
}

/// What the watcher remembers between clipboard events: the hash of the
/// last captured content, and the text primary should hold (none when
/// the clipboard is not textual).
pub struct ClipboardWatch {
    last_hash: Option<String>,
    canonical: Option<String>,
}

/// What a clipboard event leads to.
pub enum WatchEvent {
    /// The same content as last time: nothing to do.
    Unchanged,
    /// New content to record.
    Captured(Entry),
    /// Set the primary selection to this text (empty: wipe it).
    MirrorPrimary(String),
}

pub open spec fn opt_view(o: Option<String>) -> Option<Seq<char>> {
    match o {
        Some(s) => Some(s@),
        None => None,
    }
}

impl View for ClipboardWatch {
    type V = WatchView;

    closed spec fn view(&self) -> WatchView {
        WatchView { last_hash: opt_view(self.last_hash), canonical: opt_view(self.canonical) }
    }
}

fn opt_str_eq(a: &Option<String>, b: &str) -> (r: bool)
    ensures
        r == (opt_view(*a) == Some(b@)),
{
    match a {
        Some(x) => str_eq(x.as_str(), b),
        None => false,
    }
}

impl ClipboardWatch {
    pub fn new() -> (r: Self)
        ensures
            r@.last_hash is None,
            r@.canonical is None,
    {
        ClipboardWatch { last_hash: None, canonical: None }
    }

    /// A clipboard change. `capture` is the entry read from the
    /// clipboard with its content hash, or `None` when the clipboard is
    /// empty or holds nothing the history takes. New content is
    /// captured; the same content as last time is not; an empty
    /// clipboard forgets the last content and wipes primary.
    pub fn on_clipboard(&mut self, capture: Option<(Entry, String)>) -> (r: WatchEvent)
        ensures
            match capture {
                Some((e, h)) => {
                    &&& final(self)@.canonical == canonical_text_of(e@)
                    &&& final(self)@.last_hash == Some(h@)
                    &&& if old(self)@.last_hash == Some(h@) {
                        r is Unchanged
                    } else {
                        r matches WatchEvent::Captured(x) && x@ == e@
                    }
                },
                None => {
                    &&& final(self)@.last_hash is None
                    &&& final(self)@.canonical is None
                    &&& r matches WatchEvent::MirrorPrimary(t) && t@.len() == 0
                },
            },
    {
        match capture {
            Some((entry, hash)) => {
                let is_new = !opt_str_eq(&self.last_hash, hash.as_str());
                self.canonical = canonical_text(&entry);
                if is_new {
                    self.last_hash = Some(hash);
                    WatchEvent::Captured(entry)
                } else {
                    WatchEvent::Unchanged
                }
            },
            None => {
                self.last_hash = None;
                self.canonical = None;
                WatchEvent::MirrorPrimary(String::new())
            },
        }
    }

    /// A primary-selection change to `primary_text`. Returns the text to
    /// put back into primary: the canonical text when primary drifted
    /// from it, an empty text to wipe primary when the clipboard is not
    /// textual, or `None` when primary is as it should be.
    pub fn on_primary(&self, primary_text: &str) -> (r: Option<String>)
        ensures
            match self@.canonical {
                Some(target) => if primary_text@ != target {
                    r matches Some(t) && t@ == target
                } else {
                    r is None
                },
                None => if primary_text@.len() > 0 {
                    r matches Some(t) && t@.len() == 0
                } else {
                    r is None
                },
            },
    {
        match &self.canonical {
            Some(target) => {
                if !str_eq(primary_text, target.as_str()) {
                    Some(target.clone())
                } else {
                    None
                }
            },
            None => {
                if !primary_text.is_empty() {
                    Some(String::new())
                } else {
                    None
                }
            },
        }
    }
}

} // verus!
