//! Where cosmic-pick keeps its files, below the user's data directory,
//! and the names of blob side-files.

use vstd::prelude::*;

use crate::recent_colors::{hex_char, is_lower_hex};
use crate::text::{chars_of, string_of};

verus! {

/// The name of the applet's directory below the data directory.
pub const BIN_NAME: &'static str = "cosmic-pick";

/// The application id.
pub const APP_ID: &'static str = "io.github.atayozcan.CosmicPick";

/// `base` joined with `name` as a Unix path: an absolute `name`
/// replaces `base`; otherwise a `/` goes between them unless `base` is
/// empty or already ends with one.
pub open spec fn path_join(base: Seq<char>, name: Seq<char>) -> Seq<char> {
    if name.len() > 0 && name[0] == '/' {
        name
    } else if base.len() == 0 {
        name
    } else if base.last() == '/' {
        base + name
    } else {
        base + seq!['/'] + name
    }
}

/// Join `name` onto the path `base`.
pub fn join_path(base: &str, name: &str) -> (r: String)
    ensures
        r@ == path_join(base@, name@),
{
    let b = chars_of(base);
    let n = chars_of(name);
    if n.len() > 0 && n[0] == '/' {
        return string_of(n.as_slice());
    }
    if b.len() == 0 {
        return string_of(n.as_slice());
    }
    let mut out = b;
    if out[out.len() - 1] != '/' {
        out.push('/');
    }
    let ghost before = out@;
    let mut i: usize = 0;
    while i < n.len()
        invariant
            i <= n.len(),
            out@ == before + n@.take(i as int),
        decreases n.len() - i,
    {
        out.push(n[i]);
        assert(n@.take(i + 1) =~= n@.take(i as int).push(n@[i as int]));
        i += 1;
    }
    assert(n@.take(n@.len() as int) =~= n@);
    string_of(out.as_slice())
}

/// `$XDG_DATA_HOME/cosmic-pick` for the data directory `data_dir`.
pub open spec fn data_root(data_dir: Seq<char>) -> Seq<char> {
    path_join(data_dir, BIN_NAME@)
}

fn data_root_of(data_dir: &str) -> (r: String)
    ensures
        r@ == data_root(data_dir@),
{
    join_path(data_dir, BIN_NAME)
}

/// `<data>/cosmic-pick/clipboard.json`: the clipboard history.
pub fn history_path(data_dir: &str) -> (r: String)
    ensures
        r@ == path_join(data_root(data_dir@), "clipboard.json"@),
{
    let root = data_root_of(data_dir);
    join_path(root.as_str(), "clipboard.json")
}

/// `<data>/cosmic-pick/emoji-recents.json`: recently picked emoji.
pub fn emoji_recents_path(data_dir: &str) -> (r: String)
    ensures
        r@ == path_join(data_root(data_dir@), "emoji-recents.json"@),
{
    let root = data_root_of(data_dir);
    join_path(root.as_str(), "emoji-recents.json")
}

/// `<data>/cosmic-pick/color-recents.json`: recently picked colors.
pub fn color_recents_path(data_dir: &str) -> (r: String)
    ensures
        r@ == path_join(data_root(data_dir@), "color-recents.json"@),
{
    let root = data_root_of(data_dir);
    join_path(root.as_str(), "color-recents.json")
}

/// `<data>/cosmic-pick/blobs`: binary clipboard payloads, one file per
/// content hash.
pub fn blobs_dir(data_dir: &str) -> (r: String)
    ensures
        r@ == path_join(data_root(data_dir@), "blobs"@),
{
    let root = data_root_of(data_dir);
    join_path(root.as_str(), "blobs")
}

/// `<hash>.<extension>`.
pub open spec fn blob_file_name(hash: Seq<char>, extension: Seq<char>) -> Seq<char> {
    hash + seq!['.'] + extension
}

/// The file that backs a blob hash with a given extension. Does not
/// check existence.
pub fn blob_path(data_dir: &str, hash: &str, extension: &str) -> (r: String)
    ensures
        r@ == path_join(path_join(data_root(data_dir@), "blobs"@), blob_file_name(hash@, extension@)),
{
    let dir = blobs_dir(data_dir);
    let mut name = chars_of(hash);
    name.push('.');
    let e = chars_of(extension);
    let ghost before = name@;
    let mut i: usize = 0;
    while i < e.len()
        invariant
            i <= e.len(),
            name@ == before + e@.take(i as int),
        decreases e.len() - i,
    {
        name.push(e[i]);
        assert(e@.take(i + 1) =~= e@.take(i as int).push(e@[i as int]));
        i += 1;
    }
    assert(e@.take(e@.len() as int) =~= e@);
    let file = string_of(name.as_slice());
    join_path(dir.as_str(), file.as_str())
}

/// What `blake3::hash` computes: the 32-byte BLAKE3 digest of `data`.
pub uninterp spec fn blake3_digest(data: Seq<u8>) -> Seq<u8>;

/// Calls `blake3::hash` and hands back the raw digest bytes; the
/// contract claims only that they are the BLAKE3 digest of `data`,
/// a function of `data` alone.
#[verifier::external_body]
fn blake3_hash(data: &[u8]) -> (r: [u8; 32])
    ensures
        r@ == blake3_digest(data@),
{
    *blake3::hash(data).as_bytes()
}

/// Two lowercase hex digits per byte, as `blake3::Hash::to_hex`.
pub open spec fn hex_lower(bytes: Seq<u8>) -> Seq<char>
    decreases bytes.len(),
{
    if bytes.len() == 0 {
        Seq::empty()
    } else {
        hex_lower(bytes.drop_last()) + seq![
            hex_char(bytes.last() as int / 16),
            hex_char(bytes.last() as int % 16),
        ]
    }
}

fn hex_digit_char(n: u8) -> (c: char)
    requires
        n < 16,
    ensures
        c == hex_char(n as int),
{
    if n < 10 {
        (0x30u8 + n) as char
    } else {
        (0x61u8 + n - 10) as char
    }
}

/// Lowercase hex of `bytes`, two digits per byte, as
/// `blake3::Hash::to_hex` spells a digest.
pub fn to_hex(bytes: &[u8]) -> (r: String)
    ensures
        r@ == hex_lower(bytes@),
{
    let mut out: Vec<char> = Vec::new();
    let mut i: usize = 0;
    while i < bytes.len()
        invariant
            i <= bytes.len(),
            out@ == hex_lower(bytes@.take(i as int)),
        decreases bytes.len() - i,
    {
        let b = bytes[i];
        assert(bytes@.take(i + 1).drop_last() =~= bytes@.take(i as int));
        out.push(hex_digit_char(b / 16));
        out.push(hex_digit_char(b % 16));
        i += 1;
    }
    assert(bytes@.take(bytes@.len() as int) =~= bytes@);
    string_of(out.as_slice())
}

/// Two characters per byte, each a lowercase hex digit.
pub proof fn lemma_hex_lower_shape(bytes: Seq<u8>)
    ensures
        hex_lower(bytes).len() == 2 * bytes.len(),
        forall|i: int| 0 <= i < hex_lower(bytes).len() ==> is_lower_hex(#[trigger] hex_lower(bytes)[i]),
    decreases bytes.len(),
{
    if bytes.len() > 0 {
        lemma_hex_lower_shape(bytes.drop_last());
        let h = hex_lower(bytes);
        let front = hex_lower(bytes.drop_last());
        assert forall|i: int| 0 <= i < h.len() implies is_lower_hex(#[trigger] h[i]) by {
            if i < front.len() {
                assert(h[i] == front[i]);
            }
        }
    }
}

/// The content hash that names a blob: BLAKE3 of `bytes` in lowercase
/// hex, 64 characters. Copying the same image twice gives the same
/// file.
pub fn blob_hash(bytes: &[u8]) -> (r: String)
    ensures
        r@ == hex_lower(blake3_digest(bytes@)),
        r@.len() == 64,
        forall|i: int| 0 <= i < r@.len() ==> is_lower_hex(#[trigger] r@[i]),
{
    let digest = blake3_hash(bytes);
    proof { lemma_hex_lower_shape(digest@); }
    to_hex(&digest)
}

} // verus!
