use cosmic_pick::history::{Entry, History, Payload};

fn text(s: &str, at: i64) -> Entry {
    Entry { text: s.to_string(), captured_at: at, pinned: false, sensitive: false, payload: Payload::Text }
}

fn pinned(s: &str, at: i64) -> Entry {
    Entry { pinned: true, ..text(s, at) }
}

fn image(label: &str, blob: &str, at: i64) -> Entry {
    Entry {
        text: label.to_string(),
        captured_at: at,
        pinned: false,
        sensitive: false,
        payload: Payload::Image {
            blob: blob.to_string(),
            mime: "image/png".to_string(),
            ext: "png".to_string(),
            bytes: 10,
        },
    }
}

fn texts(h: &History) -> Vec<String> {
    h.iter().iter().map(|e| e.text.clone()).collect()
}

#[test]
fn push_puts_newest_first() {
    let mut h = History::new();
    h.push(text("a", 1), 10);
    h.push(text("b", 2), 10);
    assert_eq!(texts(&h), vec!["b", "a"]);
    assert_eq!(h.len(), 2);
    assert!(!h.is_empty());
}

#[test]
fn push_ignores_empty_text() {
    let mut h = History::new();
    h.push(text("", 1), 10);
    assert!(h.is_empty());
}

#[test]
fn push_keeps_empty_label_of_image() {
    let mut h = History::new();
    h.push(image("", "abc", 1), 10);
    assert_eq!(h.len(), 1);
}

#[test]
fn push_dedups_and_bumps() {
    let mut h = History::new();
    h.push(text("a", 1), 10);
    h.push(text("b", 2), 10);
    h.push(text("a", 3), 10);
    assert_eq!(texts(&h), vec!["a", "b"]);
    assert_eq!(h.get(0).unwrap().captured_at, 3);
}

#[test]
fn push_dedup_keeps_pin_and_section() {
    let mut h = History::new();
    h.push(text("a", 1), 10);
    h.push(text("b", 2), 10);
    assert_eq!(h.toggle_pin(1), Some(true));
    assert_eq!(texts(&h), vec!["a", "b"]);
    h.push(text("c", 3), 10);
    assert_eq!(texts(&h), vec!["a", "c", "b"]);
    h.push(text("a", 4), 10);
    assert_eq!(texts(&h), vec!["a", "c", "b"]);
    assert!(h.get(0).unwrap().pinned);
    assert_eq!(h.get(0).unwrap().captured_at, 4);
}

#[test]
fn push_dedups_images_by_blob() {
    let mut h = History::new();
    h.push(image("[image 1]", "hash1", 1), 10);
    h.push(text("x", 2), 10);
    h.push(image("[image again]", "hash1", 3), 10);
    assert_eq!(texts(&h), vec!["[image 1]", "x"]);
    assert_eq!(h.get(0).unwrap().captured_at, 3);
}

#[test]
fn push_does_not_dedup_text_against_html() {
    let mut h = History::new();
    h.push(text("same", 1), 10);
    h.push(Entry { payload: Payload::Html { blob: "b".to_string() }, ..text("same", 2) }, 10);
    assert_eq!(h.len(), 2);
}

#[test]
fn push_dedups_files_by_uri_list() {
    let files = |at| Entry {
        payload: Payload::Files { uris: vec!["file:///a".to_string(), "file:///b".to_string()] },
        ..text("a + 1 more", at)
    };
    let mut h = History::new();
    h.push(files(1), 10);
    h.push(text("t", 2), 10);
    h.push(files(3), 10);
    assert_eq!(h.len(), 2);
    assert_eq!(h.get(0).unwrap().captured_at, 3);
}

#[test]
fn push_evicts_oldest_unpinned() {
    let mut h = History::new();
    for (i, s) in ["a", "b", "c", "d"].iter().enumerate() {
        h.push(text(s, i as i64), 3);
    }
    assert_eq!(texts(&h), vec!["d", "c", "b"]);
}

#[test]
fn pinned_entries_are_never_evicted() {
    let mut h = History::new();
    h.push(pinned("p1", 1), 2);
    h.push(pinned("p2", 2), 2);
    h.push(pinned("p3", 3), 2);
    assert_eq!(texts(&h), vec!["p3", "p2", "p1"]);
    h.push(text("u", 4), 2);
    assert_eq!(texts(&h), vec!["p3", "p2", "p1"]);
}

#[test]
fn new_pinned_entry_goes_to_front() {
    let mut h = History::new();
    h.push(text("a", 1), 10);
    h.push(pinned("p", 2), 10);
    h.push(text("b", 3), 10);
    assert_eq!(texts(&h), vec!["p", "b", "a"]);
}

#[test]
fn toggle_pin_moves_entry_into_pinned_section() {
    let mut h = History::new();
    h.push(text("a", 1), 10);
    h.push(text("b", 2), 10);
    h.push(text("c", 3), 10);
    assert_eq!(h.toggle_pin(2), Some(true));
    assert_eq!(texts(&h), vec!["a", "c", "b"]);
    assert_eq!(h.toggle_pin(0), Some(false));
    assert_eq!(texts(&h), vec!["a", "c", "b"]);
    assert_eq!(h.toggle_pin(2), Some(true));
    assert_eq!(texts(&h), vec!["b", "a", "c"]);
    assert_eq!(h.toggle_pin(7), None);
    assert_eq!(texts(&h), vec!["b", "a", "c"]);
}

#[test]
fn clear_keeps_pinned_entries() {
    let mut h = History::new();
    h.push(text("a", 1), 10);
    h.push(pinned("p", 2), 10);
    h.push(text("b", 3), 10);
    h.clear();
    assert_eq!(texts(&h), vec!["p"]);
    h.clear();
    assert_eq!(texts(&h), vec!["p"]);
}

#[test]
fn live_blob_hashes_lists_each_blob_once() {
    let mut h = History::new();
    h.push(image("i1", "h1", 1), 10);
    h.push(text("t", 2), 10);
    h.push(Entry { payload: Payload::Html { blob: "h2".to_string() }, ..text("html", 3) }, 10);
    let mut hashes = h.live_blob_hashes();
    hashes.sort();
    assert_eq!(hashes, vec!["h1".to_string(), "h2".to_string()]);
}

#[test]
fn blob_hashes_of_entries() {
    assert_eq!(image("i", "h", 1).blob_hashes(), vec!["h".to_string()]);
    assert!(text("t", 1).blob_hashes().is_empty());
}

#[test]
fn same_content_compares_payloads() {
    assert!(text("a", 1).same_content(&text("a", 9)));
    assert!(!text("a", 1).same_content(&text("b", 1)));
    assert!(image("x", "h", 1).same_content(&image("y", "h", 2)));
    assert!(!image("x", "h", 1).same_content(&text("x", 1)));
}

#[test]
fn persistable_drops_sensitive_entries() {
    let mut h = History::new();
    h.push(text("a", 1), 10);
    h.push(Entry { sensitive: true, pinned: true, ..text("secret", 2) }, 10);
    let p = h.persistable();
    assert_eq!(texts(&p), vec!["a"]);
    assert_eq!(h.len(), 2);
}

#[test]
fn get_out_of_range_is_none() {
    let h = History::new();
    assert!(h.get(0).is_none());
}

#[test]
fn clone_keeps_entries() {
    let mut h = History::new();
    h.push(text("a", 1), 10);
    let c = h.clone();
    assert_eq!(texts(&c), vec!["a"]);
}
