use cosmic_pick::capture::{files_entry, html_entry, image_entry};
use cosmic_pick::paths::blob_hash;
use cosmic_pick::capture::{
    capture_text, html_label, image_extension, parse_uri_list, pick_capture, CaptureKind,
    ClipboardWatch, WatchEvent,
};
use cosmic_pick::history::{Entry, Payload};

fn strings(v: &[&str]) -> Vec<String> {
    v.iter().map(|s| s.to_string()).collect()
}

fn kind(types: &[&str]) -> String {
    match pick_capture(&strings(types)) {
        CaptureKind::Image(m) => format!("image {m}"),
        CaptureKind::Files => "files".into(),
        CaptureKind::Html => "html".into(),
        CaptureKind::Text => "text".into(),
        CaptureKind::Nothing => "nothing".into(),
    }
}

#[test]
fn capture_priority() {
    assert_eq!(kind(&["text/plain", "image/jpeg", "image/png"]), "image image/jpeg");
    assert_eq!(kind(&["text/plain", "text/uri-list", "text/html"]), "files");
    assert_eq!(kind(&["text/plain", "text/html"]), "html");
    assert_eq!(kind(&["UTF8_STRING", "text/plain;charset=utf-8"]), "text");
    assert_eq!(kind(&["application/x-foo"]), "nothing");
    assert_eq!(kind(&[]), "nothing");
}

#[test]
fn image_extensions() {
    assert_eq!(image_extension("image/jpeg"), "jpg");
    assert_eq!(image_extension("image/webp"), "webp");
    assert_eq!(image_extension("image/png"), "png");
}

#[test]
fn uri_list_parsing() {
    assert_eq!(
        parse_uri_list("# comment\r\nfile:///a\r\n\n  file:///b  \n"),
        strings(&["file:///a", "file:///b"])
    );
    assert!(parse_uri_list("").is_empty());
}

#[test]
fn html_labels() {
    assert_eq!(html_label(Some("  hello world ".into()), 5), "hello");
    assert_eq!(html_label(Some("hi".into()), 5), "hi");
    assert_eq!(html_label(Some("   ".into()), 5), "[rich text]");
    assert_eq!(html_label(None, 5), "[rich text]");
}

#[test]
fn text_capture_limits() {
    assert_eq!(capture_text("  $ echo hi \n", 100).as_deref(), Some("echo hi"));
    assert_eq!(capture_text("   ", 100), None);
    assert_eq!(capture_text("abcdef", 5), None);
    assert_eq!(capture_text("abcde", 5).as_deref(), Some("abcde"));
}

fn text(s: &str) -> Entry {
    Entry { text: s.into(), captured_at: 0, pinned: false, sensitive: false, payload: Payload::Text }
}

#[test]
fn watcher_captures_new_content_once() {
    let mut w = ClipboardWatch::new();
    assert!(matches!(w.on_clipboard(Some((text("a"), "h1".into()))), WatchEvent::Captured(_)));
    assert!(matches!(w.on_clipboard(Some((text("a"), "h1".into()))), WatchEvent::Unchanged));
    assert!(matches!(w.on_clipboard(Some((text("b"), "h2".into()))), WatchEvent::Captured(_)));
    assert_eq!(w.on_primary("b"), None);
    assert_eq!(w.on_primary("highlighted").as_deref(), Some("b"));
}

#[test]
fn watcher_empty_clipboard_wipes_primary() {
    let mut w = ClipboardWatch::new();
    let _ = w.on_clipboard(Some((text("a"), "h1".into())));
    match w.on_clipboard(None) {
        WatchEvent::MirrorPrimary(t) => assert_eq!(t, ""),
        _ => panic!("expected a primary wipe"),
    }
    assert_eq!(w.on_primary("x").as_deref(), Some(""));
    assert_eq!(w.on_primary(""), None);
    assert!(matches!(w.on_clipboard(Some((text("a"), "h1".into()))), WatchEvent::Captured(_)));
}

#[test]
fn watcher_files_mirror_uri_lines() {
    let mut w = ClipboardWatch::new();
    let files = Entry {
        payload: Payload::Files { uris: vec!["file:///a".into(), "file:///b".into()] },
        ..text("a + 1 more")
    };
    let _ = w.on_clipboard(Some((files, "h".into())));
    assert_eq!(w.on_primary("x").as_deref(), Some("file:///a\nfile:///b"));
}

#[test]
fn watcher_image_wipes_primary_on_drift() {
    let mut w = ClipboardWatch::new();
    let img = Entry {
        payload: Payload::Image { blob: "h".into(), mime: "image/png".into(), ext: "png".into(), bytes: 3 },
        ..text("[image]")
    };
    let _ = w.on_clipboard(Some((img, "h".into())));
    assert_eq!(w.on_primary("sel").as_deref(), Some(""));
}

#[test]
fn media_entries_fix_every_field() {
    assert!(image_entry(&[], "image/png", "x".into(), 1).is_none());
    let (e, h) = image_entry(b"abc", "image/jpeg", "[image]".into(), 7).unwrap();
    assert_eq!(h, blob_hash(b"abc"));
    assert_eq!(e.text, "[image]");
    assert_eq!(e.captured_at, 7);
    assert!(!e.pinned && !e.sensitive);
    match e.payload {
        Payload::Image { blob, mime, ext, bytes } => {
            assert_eq!((blob.as_str(), mime.as_str(), ext.as_str(), bytes), (h.as_str(), "image/jpeg", "jpg", 3));
        }
        _ => panic!("expected an image"),
    }
    assert!(files_entry(Vec::new(), 1).is_none());
    let uris = vec!["file:///a/x.txt".to_string(), "file:///b".to_string()];
    let (e, h) = files_entry(uris.clone(), 2).unwrap();
    assert_eq!(h, blob_hash(b"file:///a/x.txt\nfile:///b"));
    assert_eq!(e.text, "x.txt + 1 more");
    assert!(matches!(e.payload, Payload::Files { uris: ref u } if *u == uris));
    assert!(html_entry(&[], Some("a".into()), 10, 1).is_none());
    let (e, h) = html_entry(b"<b>hi</b>", Some("  hi  ".into()), 10, 3).unwrap();
    assert_eq!(h, blob_hash(b"<b>hi</b>"));
    assert_eq!(e.text, "hi");
    assert!(matches!(e.payload, Payload::Html { ref blob } if *blob == h));
    let (e, _) = html_entry(b"<p></p>", None, 10, 3).unwrap();
    assert_eq!(e.text, "[rich text]");
}
