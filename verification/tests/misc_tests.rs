use cosmic_pick::autostart::desktop_entry;
use cosmic_pick::clip_paths;
use cosmic_pick::config::{accept_digits, parse_u32_str, PickConfig};
use cosmic_pick::keyboard::{key_action, Key, KeyAction};
use cosmic_pick::cleanup::preview_label;
use cosmic_pick::paths::{
    to_hex, blob_hash, blob_path, blobs_dir, color_recents_path, emoji_recents_path, history_path, join_path,
};
use cosmic_pick::search::{matching_indices, matching_lowered};

#[test]
fn data_paths() {
    let d = "/home/u/.local/share";
    assert_eq!(history_path(d), "/home/u/.local/share/cosmic-pick/clipboard.json");
    assert_eq!(emoji_recents_path(d), "/home/u/.local/share/cosmic-pick/emoji-recents.json");
    assert_eq!(color_recents_path("/d/"), "/d/cosmic-pick/color-recents.json");
    assert_eq!(blobs_dir(d), "/home/u/.local/share/cosmic-pick/blobs");
    assert_eq!(blob_path("/d", "abc", "png"), "/d/cosmic-pick/blobs/abc.png");
}

#[test]
fn join_matches_pathbuf() {
    for (base, name) in [("/a", "b"), ("/a/", "b"), ("", "b"), ("/a", "/b"), ("rel", "x/y")] {
        let expected = std::path::Path::new(base).join(name);
        assert_eq!(join_path(base, name), expected.to_str().unwrap());
    }
}

#[test]
fn clip_paths_below_dirs() {
    assert_eq!(clip_paths::config_path("/c"), "/c/cosmic-clip/config.toml");
    assert_eq!(clip_paths::history_path("/d"), "/d/cosmic-clip/history.json");
    assert_eq!(clip_paths::autostart_path("/c"), "/c/autostart/cosmic-clip.desktop");
}

#[test]
fn blob_hash_is_blake3_hex() {
    assert_eq!(blob_hash(b""), "af1349b9f5f9a1a6a0404dea36dcc9499bcb25c9adc112b7cc9a93cae41f3262");
    assert_eq!(blob_hash(b"abc"), "6437b3ac38465133ffb63b75273a8db548c558465d79db03fd359c6cd5bd9d85");
    assert_eq!(blob_hash(b"abc").len(), 64);
}

#[test]
fn keyboard_shortcuts() {
    assert_eq!(key_action(false, &Key::Escape), Some(KeyAction::CloseEscape));
    assert_eq!(key_action(true, &Key::Escape), Some(KeyAction::CloseEscape));
    assert_eq!(key_action(false, &Key::Character("/".into())), Some(KeyAction::FocusSearch));
    assert_eq!(key_action(false, &Key::Character("1".into())), Some(KeyAction::PickByNumber(0)));
    assert_eq!(key_action(false, &Key::Character("9".into())), Some(KeyAction::PickByNumber(8)));
    assert_eq!(key_action(false, &Key::Character("0".into())), None);
    assert_eq!(key_action(true, &Key::Character("1".into())), None);
    assert_eq!(key_action(false, &Key::Character("a".into())), None);
    assert_eq!(key_action(false, &Key::Other), None);
}

#[test]
fn settings_fields() {
    assert!(accept_digits("12345", 5));
    assert!(!accept_digits("123456", 5));
    assert!(!accept_digits("12a", 5));
    assert!(accept_digits("", 5));
    assert_eq!(parse_u32_str("42"), Some(42));
    assert_eq!(parse_u32_str("+7"), Some(7));
    assert_eq!(parse_u32_str(""), None);
    assert_eq!(parse_u32_str("+"), None);
    assert_eq!(parse_u32_str("4294967295"), Some(4294967295));
    assert_eq!(parse_u32_str("4294967296"), None);
    assert_eq!(parse_u32_str("-1"), None);
}

#[test]
fn config_from_form() {
    let d = PickConfig::default();
    assert_eq!(d.history_size, 50);
    assert_eq!(d.poll_interval_ms, 500);
    assert!(d.persist_history);
    assert_eq!(d.max_entry_chars, 10_000);
    let c = PickConfig::from_form(&d, "", "0", false);
    assert_eq!(c.history_size, 50);
    assert_eq!(c.max_entry_chars, 1);
    assert!(!c.persist_history);
    assert_eq!(c.poll_interval_ms, 500);
    let c = PickConfig::from_form(&d, "7", "300", true);
    assert_eq!((c.history_size, c.max_entry_chars), (7, 300));
    assert_eq!(PickConfig { history_size: 0, ..d }.history_cap(), 1);
    assert_eq!(d.history_cap(), 50);
}

#[test]
fn search_is_case_insensitive() {
    let names: Vec<String> = ["Red", "red dark", "Blue", "GREEN"].iter().map(|s| s.to_string()).collect();
    assert_eq!(matching_indices(&names, "RED", 10), vec![0, 1]);
    assert_eq!(matching_indices(&names, "", 10), vec![0, 1, 2, 3]);
    assert_eq!(matching_indices(&names, "", 2), vec![0, 1]);
    assert_eq!(matching_indices(&names, "e", 2), vec![0, 1]);
    assert!(matching_indices(&names, "zzz", 10).is_empty());
}

#[test]
fn autostart_entry() {
    let e = desktop_entry("/usr/bin/cosmic-clip");
    assert!(e.starts_with("[Desktop Entry]\nType=Application\n"));
    assert!(e.contains("\nExec=/usr/bin/cosmic-clip\nIcon=cosmic-clip-symbolic\n"));
    assert!(e.ends_with("X-GNOME-Autostart-Delay=8\n"));
}

#[test]
fn to_hex_two_lowercase_digits_per_byte() {
    assert_eq!(to_hex(&[]), "");
    assert_eq!(to_hex(&[0x00, 0x0f, 0xa0, 0xff]), "000fa0ff");
    assert_eq!(to_hex(&[0xde, 0xad, 0xbe, 0xef]), "deadbeef");
}

#[test]
fn matching_lowered_takes_lowered_inputs() {
    let names: Vec<String> = ["red", "Red", "dark red", "blue"].iter().map(|s| s.to_string()).collect();
    // Already lowered inputs are compared as they are.
    assert_eq!(matching_lowered(&names, "red", false, 10), vec![0, 2]);
    assert_eq!(matching_lowered(&names, "red", false, 1), vec![0]);
    assert_eq!(matching_lowered(&names, "", true, 3), vec![0, 1, 2]);
    assert_eq!(matching_lowered(&names, "x", true, 10), vec![0, 1, 2, 3]);
    assert!(matching_lowered(&names, "red", false, 0).is_empty());
}

#[test]
fn whitespace_is_what_str_trim_trims() {
    for u in 0u32..0x3100 {
        let c = match char::from_u32(u) {
            Some(c) => c,
            None => continue,
        };
        let text = format!("{c}x{c}");
        let expected = text.replace(['\n', '\r', '\t'], " ");
        assert_eq!(preview_label(&text, "-"), expected.trim(), "code point {u:#x}");
    }
}

#[test]
fn text_entry_fixes_every_field() {
    let (e, hash) = cosmic_pick::capture::text_entry("abc".to_string(), 42, true);
    assert_eq!(e.text, "abc");
    assert_eq!(e.captured_at, 42);
    assert!(!e.pinned);
    assert!(e.sensitive);
    assert!(matches!(e.payload, cosmic_pick::history::Payload::Text));
    assert_eq!(hash, "6437b3ac38465133ffb63b75273a8db548c558465d79db03fd359c6cd5bd9d85");
    assert_eq!(blob_hash("h\u{e9}".as_bytes()).len(), 64);
}

#[test]
fn emoji_picker_filters_by_name() {
    let table: Vec<(String, String)> = [("😀", "grinning face"), ("🚀", "rocket"), ("😎", "smiling face with sunglasses")]
        .iter()
        .map(|(g, n)| (g.to_string(), n.to_string()))
        .collect();
    assert_eq!(cosmic_pick::search::pick_emojis(&table, "FACE", 10), vec!["😀", "😎"]);
    assert_eq!(cosmic_pick::search::pick_emojis(&table, "", 2), vec!["😀", "🚀"]);
    assert!(cosmic_pick::search::pick_emojis(&table, "zebra", 10).is_empty());
    let rockets = cosmic_pick::search::filtered_emoji("rocket", 5);
    assert!(rockets.contains(&"🚀".to_string()));
    assert_eq!(cosmic_pick::search::filtered_emoji("", 7).len(), 7);
}

#[test]
fn emoji_table_is_the_default_tone_table() {
    let all = cosmic_pick::search::filtered_emoji("", 5000);
    assert_eq!(all.len(), cosmic_pick::search::EMOJI_COUNT);
    assert_eq!(&all[..5], &["😀", "😃", "😄", "😁", "😆"]);
    assert_eq!(cosmic_pick::search::filtered_emoji("ROCKET", 10), vec!["🚀"]);
}
