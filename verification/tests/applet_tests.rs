use cosmic_pick::applet::{Applet, Effect, Message, Tab};
use cosmic_pick::emoji_recents::EmojiRecents;
use cosmic_pick::history::{Entry, History, Payload};
use cosmic_pick::recent_colors::RecentColors;

fn app() -> Applet {
    Applet::new(History::new(), EmojiRecents::new(), RecentColors::new(), true)
}

fn text(s: &str) -> Entry {
    Entry { text: s.into(), captured_at: 0, pinned: false, sensitive: false, payload: Payload::Text }
}

fn describe(effects: &[Effect]) -> Vec<String> {
    effects
        .iter()
        .map(|e| match e {
            Effect::OpenPopup => "open".to_string(),
            Effect::ClosePopup => "close".to_string(),
            Effect::WriteText(t, p) => format!("write {t} {p}"),
            Effect::WriteTyped(t, m, p) => format!("typed {t} {m} {p}"),
            Effect::WriteBlob(h, e, m, p) => format!("blob {h}.{e} {m} {p}"),
            Effect::ClearSelection(p) => format!("clear {p}"),
            Effect::SaveHistory => "save history".to_string(),
            Effect::SaveEmojiRecents => "save emoji".to_string(),
            Effect::SaveColorRecents => "save colors".to_string(),
            Effect::CollectBlobs(k) => format!("gc {}", k.len()),
            Effect::FocusSearch => "focus".to_string(),
            Effect::OpenSettings => "settings".to_string(),
        })
        .collect()
}

#[test]
fn toggle_popup_opens_and_closes() {
    let mut a = app();
    a.search = "x".into();
    assert_eq!(describe(&a.update(Message::TogglePopup)), vec!["open"]);
    assert!(a.popup_open);
    assert_eq!(a.search, "");
    assert_eq!(describe(&a.update(Message::TogglePopup)), vec!["close"]);
    assert!(!a.popup_open);
}

#[test]
fn captured_text_is_republished_and_saved() {
    let mut a = app();
    let e = a.update(Message::Captured(text("hello"), 50, true));
    assert_eq!(describe(&e), vec!["write hello false", "write hello true", "save history", "gc 0"]);
    assert_eq!(a.history.len(), 1);
}

#[test]
fn captured_respects_history_size() {
    let mut a = app();
    for s in ["a", "b", "c"] {
        a.update(Message::Captured(text(s), 0, true));
    }
    assert_eq!(a.history.len(), 1);
    assert_eq!(a.history.get(0).unwrap().text, "c");
}

#[test]
fn pick_clipboard_writes_and_closes() {
    let mut a = app();
    a.update(Message::Captured(text("hello"), 50, true));
    a.update(Message::TogglePopup);
    let e = a.update(Message::PickClipboard(0));
    assert_eq!(describe(&e), vec!["write hello false", "write hello true", "close"]);
    let e = a.update(Message::PickClipboard(5));
    assert!(e.is_empty());
}

#[test]
fn pick_image_writes_blob_and_clears_primary() {
    let mut a = app();
    let img = Entry {
        payload: Payload::Image { blob: "h".into(), mime: "image/png".into(), ext: "png".into(), bytes: 1 },
        ..text("[image]")
    };
    let e = a.update(Message::Captured(img, 50, true));
    assert_eq!(describe(&e), vec!["clear true", "save history", "gc 1"]);
    let e = a.update(Message::PickClipboard(0));
    assert_eq!(describe(&e), vec!["blob h.png image/png false", "clear true"]);
}

#[test]
fn pick_by_number_uses_filter() {
    let mut a = app();
    for s in ["apple", "banana", "Apricot"] {
        a.update(Message::Captured(text(s), 50, true));
    }
    a.update(Message::Search("ap".into()));
    let e = a.update(Message::PickByNumber(1));
    assert_eq!(describe(&e), vec!["write apple false", "write apple true"]);
    assert!(a.update(Message::PickByNumber(2)).is_empty());
}

#[test]
fn pick_color_normalizes_and_remembers() {
    let mut a = app();
    let e = a.update(Message::PickColor("#ABC".into()));
    assert_eq!(describe(&e), vec!["save colors", "write #aabbcc false", "write #aabbcc true"]);
    assert_eq!(a.color_recents.iter()[0], "#aabbcc");
    let e = a.update(Message::PickColor("nope".into()));
    assert!(e.is_empty());
}

#[test]
fn pick_emoji_remembers() {
    let mut a = app();
    let e = a.update(Message::PickEmoji("🎉".into()));
    assert_eq!(describe(&e), vec!["save emoji", "write 🎉 false", "write 🎉 true"]);
    assert_eq!(a.emoji_recents.iter()[0], "🎉");
}

#[test]
fn clear_keeps_pins_and_wipes_clipboards() {
    let mut a = app();
    a.update(Message::Captured(text("a"), 50, true));
    a.update(Message::Captured(text("b"), 50, true));
    assert_eq!(describe(&a.update(Message::TogglePin(1))), vec!["save history"]);
    let e = a.update(Message::ClearClipboard);
    assert_eq!(describe(&e), vec!["save history", "gc 0", "clear false", "clear true"]);
    assert_eq!(a.history.len(), 1);
    assert_eq!(a.history.get(0).unwrap().text, "a");
    assert!(a.update(Message::TogglePin(9)).is_empty());
}

#[test]
fn tab_focus_hex_and_mirror() {
    let mut a = app();
    a.search = "q".into();
    a.update(Message::Tab(Tab::Emoji));
    assert_eq!(a.tab, Tab::Emoji);
    assert_eq!(a.search, "");
    assert_eq!(describe(&a.update(Message::FocusSearch)), vec!["focus"]);
    assert_eq!(a.tab, Tab::Clipboard);
    a.update(Message::HexInput("#1234567890".into()));
    assert_eq!(a.hex_input, "#123456");
    assert_eq!(describe(&a.update(Message::MirrorPrimary("x".into()))), vec!["write x true"]);
    assert!(a.update(Message::CloseEscape).is_empty());
    a.update(Message::TogglePopup);
    assert_eq!(describe(&a.update(Message::OpenSettings)), vec!["settings", "close"]);
    a.update(Message::TogglePopup);
    a.update(Message::PopupClosed);
    assert!(!a.popup_open);
}

#[test]
fn history_is_saved_only_when_kept_on_disk() {
    let mut a = app();
    let e = a.update(Message::Captured(text("hello"), 50, false));
    assert_eq!(describe(&e), vec!["write hello false", "write hello true", "gc 0"]);
    assert!(!a.persist_history);
    assert!(a.update(Message::TogglePin(0)).is_empty());
    assert_eq!(describe(&a.update(Message::ClearClipboard)), vec!["save history", "gc 0", "clear false", "clear true"]);
    let e = a.update(Message::Captured(text("again"), 50, true));
    assert_eq!(describe(&e), vec!["write again false", "write again true", "save history", "gc 0"]);
    assert_eq!(describe(&a.update(Message::TogglePin(0))), vec!["save history"]);
}
