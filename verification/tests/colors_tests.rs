use cosmic_pick::colors::{hex_to_rgb, PALETTE};
use cosmic_pick::emoji_recents::EmojiRecents;
use cosmic_pick::recent_colors::{normalize_hex, RecentColors};

#[test]
fn normalize_six_digits() {
    assert_eq!(normalize_hex("#3B82F6").as_deref(), Some("#3b82f6"));
    assert_eq!(normalize_hex("3b82f6").as_deref(), Some("#3b82f6"));
    assert_eq!(normalize_hex("  #AbCdEf \n").as_deref(), Some("#abcdef"));
    assert_eq!(normalize_hex("##123456").as_deref(), Some("#123456"));
}

#[test]
fn normalize_three_digits() {
    assert_eq!(normalize_hex("#fff").as_deref(), Some("#ffffff"));
    assert_eq!(normalize_hex("a1C").as_deref(), Some("#aa11cc"));
}

#[test]
fn normalize_rejects_bad_input() {
    assert_eq!(normalize_hex(""), None);
    assert_eq!(normalize_hex("#12345"), None);
    assert_eq!(normalize_hex("#gggggg"), None);
    assert_eq!(normalize_hex("#+ff"), None);
}

#[test]
fn normalize_accepts_only_hex_digits() {
    assert_eq!(normalize_hex("+f+f+f"), None);
    assert_eq!(normalize_hex("+fffff"), None);
    assert_eq!(normalize_hex("-fffff"), None);
    assert_eq!(normalize_hex("#ff ff f"), None);
}

#[test]
fn normalize_is_idempotent_on_examples() {
    for input in ["#fff", "#3B82F6", "abc"] {
        let once = normalize_hex(input).unwrap();
        assert_eq!(normalize_hex(&once).as_deref(), Some(once.as_str()));
    }
}

#[test]
fn hex_to_rgb_parses() {
    assert_eq!(hex_to_rgb("#3b82f6"), (59, 130, 246));
    assert_eq!(hex_to_rgb("ffffff"), (255, 255, 255));
}

#[test]
fn hex_to_rgb_falls_back_to_gray() {
    assert_eq!(hex_to_rgb("#fff"), (128, 128, 128));
    assert_eq!(hex_to_rgb("#zz0000"), (128, 128, 128));
    assert_eq!(hex_to_rgb("#12345g"), (128, 128, 128));
}

#[test]
fn hex_to_rgb_of_every_palette_color() {
    for (_, hex) in PALETTE.iter() {
        let (r, g, b) = hex_to_rgb(hex);
        assert_eq!(format!("#{:02x}{:02x}{:02x}", r, g, b), *hex);
    }
    assert_eq!(PALETTE.len(), 26);
}

#[test]
fn recent_colors_dedup_and_cap() {
    let mut c = RecentColors::new();
    assert!(c.is_empty());
    c.push("#FFF");
    c.push("#000");
    c.push("ffffff");
    let v: Vec<&str> = c.iter().iter().map(|s| s.as_str()).collect();
    assert_eq!(v, vec!["#ffffff", "#000000"]);
    c.push("not a color");
    assert_eq!(c.iter().len(), 2);
    for i in 0..20u32 {
        c.push(&format!("#{:06x}", i + 1));
    }
    assert_eq!(c.iter().len(), 16);
    assert_eq!(c.iter()[0], "#000014");
}

#[test]
fn emoji_recents_dedup_and_cap() {
    let mut e = EmojiRecents::new();
    e.push("");
    assert!(e.is_empty());
    e.push("😀");
    e.push("🎉");
    e.push("😀");
    let v: Vec<&str> = e.iter().iter().map(|s| s.as_str()).collect();
    assert_eq!(v, vec!["😀", "🎉"]);
    for i in 0..30 {
        e.push(&format!("e{i}"));
    }
    assert_eq!(e.iter().len(), 20);
    assert_eq!(e.iter()[0], "e29");
}

#[test]
fn hex_channels_are_hex_digits_only() {
    assert_eq!(hex_to_rgb("#+1+2+3"), (128, 128, 128));
    assert_eq!(hex_to_rgb("##0A0b0C"), (10, 11, 12));
    assert_eq!(hex_to_rgb("#3B82F6"), (59, 130, 246));
}

#[test]
fn non_ascii_colors_do_not_parse() {
    assert_eq!(normalize_hex("\u{e9}a"), None);
    assert_eq!(normalize_hex("a\u{e9}bcd"), None);
    assert_eq!(normalize_hex("#abc").as_deref(), Some("#aabbcc"));
    assert_eq!(normalize_hex("#abcd"), None);
    assert_eq!(hex_to_rgb("a\u{e9}123"), (128, 128, 128));
    assert_eq!(hex_to_rgb("aébcd"), (128, 128, 128));
    assert_eq!(hex_to_rgb("#102030"), (16, 32, 48));
    assert_eq!(hex_to_rgb("\u{e9}\u{e9}\u{e9}"), (128, 128, 128));
    let mut c = RecentColors::new();
    c.push("#123456");
    c.push("\u{e9}a");
    assert_eq!(c.iter().to_vec(), vec!["#123456".to_string()]);
}

#[test]
fn normalized_colors_read_back() {
    for (r, g, b) in [(0u8, 0u8, 0u8), (1, 2, 3), (255, 128, 7), (171, 205, 239)] {
        let lower = format!("#{r:02x}{g:02x}{b:02x}");
        let upper = format!("#{r:02X}{g:02X}{b:02X}");
        assert_eq!(hex_to_rgb(&lower), (r, g, b));
        assert_eq!(hex_to_rgb(&upper), (r, g, b));
        assert_eq!(normalize_hex(&upper).as_deref(), Some(lower.as_str()));
    }
}
