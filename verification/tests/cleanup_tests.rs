use cosmic_pick::cleanup::{cleanup_text, looks_sensitive, preview_label, Sensitivity};

fn sensitivity(t: &str) -> &'static str {
    match looks_sensitive(t) {
        Sensitivity::Sensitive => "yes",
        Sensitivity::NotSensitive => "no",
        Sensitivity::IfHighEntropy(_) => "entropy",
    }
}

#[test]
fn cleanup_strips_bom_and_whitespace() {
    assert_eq!(cleanup_text("\u{feff}  hello  \n"), "hello");
}

#[test]
fn cleanup_strips_csi_sequences() {
    assert_eq!(cleanup_text("\x1b[1;31mred\x1b[0m text"), "red text");
}

#[test]
fn cleanup_strips_osc_sequences() {
    assert_eq!(cleanup_text("\x1b]0;title\x07ls"), "ls");
    assert_eq!(cleanup_text("\x1b]8;;http://x\x1b\\link"), "link");
    assert_eq!(cleanup_text("a\x1b(b"), "ab");
}

#[test]
fn cleanup_strips_shell_prompts() {
    assert_eq!(cleanup_text("$ ls -la"), "ls -la");
    assert_eq!(cleanup_text("PS> dir"), "dir");
    assert_eq!(cleanup_text("\u{276f} git status"), "git status");
    assert_eq!(cleanup_text("echo $ x"), "echo $ x");
}

#[test]
fn cleanup_keeps_internal_whitespace() {
    assert_eq!(cleanup_text("$ cd /tmp\n$ ls"), "cd /tmp\nls");
    assert_eq!(cleanup_text("a\tb"), "a\tb");
    assert_eq!(cleanup_text("\u{feff}$ echo a\n$ echo b\n"), "echo a\necho b");
    assert_eq!(cleanup_text("fn f() {\n    x  =  1;\n}"), "fn f() {\n    x  =  1;\n}");
    assert_eq!(
        cleanup_text("a\thttps://e.com/?utm_source=x&id=1\n\nb"),
        "a\thttps://e.com/?id=1\n\nb"
    );
}

#[test]
fn cleanup_strips_tracking_parameters() {
    assert_eq!(
        cleanup_text("see https://example.com/a?utm_source=x&id=3&fbclid=abc#top now"),
        "see https://example.com/a?id=3#top now"
    );
    assert_eq!(cleanup_text("https://example.com/?utm_medium=mail"), "https://example.com/");
    assert_eq!(cleanup_text("http://e.com/?ref"), "http://e.com/");
    assert_eq!(cleanup_text("ftp://e.com/?utm_source=x"), "ftp://e.com/?utm_source=x");
    assert_eq!(cleanup_text("https://e.com/a?"), "https://e.com/a?");
}

#[test]
fn sensitive_private_key() {
    let key = ["-----BEGIN ", "OPENSSH PRIVATE KEY", "-----\nabc"].concat();
    assert_eq!(sensitivity(&key), "yes");
}

#[test]
fn sensitive_token_prefixes() {
    // Each input is a known prefix followed by a tail, joined at run time.
    let github = ["ghp", "_", "abcdef"].concat();
    let stripe = ["  sk", "-", "live-123"].concat();
    let aws = ["AK", "IA", "IOSFODNN7", "EXAMPLE"].concat();
    assert_eq!(sensitivity(&github), "yes");
    assert_eq!(sensitivity(&stripe), "yes");
    assert_eq!(sensitivity(&aws), "yes");
}

#[test]
fn sensitive_jwt() {
    let jwt = ["eyJhbGciOiJIUzI1NiJ9", "eyJzdWIiOiIxIn0", "sig_nature-1"].join(".");
    assert_eq!(sensitivity(&jwt), "yes");
    assert_eq!(sensitivity("short.a.b"), "no");
    assert_eq!(sensitivity("a.b.c.d"), "no");
}

#[test]
fn token_shaped_depends_on_entropy() {
    let token = ["abcdefghijklm", "nopqrstuvwxyz", "0123456789ABCD"].concat();
    match looks_sensitive(&format!(" {token} ")) {
        Sensitivity::IfHighEntropy(t) => assert_eq!(t, token),
        _ => panic!("expected a token-shaped text"),
    }
}

#[test]
fn plain_text_is_not_sensitive() {
    assert_eq!(sensitivity("hello world"), "no");
    assert_eq!(sensitivity(""), "no");
}

#[test]
fn preview_flattens_and_trims() {
    assert_eq!(preview_label("  a\nb\tc\r ", "(blank)"), "a b c");
}

#[test]
fn preview_of_whitespace_uses_placeholder() {
    assert_eq!(preview_label(" \n\t", "(blank)"), "(blank)");
}

#[test]
fn preview_cuts_long_text() {
    let long = "x".repeat(100);
    let p = preview_label(&long, "");
    assert_eq!(p.chars().count(), 81);
    assert!(p.ends_with('\u{2026}'));
    assert_eq!(preview_label(&"y".repeat(80), ""), "y".repeat(80));
}
