use cosmic_pick::uris::{
    format_files_label, local_image_candidate, uri_basename, uri_local_path, uri_names_dir,
};

fn strings(v: &[&str]) -> Vec<String> {
    v.iter().map(|s| s.to_string()).collect()
}

#[test]
fn basename_of_file_uri() {
    assert_eq!(uri_basename("file:///home/u/My%20Doc.txt"), "My Doc.txt");
    assert_eq!(uri_basename("file:///home/u/dir/"), "dir");
    assert_eq!(uri_basename("'/tmp/a b.png'"), "a b.png");
    assert_eq!(uri_basename("\"/x/100%25%2Fdone\""), "100%/done");
    assert_eq!(uri_basename("plain"), "plain");
    assert_eq!(uri_basename("'/home/u/My%20Docs/'"), "My Docs");
    assert_eq!(uri_basename("file:///tmp/a%2520b"), "a%20b");
    assert_eq!(uri_basename("file:///tmp/a%252Fb"), "a%2Fb");
    assert_eq!(uri_basename("file:///tmp/100%"), "100%");
    assert_eq!(uri_basename("///"), "///");
}

#[test]
fn files_label_counts_the_rest() {
    assert_eq!(format_files_label(&strings(&["file:///a/x.txt"])), "x.txt");
    assert_eq!(
        format_files_label(&strings(&["file:///a/x.txt", "file:///a/y", "file:///a/z"])),
        "x.txt + 2 more"
    );
    assert_eq!(format_files_label(&Vec::new()), "");
    let many: Vec<String> = (0..12).map(|i| format!("/f{i}")).collect();
    assert_eq!(format_files_label(&many), "f0 + 11 more");
}

#[test]
fn dir_and_local_path() {
    assert!(uri_names_dir("file:///tmp/"));
    assert!(!uri_names_dir("file:///tmp"));
    assert_eq!(uri_local_path("file:///tmp/a%20b"), "/tmp/a b");
    assert_eq!(uri_local_path("'/tmp/x'"), "/tmp/x");
    assert_eq!(uri_local_path("file:///tmp/a%2520b"), "/tmp/a%20b");
}

#[test]
fn image_candidates() {
    assert_eq!(local_image_candidate(&strings(&["file:///tmp/a.PNG"])).as_deref(), Some("/tmp/a.PNG"));
    assert_eq!(local_image_candidate(&strings(&["/tmp/pic.jpeg", "/x"])).as_deref(), Some("/tmp/pic.jpeg"));
    assert_eq!(local_image_candidate(&strings(&["/tmp/.png"])), None);
    assert_eq!(local_image_candidate(&strings(&["/tmp/a.txt"])), None);
    assert_eq!(local_image_candidate(&strings(&["http://x/a.png"])), None);
    assert_eq!(local_image_candidate(&strings(&["/tmp/a.png/."])).as_deref(), Some("/tmp/a.png/."));
    assert_eq!(local_image_candidate(&Vec::new()), None);
}
