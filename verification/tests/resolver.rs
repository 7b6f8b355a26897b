use nix_mirror::{
    content_path, content_url, metadata_path, metadata_url, parse_narinfo, plan_content_fetch,
    plan_metadata_fetch,
};

#[test]
fn metadata_path_is_cleaned() {
    assert_eq!(metadata_path("mirror/.", "abc"), "mirror/abc.narinfo");
}

#[test]
fn content_path_normalizes_redundant_separators() {
    assert_eq!(content_path("mirror", "nar//x.nar.xz"), "mirror/nar/x.nar.xz");
    assert_eq!(content_path("mirror/", "./nar/x.nar.xz"), "mirror/nar/x.nar.xz");
}

#[test]
fn urls_join_base_and_relative_location() {
    assert_eq!(metadata_url("https://cache.example", "abc"), "https://cache.example/abc.narinfo");
    assert_eq!(content_url("https://cache.example", "nar/x.nar.xz"), "https://cache.example/nar/x.nar.xz");
}

#[test]
fn present_metadata_plans_no_fetch() {
    assert!(plan_metadata_fetch(true, "https://cache.example", "abc").is_none());
    let url = plan_metadata_fetch(false, "https://cache.example", "abc").unwrap();
    assert_eq!(url, "https://cache.example/abc.narinfo");
}

#[test]
fn present_content_plans_no_fetch() {
    let doc = parse_narinfo("URL: nar/abc.nar.xz\nFileHash: sha256:deadbeef\n").unwrap();
    assert!(plan_content_fetch(true, "https://cache.example", &doc).is_none());
    let req = plan_content_fetch(false, "https://cache.example", &doc).unwrap();
    assert_eq!(req.url, "https://cache.example/nar/abc.nar.xz");
    assert_eq!(req.expected_digest, "deadbeef");
}
