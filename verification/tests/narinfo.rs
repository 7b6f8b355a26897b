use nix_mirror::{parse_narinfo, ErrorKind};

#[test]
fn parses_a_full_document() {
    let doc =
        parse_narinfo("URL: nar/abc.nar.xz\nReferences: aaaa-foo bbbb-bar\nFileHash: sha256:deadbeef\n")
            .unwrap();
    assert_eq!(doc.content_url, "nar/abc.nar.xz");
    assert_eq!(doc.references, vec!["aaaa".to_string(), "bbbb".to_string()]);
    assert_eq!(doc.content_digest, "deadbeef");
}

#[test]
fn parses_without_trailing_newline() {
    let doc = parse_narinfo("URL: nar/x.nar\nFileHash: sha256:00ff").unwrap();
    assert_eq!(doc.content_url, "nar/x.nar");
    assert_eq!(doc.content_digest, "00ff");
}

#[test]
fn references_default_to_empty() {
    let doc = parse_narinfo("URL: nar/x.nar\nFileHash: sha256:00ff\n").unwrap();
    assert!(doc.references.is_empty());
}

#[test]
fn missing_url_is_a_parse_error() {
    let err = parse_narinfo("FileHash: sha256:00ff\n").unwrap_err();
    assert_eq!(err, ErrorKind::Parse);
}

#[test]
fn missing_filehash_is_a_parse_error() {
    let err = parse_narinfo("URL: nar/x.nar\n").unwrap_err();
    assert_eq!(err, ErrorKind::Parse);
}

#[test]
fn line_without_separator_is_a_parse_error() {
    let err = parse_narinfo("URL nar/x.nar\nFileHash: sha256:00ff\n").unwrap_err();
    assert_eq!(err, ErrorKind::Parse);
}

#[test]
fn empty_line_is_a_parse_error() {
    let err = parse_narinfo("URL: nar/x.nar\n\nFileHash: sha256:00ff\n").unwrap_err();
    assert_eq!(err, ErrorKind::Parse);
}

#[test]
fn last_occurrence_of_a_key_wins() {
    let doc = parse_narinfo("URL: nar/first.nar\nFileHash: sha256:00ff\nURL: nar/second.nar\n")
        .unwrap();
    assert_eq!(doc.content_url, "nar/second.nar");
}

#[test]
fn unrecognized_keys_are_ignored() {
    let doc = parse_narinfo(
        "StorePath: /nix/store/aaaa-foo\nURL: nar/x.nar\nCompression: xz\nFileHash: sha256:00ff\n",
    )
    .unwrap();
    assert_eq!(doc.content_url, "nar/x.nar");
    assert_eq!(doc.content_digest, "00ff");
}

#[test]
fn filehash_without_colon_is_a_parse_error() {
    let err = parse_narinfo("URL: nar/x.nar\nFileHash: deadbeef\n").unwrap_err();
    assert_eq!(err, ErrorKind::Parse);
}

#[test]
fn filehash_keeps_everything_after_the_first_colon() {
    let doc = parse_narinfo("URL: nar/x.nar\nFileHash: sha256:aa:bb\n").unwrap();
    assert_eq!(doc.content_digest, "aa:bb");
}

#[test]
fn reference_tokens_collapse_repeated_whitespace() {
    let doc =
        parse_narinfo("URL: nar/x.nar\nReferences:  aaaa-foo   bbbb-bar \nFileHash: sha256:00ff\n")
            .unwrap();
    assert_eq!(doc.references, vec!["aaaa".to_string(), "bbbb".to_string()]);
}

#[test]
fn later_references_line_replaces_earlier() {
    let doc = parse_narinfo(
        "URL: nar/x.nar\nReferences: aaaa-foo\nFileHash: sha256:00ff\nReferences: cccc-baz\n",
    )
    .unwrap();
    assert_eq!(doc.references, vec!["cccc".to_string()]);
}

#[test]
fn carriage_returns_before_newlines_are_stripped() {
    let doc = parse_narinfo(
        "URL: nar/x.nar\r\nReferences: aaaa-foo\r\nFileHash: sha256:00ff\r\n",
    )
    .unwrap();
    assert_eq!(doc.content_url, "nar/x.nar");
    assert_eq!(doc.references, vec!["aaaa".to_string()]);
    assert_eq!(doc.content_digest, "00ff");
}

#[test]
fn reference_tokens_split_on_unicode_whitespace() {
    let doc = parse_narinfo(
        "URL: nar/x.nar\nReferences: aaaa-foo\u{000C}bbbb-bar\u{00A0}cccc-baz\nFileHash: sha256:00ff\n",
    )
    .unwrap();
    assert_eq!(
        doc.references,
        vec!["aaaa".to_string(), "bbbb".to_string(), "cccc".to_string()]
    );
}
