use nix_mirror::{content_digest, ErrorKind, FetchGuard};

#[test]
fn digest_is_deterministic_and_base32_shaped() {
    let a = content_digest(b"hello");
    let b = content_digest(b"hello");
    assert_eq!(a, b);
    // a SHA-256 digest is 32 bytes, which nix base32 renders as 52 characters
    assert_eq!(a.len(), 52);
    assert_ne!(a, "hello");
    assert_ne!(a, content_digest(b"hello!"));
}

#[test]
fn guard_without_digest_accepts_any_body() {
    let mut guard = FetchGuard::new(None);
    guard.push_chunk(b"some ");
    guard.push_chunk(b"bytes");
    assert!(guard.finish().is_ok());
}

#[test]
fn guard_accepts_a_matching_digest_across_chunks() {
    let expected = content_digest(b"full body");
    let mut guard = FetchGuard::new(Some(expected));
    guard.push_chunk(b"full ");
    guard.push_chunk(b"body");
    assert!(guard.finish().is_ok());
}

#[test]
fn guard_rejects_a_mismatching_digest() {
    let expected = content_digest(b"what the server should have sent");
    let mut guard = FetchGuard::new(Some(expected));
    guard.push_chunk(b"what it sent instead");
    assert_eq!(guard.finish().unwrap_err(), ErrorKind::Integrity);
}

#[test]
fn interrupted_prefix_is_never_promoted() {
    let expected = content_digest(b"the whole file, all of it");
    let mut guard = FetchGuard::new(Some(expected));
    // the transport died after a few bytes; the prefix must not pass the check
    guard.push_chunk(b"the whole f");
    assert_eq!(guard.finish().unwrap_err(), ErrorKind::Integrity);
}

#[test]
fn empty_body_only_passes_with_its_own_digest() {
    let expected = content_digest(b"");
    let guard = FetchGuard::new(Some(expected));
    assert!(guard.finish().is_ok());

    let expected = content_digest(b"not empty");
    let guard = FetchGuard::new(Some(expected));
    assert_eq!(guard.finish().unwrap_err(), ErrorKind::Integrity);
}
