use nix_mirror::{filename_to_narinfo_hash, store_path_to_narinfo_hash};

#[test]
fn filename_hash_from_store_filename() {
    let hash =
        filename_to_narinfo_hash("0001w2k3pgl0pkrn827dxiibvc2sibnd-singleton-bool-0.1.5.tar.gz.drv")
            .unwrap();
    assert_eq!(hash, "0001w2k3pgl0pkrn827dxiibvc2sibnd");
}

#[test]
fn store_path_hash_from_full_path() {
    let hash = store_path_to_narinfo_hash(
        "/nix/store/0001w2k3pgl0pkrn827dxiibvc2sibnd-singleton-bool-0.1.5.tar.gz.drv",
    )
    .unwrap();
    assert_eq!(hash, "0001w2k3pgl0pkrn827dxiibvc2sibnd");
}

#[test]
fn store_path_hash_from_short_path() {
    let hash = store_path_to_narinfo_hash("/store/0001xyz-pkg-1.0.drv").unwrap();
    assert_eq!(hash, "0001xyz");
}

#[test]
fn filename_without_dash_is_kept_whole() {
    assert_eq!(filename_to_narinfo_hash("abcdef").unwrap(), "abcdef");
}

#[test]
fn store_path_without_slash_is_one_component() {
    assert_eq!(store_path_to_narinfo_hash("0001xyz-pkg").unwrap(), "0001xyz");
}
