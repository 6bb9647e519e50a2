use bonk::error::BonkError;
use bonk::flatten::{
    classify_entry, determine_file_format, opaque_whiteout_dir, regular_whiteout_target,
    safe_join, verify_inside_rootfs, EntryKind, LayerFormat, WhiteoutSkip,
};

#[test]
fn test_determine_file_format_gzip() {
    assert_eq!(determine_file_format(&[0x1F, 0x8B, 0x00]).unwrap().as_str(), "gzip");
}

#[test]
fn test_determine_file_format_zstd() {
    assert_eq!(determine_file_format(&[0x28, 0xB5, 0x00]).unwrap().as_str(), "zstd");
}

#[test]
fn test_determine_file_format_raw() {
    assert_eq!(determine_file_format(&[0x00, 0x00, 0x00]).unwrap().as_str(), "raw");
}

#[test]
fn test_determine_file_format_too_short() {
    assert!(determine_file_format(&[0x1F]).is_err());
    assert_eq!(determine_file_format(&[]), Err(BonkError::LayerTooShort));
}

#[test]
fn determine_file_format_needs_both_magic_bytes() {
    assert_eq!(determine_file_format(&[0x1F, 0xB5]), Ok(LayerFormat::Raw));
    assert_eq!(determine_file_format(&[0x28, 0x8B]), Ok(LayerFormat::Raw));
    assert_eq!(determine_file_format(&[0x28, 0xB5]), Ok(LayerFormat::Zstd));
}

#[test]
fn safe_join_normalizes_and_refuses_escapes() {
    assert_eq!(safe_join("/r", "etc/passwd").as_deref(), Some("/r/etc/passwd"));
    assert_eq!(safe_join("/r", "./etc/./passwd").as_deref(), Some("/r/etc/passwd"));
    assert_eq!(safe_join("/r", "etc//passwd/").as_deref(), Some("/r/etc/passwd"));
    assert_eq!(safe_join("/r/", "a").as_deref(), Some("/r/a"));
    assert_eq!(safe_join("/r", "").as_deref(), Some("/r"));
    assert_eq!(safe_join("/r", "...").as_deref(), Some("/r/..."));
    assert_eq!(safe_join("/r", "../etc"), None);
    assert_eq!(safe_join("/r", "a/../../etc"), None);
    assert_eq!(safe_join("/r", "/etc/passwd"), None);
}

#[test]
fn test_regular_whiteout_dotdot_injection_is_rejected() {
    // A tar entry named ".wh..." strips to ".." and must not reach the parent of rootfs
    assert_eq!(regular_whiteout_target("/outer/rootfs", ".wh..."), Err(WhiteoutSkip::InvalidName));
    assert_eq!(regular_whiteout_target("/outer/rootfs", "a/.wh.."), Err(WhiteoutSkip::InvalidName));
    assert_eq!(regular_whiteout_target("/outer/rootfs", ".wh."), Err(WhiteoutSkip::InvalidName));
}

#[test]
fn test_regular_whiteout_path_traversal_is_rejected() {
    assert_eq!(regular_whiteout_target("/root", "../../sensitive"), Err(WhiteoutSkip::UnsafePath));
    assert_eq!(regular_whiteout_target("/root", "/etc/.wh.passwd"), Err(WhiteoutSkip::UnsafePath));
}

#[test]
fn test_opaque_whiteout_path_traversal_is_rejected() {
    assert_eq!(opaque_whiteout_dir("/root", "../../.wh..wh..opq"), Err(WhiteoutSkip::UnsafePath));
}

#[test]
fn test_regular_whiteout_removes_file() {
    assert_eq!(regular_whiteout_target("/root", "etc/.wh.passwd").unwrap(), "/root/etc/passwd");
}

#[test]
fn test_regular_whiteout_removes_directory() {
    assert_eq!(
        regular_whiteout_target("/root", "var/cache/.wh.apt").unwrap(),
        "/root/var/cache/apt"
    );
}

#[test]
fn regular_whiteout_without_prefix_uses_the_name() {
    assert_eq!(regular_whiteout_target("/root", "etc/shadow").unwrap(), "/root/etc/shadow");
    assert_eq!(regular_whiteout_target("/root", "./.wh.x").unwrap(), "/root/x");
}

#[test]
fn test_opaque_whiteout_clears_directory_contents() {
    assert_eq!(opaque_whiteout_dir("/root", "var/cache/.wh..wh..opq").unwrap(), "/root/var/cache");
}

#[test]
fn test_opaque_whiteout_root_level() {
    // .wh..wh..opq at the root of the layer: its parent is ""
    assert_eq!(opaque_whiteout_dir("/root", ".wh..wh..opq").unwrap(), "/root");
}

#[test]
fn classify_entries_by_file_name() {
    assert_eq!(classify_entry("var/cache/.wh..wh..opq"), EntryKind::OpaqueWhiteout);
    assert_eq!(classify_entry(".wh..wh..opq"), EntryKind::OpaqueWhiteout);
    assert_eq!(classify_entry("etc/.wh.passwd"), EntryKind::RegularWhiteout);
    assert_eq!(classify_entry("etc/passwd"), EntryKind::Unpack);
    assert_eq!(classify_entry("etc/.wh"), EntryKind::Unpack);
    assert_eq!(classify_entry(".wh.x/.."), EntryKind::Unpack);
    assert_eq!(classify_entry(""), EntryKind::Unpack);
}

#[test]
fn verify_inside_rootfs_compares_components() {
    assert!(verify_inside_rootfs("/tmp/root", "/tmp/root/etc/passwd"));
    assert!(verify_inside_rootfs("/tmp/root", "/tmp/root"));
    assert!(verify_inside_rootfs("/tmp/root/", "/tmp/root/a"));
    assert!(!verify_inside_rootfs("/tmp/root", "/tmp/rootkit/a"));
    assert!(!verify_inside_rootfs("/tmp/root", "/tmp"));
    assert!(!verify_inside_rootfs("/tmp/root", "/etc/passwd"));
}
