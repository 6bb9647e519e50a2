use bonk::config::ContainerConfig;
use bonk::error::BonkError;
use bonk::footer::{assemble_image, Footer, FOOTER_SIZE};
use bonk::mounts::is_squashfs_mounted;
use bonk::runner::{
    cache_key_input, config_section, footer_of, locate_config, prior_strategy, BinaryData, CachePaths,
    RootfsStrategy,
};

#[test]
fn footer_of_reports_each_error() {
    assert_eq!(footer_of(&[0u8; FOOTER_SIZE - 1]), Err(BonkError::BinaryTooSmall));
    assert_eq!(footer_of(&[0u8; FOOTER_SIZE]), Err(BonkError::NotBonkBinary));
}

fn packed() -> Vec<u8> {
    assemble_image(b"RUNNER", b"SQUASHFS", b"BW", b"UNSQ", br#"{"cmd":["sh"]}"#).0
}

#[test]
fn runner_reads_back_what_was_packed() {
    let exe = packed();
    let footer = footer_of(&exe).unwrap();
    assert_eq!(config_section(&exe, &footer), br#"{"cmd":["sh"]}"#);
    let binary = BinaryData { exe_data: exe, footer, config: ContainerConfig::default() };
    assert_eq!(binary.payload(), b"SQUASHFS");
    assert_eq!(binary.bwrap(), b"BW");
    assert_eq!(binary.unsquashfs(), b"UNSQ");
    assert!(binary.footer.has_embedded_tools());
}

#[test]
fn cache_paths_layout() {
    let c = CachePaths::for_key(0x0123_4567_89ab_cdef);
    assert_eq!(c.dir, "/tmp/bonk-0123456789abcdef");
    assert_eq!(c.rootfs, "/tmp/bonk-0123456789abcdef/rootfs");
    assert_eq!(c.sqfs, "/tmp/bonk-0123456789abcdef/rootfs.sqfs");
    assert_eq!(c.marker, "/tmp/bonk-0123456789abcdef/.bonk-ready");
    assert_eq!(CachePaths::for_key(0).dir, "/tmp/bonk-0000000000000000");
}

#[test]
fn cache_paths_of_a_binary() {
    let exe = packed();
    let footer = Footer::from_bytes(&exe).unwrap();
    let binary = BinaryData { exe_data: exe, footer, config: ContainerConfig::default() };
    let a = CachePaths::new(&binary);
    let b = CachePaths::new(&binary);
    assert_eq!(a.dir, b.dir);
    assert!(a.dir.starts_with("/tmp/bonk-"));
    let hex = &a.dir["/tmp/bonk-".len()..];
    assert_eq!(hex.len(), 16);
    assert!(hex.chars().all(|c| c.is_ascii_hexdigit() && !c.is_ascii_uppercase()));
    assert_eq!(a.rootfs, format!("{}/rootfs", a.dir));
}

#[test]
fn marker_round_trip() {
    for s in [RootfsStrategy::Mounted, RootfsStrategy::Extracted] {
        assert_eq!(prior_strategy(Some(s.marker_text())), Some(s));
    }
    assert_eq!(RootfsStrategy::Mounted.marker_text(), "mount");
    assert_eq!(RootfsStrategy::Extracted.marker_text(), "extract");
    assert_eq!(prior_strategy(Some("mount\n")), None);
    assert_eq!(prior_strategy(None), None);
    assert!(RootfsStrategy::from_mounted(true).read_only());
    assert!(!RootfsStrategy::from_mounted(false).read_only());
}

#[test]
fn squashfs_mount_detection() {
    let mounts = "proc /proc proc rw 0 0\n/dev/loop3 /tmp/bonk-1/rootfs squashfs ro,relatime 0 0\n";
    assert!(is_squashfs_mounted(mounts, "/tmp/bonk-1/rootfs"));
    assert!(!is_squashfs_mounted(mounts, "/tmp/bonk-2/rootfs"));
    assert!(!is_squashfs_mounted(mounts, "/proc"));
    assert!(is_squashfs_mounted("d /m squashfs\r\nx", "/m"));
    assert!(!is_squashfs_mounted("d /m squashfs\r", "/m"));
    assert!(!is_squashfs_mounted("", ""));
}

#[test]
fn locate_config_checks_the_config_range() {
    let exe = packed();
    let (footer, config) = locate_config(&exe).unwrap();
    assert_eq!(footer.payload_offset, 6);
    assert_eq!(config, br#"{"cmd":["sh"]}"#);
    assert_eq!(locate_config(&[0u8; 3]).err(), Some(BonkError::BinaryTooSmall));
    assert_eq!(locate_config(&[0u8; FOOTER_SIZE]).err(), Some(BonkError::NotBonkBinary));
    // a footer whose config section lies past the end of the binary
    let bad = Footer { payload_offset: 0, payload_size: 0, config_size: 100, bwrap_size: 0, unsquashfs_size: 0 };
    assert_eq!(locate_config(&bad.to_bytes()).err(), Some(BonkError::SectionOutOfRange));
    // offsets whose sum overflows u64
    let huge = Footer { payload_offset: u64::MAX, payload_size: u64::MAX, config_size: 1, bwrap_size: 0, unsquashfs_size: 0 };
    assert_eq!(locate_config(&huge.to_bytes()).err(), Some(BonkError::SectionOutOfRange));
}

#[test]
fn from_parts_checks_payload_and_tools() {
    let exe = packed();
    let footer = footer_of(&exe).unwrap();
    assert!(BinaryData::from_parts(exe.clone(), footer, ContainerConfig::default()).is_ok());
    let mut bad = footer;
    bad.payload_size = exe.len() as u64;
    assert_eq!(
        BinaryData::from_parts(exe.clone(), bad, ContainerConfig::default()).err().map(|_| ()),
        Some(())
    );
    let mut bad_tools = footer;
    bad_tools.unsquashfs_size = exe.len() as u64;
    assert!(BinaryData::from_parts(exe.clone(), bad_tools, ContainerConfig::default()).is_err());
    // tools are not checked when none are embedded
    let mut no_tools = footer;
    no_tools.bwrap_size = 0;
    no_tools.unsquashfs_size = u64::MAX;
    assert!(BinaryData::from_parts(exe, no_tools, ContainerConfig::default()).is_ok());
}

#[test]
fn cache_key_covers_head_and_length() {
    let small = [7u8; 10];
    assert_eq!(cache_key_input(&small), (&small[..], 10));
    let big = vec![1u8; 5000];
    let (head, len) = cache_key_input(&big);
    assert_eq!(head.len(), 4096);
    assert_eq!(len, 5000);
    // payloads that differ get different cache directories here
    let other = packed_with(b"OTHER PAYLOAD");
    let a = CachePaths::new(&binary_of(packed()));
    let b = CachePaths::new(&binary_of(other));
    assert_ne!(a.dir, b.dir);
}

fn packed_with(payload: &[u8]) -> Vec<u8> {
    assemble_image(b"RUNNER", payload, b"BW", b"UNSQ", b"{}").0
}

fn binary_of(exe: Vec<u8>) -> BinaryData {
    let footer = footer_of(&exe).unwrap();
    BinaryData::from_parts(exe, footer, ContainerConfig::default()).ok().unwrap()
}
