use bonk::footer::{assemble_image, write_sections, Footer, FOOTER_MAGIC, FOOTER_SIZE};

#[test]
fn test_footer_no_tools_roundtrip() {
    let footer = Footer {
        payload_offset: 1000,
        payload_size: 2000,
        config_size: 300,
        bwrap_size: 0,
        unsquashfs_size: 0,
    };
    let parsed = Footer::from_bytes(&footer.to_bytes()).unwrap();
    assert_eq!(parsed.payload_offset, 1000);
    assert_eq!(parsed.payload_size, 2000);
    assert_eq!(parsed.config_size, 300);
    assert!(!parsed.has_embedded_tools());
}

#[test]
fn test_footer_with_tools_roundtrip() {
    let footer = Footer {
        payload_offset: 1000,
        payload_size: 2000,
        config_size: 300,
        bwrap_size: 400,
        unsquashfs_size: 500,
    };
    let bytes = footer.to_bytes();
    assert_eq!(bytes.len(), FOOTER_SIZE);
    let parsed = Footer::from_bytes(&bytes).unwrap();
    assert_eq!(parsed.bwrap_size, 400);
    assert_eq!(parsed.unsquashfs_size, 500);
}

#[test]
fn test_footer_too_small_returns_none() {
    assert!(Footer::from_bytes(&[0u8; 10]).is_none());
}

#[test]
fn test_footer_wrong_magic_returns_none() {
    // All-zero buffer has no valid magic number
    assert!(Footer::from_bytes(&[0u8; FOOTER_SIZE]).is_none());
}

#[test]
fn has_embedded_tools_needs_both_tools() {
    let with_tools = Footer { payload_offset: 0, payload_size: 0, config_size: 0, bwrap_size: 400, unsquashfs_size: 500 };
    assert!(with_tools.has_embedded_tools());
    let no_tools = Footer { payload_offset: 0, payload_size: 0, config_size: 0, bwrap_size: 0, unsquashfs_size: 0 };
    assert!(!no_tools.has_embedded_tools());
    let only_bwrap = Footer { payload_offset: 0, payload_size: 0, config_size: 0, bwrap_size: 1, unsquashfs_size: 0 };
    assert!(!only_bwrap.has_embedded_tools());
}

#[test]
fn footer_bytes_layout_is_little_endian() {
    let footer = Footer {
        payload_offset: 0x0102030405060708,
        payload_size: 2,
        config_size: 3,
        bwrap_size: 4,
        unsquashfs_size: 5,
    };
    let b = footer.to_bytes();
    assert_eq!(&b[0..8], &[8, 7, 6, 5, 4, 3, 2, 1]);
    assert_eq!(b[8], 2);
    assert_eq!(b[16], 3);
    assert_eq!(b[24], 4);
    assert_eq!(b[32], 5);
    assert_eq!(&b[40..48], &[0u8; 8]);
    assert_eq!(&b[48..56], &FOOTER_MAGIC.to_le_bytes());
}

#[test]
fn footer_is_read_from_the_tail() {
    let footer = Footer { payload_offset: 7, payload_size: 8, config_size: 9, bwrap_size: 10, unsquashfs_size: 11 };
    let mut data = b"some leading bytes".to_vec();
    data.extend_from_slice(&footer.to_bytes());
    assert_eq!(Footer::from_bytes(&data), Some(footer));
}

#[test]
fn footer_offsets_chain() {
    let f = Footer { payload_offset: 3, payload_size: 7, config_size: 16, bwrap_size: 1, unsquashfs_size: 3 };
    assert_eq!(f.bwrap_offset(), 10);
    assert_eq!(f.unsquashfs_offset(), 11);
    assert_eq!(f.config_offset(), 14);
}

#[test]
fn test_write_sections_writes_bytes_in_footer_order() {
    let mut out = Vec::new();
    let footer = write_sections(&mut out, b"RUN", b"PAYLOAD", b"B", b"UNS", br#"{"cmd":["echo"]}"#);
    assert_eq!(footer.payload_offset, 3);
    assert_eq!(footer.payload_size, 7);
    assert_eq!(footer.bwrap_size, 1);
    assert_eq!(footer.unsquashfs_size, 3);
    assert_eq!(footer.config_size, 16);
    assert_eq!(out, b"RUNPAYLOADBUNS{\"cmd\":[\"echo\"]}");
}

#[test]
fn assembled_image_locates_its_sections() {
    let (image, footer) = assemble_image(b"RUN", b"PAYLOAD", b"B", b"UNS", b"{}");
    assert_eq!(image.len(), 3 + 7 + 1 + 3 + 2 + FOOTER_SIZE);
    let parsed = Footer::from_bytes(&image).unwrap();
    assert_eq!(parsed, footer);
    let p = parsed.payload_offset as usize;
    assert_eq!(&image[p..p + parsed.payload_size as usize], b"PAYLOAD");
    let b = parsed.bwrap_offset() as usize;
    assert_eq!(&image[b..b + parsed.bwrap_size as usize], b"B");
    let u = parsed.unsquashfs_offset() as usize;
    assert_eq!(&image[u..u + parsed.unsquashfs_size as usize], b"UNS");
    let c = parsed.config_offset() as usize;
    assert_eq!(&image[c..c + parsed.config_size as usize], b"{}");
}
