//! VP8 frame headers.
use oxideav_bitstream::vp8::{VP8_KEYFRAME_START_CODE, parse_frame_header, parse_keyframe};
use oxideav_bitstream::BitstreamError;

#[test]
fn parse_frame_header_decodes_synthetic_keyframe() {
    // Build a synthetic 3-byte tag: frame_type=0, version=0,
    // show_frame=1, first_part_size=42.
    let first_part_size: u32 = 42;
    let tag: u32 = 0 | (0 << 1) | (1 << 4) | (first_part_size << 5);
    let mut stream = vec![
        (tag & 0xff) as u8,
        ((tag >> 8) & 0xff) as u8,
        ((tag >> 16) & 0xff) as u8,
    ];
    // Keyframe extension: start code + width=8, h_scale=0, height=8, v_scale=0.
    stream.extend_from_slice(&VP8_KEYFRAME_START_CODE);
    stream.extend_from_slice(&8u16.to_le_bytes());
    stream.extend_from_slice(&8u16.to_le_bytes());

    let h = parse_frame_header(&stream).unwrap();
    assert_eq!(h.frame_type, 0);
    assert_eq!(h.version, 0);
    assert!(h.show_frame);
    assert_eq!(h.first_part_size, 42);
    assert_eq!(h.width, 8);
    assert_eq!(h.height, 8);
    assert_eq!(h.horizontal_scale, 0);
    assert_eq!(h.vertical_scale, 0);
}

#[test]
fn parse_keyframe_rejects_interframe_tag() {
    // frame_type bit set → interframe.
    let stream = [0x01u8, 0x00, 0x00];
    assert!(matches!(
        parse_keyframe(&stream),
        Err(BitstreamError::InvalidData(_))
    ));
}

#[test]
fn parse_keyframe_rejects_bad_start_code() {
    let mut stream = vec![0x10u8, 0x00, 0x00]; // tag: keyframe
    stream.extend_from_slice(&[0xAA, 0xBB, 0xCC]); // bad start code
    stream.extend_from_slice(&8u16.to_le_bytes());
    stream.extend_from_slice(&8u16.to_le_bytes());
    assert!(matches!(
        parse_frame_header(&stream),
        Err(BitstreamError::InvalidData(_))
    ));
}

#[test]
fn parse_frame_header_rejects_short_input() {
    let stream = [0u8, 0u8];
    assert!(matches!(
        parse_frame_header(&stream),
        Err(BitstreamError::UnexpectedEnd(_))
    ));
}

#[test]
fn scales_and_sizes_share_a_word() {
    // tag: keyframe, version 3, hidden, first_part_size 0x7FFFF.
    let tag: u32 = (3 << 1) | (0x7_FFFF << 5);
    let mut stream = tag.to_le_bytes()[..3].to_vec();
    stream.extend_from_slice(&VP8_KEYFRAME_START_CODE);
    stream.extend_from_slice(&(0x4000u16 | 640).to_le_bytes());
    stream.extend_from_slice(&(0xC000u16 | 480).to_le_bytes());
    let h = parse_keyframe(&stream).unwrap();
    assert_eq!(h.version, 3);
    assert!(!h.show_frame);
    assert_eq!(h.first_part_size, 0x7_FFFF);
    assert_eq!((h.width, h.horizontal_scale), (640, 1));
    assert_eq!((h.height, h.vertical_scale), (480, 3));
}

#[test]
fn interframe_has_no_size() {
    let h = parse_frame_header(&[0x31, 0x02, 0x00]).unwrap();
    assert_eq!(h.frame_type, 1);
    assert!(h.show_frame);
    assert_eq!(h.first_part_size, (0x0231 >> 5));
    assert_eq!((h.width, h.height), (0, 0));
}

#[test]
fn short_keyframe_is_truncated() {
    assert!(matches!(
        parse_frame_header(&[0x10, 0, 0, 0x9D, 0x01, 0x2A, 8, 0, 8]),
        Err(BitstreamError::UnexpectedEnd(_))
    ));
}
