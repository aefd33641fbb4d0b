//! VC-1 headers.
use oxideav_bitstream::vc1::{
    BDU_ENTRY_POINT, BDU_FIELD, BDU_FRAME, BDU_SEQUENCE_HEADER, BDU_SLICE, PROFILE_ADVANCED,
    parse_entry_point_header, parse_first_picture, parse_picture_header,
    parse_sequence_header_advanced, split_bdus,
};
use oxideav_bitstream::BitstreamError;
use oxideav_bitstream::bit_writer::BitWriter;

#[test]
fn split_bdus_finds_seq_entry_frame() {
    let stream = [
        0,
        0,
        1,
        BDU_SEQUENCE_HEADER,
        0xaa,
        0,
        0,
        1,
        BDU_ENTRY_POINT,
        0xbb,
        0,
        0,
        1,
        BDU_FRAME,
        0xcc,
        0xdd,
    ];
    let bdus = split_bdus(&stream);
    assert_eq!(bdus.len(), 3);
    assert_eq!(bdus[0].bdu_type, BDU_SEQUENCE_HEADER);
    assert_eq!(bdus[0].payload, &[0xaa]);
    assert_eq!(bdus[1].bdu_type, BDU_ENTRY_POINT);
    assert_eq!(bdus[1].payload, &[0xbb]);
    assert_eq!(bdus[2].bdu_type, BDU_FRAME);
    assert_eq!(bdus[2].payload, &[0xcc, 0xdd]);
}

#[test]
fn parse_sequence_header_rejects_simple_profile() {
    // A 6-byte buffer where the top 2 bits = 0 (PROFILE = SIMPLE).
    let buf = [0u8; 6];
    assert!(matches!(
        parse_sequence_header_advanced(&buf),
        Err(BitstreamError::Unsupported(_))
    ));
}

#[test]
fn parse_sequence_header_rejects_short_input() {
    assert!(matches!(
        parse_sequence_header_advanced(&[0u8; 2]),
        Err(BitstreamError::UnexpectedEnd(_))
    ));
}

fn sequence_header_bits(interlace: bool, hrd: bool) -> Vec<u8> {
    let mut w = BitWriter::new();
    w.write_bits(PROFILE_ADVANCED as u32, 2);
    w.write_bits(4, 3);
    w.write_bits(1, 2);
    w.write_bits(6, 3);
    w.write_bits(30, 5);
    w.write_bit(1);
    w.write_bits(959, 12);
    w.write_bits(539, 12);
    w.write_bit(1); // pulldown
    w.write_bit(u32::from(interlace));
    w.write_bit(0);
    w.write_bit(1);
    w.write_bit(1); // reserved
    w.write_bit(0);
    w.write_bit(1); // display_ext
    w.write_bits(1919, 14);
    w.write_bits(1079, 14);
    w.write_bit(1);
    w.write_bits(15, 4);
    w.write_bits(16, 8);
    w.write_bits(9, 8);
    w.write_bit(1);
    w.write_bit(1);
    w.write_bits(0x1234, 16);
    w.write_bit(1);
    w.write_bits(1, 8);
    w.write_bits(2, 8);
    w.write_bits(3, 8);
    w.write_bit(u32::from(hrd));
    if hrd {
        w.write_bits(2, 5);
        w.write_bits(7, 4);
        w.write_bits(8, 4);
    }
    w.write_rbsp_trailing_bits();
    w.finish()
}

#[test]
fn sequence_header_with_display_extension() {
    let s = parse_sequence_header_advanced(&sequence_header_bits(true, true)).unwrap();
    assert_eq!((s.level, s.colordiff_format, s.frmrtq_postproc, s.bitrtq_postproc), (4, 1, 6, 30));
    assert_eq!((s.max_coded_width, s.max_coded_height), (960, 540));
    assert!(s.pulldown && s.interlace && !s.tfcntrflag && s.finterpflag && !s.psf);
    assert_eq!((s.display_horiz_size, s.display_vert_size), (1920, 1080));
    assert_eq!((s.aspect_ratio, s.aspect_horiz_size, s.aspect_vert_size), (15, 16, 9));
    assert_eq!((s.framerateind, s.frameratenr, s.frameratedr), (1, 0x1234, 0));
    assert_eq!((s.color_primaries, s.transfer_char, s.matrix_coef), (1, 2, 3));
    assert_eq!((s.hrd_num_leaky_buckets, s.hrd_bit_rate_exponent, s.hrd_buffer_size_exponent), (2, 7, 8));
}

#[test]
fn entry_point_skips_one_fullness_byte_per_bucket() {
    let seq = parse_sequence_header_advanced(&sequence_header_bits(false, true)).unwrap();
    let mut w = BitWriter::new();
    w.write_bits(0b0100001, 7); // closed_entry, extended_mv
    w.write_bits(2, 2);
    w.write_bits(0b01, 2);
    w.write_bits(3, 2);
    w.write_bits(0xFFFF, 16); // two buckets
    w.write_bit(1);
    w.write_bits(99, 12);
    w.write_bits(49, 12);
    w.write_bit(1); // extended_dmv
    w.write_bit(1);
    w.write_bits(5, 3);
    w.write_bit(0);
    w.write_rbsp_trailing_bits();
    let bytes = w.finish();
    let e = parse_entry_point_header(&bytes, &seq).unwrap();
    assert!(e.closed_entry && e.extended_mv && e.overlap && !e.vstransform);
    assert_eq!((e.dquant, e.quantizer), (2, 3));
    assert_eq!((e.coded_width, e.coded_height), (100, 50));
    assert!(e.extended_dmv && e.range_mapy_flag && !e.range_mapuv_flag);
    assert_eq!(e.range_mapy, 5);
    assert!(matches!(parse_entry_point_header(&[], &seq), Err(BitstreamError::UnexpectedEnd(_))));
}

#[test]
fn picture_types_of_each_coding_mode() {
    let progressive = parse_sequence_header_advanced(&sequence_header_bits(false, false)).unwrap();
    let interlaced = parse_sequence_header_advanced(&sequence_header_bits(true, false)).unwrap();
    for (byte, want) in [(0x00, 1), (0x80, 2), (0xC0, 0), (0xE0, 3), (0xF0, 4)] {
        let h = parse_picture_header(&[byte], &progressive).unwrap();
        assert_eq!((h.fcm, h.picture_type), (0, want));
        let h = parse_picture_header(&[byte >> 1], &interlaced).unwrap();
        assert_eq!((h.fcm, h.picture_type), (0, want));
    }
    let h = parse_picture_header(&[0b1010_1000], &interlaced).unwrap();
    assert_eq!((h.fcm, h.picture_type), (2, 0b101));
    let h = parse_picture_header(&[0b1101_1000], &interlaced).unwrap();
    assert_eq!((h.fcm, h.picture_type), (3, 0b011));
    assert!(matches!(parse_picture_header(&[], &interlaced), Err(BitstreamError::UnexpectedEnd(_))));
}

fn bdu(t: u8, body: &[u8]) -> Vec<u8> {
    let mut v = vec![0, 0, 1, t];
    v.extend_from_slice(body);
    v
}

#[test]
fn first_picture_follows_its_headers() {
    let seq = sequence_header_bits(false, false);
    // An entry point and a frame in front of the sequence header are passed over.
    let stream = [
        bdu(BDU_FRAME, &[0x00, 0x11]),
        bdu(BDU_ENTRY_POINT, &[0x80, 0x00]),
        bdu(BDU_SEQUENCE_HEADER, &seq),
        bdu(BDU_FRAME, &[0x80, 0x22]),
        bdu(BDU_ENTRY_POINT, &[0x40, 0x00]),
        bdu(BDU_FRAME, &[0xC0, 0x33]),
    ]
    .concat();
    let p = parse_first_picture(&stream).unwrap();
    assert_eq!(p.sequence_header.max_coded_width, 960);
    assert!(p.entry_point.closed_entry && !p.entry_point.broken_link);
    assert_eq!(p.picture_header.picture_type, 0);
    assert_eq!(p.frame_payload, &[0xC0, 0x33]);
    let no_frame = [bdu(BDU_SEQUENCE_HEADER, &seq), bdu(BDU_ENTRY_POINT, &[0x40])].concat();
    assert!(matches!(parse_first_picture(&no_frame), Err(BitstreamError::InvalidData(_))));
    assert!(matches!(parse_first_picture(&[]), Err(BitstreamError::InvalidData(_))));
    assert!(matches!(
        parse_first_picture(&bdu(BDU_SEQUENCE_HEADER, &[0xC0])),
        Err(BitstreamError::UnexpectedEnd(_))
    ));
}

#[test]
fn bdus_may_be_empty() {
    let bdus = split_bdus(&[9, 9, 0, 0, 1, BDU_FIELD, 0, 0, 1, BDU_SLICE, 0, 0, 1]);
    assert_eq!(bdus.len(), 2);
    assert!(bdus[0].payload.is_empty());
    assert_eq!(bdus[1].payload, &[0, 0, 1]);
}
