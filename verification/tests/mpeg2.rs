//! MPEG-2 headers.
use oxideav_bitstream::mpeg2::{
    DEFAULT_INTRA_QUANT, DEFAULT_NON_INTRA_QUANT, Mpeg2SequenceHeader, find_first_slice,
    find_start_codes, parse_picture_coding_extension, parse_picture_header,
    parse_sequence_extension, parse_sequence_header, zigzag_to_raster_quant,
};
use oxideav_bitstream::BitstreamError;
use oxideav_bitstream::bit_writer::BitWriter;

#[test]
fn find_start_codes_locates_known_codes() {
    let buf = [
        0, 0, 1, 0xb3, 0xaa, 0xbb, // sequence header
        0, 0, 1, 0xb5, 0xcc, // extension
        0, 0, 1, 0x00, 0xdd, 0xee, // picture header
        0, 0, 1, 0x01, 0xff, // slice 1
    ];
    let codes = find_start_codes(&buf);
    assert_eq!(codes.len(), 4);
    assert_eq!(codes[0].0, 0xb3);
    assert_eq!(codes[1].0, 0xb5);
    assert_eq!(codes[2].0, 0x00);
    assert_eq!(codes[3].0, 0x01);
}

#[test]
fn find_first_slice_returns_offset_of_leading_zeros() {
    let buf = [
        0, 0, 1, 0xb3, 0xaa, // sequence header
        0, 0, 1, 0x00, 0xbb, // picture header
        0, 0, 1, 0x01, 0xcc, // slice 1
    ];
    let off = find_first_slice(&buf).expect("slice present");
    assert_eq!(off, 10);
}

#[test]
fn zigzag_inverse_roundtrip() {
    let zz: [u8; 64] = std::array::from_fn(|i| (i + 1) as u8);
    let raster = zigzag_to_raster_quant(&zz);
    assert_eq!(raster[0], 1); // DC
    assert_eq!(raster[1], 2);
    assert_eq!(raster[8], 3);
}

#[test]
fn parse_sequence_header_too_short() {
    assert!(matches!(
        parse_sequence_header(&[0u8; 4]),
        Err(BitstreamError::UnexpectedEnd(_))
    ));
}

#[test]
fn parse_picture_coding_extension_rejects_wrong_ext_id() {
    // extension id = 1 in the high 4 bits → not picture coding.
    let bytes = [0x10, 0x00, 0x00, 0x00];
    assert!(matches!(
        parse_picture_coding_extension(&bytes),
        Err(BitstreamError::InvalidData(_))
    ));
}

#[test]
fn sequence_header_fields_and_default_matrices() {
    let mut w = BitWriter::new();
    w.write_bits(720, 12);
    w.write_bits(576, 12);
    w.write_bits(2, 4);
    w.write_bits(3, 4);
    w.write_bits(0x3_1234, 18);
    w.write_bit(1);
    w.write_bits(112, 10);
    w.write_bit(1);
    w.write_bit(0);
    w.write_bit(1);
    for i in 0..64 {
        w.write_bits(i + 100, 8);
    }
    let h = parse_sequence_header(&w.finish()).unwrap();
    assert_eq!((h.horizontal_size, h.vertical_size), (720, 576));
    assert_eq!((h.aspect_ratio_information, h.frame_rate_code), (2, 3));
    assert_eq!((h.bit_rate, h.vbv_buffer_size), (0x3_1234, 112));
    assert!(h.constrained_parameters_flag);
    assert!(h.intra_quantiser_matrix.is_none());
    assert_eq!(h.non_intra_quantiser_matrix.unwrap()[63], 163);
    assert_eq!(h.intra_quantizer_matrix_raster()[0], DEFAULT_INTRA_QUANT[0]);
    assert_eq!(h.intra_quantizer_matrix_raster()[8], DEFAULT_INTRA_QUANT[2]);
    let raster = h.non_intra_quantizer_matrix_raster();
    assert_eq!((raster[0], raster[1], raster[8], raster[16], raster[63]), (100, 101, 102, 103, 163));
    let plain = Mpeg2SequenceHeader::default();
    assert_eq!(plain.non_intra_quantizer_matrix_raster(), DEFAULT_NON_INTRA_QUANT);
}

#[test]
fn zigzag_visits_every_raster_position_once() {
    let zz: [u8; 64] = std::array::from_fn(|i| i as u8);
    let raster = zigzag_to_raster_quant(&zz);
    let mut seen = [false; 64];
    for v in raster {
        assert!(!seen[v as usize]);
        seen[v as usize] = true;
    }
    // The scan in raster order.
    let order = [
        0, 1, 8, 16, 9, 2, 3, 10, 17, 24, 32, 25, 18, 11, 4, 5, 12, 19, 26, 33, 40, 48, 41, 34, 27, 20, 13, 6, 7, 14,
        21, 28, 35, 42, 49, 56, 57, 50, 43, 36, 29, 22, 15, 23, 30, 37, 44, 51, 58, 59, 52, 45, 38, 31, 39, 46, 53, 60,
        61, 54, 47, 55, 62, 63,
    ];
    for (i, &r) in order.iter().enumerate() {
        assert_eq!(raster[r], i as u8);
    }
}

#[test]
fn picture_header_vectors_depend_on_the_type() {
    let header = |t: u32| {
        let mut w = BitWriter::new();
        w.write_bits(513, 10);
        w.write_bits(t, 3);
        w.write_bits(0xABCD, 16);
        w.write_bit(1);
        w.write_bits(5, 3);
        w.write_bit(0);
        w.write_bits(6, 3);
        w.write_bits(0, 8);
        parse_picture_header(&w.finish()).unwrap()
    };
    let i = header(1);
    assert_eq!((i.temporal_reference, i.picture_coding_type, i.vbv_delay), (513, 1, 0xABCD));
    assert_eq!(i.f_code, [[0, 0], [0, 0]]);
    let p = header(2);
    assert_eq!(p.full_pel_forward_vector, 1);
    assert_eq!(p.f_code, [[5, 5], [0, 0]]);
    let b = header(3);
    assert_eq!(b.full_pel_backward_vector, 0);
    assert_eq!(b.f_code, [[5, 5], [6, 6]]);
    assert!(matches!(parse_picture_header(&[0; 3]), Err(BitstreamError::UnexpectedEnd(_))));
}

#[test]
fn extensions_parse() {
    let e = parse_picture_coding_extension(&[0x8F, 0x12, 0x3B, 0xFF, 0x80]).unwrap();
    assert_eq!(e.f_code, [[15, 1], [2, 3]]);
    assert_eq!((e.intra_dc_precision, e.picture_structure), (2, 3));
    assert_eq!((e.top_field_first, e.chroma_420_type, e.progressive_frame), (1, 1, 1));
    let s = parse_sequence_extension(&[0x14, 0x8A, 0x00, 0x01, 0x00, 0x00]).unwrap();
    assert_eq!(s.profile_and_level_indication, 0x48);
    assert!(s.progressive_sequence);
    assert_eq!(s.chroma_format, 1);
    assert!(matches!(parse_sequence_extension(&[0x14, 0x8A, 0x00, 0x01, 0x00]), Err(BitstreamError::UnexpectedEnd(_))));
    assert!(matches!(parse_sequence_extension(&[0x84, 0, 0, 0, 0, 0]), Err(BitstreamError::InvalidData(_))));
    assert!(matches!(parse_picture_coding_extension(&[0x80, 0, 0]), Err(BitstreamError::UnexpectedEnd(_))));
}

#[test]
fn start_code_search_edges() {
    assert_eq!(find_start_codes(&[0, 0, 0, 1, 0xB3, 9]), vec![(0xB3, 5)]);
    assert!(find_start_codes(&[0, 0, 1]).is_empty());
    assert_eq!(find_first_slice(&[0, 0, 1, 0xB0, 0, 0, 1, 0xAF]), Some(4));
    assert_eq!(find_first_slice(&[0, 0, 1, 0xB0, 0, 0, 1, 0x00]), None);
    // The code byte itself is not searched.
    assert_eq!(find_start_codes(&[0, 0, 1, 0, 0, 1, 7]), vec![(0, 4)]);
}

#[test]
fn default_intra_matrix_in_raster_order() {
    let raster = Mpeg2SequenceHeader::default().intra_quantizer_matrix_raster();
    let rows: [[u8; 8]; 8] = [
        [8, 16, 19, 22, 26, 27, 29, 34],
        [16, 16, 22, 24, 27, 29, 34, 37],
        [19, 22, 26, 27, 29, 34, 34, 38],
        [22, 22, 26, 27, 29, 34, 37, 40],
        [22, 26, 27, 29, 32, 35, 40, 48],
        [26, 27, 29, 32, 35, 40, 48, 58],
        [26, 27, 29, 34, 38, 46, 56, 69],
        [27, 29, 35, 38, 46, 56, 69, 83],
    ];
    for (y, row) in rows.iter().enumerate() {
        assert_eq!(raster[8 * y..8 * y + 8], row[..]);
    }
    assert_eq!(DEFAULT_INTRA_QUANT[..8], [8, 16, 16, 19, 16, 19, 22, 22]);
    assert_eq!(Mpeg2SequenceHeader::default().non_intra_quantizer_matrix_raster(), [16; 64]);
}

#[test]
fn start_codes_do_not_overlap() {
    // The second code begins in the last byte of the first.
    let b = [0, 0, 1, 0, 0, 1, 0xb3, 9, 0, 0, 1, 0xb8];
    assert_eq!(find_start_codes(&b), vec![(0x00, 4), (0xb8, 12)]);
}
