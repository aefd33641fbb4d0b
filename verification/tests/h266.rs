//! H.266 NAL headers and profile, tier and level.
use oxideav_bitstream::bit_reader::BitReader;
use oxideav_bitstream::bit_writer::BitWriter;
use oxideav_bitstream::h266::{
    parse_nal_header, parse_profile_tier_level, write_profile_tier_level, VvcProfileTierLevel,
};
use oxideav_bitstream::BitstreamError;

#[test]
fn nal_header_bits() {
    let h = parse_nal_header(&[0x45, 0x8B]).unwrap();
    assert_eq!(h.nuh_reserved_zero_bit, 1);
    assert_eq!(h.nuh_layer_id, 5);
    assert_eq!(h.nal_unit_type, 17);
    assert_eq!(h.nuh_temporal_id_plus1, 3);
    assert!(matches!(parse_nal_header(&[0x00]), Err(BitstreamError::UnexpectedEnd(_))));
    assert!(matches!(parse_nal_header(&[0x80, 0x01]), Err(BitstreamError::InvalidData(_))));
}

#[test]
fn profile_tier_level_round_trips() {
    let mut gci_bits = vec![0; 71];
    gci_bits[4] = 1;
    gci_bits.extend_from_slice(&[1, 0, 1]);
    let ptl = VvcProfileTierLevel {
        general_profile_idc: Some(1),
        general_tier_flag: Some(0),
        general_level_idc: 67,
        ptl_frame_only_constraint_flag: 1,
        ptl_multilayer_enabled_flag: 0,
        ptl_sublayer_level_present_flag: vec![1, 0],
        sublayer_level_idc: vec![51],
        general_sub_profile_idc: vec![0xDEAD_BEEF],
        gci_present_flag: true,
        gci_bits,
    };
    let mut w = BitWriter::new();
    write_profile_tier_level(&mut w, &ptl, true, 2).unwrap();
    let bytes = w.finish();
    let mut r = BitReader::new(&bytes);
    assert_eq!(parse_profile_tier_level(&mut r, true, 2).unwrap(), ptl);
    // The same value is not one without profile and tier, nor of other sublayers.
    let mut w = BitWriter::new();
    assert!(matches!(write_profile_tier_level(&mut w, &ptl, false, 2), Err(BitstreamError::InvalidData(_))));
    assert!(matches!(write_profile_tier_level(&mut w, &ptl, true, 1), Err(BitstreamError::InvalidData(_))));
}
