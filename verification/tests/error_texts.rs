//! The texts of errors, with the values they speak of.
use oxideav_bitstream::BitstreamError;
use oxideav_bitstream::bit_writer::BitWriter;
use oxideav_bitstream::h266::aps::parse_aps_rbsp;
use oxideav_bitstream::h266::params::{VvcDpbParameters, write_dpb_parameters};
use oxideav_bitstream::h266::pps::{VvcPps, VvcPpsChromaToolOffsets, write_pps};
use oxideav_bitstream::h266::sps::parse_sps;
use oxideav_bitstream::h266::{sei as vvc_sei, vps};
use oxideav_bitstream::hevc;
use oxideav_bitstream::ivf;
use oxideav_bitstream::message::Message;
use oxideav_bitstream::mpeg2;
use oxideav_bitstream::nal;
use oxideav_bitstream::vc1;
use oxideav_bitstream::vp8;

fn invalid(text: &str) -> BitstreamError {
    BitstreamError::InvalidData(text.to_string())
}

fn end(text: &str) -> BitstreamError {
    BitstreamError::UnexpectedEnd(text.to_string())
}

#[test]
fn messages_hold_numbers() {
    let e = Message::new("a ").num(0).with(" b ").num(-1205).with(" ").hex(0x0f).with(".").invalid();
    assert_eq!(e, invalid("a 0 b -1205 0f."));
    assert_eq!(e.to_string(), "invalid bitstream data: a 0 b -1205 0f.");
    assert_eq!(Message::new("").num(i128::MIN).unexpected_end(), end("-170141183460469231731687303715884105728"));
    assert_eq!(Message::new("x").num(i128::MAX).unsupported().to_string(), format!("unsupported bitstream feature: x{}", i128::MAX));
}

#[test]
fn vp8_errors_come_back_unchanged() {
    assert_eq!(vp8::parse_keyframe(&[1, 0, 0]), Err(invalid("expected VP8 keyframe (frame_type=0), got frame_type=1")));
    let frames: [&[u8]; 4] = [&[], &[0, 0], &[0, 0, 0], &[0, 0, 0, 0x9d, 0x01, 0x2b, 0, 0, 0, 0]];
    for frame in frames {
        let e = vp8::parse_frame_header(frame).unwrap_err();
        assert_eq!(vp8::parse_keyframe(frame), Err(e));
    }
    assert_eq!(vp8::parse_frame_header(&[0, 0]), Err(end("VP8 frame shorter than 3 bytes")));
    assert_eq!(
        vp8::parse_frame_header(frames[3]),
        Err(invalid("VP8 keyframe start-code mismatch: [9d, 01, 2b] != 9d 01 2a"))
    );
}

#[test]
fn container_and_framing_errors() {
    let mut b = vec![0u8; 32];
    b[..4].copy_from_slice(b"ABCD");
    assert_eq!(ivf::parse_header(&b).unwrap_err(), invalid("IVF magic mismatch: [65, 66, 67, 68]"));
    b[..4].copy_from_slice(b"DKIF");
    b[4] = 2;
    assert_eq!(ivf::parse_header(&b).unwrap_err(), invalid("IVF version 2 != 0"));
    b[4] = 0;
    b[7] = 1;
    assert_eq!(ivf::parse_header(&b).unwrap_err(), invalid("IVF header_len 256 != 32"));
    assert_eq!(
        nal::split_length_prefixed(&[0, 5, 1], 2).unwrap_err(),
        end("declared NAL length 5 overruns stream (1 bytes left)")
    );
    let mut long = vec![0, 0, 1];
    long.extend(vec![7u8; 300]);
    assert_eq!(
        nal::annex_b_to_length_prefixed(&long, 1).unwrap_err(),
        invalid("NAL unit of 300 bytes does not fit a 1-byte length prefix")
    );
}

#[test]
fn header_errors_name_the_value() {
    assert_eq!(
        mpeg2::parse_picture_coding_extension(&[0x10, 0, 0, 0]).unwrap_err(),
        invalid("MPEG-2 picture_coding_extension: ext_id=1 != 8")
    );
    assert_eq!(
        vc1::parse_sequence_header_advanced(&[0x40, 0, 0, 0, 0, 0]).unwrap_err(),
        BitstreamError::Unsupported("VC-1 profile 1 not supported (only Advanced/3)".to_string())
    );
    assert_eq!(hevc::parse_sps_nal(&[0x40, 0x01]).unwrap_err(), invalid("expected SPS NAL (type=33), got type=32"));
    assert_eq!(hevc::parse_pps_nal(&[0x44]).unwrap_err(), end("PPS NAL shorter than 2 bytes"));
    assert_eq!(hevc::parse_aud_nal(&[0x46]).unwrap_err(), end("AUD NAL needs at least the 2-byte header"));
    assert_eq!(hevc::parse_idr_only(&[1, 2, 3]).unwrap_err(), invalid("no NAL units found in stream"));
    assert_eq!(hevc::parse_idr_only(&[0, 0, 1, 0x26, 0x01]).unwrap_err(), invalid("stream has no VPS"));
}

#[test]
fn parameter_set_errors_name_the_value() {
    assert_eq!(parse_sps(&[0x00, 0x81]).unwrap_err(), invalid("expected SPS NAL (type 15), got 16"));
    assert_eq!(vps::parse_vps(&[0x00]).unwrap_err(), end("H.266 VPS NAL needs at least the 2-byte header"));
    assert_eq!(
        parse_aps_rbsp(&[0xe0, 0]).unwrap_err(),
        BitstreamError::Unsupported("reserved aps_params_type=7 (Table 6; decoders shall ignore such APSs)".to_string())
    );
    let mut w = BitWriter::new();
    assert_eq!(
        write_dpb_parameters(&mut w, &VvcDpbParameters::default(), 3, true).unwrap_err(),
        invalid("dpb_parameters entry count 0 != walked sublayer count 4")
    );
    let mut pps = VvcPps {
        pps_pic_width_in_luma_samples: 16,
        pps_pic_height_in_luma_samples: 16,
        pps_no_pic_partition_flag: 1,
        chroma_tool_offsets: Some(VvcPpsChromaToolOffsets { pps_cb_qp_offset: -13, ..Default::default() }),
        ..Default::default()
    };
    assert_eq!(write_pps(&pps).unwrap_err(), invalid("pps_cb_qp_offset = -13 outside -12..=12 (7.4.3.5)"));
    pps.chroma_tool_offsets = None;
    pps.pps_extension_data = vec![1];
    assert_eq!(write_pps(&pps).unwrap_err(), invalid("pps_extension_data requires pps_extension_flag (7.3.2.5)"));
    pps.pps_extension_flag = 1;
    pps.pps_extension_data = vec![1, 0];
    assert_eq!(
        write_pps(&pps).unwrap_err(),
        invalid(
            "pps_extension_data must end in a 1 bit — a trailing 0 is indistinguishable from \
             rbsp_trailing_bits padding under more_rbsp_data() (7.2)"
        )
    );
}

#[test]
fn sei_errors_name_the_value() {
    assert_eq!(
        vvc_sei::parse_sei_rbsp(&[5, 4, 1]).unwrap_err(),
        end("SEI payloadSize=4 overruns RBSP (1 bytes left)")
    );
    assert_eq!(vvc_sei::parse_sei_rbsp(&[255]).unwrap_err(), end("SEI message truncated in payloadType"));
    assert_eq!(vvc_sei::parse_sei_rbsp(&[5, 255]).unwrap_err(), end("SEI message truncated in payloadSize"));
    assert_eq!(
        vvc_sei::write_sei_rbsp(&[]).unwrap_err(),
        invalid("sei_rbsp() requires at least one sei_message() (§7.3.2.9)")
    );
    assert_eq!(
        hevc::sei::write_sei_rbsp(&[]).unwrap_err(),
        invalid("sei_rbsp() requires at least one sei_message() (§7.3.5)")
    );
    let msg = vvc_sei::SeiMessage { payload_type: 9, payload: vec![] };
    assert_eq!(
        vvc_sei::decode_sei_manifest(&msg).unwrap_err(),
        invalid("expected sei_manifest payloadType 200, got 9")
    );
    let msg = vvc_sei::SeiMessage { payload_type: 200, payload: vec![0, 0, 1] };
    assert_eq!(
        vvc_sei::decode_sei_manifest(&msg).unwrap_err(),
        invalid(
            "sei_payload: trailing bytes after the payload syntax (unsupported payload-extension data, §D.2.1)"
        )
    );
    assert_eq!(
        vvc_sei::parse_sei_nal(&[0x00, 0x81]).unwrap_err(),
        invalid("expected SEI NAL (type 23/24), got 16")
    );
}
