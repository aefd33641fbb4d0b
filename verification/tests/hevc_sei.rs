//! HEVC SEI payloads.
use oxideav_bitstream::hevc::sei::{
    HevcSei, NAL_TYPE_PREFIX_SEI, NAL_TYPE_SUFFIX_SEI, SEI_TYPE_BUFFERING_PERIOD,
    SEI_TYPE_CONTENT_LIGHT_LEVEL_INFO, SEI_TYPE_MASTERING_DISPLAY_COLOUR_VOLUME,
    SEI_TYPE_PIC_TIMING, SEI_TYPE_RECOVERY_POINT, SEI_TYPE_USER_DATA_REGISTERED_ITU_T_T35,
    SEI_TYPE_USER_DATA_UNREGISTERED, SeiBufferingPeriod, SeiContentLightLevel, SeiHrdContext,
    SeiInitialCpbDelays, SeiMasteringDisplayColourVolume, SeiMessage, SeiPicTiming,
    SeiPicTimingDu, SeiRecoveryPoint, SeiUserDataRegisteredItuTT35, SeiUserDataUnregistered,
    decode_buffering_period, decode_pic_timing, decode_sei_message, encode_buffering_period,
    encode_pic_timing, encode_sei_message, parse_sei_nal, parse_sei_rbsp, write_sei_message,
    write_sei_rbsp,
};
use oxideav_bitstream::BitstreamError;
use oxideav_bitstream::hevc::HevcHrdParameters;
use oxideav_bitstream::hevc::{HevcCpbEntry, HevcHrdSubLayer};

#[test]
fn framing_roundtrips_across_size_classes() {
    for &(t, len) in &[
        (SEI_TYPE_RECOVERY_POINT, 2usize),
        (SEI_TYPE_MASTERING_DISPLAY_COLOUR_VOLUME, 24),
        (300, 700),
    ] {
        let msg = SeiMessage {
            payload_type: t,
            payload: (0..len).map(|i| (i % 249 + 1) as u8).collect(),
        };
        let rbsp = write_sei_rbsp(std::slice::from_ref(&msg)).unwrap();
        assert_eq!(parse_sei_rbsp(&rbsp).unwrap(), vec![msg], "t={t} len={len}");
    }
}

#[test]
fn framing_rejects_overrun_and_truncation() {
    assert!(matches!(
        parse_sei_rbsp(&[0x06, 0x0A, 0xAA]).unwrap_err(),
        BitstreamError::UnexpectedEnd(_)
    ));
    assert!(matches!(
        parse_sei_rbsp(&[]).unwrap_err(),
        BitstreamError::UnexpectedEnd(_)
    ));
    assert!(matches!(
        parse_sei_rbsp(&[0xFF]).unwrap_err(),
        BitstreamError::UnexpectedEnd(_)
    ));
}

#[test]
fn mdcv_decodes() {
    let mut w = oxideav_bitstream::bit_writer::BitWriter::new();
    // G/B/R primaries in 0.00002 units.
    for &(x, y) in &[(13250u32, 34500u32), (7500, 3000), (34000, 16000)] {
        w.write_bits(x, 16);
        w.write_bits(y, 16);
    }
    w.write_bits(15635, 16); // white_point_x
    w.write_bits(16450, 16); // white_point_y
    w.write_bits(10_000_000, 32); // 1000 cd/m² in 0.0001 units
    w.write_bits(50, 32); // 0.005 cd/m²
    let msg = SeiMessage {
        payload_type: SEI_TYPE_MASTERING_DISPLAY_COLOUR_VOLUME,
        payload: w.finish(),
    };
    let HevcSei::MasteringDisplayColourVolume(m) = decode_sei_message(&msg).unwrap() else {
        panic!("expected MDCV");
    };
    assert_eq!(m.display_primaries[0], (13250, 34500));
    assert_eq!(m.display_primaries[2], (34000, 16000));
    assert_eq!(m.white_point, (15635, 16450));
    assert_eq!(m.max_display_mastering_luminance, 10_000_000);
    assert_eq!(m.min_display_mastering_luminance, 50);
}

#[test]
fn cll_decodes_and_rejects_short() {
    let msg = SeiMessage {
        payload_type: SEI_TYPE_CONTENT_LIGHT_LEVEL_INFO,
        payload: vec![0x03, 0xE8, 0x01, 0x90],
    };
    let HevcSei::ContentLightLevel(c) = decode_sei_message(&msg).unwrap() else {
        panic!("expected CLL");
    };
    assert_eq!(c.max_content_light_level, 1000);
    assert_eq!(c.max_pic_average_light_level, 400);

    let short = SeiMessage {
        payload_type: SEI_TYPE_CONTENT_LIGHT_LEVEL_INFO,
        payload: vec![0x00; 3],
    };
    assert!(matches!(
        decode_sei_message(&short).unwrap_err(),
        BitstreamError::UnexpectedEnd(_)
    ));
}

#[test]
fn recovery_point_signed_poc_decodes() {
    // recovery_poc_cnt = -2 (se), exact_match=1, broken_link=0.
    let mut w = oxideav_bitstream::bit_writer::BitWriter::new();
    w.write_se(-2).unwrap();
    w.write_bit(1);
    w.write_bit(0);
    w.write_rbsp_trailing_bits();
    let msg = SeiMessage {
        payload_type: SEI_TYPE_RECOVERY_POINT,
        payload: w.finish(),
    };
    let HevcSei::RecoveryPoint(rp) = decode_sei_message(&msg).unwrap() else {
        panic!("expected RecoveryPoint");
    };
    assert_eq!(rp.recovery_poc_cnt, -2);
    assert!(rp.exact_match_flag);
    assert!(!rp.broken_link_flag);
}

#[test]
fn sei_sei_nal_accepts_prefix_and_suffix_types() {
    // Minimal user-data-unregistered message body.
    let mut body = vec![0x05, 16];
    body.extend_from_slice(&[0x42; 16]);
    body.push(0x80);
    for t in [NAL_TYPE_PREFIX_SEI, NAL_TYPE_SUFFIX_SEI] {
        let mut nal = vec![t << 1, 0x01];
        nal.extend_from_slice(&oxideav_bitstream::nal::rbsp_to_ebsp(&body));
        let msgs = parse_sei_nal(&nal).unwrap_or_else(|e| panic!("type {t}: {e:?}"));
        assert_eq!(msgs.len(), 1);
        assert_eq!(msgs[0].payload_type, SEI_TYPE_USER_DATA_UNREGISTERED);
    }
    // A VPS NAL is rejected.
    let nal = [oxideav_bitstream::hevc::NAL_TYPE_VPS << 1, 0x01, 0x05, 0x00, 0x80];
    assert!(matches!(
        parse_sei_nal(&nal).unwrap_err(),
        BitstreamError::InvalidData(_)
    ));
}

#[test]
fn unknown_type_surfaced_raw() {
    let msg = SeiMessage {
        payload_type: 1, // pic_timing — HRD-coupled, not decoded yet
        payload: vec![1, 2, 3],
    };
    let HevcSei::Unknown { payload_type, .. } = decode_sei_message(&msg).unwrap() else {
        panic!("expected Unknown");
    };
    assert_eq!(payload_type, 1);
}

// ──────────── typed encoder + BP/PT round-trips ────────────


fn hrd_ctx_template(
    nal: bool,
    vcl: bool,
    sub_pic: bool,
    cpb_cnt_minus1: u32,
) -> HevcHrdParameters {
    HevcHrdParameters {
        nal_hrd_parameters_present_flag: nal,
        vcl_hrd_parameters_present_flag: vcl,
        sub_pic_hrd_params_present_flag: sub_pic,
        tick_divisor_minus2: 0,
        du_cpb_removal_delay_increment_length_minus1: 7,
        sub_pic_cpb_params_in_pic_timing_sei_flag: sub_pic,
        dpb_output_delay_du_length_minus1: 11,
        bit_rate_scale: 0,
        cpb_size_scale: 0,
        cpb_size_du_scale: 0,
        initial_cpb_removal_delay_length_minus1: 23,
        au_cpb_removal_delay_length_minus1: 15,
        dpb_output_delay_length_minus1: 9,
        sub_layers: vec![HevcHrdSubLayer {
            fixed_pic_rate_general_flag: true,
            fixed_pic_rate_within_cvs_flag: true,
            elemental_duration_in_tc_minus1: Some(0),
            low_delay_hrd_flag: false,
            cpb_cnt_minus1,
            nal_cpb: vec![HevcCpbEntry::default(); cpb_cnt_minus1 as usize + 1],
            vcl_cpb: vec![],
        }],
    }
}

#[test]
fn typed_encoders_roundtrip_through_decode() {
    let cases = vec![
        HevcSei::UserDataRegisteredItuTT35(SeiUserDataRegisteredItuTT35 {
            country_code: 0xB5,
            country_code_extension: None,
            payload: vec![1, 2, 3],
        }),
        HevcSei::UserDataRegisteredItuTT35(SeiUserDataRegisteredItuTT35 {
            country_code: 0xFF,
            country_code_extension: Some(0x10),
            payload: vec![9],
        }),
        HevcSei::UserDataUnregistered(SeiUserDataUnregistered {
            uuid: [0xAB; 16],
            payload: vec![0, 1, 2, 3, 4],
        }),
        HevcSei::RecoveryPoint(SeiRecoveryPoint {
            recovery_poc_cnt: -3,
            exact_match_flag: true,
            broken_link_flag: false,
        }),
        HevcSei::MasteringDisplayColourVolume(SeiMasteringDisplayColourVolume {
            display_primaries: [(13250, 34500), (7500, 3000), (34000, 16000)],
            white_point: (15635, 16450),
            max_display_mastering_luminance: 10_000_000,
            min_display_mastering_luminance: 50,
        }),
        HevcSei::ContentLightLevel(SeiContentLightLevel {
            max_content_light_level: 1000,
            max_pic_average_light_level: 400,
        }),
    ];
    for sei in cases {
        let msg = encode_sei_message(&sei).expect("encodes");
        let back = decode_sei_message(&msg).expect("decodes");
        assert_eq!(back, sei);
        // And the framing survives a full RBSP round-trip.
        let rbsp = write_sei_rbsp(std::slice::from_ref(&msg)).unwrap();
        assert_eq!(parse_sei_rbsp(&rbsp).unwrap(), vec![msg]);
    }
}

#[test]
fn t35_extension_presence_is_enforced() {
    let bad = HevcSei::UserDataRegisteredItuTT35(SeiUserDataRegisteredItuTT35 {
        country_code: 0xB5,
        country_code_extension: Some(1),
        payload: vec![],
    });
    assert!(encode_sei_message(&bad).is_err());
}

#[test]
fn buffering_period_roundtrips_nal_only() {
    let hrd = hrd_ctx_template(true, false, false, 1);
    let ctx = SeiHrdContext {
        hrd: &hrd,
        sub_layer_id: 0,
        frame_field_info_present_flag: false,
    };
    let bp = SeiBufferingPeriod {
        bp_seq_parameter_set_id: 0,
        irap_cpb_params_present_flag: false,
        nal_delays: vec![
            SeiInitialCpbDelays {
                initial_cpb_removal_delay: 90_000,
                initial_cpb_removal_offset: 0,
                alt: None,
            },
            SeiInitialCpbDelays {
                initial_cpb_removal_delay: 45_000,
                initial_cpb_removal_offset: 100,
                alt: None,
            },
        ],
        ..Default::default()
    };
    let msg = encode_buffering_period(&bp, &ctx).expect("BP encodes");
    let back = decode_buffering_period(&msg, &ctx).expect("BP decodes");
    assert_eq!(back, bp);
    // Byte fixed point: re-encoding the decode reproduces the bytes.
    assert_eq!(encode_buffering_period(&back, &ctx).unwrap(), msg);
}

#[test]
fn buffering_period_irap_alt_delays_and_use_alt_flag() {
    let hrd = hrd_ctx_template(true, true, false, 0);
    let ctx = SeiHrdContext {
        hrd: &hrd,
        sub_layer_id: 0,
        frame_field_info_present_flag: false,
    };
    let mk = |d| SeiInitialCpbDelays {
        initial_cpb_removal_delay: d,
        initial_cpb_removal_offset: 7,
        alt: Some((d / 2, 3)),
    };
    let bp = SeiBufferingPeriod {
        bp_seq_parameter_set_id: 2,
        irap_cpb_params_present_flag: true,
        cpb_delay_offset: 0x1234,
        dpb_delay_offset: 0x3A,
        concatenation_flag: true,
        au_cpb_removal_delay_delta_minus1: 5,
        nal_delays: vec![mk(1000)],
        vcl_delays: vec![mk(2000)],
        use_alt_cpb_params_flag: Some(true),
    };
    let msg = encode_buffering_period(&bp, &ctx).expect("BP encodes");
    let back = decode_buffering_period(&msg, &ctx).expect("BP decodes");
    assert_eq!(back, bp);
    assert_eq!(encode_buffering_period(&back, &ctx).unwrap(), msg);
}

#[test]
fn buffering_period_rejects_wrong_cpb_count_and_oversized_fields() {
    let hrd = hrd_ctx_template(true, false, false, 1);
    let ctx = SeiHrdContext {
        hrd: &hrd,
        sub_layer_id: 0,
        frame_field_info_present_flag: false,
    };
    let bp = SeiBufferingPeriod {
        nal_delays: vec![SeiInitialCpbDelays::default()], // CpbCnt is 2
        ..Default::default()
    };
    assert!(encode_buffering_period(&bp, &ctx).is_err());
    // dpb_delay_offset u(10) cannot carry 0x400.
    let bp = SeiBufferingPeriod {
        irap_cpb_params_present_flag: true,
        dpb_delay_offset: 0x400,
        nal_delays: vec![
            SeiInitialCpbDelays {
                alt: Some((0, 0)),
                ..Default::default()
            };
            2
        ],
        ..Default::default()
    };
    assert!(encode_buffering_period(&bp, &ctx).is_err());
    // sub_layer_id outside the HRD's sub-layer list.
    let ctx_bad = SeiHrdContext {
        hrd: &hrd,
        sub_layer_id: 3,
        frame_field_info_present_flag: false,
    };
    assert!(decode_buffering_period(
        &SeiMessage {
            payload_type: SEI_TYPE_BUFFERING_PERIOD,
            payload: vec![0x80],
        },
        &ctx_bad
    )
    .is_err());
}

#[test]
fn pic_timing_roundtrips_frame_field_and_delays() {
    let hrd = hrd_ctx_template(true, false, false, 0);
    let ctx = SeiHrdContext {
        hrd: &hrd,
        sub_layer_id: 0,
        frame_field_info_present_flag: true,
    };
    let pt = SeiPicTiming {
        frame_field_info: Some((3, 1, false)), // top field first, interlaced
        au_cpb_removal_delay_minus1: 0x1FF,
        pic_dpb_output_delay: 0x155,
        ..Default::default()
    };
    let msg = encode_pic_timing(&pt, &ctx).expect("PT encodes");
    let back = decode_pic_timing(&msg, &ctx).expect("PT decodes");
    assert_eq!(back, pt);
    assert_eq!(encode_pic_timing(&back, &ctx).unwrap(), msg);
}

#[test]
fn pic_timing_decoding_units_roundtrip_common_and_per_du() {
    let hrd = hrd_ctx_template(true, false, true, 0);
    let ctx = SeiHrdContext {
        hrd: &hrd,
        sub_layer_id: 0,
        frame_field_info_present_flag: false,
    };
    // Per-DU increments (no common delay): last DU has none.
    let pt = SeiPicTiming {
        au_cpb_removal_delay_minus1: 9,
        pic_dpb_output_delay: 4,
        pic_dpb_output_du_delay: 0x321,
        du_common_cpb_removal_delay_increment_minus1: None,
        decoding_units: Some(vec![
            SeiPicTimingDu {
                num_nalus_in_du_minus1: 0,
                du_cpb_removal_delay_increment_minus1: Some(17),
            },
            SeiPicTimingDu {
                num_nalus_in_du_minus1: 2,
                du_cpb_removal_delay_increment_minus1: Some(3),
            },
            SeiPicTimingDu {
                num_nalus_in_du_minus1: 1,
                du_cpb_removal_delay_increment_minus1: None,
            },
        ]),
        ..Default::default()
    };
    let msg = encode_pic_timing(&pt, &ctx).expect("PT encodes");
    let back = decode_pic_timing(&msg, &ctx).expect("PT decodes");
    assert_eq!(back, pt);
    assert_eq!(encode_pic_timing(&back, &ctx).unwrap(), msg);

    // Common delay: no per-DU increments at all.
    let pt = SeiPicTiming {
        au_cpb_removal_delay_minus1: 1,
        pic_dpb_output_delay: 2,
        pic_dpb_output_du_delay: 3,
        du_common_cpb_removal_delay_increment_minus1: Some(41),
        decoding_units: Some(vec![
            SeiPicTimingDu {
                num_nalus_in_du_minus1: 5,
                du_cpb_removal_delay_increment_minus1: None,
            };
            2
        ]),
        ..Default::default()
    };
    let msg = encode_pic_timing(&pt, &ctx).expect("PT encodes");
    let back = decode_pic_timing(&msg, &ctx).expect("PT decodes");
    assert_eq!(back, pt);
}

#[test]
fn pic_timing_bounds_hostile_du_count() {
    let hrd = hrd_ctx_template(true, false, true, 0);
    let ctx = SeiHrdContext {
        hrd: &hrd,
        sub_layer_id: 0,
        frame_field_info_present_flag: false,
    };
    // Build a payload declaring a huge num_decoding_units_minus1
    // with almost no bytes behind it.
    let mut w = oxideav_bitstream::bit_writer::BitWriter::new();
    w.write_bits(0, 16); // au_cpb_removal_delay_minus1 u(16)
    w.write_bits(0, 10); // pic_dpb_output_delay u(10)
    w.write_bits(0, 12); // pic_dpb_output_du_delay u(12)
    w.write_ue(1_000_000).unwrap(); // num_decoding_units_minus1
    w.write_rbsp_trailing_bits();
    let msg = SeiMessage {
        payload_type: SEI_TYPE_PIC_TIMING,
        payload: w.finish(),
    };
    assert!(matches!(
        decode_pic_timing(&msg, &ctx),
        Err(BitstreamError::UnexpectedEnd(_))
    ));
}

#[test]
fn rbsp_padding_is_read_but_not_written() {
    let msgs = parse_sei_rbsp(&[4, 1, 9, 0x80, 0, 0]).unwrap();
    assert_eq!(msgs, vec![SeiMessage { payload_type: 4, payload: vec![9] }]);
    assert_eq!(write_sei_rbsp(&msgs).unwrap(), vec![4, 1, 9, 0x80]);
    // Two messages; the second looks like trailing bits followed by more.
    let two = [4, 1, 9, 0x80, 2, 0, 0, 0x80];
    let msgs = parse_sei_rbsp(&two).unwrap();
    assert_eq!(msgs.len(), 2);
    assert_eq!(msgs[1], SeiMessage { payload_type: 128, payload: vec![0, 0] });
    assert_eq!(write_sei_rbsp(&msgs).unwrap(), two.to_vec());
    assert!(matches!(write_sei_rbsp(&[]), Err(BitstreamError::InvalidData(_))));
}

#[test]
fn message_numbers_in_runs_of_255() {
    let mut out = vec![7];
    write_sei_message(&mut out, &SeiMessage { payload_type: 510, payload: vec![] });
    assert_eq!(out, vec![7, 255, 255, 0, 0]);
}

#[test]
fn bytes_behind_the_decoded_fields_are_not_kept() {
    let msg = SeiMessage { payload_type: SEI_TYPE_CONTENT_LIGHT_LEVEL_INFO, payload: vec![1, 2, 3, 4, 5] };
    let sei = decode_sei_message(&msg).unwrap();
    assert_eq!(encode_sei_message(&sei).unwrap().payload, vec![1, 2, 3, 4]);
    let exact = SeiMessage { payload_type: SEI_TYPE_CONTENT_LIGHT_LEVEL_INFO, payload: vec![1, 2, 3, 4] };
    assert_eq!(encode_sei_message(&decode_sei_message(&exact).unwrap()).unwrap(), exact);
}

#[test]
fn short_payloads_are_truncated() {
    for (payload_type, payload) in [
        (SEI_TYPE_USER_DATA_REGISTERED_ITU_T_T35, vec![]),
        (SEI_TYPE_USER_DATA_REGISTERED_ITU_T_T35, vec![0xFF]),
        (SEI_TYPE_USER_DATA_UNREGISTERED, vec![1; 15]),
        (SEI_TYPE_MASTERING_DISPLAY_COLOUR_VOLUME, vec![1; 23]),
        (SEI_TYPE_RECOVERY_POINT, vec![0b0000_0001]),
    ] {
        let msg = SeiMessage { payload_type, payload };
        assert!(decode_sei_message(&msg).is_err(), "{msg:?}");
    }
    let msg = SeiMessage { payload_type: SEI_TYPE_RECOVERY_POINT, payload: vec![0b0001_0000] };
    assert!(matches!(decode_sei_message(&msg), Err(BitstreamError::UnexpectedEnd(_))));
}

#[test]
fn recovery_point_limit() {
    let sei = HevcSei::RecoveryPoint(SeiRecoveryPoint { recovery_poc_cnt: i32::MIN, ..Default::default() });
    assert!(matches!(encode_sei_message(&sei), Err(BitstreamError::InvalidData(_))));
}

#[test]
fn unknown_message_of_a_decoded_type_decodes_as_that_type() {
    let sei = HevcSei::Unknown { payload_type: SEI_TYPE_CONTENT_LIGHT_LEVEL_INFO, payload: vec![0, 1, 0, 2] };
    let back = decode_sei_message(&encode_sei_message(&sei).unwrap()).unwrap();
    assert!(matches!(back, HevcSei::ContentLightLevel(_)));
}

#[test]
fn payload_tails() {
    let hrd = hrd_ctx_template(false, false, false, 0);
    let ctx = SeiHrdContext { hrd: &hrd, sub_layer_id: 0, frame_field_info_present_flag: false };
    let decode = |payload: Vec<u8>| decode_buffering_period(&SeiMessage { payload_type: 0, payload }, &ctx);
    // bp_seq_parameter_set_id = 0, irap flag = 0, then the tail.
    assert_eq!(decode(vec![0b1010_0000]).unwrap().use_alt_cpb_params_flag, None);
    assert_eq!(decode(vec![0b1011_0000]).unwrap().use_alt_cpb_params_flag, Some(true));
    assert_eq!(decode(vec![0b1001_0000]).unwrap().use_alt_cpb_params_flag, Some(false));
    assert_eq!(decode(vec![0b1010_0000, 0]).unwrap().use_alt_cpb_params_flag, None);
    assert!(matches!(decode(vec![0b1000_0000]), Err(BitstreamError::InvalidData(_))));
    assert!(matches!(decode(vec![0b1010_1000]), Err(BitstreamError::Unsupported(_))));
    let bp = decode(vec![0b1011_0000]).unwrap();
    assert_eq!(encode_buffering_period(&bp, &ctx).unwrap().payload, vec![0b1011_0000]);
}

#[test]
fn hrd_contexts_out_of_range_are_refused() {
    let mut hrd = hrd_ctx_template(true, false, false, 0);
    hrd.au_cpb_removal_delay_length_minus1 = 40;
    let ctx = SeiHrdContext { hrd: &hrd, sub_layer_id: 0, frame_field_info_present_flag: false };
    assert!(matches!(encode_pic_timing(&SeiPicTiming::default(), &ctx), Err(BitstreamError::InvalidData(_))));
    let msg = SeiMessage { payload_type: SEI_TYPE_PIC_TIMING, payload: vec![0; 9] };
    assert!(matches!(decode_pic_timing(&msg, &ctx), Err(BitstreamError::InvalidData(_))));
}

#[test]
fn pic_struct_is_bounded() {
    let hrd = hrd_ctx_template(false, false, false, 0);
    let ctx = SeiHrdContext { hrd: &hrd, sub_layer_id: 9, frame_field_info_present_flag: true };
    let msg = SeiMessage { payload_type: SEI_TYPE_PIC_TIMING, payload: vec![0b1101_0001] };
    assert!(matches!(decode_pic_timing(&msg, &ctx), Err(BitstreamError::InvalidData(_))));
    let msg = SeiMessage { payload_type: SEI_TYPE_PIC_TIMING, payload: vec![0b1100_1101] };
    let pt = decode_pic_timing(&msg, &ctx).unwrap();
    assert_eq!(pt.frame_field_info, Some((12, 3, false)));
    assert_eq!(encode_pic_timing(&pt, &ctx).unwrap(), msg);
    let msg = SeiMessage { payload_type: SEI_TYPE_PIC_TIMING, payload: vec![0b1100_1100, 0b1000_0000] };
    assert!(matches!(decode_pic_timing(&msg, &ctx), Err(BitstreamError::Unsupported(_))));
}
