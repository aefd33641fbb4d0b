//! H.266 SEI payloads.
use oxideav_bitstream::h266::sei::{
    SEI_TYPE_BUFFERING_PERIOD, SEI_TYPE_CONSTRAINED_RASL_ENCODING, SEI_TYPE_DECODING_UNIT_INFO,
    SEI_TYPE_PIC_TIMING, SEI_TYPE_SCALABLE_NESTING, SEI_TYPE_SEI_MANIFEST,
    SEI_TYPE_SEI_PREFIX_INDICATION, SEI_TYPE_SUBPIC_LEVEL_INFO, SeiMessage, VvcBufferingPeriod,
    VvcDecodingUnitInfo, VvcInitialCpbDelays, VvcPicTiming, VvcPtAltCpb, VvcPtDuInfo,
    VvcScalableNesting, VvcSei, VvcSeiManifest, VvcSeiPrefixIndication, VvcSliRefLevel,
    VvcSubpicLevelInfo, decode_buffering_period, decode_decoding_unit_info, decode_pic_timing,
    decode_scalable_nesting, decode_sei_manifest, decode_sei_message,
    decode_sei_prefix_indication, decode_subpic_level_info, encode_buffering_period,
    encode_decoding_unit_info, encode_pic_timing, encode_scalable_nesting, encode_sei_manifest,
    encode_sei_prefix_indication, encode_subpic_level_info, finish_payload, parse_sei_nal,
    parse_sei_rbsp, write_sei_rbsp,
};
use oxideav_bitstream::BitstreamError;
use oxideav_bitstream::bit_writer::BitWriter;
use oxideav_bitstream::h266::{NAL_TYPE_PREFIX_SEI, NAL_TYPE_SUFFIX_SEI};

#[test]
fn framing_roundtrips_and_rejects_truncation() {
    let msg = SeiMessage {
        payload_type: 300,
        payload: (0..700).map(|i| (i % 249 + 1) as u8).collect(),
    };
    let rbsp = write_sei_rbsp(std::slice::from_ref(&msg)).unwrap();
    assert_eq!(parse_sei_rbsp(&rbsp).unwrap(), vec![msg]);

    assert!(matches!(
        parse_sei_rbsp(&[0x06, 0x0A, 0xAA]).unwrap_err(),
        BitstreamError::UnexpectedEnd(_)
    ));
    assert!(matches!(
        parse_sei_rbsp(&[]).unwrap_err(),
        BitstreamError::UnexpectedEnd(_)
    ));
}

#[test]
fn sei_nal_accepts_prefix_and_suffix_types() {
    let body = write_sei_rbsp(&[SeiMessage {
        payload_type: 4,
        payload: vec![0xB5, 0x00, 0x31],
    }])
    .unwrap();
    for t in [NAL_TYPE_PREFIX_SEI, NAL_TYPE_SUFFIX_SEI] {
        let mut nal = vec![0x00, (t << 3) | 0x01];
        nal.extend_from_slice(&oxideav_bitstream::nal::rbsp_to_ebsp(&body));
        let msgs = parse_sei_nal(&nal).unwrap_or_else(|e| panic!("type {t}: {e:?}"));
        assert_eq!(msgs.len(), 1);
        assert_eq!(msgs[0].payload_type, 4);
    }
    let nal = [0x00u8, (oxideav_bitstream::h266::NAL_TYPE_SPS << 3) | 0x01, 0x80];
    assert!(matches!(
        parse_sei_nal(&nal).unwrap_err(),
        BitstreamError::InvalidData(_)
    ));
}

/// A representative two-sublayer BP with NAL HRD, DU HRD and alt
/// CPB params — reused as PT/DUI context.
fn sample_bp() -> VvcBufferingPeriod {
    let mut bp = VvcBufferingPeriod {
        bp_nal_hrd_params_present_flag: true,
        bp_cpb_initial_removal_delay_length_minus1: 15,
        bp_cpb_removal_delay_length_minus1: 9,
        bp_dpb_output_delay_length_minus1: 7,
        bp_du_hrd_params_present_flag: true,
        bp_du_cpb_removal_delay_increment_length_minus1: 5,
        bp_dpb_output_delay_du_length_minus1: 6,
        bp_du_cpb_params_in_pic_timing_sei_flag: true,
        bp_du_dpb_params_in_pic_timing_sei_flag: false,
        bp_concatenation_flag: false,
        bp_additional_concatenation_info_present_flag: true,
        bp_max_initial_removal_delay_for_concatenation: 0x1234,
        bp_cpb_removal_delay_delta_minus1: 3,
        bp_max_sublayers_minus1: 1,
        bp_cpb_removal_delay_deltas_present_flag: true,
        bp_cpb_removal_delay_delta_vals: vec![7, 12, 100],
        bp_cpb_cnt_minus1: 1,
        bp_sublayer_initial_cpb_removal_delay_present_flag: true,
        bp_sublayer_dpb_output_offsets_present_flag: true,
        bp_dpb_output_tid_offsets: vec![2],
        bp_alt_cpb_params_present_flag: true,
        bp_use_alt_cpb_params_flag: false,
        ..VvcBufferingPeriod::default()
    };
    for i in 0..=1usize {
        for j in 0..=1u32 {
            bp.nal_initial_cpb[i].push(VvcInitialCpbDelays {
                removal_delay: 9000 + j,
                removal_offset: 100 + i as u32,
                alt: Some((50, 60)),
            });
        }
    }
    bp
}

#[test]
fn buffering_period_encode_decode_roundtrips() {
    let bp = sample_bp();
    let msg = encode_buffering_period(&bp).expect("BP encodes");
    assert_eq!(msg.payload_type, SEI_TYPE_BUFFERING_PERIOD);
    let back = decode_buffering_period(&msg).expect("BP decodes");
    assert_eq!(back, bp);
    // And the re-encode is byte-identical.
    assert_eq!(encode_buffering_period(&back).unwrap().payload, msg.payload);
}

#[test]
fn buffering_period_rejects_both_hrd_flags_zero_and_bad_counts() {
    let mut bp = sample_bp();
    bp.bp_nal_hrd_params_present_flag = false;
    assert!(matches!(
        encode_buffering_period(&bp).unwrap_err(),
        BitstreamError::InvalidData(_)
    ));

    let mut w = BitWriter::new();
    w.write_bit(0); // nal
    w.write_bit(0); // vcl — both zero is non-conforming
    w.write_bits(0, 15);
    let msg = SeiMessage {
        payload_type: 0,
        payload: finish_payload(w),
    };
    assert!(matches!(
        decode_buffering_period(&msg).unwrap_err(),
        BitstreamError::InvalidData(_)
    ));
}

#[test]
fn pic_timing_roundtrips_with_du_and_alt_timing() {
    let bp = sample_bp();
    let tid = 0u8;
    let mut pt = VvcPicTiming {
        pt_dpb_output_delay: 44,
        pt_cpb_alt_timing_info_present_flag: true,
        pt_display_elemental_periods_minus1: 1,
        pt_delay_for_concatenation_ensured_flag: true,
        ..VvcPicTiming::default()
    };
    pt.pt_cpb_removal_delay_minus1[1] = 900;
    pt.pt_sublayer_delays_present_flag[1] = true;
    pt.pt_sublayer_delays_present_flag[0] = true;
    pt.pt_cpb_removal_delay_delta_enabled_flag[0] = true;
    pt.pt_cpb_removal_delay_delta_idx[0] = 2;
    for i in 0..=1usize {
        pt.nal_alt[i] = Some(VvcPtAltCpb {
            initial_deltas: vec![(1, 2), (3, 4)],
            cpb_delay_offset: 5,
            dpb_delay_offset: 6,
        });
    }
    // DU block: 3 DUs, per-DU increments (common flag off).
    pt.du = Some(VvcPtDuInfo {
        pt_du_common_cpb_removal_delay_flag: false,
        num_nalus_in_du_minus1: vec![4, 5, 6],
        du_increment_minus1: vec![
            {
                let mut r = [0u32; 8];
                r[0] = 7;
                r[1] = 8;
                r
            },
            {
                let mut r = [0u32; 8];
                r[0] = 9;
                r[1] = 10;
                r
            },
        ],
        ..VvcPtDuInfo::default()
    });
    let msg = encode_pic_timing(&pt, &bp, tid).expect("PT encodes");
    let back = decode_pic_timing(&msg, &bp, tid).expect("PT decodes");
    assert_eq!(back, pt);
    assert_eq!(
        encode_pic_timing(&back, &bp, tid).unwrap().payload,
        msg.payload
    );
}

#[test]
fn decoding_unit_info_roundtrips_and_infers_top_sublayer() {
    let mut bp = sample_bp();
    bp.bp_du_cpb_params_in_pic_timing_sei_flag = false;
    let mut dui = VvcDecodingUnitInfo {
        dui_decoding_unit_idx: 3,
        dui_dpb_output_du_delay_present_flag: true,
        dui_dpb_output_du_delay: 42,
        ..VvcDecodingUnitInfo::default()
    };
    dui.dui_sublayer_delays_present_flag[0] = true;
    dui.dui_sublayer_delays_present_flag[1] = true; // top: inferred, must be set
    dui.dui_du_cpb_removal_delay_increment[0] = 11;
    dui.dui_du_cpb_removal_delay_increment[1] = 13;
    let msg = encode_decoding_unit_info(&dui, &bp, 0).expect("DUI encodes");
    let back = decode_decoding_unit_info(&msg, &bp, 0).expect("DUI decodes");
    assert_eq!(back, dui);
}

#[test]
fn scalable_nesting_roundtrips_with_nested_messages() {
    let sn = VvcScalableNesting {
        sn_ols_flag: true,
        sn_subpic_flag: true,
        sn_ols_idx_delta_minus1: vec![0, 1],
        sn_subpic_id_len_minus1: 7,
        sn_subpic_ids: vec![3, 200],
        messages: vec![
            SeiMessage {
                payload_type: 4,
                payload: vec![0xB5, 0x00, 0x31, 0xAA],
            },
            SeiMessage {
                payload_type: 132,
                payload: vec![1, 2, 3],
            },
        ],
        ..VvcScalableNesting::default()
    };
    let msg = encode_scalable_nesting(&sn).expect("nesting encodes");
    let back = decode_scalable_nesting(&msg).expect("nesting decodes");
    assert_eq!(back, sn);
    // Layer-mode variant.
    let sn2 = VvcScalableNesting {
        sn_ols_flag: false,
        sn_all_layers_flag: false,
        sn_layer_ids: vec![1, 5],
        messages: vec![SeiMessage {
            payload_type: 207,
            payload: vec![],
        }],
        ..VvcScalableNesting::default()
    };
    let msg2 = encode_scalable_nesting(&sn2).expect("layer-mode nesting encodes");
    assert_eq!(decode_scalable_nesting(&msg2).unwrap(), sn2);
}

#[test]
fn subpic_level_info_roundtrips() {
    let sli = VvcSubpicLevelInfo {
        sli_cbr_constraint_flag: true,
        sli_explicit_fraction_present_flag: true,
        sli_num_subpics_minus1: 1,
        sli_max_sublayers_minus1: 1,
        sli_sublayer_info_present_flag: true,
        sublayers: vec![
            vec![VvcSliRefLevel {
                non_subpic_layers_fraction: 10,
                ref_level_idc: 51,
                ref_level_fraction_minus1: vec![100, 200],
            }],
            vec![VvcSliRefLevel {
                non_subpic_layers_fraction: 20,
                ref_level_idc: 83,
                ref_level_fraction_minus1: vec![50, 60],
            }],
        ],
    };
    let msg = encode_subpic_level_info(&sli).expect("SLI encodes");
    assert_eq!(decode_subpic_level_info(&msg).unwrap(), sli);
}

#[test]
fn manifest_and_prefix_indication_roundtrip_via_dispatch() {
    let m = VvcSeiManifest {
        entries: vec![(0, 1), (137, 2), (203, 3)],
    };
    let msg = encode_sei_manifest(&m).unwrap();
    let VvcSei::SeiManifest(back) = decode_sei_message(&msg).unwrap() else {
        panic!("expected manifest");
    };
    assert_eq!(back, m);

    let p = VvcSeiPrefixIndication {
        prefix_sei_payload_type: 137,
        indications: vec![vec![true, false, true], vec![false; 16]],
    };
    let msg = encode_sei_prefix_indication(&p).unwrap();
    let VvcSei::SeiPrefixIndication(back) = decode_sei_message(&msg).unwrap() else {
        panic!("expected prefix indication");
    };
    assert_eq!(back, p);

    // CREI: empty payload decodes; non-empty is rejected.
    let crei = SeiMessage {
        payload_type: SEI_TYPE_CONSTRAINED_RASL_ENCODING,
        payload: vec![],
    };
    assert_eq!(
        decode_sei_message(&crei).unwrap(),
        VvcSei::ConstrainedRaslEncoding
    );
    let bad = SeiMessage {
        payload_type: SEI_TYPE_CONSTRAINED_RASL_ENCODING,
        payload: vec![0],
    };
    assert!(decode_sei_message(&bad).is_err());

    // H.274-delegated types surface raw.
    let raw = SeiMessage {
        payload_type: 19,
        payload: vec![1, 2],
    };
    let VvcSei::Unknown { payload_type, .. } = decode_sei_message(&raw).unwrap() else {
        panic!("expected Unknown");
    };
    assert_eq!(payload_type, 19);
}

#[test]
fn decoded_payloads_are_encoded_as_they_were() {
    let bp = sample_bp();
    let mut w = BitWriter::new();
    w.write_bits(0x155, 10); // pt_cpb_removal_delay_minus1[1]
    w.write_bit(0); // pt_sublayer_delays_present_flag[0]
    w.write_bits(9, 8); // pt_dpb_output_delay
    w.write_bit(0); // pt_cpb_alt_timing_info_present_flag
    w.write_ue(1).unwrap(); // pt_num_decoding_units_minus1
    w.write_bit(1); // common flag
    w.write_bits(33, 6); // increment of sublayer 1
    w.write_ue(0).unwrap();
    w.write_ue(2).unwrap();
    w.write_bit(1); // concatenation
    w.write_bits(77, 8);
    let msg = SeiMessage { payload_type: SEI_TYPE_PIC_TIMING, payload: finish_payload(w) };
    let pt = decode_pic_timing(&msg, &bp, 0).unwrap();
    let du = pt.du.as_ref().unwrap();
    assert_eq!(du.common_increment_minus1, [0, 33, 0, 0, 0, 0, 0, 0]);
    assert_eq!(du.num_nalus_in_du_minus1, vec![0, 2]);
    assert_eq!(pt.pt_display_elemental_periods_minus1, 77);
    assert_eq!(encode_pic_timing(&pt, &bp, 0).unwrap(), msg);
}

#[test]
fn payload_must_end_behind_its_syntax() {
    let mut msg = encode_buffering_period(&sample_bp()).unwrap();
    msg.payload.push(0);
    assert!(matches!(decode_buffering_period(&msg), Err(BitstreamError::InvalidData(_))));
    msg.payload.truncate(10);
    assert!(decode_buffering_period(&msg).is_err());
    let mut bp = sample_bp();
    bp.bp_du_hrd_params_present_flag = false;
    let short = SeiMessage { payload_type: SEI_TYPE_PIC_TIMING, payload: vec![0x20, 0x08] };
    assert!(matches!(decode_pic_timing(&short, &bp, 0), Err(BitstreamError::UnexpectedEnd(_))));
    msg.payload_type = 9;
    assert!(matches!(decode_buffering_period(&msg), Err(BitstreamError::InvalidData(_))));
}

#[test]
fn timing_contexts_out_of_range_are_refused() {
    let mut bp = sample_bp();
    bp.bp_cpb_removal_delay_length_minus1 = 32;
    assert!(matches!(encode_buffering_period(&bp), Err(BitstreamError::InvalidData(_))));
    let msg = SeiMessage { payload_type: SEI_TYPE_PIC_TIMING, payload: vec![0; 40] };
    assert!(matches!(decode_pic_timing(&msg, &bp, 0), Err(BitstreamError::InvalidData(_))));
    assert!(matches!(decode_pic_timing(&msg, &sample_bp(), 2), Err(BitstreamError::InvalidData(_))));
    let mut bp = sample_bp();
    bp.bp_max_sublayers_minus1 = 8;
    assert!(matches!(decode_pic_timing(&msg, &bp, 0), Err(BitstreamError::InvalidData(_))));
    bp.bp_du_cpb_params_in_pic_timing_sei_flag = false;
    let msg = SeiMessage { payload_type: SEI_TYPE_DECODING_UNIT_INFO, payload: vec![0x80] };
    assert!(matches!(decode_decoding_unit_info(&msg, &bp, 0), Err(BitstreamError::InvalidData(_))));
    bp.bp_du_cpb_params_in_pic_timing_sei_flag = true;
    bp.bp_du_dpb_params_in_pic_timing_sei_flag = true;
    let msg = SeiMessage { payload_type: SEI_TYPE_DECODING_UNIT_INFO, payload: vec![0xC0] };
    assert_eq!(decode_decoding_unit_info(&msg, &bp, 8).unwrap(), VvcDecodingUnitInfo::default());
}

#[test]
fn counts_beyond_the_payload_are_truncation() {
    let mut w = BitWriter::new();
    w.write_bits(0b10, 2);
    w.write_ue(5000).unwrap();
    let msg = SeiMessage { payload_type: SEI_TYPE_SCALABLE_NESTING, payload: finish_payload(w) };
    assert!(matches!(decode_scalable_nesting(&msg), Err(BitstreamError::UnexpectedEnd(_))));
    let msg = SeiMessage { payload_type: SEI_TYPE_SEI_MANIFEST, payload: vec![0, 2, 0, 4, 1] };
    assert!(matches!(decode_sei_manifest(&msg), Err(BitstreamError::UnexpectedEnd(_))));
    let msg = SeiMessage { payload_type: SEI_TYPE_SEI_PREFIX_INDICATION, payload: vec![0, 4, 0, 0, 99, 1] };
    assert!(matches!(decode_sei_prefix_indication(&msg), Err(BitstreamError::UnexpectedEnd(_))));
    let mut w = BitWriter::new();
    w.write_bits(0, 3);
    w.write_bits(0b01, 2);
    w.write_ue(4000).unwrap();
    let msg = SeiMessage { payload_type: SEI_TYPE_SUBPIC_LEVEL_INFO, payload: finish_payload(w) };
    assert!(matches!(decode_subpic_level_info(&msg), Err(BitstreamError::UnexpectedEnd(_))));
}

#[test]
fn prefix_indication_pads_with_ones() {
    let p = VvcSeiPrefixIndication { prefix_sei_payload_type: 4, indications: vec![vec![false, true]] };
    let msg = encode_sei_prefix_indication(&p).unwrap();
    assert_eq!(msg.payload, vec![0, 4, 0, 0, 1, 0b0111_1111]);
    let mut zero = msg.clone();
    zero.payload[5] = 0b0111_1110;
    assert!(matches!(decode_sei_prefix_indication(&zero), Err(BitstreamError::InvalidData(_))));
    assert!(matches!(
        encode_sei_prefix_indication(&VvcSeiPrefixIndication::default()),
        Err(BitstreamError::InvalidData(_))
    ));
}

#[test]
fn manifest_bytes() {
    let m = VvcSeiManifest { entries: vec![(0x0102, 3)] };
    let msg = encode_sei_manifest(&m).unwrap();
    assert_eq!(msg.payload, vec![0, 1, 1, 2, 3]);
    assert_eq!(decode_sei_manifest(&msg).unwrap(), m);
    let msg = encode_sei_manifest(&VvcSeiManifest::default()).unwrap();
    assert_eq!(msg.payload, vec![0, 0]);
    let short = SeiMessage { payload_type: SEI_TYPE_SEI_MANIFEST, payload: vec![0] };
    assert!(matches!(decode_sei_manifest(&short), Err(BitstreamError::UnexpectedEnd(_))));
}

#[test]
fn nesting_counts_its_messages() {
    let mut sn = VvcScalableNesting { sn_all_layers_flag: true, ..VvcScalableNesting::default() };
    assert!(matches!(encode_scalable_nesting(&sn), Err(BitstreamError::InvalidData(_))));
    sn.messages = vec![SeiMessage { payload_type: 700, payload: vec![9; 300] }; 64];
    let msg = encode_scalable_nesting(&sn).unwrap();
    assert_eq!(decode_scalable_nesting(&msg).unwrap(), sn);
    let mut longer = msg.clone();
    longer.payload.push(0);
    assert!(matches!(decode_scalable_nesting(&longer), Err(BitstreamError::InvalidData(_))));
    sn.messages.push(SeiMessage { payload_type: 0, payload: vec![] });
    assert!(matches!(encode_scalable_nesting(&sn), Err(BitstreamError::InvalidData(_))));
}

#[test]
fn first_coded_sublayer_follows_the_flag() {
    let mut bp = sample_bp();
    assert_eq!(bp.first_coded_sublayer(), 0);
    bp.bp_sublayer_initial_cpb_removal_delay_present_flag = false;
    assert_eq!(bp.first_coded_sublayer(), 1);
}
