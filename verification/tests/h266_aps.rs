//! H.266 adaptation parameter sets.
use oxideav_bitstream::h266::aps::{
    APS_PARAMS_TYPE_ALF, APS_PARAMS_TYPE_LMCS, APS_PARAMS_TYPE_SCALING, NUM_ALF_FILTERS,
    NUM_SCALING_LIST_IDS, VvcAlfData, VvcAlfLuma, VvcAps, VvcApsPayload, VvcLmcsData,
    VvcScalingListData, diag_scan_8x8, parse_aps, parse_aps_rbsp, write_aps, write_aps_nal,
};
use oxideav_bitstream::BitstreamError;
use oxideav_bitstream::bit_writer::BitWriter;
use oxideav_bitstream::h266::{NAL_TYPE_PREFIX_APS, NAL_TYPE_SUFFIX_APS};

fn aps_nal_from(w: BitWriter, nal_unit_type: u8) -> Vec<u8> {
    let mut nal = vec![0x00, (nal_unit_type << 3) | 0x01];
    nal.extend_from_slice(&oxideav_bitstream::nal::rbsp_to_ebsp(&w.finish()));
    nal
}

#[test]
fn diag_scan_first_positions_match_spec_order() {
    // §6.5.2 with an 8×8 block starts (0,0), (0,1), (1,0), (0,2),
    // (1,1), (2,0), … — up-right diagonals bottom-left to
    // top-right.
    let scan = diag_scan_8x8();
    assert_eq!(
        &scan[..6],
        &[(0, 0), (0, 1), (1, 0), (0, 2), (1, 1), (2, 0)]
    );
    assert_eq!(scan[63], (7, 7));
    // Every position visited exactly once.
    let mut seen = [[false; 8]; 8];
    for &(x, y) in &scan {
        assert!(!seen[y as usize][x as usize]);
        seen[y as usize][x as usize] = true;
    }
}

#[test]
fn alf_aps_parses_and_roundtrips_byte_exact() {
    let mut w = BitWriter::new();
    w.write_bits(APS_PARAMS_TYPE_ALF as u32, 3);
    w.write_bits(2, 5); // aps_adaptation_parameter_set_id
    w.write_bit(1); // aps_chroma_present_flag
    w.write_bit(1); // alf_luma_filter_signal_flag
    w.write_bit(1); // alf_chroma_filter_signal_flag
    w.write_bit(1); // alf_cc_cb_filter_signal_flag
    w.write_bit(0); // alf_cc_cr_filter_signal_flag
                    // luma:
    w.write_bit(1); // alf_luma_clip_flag
    w.write_ue(1).unwrap(); // alf_luma_num_filters_signalled_minus1 = 1
    for filt_idx in 0..NUM_ALF_FILTERS {
        // u(ceil(log2(2))) = u(1)
        w.write_bits((filt_idx % 2) as u32, 1);
    }
    for sf in 0..2 {
        for j in 0..12 {
            let abs = if j == sf { 3 } else { 0 };
            w.write_ue(abs).unwrap();
            if abs != 0 {
                w.write_bit(1); // sign
            }
        }
    }
    for _ in 0..2 {
        for j in 0..12 {
            w.write_bits((j % 4) as u32, 2); // clip_idx
        }
    }
    // chroma:
    w.write_bit(0); // alf_chroma_clip_flag
    w.write_ue(0).unwrap(); // alf_chroma_num_alt_filters_minus1
    for j in 0..6 {
        let abs = if j == 0 { 128 } else { 0 };
        w.write_ue(abs).unwrap();
        if abs != 0 {
            w.write_bit(0);
        }
    }
    // cc_cb:
    w.write_ue(1).unwrap(); // filters_signalled_minus1 = 1
    for _ in 0..2 {
        for j in 0..7 {
            let abs = if j < 2 { 5 } else { 0 };
            w.write_bits(abs, 3);
            if abs != 0 {
                w.write_bit(1);
            }
        }
    }
    w.write_bit(0); // aps_extension_flag
    w.write_rbsp_trailing_bits();

    let nal = aps_nal_from(w, NAL_TYPE_PREFIX_APS);
    let aps = parse_aps(&nal).expect("ALF APS parses");
    assert_eq!(aps.aps_params_type, APS_PARAMS_TYPE_ALF);
    assert_eq!(aps.aps_adaptation_parameter_set_id, 2);
    assert!(aps.aps_chroma_present_flag);
    let VvcApsPayload::Alf(alf) = &aps.payload else {
        panic!("expected ALF payload");
    };
    let luma = alf.luma.as_ref().expect("luma signalled");
    assert_eq!(luma.alf_luma_num_filters_signalled_minus1, 1);
    assert_eq!(luma.alf_luma_coeff_delta_idx[0], 0);
    assert_eq!(luma.alf_luma_coeff_delta_idx[1], 1);
    assert_eq!(luma.coeff_abs[0][0], 3);
    assert!(luma.coeff_sign[0][0]);
    assert_eq!(luma.clip_idx.len(), 2);
    let chroma = alf.chroma.as_ref().expect("chroma signalled");
    assert_eq!(chroma.coeff_abs[0][0], 128);
    assert!(alf.cc_cb.is_some());
    assert!(alf.cc_cr.is_none());
    assert_eq!(
        write_aps_nal(&aps, NAL_TYPE_PREFIX_APS).expect("APS writes"),
        nal,
        "ALF APS parse→write must be byte-exact"
    );
}

#[test]
fn lmcs_aps_parses_and_roundtrips_byte_exact() {
    let mut w = BitWriter::new();
    w.write_bits(APS_PARAMS_TYPE_LMCS as u32, 3);
    w.write_bits(3, 5); // id = 3 (LMCS max)
    w.write_bit(1); // chroma present
    w.write_ue(2).unwrap(); // lmcs_min_bin_idx
    w.write_ue(1).unwrap(); // lmcs_delta_max_bin_idx → LmcsMaxBinIdx = 14
    w.write_ue(3).unwrap(); // lmcs_delta_cw_prec_minus1 → u(4)
    for i in 2..=14u32 {
        let v = i % 5;
        w.write_bits(v, 4);
        if v > 0 {
            w.write_bit(i % 2);
        }
    }
    w.write_bits(5, 3); // lmcs_delta_abs_crs
    w.write_bit(1); // lmcs_delta_sign_crs_flag
    w.write_bit(0); // aps_extension_flag
    w.write_rbsp_trailing_bits();

    let nal = aps_nal_from(w, NAL_TYPE_SUFFIX_APS);
    let aps = parse_aps(&nal).expect("LMCS APS parses");
    let VvcApsPayload::Lmcs(lmcs) = &aps.payload else {
        panic!("expected LMCS payload");
    };
    assert_eq!(lmcs.lmcs_min_bin_idx, 2);
    assert_eq!(lmcs.lmcs_max_bin_idx(), 14);
    assert_eq!(lmcs.lmcs_delta_abs_cw[0], 0, "below min bin — inferred");
    assert_eq!(lmcs.lmcs_delta_abs_cw[2], 2);
    assert_eq!(lmcs.lmcs_delta_abs_crs, 5);
    assert!(lmcs.lmcs_delta_sign_crs_flag);
    assert_eq!(
        write_aps_nal(&aps, NAL_TYPE_SUFFIX_APS).expect("APS writes"),
        nal,
        "LMCS APS parse→write must be byte-exact"
    );
}

#[test]
fn scaling_aps_parses_and_roundtrips_byte_exact() {
    // chroma_present = 0 codes only ids 2, 5, 8, 11, 14, 17, 20,
    // 23, 26, 27 (id % 3 == 2 or id == 27).
    let mut w = BitWriter::new();
    w.write_bits(APS_PARAMS_TYPE_SCALING as u32, 3);
    w.write_bits(0, 5);
    w.write_bit(0); // aps_chroma_present_flag = 0
    for id in 0..NUM_SCALING_LIST_IDS {
        if !(id % 3 == 2 || id == 27) {
            continue;
        }
        match id {
            2 => {
                w.write_bit(0); // copy_mode
                w.write_bit(0); // pred_mode → explicit from the flat-8 base
                                // (id == 2 codes no pred_id_delta)
                for i in 0..16 {
                    w.write_se(if i == 0 { 5 } else { 1 }).unwrap();
                }
            }
            26 => {
                w.write_bit(0); // copy_mode
                w.write_bit(1); // pred_mode
                w.write_ue(3).unwrap(); // pred_id_delta
                w.write_se(-4).unwrap(); // dc_coef (id > 13)
                                         // 64×64 id: bottom-right 4×4 quadrant skipped → 48 coded
                for i in 0..48 {
                    w.write_se(if i % 7 == 0 { 2 } else { 0 }).unwrap();
                }
            }
            27 => {
                w.write_bit(1); // copy_mode
                w.write_ue(2).unwrap(); // pred_id_delta
            }
            _ => {
                w.write_bit(1); // copy_mode
                if id != 8 {
                    w.write_ue(0).unwrap(); // pred_id_delta
                }
            }
        }
    }
    w.write_bit(0); // aps_extension_flag
    w.write_rbsp_trailing_bits();

    let nal = aps_nal_from(w, NAL_TYPE_PREFIX_APS);
    let aps = parse_aps(&nal).expect("scaling APS parses");
    let VvcApsPayload::ScalingList(sl) = &aps.payload else {
        panic!("expected scaling-list payload");
    };
    // Uncoded ids inherit the copy-mode inference.
    assert!(sl.copy_mode_flag[0]);
    assert!(sl.copy_mode_flag[1]);
    // id 2: explicit ramp 5, 6, 7, …
    assert!(!sl.copy_mode_flag[2] && !sl.pred_mode_flag[2]);
    assert_eq!(sl.scaling_list[2][0], 5);
    assert_eq!(sl.scaling_list[2][15], 20);
    // id 26: predicted with dc and the skipped quadrant repeating
    // the accumulator.
    assert!(sl.pred_mode_flag[26]);
    assert_eq!(sl.pred_id_delta[26], 3);
    assert_eq!(sl.dc_coef[26 - 14], -4);
    // id 27: copy mode with reference two ids back.
    assert!(sl.copy_mode_flag[27]);
    assert_eq!(sl.pred_id_delta[27], 2);
    assert_eq!(
        write_aps_nal(&aps, NAL_TYPE_PREFIX_APS).expect("APS writes"),
        nal,
        "scaling APS parse→write must be byte-exact"
    );
}

#[test]
fn aps_rejects_reserved_type_and_out_of_range_ids() {
    // Reserved aps_params_type = 3.
    let mut w = BitWriter::new();
    w.write_bits(3, 3);
    w.write_bits(0, 5);
    w.write_bit(0);
    w.write_rbsp_trailing_bits();
    let nal = aps_nal_from(w, NAL_TYPE_PREFIX_APS);
    assert!(matches!(
        parse_aps(&nal).unwrap_err(),
        BitstreamError::Unsupported(_)
    ));

    // LMCS id = 4 exceeds the 0..=3 range (§7.4.3.6).
    let mut w = BitWriter::new();
    w.write_bits(APS_PARAMS_TYPE_LMCS as u32, 3);
    w.write_bits(4, 5);
    w.write_bit(0);
    let nal = aps_nal_from(w, NAL_TYPE_PREFIX_APS);
    assert!(matches!(
        parse_aps(&nal).unwrap_err(),
        BitstreamError::InvalidData(_)
    ));

    // Wrong NAL type.
    let nal = vec![0x00, (oxideav_bitstream::h266::NAL_TYPE_SPS << 3) | 0x01, 0x00];
    assert!(matches!(
        parse_aps(&nal).unwrap_err(),
        BitstreamError::InvalidData(_)
    ));
}

#[test]
fn aps_writer_rejects_extension_flag_and_mismatched_type() {
    let aps = VvcAps {
        aps_params_type: APS_PARAMS_TYPE_LMCS,
        aps_adaptation_parameter_set_id: 0,
        aps_chroma_present_flag: false,
        payload: VvcApsPayload::Lmcs(VvcLmcsData::default()),
        aps_extension_flag: true,
    };
    assert!(matches!(
        write_aps(&aps).unwrap_err(),
        BitstreamError::Unsupported(_)
    ));

    let aps = VvcAps {
        aps_params_type: APS_PARAMS_TYPE_ALF, // payload says LMCS
        aps_adaptation_parameter_set_id: 0,
        aps_chroma_present_flag: false,
        payload: VvcApsPayload::Lmcs(VvcLmcsData::default()),
        aps_extension_flag: false,
    };
    assert!(matches!(
        write_aps(&aps).unwrap_err(),
        BitstreamError::InvalidData(_)
    ));
}

#[test]
fn alf_luma_rejects_out_of_range_counts_and_coeffs() {
    // alf_luma_num_filters_signalled_minus1 = 25 (> 24).
    let mut w = BitWriter::new();
    w.write_bits(APS_PARAMS_TYPE_ALF as u32, 3);
    w.write_bits(0, 5);
    w.write_bit(0); // no chroma
    w.write_bit(1); // luma signal
    w.write_bit(0); // clip
    w.write_ue(25).unwrap();
    let nal = aps_nal_from(w, NAL_TYPE_PREFIX_APS);
    assert!(matches!(
        parse_aps(&nal).unwrap_err(),
        BitstreamError::InvalidData(_)
    ));

    // alf_luma_coeff_abs = 129 (> 128).
    let mut w = BitWriter::new();
    w.write_bits(APS_PARAMS_TYPE_ALF as u32, 3);
    w.write_bits(0, 5);
    w.write_bit(0);
    w.write_bit(1); // luma signal
    w.write_bit(0); // clip
    w.write_ue(0).unwrap(); // one filter
    w.write_ue(129).unwrap(); // coeff_abs[0][0]
    let nal = aps_nal_from(w, NAL_TYPE_PREFIX_APS);
    assert!(matches!(
        parse_aps(&nal).unwrap_err(),
        BitstreamError::InvalidData(_)
    ));
}

#[test]
fn lmcs_rejects_inverted_bin_range() {
    // min_bin 10 with delta_max 8 → LmcsMaxBinIdx 7 < 10.
    let mut w = BitWriter::new();
    w.write_bits(APS_PARAMS_TYPE_LMCS as u32, 3);
    w.write_bits(0, 5);
    w.write_bit(0);
    w.write_ue(10).unwrap();
    w.write_ue(8).unwrap();
    w.write_ue(0).unwrap();
    let nal = aps_nal_from(w, NAL_TYPE_PREFIX_APS);
    assert!(matches!(
        parse_aps(&nal).unwrap_err(),
        BitstreamError::InvalidData(_)
    ));
}

#[test]
fn aps_with_extension_data_parses_but_is_not_written() {
    let mut w = BitWriter::new();
    w.write_bits(APS_PARAMS_TYPE_LMCS as u32, 3);
    w.write_bits(0, 5);
    w.write_bit(0);
    w.write_ue(0).unwrap();
    w.write_ue(15).unwrap();
    w.write_ue(0).unwrap();
    w.write_bits(0, 1);
    w.write_bit(1); // aps_extension_flag
    w.write_bits(0b1011, 4);
    let aps = parse_aps_rbsp(&w.finish()).unwrap();
    assert!(aps.aps_extension_flag);
    assert!(matches!(write_aps(&aps), Err(BitstreamError::Unsupported(_))));
}

#[test]
fn aps_nal_type_is_checked_on_both_sides() {
    let aps = VvcAps {
        aps_params_type: APS_PARAMS_TYPE_SCALING,
        aps_adaptation_parameter_set_id: 7,
        aps_chroma_present_flag: true,
        payload: VvcApsPayload::ScalingList(Box::new(VvcScalingListData {
            copy_mode_flag: [true; 28],
            ..VvcScalingListData::default()
        })),
        aps_extension_flag: false,
    };
    assert!(matches!(write_aps_nal(&aps, 19), Err(BitstreamError::InvalidData(_))));
    let nal = write_aps_nal(&aps, NAL_TYPE_SUFFIX_APS).unwrap();
    assert_eq!(parse_aps(&nal).unwrap(), aps);
    assert!(matches!(parse_aps(&nal[..1]), Err(BitstreamError::UnexpectedEnd(_))));
    let mut high = aps.clone();
    high.aps_adaptation_parameter_set_id = 8;
    assert!(matches!(write_aps(&high), Err(BitstreamError::InvalidData(_))));
}

#[test]
fn scaling_writer_checks_what_it_codes_only() {
    let mut d = VvcScalingListData { copy_mode_flag: [true; 28], ..VvcScalingListData::default() };
    // Matrix 0 is not coded without chroma, so its entries do not matter.
    d.pred_mode_flag[0] = true;
    d.scaling_list[0][5] = 1000;
    let aps = |d: &VvcScalingListData| VvcAps {
        aps_params_type: APS_PARAMS_TYPE_SCALING,
        aps_adaptation_parameter_set_id: 0,
        aps_chroma_present_flag: false,
        payload: VvcApsPayload::ScalingList(Box::new(d.clone())),
        aps_extension_flag: false,
    };
    assert!(write_aps(&aps(&d)).is_ok());
    d.pred_mode_flag[2] = true;
    assert!(matches!(write_aps(&aps(&d)), Err(BitstreamError::InvalidData(_))));
    d.pred_mode_flag[2] = false;
    d.pred_id_delta[5] = 4; // exceeds 3
    assert!(matches!(write_aps(&aps(&d)), Err(BitstreamError::InvalidData(_))));
    d.pred_id_delta[5] = 3;
    assert!(write_aps(&aps(&d)).is_ok());
    d.copy_mode_flag[26] = false;
    d.scaling_list[26] = [0; 64];
    assert!(write_aps(&aps(&d)).is_ok());
    d.scaling_list[26][63] = 1; // in the skipped quadrant
    assert!(matches!(write_aps(&aps(&d)), Err(BitstreamError::InvalidData(_))));
    d.scaling_list[26][63] = 0;
    d.scaling_list[26][1] = 128; // step out of range
    assert!(matches!(write_aps(&aps(&d)), Err(BitstreamError::InvalidData(_))));
}

#[test]
fn alf_writer_rejects_inferred_values_that_are_set() {
    let aps = |d: VvcAlfData| VvcAps {
        aps_params_type: APS_PARAMS_TYPE_ALF,
        aps_adaptation_parameter_set_id: 0,
        aps_chroma_present_flag: false,
        payload: VvcApsPayload::Alf(Box::new(d)),
        aps_extension_flag: false,
    };
    let luma = VvcAlfLuma {
        coeff_abs: vec![[0; 12]],
        coeff_sign: vec![[false; 12]],
        ..VvcAlfLuma::default()
    };
    let alf = |luma: &VvcAlfLuma| VvcAlfData {
        alf_luma_filter_signal_flag: true,
        luma: Some(luma.clone()),
        ..VvcAlfData::default()
    };
    let rbsp = write_aps(&aps(alf(&luma))).unwrap();
    assert_eq!(parse_aps_rbsp(&rbsp).unwrap(), aps(alf(&luma)));
    let mut bad = luma.clone();
    bad.coeff_sign[0][3] = true;
    assert!(matches!(write_aps(&aps(alf(&bad))), Err(BitstreamError::InvalidData(_))));
    let mut bad = luma.clone();
    bad.alf_luma_coeff_delta_idx[24] = 1;
    assert!(matches!(write_aps(&aps(alf(&bad))), Err(BitstreamError::InvalidData(_))));
    let mut bad = luma.clone();
    bad.clip_idx = vec![[0; 12]];
    assert!(matches!(write_aps(&aps(alf(&bad))), Err(BitstreamError::InvalidData(_))));
    assert!(matches!(
        write_aps(&aps(VvcAlfData { alf_chroma_filter_signal_flag: true, ..VvcAlfData::default() })),
        Err(BitstreamError::InvalidData(_))
    ));
}

#[test]
fn lmcs_max_bin_index_saturates() {
    let d = VvcLmcsData { lmcs_delta_max_bin_idx: 4, ..VvcLmcsData::default() };
    assert_eq!(d.lmcs_max_bin_idx(), 11);
    let d = VvcLmcsData { lmcs_delta_max_bin_idx: 200, ..VvcLmcsData::default() };
    assert_eq!(d.lmcs_max_bin_idx(), 0);
}
