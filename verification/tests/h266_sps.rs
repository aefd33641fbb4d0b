//! H.266 sequence parameter sets.
use oxideav_bitstream::h266::sps::{
    VvcChromaQpTable, VvcLadf, VvcSps, VvcSpsRangeExtension, VvcSpsTimingHrd, VvcSubpicEntry,
    VvcSubpicInfo, parse_sps, write_sps, write_sps_nal,
};
use oxideav_bitstream::BitstreamError;
use oxideav_bitstream::bit_writer::BitWriter;
use oxideav_bitstream::h266::{NAL_TYPE_SPS, VvcProfileTierLevel};
use oxideav_bitstream::h266::params::{
    VvcDpbParameters, VvcGeneralTimingHrd, VvcOlsTimingHrd, VvcRefPicListStruct,
};
use oxideav_bitstream::h266::params::{
    VvcCpbSchedule, VvcDpbEntry, VvcOlsTimingHrdSublayer, VvcRplsEntry, VvcSublayerHrd,
};

fn minimal_sps() -> VvcSps {
    VvcSps {
        sps_chroma_format_idc: 1,
        sps_log2_ctu_size_minus5: 2,
        sps_pic_width_max_in_luma_samples: 1920,
        sps_pic_height_max_in_luma_samples: 1080,
        sps_bitdepth_minus8: 2,
        sps_same_qp_table_for_chroma_flag: 1,
        chroma_qp_tables: vec![VvcChromaQpTable {
            sps_qp_table_start_minus26: 0,
            points: vec![(0, 0)],
        }],
        sps_chroma_horizontal_collocated_flag: 1,
        sps_chroma_vertical_collocated_flag: 1,
        ..Default::default()
    }
}

fn minimal_ptl() -> VvcProfileTierLevel {
    VvcProfileTierLevel {
        general_profile_idc: Some(1),
        general_tier_flag: Some(0),
        general_level_idc: 51,
        ptl_frame_only_constraint_flag: 1,
        ptl_multilayer_enabled_flag: 0,
        ptl_sublayer_level_present_flag: vec![],
        sublayer_level_idc: vec![],
        general_sub_profile_idc: vec![],
        gci_present_flag: false,
        gci_bits: vec![],
    }
}

/// write → parse → identical struct, and parse → write → identical
/// bytes (the crate's byte-exact contract).
fn assert_roundtrip(sps: &VvcSps) {
    let nal = write_sps_nal(sps).expect("SPS writes");
    let parsed = parse_sps(&nal).expect("written SPS parses");
    assert_eq!(&parsed, sps, "struct round-trip");
    let rewritten = write_sps_nal(&parsed).expect("re-write");
    assert_eq!(rewritten, nal, "byte round-trip");
}

#[test]
fn minimal_1080p10_roundtrips() {
    let sps = minimal_sps();
    assert_roundtrip(&sps);
    let nal = write_sps_nal(&sps).unwrap();
    let parsed = parse_sps(&nal).unwrap();
    assert_eq!(parsed.sps_pic_width_max_in_luma_samples, 1920);
    assert_eq!(parsed.sps_pic_height_max_in_luma_samples, 1080);
    assert_eq!(parsed.bit_depth(), 10);
    assert_eq!(parsed.ctb_size_y(), 128);
    assert_eq!(parsed.poc_lsb_width(), 4);
    assert!(parsed.profile_tier_level.is_none());
    assert!(parsed.subpic_info.is_none());
}

#[test]
fn ptl_dpb_and_conf_window_roundtrip() {
    let mut sps = minimal_sps();
    sps.profile_tier_level = Some(minimal_ptl());
    sps.dpb_parameters = Some(VvcDpbParameters {
        entries: vec![VvcDpbEntry {
            dpb_max_dec_pic_buffering_minus1: 7,
            dpb_max_num_reorder_pics: 3,
            dpb_max_latency_increase_plus1: 0,
        }],
    });
    sps.sps_conf_win_offsets = Some((0, 0, 0, 4));
    sps.sps_log2_max_pic_order_cnt_lsb_minus4 = 4;
    sps.sps_poc_msb_cycle_len_minus1 = Some(3);
    assert_roundtrip(&sps);
}

#[test]
fn multi_sublayer_dpb_and_hrd_roundtrip() {
    let mut sps = minimal_sps();
    sps.sps_max_sublayers_minus1 = 2;
    let mut ptl = minimal_ptl();
    ptl.ptl_sublayer_level_present_flag = vec![0, 0];
    sps.profile_tier_level = Some(ptl);
    sps.sps_sublayer_dpb_params_flag = 1;
    sps.dpb_parameters = Some(VvcDpbParameters {
        entries: (0..3)
            .map(|i| VvcDpbEntry {
                dpb_max_dec_pic_buffering_minus1: 4 + i,
                dpb_max_num_reorder_pics: i,
                dpb_max_latency_increase_plus1: 0,
            })
            .collect(),
    });
    // NAL HRD with one CPB schedule, DU disabled, all sublayers.
    let general = VvcGeneralTimingHrd {
        num_units_in_tick: 1001,
        time_scale: 60000,
        general_nal_hrd_params_present_flag: 1,
        general_vcl_hrd_params_present_flag: 0,
        general_same_pic_timing_in_all_ols_flag: 1,
        general_du_hrd_params_present_flag: 0,
        bit_rate_scale: 2,
        cpb_size_scale: 3,
        hrd_cpb_cnt_minus1: 0,
        ..Default::default()
    };
    let sublayer = VvcOlsTimingHrdSublayer {
        fixed_pic_rate_general_flag: 1,
        fixed_pic_rate_within_cvs_flag: 1,
        elemental_duration_in_tc_minus1: 0,
        low_delay_hrd_flag: 0,
        nal_hrd: Some(VvcSublayerHrd {
            schedules: vec![VvcCpbSchedule {
                bit_rate_value_minus1: 49999,
                cpb_size_value_minus1: 99999,
                du_values_minus1: None,
                cbr_flag: 1,
            }],
        }),
        vcl_hrd: None,
    };
    sps.timing_hrd = Some(VvcSpsTimingHrd {
        general,
        sps_sublayer_cpb_params_present_flag: 1,
        ols: VvcOlsTimingHrd {
            sublayers: vec![sublayer.clone(), sublayer.clone(), sublayer],
        },
    });
    assert_roundtrip(&sps);
}

#[test]
fn subpic_2x2_explicit_geometry_roundtrips() {
    // 3840x2160 CTU-64 → 60x34 CTUs; 2x2 subpicture grid with
    // explicit per-subpic geometry and id mapping in the SPS.
    let mut sps = minimal_sps();
    sps.sps_log2_ctu_size_minus5 = 1; // CTU 64
    sps.sps_pic_width_max_in_luma_samples = 3840;
    sps.sps_pic_height_max_in_luma_samples = 2160;
    let entry = |x: u32, y: u32, w: u32, h: u32| VvcSubpicEntry {
        sps_subpic_ctu_top_left_x: x,
        sps_subpic_ctu_top_left_y: y,
        sps_subpic_width_minus1: w,
        sps_subpic_height_minus1: h,
        sps_subpic_treated_as_pic_flag: 1,
        sps_loop_filter_across_subpic_enabled_flag: 0,
    };
    sps.subpic_info = Some(VvcSubpicInfo {
        sps_num_subpics_minus1: 3,
        sps_independent_subpics_flag: 1,
        sps_subpic_same_size_flag: 0,
        entries: vec![
            entry(0, 0, 29, 16),
            entry(30, 0, 29, 16),
            entry(0, 17, 29, 16),
            entry(30, 17, 29, 16),
        ],
        sps_subpic_id_len_minus1: 3,
        sps_subpic_id_mapping_explicitly_signalled_flag: 1,
        sps_subpic_id_mapping_present_flag: 1,
        sps_subpic_ids: vec![9, 8, 7, 6],
    });
    assert_roundtrip(&sps);
}

#[test]
fn subpic_same_size_grid_infers_geometry() {
    // 2x2 same-size grid on a 60x34-CTU picture is impossible (34
    // is not divisible by 17? it is: 34 / 17 = 2) — use 30x17 CTU
    // subpics so the grid tiles exactly and all geometry except
    // entry 0's width/height is inferred.
    let mut sps = minimal_sps();
    sps.sps_log2_ctu_size_minus5 = 1; // CTU 64
    sps.sps_pic_width_max_in_luma_samples = 3840; // 60 CTUs
    sps.sps_pic_height_max_in_luma_samples = 2176; // 34 CTUs
    let mut entries = Vec::new();
    for i in 0..4u32 {
        entries.push(VvcSubpicEntry {
            sps_subpic_ctu_top_left_x: (i % 2) * 30,
            sps_subpic_ctu_top_left_y: (i / 2) * 17,
            sps_subpic_width_minus1: 29,
            sps_subpic_height_minus1: 16,
            sps_subpic_treated_as_pic_flag: 1,
            sps_loop_filter_across_subpic_enabled_flag: 0,
        });
    }
    sps.subpic_info = Some(VvcSubpicInfo {
        sps_num_subpics_minus1: 3,
        sps_independent_subpics_flag: 1,
        sps_subpic_same_size_flag: 1,
        entries,
        sps_subpic_id_len_minus1: 1,
        sps_subpic_id_mapping_explicitly_signalled_flag: 0,
        sps_subpic_id_mapping_present_flag: 0,
        sps_subpic_ids: vec![],
    });
    assert_roundtrip(&sps);
}

#[test]
fn rpl_templates_with_lt_and_st_roundtrip() {
    let mut sps = minimal_sps();
    sps.sps_long_term_ref_pics_flag = 1;
    sps.sps_log2_max_pic_order_cnt_lsb_minus4 = 4;
    let rpls = VvcRefPicListStruct {
        ltrp_in_header_flag: 0,
        entries: vec![
            VvcRplsEntry::ShortTerm {
                abs_delta_poc_st: 1,
                strp_entry_sign_flag: 0,
            },
            VvcRplsEntry::ShortTerm {
                abs_delta_poc_st: 0,
                strp_entry_sign_flag: 0,
            },
            VvcRplsEntry::LongTerm {
                rpls_poc_lsb_lt: Some(0xa5),
            },
        ],
    };
    sps.sps_ref_pic_lists[0] = vec![rpls.clone()];
    sps.sps_rpl1_same_as_rpl0_flag = 0;
    sps.sps_ref_pic_lists[1] = vec![rpls];
    assert_roundtrip(&sps);

    // rpl1_same_as_rpl0: list 1 must be empty and uncoded.
    let mut sps2 = minimal_sps();
    sps2.sps_rpl1_same_as_rpl0_flag = 1;
    sps2.sps_ref_pic_lists[0] = vec![VvcRefPicListStruct {
        ltrp_in_header_flag: 1,
        entries: vec![VvcRplsEntry::ShortTerm {
            abs_delta_poc_st: 2,
            strp_entry_sign_flag: 1,
        }],
    }];
    assert_roundtrip(&sps2);
}

#[test]
fn tool_flags_qp_tables_ladf_vbnd_roundtrip() {
    let mut sps = minimal_sps();
    sps.sps_transform_skip_enabled_flag = 1;
    sps.sps_log2_transform_skip_max_size_minus2 = 2;
    sps.sps_bdpcm_enabled_flag = 1;
    sps.sps_mts_enabled_flag = 1;
    sps.sps_explicit_mts_intra_enabled_flag = 1;
    sps.sps_lfnst_enabled_flag = 1;
    sps.sps_joint_cbcr_enabled_flag = 1;
    sps.sps_same_qp_table_for_chroma_flag = 0;
    sps.chroma_qp_tables = vec![
        VvcChromaQpTable {
            sps_qp_table_start_minus26: -9,
            points: vec![(3, 1), (2, 0)],
        },
        VvcChromaQpTable {
            sps_qp_table_start_minus26: 0,
            points: vec![(0, 0)],
        },
        VvcChromaQpTable {
            sps_qp_table_start_minus26: 5,
            points: vec![(1, 2)],
        },
    ];
    sps.sps_alf_enabled_flag = 1;
    sps.sps_ccalf_enabled_flag = 1;
    sps.sps_temporal_mvp_enabled_flag = 1;
    sps.sps_sbtmvp_enabled_flag = 1;
    sps.sps_amvr_enabled_flag = 1;
    sps.sps_bdof_enabled_flag = 1;
    sps.sps_bdof_control_present_in_ph_flag = 1;
    sps.sps_affine_enabled_flag = 1;
    sps.sps_five_minus_max_num_subblock_merge_cand = 2;
    sps.sps_6param_affine_enabled_flag = 1;
    sps.sps_affine_amvr_enabled_flag = 1;
    sps.sps_affine_prof_enabled_flag = 1;
    sps.sps_prof_control_present_in_ph_flag = 1;
    sps.sps_gpm_enabled_flag = 1; // MaxNumMergeCand = 6 >= 3
    sps.sps_max_num_merge_cand_minus_max_num_gpm_cand = 1;
    sps.sps_min_qp_prime_ts = 4; // transform skip enabled
    sps.sps_ibc_enabled_flag = 1;
    sps.sps_six_minus_max_num_ibc_merge_cand = 2;
    sps.ladf = Some(VvcLadf {
        sps_ladf_lowest_interval_qp_offset: -3,
        intervals: vec![(2, 9), (-2, 19)],
    });
    sps.sps_explicit_scaling_list_enabled_flag = 1;
    sps.sps_scaling_matrix_for_lfnst_disabled_flag = 1;
    sps.sps_virtual_boundaries_enabled_flag = 1;
    sps.sps_virtual_boundaries_present_flag = 1;
    sps.sps_virtual_boundary_pos_x_minus1 = vec![10, 50];
    sps.sps_virtual_boundary_pos_y_minus1 = vec![30];
    assert_roundtrip(&sps);
}

#[test]
fn vui_payload_and_range_extension_roundtrip() {
    let mut sps = minimal_sps();
    sps.sps_field_seq_flag = 1;
    sps.vui_payload = Some(vec![0xde, 0xad, 0xbe, 0xef, 0x80]);
    sps.sps_transform_skip_enabled_flag = 1;
    sps.sps_log2_transform_skip_max_size_minus2 = 1;
    sps.sps_min_qp_prime_ts = 0;
    sps.sps_extension_flag = 1;
    sps.range_extension = Some(VvcSpsRangeExtension {
        sps_extended_precision_flag: 1,
        sps_ts_residual_coding_rice_present_in_sh_flag: 1,
        sps_rrc_rice_extension_flag: 0,
        sps_persistent_rice_adaptation_enabled_flag: 1,
        sps_reverse_last_sig_coeff_enabled_flag: 0,
    });
    assert_roundtrip(&sps);
}

#[test]
fn extension_7bits_data_retained_verbatim() {
    let mut sps = minimal_sps();
    sps.sps_extension_flag = 1;
    sps.sps_extension_7bits = 0x40;
    sps.sps_extension_data = vec![1, 0, 0, 1, 1];
    assert_roundtrip(&sps);
    // A trailing 0 extension bit is unrepresentable: more_rbsp_data()
    // would fold it into the rbsp_trailing_bits padding on re-parse,
    // so the writer must refuse it rather than lose the bit.
    sps.sps_extension_data = vec![1, 0, 1, 1, 0];
    assert!(write_sps(&sps).is_err());
}

#[test]
fn monochrome_no_qp_tables_roundtrips() {
    let mut sps = minimal_sps();
    sps.sps_chroma_format_idc = 0;
    sps.chroma_qp_tables = vec![];
    sps.sps_same_qp_table_for_chroma_flag = 1; // inferred value
    assert_roundtrip(&sps);
}

#[test]
fn rejects_wrong_nal_type_and_truncation() {
    let mut nal = vec![0u8; 4];
    nal[1] = (oxideav_bitstream::h266::NAL_TYPE_PPS << 3) | 1;
    assert!(matches!(
        parse_sps(&nal),
        Err(BitstreamError::InvalidData(_))
    ));
    assert!(matches!(
        parse_sps(&[0x00]),
        Err(BitstreamError::UnexpectedEnd(_))
    ));
    // A truncated but well-formed prefix must be caught by the
    // final rbsp_trailing_bits check, not silently zero-filled.
    let full = write_sps_nal(&minimal_sps()).unwrap();
    let cut = &full[..full.len() - 1];
    assert!(parse_sps(cut).is_err());
}

#[test]
fn rejects_out_of_range_fields() {
    // sps_max_sublayers_minus1 = 7 (reserved).
    let mut sps = minimal_sps();
    sps.sps_max_sublayers_minus1 = 7;
    assert!(write_sps(&sps).is_err());
    // bitdepth > 8.
    let mut sps = minimal_sps();
    sps.sps_bitdepth_minus8 = 9;
    assert!(write_sps(&sps).is_err());
    // log2_max_poc out of envelope, via bytes: take a valid SPS
    // and set the u(4) field to 13 through a struct write attempt.
    let mut sps = minimal_sps();
    sps.sps_log2_max_pic_order_cnt_lsb_minus4 = 13;
    assert!(write_sps(&sps).is_err());
    // qp-table count mismatch.
    let mut sps = minimal_sps();
    sps.chroma_qp_tables = vec![];
    assert!(write_sps(&sps).is_err());
}

#[test]
fn hand_written_full_rbsp_is_byte_exact() {
    // Build a complete no-PTL 1080p10 SPS RBSP with BitWriter,
    // field by field per §7.3.2.4, then confirm parse → write
    // reproduces it byte-exactly.
    let mut w = BitWriter::new();
    w.write_bits(3, 4); // sps_seq_parameter_set_id
    w.write_bits(0, 4); // sps_video_parameter_set_id
    w.write_bits(0, 3); // sps_max_sublayers_minus1
    w.write_bits(1, 2); // sps_chroma_format_idc
    w.write_bits(2, 2); // sps_log2_ctu_size_minus5
    w.write_bit(0); // sps_ptl_dpb_hrd_params_present_flag
    w.write_bit(0); // sps_gdr_enabled_flag
    w.write_bit(0); // sps_ref_pic_resampling_enabled_flag
    w.write_ue(1920).unwrap();
    w.write_ue(1080).unwrap();
    w.write_bit(0); // sps_conformance_window_flag
    w.write_bit(0); // sps_subpic_info_present_flag
    w.write_ue(2).unwrap(); // sps_bitdepth_minus8
    w.write_bit(1); // sps_entropy_coding_sync_enabled_flag
    w.write_bit(0); // sps_entry_point_offsets_present_flag
    w.write_bits(4, 4); // sps_log2_max_pic_order_cnt_lsb_minus4
    w.write_bit(0); // sps_poc_msb_cycle_flag
    w.write_bits(0, 2); // sps_num_extra_ph_bytes
    w.write_bits(0, 2); // sps_num_extra_sh_bytes
    w.write_ue(0).unwrap(); // sps_log2_min_luma_coding_block_size_minus2
    w.write_bit(0); // sps_partition_constraints_override_enabled_flag
    w.write_ue(0).unwrap(); // sps_log2_diff_min_qt_min_cb_intra_slice_luma
    w.write_ue(0).unwrap(); // sps_max_mtt_hierarchy_depth_intra_slice_luma
    w.write_bit(0); // sps_qtbtt_dual_tree_intra_flag
    w.write_ue(0).unwrap(); // sps_log2_diff_min_qt_min_cb_inter_slice
    w.write_ue(0).unwrap(); // sps_max_mtt_hierarchy_depth_inter_slice
    w.write_bit(0); // sps_max_luma_transform_size_64_flag (CTU 128 > 32)
    w.write_bit(0); // sps_transform_skip_enabled_flag
    w.write_bit(0); // sps_mts_enabled_flag
    w.write_bit(0); // sps_lfnst_enabled_flag
    w.write_bit(0); // sps_joint_cbcr_enabled_flag
    w.write_bit(1); // sps_same_qp_table_for_chroma_flag
    w.write_se(0).unwrap(); // sps_qp_table_start_minus26
    w.write_ue(0).unwrap(); // sps_num_points_in_qp_table_minus1
    w.write_ue(1).unwrap(); // sps_delta_qp_in_val_minus1[0][0]
    w.write_ue(0).unwrap(); // sps_delta_qp_diff_val[0][0]
    w.write_bit(1); // sps_sao_enabled_flag
    w.write_bit(0); // sps_alf_enabled_flag
    w.write_bit(0); // sps_lmcs_enabled_flag
    w.write_bit(0); // sps_weighted_pred_flag
    w.write_bit(0); // sps_weighted_bipred_flag
    w.write_bit(0); // sps_long_term_ref_pics_flag
    w.write_bit(0); // sps_idr_rpl_present_flag
    w.write_bit(0); // sps_rpl1_same_as_rpl0_flag
    w.write_ue(0).unwrap(); // sps_num_ref_pic_lists[0]
    w.write_ue(0).unwrap(); // sps_num_ref_pic_lists[1]
    w.write_bit(0); // sps_ref_wraparound_enabled_flag
    w.write_bit(0); // sps_temporal_mvp_enabled_flag
    w.write_bit(0); // sps_amvr_enabled_flag
    w.write_bit(0); // sps_bdof_enabled_flag
    w.write_bit(0); // sps_smvd_enabled_flag
    w.write_bit(0); // sps_dmvr_enabled_flag
    w.write_bit(0); // sps_mmvd_enabled_flag
    w.write_ue(0).unwrap(); // sps_six_minus_max_num_merge_cand → MaxNumMergeCand 6
    w.write_bit(0); // sps_sbt_enabled_flag
    w.write_bit(0); // sps_affine_enabled_flag
    w.write_bit(0); // sps_bcw_enabled_flag
    w.write_bit(0); // sps_ciip_enabled_flag
    w.write_bit(0); // sps_gpm_enabled_flag (MaxNumMergeCand >= 2)
    w.write_ue(0).unwrap(); // sps_log2_parallel_merge_level_minus2
    w.write_bit(0); // sps_isp_enabled_flag
    w.write_bit(0); // sps_mrl_enabled_flag
    w.write_bit(0); // sps_mip_enabled_flag
    w.write_bit(0); // sps_cclm_enabled_flag
    w.write_bit(1); // sps_chroma_horizontal_collocated_flag
    w.write_bit(1); // sps_chroma_vertical_collocated_flag
    w.write_bit(0); // sps_palette_enabled_flag
    w.write_bit(0); // sps_ibc_enabled_flag
    w.write_bit(0); // sps_ladf_enabled_flag
    w.write_bit(0); // sps_explicit_scaling_list_enabled_flag
    w.write_bit(0); // sps_dep_quant_enabled_flag
    w.write_bit(0); // sps_sign_data_hiding_enabled_flag
    w.write_bit(0); // sps_virtual_boundaries_enabled_flag
    w.write_bit(0); // sps_field_seq_flag
    w.write_bit(0); // sps_vui_parameters_present_flag
    w.write_bit(0); // sps_extension_flag
    w.write_rbsp_trailing_bits();
    let rbsp = w.finish();
    let mut nal = vec![0x00, (NAL_TYPE_SPS << 3) | 0x01];
    nal.extend_from_slice(&rbsp);
    let sps = parse_sps(&nal).expect("hand-written SPS parses");
    assert_eq!(sps.sps_seq_parameter_set_id, 3);
    assert_eq!(sps.sps_entropy_coding_sync_enabled_flag, 1);
    assert_eq!(sps.sps_sao_enabled_flag, 1);
    assert_eq!(sps.poc_lsb_width(), 8);
    assert_eq!(sps.max_num_merge_cand(), 6);
    assert_eq!(write_sps(&sps).expect("re-writes"), rbsp, "byte-exact");
}
