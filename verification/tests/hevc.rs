//! HEVC parameter sets, slice headers and access unit delimiters.
use oxideav_bitstream::hevc::{
    HEVC_PIC_TYPE_B_P_OR_I, HEVC_PIC_TYPE_MAX, HevcAccessUnitDelimiter, HevcConformanceWindow,
    HevcDefaultDisplayWindow, HevcPps, HevcSps, HevcVui, NAL_TYPE_CRA, NAL_TYPE_IDR_N_LP,
    NAL_TYPE_IDR_W_RADL, NAL_TYPE_PPS, NAL_TYPE_SPS, NAL_TYPE_VPS, ebsp_to_rbsp, is_irap,
    nal_header, parse_aud_nal, parse_idr_only, parse_pps_nal, parse_slice_header_minimal,
    parse_sps_nal, parse_vps_nal, split_annex_b, write_aud_nal,
};
use oxideav_bitstream::BitstreamError;
use oxideav_bitstream::bit_writer::BitWriter;

#[test]
fn split_finds_three_nals() {
    let buf = [
        0, 0, 0, 1, 0x40, 0x01, 0xaa, // VPS
        0, 0, 1, 0x42, 0x01, 0xbb, // SPS
        0, 0, 0, 1, 0x28, 0x01, 0xcc, // IDR
    ];
    let nals = split_annex_b(&buf);
    assert_eq!(nals.len(), 3);
}

#[test]
fn nal_header_decodes_vps() {
    // 0x40 = 0100_0000, 0x01 = 0000_0001.
    // forbidden=0, nal_unit_type = (0x40>>1)&0x3f = 0x20 = 32 (VPS).
    let (f, t, l, tid) = nal_header(0x40, 0x01);
    assert_eq!(f, 0);
    assert_eq!(t, NAL_TYPE_VPS);
    assert_eq!(l, 0);
    assert_eq!(tid, 1);
}

#[test]
fn ebsp_to_rbsp_strips_03_in_zero_zero_run() {
    let ebsp = [0x00, 0x00, 0x03, 0x01];
    let rbsp = ebsp_to_rbsp(&ebsp);
    assert_eq!(rbsp, &[0x00, 0x00, 0x01]);
}

/// Emit the SPS body from the start through
/// `max_transform_hierarchy_depth_intra`, leaving the writer
/// positioned at `scaling_list_enabled_flag`. Values describe a
/// simple 320×240 4:2:0 Main-profile stream.
fn write_sps_prefix(w: &mut oxideav_bitstream::bit_writer::BitWriter) {
    w.write_bits(0, 4); // sps_video_parameter_set_id
    w.write_bits(0, 3); // sps_max_sub_layers_minus1
    w.write_bit(1); // sps_temporal_id_nesting_flag
                    // profile_tier_level(1, 0): 2+1+5+32+4+32+11+1 = 88 bits + 8 level
    w.write_bits(0, 2); // general_profile_space
    w.write_bit(0); // general_tier_flag
    w.write_bits(1, 5); // general_profile_idc = 1 (Main)
    w.write_bits(0x6000_0000, 32); // compatibility flags
    w.write_bits(0, 4); // source/constraint top flags
    w.write_bits(0, 32); // reserved mid
    w.write_bits(0, 11); // reserved bottom
    w.write_bit(0); // inbld/reserved
    w.write_bits(63, 8); // general_level_idc
    w.write_ue(0).unwrap(); // sps_seq_parameter_set_id
    w.write_ue(1).unwrap(); // chroma_format_idc = 1
    w.write_ue(320).unwrap(); // pic_width_in_luma_samples
    w.write_ue(240).unwrap(); // pic_height_in_luma_samples
    w.write_bit(0); // conformance_window_flag
    w.write_ue(0).unwrap(); // bit_depth_luma_minus8
    w.write_ue(0).unwrap(); // bit_depth_chroma_minus8
    w.write_ue(4).unwrap(); // log2_max_pic_order_cnt_lsb_minus4
    w.write_bit(1); // sps_sub_layer_ordering_info_present_flag
    w.write_ue(4).unwrap(); // sps_max_dec_pic_buffering_minus1
    w.write_ue(0).unwrap(); // sps_max_num_reorder_pics
    w.write_ue(0).unwrap(); // sps_max_latency_increase_plus1
    w.write_ue(0).unwrap(); // log2_min_luma_coding_block_size_minus3
    w.write_ue(3).unwrap(); // log2_diff_max_min_luma_coding_block_size
    w.write_ue(0).unwrap(); // log2_min_luma_transform_block_size_minus2
    w.write_ue(3).unwrap(); // log2_diff_max_min_luma_transform_block_size
    w.write_ue(0).unwrap(); // max_transform_hierarchy_depth_inter
    w.write_ue(0).unwrap(); // max_transform_hierarchy_depth_intra
}

/// Wrap an SPS RBSP into a NAL (2-byte header, type 33).
fn sps_nal_from(w: oxideav_bitstream::bit_writer::BitWriter) -> Vec<u8> {
    let mut nal = vec![NAL_TYPE_SPS << 1, 0x01];
    nal.extend_from_slice(&oxideav_bitstream::nal::rbsp_to_ebsp(&w.finish()));
    nal
}

#[test]
fn sps_with_pcm_st_rps_long_term_and_vui_parses() {
    let mut w = oxideav_bitstream::bit_writer::BitWriter::new();
    write_sps_prefix(&mut w);
    w.write_bit(0); // scaling_list_enabled_flag
    w.write_bit(1); // amp_enabled_flag
    w.write_bit(1); // sample_adaptive_offset_enabled_flag
    w.write_bit(1); // pcm_enabled_flag
    w.write_bits(7, 4); // pcm_sample_bit_depth_luma_minus1
    w.write_bits(7, 4); // pcm_sample_bit_depth_chroma_minus1
    w.write_ue(0).unwrap(); // log2_min_pcm_luma_coding_block_size_minus3
    w.write_ue(2).unwrap(); // log2_diff_max_min_pcm_luma_coding_block_size
    w.write_bit(1); // pcm_loop_filter_disabled_flag

    // Two short-term RPS: set 0 explicit (2 negative), set 1
    // predicted from set 0 with deltaRps = -1.
    w.write_ue(2).unwrap(); // num_short_term_ref_pic_sets
                            // set 0 (no inter flag for idx 0):
    w.write_ue(2).unwrap(); // num_negative_pics
    w.write_ue(0).unwrap(); // num_positive_pics
    w.write_ue(0).unwrap(); // delta_poc_s0_minus1[0] → DeltaPocS0 = -1
    w.write_bit(1); // used_by_curr_pic_s0_flag[0]
    w.write_ue(0).unwrap(); // delta_poc_s0_minus1[1] → DeltaPocS0 = -2
    w.write_bit(1); // used_by_curr_pic_s0_flag[1]
                    // set 1 (predicted):
    w.write_bit(1); // inter_ref_pic_set_prediction_flag
    w.write_bit(1); // delta_rps_sign = 1
    w.write_ue(0).unwrap(); // abs_delta_rps_minus1 → deltaRps = -1
    w.write_bit(1); // used_by_curr_pic_flag[0]
    w.write_bit(0); // used_by_curr_pic_flag[1]
    w.write_bit(1); // use_delta_flag[1]
    w.write_bit(1); // used_by_curr_pic_flag[2]

    w.write_bit(1); // long_term_ref_pics_present_flag
    w.write_ue(1).unwrap(); // num_long_term_ref_pics_sps
    w.write_bits(200, 8); // lt_ref_pic_poc_lsb_sps[0] (u(4+4))
    w.write_bit(1); // used_by_curr_pic_lt_sps_flag[0]

    w.write_bit(1); // sps_temporal_mvp_enabled_flag
    w.write_bit(1); // strong_intra_smoothing_enabled_flag

    w.write_bit(1); // vui_parameters_present_flag
    w.write_bit(1); // aspect_ratio_info_present_flag
    w.write_bits(255, 8); // EXTENDED_SAR
    w.write_bits(3, 16); // sar_width
    w.write_bits(2, 16); // sar_height
    w.write_bit(0); // overscan_info_present_flag
    w.write_bit(0); // video_signal_type_present_flag
    w.write_bit(0); // chroma_loc_info_present_flag
    w.write_bit(0); // neutral_chroma_indication_flag
    w.write_bit(0); // field_seq_flag
    w.write_bit(0); // frame_field_info_present_flag
    w.write_bit(1); // default_display_window_flag
    w.write_ue(1).unwrap(); // left
    w.write_ue(2).unwrap(); // right
    w.write_ue(3).unwrap(); // top
    w.write_ue(4).unwrap(); // bottom
    w.write_bit(1); // vui_timing_info_present_flag
    w.write_bits(1001, 32); // vui_num_units_in_tick
    w.write_bits(30000, 32); // vui_time_scale
    w.write_bit(0); // vui_poc_proportional_to_timing_flag
    w.write_bit(1); // vui_hrd_parameters_present_flag
                    // hrd_parameters(1, 0):
    w.write_bit(1); // nal_hrd_parameters_present_flag
    w.write_bit(0); // vcl_hrd_parameters_present_flag
    w.write_bit(0); // sub_pic_hrd_params_present_flag
    w.write_bits(1, 4); // bit_rate_scale
    w.write_bits(2, 4); // cpb_size_scale
    w.write_bits(23, 5); // initial_cpb_removal_delay_length_minus1
    w.write_bits(15, 5); // au_cpb_removal_delay_length_minus1
    w.write_bits(5, 5); // dpb_output_delay_length_minus1
                        // sub-layer 0:
    w.write_bit(0); // fixed_pic_rate_general_flag
    w.write_bit(0); // fixed_pic_rate_within_cvs_flag
    w.write_bit(0); // low_delay_hrd_flag
    w.write_ue(0).unwrap(); // cpb_cnt_minus1
                            // sub_layer_hrd_parameters (1 entry, no sub-pic):
    w.write_ue(1999).unwrap(); // bit_rate_value_minus1
    w.write_ue(2999).unwrap(); // cpb_size_value_minus1
    w.write_bit(1); // cbr_flag
    w.write_bit(0); // bitstream_restriction_flag
    w.write_bit(0); // sps_extension_present_flag
    w.write_rbsp_trailing_bits();

    let sps = parse_sps_nal(&sps_nal_from(w)).expect("full SPS parses");
    assert!(sps.pcm_enabled_flag);
    assert_eq!(sps.pcm_sample_bit_depth_luma_minus1, 7);
    assert_eq!(sps.log2_diff_max_min_pcm_luma_coding_block_size, 2);
    assert!(sps.pcm_loop_filter_disabled_flag);

    assert_eq!(sps.num_short_term_ref_pic_sets, 2);
    assert_eq!(sps.short_term_rps.len(), 2);
    let s0 = &sps.short_term_rps[0];
    assert_eq!(s0.delta_poc_s0, vec![-1, -2]);
    assert_eq!(s0.used_by_curr_pic_s0, vec![true, true]);
    assert_eq!(s0.num_positive_pics(), 0);
    // Set 1 derivation (7-61): deltaRps=-1 →
    //   push (deltaRps=-1, used[2]=true),
    //   then -1-1=-2 (used[0]=true), -2-1=-3 (used[1]=false).
    let s1 = &sps.short_term_rps[1];
    assert_eq!(s1.delta_poc_s0, vec![-1, -2, -3]);
    assert_eq!(s1.used_by_curr_pic_s0, vec![true, true, false]);
    assert_eq!(s1.num_delta_pocs(), 3);

    assert!(sps.long_term_ref_pics_present_flag);
    assert_eq!(sps.long_term_ref_pics, vec![(200, true)]);

    let vui = sps.vui.expect("VUI parsed");
    assert_eq!(vui.sample_aspect_ratio(), Some((3, 2)));
    assert_eq!(
        vui.default_display_window,
        Some(HevcDefaultDisplayWindow {
            left: 1,
            right: 2,
            top: 3,
            bottom: 4
        })
    );
    assert_eq!(vui.picture_rate(), Some((30000, 1001)));
    let hrd = vui.hrd_parameters.expect("HRD parsed");
    assert!(hrd.nal_hrd_parameters_present_flag);
    assert_eq!(hrd.bit_rate_scale, 1);
    assert_eq!(hrd.sub_layers.len(), 1);
    let sl = &hrd.sub_layers[0];
    assert_eq!(sl.cpb_cnt_minus1, 0);
    assert_eq!(sl.nal_cpb.len(), 1);
    assert_eq!(sl.nal_cpb[0].bit_rate_value_minus1, 1999);
    assert!(sl.nal_cpb[0].cbr_flag);
    assert!(sl.vcl_cpb.is_empty());
}

#[test]
fn sps_scaling_list_data_explicit_and_predicted() {
    let mut w = oxideav_bitstream::bit_writer::BitWriter::new();
    write_sps_prefix(&mut w);
    w.write_bit(1); // scaling_list_enabled_flag
    w.write_bit(1); // sps_scaling_list_data_present_flag
                    // scaling_list_data(): sizeId 0, matrixId 0 explicit ramp;
                    // every other list predicted with delta 0 (default matrix).
    for size_id in 0..4usize {
        let step = if size_id == 3 { 3 } else { 1 };
        let mut m = 0usize;
        while m < 6 {
            if size_id == 0 && m == 0 {
                w.write_bit(1); // pred_mode = explicit
                for _ in 0..16 {
                    w.write_se(1).unwrap(); // ramp 9..=24
                }
            } else if size_id == 2 && m == 0 {
                w.write_bit(1); // explicit with DC coef
                w.write_se(8).unwrap(); // dc_coef_minus8 → nextCoef 16
                for _ in 0..64 {
                    w.write_se(0).unwrap(); // flat 16
                }
            } else {
                w.write_bit(0); // predicted
                w.write_ue(0).unwrap(); // delta 0 → default matrix
            }
            m += step;
        }
    }
    w.write_bit(0); // amp
    w.write_bit(0); // sao
    w.write_bit(0); // pcm
    w.write_ue(0).unwrap(); // num_short_term_ref_pic_sets
    w.write_bit(0); // long_term
    w.write_bit(0); // temporal_mvp
    w.write_bit(0); // strong_intra_smoothing
    w.write_bit(0); // vui
    w.write_bit(0); // sps_extension
    w.write_rbsp_trailing_bits();

    let sps = parse_sps_nal(&sps_nal_from(w)).expect("scaling-list SPS parses");
    assert!(sps.scaling_list_enabled_flag);
    let d = sps.scaling_list_data.expect("scaling list data");
    assert!(d.pred_mode_flag[0][0]);
    let expected: Vec<u8> = (9..=24).collect();
    assert_eq!(&d.list_4x4[0][..], &expected[..]);
    assert!(!d.pred_mode_flag[0][1]);
    assert_eq!(d.pred_matrix_id_delta[0][1], 0);
    assert!(d.pred_mode_flag[2][0]);
    assert_eq!(d.dc_coef_minus8[0][0], 8);
    assert_eq!(d.list_16x16[0], [16u8; 64]);
}

#[test]
fn sps_rejects_out_of_range_st_rps_count_and_dpb() {
    // num_short_term_ref_pic_sets = 65 → InvalidData (§7.4.3.2.1).
    let mut w = oxideav_bitstream::bit_writer::BitWriter::new();
    write_sps_prefix(&mut w);
    w.write_bit(0); // scaling_list_enabled_flag
    w.write_bit(0); // amp
    w.write_bit(0); // sao
    w.write_bit(0); // pcm
    w.write_ue(65).unwrap();
    let err = parse_sps_nal(&sps_nal_from(w)).unwrap_err();
    assert!(matches!(err, BitstreamError::InvalidData(_)));
}

#[test]
fn sps_rejects_out_of_range_ctb_log2() {
    // Fuzz regression: a hostile SPS declaring huge coding-block
    // log2 fields drove `1u32 << CtbLog2SizeY` past 31 in the
    // slice-segment-address width computation. §A.3 profile
    // conformance pins CtbLog2SizeY to 4..=6; both parse paths
    // must reject anything else.
    let mut w = oxideav_bitstream::bit_writer::BitWriter::new();
    write_sps_prefix_custom(&mut w, 60, 60); // ctb_log2 = 123
    let err = parse_sps_nal(&sps_nal_from(w)).unwrap_err();
    assert!(matches!(err, BitstreamError::InvalidData(_)), "{err:?}");

    // CtbLog2SizeY = 3 (too small) is also rejected.
    let mut w = oxideav_bitstream::bit_writer::BitWriter::new();
    write_sps_prefix_custom(&mut w, 0, 0); // 0 + 3 + 0 = 3
    let err = parse_sps_nal(&sps_nal_from(w)).unwrap_err();
    assert!(matches!(err, BitstreamError::InvalidData(_)), "{err:?}");
}

#[test]
fn slice_header_rejects_hand_built_bad_ctb_log2() {
    // The slice parser must not trust a caller-constructed SPS.
    let sps = HevcSps {
        log2_min_luma_coding_block_size_minus3: 255,
        log2_diff_max_min_luma_coding_block_size: 255,
        pic_width_in_luma_samples: 320,
        pic_height_in_luma_samples: 240,
        ..HevcSps::default()
    };
    let pps = HevcPps::default();
    // first_slice_segment_in_pic_flag = 0 forces the
    // slice_segment_address branch.
    let nal = [0x02u8, 0x01, 0x00, 0x80];
    let err = parse_slice_header_minimal(&nal, &sps, &pps).unwrap_err();
    assert!(matches!(err, BitstreamError::InvalidData(_)), "{err:?}");
}

/// Like [`write_sps_prefix`] but with custom coding-block log2
/// fields (used by the CtbLog2SizeY range tests).
fn write_sps_prefix_custom(
    w: &mut oxideav_bitstream::bit_writer::BitWriter,
    log2_min: u32,
    log2_diff: u32,
) {
    w.write_bits(0, 4);
    w.write_bits(0, 3);
    w.write_bit(1);
    w.write_bits(0, 2);
    w.write_bit(0);
    w.write_bits(1, 5);
    w.write_bits(0x6000_0000, 32);
    w.write_bits(0, 4);
    w.write_bits(0, 32);
    w.write_bits(0, 11);
    w.write_bit(0);
    w.write_bits(63, 8);
    w.write_ue(0).unwrap();
    w.write_ue(1).unwrap();
    w.write_ue(320).unwrap();
    w.write_ue(240).unwrap();
    w.write_bit(0);
    w.write_ue(0).unwrap();
    w.write_ue(0).unwrap();
    w.write_ue(4).unwrap();
    w.write_bit(1);
    w.write_ue(4).unwrap();
    w.write_ue(0).unwrap();
    w.write_ue(0).unwrap();
    w.write_ue(log2_min).unwrap();
    w.write_ue(log2_diff).unwrap();
}

#[test]
fn pps_with_tiles_and_range_extension_parses() {
    let mut w = oxideav_bitstream::bit_writer::BitWriter::new();
    w.write_ue(0).unwrap(); // pps_pic_parameter_set_id
    w.write_ue(0).unwrap(); // pps_seq_parameter_set_id
    w.write_bit(0); // dependent_slice_segments_enabled_flag
    w.write_bit(0); // output_flag_present_flag
    w.write_bits(0, 3); // num_extra_slice_header_bits
    w.write_bit(0); // sign_data_hiding_enabled_flag
    w.write_bit(0); // cabac_init_present_flag
    w.write_ue(0).unwrap(); // num_ref_idx_l0_default_active_minus1
    w.write_ue(0).unwrap(); // num_ref_idx_l1_default_active_minus1
    w.write_se(0).unwrap(); // init_qp_minus26
    w.write_bit(0); // constrained_intra_pred_flag
    w.write_bit(1); // transform_skip_enabled_flag
    w.write_bit(0); // cu_qp_delta_enabled_flag
    w.write_se(0).unwrap(); // pps_cb_qp_offset
    w.write_se(0).unwrap(); // pps_cr_qp_offset
    w.write_bit(0); // pps_slice_chroma_qp_offsets_present_flag
    w.write_bit(0); // weighted_pred_flag
    w.write_bit(0); // weighted_bipred_flag
    w.write_bit(0); // transquant_bypass_enabled_flag
    w.write_bit(1); // tiles_enabled_flag
    w.write_bit(1); // entropy_coding_sync_enabled_flag (WPP now parses)
    w.write_ue(2).unwrap(); // num_tile_columns_minus1
    w.write_ue(1).unwrap(); // num_tile_rows_minus1
    w.write_bit(0); // uniform_spacing_flag
    w.write_ue(5).unwrap(); // column_width_minus1[0]
    w.write_ue(7).unwrap(); // column_width_minus1[1]
    w.write_ue(4).unwrap(); // row_height_minus1[0]
    w.write_bit(1); // loop_filter_across_tiles_enabled_flag
    w.write_bit(1); // pps_loop_filter_across_slices_enabled_flag
    w.write_bit(0); // deblocking_filter_control_present_flag
    w.write_bit(0); // pps_scaling_list_data_present_flag
    w.write_bit(0); // lists_modification_present_flag
    w.write_ue(0).unwrap(); // log2_parallel_merge_level_minus2
    w.write_bit(0); // slice_segment_header_extension_present_flag
    w.write_bit(1); // pps_extension_present_flag
    w.write_bit(1); // pps_range_extension_flag
    w.write_bit(0); // multilayer
    w.write_bit(0); // 3d
    w.write_bit(0); // scc
    w.write_bits(0, 4); // pps_extension_4bits
                        // pps_range_extension():
    w.write_ue(2).unwrap(); // log2_max_transform_skip_block_size_minus2
    w.write_bit(1); // cross_component_prediction_enabled_flag
    w.write_bit(1); // chroma_qp_offset_list_enabled_flag
    w.write_ue(1).unwrap(); // diff_cu_chroma_qp_offset_depth
    w.write_ue(1).unwrap(); // chroma_qp_offset_list_len_minus1 → 2 pairs
    w.write_se(-1).unwrap();
    w.write_se(1).unwrap();
    w.write_se(2).unwrap();
    w.write_se(-2).unwrap();
    w.write_ue(0).unwrap(); // log2_sao_offset_scale_luma
    w.write_ue(0).unwrap(); // log2_sao_offset_scale_chroma
    w.write_rbsp_trailing_bits();

    let mut nal = vec![NAL_TYPE_PPS << 1, 0x01];
    nal.extend_from_slice(&oxideav_bitstream::nal::rbsp_to_ebsp(&w.finish()));
    let pps = parse_pps_nal(&nal).expect("tiled PPS parses");
    assert!(pps.tiles_enabled_flag);
    assert!(pps.entropy_coding_sync_enabled_flag);
    let tiles = pps.tiles.expect("tiles");
    assert_eq!(tiles.num_tile_columns_minus1, 2);
    assert_eq!(tiles.num_tile_rows_minus1, 1);
    assert!(!tiles.uniform_spacing_flag);
    assert_eq!(tiles.column_widths_minus1, vec![5, 7]);
    assert_eq!(tiles.row_heights_minus1, vec![4]);
    assert!(tiles.loop_filter_across_tiles_enabled_flag);
    let ext = pps.range_extension.expect("range extension");
    assert_eq!(ext.log2_max_transform_skip_block_size_minus2, 2);
    assert!(ext.cross_component_prediction_enabled_flag);
    assert_eq!(ext.chroma_qp_offset_list, vec![(-1, 1), (2, -2)]);
}

#[test]
fn aud_write_then_parse_roundtrips_every_pic_type() {
    for pt in 0u8..=HEVC_PIC_TYPE_MAX {
        let in_ = HevcAccessUnitDelimiter { pic_type: pt };
        let bytes = write_aud_nal(&in_).expect("AUD NAL writes");
        let parsed = parse_aud_nal(&bytes).expect("AUD NAL parses");
        assert_eq!(parsed, in_, "round-trip pic_type={pt}");
    }
}

#[test]
fn aud_writer_canonical_layer0_tid0() {
    // NAL header: type=35 -> 0x46, layer=0/tid+1=1 -> 0x01.
    // RBSP for pic_type=0: 000 + 1 + 0000 = 0x10.
    let bytes = write_aud_nal(&HevcAccessUnitDelimiter { pic_type: 0 }).unwrap();
    assert_eq!(bytes, vec![0x46, 0x01, 0x10]);
}

#[test]
fn aud_writer_pic_type_2_canonical_bytes() {
    // pic_type=2 (010) + stop-one (1) + four alignment zeros = 0x50.
    let bytes = write_aud_nal(&HevcAccessUnitDelimiter {
        pic_type: HEVC_PIC_TYPE_B_P_OR_I,
    })
    .unwrap();
    assert_eq!(bytes, vec![0x46, 0x01, 0x50]);
}

#[test]
fn aud_parser_accepts_reserved_pic_type() {
    // Decoders accept reserved (3..=7) pic_type
    // values. Round-trip both ends and confirm the value is
    // surfaced unchanged.
    for pt in 3u8..=7 {
        let bytes = write_aud_nal(&HevcAccessUnitDelimiter { pic_type: pt }).unwrap();
        let parsed = parse_aud_nal(&bytes).unwrap();
        assert_eq!(parsed.pic_type, pt);
    }
}

#[test]
fn aud_writer_rejects_out_of_range_pic_type() {
    let err = write_aud_nal(&HevcAccessUnitDelimiter { pic_type: 8 })
        .expect_err("pic_type=8 outside u(3) envelope");
    assert!(matches!(err, BitstreamError::InvalidData(_)));
}

#[test]
fn aud_parser_rejects_wrong_nal_type() {
    // VPS NAL header (type=32) where AUD was expected.
    let nal = [0x40u8, 0x01, 0x10];
    let err = parse_aud_nal(&nal).expect_err("wrong nal type rejected");
    assert!(matches!(err, BitstreamError::InvalidData(_)));
}

#[test]
fn aud_parser_rejects_header_only_nal() {
    let nal = [0x46u8, 0x01];
    let err = parse_aud_nal(&nal).expect_err("header-only NAL rejected");
    assert!(matches!(err, BitstreamError::UnexpectedEnd(_)));
}

#[test]
fn aud_parser_rejects_truncated_input() {
    let err = parse_aud_nal(&[0x46u8]).expect_err("1-byte NAL rejected");
    assert!(matches!(err, BitstreamError::UnexpectedEnd(_)));
}

#[test]
fn aud_parser_rejects_missing_stop_bit() {
    // pic_type bits followed by all-zero padding -> reader sees
    // no rbsp_stop_one_bit and rejects.
    let nal = [0x46u8, 0x01, 0x00];
    let err = parse_aud_nal(&nal).expect_err("missing stop bit rejected");
    assert!(
        matches!(
            err,
            BitstreamError::InvalidData(_) | BitstreamError::UnexpectedEnd(_)
        ),
        "got: {err:?}"
    );
}

#[test]
fn nal_header_fields() {
    assert_eq!(nal_header(0xFF, 0xFF), (1, 63, 63, 7));
    assert_eq!(nal_header(0x03, 0x0A), (0, 1, 33, 2));
    assert!(is_irap(NAL_TYPE_CRA) && is_irap(NAL_TYPE_IDR_N_LP) && !is_irap(22));
}

#[test]
fn display_size_is_cropped_by_chroma_units() {
    let window = HevcConformanceWindow { left: 1, right: 2, top: 3, bottom: 4 };
    let mut sps = HevcSps {
        chroma_format_idc: 1,
        pic_width_in_luma_samples: 100,
        pic_height_in_luma_samples: 80,
        ..HevcSps::default()
    };
    assert_eq!((sps.display_width(), sps.display_height()), (100, 80));
    sps.conformance_window = Some(window);
    assert_eq!((sps.display_width(), sps.display_height()), (94, 66));
    sps.chroma_format_idc = 2;
    assert_eq!((sps.display_width(), sps.display_height()), (94, 73));
    sps.chroma_format_idc = 3;
    assert_eq!((sps.display_width(), sps.display_height()), (97, 73));
    sps.conformance_window = Some(HevcConformanceWindow { left: u32::MAX, right: u32::MAX, top: 0, bottom: 81 });
    assert_eq!((sps.display_width(), sps.display_height()), (0, 0));
    assert_eq!((sps.coded_width(), sps.coded_height()), (100, 80));
}

#[test]
fn aspect_ratios_and_rates() {
    let mut vui = HevcVui { aspect_ratio_idc: 13, ..HevcVui::default() };
    assert_eq!(vui.sample_aspect_ratio(), None);
    vui.aspect_ratio_info_present_flag = true;
    assert_eq!(vui.sample_aspect_ratio(), Some((160, 99)));
    vui.aspect_ratio_idc = 17;
    assert_eq!(vui.sample_aspect_ratio(), None);
    vui.vui_timing_info_present_flag = true;
    vui.vui_time_scale = 25;
    assert_eq!(vui.picture_rate(), None);
    vui.vui_num_units_in_tick = 1;
    assert_eq!(vui.picture_rate(), Some((25, 1)));
}

fn vps_nal() -> Vec<u8> {
    let mut w = oxideav_bitstream::bit_writer::BitWriter::new();
    w.write_bits(5, 4);
    w.write_bits(0b11, 2);
    w.write_bits(3, 6);
    w.write_bits(1, 3);
    w.write_bit(1);
    w.write_bits(0xFFFF, 16);
    w.write_bits(0, 2);
    w.write_bit(1);
    w.write_bits(2, 5);
    w.write_bits(0x2000_0000, 32);
    w.write_bits(0, 32);
    w.write_bits(0, 16);
    w.write_bits(120, 8);
    w.write_rbsp_trailing_bits();
    let mut nal = vec![NAL_TYPE_VPS << 1, 0x01];
    nal.extend_from_slice(&oxideav_bitstream::nal::rbsp_to_ebsp(&w.finish()));
    nal
}

#[test]
fn vps_fields() {
    let vps = parse_vps_nal(&vps_nal()).unwrap();
    assert_eq!((vps.vps_video_parameter_set_id, vps.vps_max_layers_minus1, vps.vps_max_sub_layers_minus1), (5, 3, 1));
    assert!(vps.vps_temporal_id_nesting_flag);
    assert!(vps.profile_tier_level.general_tier_flag);
    assert_eq!(vps.profile_tier_level.general_profile_idc, 2);
    assert_eq!(vps.profile_tier_level.general_profile_compatibility_flags, 0x2000_0000);
    assert_eq!(vps.profile_tier_level.general_level_idc, 120);
    assert!(matches!(parse_vps_nal(&[0x40]), Err(BitstreamError::UnexpectedEnd(_))));
    assert!(matches!(parse_vps_nal(&[0x42, 0x01]), Err(BitstreamError::InvalidData(_))));
}

fn sps_nal_plain() -> Vec<u8> {
    let mut w = oxideav_bitstream::bit_writer::BitWriter::new();
    write_sps_prefix(&mut w);
    w.write_bit(0); // scaling lists
    w.write_bit(0); // amp
    w.write_bit(0); // sao
    w.write_bit(0); // pcm
    w.write_ue(2).unwrap(); // num_short_term_ref_pic_sets
    // set 0: one negative, two positive
    w.write_ue(1).unwrap();
    w.write_ue(2).unwrap();
    w.write_ue(2).unwrap(); // -3
    w.write_bit(1);
    w.write_ue(0).unwrap(); // 1
    w.write_bit(0);
    w.write_ue(4).unwrap(); // 6
    w.write_bit(1);
    // set 1: predicted with deltaRps = 2
    w.write_bit(1);
    w.write_bit(0);
    w.write_ue(1).unwrap();
    w.write_bit(1); // -3 + 2 = -1
    w.write_bit(0);
    w.write_bit(0); // 1 + 2, dropped
    w.write_bit(1); // 6 + 2 = 8
    w.write_bit(0);
    w.write_bit(1); // 2, kept, not used
    w.write_bit(0); // long-term
    w.write_bit(1);
    w.write_bit(0);
    w.write_bit(0); // vui
    w.write_bit(0); // extension
    w.write_rbsp_trailing_bits();
    sps_nal_from(w)
}

#[test]
fn predicted_reference_sets() {
    let sps = parse_sps_nal(&sps_nal_plain()).unwrap();
    let s0 = &sps.short_term_rps[0];
    assert_eq!((s0.delta_poc_s0.clone(), s0.delta_poc_s1.clone()), (vec![-3], vec![1, 6]));
    assert_eq!(s0.used_by_curr_pic_s1, vec![false, true]);
    let s1 = &sps.short_term_rps[1];
    assert_eq!((s1.delta_poc_s0.clone(), s1.delta_poc_s1.clone()), (vec![-1], vec![2, 8]));
    assert_eq!((s1.used_by_curr_pic_s0.clone(), s1.used_by_curr_pic_s1.clone()), (vec![true], vec![false, true]));
    assert_eq!((s1.num_negative_pics(), s1.num_positive_pics(), s1.num_delta_pocs()), (1, 2, 3));
    for set in &sps.short_term_rps {
        assert!(set.delta_poc_s0.iter().all(|&d| d < 0) && set.delta_poc_s1.iter().all(|&d| d > 0));
        assert!(set.delta_poc_s0.windows(2).all(|w| w[0] > w[1]));
        assert!(set.delta_poc_s1.windows(2).all(|w| w[0] < w[1]));
    }
}

fn pps_nal_plain(dependent: u32, extra: u32) -> Vec<u8> {
    let mut w = oxideav_bitstream::bit_writer::BitWriter::new();
    w.write_ue(0).unwrap();
    w.write_ue(0).unwrap();
    w.write_bit(dependent);
    w.write_bit(1); // output_flag_present_flag
    w.write_bits(extra, 3);
    w.write_bits(0, 2);
    w.write_ue(0).unwrap();
    w.write_ue(0).unwrap();
    w.write_se(-7).unwrap();
    w.write_bits(0, 3);
    w.write_se(0).unwrap();
    w.write_se(0).unwrap();
    w.write_bits(0, 6);
    w.write_bit(1); // loop filter across slices
    w.write_bit(1); // deblocking control
    w.write_bit(0);
    w.write_bit(0);
    w.write_se(3).unwrap();
    w.write_se(-2).unwrap();
    w.write_bit(0); // scaling lists
    w.write_bit(0);
    w.write_ue(0).unwrap();
    w.write_bit(0);
    w.write_bit(0);
    w.write_rbsp_trailing_bits();
    let mut nal = vec![NAL_TYPE_PPS << 1, 0x01];
    nal.extend_from_slice(&oxideav_bitstream::nal::rbsp_to_ebsp(&w.finish()));
    nal
}

#[test]
fn pps_deblocking_offsets() {
    let pps = parse_pps_nal(&pps_nal_plain(0, 2)).unwrap();
    assert_eq!(pps.init_qp_minus26, -7);
    assert_eq!((pps.pps_beta_offset_div2, pps.pps_tc_offset_div2), (3, -2));
    assert!(pps.tiles.is_none() && pps.scaling_list_data.is_none());
}

#[test]
fn slice_header_of_an_idr_and_of_a_cra_picture() {
    let sps = parse_sps_nal(&sps_nal_plain()).unwrap();
    let pps = parse_pps_nal(&pps_nal_plain(1, 2)).unwrap();
    let slice = |t: u8, first: bool, dependent: bool| {
        let mut w = oxideav_bitstream::bit_writer::BitWriter::new();
        w.write_bit(u32::from(first));
        w.write_bit(1); // no_output_of_prior_pics_flag
        w.write_ue(0).unwrap();
        if !first {
            w.write_bit(u32::from(dependent));
            w.write_bits(19, 5); // 5 x 4 coding tree blocks
        }
        w.write_bits(0, 2);
        w.write_ue(2).unwrap();
        w.write_bit(1);
        w.write_bits(0xA5, 8);
        w.write_rbsp_trailing_bits();
        let mut nal = vec![t << 1, 0x01];
        nal.extend_from_slice(&oxideav_bitstream::nal::rbsp_to_ebsp(&w.finish()));
        nal
    };
    let sh = parse_slice_header_minimal(&slice(NAL_TYPE_IDR_W_RADL, true, false), &sps, &pps).unwrap();
    assert!(sh.is_irap && sh.first_slice_segment_in_pic_flag && sh.no_output_of_prior_pics_flag);
    assert_eq!((sh.slice_type, sh.slice_pic_order_cnt_lsb), (2, 0));
    let sh = parse_slice_header_minimal(&slice(NAL_TYPE_CRA, false, false), &sps, &pps).unwrap();
    assert_eq!((sh.slice_type, sh.slice_pic_order_cnt_lsb), (2, 0xA5));
    let err = parse_slice_header_minimal(&slice(NAL_TYPE_CRA, false, true), &sps, &pps).unwrap_err();
    assert!(matches!(err, BitstreamError::Unsupported(_)));
    let mut wide = sps.clone();
    wide.log2_max_pic_order_cnt_lsb_minus4 = 29;
    let err = parse_slice_header_minimal(&slice(NAL_TYPE_CRA, true, false), &wide, &pps).unwrap_err();
    assert!(matches!(err, BitstreamError::InvalidData(_)));
}

#[test]
fn first_irap_picture_of_a_stream() {
    let mut stream = vec![0xEE];
    let mut add = |nal: &[u8]| {
        stream.extend_from_slice(&[0, 0, 0, 1]);
        stream.extend_from_slice(nal);
    };
    add(&vps_nal());
    add(&sps_nal_plain());
    add(&pps_nal_plain(0, 0));
    add(&[NAL_TYPE_IDR_N_LP << 1, 0x01, 0xF7, 0x80]);
    add(&[NAL_TYPE_CRA << 1, 0x01, 0x80]);
    let at = stream.len() - 4 - 4 - 3 - 4;
    let p = parse_idr_only(&stream).unwrap();
    assert_eq!(p.nal_unit_type, NAL_TYPE_IDR_N_LP);
    assert_eq!(p.sps.pic_width_in_luma_samples, 320);
    assert_eq!(p.vps.vps_video_parameter_set_id, 5);
    assert_eq!(p.pps.init_qp_minus26, -7);
    assert!(p.slice_header.first_slice_segment_in_pic_flag);
    assert_eq!(p.idr_access_unit, &stream[at..]);
    assert!(matches!(parse_idr_only(&stream[..at]), Err(BitstreamError::InvalidData(_))));
    assert!(matches!(parse_idr_only(&[]), Err(BitstreamError::InvalidData(_))));
}

#[test]
fn multilayer_extensions_are_not_supported() {
    let mut w = oxideav_bitstream::bit_writer::BitWriter::new();
    write_sps_prefix(&mut w);
    w.write_bits(0, 4);
    w.write_ue(0).unwrap();
    w.write_bits(0, 4);
    w.write_bit(1);
    w.write_bits(0b0100_0000, 8);
    w.write_rbsp_trailing_bits();
    assert!(matches!(parse_sps_nal(&sps_nal_from(w)), Err(BitstreamError::Unsupported(_))));
}

#[test]
fn aud_with_the_canonical_header_is_rewritten_as_it_was() {
    for b in [0x10, 0x30, 0xF0] {
        let nal = [0x46, 0x01, b];
        assert_eq!(write_aud_nal(&parse_aud_nal(&nal).unwrap()).unwrap(), nal.to_vec());
    }
    assert!(matches!(parse_aud_nal(&[0x46, 0x01, 0x10, 0x00]), Err(BitstreamError::InvalidData(_))));
}

#[test]
fn slice_segment_address_takes_ceil_log2_bits() {
    let sps = |width: u32, height: u32| HevcSps {
        log2_diff_max_min_luma_coding_block_size: 3,
        pic_width_in_luma_samples: width,
        pic_height_in_luma_samples: height,
        ..Default::default()
    };
    let pps = HevcPps::default();
    let sh = parse_slice_header_minimal(&[0x26, 0x01, 0x2B, 0x80], &sps(128, 128), &pps).unwrap();
    assert!(!sh.first_slice_segment_in_pic_flag && sh.is_irap);
    assert_eq!((sh.slice_pic_parameter_set_id, sh.slice_type, sh.slice_pic_order_cnt_lsb), (0, 2, 0));
    for (width, height, bits) in
        [(64, 64, 0), (128, 64, 1), (192, 64, 2), (128, 128, 2), (320, 64, 3), (512, 64, 3), (576, 64, 4)]
    {
        let mut w = BitWriter::new();
        w.write_bits(0x2A01, 16); // CRA_NUT
        w.write_bit(0); // first_slice_segment_in_pic_flag
        w.write_bit(0); // no_output_of_prior_pics_flag
        w.write_ue(0).unwrap(); // slice_pic_parameter_set_id
        w.write_bits(u32::MAX, bits); // slice_segment_address
        w.write_ue(2).unwrap(); // slice_type
        w.write_bits(9, 4); // slice_pic_order_cnt_lsb
        w.write_rbsp_trailing_bits();
        let sh = parse_slice_header_minimal(&w.finish(), &sps(width, height), &pps).unwrap();
        assert_eq!((sh.slice_type, sh.slice_pic_order_cnt_lsb), (2, 9));
    }
}
