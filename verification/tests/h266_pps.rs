//! H.266 picture parameter sets.
use oxideav_bitstream::h266::pps::{
    VvcPps, VvcPpsChromaToolOffsets, VvcPpsDeblocking, VvcPpsPartition, VvcPpsRectSlice,
    VvcPpsSubpicIdMapping, parse_pps, write_pps, write_pps_nal,
};
use oxideav_bitstream::BitstreamError;

fn minimal_pps() -> VvcPps {
    VvcPps {
        pps_pic_width_in_luma_samples: 1920,
        pps_pic_height_in_luma_samples: 1080,
        pps_no_pic_partition_flag: 1,
        ..Default::default()
    }
}

fn assert_roundtrip(pps: &VvcPps) {
    let nal = write_pps_nal(pps).expect("PPS writes");
    let parsed = parse_pps(&nal).expect("written PPS parses");
    assert_eq!(&parsed, pps, "struct round-trip");
    assert_eq!(write_pps_nal(&parsed).unwrap(), nal, "byte round-trip");
}

#[test]
fn minimal_no_partition_roundtrips() {
    let pps = minimal_pps();
    assert_roundtrip(&pps);
    let parsed = parse_pps(&write_pps_nal(&pps).unwrap()).unwrap();
    assert!(parsed.partition.is_none());
    assert_eq!(parsed.pps_pic_width_in_luma_samples, 1920);
}

#[test]
fn windows_and_scalar_blocks_roundtrip() {
    let mut pps = minimal_pps();
    pps.pps_conf_win_offsets = Some((0, 2, 0, 4));
    pps.pps_scaling_win_offsets = Some((1, -2, 3, -4));
    pps.pps_output_flag_present_flag = 1;
    pps.pps_cabac_init_present_flag = 1;
    pps.pps_num_ref_idx_default_active_minus1 = [3, 1];
    pps.pps_weighted_pred_flag = 1;
    pps.pps_pic_width_minus_wraparound_offset = Some(7);
    pps.pps_init_qp_minus26 = -5;
    pps.pps_cu_qp_delta_enabled_flag = 1;
    pps.chroma_tool_offsets = Some(VvcPpsChromaToolOffsets {
        pps_cb_qp_offset: -2,
        pps_cr_qp_offset: 3,
        pps_joint_cbcr_qp_offset_value: Some(-1),
        pps_slice_chroma_qp_offsets_present_flag: 1,
        cu_chroma_qp_offset_list: Some(vec![(1, -1, Some(2)), (0, 0, Some(0))]),
    });
    pps.deblocking = Some(VvcPpsDeblocking {
        pps_deblocking_filter_override_enabled_flag: 1,
        pps_deblocking_filter_disabled_flag: 0,
        pps_dbf_info_in_ph_flag: 0, // no_pic_partition → not coded
        pps_luma_beta_offset_div2: 2,
        pps_luma_tc_offset_div2: -2,
        pps_cb_offsets_div2: (1, 1),
        pps_cr_offsets_div2: (-1, -1),
    });
    pps.pps_picture_header_extension_present_flag = 1;
    assert_roundtrip(&pps);
}

#[test]
fn deblocking_disabled_skips_offsets() {
    let mut pps = minimal_pps();
    pps.deblocking = Some(VvcPpsDeblocking {
        pps_deblocking_filter_disabled_flag: 1,
        ..Default::default()
    });
    assert_roundtrip(&pps);
}

/// A 2x2-tile partition with one rectangular slice per tile,
/// raster order (no tile_idx_delta).
#[test]
fn tiles_2x2_four_slices_roundtrip() {
    let mut pps = minimal_pps();
    pps.pps_no_pic_partition_flag = 0;
    // 1920x1080 CTU-64 → 30x17 CTBs; explicit 15-wide column and
    // 9-high row, uniform fill gives 2 columns (15+15) and rows
    // 9+8.
    pps.partition = Some(VvcPpsPartition {
        pps_log2_ctu_size_minus5: 1,
        pps_tile_column_widths_minus1: vec![14],
        pps_tile_row_heights_minus1: vec![8],
        pps_loop_filter_across_tiles_enabled_flag: 1,
        pps_rect_slice_flag: 1,
        pps_single_slice_per_subpic_flag: 0,
        pps_num_slices_in_pic_minus1: 3,
        pps_tile_idx_delta_present_flag: 0,
        rect_slices: vec![
            VvcPpsRectSlice::default(), // (0,0): 1x1 tile, RowHeight 9 > 1 → exp block
            VvcPpsRectSlice::default(),
            VvcPpsRectSlice::default(),
        ],
        pps_loop_filter_across_slices_enabled_flag: 1,
    });
    // Each slice is one tile: width_minus1 = 0 / height_minus1 = 0,
    // and every tile row is > 1 CTU high, so the exp block IS
    // coded with num_exp = 0 for slices 0..=2 (the last slice has
    // no syntax). Fix up the entries accordingly.
    let part = pps.partition.as_mut().unwrap();
    for e in &mut part.rect_slices {
        e.exp_slice_heights_in_ctus_minus1 = Some(vec![]);
    }
    assert_roundtrip(&pps);
}

/// A tile split into multiple slices by explicit CTU-row heights,
/// exercising the §6.5.1 NumSlicesInTile advance.
#[test]
fn tile_split_into_ctu_row_slices_roundtrip() {
    let mut pps = minimal_pps();
    pps.pps_no_pic_partition_flag = 0;
    // Single tile column (full 30-CTB width), single 17-CTB-high
    // tile row. The tile splits into 3 slices: heights 8, 8, 1
    // (explicit 8,8 + remainder 1). Slice count = 3 → num_minus1
    // = 2; the exp block consumes slices 0..=1... actually all 3
    // (i += NumSlicesInTile - 1 = 2), so the loop runs once.
    pps.partition = Some(VvcPpsPartition {
        pps_log2_ctu_size_minus5: 1,
        pps_tile_column_widths_minus1: vec![29],
        pps_tile_row_heights_minus1: vec![16],
        pps_loop_filter_across_tiles_enabled_flag: 0, // single tile → not coded
        pps_rect_slice_flag: 1,                       // inferred
        pps_single_slice_per_subpic_flag: 0,
        pps_num_slices_in_pic_minus1: 2,
        pps_tile_idx_delta_present_flag: 0,
        rect_slices: vec![VvcPpsRectSlice {
            pps_slice_width_in_tiles_minus1: 0,
            pps_slice_height_in_tiles_minus1: 0,
            exp_slice_heights_in_ctus_minus1: Some(vec![7, 7]),
            pps_tile_idx_delta_val: None,
        }],
        pps_loop_filter_across_slices_enabled_flag: 1,
    });
    assert_roundtrip(&pps);
}

/// Explicit tile-index deltas walking the slices out of raster
/// order.
#[test]
fn tile_idx_delta_walk_roundtrips() {
    let mut pps = minimal_pps();
    pps.pps_no_pic_partition_flag = 0;
    // 2x2 tiles of 15x9(8) CTBs; 4 slices in order tile 0 → 3 →
    // 2 → 1 via deltas +3, -1, -1.
    pps.partition = Some(VvcPpsPartition {
        pps_log2_ctu_size_minus5: 1,
        pps_tile_column_widths_minus1: vec![14],
        pps_tile_row_heights_minus1: vec![8],
        pps_loop_filter_across_tiles_enabled_flag: 0,
        pps_rect_slice_flag: 1,
        pps_single_slice_per_subpic_flag: 0,
        pps_num_slices_in_pic_minus1: 3,
        pps_tile_idx_delta_present_flag: 1,
        rect_slices: vec![
            VvcPpsRectSlice {
                exp_slice_heights_in_ctus_minus1: Some(vec![]),
                pps_tile_idx_delta_val: Some(3),
                ..Default::default()
            },
            VvcPpsRectSlice {
                exp_slice_heights_in_ctus_minus1: Some(vec![]),
                pps_tile_idx_delta_val: Some(-1),
                ..Default::default()
            },
            VvcPpsRectSlice {
                exp_slice_heights_in_ctus_minus1: Some(vec![]),
                pps_tile_idx_delta_val: Some(-1),
                ..Default::default()
            },
        ],
        pps_loop_filter_across_slices_enabled_flag: 0,
    });
    assert_roundtrip(&pps);
}

#[test]
fn raster_scan_slice_mode_roundtrips() {
    let mut pps = minimal_pps();
    pps.pps_no_pic_partition_flag = 0;
    pps.partition = Some(VvcPpsPartition {
        pps_log2_ctu_size_minus5: 1,
        pps_tile_column_widths_minus1: vec![14],
        pps_tile_row_heights_minus1: vec![8],
        pps_loop_filter_across_tiles_enabled_flag: 1,
        pps_rect_slice_flag: 0, // raster-scan mode: no slice layout in PPS
        pps_single_slice_per_subpic_flag: 0,
        pps_num_slices_in_pic_minus1: 0,
        pps_tile_idx_delta_present_flag: 0,
        rect_slices: vec![],
        pps_loop_filter_across_slices_enabled_flag: 1,
    });
    assert_roundtrip(&pps);
}

#[test]
fn single_slice_per_subpic_roundtrips() {
    let mut pps = minimal_pps();
    pps.pps_no_pic_partition_flag = 0;
    pps.subpic_id_mapping = Some(VvcPpsSubpicIdMapping {
        pps_num_subpics_minus1: 3,
        pps_subpic_id_len_minus1: 7,
        pps_subpic_ids: vec![10, 20, 30, 40],
    });
    pps.partition = Some(VvcPpsPartition {
        pps_log2_ctu_size_minus5: 1,
        pps_tile_column_widths_minus1: vec![14],
        pps_tile_row_heights_minus1: vec![8],
        pps_loop_filter_across_tiles_enabled_flag: 0,
        pps_rect_slice_flag: 1,
        pps_single_slice_per_subpic_flag: 1,
        pps_num_slices_in_pic_minus1: 0,
        pps_tile_idx_delta_present_flag: 0,
        rect_slices: vec![],
        pps_loop_filter_across_slices_enabled_flag: 1,
    });
    assert_roundtrip(&pps);
}

#[test]
fn pps_extension_data_retained_and_guarded() {
    let mut pps = minimal_pps();
    pps.pps_extension_flag = 1;
    pps.pps_extension_data = vec![0, 1, 1];
    assert_roundtrip(&pps);
    pps.pps_extension_data = vec![1, 0];
    assert!(write_pps(&pps).is_err());
}

#[test]
fn pps_rejects_wrong_nal_truncation_and_ranges() {
    let mut nal = vec![0u8; 4];
    nal[1] = (oxideav_bitstream::h266::NAL_TYPE_SPS << 3) | 1;
    assert!(matches!(
        parse_pps(&nal),
        Err(BitstreamError::InvalidData(_))
    ));
    assert!(matches!(
        parse_pps(&[0x00]),
        Err(BitstreamError::UnexpectedEnd(_))
    ));
    let full = write_pps_nal(&minimal_pps()).unwrap();
    assert!(parse_pps(&full[..full.len() - 1]).is_err());

    // QP offset out of range.
    let mut pps = minimal_pps();
    pps.chroma_tool_offsets = Some(VvcPpsChromaToolOffsets {
        pps_cb_qp_offset: 13,
        ..Default::default()
    });
    assert!(write_pps(&pps).is_err());
    // Slice count over the Table A.2 envelope.
    let mut pps = minimal_pps();
    pps.pps_no_pic_partition_flag = 0;
    pps.partition = Some(VvcPpsPartition {
        pps_log2_ctu_size_minus5: 1,
        pps_tile_column_widths_minus1: vec![14],
        pps_tile_row_heights_minus1: vec![8],
        pps_rect_slice_flag: 1,
        pps_num_slices_in_pic_minus1: 1000,
        ..Default::default()
    });
    assert!(write_pps(&pps).is_err());
}

/// Uniform-fill tile derivation: a 1-CTB explicit column on a
/// wide picture must be rejected once the derived column count
/// exceeds MaxTileCols, instead of allocating unboundedly.
#[test]
fn uniform_tile_fill_is_bounded() {
    let mut pps = minimal_pps();
    pps.pps_no_pic_partition_flag = 0;
    pps.pps_pic_width_in_luma_samples = 8192; // 256 CTB-32 columns
    pps.partition = Some(VvcPpsPartition {
        pps_log2_ctu_size_minus5: 0,
        pps_tile_column_widths_minus1: vec![0], // 1-CTB uniform fill → 256 cols
        pps_tile_row_heights_minus1: vec![33],
        pps_rect_slice_flag: 1,
        ..Default::default()
    });
    assert!(write_pps(&pps).is_err());
}
