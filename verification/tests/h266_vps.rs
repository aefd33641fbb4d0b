//! H.266 video parameter sets.
use oxideav_bitstream::h266::vps::{
    VvcVps, VvcVpsDpb, VvcVpsLayer, VvcVpsOlsDpb, VvcVpsOlsHrd, VvcVpsPtl, VvcVpsTimingHrd,
    parse_vps, write_vps, write_vps_nal,
};
use oxideav_bitstream::BitstreamError;
use oxideav_bitstream::h266::{NAL_TYPE_VPS, VvcProfileTierLevel};
use oxideav_bitstream::h266::params::{VvcDpbParameters, VvcGeneralTimingHrd, VvcOlsTimingHrd};
use oxideav_bitstream::h266::params::{VvcDpbEntry, VvcOlsTimingHrdSublayer};

fn ptl(max_tid: u8, present: bool) -> VvcVpsPtl {
    VvcVpsPtl {
        vps_pt_present_flag: u8::from(present),
        vps_ptl_max_tid: max_tid,
        ptl: VvcProfileTierLevel {
            general_profile_idc: if present { Some(1) } else { None },
            general_tier_flag: if present { Some(0) } else { None },
            general_level_idc: 51,
            ptl_frame_only_constraint_flag: 1,
            ptl_multilayer_enabled_flag: 0,
            ptl_sublayer_level_present_flag: vec![0; max_tid as usize],
            sublayer_level_idc: vec![],
            general_sub_profile_idc: vec![],
            gci_present_flag: false,
            gci_bits: vec![],
        },
    }
}

fn single_layer_vps() -> VvcVps {
    VvcVps {
        vps_video_parameter_set_id: 1,
        vps_max_sublayers_minus1: 0,
        vps_default_ptl_dpb_hrd_max_tid_flag: 1,
        vps_all_independent_layers_flag: 1,
        layers: vec![VvcVpsLayer {
            vps_layer_id: 0,
            vps_independent_layer_flag: 1,
            ..Default::default()
        }],
        vps_each_layer_is_an_ols_flag: 1,
        vps_ols_mode_idc: 2,
        ptls: vec![ptl(0, true)],
        vps_ols_ptl_idx: vec![0],
        ..Default::default()
    }
}

fn assert_roundtrip(vps: &VvcVps) {
    let nal = write_vps_nal(vps).expect("VPS writes");
    let parsed = parse_vps(&nal).expect("written VPS parses");
    assert_eq!(&parsed, vps, "struct round-trip");
    assert_eq!(write_vps_nal(&parsed).unwrap(), nal, "byte round-trip");
}

#[test]
fn single_layer_roundtrips() {
    let vps = single_layer_vps();
    assert_roundtrip(&vps);
    let parsed = parse_vps(&write_vps_nal(&vps).unwrap()).unwrap();
    assert_eq!(parsed.vps_max_layers_minus1(), 0);
    assert_eq!(parsed.layer_ids(), vec![0]);
    assert_eq!(parsed.vps_each_layer_is_an_ols_flag, 1);
}

#[test]
fn all_independent_each_layer_ols_roundtrips() {
    // Two independent layers, each its own OLS: no DPB/HRD block.
    let mut vps = single_layer_vps();
    vps.vps_max_sublayers_minus1 = 2;
    vps.layers = vec![
        VvcVpsLayer {
            vps_layer_id: 0,
            vps_independent_layer_flag: 1,
            ..Default::default()
        },
        VvcVpsLayer {
            vps_layer_id: 4,
            vps_independent_layer_flag: 1,
            ..Default::default()
        },
    ];
    vps.vps_each_layer_is_an_ols_flag = 1;
    vps.ptls = vec![ptl(2, true), ptl(2, false)];
    vps.vps_ols_ptl_idx = vec![0, 1]; // num_ptls+1 == TotalNumOlss → inferred i
    assert_roundtrip(&vps);
}

#[test]
fn mode1_dependent_layers_with_dpb_and_hrd_roundtrip() {
    // Two layers, layer 1 depends on layer 0, ols_mode_idc 1
    // (all layers output) → one multi-layer OLS with DPB + HRD.
    let general = VvcGeneralTimingHrd {
        num_units_in_tick: 1,
        time_scale: 50,
        ..Default::default()
    };
    let vps = VvcVps {
        vps_video_parameter_set_id: 2,
        vps_max_sublayers_minus1: 0,
        vps_default_ptl_dpb_hrd_max_tid_flag: 1,
        vps_all_independent_layers_flag: 0,
        layers: vec![
            VvcVpsLayer {
                vps_layer_id: 0,
                vps_independent_layer_flag: 1,
                ..Default::default()
            },
            VvcVpsLayer {
                vps_layer_id: 1,
                vps_independent_layer_flag: 0,
                vps_max_tid_ref_present_flag: 1,
                vps_direct_ref_layer_flag: vec![1],
                vps_max_tid_il_ref_pics_plus1: vec![3],
            },
        ],
        vps_each_layer_is_an_ols_flag: 0,
        vps_ols_mode_idc: 1,
        ptls: vec![ptl(0, true)],
        vps_ols_ptl_idx: vec![0, 0],
        dpb_params: vec![VvcVpsDpb {
            vps_dpb_max_tid: 0,
            dpb: VvcDpbParameters {
                entries: vec![VvcDpbEntry {
                    dpb_max_dec_pic_buffering_minus1: 3,
                    dpb_max_num_reorder_pics: 1,
                    dpb_max_latency_increase_plus1: 0,
                }],
            },
        }],
        ols_dpbs: vec![VvcVpsOlsDpb {
            vps_ols_dpb_pic_width: 1920,
            vps_ols_dpb_pic_height: 1080,
            vps_ols_dpb_chroma_format: 1,
            vps_ols_dpb_bitdepth_minus8: 2,
            vps_ols_dpb_params_idx: 0,
        }],
        timing_hrd: Some(VvcVpsTimingHrd {
            general,
            vps_sublayer_cpb_params_present_flag: 0,
            entries: vec![VvcVpsOlsHrd {
                vps_hrd_max_tid: 0,
                ols: VvcOlsTimingHrd {
                    sublayers: vec![VvcOlsTimingHrdSublayer {
                        fixed_pic_rate_general_flag: 1,
                        fixed_pic_rate_within_cvs_flag: 1,
                        elemental_duration_in_tc_minus1: 0,
                        ..Default::default()
                    }],
                },
            }],
            vps_ols_timing_hrd_idx: vec![0],
        }),
        ..Default::default()
    };
    assert_roundtrip(&vps);
}

#[test]
fn mode2_explicit_ols_with_dependency_closure_roundtrips() {
    // Three layers: 2 depends on 1, 1 depends on 0. Two explicit
    // OLS rows: OLS 1 outputs layer 2 (pulls in 1 and 0 through
    // the closure → 3 layers), OLS 2 outputs layer 0 only
    // (single layer). NumMultiLayerOlss = 1.
    let dep = |refs: Vec<u8>, tids: Vec<u8>, present: u8| VvcVpsLayer {
        vps_layer_id: 0, // fixed up below
        vps_independent_layer_flag: 0,
        vps_max_tid_ref_present_flag: present,
        vps_direct_ref_layer_flag: refs,
        vps_max_tid_il_ref_pics_plus1: tids,
    };
    let mut l1 = dep(vec![1], vec![2], 1);
    l1.vps_layer_id = 1;
    let mut l2 = dep(vec![0, 1], vec![2, 2], 0);
    l2.vps_layer_id = 2;
    // With max_tid_ref_present = 0 the tids must carry the
    // inferred value (max_sublayers + 1 = 2).
    let vps = VvcVps {
        vps_video_parameter_set_id: 3,
        vps_max_sublayers_minus1: 1,
        vps_default_ptl_dpb_hrd_max_tid_flag: 0,
        vps_all_independent_layers_flag: 0,
        layers: vec![
            VvcVpsLayer {
                vps_layer_id: 0,
                vps_independent_layer_flag: 1,
                ..Default::default()
            },
            l1,
            l2,
        ],
        vps_each_layer_is_an_ols_flag: 0,
        vps_ols_mode_idc: 2,
        vps_ols_output_layer_flags: vec![vec![0, 0, 1], vec![1, 0, 0]],
        ptls: vec![ptl(1, true)],
        vps_ols_ptl_idx: vec![0, 0, 0],
        dpb_params: vec![VvcVpsDpb {
            vps_dpb_max_tid: 1,
            dpb: VvcDpbParameters {
                entries: vec![VvcDpbEntry {
                    dpb_max_dec_pic_buffering_minus1: 5,
                    dpb_max_num_reorder_pics: 2,
                    dpb_max_latency_increase_plus1: 0,
                }],
            },
        }],
        ols_dpbs: vec![VvcVpsOlsDpb {
            vps_ols_dpb_pic_width: 640,
            vps_ols_dpb_pic_height: 360,
            vps_ols_dpb_chroma_format: 1,
            vps_ols_dpb_bitdepth_minus8: 0,
            vps_ols_dpb_params_idx: 0,
        }],
        timing_hrd: None,
        ..Default::default()
    };
    assert_roundtrip(&vps);
}

#[test]
fn vps_extension_data_retained_and_guarded() {
    let mut vps = single_layer_vps();
    vps.vps_extension_flag = 1;
    vps.vps_extension_data = vec![1, 1, 0, 1];
    assert_roundtrip(&vps);
    vps.vps_extension_data = vec![1, 0];
    assert!(write_vps(&vps).is_err());
}

#[test]
fn vps_rejects_wrong_nal_truncation_and_ranges() {
    let mut nal = vec![0u8; 4];
    nal[1] = (oxideav_bitstream::h266::NAL_TYPE_SPS << 3) | 1;
    assert!(matches!(
        parse_vps(&nal),
        Err(BitstreamError::InvalidData(_))
    ));
    assert!(matches!(
        parse_vps(&[0x00]),
        Err(BitstreamError::UnexpectedEnd(_))
    ));
    let full = write_vps_nal(&single_layer_vps()).unwrap();
    assert!(parse_vps(&full[..full.len() - 1]).is_err());
    // Reserved sublayer count via the writer guard.
    let mut vps = single_layer_vps();
    vps.vps_max_sublayers_minus1 = 7;
    assert!(write_vps(&vps).is_err());
    // Non-increasing layer ids.
    let mut vps = single_layer_vps();
    vps.layers = vec![
        VvcVpsLayer {
            vps_layer_id: 5,
            vps_independent_layer_flag: 1,
            ..Default::default()
        },
        VvcVpsLayer {
            vps_layer_id: 5,
            vps_independent_layer_flag: 1,
            ..Default::default()
        },
    ];
    vps.ptls = vec![ptl(0, true), ptl(0, false)];
    vps.vps_ols_ptl_idx = vec![0, 1];
    assert!(write_vps(&vps).is_err());
}

#[test]
fn vps_extension_data_that_ends_in_zero_is_read_but_not_written() {
    let mut vps = single_layer_vps();
    vps.vps_extension_flag = 1;
    vps.vps_extension_data = vec![1, 0, 1];
    let rbsp = write_vps(&vps).unwrap();
    let mut bits: Vec<u8> = rbsp.iter().flat_map(|b| (0..8).map(move |i| (b >> (7 - i)) & 1)).collect();
    // Turn the last data bit into a zero bit.
    let stop = bits.iter().rposition(|&b| b == 1).unwrap();
    bits[stop - 1] = 0;
    let bytes: Vec<u8> = bits.chunks(8).map(|c| c.iter().fold(0, |a, b| a * 2 + b)).collect();
    let mut nal = vec![0x00, (NAL_TYPE_VPS << 3) | 1];
    nal.extend_from_slice(&oxideav_bitstream::nal::rbsp_to_ebsp(&bytes));
    let parsed = parse_vps(&nal).unwrap();
    assert_eq!(parsed.vps_extension_data, vec![1, 0, 0]);
    assert!(matches!(write_vps(&parsed), Err(BitstreamError::InvalidData(_))));
}

#[test]
fn layer_ids_of_a_vps() {
    let vps = single_layer_vps();
    assert_eq!(vps.vps_max_layers_minus1(), 0);
    assert_eq!(vps.layer_ids().len(), 1);
}
