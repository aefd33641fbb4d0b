//! H.266 shared parameter structures.
use oxideav_bitstream::bit_reader::BitReader;
use oxideav_bitstream::bit_writer::BitWriter;
use oxideav_bitstream::h266::params::{
    ceil_log2_u64, parse_dpb_parameters, parse_general_timing_hrd, parse_ols_timing_hrd,
    parse_ref_pic_list_struct, write_dpb_parameters, write_general_timing_hrd,
    write_ols_timing_hrd, write_ref_pic_list_struct, VvcCpbSchedule, VvcDpbEntry,
    VvcDpbParameters, VvcGeneralTimingHrd, VvcOlsTimingHrd, VvcOlsTimingHrdSublayer,
    VvcRefPicListStruct, VvcRplsContext, VvcRplsEntry, VvcSublayerHrd,
};
use oxideav_bitstream::BitstreamError;

#[test]
fn ceil_log2_values() {
    let want = [(0, 0), (1, 0), (2, 1), (3, 2), (4, 2), (5, 3), (1 << 32, 32), (u64::MAX, 64)];
    for (x, n) in want {
        assert_eq!(ceil_log2_u64(x), n);
    }
}

#[test]
fn dpb_parameters_code_one_entry_without_sublayer_info() {
    let entry = |n| VvcDpbEntry {
        dpb_max_dec_pic_buffering_minus1: n,
        dpb_max_num_reorder_pics: 1,
        dpb_max_latency_increase_plus1: 2,
    };
    let one = VvcDpbParameters { entries: vec![entry(4)] };
    let three = VvcDpbParameters { entries: vec![entry(4), entry(5), entry(6)] };
    let mut w = BitWriter::new();
    write_dpb_parameters(&mut w, &one, 2, false).unwrap();
    write_dpb_parameters(&mut w, &three, 2, true).unwrap();
    assert!(matches!(write_dpb_parameters(&mut w, &one, 2, true), Err(BitstreamError::InvalidData(_))));
    let bytes = w.finish();
    let mut r = BitReader::new(&bytes);
    assert_eq!(parse_dpb_parameters(&mut r, 2, false).unwrap(), one);
    assert_eq!(parse_dpb_parameters(&mut r, 2, true).unwrap(), three);
}

#[test]
fn hrd_parameters_round_trip() {
    let general = VvcGeneralTimingHrd {
        num_units_in_tick: 1,
        time_scale: 50,
        general_nal_hrd_params_present_flag: 1,
        general_vcl_hrd_params_present_flag: 1,
        hrd_cpb_cnt_minus1: 1,
        ..Default::default()
    };
    assert!(general.any_hrd_present());
    assert!(!VvcGeneralTimingHrd::default().any_hrd_present());
    let schedule = |v| VvcCpbSchedule {
        bit_rate_value_minus1: v,
        cpb_size_value_minus1: v + 1,
        du_values_minus1: None,
        cbr_flag: 0,
    };
    let hrd = |a, b| Some(VvcSublayerHrd { schedules: vec![schedule(a), schedule(b)] });
    let ols = VvcOlsTimingHrd {
        sublayers: vec![VvcOlsTimingHrdSublayer {
            fixed_pic_rate_general_flag: 1,
            fixed_pic_rate_within_cvs_flag: 1,
            elemental_duration_in_tc_minus1: 3,
            low_delay_hrd_flag: 0,
            nal_hrd: hrd(10, 20),
            vcl_hrd: hrd(30, 40),
        }],
    };
    let mut w = BitWriter::new();
    write_general_timing_hrd(&mut w, &general).unwrap();
    write_ols_timing_hrd(&mut w, &ols, 1, 1, &general).unwrap();
    let bytes = w.finish();
    let mut r = BitReader::new(&bytes);
    let back = parse_general_timing_hrd(&mut r).unwrap();
    assert_eq!(back, general);
    assert_eq!(parse_ols_timing_hrd(&mut r, 1, 1, &back).unwrap(), ols);
    let mut missing = ols.clone();
    missing.sublayers[0].vcl_hrd = None;
    let mut w = BitWriter::new();
    assert!(matches!(
        write_ols_timing_hrd(&mut w, &missing, 1, 1, &general),
        Err(BitstreamError::InvalidData(_))
    ));
}

#[test]
fn reference_lists_round_trip() {
    let ctx = VvcRplsContext { long_term_ref_pics: true, inter_layer_prediction: true, in_sps_list: true };
    let list = VvcRefPicListStruct {
        ltrp_in_header_flag: 0,
        entries: vec![
            VvcRplsEntry::ShortTerm { abs_delta_poc_st: 4, strp_entry_sign_flag: 1 },
            VvcRplsEntry::LongTerm { rpls_poc_lsb_lt: Some(0x5A) },
            VvcRplsEntry::InterLayer { ilrp_idx: 2 },
        ],
    };
    let mut w = BitWriter::new();
    write_ref_pic_list_struct(&mut w, &list, &ctx, 8).unwrap();
    let bytes = w.finish();
    let mut r = BitReader::new(&bytes);
    assert_eq!(parse_ref_pic_list_struct(&mut r, &ctx, 8).unwrap(), list);
    let mut long = list.clone();
    long.entries = vec![VvcRplsEntry::InterLayer { ilrp_idx: 0 }; 30];
    let mut w = BitWriter::new();
    assert!(matches!(write_ref_pic_list_struct(&mut w, &long, &ctx, 8), Err(BitstreamError::InvalidData(_))));
    let mut wide = list;
    wide.entries[1] = VvcRplsEntry::LongTerm { rpls_poc_lsb_lt: Some(0x100) };
    assert!(matches!(write_ref_pic_list_struct(&mut w, &wide, &ctx, 8), Err(BitstreamError::InvalidData(_))));
}

#[test]
fn long_term_lsb_width_matters_only_where_it_is_coded() {
    let ctx = VvcRplsContext { long_term_ref_pics: true, inter_layer_prediction: false, in_sps_list: true };
    let mut list = VvcRefPicListStruct {
        ltrp_in_header_flag: 0,
        entries: vec![VvcRplsEntry::ShortTerm { abs_delta_poc_st: 3, strp_entry_sign_flag: 1 }],
    };
    let mut w = BitWriter::new();
    write_ref_pic_list_struct(&mut w, &list, &ctx, 40).unwrap();
    let b = w.finish();
    assert_eq!(parse_ref_pic_list_struct(&mut BitReader::new(&b), &ctx, 40).unwrap(), list);
    list.entries.push(VvcRplsEntry::LongTerm { rpls_poc_lsb_lt: Some(1) });
    let mut w = BitWriter::new();
    assert!(matches!(write_ref_pic_list_struct(&mut w, &list, &ctx, 40), Err(BitstreamError::InvalidData(_))));
    let mut w = BitWriter::new();
    assert!(write_ref_pic_list_struct(&mut w, &list, &ctx, 16).is_ok());
    let b = w.finish();
    assert_eq!(parse_ref_pic_list_struct(&mut BitReader::new(&b), &ctx, 16).unwrap(), list);
    assert!(matches!(
        parse_ref_pic_list_struct(&mut BitReader::new(&b), &ctx, 40),
        Err(BitstreamError::InvalidData(_))
    ));
}
