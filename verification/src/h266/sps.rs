//! H.266 / VVC sequence parameter set (§7.3.2.4): complete walk,
//! parse and byte-exact write.
//!
//! [`parse_sps`] walks every syntax element of
//! `seq_parameter_set_rbsp()` through `rbsp_trailing_bits()` and
//! retains them losslessly; [`write_sps`] is its byte-exact inverse
//! (`write_sps(parse_sps(x)) == x`, see [`law_write_parsed_sps`]). The
//! `vui_payload()` is preserved as its raw byte block (§7.3.2.4 signals
//! its size explicitly and byte-aligns before it), and
//! `sps_extension_data_flag` bits are retained verbatim.
use crate::bit_reader::{BitReader, read_is, read_seq_is, read_vec_is, read_view_is};
use crate::bit_writer::{BitWriter, fits_bits, unfit_error, us_fit, write_is};
use crate::bits::{
    Read, adv, adv_if, align_at, all_ok, bitlist_at, bitlist_ok, bits_of, fits, flag_at,
    flag_if, group_read_written, group_read_written_lists, group_write_read,
    group_write_read_lists, law_faults_bitlist, law_faults_se, law_faults_tail, law_faults_u8s,
    law_faults_ue, law_faults_ues, law_faults_us, law_fits_small, law_pre_put_tail,
    law_put_rep_at, law_put_tail_at, law_rep_at_put, lemma_bits_of_injective, lemma_bits_of_len,
    lemma_log2, lemma_pad_aligned, lemma_pow2_le, lemma_put_u8s_len, lemma_rep_err,
    lemma_rep_faults, lemma_rep_places, lemma_rep_step, lemma_seq_view_push,
    lemma_trailing_aligned, log2, opt_view, pre, put_align, put_bit, put_bit_if, put_bitlist,
    put_flag, put_flag_if, put_rep, put_se, put_tail, put_u, put_u8s, put_u_if, put_ue,
    put_ue_if, put_ues, put_us, read_some, rep_at, se_at, se_fits, seq_view, tail_at, tail_can,
    tail_ok, u32_if, u8_at, u8_if, u8s_at, u8s_ok, ue_at, ue_fits, ue_if, ues_at, ues_ok, upto,
    us_at, us_ok, whole, within,
};
use crate::layout::cursor;
use crate::h266::params::{
    VvcDpbParameters, VvcDpbParametersModel, VvcGeneralTimingHrd, VvcOlsTimingHrd,
    VvcOlsTimingHrdModel, VvcRefPicListStruct, VvcRefPicListStructModel, VvcRplsContext,
    ceil_log2, ceil_log2_u64, dpb_parameters_at, dpb_parameters_can, dpb_parameters_ok,
    general_timing_hrd_at, general_timing_hrd_can, general_timing_hrd_ok,
    law_faults_dpb_parameters, law_faults_general_timing_hrd, law_faults_ols_timing_hrd,
    law_faults_ref_pic_list, law_pre_put_dpb_parameters, law_pre_put_general_timing_hrd,
    law_pre_put_ols_timing_hrd, law_pre_put_ref_pic_list, law_put_dpb_parameters_at,
    law_put_general_timing_hrd_at, law_put_ols_timing_hrd_at, law_put_ref_pic_list_at,
    ols_timing_hrd_at, ols_timing_hrd_can, ols_timing_hrd_ok, parse_dpb_parameters,
    parse_general_timing_hrd, parse_ols_timing_hrd, parse_ref_pic_list_struct,
    put_dpb_parameters, put_general_timing_hrd, put_ols_timing_hrd, put_ref_pic_list,
    ref_pic_list_at, ref_pic_list_can, ref_pic_list_ok, write_dpb_parameters,
    write_general_timing_hrd, write_ols_timing_hrd, write_ref_pic_list_struct,
};
use crate::h266::{
    NAL_TYPE_SPS, VvcProfileTierLevel, VvcProfileTierLevelModel, canonical_nal, frame_nal,
    law_faults_ptl, law_framed_rbsp_of_nal, law_pre_put_ptl, law_put_ptl_at,
    law_rbsp_of_framed_nal, nal_of_rbsp, nal_rbsp, nal_read_is, nal_write_is,
    parse_profile_tier_level, ptl_at, ptl_can, ptl_ok, put_ptl, rbsp_of_nal, rbsp_write_is,
    write_profile_tier_level,
};
use crate::nal::{escape, lemma_unescape_len, unescape};
use crate::rbsp::{parse_tail, write_tail};
use crate::message::Message;
use crate::{BitstreamError, Fault};
use vstd::arithmetic::power2::{lemma2_to64, lemma2_to64_rest, lemma_pow2_pos, pow2};
use vstd::prelude::*;

verus! {

/// Upper bound on `sps_log2_max_pic_order_cnt_lsb_minus4`
/// (§7.4.3.4): `MaxPicOrderCntLsb` is bounded by 2^16, hence
/// `sps_log2_max_pic_order_cnt_lsb_minus4 ≤ 12`. Surfaced so callers
/// can validate against the same envelope the parser enforces.
pub const SPS_LOG2_MAX_PIC_ORDER_CNT_LSB_MINUS4_MAX: u8 = 12;

/// Table A.2 bound: `MaxSlicesPerAu ≤ 1000`, so
/// `sps_num_subpics_minus1 ≤ 999` (§7.4.3.4).
pub const SPS_NUM_SUBPICS_MINUS1_MAX: u32 = 999;

// ─────────────────────────── Subpicture layout ───────────────────────────────

/// One subpicture's layout entry (§7.3.2.4 / §7.4.3.4). Fields not
/// coded for this index (per the `u(v)` presence conditions) carry
/// their inferred values.
#[derive(Debug, Clone, Copy, PartialEq, Eq, Default)]
pub struct VvcSubpicEntry {
    /// `sps_subpic_ctu_top_left_x[i]` u(v) in CTU units — coded only
    /// when `i > 0` and the picture is wider than one CTU.
    pub sps_subpic_ctu_top_left_x: u32,
    /// `sps_subpic_ctu_top_left_y[i]` u(v) in CTU units.
    pub sps_subpic_ctu_top_left_y: u32,
    /// `sps_subpic_width_minus1[i]` u(v) in CTU units — coded only
    /// when `i < sps_num_subpics_minus1` and the picture is wider
    /// than one CTU.
    pub sps_subpic_width_minus1: u32,
    /// `sps_subpic_height_minus1[i]` u(v) in CTU units.
    pub sps_subpic_height_minus1: u32,
    /// `sps_subpic_treated_as_pic_flag[i]` u(1) — coded only when
    /// `!sps_independent_subpics_flag`; inferred 1 otherwise.
    pub sps_subpic_treated_as_pic_flag: u8,
    /// `sps_loop_filter_across_subpic_enabled_flag[i]` u(1) — coded
    /// only when `!sps_independent_subpics_flag`; inferred 0.
    pub sps_loop_filter_across_subpic_enabled_flag: u8,
}

/// The SPS subpicture info block (§7.3.2.4, present iff
/// `sps_subpic_info_present_flag`).
#[derive(Debug, Clone, PartialEq, Eq, Default)]
pub struct VvcSubpicInfo {
    /// `sps_num_subpics_minus1` ue(v) — 0..=999 (Table A.2).
    pub sps_num_subpics_minus1: u32,
    /// `sps_independent_subpics_flag` u(1) — coded only when
    /// `sps_num_subpics_minus1 > 0`; inferred 1 otherwise.
    pub sps_independent_subpics_flag: u8,
    /// `sps_subpic_same_size_flag` u(1) — coded only when
    /// `sps_num_subpics_minus1 > 0`; inferred 0 otherwise.
    pub sps_subpic_same_size_flag: u8,
    /// Per-subpicture entries. Empty when `sps_num_subpics_minus1 ==
    /// 0` (the per-`i` loop does not run then, §7.3.2.4); otherwise
    /// exactly `sps_num_subpics_minus1 + 1` entries with inferred
    /// values filled in for uncoded fields.
    pub entries: Vec<VvcSubpicEntry>,
    /// `sps_subpic_id_len_minus1` ue(v) — 0..=15, and
    /// `1 << (len + 1)` must cover `sps_num_subpics_minus1 + 1`.
    pub sps_subpic_id_len_minus1: u32,
    /// `sps_subpic_id_mapping_explicitly_signalled_flag` u(1).
    pub sps_subpic_id_mapping_explicitly_signalled_flag: u8,
    /// `sps_subpic_id_mapping_present_flag` u(1) — coded only when
    /// the mapping is explicitly signalled; inferred 0.
    pub sps_subpic_id_mapping_present_flag: u8,
    /// `sps_subpic_id[i]` u(v) — `sps_num_subpics_minus1 + 1` ids,
    /// present iff `sps_subpic_id_mapping_present_flag`.
    pub sps_subpic_ids: Vec<u32>,
}

/// One subpicture at position `p`, behind the subpictures `done`. The picture
/// is `w` by `h` CTUs; there are `num + 1` subpictures.
#[verifier::opaque]
pub open spec fn subpic_entry_at(
    s: Seq<bool>,
    p: nat,
    done: Seq<VvcSubpicEntry>,
    w: u64,
    h: u64,
    num: u32,
    independent: u8,
    same_size: u8,
) -> Read<VvcSubpicEntry> {
    let i = done.len();
    let coded = same_size == 0 || i == 0;
    if !coded && !grid_fits(done[0], w, h, num) {
        Err(Fault::Invalid)
    } else {
        let wb = ceil_log2(w as nat);
        let hb = ceil_log2(h as nat);
        let x = u32_if(s, p, wb, coded && i > 0 && w > 1, inferred_x(done, w, coded));
        let p = adv_if(p, wb, coded && i > 0 && w > 1);
        let y = u32_if(s, p, hb, coded && i > 0 && h > 1, inferred_y(done, w, coded));
        let p = adv_if(p, hb, coded && i > 0 && h > 1);
        let cw = coded && i < num && w > 1;
        if coded && !cw && x >= w {
            Err(Fault::Invalid)
        } else {
            let width = u32_if(s, p, wb, cw, inferred_size(x, w, done, coded, true));
            let p = adv_if(p, wb, cw);
            let ch = coded && i < num && h > 1;
            if coded && !ch && y >= h {
                Err(Fault::Invalid)
            } else {
                let height = u32_if(s, p, hb, ch, inferred_size(y, h, done, coded, false));
                let p = adv_if(p, hb, ch);
                if x + width + 1 > w || y + height + 1 > h {
                    Err(Fault::Invalid)
                } else {
                    let treated = u8_if(s, p, 1, independent == 0, 1);
                    let p = adv_if(p, 1, independent == 0);
                    let loop_filter = u8_if(s, p, 1, independent == 0, 0);
                    let p = adv_if(p, 1, independent == 0);
                    Ok(
                        (
                            VvcSubpicEntry {
                                sps_subpic_ctu_top_left_x: x,
                                sps_subpic_ctu_top_left_y: y,
                                sps_subpic_width_minus1: width,
                                sps_subpic_height_minus1: height,
                                sps_subpic_treated_as_pic_flag: treated,
                                sps_loop_filter_across_subpic_enabled_flag: loop_filter,
                            },
                            p,
                        ),
                    )
                }
            }
        }
    }
}

/// Subpictures of the size of `e` tile the picture, and there are `num + 1`
/// of them.
pub open spec fn grid_fits(e: VvcSubpicEntry, w: u64, h: u64, num: u32) -> bool {
    let w0 = (e.sps_subpic_width_minus1 + 1) as nat;
    let h0 = (e.sps_subpic_height_minus1 + 1) as nat;
    &&& w as nat % w0 == 0
    &&& h as nat % h0 == 0
    &&& (w as nat / w0) * (h as nat / h0) == num + 1
}

/// The left edge of a subpicture where it is not coded: 0, or its place in the
/// grid of equal subpictures.
pub open spec fn inferred_x(done: Seq<VvcSubpicEntry>, w: u64, coded: bool) -> u32 {
    if coded {
        0
    } else {
        let w0 = (done[0].sps_subpic_width_minus1 + 1) as nat;
        ((done.len() % (w as nat / w0)) * w0) as u32
    }
}

/// The top edge of a subpicture where it is not coded.
pub open spec fn inferred_y(done: Seq<VvcSubpicEntry>, w: u64, coded: bool) -> u32 {
    if coded {
        0
    } else {
        let w0 = (done[0].sps_subpic_width_minus1 + 1) as nat;
        let h0 = (done[0].sps_subpic_height_minus1 + 1) as nat;
        ((done.len() / (w as nat / w0)) * h0) as u32
    }
}

/// The size less one of a subpicture where it is not coded: what is left of the
/// picture from `start`, or the size of the first subpicture.
pub open spec fn inferred_size(
    start: u32,
    total: u64,
    done: Seq<VvcSubpicEntry>,
    coded: bool,
    horizontal: bool,
) -> u32 {
    if coded {
        (total - start - 1) as u32
    } else if horizontal {
        done[0].sps_subpic_width_minus1
    } else {
        done[0].sps_subpic_height_minus1
    }
}

/// Writes subpicture number `i`.
#[verifier::opaque]
pub open spec fn put_subpic_entry(
    a: Seq<bool>,
    e: VvcSubpicEntry,
    i: nat,
    w: u64,
    h: u64,
    num: u32,
    independent: u8,
    same_size: u8,
) -> Seq<bool> {
    let coded = same_size == 0 || i == 0;
    let wb = ceil_log2(w as nat);
    let hb = ceil_log2(h as nat);
    let a = put_u_if(a, e.sps_subpic_ctu_top_left_x as nat, wb, coded && i > 0 && w > 1);
    let a = put_u_if(a, e.sps_subpic_ctu_top_left_y as nat, hb, coded && i > 0 && h > 1);
    let a = put_u_if(a, e.sps_subpic_width_minus1 as nat, wb, coded && i < num && w > 1);
    let a = put_u_if(a, e.sps_subpic_height_minus1 as nat, hb, coded && i < num && h > 1);
    let a = put_bit_if(a, e.sps_subpic_treated_as_pic_flag as nat, independent == 0);
    put_bit_if(a, e.sps_loop_filter_across_subpic_enabled_flag as nat, independent == 0)
}

/// A subpicture behind the subpictures `done` that reading can give.
#[verifier::opaque]
pub open spec fn subpic_entry_ok(
    e: VvcSubpicEntry,
    done: Seq<VvcSubpicEntry>,
    w: u64,
    h: u64,
    num: u32,
    independent: u8,
    same_size: u8,
) -> bool {
    let i = done.len();
    let coded = same_size == 0 || i == 0;
    let wb = ceil_log2(w as nat);
    let hb = ceil_log2(h as nat);
    let x = e.sps_subpic_ctu_top_left_x;
    let y = e.sps_subpic_ctu_top_left_y;
    &&& !coded ==> grid_fits(done[0], w, h, num)
    &&& if coded && i > 0 && w > 1 {
        fits(x as nat, wb)
    } else {
        x == inferred_x(done, w, coded)
    }
    &&& if coded && i > 0 && h > 1 {
        fits(y as nat, hb)
    } else {
        y == inferred_y(done, w, coded)
    }
    &&& if coded && i < num && w > 1 {
        fits(e.sps_subpic_width_minus1 as nat, wb)
    } else {
        (coded ==> x < w) && e.sps_subpic_width_minus1 == inferred_size(x, w, done, coded, true)
    }
    &&& if coded && i < num && h > 1 {
        fits(e.sps_subpic_height_minus1 as nat, hb)
    } else {
        (coded ==> y < h) && e.sps_subpic_height_minus1 == inferred_size(y, h, done, coded, false)
    }
    &&& x + e.sps_subpic_width_minus1 + 1 <= w
    &&& y + e.sps_subpic_height_minus1 + 1 <= h
    &&& if independent == 0 {
        fits(e.sps_subpic_treated_as_pic_flag as nat, 1)
    } else {
        e.sps_subpic_treated_as_pic_flag == 1
    }
    &&& if independent == 0 {
        fits(e.sps_loop_filter_across_subpic_enabled_flag as nat, 1)
    } else {
        e.sps_loop_filter_across_subpic_enabled_flag == 0
    }
}

/// Parses one subpicture.
fn parse_subpic_entry(
    r: &mut BitReader<'_>,
    done: &Vec<VvcSubpicEntry>,
    w: u64,
    h: u64,
    num: u32,
    independent: u8,
    same_size: u8,
) -> (res: Result<VvcSubpicEntry, BitstreamError>)
    requires
        w <= 0x0800_0000,
        h <= 0x0800_0000,
        done@.len() <= num,
        num <= 999,
    ensures
        read_is(
            subpic_entry_at(
                old(r).bits(),
                old(r).pos(),
                done@,
                w,
                h,
                num,
                independent,
                same_size,
            ),
            res,
            *old(r),
            *final(r),
        ),
{
    proof {
        reveal(subpic_entry_at);
        reveal(u32_if);
    }
    let i: u32 = done.len() as u32;
    let coded: bool = same_size == 0 || i == 0;
    let wb: u32 = ceil_log2_u64(w);
    let hb: u32 = ceil_log2_u64(h);
    let mut inf_x: u32 = 0;
    let mut inf_y: u32 = 0;
    let mut inf_w: u32 = 0;
    let mut inf_h: u32 = 0;
    if !coded {
        inf_w = done[0].sps_subpic_width_minus1;
        inf_h = done[0].sps_subpic_height_minus1;
        let w0: u64 = inf_w as u64 + 1;
        let h0: u64 = inf_h as u64 + 1;
        if w % w0 != 0 || h % h0 != 0 {
            return Err(
                BitstreamError::invalid(
                    "sps_subpic_same_size_flag = 1 requires the subpicture grid to tile the picture exactly (7.4.3.4)",
                ),
            );
        }
        let cols: u64 = w / w0;
        let rows: u64 = h / h0;
        proof {
            assert(cols <= w && rows <= h) by (nonlinear_arith)
                requires
                    cols == w / w0,
                    rows == h / h0,
                    w0 >= 1,
                    h0 >= 1,
            ;
            assert(cols * rows <= 0x0800_0000 * 0x0800_0000) by (nonlinear_arith)
                requires
                    0 <= cols <= 0x0800_0000,
                    0 <= rows <= 0x0800_0000,
            ;
        }
        if cols * rows != num as u64 + 1 {
            return Err(
                BitstreamError::invalid(
                    "sps_subpic_same_size_flag = 1 grid does not yield sps_num_subpics_minus1 + 1 subpictures (7.4.3.4)",
                ),
            );
        }
        proof {
            assert(cols >= 1) by (nonlinear_arith)
                requires
                    cols * rows == num + 1,
                    cols >= 0,
            ;
            assert((i as u64 % cols) * w0 <= 999 * 0x1_0000_0000) by (nonlinear_arith)
                requires
                    i <= 999,
                    cols >= 1,
                    0 <= w0 <= 0x1_0000_0000,
            ;
            assert((i as u64 / cols) * h0 <= 999 * 0x1_0000_0000) by (nonlinear_arith)
                requires
                    i <= 999,
                    cols >= 1,
                    0 <= h0 <= 0x1_0000_0000,
            ;
        }
        inf_x = ((i as u64 % cols) * w0) as u32;
        inf_y = ((i as u64 / cols) * h0) as u32;
    }
    let x: u32 = r.u_if(wb, coded && i > 0 && w > 1, inf_x);
    let y: u32 = r.u_if(hb, coded && i > 0 && h > 1, inf_y);
    let cw: bool = coded && i < num && w > 1;
    if coded && !cw {
        if x as u64 >= w {
            return Err(
                BitstreamError::invalid(
                    "sps_subpic_ctu_top_left_x exceeds the picture width in CTUs",
                ),
            );
        }
        inf_w = (w - x as u64 - 1) as u32;
    }
    let width: u32 = r.u_if(wb, cw, inf_w);
    let ch: bool = coded && i < num && h > 1;
    if coded && !ch {
        if y as u64 >= h {
            return Err(
                BitstreamError::invalid(
                    "sps_subpic_ctu_top_left_y exceeds the picture height in CTUs",
                ),
            );
        }
        inf_h = (h - y as u64 - 1) as u32;
    }
    let height: u32 = r.u_if(hb, ch, inf_h);
    if x as u64 + width as u64 + 1 > w || y as u64 + height as u64 + 1 > h {
        return Err(
            Message::new("subpicture ").num(i as i128).with(" exceeds the picture grid (7.4.3.4)").invalid(),
        );
    }
    let treated: u8 = r.bit_if(independent == 0, 1);
    let loop_filter: u8 = r.bit_if(independent == 0, 0);
    Ok(
        VvcSubpicEntry {
            sps_subpic_ctu_top_left_x: x,
            sps_subpic_ctu_top_left_y: y,
            sps_subpic_width_minus1: width,
            sps_subpic_height_minus1: height,
            sps_subpic_treated_as_pic_flag: treated,
            sps_loop_filter_across_subpic_enabled_flag: loop_filter,
        },
    )
}

/// Reads one subpicture.
pub open spec fn subpic_item(
    s: Seq<bool>,
    w: u64,
    h: u64,
    num: u32,
    independent: u8,
    same_size: u8,
) -> spec_fn(Seq<VvcSubpicEntry>, nat) -> Read<VvcSubpicEntry> {
    |done: Seq<VvcSubpicEntry>, q: nat|
        subpic_entry_at(s, q, done, w, h, num, independent, same_size)
}

/// Writes one subpicture.
pub open spec fn put_subpic_item(
    w: u64,
    h: u64,
    num: u32,
    independent: u8,
    same_size: u8,
) -> spec_fn(Seq<bool>, Seq<VvcSubpicEntry>, VvcSubpicEntry) -> Seq<bool> {
    |a: Seq<bool>, done: Seq<VvcSubpicEntry>, e: VvcSubpicEntry|
        put_subpic_entry(a, e, done.len(), w, h, num, independent, same_size)
}

/// What a subpicture may be.
pub open spec fn subpic_item_ok(
    w: u64,
    h: u64,
    num: u32,
    independent: u8,
    same_size: u8,
) -> spec_fn(Seq<VvcSubpicEntry>, VvcSubpicEntry) -> bool {
    |done: Seq<VvcSubpicEntry>, e: VvcSubpicEntry|
        subpic_entry_ok(e, done, w, h, num, independent, same_size)
}

/// The number of subpicture entries: none where there is only one subpicture.
pub open spec fn num_subpic_entries(num: u32) -> nat {
    if num > 0 {
        (num + 1) as nat
    } else {
        0
    }
}

/// The subpictures at position `p`.
#[verifier::opaque]
pub open spec fn subpic_entries_at(
    s: Seq<bool>,
    p: nat,
    w: u64,
    h: u64,
    num: u32,
    independent: u8,
    same_size: u8,
) -> Read<Seq<VvcSubpicEntry>> {
    rep_at(subpic_item(s, w, h, num, independent, same_size), p, num_subpic_entries(num))
}

/// Writes the subpictures.
#[verifier::opaque]
pub open spec fn put_subpic_entries(
    a: Seq<bool>,
    xs: Seq<VvcSubpicEntry>,
    w: u64,
    h: u64,
    num: u32,
    independent: u8,
    same_size: u8,
) -> Seq<bool> {
    put_rep(put_subpic_item(w, h, num, independent, same_size), a, xs)
}

/// Subpictures that reading can give.
#[verifier::opaque]
pub open spec fn subpic_entries_ok(
    xs: Seq<VvcSubpicEntry>,
    w: u64,
    h: u64,
    num: u32,
    independent: u8,
    same_size: u8,
) -> bool {
    &&& xs.len() == num_subpic_entries(num)
    &&& all_ok(subpic_item_ok(w, h, num, independent, same_size), xs)
}

/// Subpictures that the writer accepts.
#[verifier::opaque]
pub open spec fn subpic_entries_can(
    xs: Seq<VvcSubpicEntry>,
    w: u64,
    h: u64,
    num: u32,
    independent: u8,
    same_size: u8,
) -> bool {
    xs.len() == num_subpic_entries(num)
}

/// Parses the subpictures.
fn parse_subpic_entries(
    r: &mut BitReader<'_>,
    w: u64,
    h: u64,
    num: u32,
    independent: u8,
    same_size: u8,
) -> (res: Result<Vec<VvcSubpicEntry>, BitstreamError>)
    requires
        w <= 0x0800_0000,
        h <= 0x0800_0000,
        num <= 999,
    ensures
        read_vec_is(
            subpic_entries_at(old(r).bits(), old(r).pos(), w, h, num, independent, same_size),
            res,
            *old(r),
            *final(r),
        ),
{
    let ghost s = r.bits();
    let ghost p = r.pos();
    let ghost reads = subpic_item(s, w, h, num, independent, same_size);
    proof {
        reveal(subpic_entries_at);
    }
    let mut xs: Vec<VvcSubpicEntry> = Vec::new();
    let n: u32 = if num > 0 {
        num + 1
    } else {
        0
    };
    let mut i: u32 = 0;
    while i < n
        invariant
            w <= 0x0800_0000,
            h <= 0x0800_0000,
            num <= 999,
            i <= n,
            n == num_subpic_entries(num),
            xs@.len() == i,
            reads == subpic_item(s, w, h, num, independent, same_size),
            s == r.bits(),
            s == old(r).bits(),
            p == old(r).pos(),
            r.bytes() == old(r).bytes(),
            rep_at(reads, p, i as nat) == Ok::<(Seq<VvcSubpicEntry>, nat), Fault>((xs@, r.pos())),
        decreases n - i,
    {
        match parse_subpic_entry(r, &xs, w, h, num, independent, same_size) {
            Ok(e) => {
                xs.push(e);
            },
            Err(e) => {
                proof {
                    reveal(subpic_entries_at);
                    lemma_rep_err(reads, p, (i + 1) as nat, n as nat);
                }
                return Err(e);
            },
        }
        i = i + 1;
    }
    Ok(xs)
}

/// Emits the subpictures.
fn write_subpic_entries(
    bw: &mut BitWriter,
    xs: &Vec<VvcSubpicEntry>,
    w: u64,
    h: u64,
    num: u32,
    independent: u8,
    same_size: u8,
) -> (res: Result<(), BitstreamError>)
    requires
        w <= 0x0800_0000,
        h <= 0x0800_0000,
        num <= 999,
    ensures
        write_is(
            subpic_entries_can(xs@, w, h, num, independent, same_size),
            put_subpic_entries(old(bw)@, xs@, w, h, num, independent, same_size),
            res,
            final(bw)@,
        ),
{
    let ghost before = bw@;
    let ghost puts = put_subpic_item(w, h, num, independent, same_size);
    proof {
        reveal(put_subpic_entries);
        reveal(subpic_entries_can);
        assert(xs@.take(0) =~= Seq::empty());
    }
    let n: usize = if num > 0 {
        num as usize + 1
    } else {
        0
    };
    if xs.len() != n {
        return Err(
            if num > 0 {
                Message::new("subpicture entry count ")
                    .num(xs.len() as i128)
                    .with(" != sps_num_subpics_minus1 + 1 = ")
                    .num((num as u64 + 1) as i128)
                    .invalid()
            } else {
                BitstreamError::invalid("subpicture entries must be empty when sps_num_subpics_minus1 == 0")
            },
        );
    }
    let wb: u32 = ceil_log2_u64(w);
    let hb: u32 = ceil_log2_u64(h);
    let mut i: usize = 0;
    while i < n
        invariant
            i <= n,
            n == xs@.len(),
            wb == ceil_log2(w as nat),
            hb == ceil_log2(h as nat),
            wb <= 32,
            hb <= 32,
            puts == put_subpic_item(w, h, num, independent, same_size),
            bw@ == put_rep(puts, before, xs@.take(i as int)),
        decreases n - i,
    {
        proof {
            reveal(put_subpic_entry);
            assert(xs@.take(i + 1).drop_last() =~= xs@.take(i as int));
        }
        let e: &VvcSubpicEntry = &xs[i];
        let coded: bool = same_size == 0 || i == 0;
        bw.write_bits_if(e.sps_subpic_ctu_top_left_x, wb, coded && i > 0 && w > 1);
        bw.write_bits_if(e.sps_subpic_ctu_top_left_y, hb, coded && i > 0 && h > 1);
        bw.write_bits_if(e.sps_subpic_width_minus1, wb, coded && i < num as usize && w > 1);
        bw.write_bits_if(e.sps_subpic_height_minus1, hb, coded && i < num as usize && h > 1);
        bw.write_bit_if(e.sps_subpic_treated_as_pic_flag as u32, independent == 0);
        bw.write_bit_if(e.sps_loop_filter_across_subpic_enabled_flag as u32, independent == 0);
        i = i + 1;
    }
    proof {
        assert(xs@.take(i as int) =~= xs@);
    }
    Ok(())
}

proof fn lemma_width(w: u64)
    requires
        w <= 0x0800_0000,
    ensures
        ceil_log2(w as nat) <= 32,
{
    if w > 1 {
        lemma2_to64();
        lemma_log2((w - 1) as nat);
        if log2((w - 1) as nat) >= 31 {
            lemma_pow2_le(31, log2((w - 1) as nat));
        }
    }
}

proof fn law_put_subpic_entry_at(
    s: Seq<bool>,
    p: nat,
    done: Seq<VvcSubpicEntry>,
    w: u64,
    h: u64,
    num: u32,
    independent: u8,
    same_size: u8,
)
    requires
        w <= 0x0800_0000,
        h <= 0x0800_0000,
    ensures
        subpic_entry_at(s, p, done, w, h, num, independent, same_size) matches Ok((e, q)) ==> {
            &&& subpic_entry_ok(e, done, w, h, num, independent, same_size)
            &&& within(s, q) ==> within(s, p) && put_subpic_entry(
                upto(s, p),
                e,
                done.len(),
                w,
                h,
                num,
                independent,
                same_size,
            ) == upto(s, q)
        },
{
    broadcast use crate::bits::group_write_read;

    reveal(subpic_entry_at);
    reveal(put_subpic_entry);
    reveal(subpic_entry_ok);
    lemma_width(w);
    lemma_width(h);
}

proof fn law_pre_put_subpic_entry(
    a: Seq<bool>,
    e: VvcSubpicEntry,
    done: Seq<VvcSubpicEntry>,
    w: u64,
    h: u64,
    num: u32,
    independent: u8,
    same_size: u8,
    s: Seq<bool>,
)
    requires
        pre(put_subpic_entry(a, e, done.len(), w, h, num, independent, same_size), s),
        subpic_entry_ok(e, done, w, h, num, independent, same_size),
        w <= 0x0800_0000,
        h <= 0x0800_0000,
    ensures
        pre(a, s),
        subpic_entry_at(s, a.len(), done, w, h, num, independent, same_size) == Ok::<
            (VvcSubpicEntry, nat),
            Fault,
        >((e, put_subpic_entry(a, e, done.len(), w, h, num, independent, same_size).len())),
{
    broadcast use crate::bits::group_read_written;

    reveal(subpic_entry_at);
    reveal(put_subpic_entry);
    reveal(subpic_entry_ok);
    lemma_width(w);
    lemma_width(h);
}

/// Writing what was read gives back the bits that were read.
pub broadcast proof fn law_put_subpic_entries_at(
    s: Seq<bool>,
    p: nat,
    w: u64,
    h: u64,
    num: u32,
    independent: u8,
    same_size: u8,
)
    requires
        w <= 0x0800_0000,
        h <= 0x0800_0000,
    ensures
        #[trigger] subpic_entries_at(s, p, w, h, num, independent, same_size) matches Ok((xs, q))
            ==> {
            &&& subpic_entries_ok(xs, w, h, num, independent, same_size)
            &&& subpic_entries_can(xs, w, h, num, independent, same_size)
            &&& within(s, q) ==> within(s, p) && put_subpic_entries(
                upto(s, p),
                xs,
                w,
                h,
                num,
                independent,
                same_size,
            ) == upto(s, q)
        },
{
    reveal(subpic_entries_at);
    reveal(put_subpic_entries);
    reveal(subpic_entries_ok);
    reveal(subpic_entries_can);
    let f = subpic_item(s, w, h, num, independent, same_size);
    let g = put_subpic_item(w, h, num, independent, same_size);
    let ok = subpic_item_ok(w, h, num, independent, same_size);
    assert forall|d: Seq<VvcSubpicEntry>, q: nat|
        #![trigger f(d, q)]
        f(d, q) matches Ok((x, r)) ==> ok(d, x) && (within(s, r) ==> within(s, q) && g(
            upto(s, q),
            d,
            x,
        ) == upto(s, r)) by {
        law_put_subpic_entry_at(s, q, d, w, h, num, independent, same_size);
    }
    law_put_rep_at(s, f, g, ok, p, num_subpic_entries(num));
}

/// What was written reads back as the subpictures that were written.
pub broadcast proof fn law_pre_put_subpic_entries(
    a: Seq<bool>,
    xs: Seq<VvcSubpicEntry>,
    w: u64,
    h: u64,
    num: u32,
    independent: u8,
    same_size: u8,
    s: Seq<bool>,
)
    requires
        #[trigger] pre(put_subpic_entries(a, xs, w, h, num, independent, same_size), s),
        subpic_entries_ok(xs, w, h, num, independent, same_size),
        w <= 0x0800_0000,
        h <= 0x0800_0000,
    ensures
        pre(a, s),
        subpic_entries_can(xs, w, h, num, independent, same_size),
        subpic_entries_at(s, a.len(), w, h, num, independent, same_size) == Ok::<
            (Seq<VvcSubpicEntry>, nat),
            Fault,
        >((xs, put_subpic_entries(a, xs, w, h, num, independent, same_size).len())),
{
    reveal(subpic_entries_at);
    reveal(put_subpic_entries);
    reveal(subpic_entries_ok);
    reveal(subpic_entries_can);
    let f = subpic_item(s, w, h, num, independent, same_size);
    let g = put_subpic_item(w, h, num, independent, same_size);
    let ok = subpic_item_ok(w, h, num, independent, same_size);
    assert forall|b: Seq<bool>, d: Seq<VvcSubpicEntry>, x: VvcSubpicEntry|
        #![trigger g(b, d, x)]
        ok(d, x) && pre(g(b, d, x), s) implies pre(b, s) && f(d, b.len()) == Ok::<
        (VvcSubpicEntry, nat),
        Fault,
    >((x, g(b, d, x).len())) by {
        law_pre_put_subpic_entry(b, x, d, w, h, num, independent, same_size, s);
    }
    law_rep_at_put(s, f, g, ok, a, xs);
}

/// The mathematical model of a [`VvcSubpicInfo`].
pub struct VvcSubpicInfoModel {
    pub sps_num_subpics_minus1: u32,
    pub sps_independent_subpics_flag: u8,
    pub sps_subpic_same_size_flag: u8,
    pub entries: Seq<VvcSubpicEntry>,
    pub sps_subpic_id_len_minus1: u32,
    pub sps_subpic_id_mapping_explicitly_signalled_flag: u8,
    pub sps_subpic_id_mapping_present_flag: u8,
    pub sps_subpic_ids: Seq<u32>,
}

impl View for VvcSubpicInfo {
    type V = VvcSubpicInfoModel;

    open spec fn view(&self) -> VvcSubpicInfoModel {
        VvcSubpicInfoModel {
            sps_num_subpics_minus1: self.sps_num_subpics_minus1,
            sps_independent_subpics_flag: self.sps_independent_subpics_flag,
            sps_subpic_same_size_flag: self.sps_subpic_same_size_flag,
            entries: self.entries@,
            sps_subpic_id_len_minus1: self.sps_subpic_id_len_minus1,
            sps_subpic_id_mapping_explicitly_signalled_flag: self.sps_subpic_id_mapping_explicitly_signalled_flag,
            sps_subpic_id_mapping_present_flag: self.sps_subpic_id_mapping_present_flag,
            sps_subpic_ids: self.sps_subpic_ids@,
        }
    }
}

/// The subpicture info block at position `p`.
#[verifier::opaque]
pub open spec fn subpic_info_at(
    s: Seq<bool>,
    p: nat,
    tmp_width_val: u64,
    tmp_height_val: u64,
) -> Read<VvcSubpicInfoModel> {
    match ue_at(s, p) { Err(f) => Err(f), Ok((sps_num_subpics_minus1, p)) => {
    if sps_num_subpics_minus1 > SPS_NUM_SUBPICS_MINUS1_MAX { Err(Fault::Invalid) } else {
    let sps_independent_subpics_flag = u8_if(s, p, 1, sps_num_subpics_minus1 > 0, 1);
    let p = adv_if(p, 1, sps_num_subpics_minus1 > 0);
    let sps_subpic_same_size_flag = u8_if(s, p, 1, sps_num_subpics_minus1 > 0, 0);
    let p = adv_if(p, 1, sps_num_subpics_minus1 > 0);
    match subpic_entries_at(
        s,
        p,
        tmp_width_val,
        tmp_height_val,
        sps_num_subpics_minus1,
        sps_independent_subpics_flag,
        sps_subpic_same_size_flag,
    )
    { Err(f) => Err(f), Ok((entries, p)) => {
    match ue_at(s, p) { Err(f) => Err(f), Ok((sps_subpic_id_len_minus1, p)) => {
    if sps_subpic_id_len_minus1 > 15 { Err(Fault::Invalid) } else {
    let id_bits = (sps_subpic_id_len_minus1 + 1) as u32;
    if !fits(sps_num_subpics_minus1 as nat, id_bits as nat) { Err(Fault::Invalid) } else {
    let sps_subpic_id_mapping_explicitly_signalled_flag = u8_at(s, p, 1);
    let p = adv(p, 1);
    let sps_subpic_id_mapping_present_flag = u8_if(
        s,
        p,
        1,
        sps_subpic_id_mapping_explicitly_signalled_flag != 0,
        0,
    );
    let p = adv_if(p, 1, sps_subpic_id_mapping_explicitly_signalled_flag != 0);
    let mapped = sps_subpic_id_mapping_explicitly_signalled_flag != 0
        && sps_subpic_id_mapping_present_flag != 0;
    match (if mapped {
        us_at(s, p, id_bits as nat, (sps_num_subpics_minus1 as u64 + 1) as nat)
    } else {
        Ok((Seq::empty(), p))
    })
    { Err(f) => Err(f), Ok((sps_subpic_ids, p)) => {
    Ok((
        VvcSubpicInfoModel {
            sps_num_subpics_minus1,
            sps_independent_subpics_flag,
            sps_subpic_same_size_flag,
            entries,
            sps_subpic_id_len_minus1,
            sps_subpic_id_mapping_explicitly_signalled_flag,
            sps_subpic_id_mapping_present_flag,
            sps_subpic_ids,
        },
        p,
    ))
    }}}}}}}}}}}
}

/// The bits `a` followed by the subpicture info block.
#[verifier::opaque]
pub open spec fn put_subpic_info(
    a: Seq<bool>,
    x: VvcSubpicInfoModel,
    tmp_width_val: u64,
    tmp_height_val: u64,
) -> Seq<bool> {
    let a = put_ue(a, x.sps_num_subpics_minus1 as nat);
    let a = put_bit_if(a, x.sps_independent_subpics_flag as nat, x.sps_num_subpics_minus1 > 0);
    let a = put_bit_if(a, x.sps_subpic_same_size_flag as nat, x.sps_num_subpics_minus1 > 0);
    let a = put_subpic_entries(
        a,
        x.entries,
        tmp_width_val,
        tmp_height_val,
        x.sps_num_subpics_minus1,
        x.sps_independent_subpics_flag,
        x.sps_subpic_same_size_flag,
    );
    let a = put_ue(a, x.sps_subpic_id_len_minus1 as nat);
    let id_bits = (x.sps_subpic_id_len_minus1 + 1) as u32;
    let a = put_bit(a, x.sps_subpic_id_mapping_explicitly_signalled_flag as nat);
    let a = put_bit_if(
        a,
        x.sps_subpic_id_mapping_present_flag as nat,
        x.sps_subpic_id_mapping_explicitly_signalled_flag != 0,
    );
    let mapped = x.sps_subpic_id_mapping_explicitly_signalled_flag != 0
        && x.sps_subpic_id_mapping_present_flag != 0;
    let a = if mapped { put_us(a, x.sps_subpic_ids, id_bits as nat) } else { a };
    a
}

/// The values of the subpicture info block that reading can give.
#[verifier::opaque]
pub open spec fn subpic_info_ok(x: VvcSubpicInfoModel, tmp_width_val: u64, tmp_height_val: u64) -> bool {
    &&& x.sps_num_subpics_minus1 <= SPS_NUM_SUBPICS_MINUS1_MAX
    &&& if x.sps_num_subpics_minus1 > 0 {
        fits(x.sps_independent_subpics_flag as nat, 1)
    } else {
        x.sps_independent_subpics_flag == 1
    }
    &&& if x.sps_num_subpics_minus1 > 0 {
        fits(x.sps_subpic_same_size_flag as nat, 1)
    } else {
        x.sps_subpic_same_size_flag == 0
    }
    &&& subpic_entries_ok(
        x.entries,
        tmp_width_val,
        tmp_height_val,
        x.sps_num_subpics_minus1,
        x.sps_independent_subpics_flag,
        x.sps_subpic_same_size_flag,
    )
    &&& x.sps_subpic_id_len_minus1 <= 15
    &&& {
        let id_bits = (x.sps_subpic_id_len_minus1 + 1) as u32;
        &&& fits(x.sps_num_subpics_minus1 as nat, id_bits as nat)
        &&& fits(x.sps_subpic_id_mapping_explicitly_signalled_flag as nat, 1)
        &&& if x.sps_subpic_id_mapping_explicitly_signalled_flag != 0 {
            fits(x.sps_subpic_id_mapping_present_flag as nat, 1)
        } else {
            x.sps_subpic_id_mapping_present_flag == 0
        }
        &&& {
            let mapped = x.sps_subpic_id_mapping_explicitly_signalled_flag != 0
                && x.sps_subpic_id_mapping_present_flag != 0;
            &&& !mapped || x.sps_subpic_ids.len() == x.sps_num_subpics_minus1 as usize + 1
            &&& !mapped || us_ok(x.sps_subpic_ids, id_bits as nat)
            &&& x.sps_subpic_ids.len() == (
                if mapped { x.sps_num_subpics_minus1 as u64 + 1 as int } else { 0 }
            )
            &&& us_ok(x.sps_subpic_ids, id_bits as nat)
        }
    }
}

/// The values of the subpicture info block that the writer accepts.
#[verifier::opaque]
pub open spec fn subpic_info_can(x: VvcSubpicInfoModel, tmp_width_val: u64, tmp_height_val: u64) -> bool {
    &&& x.sps_num_subpics_minus1 <= SPS_NUM_SUBPICS_MINUS1_MAX
    &&& subpic_entries_can(
        x.entries,
        tmp_width_val,
        tmp_height_val,
        x.sps_num_subpics_minus1,
        x.sps_independent_subpics_flag,
        x.sps_subpic_same_size_flag,
    )
    &&& x.sps_subpic_id_len_minus1 <= 15
    &&& {
        let id_bits = (x.sps_subpic_id_len_minus1 + 1) as u32;
        &&& x.sps_subpic_id_mapping_explicitly_signalled_flag != 0
            || x.sps_subpic_id_mapping_present_flag == 0
        &&& {
            let mapped = x.sps_subpic_id_mapping_explicitly_signalled_flag != 0
                && x.sps_subpic_id_mapping_present_flag != 0;
            &&& !mapped || x.sps_subpic_ids.len() == x.sps_num_subpics_minus1 as usize + 1
            &&& !mapped || us_ok(x.sps_subpic_ids, id_bits as nat)
        }
    }
}

/// Parses the subpicture info block.
fn parse_subpic_info(
    r: &mut BitReader<'_>,
    tmp_width_val: u64,
    tmp_height_val: u64,
) -> (res: Result<VvcSubpicInfo, BitstreamError>)
    requires
        tmp_width_val <= 0x0800_0000,
        tmp_height_val <= 0x0800_0000,
    ensures
        read_view_is(
            subpic_info_at(old(r).bits(), old(r).pos(), tmp_width_val, tmp_height_val),
            res,
            *old(r),
            *final(r),
        ),
{
    proof {
        reveal(subpic_info_at);
    }
    let sps_num_subpics_minus1: u32 = r.ue()?;
    if sps_num_subpics_minus1 > SPS_NUM_SUBPICS_MINUS1_MAX {
        return Err(
            Message::new("sps_num_subpics_minus1 = ")
                .num(sps_num_subpics_minus1 as i128)
                .with(" > ")
                .num(SPS_NUM_SUBPICS_MINUS1_MAX as i128)
                .with(" (MaxSlicesPerAu, Table A.2)")
                .invalid(),
        );
    }
    let sps_independent_subpics_flag: u8 = r.bit_if(sps_num_subpics_minus1 > 0, 1);
    let sps_subpic_same_size_flag: u8 = r.bit_if(sps_num_subpics_minus1 > 0, 0);
    let entries = parse_subpic_entries(
        r,
        tmp_width_val,
        tmp_height_val,
        sps_num_subpics_minus1,
        sps_independent_subpics_flag,
        sps_subpic_same_size_flag,
    )?;
    let sps_subpic_id_len_minus1: u32 = r.ue()?;
    if sps_subpic_id_len_minus1 > 15 {
        return Err(
            Message::new("sps_subpic_id_len_minus1 = ")
                .num(sps_subpic_id_len_minus1 as i128)
                .with(" > 15 (7.4.3.4)")
                .invalid(),
        );
    }
    let id_bits: u32 = sps_subpic_id_len_minus1 + 1;
    if !fits_bits(sps_num_subpics_minus1, id_bits) {
        return Err(
            BitstreamError::invalid(
                "1 << (sps_subpic_id_len_minus1 + 1) must cover sps_num_subpics_minus1 + 1 (7.4.3.4)",
            ),
        );
    }
    let sps_subpic_id_mapping_explicitly_signalled_flag: u8 = r.bit();
    let sps_subpic_id_mapping_present_flag: u8 = r.bit_if(
        sps_subpic_id_mapping_explicitly_signalled_flag != 0,
        0,
    );
    let mapped: bool = sps_subpic_id_mapping_explicitly_signalled_flag != 0
        && sps_subpic_id_mapping_present_flag != 0;
    let sps_subpic_ids = if mapped {
        r.read_us(sps_num_subpics_minus1 as u64 + 1, id_bits)
    } else {
        Vec::new()
    };
    Ok(
        VvcSubpicInfo {
            sps_num_subpics_minus1,
            sps_independent_subpics_flag,
            sps_subpic_same_size_flag,
            entries,
            sps_subpic_id_len_minus1,
            sps_subpic_id_mapping_explicitly_signalled_flag,
            sps_subpic_id_mapping_present_flag,
            sps_subpic_ids,
        },
    )
}

/// Emits the subpicture info block, the inverse of [`parse_subpic_info`].
fn write_subpic_info(
    w: &mut BitWriter,
    x: &VvcSubpicInfo,
    tmp_width_val: u64,
    tmp_height_val: u64,
) -> (res: Result<(), BitstreamError>)
    requires
        tmp_width_val <= 0x0800_0000,
        tmp_height_val <= 0x0800_0000,
    ensures
        write_is(
            subpic_info_can(x@, tmp_width_val, tmp_height_val),
            put_subpic_info(old(w)@, x@, tmp_width_val, tmp_height_val),
            res,
            final(w)@,
        ),
{
    proof {
        reveal(put_subpic_info);
        reveal(subpic_info_can);
    }
    if x.sps_num_subpics_minus1 > SPS_NUM_SUBPICS_MINUS1_MAX {
        return Err(
            Message::new("sps_num_subpics_minus1 = ")
                .num(x.sps_num_subpics_minus1 as i128)
                .with(" > ")
                .num(SPS_NUM_SUBPICS_MINUS1_MAX as i128)
                .with(" (Table A.2)")
                .invalid(),
        );
    }
    w.write_ue(x.sps_num_subpics_minus1)?;
    w.write_bit_if(x.sps_independent_subpics_flag as u32, x.sps_num_subpics_minus1 > 0);
    w.write_bit_if(x.sps_subpic_same_size_flag as u32, x.sps_num_subpics_minus1 > 0);
    write_subpic_entries(
        w,
        &x.entries,
        tmp_width_val,
        tmp_height_val,
        x.sps_num_subpics_minus1,
        x.sps_independent_subpics_flag,
        x.sps_subpic_same_size_flag,
    )?;
    if x.sps_subpic_id_len_minus1 > 15 {
        return Err(
            Message::new("sps_subpic_id_len_minus1 = ")
                .num(x.sps_subpic_id_len_minus1 as i128)
                .with(" > 15 (7.4.3.4)")
                .invalid(),
        );
    }
    w.write_ue(x.sps_subpic_id_len_minus1)?;
    let id_bits: u32 = x.sps_subpic_id_len_minus1 + 1;
    w.write_bit(x.sps_subpic_id_mapping_explicitly_signalled_flag as u32);
    if !(
        x.sps_subpic_id_mapping_explicitly_signalled_flag != 0
        || x.sps_subpic_id_mapping_present_flag == 0
    ) {
        return Err(
            BitstreamError::invalid(
                "sps_subpic_id_mapping_present_flag requires sps_subpic_id_mapping_explicitly_signalled_flag (7.3.2.4)",
            ),
        );
    }
    w.write_bit_if(
        x.sps_subpic_id_mapping_present_flag as u32,
        x.sps_subpic_id_mapping_explicitly_signalled_flag != 0,
    );
    let mapped: bool = x.sps_subpic_id_mapping_explicitly_signalled_flag != 0
        && x.sps_subpic_id_mapping_present_flag != 0;
    if !(!mapped || x.sps_subpic_ids.len() == x.sps_num_subpics_minus1 as usize + 1) {
        return Err(
            Message::new("sps_subpic_id count ")
                .num(x.sps_subpic_ids.len() as i128)
                .with(" != sps_num_subpics_minus1 + 1 = ")
                .num((x.sps_num_subpics_minus1 as u64 + 1) as i128)
                .invalid(),
        );
    }
    if !(!mapped || us_fit(x.sps_subpic_ids.as_slice(), id_bits)) {
        return Err(unfit_error("sps_subpic_id", x.sps_subpic_ids.as_slice(), id_bits));
    }
    if mapped { w.write_us(x.sps_subpic_ids.as_slice(), id_bits); }
    Ok(())
}

/// Writing the subpicture info block gives back the bits it was read from.
pub broadcast proof fn law_put_subpic_info_at(s: Seq<bool>, p: nat, tmp_width_val: u64, tmp_height_val: u64)
    requires
        tmp_width_val <= 0x0800_0000,
        tmp_height_val <= 0x0800_0000,
    ensures
        #[trigger] subpic_info_at(s, p, tmp_width_val, tmp_height_val) matches Ok((x, q)) ==> {
            &&& subpic_info_ok(x, tmp_width_val, tmp_height_val)
            &&& subpic_info_can(x, tmp_width_val, tmp_height_val)
            &&& within(s, q)
                ==> within(s, p)
                && put_subpic_info(upto(s, p), x, tmp_width_val, tmp_height_val) == upto(s, q)
        },
{
    broadcast use {
        crate::bits::group_write_read,
        crate::bits::group_write_read_lists,
        law_put_subpic_entries_at,
    };

    reveal(subpic_info_at);
    reveal(put_subpic_info);
    reveal(subpic_info_ok);
    reveal(subpic_info_can);
}

/// Reading gives back the subpicture info block as it was written.
pub broadcast proof fn law_pre_put_subpic_info(
    a: Seq<bool>,
    x: VvcSubpicInfoModel,
    tmp_width_val: u64,
    tmp_height_val: u64,
    s: Seq<bool>,
)
    requires
        #[trigger] pre(put_subpic_info(a, x, tmp_width_val, tmp_height_val), s),
        subpic_info_ok(x, tmp_width_val, tmp_height_val),
        tmp_width_val <= 0x0800_0000,
        tmp_height_val <= 0x0800_0000,
    ensures
        pre(a, s),
        subpic_info_can(x, tmp_width_val, tmp_height_val),
        subpic_info_at(s, a.len(), tmp_width_val, tmp_height_val) == Ok::<(VvcSubpicInfoModel, nat), Fault>(
            (x, put_subpic_info(a, x, tmp_width_val, tmp_height_val).len()),
        ),
{
    broadcast use {
        crate::bits::group_read_written,
        crate::bits::group_read_written_lists,
        law_pre_put_subpic_entries,
    };

    reveal(subpic_info_at);
    reveal(put_subpic_info);
    reveal(subpic_info_ok);
    reveal(subpic_info_can);
    if x.sps_subpic_ids.len() == 0 {
        assert(x.sps_subpic_ids =~= Seq::empty());
    }
}

/// The layout of the subpicture info block: reading at `p` gives `x` and ends
/// at `q` if and only if these elements stand there in this order, and the
/// values are allowed.
pub proof fn law_layout_subpic_info(
    s: Seq<bool>,
    p: nat,
    tmp_width_val: u64,
    tmp_height_val: u64,
    x: VvcSubpicInfoModel,
    q: nat,
)
    ensures
        subpic_info_at(s, p, tmp_width_val, tmp_height_val) == Ok::<(VvcSubpicInfoModel, nat), Fault>((x, q)) <==> ({
            let id_bits = (x.sps_subpic_id_len_minus1 + 1) as u32;
            let mapped = x.sps_subpic_id_mapping_explicitly_signalled_flag != 0
                && x.sps_subpic_id_mapping_present_flag != 0;
            &&& cursor(s, p)
                .ue(x.sps_num_subpics_minus1)
                .u8_if(x.sps_num_subpics_minus1 > 0, 1, x.sps_independent_subpics_flag, 1)
                .u8_if(x.sps_num_subpics_minus1 > 0, 1, x.sps_subpic_same_size_flag, 0)
                .part(
                    |p: nat| subpic_entries_at(
                        s,
                        p,
                        tmp_width_val,
                        tmp_height_val,
                        x.sps_num_subpics_minus1,
                        x.sps_independent_subpics_flag,
                        x.sps_subpic_same_size_flag,
                    ),
                    x.entries,
                )
                .ue(x.sps_subpic_id_len_minus1)
                .u8(1, x.sps_subpic_id_mapping_explicitly_signalled_flag)
                .u8_if(
                    x.sps_subpic_id_mapping_explicitly_signalled_flag != 0,
                    1,
                    x.sps_subpic_id_mapping_present_flag,
                    0,
                )
                .part_or(
                    mapped,
                    |p: nat| us_at(s, p, id_bits as nat, (x.sps_num_subpics_minus1 as u64 + 1) as nat),
                    x.sps_subpic_ids,
                    Seq::empty(),
                )
                .ends(q)
            &&& x.sps_num_subpics_minus1 <= 999
            &&& x.sps_subpic_id_len_minus1 <= 15
            &&& fits(x.sps_num_subpics_minus1 as nat, id_bits as nat)
        }),
{
    reveal(subpic_info_at);
    reveal(adv_if);
    reveal(u8_if);
}

/// Reading the subpicture info block fails only with an error of this class.
pub broadcast proof fn law_faults_subpic_info(s: Seq<bool>, p: nat, tmp_width_val: u64, tmp_height_val: u64)
    ensures
        #[trigger] subpic_info_at(s, p, tmp_width_val, tmp_height_val) matches Err(f) ==> f == Fault::Invalid,
{
    broadcast use {crate::bits::law_faults_ue, law_faults_subpic_entries, crate::bits::law_faults_us};

    reveal(subpic_info_at);
}

/// What the writer accepts reads back: the subpicture info block, where each
/// field fits its width and what is not coded has the value that is taken for
/// it.
pub proof fn law_reads_subpic_info(
    a: Seq<bool>,
    x: VvcSubpicInfoModel,
    tmp_width_val: u64,
    tmp_height_val: u64,
    s: Seq<bool>,
)
    requires
        subpic_info_can(x, tmp_width_val, tmp_height_val),
        ({
            &&& if x.sps_num_subpics_minus1 > 0 {
                fits(x.sps_independent_subpics_flag as nat, 1)
            } else {
                x.sps_independent_subpics_flag == 1
            }
            &&& if x.sps_num_subpics_minus1 > 0 {
                fits(x.sps_subpic_same_size_flag as nat, 1)
            } else {
                x.sps_subpic_same_size_flag == 0
            }
            &&& subpic_entries_ok(
                x.entries,
                tmp_width_val,
                tmp_height_val,
                x.sps_num_subpics_minus1,
                x.sps_independent_subpics_flag,
                x.sps_subpic_same_size_flag,
            )
            &&& fits(x.sps_subpic_id_mapping_explicitly_signalled_flag as nat, 1)
            &&& if x.sps_subpic_id_mapping_explicitly_signalled_flag != 0 {
                fits(x.sps_subpic_id_mapping_present_flag as nat, 1)
            } else {
                x.sps_subpic_id_mapping_present_flag == 0
            }
            &&& {
                let mapped = x.sps_subpic_id_mapping_explicitly_signalled_flag != 0
                    && x.sps_subpic_id_mapping_present_flag != 0;
                &&& (!mapped ==> x.sps_subpic_ids.len() == 0)
                &&& fits(x.sps_num_subpics_minus1 as nat, (x.sps_subpic_id_len_minus1 + 1) as nat)
            }
        }),
        pre(put_subpic_info(a, x, tmp_width_val, tmp_height_val), s),
        tmp_width_val <= 0x0800_0000,
        tmp_height_val <= 0x0800_0000,
    ensures
        subpic_info_at(s, a.len(), tmp_width_val, tmp_height_val) == Ok::<(VvcSubpicInfoModel, nat), Fault>(
            (x, put_subpic_info(a, x, tmp_width_val, tmp_height_val).len()),
        ),
{
    assert(subpic_info_ok(x, tmp_width_val, tmp_height_val)) by {
        broadcast use crate::bits::law_fits_small;

        reveal(subpic_info_ok);
        reveal(subpic_info_can);
    }
    law_pre_put_subpic_info(a, x, tmp_width_val, tmp_height_val, s);
}

/// Each field of the model of a [`VvcSubpicInfo`] is the field of that name.
pub proof fn law_view_subpic_info(x: VvcSubpicInfo)
    ensures
        x@.sps_num_subpics_minus1 == x.sps_num_subpics_minus1,
        x@.sps_independent_subpics_flag == x.sps_independent_subpics_flag,
        x@.sps_subpic_same_size_flag == x.sps_subpic_same_size_flag,
        x@.entries == x.entries@,
        x@.sps_subpic_id_len_minus1 == x.sps_subpic_id_len_minus1,
        x@.sps_subpic_id_mapping_explicitly_signalled_flag == x.sps_subpic_id_mapping_explicitly_signalled_flag,
        x@.sps_subpic_id_mapping_present_flag == x.sps_subpic_id_mapping_present_flag,
        x@.sps_subpic_ids == x.sps_subpic_ids@,
{
}

// ─────────────────────────── Small sub-blocks ────────────────────────────────

/// One chroma QP mapping table (§7.3.2.4 / §7.4.3.4).
#[derive(Debug, Clone, PartialEq, Eq, Default)]
pub struct VvcChromaQpTable {
    /// `sps_qp_table_start_minus26[i]` se(v) — `-26 - QpBdOffset ..= 36`.
    pub sps_qp_table_start_minus26: i32,
    /// `(sps_delta_qp_in_val_minus1[i][j], sps_delta_qp_diff_val[i][j])`
    /// pairs; the list length is `sps_num_points_in_qp_table_minus1[i]
    /// + 1` (0..=`36 - sps_qp_table_start_minus26[i]`).
    pub points: Vec<(u32, u32)>,
}

/// One point of a chroma QP mapping table at position `p`.
#[verifier::opaque]
pub open spec fn qp_point_at(s: Seq<bool>, p: nat) -> Read<(u32, u32)> {
    match ue_at(s, p) { Err(f) => Err(f), Ok((in_val, p)) => {
    match ue_at(s, p) { Err(f) => Err(f), Ok((diff_val, p)) => {
    Ok(((in_val, diff_val), p)) }}}}
}

/// The bits `a` followed by one point of a chroma QP mapping table.
#[verifier::opaque]
pub open spec fn put_qp_point(a: Seq<bool>, x: (u32, u32)) -> Seq<bool> {
    let a = put_ue(a, x.0 as nat);
    let a = put_ue(a, x.1 as nat);
    a
}

/// The values of one point of a chroma QP mapping table that reading can give.
#[verifier::opaque]
pub open spec fn qp_point_ok(x: (u32, u32)) -> bool {
    &&& ue_fits(x.0 as nat)
    &&& ue_fits(x.1 as nat)
}

/// The values of one point of a chroma QP mapping table that the writer
/// accepts.
#[verifier::opaque]
pub open spec fn qp_point_can(x: (u32, u32)) -> bool {
    &&& ue_fits(x.0 as nat)
    &&& ue_fits(x.1 as nat)
}

/// Parses one point of a chroma QP mapping table.
fn parse_qp_point(r: &mut BitReader<'_>) -> (res: Result<(u32, u32), BitstreamError>)
    ensures
        read_is(qp_point_at(old(r).bits(), old(r).pos()), res, *old(r), *final(r)),
{
    proof {
        reveal(qp_point_at);
    }
    let in_val: u32 = r.ue()?;
    let diff_val: u32 = r.ue()?;
    Ok((in_val, diff_val))
}

/// Emits one point of a chroma QP mapping table, the inverse of [`parse_qp_point`].
fn write_qp_point(w: &mut BitWriter, x: &(u32, u32)) -> (res: Result<(), BitstreamError>)
    ensures
        write_is(qp_point_can(*x), put_qp_point(old(w)@, *x), res, final(w)@),
{
    proof {
        reveal(put_qp_point);
        reveal(qp_point_can);
    }
    w.write_ue(x.0)?;
    w.write_ue(x.1)?;
    Ok(())
}

/// Writing one point of a chroma QP mapping table gives back the bits it was
/// read from.
pub broadcast proof fn law_put_qp_point_at(s: Seq<bool>, p: nat)
    ensures
        #[trigger] qp_point_at(s, p) matches Ok((x, q)) ==> {
            &&& qp_point_ok(x)
            &&& qp_point_can(x)
            &&& within(s, q) ==> within(s, p) && put_qp_point(upto(s, p), x) == upto(s, q)
        },
{
    broadcast use crate::bits::group_write_read;

    reveal(qp_point_at);
    reveal(put_qp_point);
    reveal(qp_point_ok);
    reveal(qp_point_can);
}

/// Reading gives back one point of a chroma QP mapping table as it was written.
pub broadcast proof fn law_pre_put_qp_point(a: Seq<bool>, x: (u32, u32), s: Seq<bool>)
    requires
        #[trigger] pre(put_qp_point(a, x), s),
        qp_point_ok(x),
    ensures
        pre(a, s),
        qp_point_can(x),
        qp_point_at(s, a.len()) == Ok::<((u32, u32), nat), Fault>((x, put_qp_point(a, x).len())),
{
    broadcast use crate::bits::group_read_written;

    reveal(qp_point_at);
    reveal(put_qp_point);
    reveal(qp_point_ok);
    reveal(qp_point_can);
}

/// The layout of one point of a chroma QP mapping table: reading at `p` gives
/// `x` and ends at `q` if and only if these elements stand there in this order.
pub proof fn law_layout_qp_point(s: Seq<bool>, p: nat, x: (u32, u32), q: nat)
    ensures
        qp_point_at(s, p) == Ok::<((u32, u32), nat), Fault>((x, q)) <==> cursor(s, p)
            .ue(x.0)
            .ue(x.1)
            .ends(q),
{
    reveal(qp_point_at);
}

/// Reading one point of a chroma QP mapping table fails only with an error of
/// this class.
pub broadcast proof fn law_faults_qp_point(s: Seq<bool>, p: nat)
    ensures
        #[trigger] qp_point_at(s, p) matches Err(f) ==> f == Fault::Invalid,
{
    broadcast use crate::bits::law_faults_ue;

    reveal(qp_point_at);
}

/// What the writer accepts reads back: one point of a chroma QP mapping table,
/// where each field fits its width and what is not coded has the value that is
/// taken for it.
pub proof fn law_reads_qp_point(a: Seq<bool>, x: (u32, u32), s: Seq<bool>)
    requires
        qp_point_can(x),
        pre(put_qp_point(a, x), s),
    ensures
        qp_point_at(s, a.len()) == Ok::<((u32, u32), nat), Fault>((x, put_qp_point(a, x).len())),
{
    assert(qp_point_ok(x)) by {
        broadcast use crate::bits::law_fits_small;

        reveal(qp_point_ok);
        reveal(qp_point_can);
    }
    law_pre_put_qp_point(a, x, s);
}

/// Reads one point of a chroma QP mapping table, behind the items before it.
pub open spec fn qp_points_item(s: Seq<bool>) -> spec_fn(Seq<(u32, u32)>, nat) -> Read<(u32, u32)> {
    |done: Seq<(u32, u32)>, q: nat| qp_point_at(s, q)
}

/// Writes one point of a chroma QP mapping table, behind the items before it.
pub open spec fn put_qp_points_item() -> spec_fn(Seq<bool>, Seq<(u32, u32)>, (u32, u32)) -> Seq<bool> {
    |a: Seq<bool>, done: Seq<(u32, u32)>, x: (u32, u32)| put_qp_point(a, x)
}

/// Whether one point of a chroma QP mapping table may follow the items before
/// it.
pub open spec fn qp_points_item_ok() -> spec_fn(Seq<(u32, u32)>, (u32, u32)) -> bool {
    |done: Seq<(u32, u32)>, x: (u32, u32)| qp_point_ok(x) && qp_point_can(x)
}

/// `n` items at position `p`, each one point of a chroma QP mapping table.
#[verifier::opaque]
pub open spec fn qp_points_at(s: Seq<bool>, p: nat, n: u64) -> Read<Seq<(u32, u32)>> {
    rep_at(qp_points_item(s), p, n as nat)
}

/// The bits `a` followed by the items.
#[verifier::opaque]
pub open spec fn put_qp_points(a: Seq<bool>, xs: Seq<(u32, u32)>, n: u64) -> Seq<bool> {
    put_rep(put_qp_points_item(), a, xs)
}

/// `n` items that reading can give.
#[verifier::opaque]
pub open spec fn qp_points_ok(xs: Seq<(u32, u32)>, n: u64) -> bool {
    xs.len() == n && forall|i: int| 0 <= i < xs.len() ==> qp_point_ok(#[trigger] xs[i]) && qp_point_can(xs[i])
}

/// `n` items that the writer accepts.
#[verifier::opaque]
pub open spec fn qp_points_can(xs: Seq<(u32, u32)>, n: u64) -> bool {
    xs.len() == n && forall|i: int| 0 <= i < xs.len() ==> qp_point_can(#[trigger] xs[i])
}

/// Parses `n` items, each one point of a chroma QP mapping table.
fn parse_qp_points(r: &mut BitReader<'_>, n: u64) -> (res: Result<Vec<(u32, u32)>, BitstreamError>)
    ensures
        read_vec_is(qp_points_at(old(r).bits(), old(r).pos(), n), res, *old(r), *final(r)),
        res matches Ok(v) ==> v@.len() == n,
{
    let ghost s = r.bits();
    let ghost p = r.pos();
    let ghost reads = qp_points_item(s);
    let mut xs: Vec<(u32, u32)> = Vec::new();
    let mut i: u64 = 0;
    proof {
        reveal(qp_points_at);
    }
    while i < n
        invariant
            i <= n,
            xs@.len() == i,
            reads == qp_points_item(s),
            s == r.bits(),
            s == old(r).bits(),
            p == old(r).pos(),
            r.bytes() == old(r).bytes(),
            rep_at(reads, p, i as nat) == Ok::<(Seq<(u32, u32)>, nat), Fault>((xs@, r.pos())),
        decreases n - i,
    {
        match parse_qp_point(r) {
            Ok(x) => {
                xs.push(x);
            },
            Err(e) => {
                proof {
                    reveal(qp_points_at);
                    lemma_rep_err(reads, p, (i + 1) as nat, n as nat);
                }
                return Err(e);
            },
        }
        i = i + 1;
    }
    Ok(xs)
}

/// Emits `n` items, each one point of a chroma QP mapping table.
fn write_qp_points(w: &mut BitWriter, xs: &Vec<(u32, u32)>, n: u64) -> (res: Result<(), BitstreamError>)
    ensures
        write_is(qp_points_can(xs@, n), put_qp_points(old(w)@, xs@, n), res, final(w)@),
        res is Ok ==> xs@.len() == n,
{
    let ghost before = w@;
    let ghost puts = put_qp_points_item();
    let ghost ys = xs@;
    proof {
        reveal(put_qp_points);
        reveal(qp_points_can);
        assert(ys.take(0) =~= Seq::empty());
    }
    if xs.len() as u64 != n {
        return Err(BitstreamError::invalid("unexpected number of entries"));
    }
    let mut i: usize = 0;
    while i < xs.len()
        invariant
            i <= xs@.len(),
            xs@.len() == n,
            ys == xs@,
            ys.len() == xs@.len(),
            before == old(w)@,
            puts == put_qp_points_item(),
            w@ == put_rep(puts, before, ys.take(i as int)),
            forall|j: int| 0 <= j < i ==> qp_point_can(#[trigger] ys[j]),
        ensures
            i == xs@.len(),
        decreases xs@.len() - i,
    {
        proof {
            assert(ys.take(i + 1).drop_last() =~= ys.take(i as int));
            assert(ys[i as int] == xs@[i as int]);
        }
        match write_qp_point(w, &xs[i]) {
            Ok(()) => {},
            Err(e) => {
                proof {
                    reveal(qp_points_can);
                }
                return Err(e);
            },
        }
        i = i + 1;
    }
    proof {
        assert(ys.take(i as int) =~= ys);
    }
    Ok(())
}

/// Writing what was read gives back the bits that were read.
pub broadcast proof fn law_put_qp_points_at(s: Seq<bool>, p: nat, n: u64)
    ensures
        #[trigger] qp_points_at(s, p, n) matches Ok((xs, q)) ==> {
            &&& xs.len() == n
            &&& qp_points_ok(xs, n)
            &&& qp_points_can(xs, n)
            &&& within(s, q) ==> within(s, p) && put_qp_points(upto(s, p), xs, n) == upto(s, q)
        },
{
    broadcast use law_put_qp_point_at;

    reveal(qp_points_at);
    reveal(put_qp_points);
    reveal(qp_points_ok);
    reveal(qp_points_can);
    let ok = qp_points_item_ok();
    law_put_rep_at(s, qp_points_item(s), put_qp_points_item(), ok, p, n as nat);
    if let Ok((xs, q)) = qp_points_at(s, p, n) {
        assert forall|i: int| 0 <= i < xs.len() implies ok(xs.take(i), #[trigger] xs[i]) by {}
    }
}

/// What was written reads back as the items that were written.
pub broadcast proof fn law_pre_put_qp_points(a: Seq<bool>, xs: Seq<(u32, u32)>, n: u64, s: Seq<bool>)
    requires
        #[trigger] pre(put_qp_points(a, xs, n), s),
        qp_points_ok(xs, n),
    ensures
        pre(a, s),
        qp_points_can(xs, n),
        qp_points_at(s, a.len(), n) == Ok::<(Seq<(u32, u32)>, nat), Fault>(
            (xs, put_qp_points(a, xs, n).len()),
        ),
{
    broadcast use law_pre_put_qp_point;

    reveal(qp_points_at);
    reveal(put_qp_points);
    reveal(qp_points_ok);
    reveal(qp_points_can);
    law_rep_at_put(s, qp_points_item(s), put_qp_points_item(), qp_points_item_ok(), a, xs);
}

/// `n` items stand one behind the other: `n - 1` items, and then one point of a
/// chroma QP mapping table.
pub proof fn law_layout_qp_points(s: Seq<bool>, p: nat, n: u64, xs: Seq<(u32, u32)>, q: nat)
    ensures
        qp_points_at(s, p, n) == Ok::<(Seq<(u32, u32)>, nat), Fault>((xs, q)) <==> if n == 0 {
            xs.len() == 0 && q == p
        } else {
            &&& xs.len() == n
            &&& cursor(s, p)
                .part(|p: nat| qp_points_at(s, p, (n - 1) as u64), xs.drop_last())
                .part(|p: nat| qp_point_at(s, p), xs.last())
                .ends(q)
        },
{
    reveal(qp_points_at);
    lemma_rep_step(qp_points_item(s), p, n as nat);
    if xs.len() == 0 {
        assert(xs =~= Seq::empty());
    } else {
        assert(xs =~= xs.drop_last().push(xs.last()));
    }
    if n > 0 {
        if let Ok((done, r)) = rep_at(qp_points_item(s), p, (n - 1) as nat) {
            if let Ok((y, z)) = qp_points_item(s)(done, r) {
                assert(done.push(y).drop_last() =~= done);
            }
        }
    }
}

/// What the writer accepts as `n` items reads back, where each of them is one that
/// reading can give.
pub proof fn law_reads_qp_points(a: Seq<bool>, xs: Seq<(u32, u32)>, n: u64, s: Seq<bool>)
    requires
        qp_points_can(xs, n),
        forall|i: int| 0 <= i < xs.len() ==> qp_point_ok(#[trigger] xs[i]),
        pre(put_qp_points(a, xs, n), s),
    ensures
        xs.len() == n,
        qp_points_at(s, a.len(), n) == Ok::<(Seq<(u32, u32)>, nat), Fault>(
            (xs, put_qp_points(a, xs, n).len()),
        ),
{
    reveal(qp_points_can);
    assert(qp_points_ok(xs, n)) by {
        reveal(qp_points_ok);
    }
    law_pre_put_qp_points(a, xs, n, s);
}

/// Reading the items fails only with an error of this class.
pub broadcast proof fn law_faults_qp_points(s: Seq<bool>, p: nat, n: u64)
    ensures
        #[trigger] qp_points_at(s, p, n) matches Err(f) ==> f == Fault::Invalid,
{
    broadcast use law_faults_qp_point;

    reveal(qp_points_at);
    let f = qp_points_item(s);
    assert forall|done: Seq<(u32, u32)>, q: nat| (#[trigger] f(done, q)) matches Err(e)
        ==> e == Fault::Invalid by {}
    lemma_rep_faults(f, p, n as nat, |f: Fault| f == Fault::Invalid);
}

/// The mathematical model of a [`VvcChromaQpTable`].
pub struct VvcChromaQpTableModel {
    pub sps_qp_table_start_minus26: i32,
    pub points: Seq<(u32, u32)>,
}

impl View for VvcChromaQpTable {
    type V = VvcChromaQpTableModel;

    open spec fn view(&self) -> VvcChromaQpTableModel {
        VvcChromaQpTableModel {
            sps_qp_table_start_minus26: self.sps_qp_table_start_minus26,
            points: self.points@,
        }
    }
}

/// One chroma QP mapping table at position `p`.
#[verifier::opaque]
pub open spec fn qp_table_at(s: Seq<bool>, p: nat, bitdepth_minus8: u32) -> Read<VvcChromaQpTableModel> {
    match se_at(s, p) { Err(f) => Err(f), Ok((sps_qp_table_start_minus26, p)) => {
    if !(sps_qp_table_start_minus26 >= -26 - 6 * bitdepth_minus8 as i32 && sps_qp_table_start_minus26 <= 36) {
        Err(Fault::Invalid)
    } else {
    match ue_at(s, p) { Err(f) => Err(f), Ok((num_points_minus1, p)) => {
    if !(num_points_minus1 as i64 <= 36 - sps_qp_table_start_minus26 as i64) { Err(Fault::Invalid) } else {
    match qp_points_at(s, p, (num_points_minus1 as u64 + 1) as u64) { Err(f) => Err(f), Ok((points, p)) => {
    Ok((VvcChromaQpTableModel { sps_qp_table_start_minus26, points }, p))
    }}}}}}}}
}

/// The bits `a` followed by one chroma QP mapping table.
#[verifier::opaque]
pub open spec fn put_qp_table(a: Seq<bool>, x: VvcChromaQpTableModel, bitdepth_minus8: u32) -> Seq<bool> {
    let a = put_se(a, x.sps_qp_table_start_minus26 as int);
    let num_points_minus1 = (x.points.len() - 1) as u32;
    let a = put_ue(a, num_points_minus1 as nat);
    let a = put_qp_points(a, x.points, (num_points_minus1 as u64 + 1) as u64);
    a
}

/// The values of one chroma QP mapping table that reading can give.
#[verifier::opaque]
pub open spec fn qp_table_ok(x: VvcChromaQpTableModel, bitdepth_minus8: u32) -> bool {
    &&& x.sps_qp_table_start_minus26 >= -26 - 6 * bitdepth_minus8 as i32 && x.sps_qp_table_start_minus26 <= 36
    &&& x.points.len() >= 1
        && x.points.len() <= 111
        && x.points.len() as i64 - 1 <= 36 - x.sps_qp_table_start_minus26 as i64
    &&& se_fits(x.sps_qp_table_start_minus26 as int)
    &&& {
        let num_points_minus1 = (x.points.len() - 1) as u32;
        &&& ue_fits(num_points_minus1 as nat)
        &&& num_points_minus1 as i64 <= 36 - x.sps_qp_table_start_minus26 as i64
        &&& qp_points_ok(x.points, (num_points_minus1 as u64 + 1) as u64)
    }
}

/// The values of one chroma QP mapping table that the writer accepts.
#[verifier::opaque]
pub open spec fn qp_table_can(x: VvcChromaQpTableModel, bitdepth_minus8: u32) -> bool {
    &&& x.sps_qp_table_start_minus26 >= -26 - 6 * bitdepth_minus8 as i32 && x.sps_qp_table_start_minus26 <= 36
    &&& x.points.len() >= 1
        && x.points.len() <= 111
        && x.points.len() as i64 - 1 <= 36 - x.sps_qp_table_start_minus26 as i64
    &&& se_fits(x.sps_qp_table_start_minus26 as int)
    &&& {
        let num_points_minus1 = (x.points.len() - 1) as u32;
        &&& ue_fits(num_points_minus1 as nat)
        &&& qp_points_can(x.points, (num_points_minus1 as u64 + 1) as u64)
    }
}

/// Parses one chroma QP mapping table.
fn parse_qp_table(
    r: &mut BitReader<'_>,
    bitdepth_minus8: u32,
) -> (res: Result<VvcChromaQpTable, BitstreamError>)
    requires
        bitdepth_minus8 <= 8,
    ensures
        read_view_is(qp_table_at(old(r).bits(), old(r).pos(), bitdepth_minus8), res, *old(r), *final(r)),
{
    proof {
        reveal(qp_table_at);
    }
    let sps_qp_table_start_minus26: i32 = r.se()?;
    if !(sps_qp_table_start_minus26 >= -26 - 6 * bitdepth_minus8 as i32 && sps_qp_table_start_minus26 <= 36) {
        return Err(
            Message::new("sps_qp_table_start_minus26 = ")
                .num(sps_qp_table_start_minus26 as i128)
                .with(" outside -26 - QpBdOffset ..= 36 (7.4.3.4)")
                .invalid(),
        );
    }
    let num_points_minus1: u32 = r.ue()?;
    if !(num_points_minus1 as i64 <= 36 - sps_qp_table_start_minus26 as i64) {
        return Err(
            Message::new("sps_num_points_in_qp_table_minus1 = ")
                .num(num_points_minus1 as i128)
                .with(" > 36 - start (7.4.3.4)")
                .invalid(),
        );
    }
    let points = parse_qp_points(r, num_points_minus1 as u64 + 1)?;
    Ok(VvcChromaQpTable { sps_qp_table_start_minus26, points })
}

/// Emits one chroma QP mapping table, the inverse of [`parse_qp_table`].
fn write_qp_table(
    w: &mut BitWriter,
    x: &VvcChromaQpTable,
    bitdepth_minus8: u32,
) -> (res: Result<(), BitstreamError>)
    requires
        bitdepth_minus8 <= 8,
    ensures
        write_is(
            qp_table_can(x@, bitdepth_minus8),
            put_qp_table(old(w)@, x@, bitdepth_minus8),
            res,
            final(w)@,
        ),
{
    proof {
        reveal(put_qp_table);
        reveal(qp_table_can);
    }
    if !(
        x.sps_qp_table_start_minus26 >= -26 - 6 * bitdepth_minus8 as i32
        && x.sps_qp_table_start_minus26 <= 36
    ) {
        return Err(
            BitstreamError::invalid("sps_qp_table_start_minus26 outside -26 - QpBdOffset ..= 36 (7.4.3.4)"),
        );
    }
    if !(
        x.points.len() >= 1
        && x.points.len() <= 111
        && x.points.len() as i64 - 1 <= 36 - x.sps_qp_table_start_minus26 as i64
    ) {
        return Err(BitstreamError::invalid("chroma QP table point count out of range (7.4.3.4)"));
    }
    w.write_se(x.sps_qp_table_start_minus26)?;
    let num_points_minus1: u32 = (x.points.len() - 1) as u32;
    w.write_ue(num_points_minus1)?;
    write_qp_points(w, &x.points, num_points_minus1 as u64 + 1)?;
    Ok(())
}

/// Writing one chroma QP mapping table gives back the bits it was read from.
pub broadcast proof fn law_put_qp_table_at(s: Seq<bool>, p: nat, bitdepth_minus8: u32)
    requires
        bitdepth_minus8 <= 8,
    ensures
        #[trigger] qp_table_at(s, p, bitdepth_minus8) matches Ok((x, q)) ==> {
            &&& qp_table_ok(x, bitdepth_minus8)
            &&& qp_table_can(x, bitdepth_minus8)
            &&& within(s, q) ==> within(s, p) && put_qp_table(upto(s, p), x, bitdepth_minus8) == upto(s, q)
        },
{
    broadcast use {crate::bits::group_write_read, law_put_qp_points_at};

    reveal(qp_table_at);
    reveal(put_qp_table);
    reveal(qp_table_ok);
    reveal(qp_table_can);
}

/// Reading gives back one chroma QP mapping table as it was written.
pub broadcast proof fn law_pre_put_qp_table(
    a: Seq<bool>,
    x: VvcChromaQpTableModel,
    bitdepth_minus8: u32,
    s: Seq<bool>,
)
    requires
        #[trigger] pre(put_qp_table(a, x, bitdepth_minus8), s),
        qp_table_ok(x, bitdepth_minus8),
        bitdepth_minus8 <= 8,
    ensures
        pre(a, s),
        qp_table_can(x, bitdepth_minus8),
        qp_table_at(s, a.len(), bitdepth_minus8) == Ok::<(VvcChromaQpTableModel, nat), Fault>(
            (x, put_qp_table(a, x, bitdepth_minus8).len()),
        ),
{
    broadcast use {crate::bits::group_read_written, law_pre_put_qp_points};

    reveal(qp_table_at);
    reveal(put_qp_table);
    reveal(qp_table_ok);
    reveal(qp_table_can);
}

/// The layout of one chroma QP mapping table: reading at `p` gives `x` and ends
/// at `q` if and only if these elements stand there in this order, and the
/// values are allowed.
pub proof fn law_layout_qp_table(s: Seq<bool>, p: nat, bitdepth_minus8: u32, x: VvcChromaQpTableModel, q: nat)
    ensures
        qp_table_at(s, p, bitdepth_minus8) == Ok::<(VvcChromaQpTableModel, nat), Fault>((x, q)) <==> ({
            let c = cursor(s, p).se(x.sps_qp_table_start_minus26);
            let num_points_minus1 = c.next_ue();
            &&& c
                .ue(num_points_minus1)
                .part(|p: nat| qp_points_at(s, p, (num_points_minus1 as u64 + 1) as u64), x.points)
                .ends(q)
            &&& x.sps_qp_table_start_minus26 >= -26 - 6 * bitdepth_minus8 as i32
                && x.sps_qp_table_start_minus26 <= 36
            &&& num_points_minus1 as i64 <= 36 - x.sps_qp_table_start_minus26 as i64
        }),
{
    reveal(qp_table_at);
}

/// Reading one chroma QP mapping table fails only with an error of this class.
pub broadcast proof fn law_faults_qp_table(s: Seq<bool>, p: nat, bitdepth_minus8: u32)
    ensures
        #[trigger] qp_table_at(s, p, bitdepth_minus8) matches Err(f) ==> f == Fault::Invalid,
{
    broadcast use {crate::bits::law_faults_se, crate::bits::law_faults_ue, law_faults_qp_points};

    reveal(qp_table_at);
}

/// What the writer accepts reads back: one chroma QP mapping table, where each
/// field fits its width and what is not coded has the value that is taken for
/// it.
pub proof fn law_reads_qp_table(a: Seq<bool>, x: VvcChromaQpTableModel, bitdepth_minus8: u32, s: Seq<bool>)
    requires
        qp_table_can(x, bitdepth_minus8),
        ({
            let num_points_minus1 = (x.points.len() - 1) as u32;
            &&& qp_points_ok(x.points, (num_points_minus1 as u64 + 1) as u64)
        }),
        pre(put_qp_table(a, x, bitdepth_minus8), s),
        bitdepth_minus8 <= 8,
    ensures
        qp_table_at(s, a.len(), bitdepth_minus8) == Ok::<(VvcChromaQpTableModel, nat), Fault>(
            (x, put_qp_table(a, x, bitdepth_minus8).len()),
        ),
{
    assert(qp_table_ok(x, bitdepth_minus8)) by {
        broadcast use crate::bits::law_fits_small;

        reveal(qp_table_ok);
        reveal(qp_table_can);
    }
    law_pre_put_qp_table(a, x, bitdepth_minus8, s);
}

/// Each field of the model of a [`VvcChromaQpTable`] is the field of that name.
pub proof fn law_view_qp_table(x: VvcChromaQpTable)
    ensures
        x@.sps_qp_table_start_minus26 == x.sps_qp_table_start_minus26,
        x@.points == x.points@,
{
}

/// Reads one chroma QP mapping table, behind the items before it.
pub open spec fn qp_tables_item(
    s: Seq<bool>,
    bitdepth_minus8: u32,
) -> spec_fn(Seq<VvcChromaQpTableModel>, nat) -> Read<VvcChromaQpTableModel> {
    |done: Seq<VvcChromaQpTableModel>, q: nat| qp_table_at(s, q, bitdepth_minus8)
}

/// Writes one chroma QP mapping table, behind the items before it.
pub open spec fn put_qp_tables_item(
    bitdepth_minus8: u32,
) -> spec_fn(Seq<bool>, Seq<VvcChromaQpTableModel>, VvcChromaQpTableModel) -> Seq<bool> {
    |a: Seq<bool>, done: Seq<VvcChromaQpTableModel>, x: VvcChromaQpTableModel| put_qp_table(
        a,
        x,
        bitdepth_minus8,
    )
}

/// Whether one chroma QP mapping table may follow the items before it.
pub open spec fn qp_tables_item_ok(
    bitdepth_minus8: u32,
) -> spec_fn(Seq<VvcChromaQpTableModel>, VvcChromaQpTableModel) -> bool {
    |done: Seq<VvcChromaQpTableModel>, x: VvcChromaQpTableModel| qp_table_ok(x, bitdepth_minus8)
        && qp_table_can(x, bitdepth_minus8)
}

/// `n` items at position `p`, each one chroma QP mapping table.
#[verifier::opaque]
pub open spec fn qp_tables_at(
    s: Seq<bool>,
    p: nat,
    bitdepth_minus8: u32,
    n: u64,
) -> Read<Seq<VvcChromaQpTableModel>> {
    rep_at(qp_tables_item(s, bitdepth_minus8), p, n as nat)
}

/// The bits `a` followed by the items.
#[verifier::opaque]
pub open spec fn put_qp_tables(
    a: Seq<bool>,
    xs: Seq<VvcChromaQpTableModel>,
    bitdepth_minus8: u32,
    n: u64,
) -> Seq<bool> {
    put_rep(put_qp_tables_item(bitdepth_minus8), a, xs)
}

/// `n` items that reading can give.
#[verifier::opaque]
pub open spec fn qp_tables_ok(xs: Seq<VvcChromaQpTableModel>, bitdepth_minus8: u32, n: u64) -> bool {
    xs.len() == n
        && forall|i: int| 0 <= i < xs.len()
        ==> qp_table_ok(#[trigger] xs[i], bitdepth_minus8)
        && qp_table_can(xs[i], bitdepth_minus8)
}

/// `n` items that the writer accepts.
#[verifier::opaque]
pub open spec fn qp_tables_can(xs: Seq<VvcChromaQpTableModel>, bitdepth_minus8: u32, n: u64) -> bool {
    xs.len() == n && forall|i: int| 0 <= i < xs.len() ==> qp_table_can(#[trigger] xs[i], bitdepth_minus8)
}

/// Parses `n` items, each one chroma QP mapping table.
fn parse_qp_tables(
    r: &mut BitReader<'_>,
    bitdepth_minus8: u32,
    n: u64,
) -> (res: Result<Vec<VvcChromaQpTable>, BitstreamError>)
    requires
        bitdepth_minus8 <= 8,
    ensures
        read_seq_is(qp_tables_at(old(r).bits(), old(r).pos(), bitdepth_minus8, n), res, *old(r), *final(r)),
        res matches Ok(v) ==> v@.len() == n,
{
    let ghost s = r.bits();
    let ghost p = r.pos();
    let ghost reads = qp_tables_item(s, bitdepth_minus8);
    let mut xs: Vec<VvcChromaQpTable> = Vec::new();
    let mut i: u64 = 0;
    proof {
        reveal(qp_tables_at);
        assert(seq_view(xs@) =~= Seq::empty());
    }
    while i < n
        invariant
            i <= n,
            xs@.len() == i,
                bitdepth_minus8 <= 8,
            reads == qp_tables_item(s, bitdepth_minus8),
            s == r.bits(),
            s == old(r).bits(),
            p == old(r).pos(),
            r.bytes() == old(r).bytes(),
            rep_at(reads, p, i as nat) == Ok::<(
                Seq<VvcChromaQpTableModel>,
                nat,
            ), Fault>((seq_view(xs@), r.pos())),
        decreases n - i,
    {
        match parse_qp_table(r, bitdepth_minus8) {
            Ok(x) => {
                proof {
                lemma_seq_view_push(xs@, x);
            }
            xs.push(x);
            },
            Err(e) => {
                proof {
                    reveal(qp_tables_at);
                    lemma_rep_err(reads, p, (i + 1) as nat, n as nat);
                }
                return Err(e);
            },
        }
        i = i + 1;
    }
    Ok(xs)
}

/// Emits `n` items, each one chroma QP mapping table.
fn write_qp_tables(
    w: &mut BitWriter,
    xs: &Vec<VvcChromaQpTable>,
    bitdepth_minus8: u32,
    n: u64,
) -> (res: Result<(), BitstreamError>)
    requires
        bitdepth_minus8 <= 8,
    ensures
        write_is(
            qp_tables_can(seq_view(xs@), bitdepth_minus8, n),
            put_qp_tables(old(w)@, seq_view(xs@), bitdepth_minus8, n),
            res,
            final(w)@,
        ),
        res is Ok ==> xs@.len() == n,
{
    let ghost before = w@;
    let ghost puts = put_qp_tables_item(bitdepth_minus8);
    let ghost ys = seq_view(xs@);
    proof {
        reveal(put_qp_tables);
        reveal(qp_tables_can);
        assert(ys.take(0) =~= Seq::empty());
    }
    if xs.len() as u64 != n {
        return Err(
            if n == 0 {
                BitstreamError::invalid("chroma_qp_tables must be empty for monochrome (7.3.2.4)")
            } else {
                Message::new("chroma_qp_tables count ")
                    .num(xs.len() as i128)
                    .with(" != numQpTables = ")
                    .num(n as i128)
                    .with(" (7.3.2.4)")
                    .invalid()
            },
        );
    }
    let mut i: usize = 0;
    while i < xs.len()
        invariant
            i <= xs@.len(),
            xs@.len() == n,
            ys == seq_view(xs@),
            ys.len() == xs@.len(),
                bitdepth_minus8 <= 8,
            before == old(w)@,
            puts == put_qp_tables_item(bitdepth_minus8),
            w@ == put_rep(puts, before, ys.take(i as int)),
            forall|j: int| 0 <= j < i ==> qp_table_can(#[trigger] ys[j], bitdepth_minus8),
        ensures
            i == xs@.len(),
        decreases xs@.len() - i,
    {
        proof {
            assert(ys.take(i + 1).drop_last() =~= ys.take(i as int));
            assert(ys[i as int] == xs@[i as int]@);
        }
        match write_qp_table(w, &xs[i], bitdepth_minus8) {
            Ok(()) => {},
            Err(e) => {
                proof {
                    reveal(qp_tables_can);
                }
                return Err(e);
            },
        }
        i = i + 1;
    }
    proof {
        assert(ys.take(i as int) =~= ys);
    }
    Ok(())
}

/// Writing what was read gives back the bits that were read.
pub broadcast proof fn law_put_qp_tables_at(s: Seq<bool>, p: nat, bitdepth_minus8: u32, n: u64)
    requires
        bitdepth_minus8 <= 8,
    ensures
        #[trigger] qp_tables_at(s, p, bitdepth_minus8, n) matches Ok((xs, q)) ==> {
            &&& xs.len() == n
            &&& qp_tables_ok(xs, bitdepth_minus8, n)
            &&& qp_tables_can(xs, bitdepth_minus8, n)
            &&& within(s, q)
                ==> within(s, p)
                && put_qp_tables(upto(s, p), xs, bitdepth_minus8, n) == upto(s, q)
        },
{
    broadcast use law_put_qp_table_at;

    reveal(qp_tables_at);
    reveal(put_qp_tables);
    reveal(qp_tables_ok);
    reveal(qp_tables_can);
    let ok = qp_tables_item_ok(bitdepth_minus8);
    law_put_rep_at(
        s,
        qp_tables_item(s, bitdepth_minus8),
        put_qp_tables_item(bitdepth_minus8),
        ok,
        p,
        n as nat,
    );
    if let Ok((xs, q)) = qp_tables_at(s, p, bitdepth_minus8, n) {
        assert forall|i: int| 0 <= i < xs.len() implies ok(xs.take(i), #[trigger] xs[i]) by {}
    }
}

/// What was written reads back as the items that were written.
pub broadcast proof fn law_pre_put_qp_tables(
    a: Seq<bool>,
    xs: Seq<VvcChromaQpTableModel>,
    bitdepth_minus8: u32,
    n: u64,
    s: Seq<bool>,
)
    requires
        #[trigger] pre(put_qp_tables(a, xs, bitdepth_minus8, n), s),
        qp_tables_ok(xs, bitdepth_minus8, n),
        bitdepth_minus8 <= 8,
    ensures
        pre(a, s),
        qp_tables_can(xs, bitdepth_minus8, n),
        qp_tables_at(s, a.len(), bitdepth_minus8, n) == Ok::<(Seq<VvcChromaQpTableModel>, nat), Fault>(
            (xs, put_qp_tables(a, xs, bitdepth_minus8, n).len()),
        ),
{
    broadcast use law_pre_put_qp_table;

    reveal(qp_tables_at);
    reveal(put_qp_tables);
    reveal(qp_tables_ok);
    reveal(qp_tables_can);
    law_rep_at_put(
        s,
        qp_tables_item(s, bitdepth_minus8),
        put_qp_tables_item(bitdepth_minus8),
        qp_tables_item_ok(bitdepth_minus8),
        a,
        xs,
    );
}

/// `n` items stand one behind the other: `n - 1` items, and then one chroma QP
/// mapping table.
pub proof fn law_layout_qp_tables(
    s: Seq<bool>,
    p: nat,
    bitdepth_minus8: u32,
    n: u64,
    xs: Seq<VvcChromaQpTableModel>,
    q: nat,
)
    ensures
        qp_tables_at(s, p, bitdepth_minus8, n) == Ok::<(Seq<VvcChromaQpTableModel>, nat), Fault>((xs, q)) <==> if n == 0 {
            xs.len() == 0 && q == p
        } else {
            &&& xs.len() == n
            &&& cursor(s, p)
                .part(|p: nat| qp_tables_at(s, p, bitdepth_minus8, (n - 1) as u64), xs.drop_last())
                .part(|p: nat| qp_table_at(s, p, bitdepth_minus8), xs.last())
                .ends(q)
        },
{
    reveal(qp_tables_at);
    lemma_rep_step(qp_tables_item(s, bitdepth_minus8), p, n as nat);
    if xs.len() == 0 {
        assert(xs =~= Seq::empty());
    } else {
        assert(xs =~= xs.drop_last().push(xs.last()));
    }
    if n > 0 {
        if let Ok((done, r)) = rep_at(qp_tables_item(s, bitdepth_minus8), p, (n - 1) as nat) {
            if let Ok((y, z)) = qp_tables_item(s, bitdepth_minus8)(done, r) {
                assert(done.push(y).drop_last() =~= done);
            }
        }
    }
}

/// What the writer accepts as `n` items reads back, where each of them is one that
/// reading can give.
pub proof fn law_reads_qp_tables(
    a: Seq<bool>,
    xs: Seq<VvcChromaQpTableModel>,
    bitdepth_minus8: u32,
    n: u64,
    s: Seq<bool>,
)
    requires
        qp_tables_can(xs, bitdepth_minus8, n),
        forall|i: int| 0 <= i < xs.len() ==> qp_table_ok(#[trigger] xs[i], bitdepth_minus8),
        pre(put_qp_tables(a, xs, bitdepth_minus8, n), s),
        bitdepth_minus8 <= 8,
    ensures
        xs.len() == n,
        qp_tables_at(s, a.len(), bitdepth_minus8, n) == Ok::<(Seq<VvcChromaQpTableModel>, nat), Fault>(
            (xs, put_qp_tables(a, xs, bitdepth_minus8, n).len()),
        ),
{
    reveal(qp_tables_can);
    assert(qp_tables_ok(xs, bitdepth_minus8, n)) by {
        reveal(qp_tables_ok);
    }
    law_pre_put_qp_tables(a, xs, bitdepth_minus8, n, s);
}

/// Reading the items fails only with an error of this class.
pub broadcast proof fn law_faults_qp_tables(s: Seq<bool>, p: nat, bitdepth_minus8: u32, n: u64)
    ensures
        #[trigger] qp_tables_at(s, p, bitdepth_minus8, n) matches Err(f) ==> f == Fault::Invalid,
{
    broadcast use law_faults_qp_table;

    reveal(qp_tables_at);
    let f = qp_tables_item(s, bitdepth_minus8);
    assert forall|done: Seq<VvcChromaQpTableModel>, q: nat| (#[trigger] f(done, q)) matches Err(e)
        ==> e == Fault::Invalid by {}
    lemma_rep_faults(f, p, n as nat, |f: Fault| f == Fault::Invalid);
}

/// The `sps_ladf_*` block (§7.3.2.4, present iff
/// `sps_ladf_enabled_flag`).
#[derive(Debug, Clone, PartialEq, Eq, Default)]
pub struct VvcLadf {
    /// `sps_ladf_lowest_interval_qp_offset` se(v).
    pub sps_ladf_lowest_interval_qp_offset: i32,
    /// `(sps_ladf_qp_offset[i], sps_ladf_delta_threshold_minus1[i])`
    /// pairs; the count is `sps_num_ladf_intervals_minus2 + 1`
    /// (1..=4, `sps_num_ladf_intervals_minus2` is u(2)).
    pub intervals: Vec<(i32, u32)>,
}

/// One LADF interval at position `p`.
#[verifier::opaque]
pub open spec fn ladf_interval_at(s: Seq<bool>, p: nat) -> Read<(i32, u32)> {
    match se_at(s, p) { Err(f) => Err(f), Ok((qp_offset, p)) => {
    match ue_at(s, p) { Err(f) => Err(f), Ok((delta_threshold_minus1, p)) => {
    Ok(((qp_offset, delta_threshold_minus1), p)) }}}}
}

/// The bits `a` followed by one LADF interval.
#[verifier::opaque]
pub open spec fn put_ladf_interval(a: Seq<bool>, x: (i32, u32)) -> Seq<bool> {
    let a = put_se(a, x.0 as int);
    let a = put_ue(a, x.1 as nat);
    a
}

/// The values of one LADF interval that reading can give.
#[verifier::opaque]
pub open spec fn ladf_interval_ok(x: (i32, u32)) -> bool {
    &&& se_fits(x.0 as int)
    &&& ue_fits(x.1 as nat)
}

/// The values of one LADF interval that the writer accepts.
#[verifier::opaque]
pub open spec fn ladf_interval_can(x: (i32, u32)) -> bool {
    &&& se_fits(x.0 as int)
    &&& ue_fits(x.1 as nat)
}

/// Parses one LADF interval.
fn parse_ladf_interval(r: &mut BitReader<'_>) -> (res: Result<(i32, u32), BitstreamError>)
    ensures
        read_is(ladf_interval_at(old(r).bits(), old(r).pos()), res, *old(r), *final(r)),
{
    proof {
        reveal(ladf_interval_at);
    }
    let qp_offset: i32 = r.se()?;
    let delta_threshold_minus1: u32 = r.ue()?;
    Ok((qp_offset, delta_threshold_minus1))
}

/// Emits one LADF interval, the inverse of [`parse_ladf_interval`].
fn write_ladf_interval(w: &mut BitWriter, x: &(i32, u32)) -> (res: Result<(), BitstreamError>)
    ensures
        write_is(ladf_interval_can(*x), put_ladf_interval(old(w)@, *x), res, final(w)@),
{
    proof {
        reveal(put_ladf_interval);
        reveal(ladf_interval_can);
    }
    w.write_se(x.0)?;
    w.write_ue(x.1)?;
    Ok(())
}

/// Writing one LADF interval gives back the bits it was read from.
pub broadcast proof fn law_put_ladf_interval_at(s: Seq<bool>, p: nat)
    ensures
        #[trigger] ladf_interval_at(s, p) matches Ok((x, q)) ==> {
            &&& ladf_interval_ok(x)
            &&& ladf_interval_can(x)
            &&& within(s, q) ==> within(s, p) && put_ladf_interval(upto(s, p), x) == upto(s, q)
        },
{
    broadcast use crate::bits::group_write_read;

    reveal(ladf_interval_at);
    reveal(put_ladf_interval);
    reveal(ladf_interval_ok);
    reveal(ladf_interval_can);
}

/// Reading gives back one LADF interval as it was written.
pub broadcast proof fn law_pre_put_ladf_interval(a: Seq<bool>, x: (i32, u32), s: Seq<bool>)
    requires
        #[trigger] pre(put_ladf_interval(a, x), s),
        ladf_interval_ok(x),
    ensures
        pre(a, s),
        ladf_interval_can(x),
        ladf_interval_at(s, a.len()) == Ok::<((i32, u32), nat), Fault>((x, put_ladf_interval(a, x).len())),
{
    broadcast use crate::bits::group_read_written;

    reveal(ladf_interval_at);
    reveal(put_ladf_interval);
    reveal(ladf_interval_ok);
    reveal(ladf_interval_can);
}

/// The layout of one LADF interval: reading at `p` gives `x` and ends at `q` if
/// and only if these elements stand there in this order.
pub proof fn law_layout_ladf_interval(s: Seq<bool>, p: nat, x: (i32, u32), q: nat)
    ensures
        ladf_interval_at(s, p) == Ok::<((i32, u32), nat), Fault>((x, q)) <==> cursor(s, p)
            .se(x.0)
            .ue(x.1)
            .ends(q),
{
    reveal(ladf_interval_at);
}

/// Reading one LADF interval fails only with an error of this class.
pub broadcast proof fn law_faults_ladf_interval(s: Seq<bool>, p: nat)
    ensures
        #[trigger] ladf_interval_at(s, p) matches Err(f) ==> f == Fault::Invalid,
{
    broadcast use {crate::bits::law_faults_se, crate::bits::law_faults_ue};

    reveal(ladf_interval_at);
}

/// What the writer accepts reads back: one LADF interval, where each field fits
/// its width and what is not coded has the value that is taken for it.
pub proof fn law_reads_ladf_interval(a: Seq<bool>, x: (i32, u32), s: Seq<bool>)
    requires
        ladf_interval_can(x),
        pre(put_ladf_interval(a, x), s),
    ensures
        ladf_interval_at(s, a.len()) == Ok::<((i32, u32), nat), Fault>((x, put_ladf_interval(a, x).len())),
{
    assert(ladf_interval_ok(x)) by {
        broadcast use crate::bits::law_fits_small;

        reveal(ladf_interval_ok);
        reveal(ladf_interval_can);
    }
    law_pre_put_ladf_interval(a, x, s);
}

/// Reads one LADF interval, behind the items before it.
pub open spec fn ladf_intervals_item(s: Seq<bool>) -> spec_fn(Seq<(i32, u32)>, nat) -> Read<(i32, u32)> {
    |done: Seq<(i32, u32)>, q: nat| ladf_interval_at(s, q)
}

/// Writes one LADF interval, behind the items before it.
pub open spec fn put_ladf_intervals_item() -> spec_fn(Seq<bool>, Seq<(i32, u32)>, (i32, u32)) -> Seq<bool> {
    |a: Seq<bool>, done: Seq<(i32, u32)>, x: (i32, u32)| put_ladf_interval(a, x)
}

/// Whether one LADF interval may follow the items before it.
pub open spec fn ladf_intervals_item_ok() -> spec_fn(Seq<(i32, u32)>, (i32, u32)) -> bool {
    |done: Seq<(i32, u32)>, x: (i32, u32)| ladf_interval_ok(x) && ladf_interval_can(x)
}

/// `n` items at position `p`, each one LADF interval.
#[verifier::opaque]
pub open spec fn ladf_intervals_at(s: Seq<bool>, p: nat, n: u64) -> Read<Seq<(i32, u32)>> {
    rep_at(ladf_intervals_item(s), p, n as nat)
}

/// The bits `a` followed by the items.
#[verifier::opaque]
pub open spec fn put_ladf_intervals(a: Seq<bool>, xs: Seq<(i32, u32)>, n: u64) -> Seq<bool> {
    put_rep(put_ladf_intervals_item(), a, xs)
}

/// `n` items that reading can give.
#[verifier::opaque]
pub open spec fn ladf_intervals_ok(xs: Seq<(i32, u32)>, n: u64) -> bool {
    xs.len() == n
        && forall|i: int| 0 <= i < xs.len()
        ==> ladf_interval_ok(#[trigger] xs[i])
        && ladf_interval_can(xs[i])
}

/// `n` items that the writer accepts.
#[verifier::opaque]
pub open spec fn ladf_intervals_can(xs: Seq<(i32, u32)>, n: u64) -> bool {
    xs.len() == n && forall|i: int| 0 <= i < xs.len() ==> ladf_interval_can(#[trigger] xs[i])
}

/// Parses `n` items, each one LADF interval.
fn parse_ladf_intervals(r: &mut BitReader<'_>, n: u64) -> (res: Result<Vec<(i32, u32)>, BitstreamError>)
    ensures
        read_vec_is(ladf_intervals_at(old(r).bits(), old(r).pos(), n), res, *old(r), *final(r)),
        res matches Ok(v) ==> v@.len() == n,
{
    let ghost s = r.bits();
    let ghost p = r.pos();
    let ghost reads = ladf_intervals_item(s);
    let mut xs: Vec<(i32, u32)> = Vec::new();
    let mut i: u64 = 0;
    proof {
        reveal(ladf_intervals_at);
    }
    while i < n
        invariant
            i <= n,
            xs@.len() == i,
            reads == ladf_intervals_item(s),
            s == r.bits(),
            s == old(r).bits(),
            p == old(r).pos(),
            r.bytes() == old(r).bytes(),
            rep_at(reads, p, i as nat) == Ok::<(Seq<(i32, u32)>, nat), Fault>((xs@, r.pos())),
        decreases n - i,
    {
        match parse_ladf_interval(r) {
            Ok(x) => {
                xs.push(x);
            },
            Err(e) => {
                proof {
                    reveal(ladf_intervals_at);
                    lemma_rep_err(reads, p, (i + 1) as nat, n as nat);
                }
                return Err(e);
            },
        }
        i = i + 1;
    }
    Ok(xs)
}

/// Emits `n` items, each one LADF interval.
fn write_ladf_intervals(w: &mut BitWriter, xs: &Vec<(i32, u32)>, n: u64) -> (res: Result<(), BitstreamError>)
    ensures
        write_is(ladf_intervals_can(xs@, n), put_ladf_intervals(old(w)@, xs@, n), res, final(w)@),
        res is Ok ==> xs@.len() == n,
{
    let ghost before = w@;
    let ghost puts = put_ladf_intervals_item();
    let ghost ys = xs@;
    proof {
        reveal(put_ladf_intervals);
        reveal(ladf_intervals_can);
        assert(ys.take(0) =~= Seq::empty());
    }
    if xs.len() as u64 != n {
        return Err(BitstreamError::invalid("unexpected number of entries"));
    }
    let mut i: usize = 0;
    while i < xs.len()
        invariant
            i <= xs@.len(),
            xs@.len() == n,
            ys == xs@,
            ys.len() == xs@.len(),
            before == old(w)@,
            puts == put_ladf_intervals_item(),
            w@ == put_rep(puts, before, ys.take(i as int)),
            forall|j: int| 0 <= j < i ==> ladf_interval_can(#[trigger] ys[j]),
        ensures
            i == xs@.len(),
        decreases xs@.len() - i,
    {
        proof {
            assert(ys.take(i + 1).drop_last() =~= ys.take(i as int));
            assert(ys[i as int] == xs@[i as int]);
        }
        match write_ladf_interval(w, &xs[i]) {
            Ok(()) => {},
            Err(e) => {
                proof {
                    reveal(ladf_intervals_can);
                }
                return Err(e);
            },
        }
        i = i + 1;
    }
    proof {
        assert(ys.take(i as int) =~= ys);
    }
    Ok(())
}

/// Writing what was read gives back the bits that were read.
pub broadcast proof fn law_put_ladf_intervals_at(s: Seq<bool>, p: nat, n: u64)
    ensures
        #[trigger] ladf_intervals_at(s, p, n) matches Ok((xs, q)) ==> {
            &&& xs.len() == n
            &&& ladf_intervals_ok(xs, n)
            &&& ladf_intervals_can(xs, n)
            &&& within(s, q) ==> within(s, p) && put_ladf_intervals(upto(s, p), xs, n) == upto(s, q)
        },
{
    broadcast use law_put_ladf_interval_at;

    reveal(ladf_intervals_at);
    reveal(put_ladf_intervals);
    reveal(ladf_intervals_ok);
    reveal(ladf_intervals_can);
    let ok = ladf_intervals_item_ok();
    law_put_rep_at(s, ladf_intervals_item(s), put_ladf_intervals_item(), ok, p, n as nat);
    if let Ok((xs, q)) = ladf_intervals_at(s, p, n) {
        assert forall|i: int| 0 <= i < xs.len() implies ok(xs.take(i), #[trigger] xs[i]) by {}
    }
}

/// What was written reads back as the items that were written.
pub broadcast proof fn law_pre_put_ladf_intervals(a: Seq<bool>, xs: Seq<(i32, u32)>, n: u64, s: Seq<bool>)
    requires
        #[trigger] pre(put_ladf_intervals(a, xs, n), s),
        ladf_intervals_ok(xs, n),
    ensures
        pre(a, s),
        ladf_intervals_can(xs, n),
        ladf_intervals_at(s, a.len(), n) == Ok::<(Seq<(i32, u32)>, nat), Fault>(
            (xs, put_ladf_intervals(a, xs, n).len()),
        ),
{
    broadcast use law_pre_put_ladf_interval;

    reveal(ladf_intervals_at);
    reveal(put_ladf_intervals);
    reveal(ladf_intervals_ok);
    reveal(ladf_intervals_can);
    law_rep_at_put(s, ladf_intervals_item(s), put_ladf_intervals_item(), ladf_intervals_item_ok(), a, xs);
}

/// `n` items stand one behind the other: `n - 1` items, and then one LADF
/// interval.
pub proof fn law_layout_ladf_intervals(s: Seq<bool>, p: nat, n: u64, xs: Seq<(i32, u32)>, q: nat)
    ensures
        ladf_intervals_at(s, p, n) == Ok::<(Seq<(i32, u32)>, nat), Fault>((xs, q)) <==> if n == 0 {
            xs.len() == 0 && q == p
        } else {
            &&& xs.len() == n
            &&& cursor(s, p)
                .part(|p: nat| ladf_intervals_at(s, p, (n - 1) as u64), xs.drop_last())
                .part(|p: nat| ladf_interval_at(s, p), xs.last())
                .ends(q)
        },
{
    reveal(ladf_intervals_at);
    lemma_rep_step(ladf_intervals_item(s), p, n as nat);
    if xs.len() == 0 {
        assert(xs =~= Seq::empty());
    } else {
        assert(xs =~= xs.drop_last().push(xs.last()));
    }
    if n > 0 {
        if let Ok((done, r)) = rep_at(ladf_intervals_item(s), p, (n - 1) as nat) {
            if let Ok((y, z)) = ladf_intervals_item(s)(done, r) {
                assert(done.push(y).drop_last() =~= done);
            }
        }
    }
}

/// What the writer accepts as `n` items reads back, where each of them is one that
/// reading can give.
pub proof fn law_reads_ladf_intervals(a: Seq<bool>, xs: Seq<(i32, u32)>, n: u64, s: Seq<bool>)
    requires
        ladf_intervals_can(xs, n),
        forall|i: int| 0 <= i < xs.len() ==> ladf_interval_ok(#[trigger] xs[i]),
        pre(put_ladf_intervals(a, xs, n), s),
    ensures
        xs.len() == n,
        ladf_intervals_at(s, a.len(), n) == Ok::<(Seq<(i32, u32)>, nat), Fault>(
            (xs, put_ladf_intervals(a, xs, n).len()),
        ),
{
    reveal(ladf_intervals_can);
    assert(ladf_intervals_ok(xs, n)) by {
        reveal(ladf_intervals_ok);
    }
    law_pre_put_ladf_intervals(a, xs, n, s);
}

/// Reading the items fails only with an error of this class.
pub broadcast proof fn law_faults_ladf_intervals(s: Seq<bool>, p: nat, n: u64)
    ensures
        #[trigger] ladf_intervals_at(s, p, n) matches Err(f) ==> f == Fault::Invalid,
{
    broadcast use law_faults_ladf_interval;

    reveal(ladf_intervals_at);
    let f = ladf_intervals_item(s);
    assert forall|done: Seq<(i32, u32)>, q: nat| (#[trigger] f(done, q)) matches Err(e)
        ==> e == Fault::Invalid by {}
    lemma_rep_faults(f, p, n as nat, |f: Fault| f == Fault::Invalid);
}

/// The mathematical model of a [`VvcLadf`].
pub struct VvcLadfModel {
    pub sps_ladf_lowest_interval_qp_offset: i32,
    pub intervals: Seq<(i32, u32)>,
}

impl View for VvcLadf {
    type V = VvcLadfModel;

    open spec fn view(&self) -> VvcLadfModel {
        VvcLadfModel {
            sps_ladf_lowest_interval_qp_offset: self.sps_ladf_lowest_interval_qp_offset,
            intervals: self.intervals@,
        }
    }
}

/// The LADF block at position `p`.
#[verifier::opaque]
pub open spec fn ladf_at(s: Seq<bool>, p: nat) -> Read<VvcLadfModel> {
    let num_intervals_minus2 = u8_at(s, p, 2);
    let p = adv(p, 2);
    match se_at(s, p) { Err(f) => Err(f), Ok((sps_ladf_lowest_interval_qp_offset, p)) => {
    match ladf_intervals_at(s, p, (num_intervals_minus2 as u64 + 1) as u64)
    { Err(f) => Err(f), Ok((intervals, p)) => {
    Ok((VvcLadfModel { sps_ladf_lowest_interval_qp_offset, intervals }, p))
    }}}}
}

/// The bits `a` followed by the LADF block.
#[verifier::opaque]
pub open spec fn put_ladf(a: Seq<bool>, x: VvcLadfModel) -> Seq<bool> {
    let num_intervals_minus2 = (x.intervals.len() - 1) as u8;
    let a = put_u(a, num_intervals_minus2 as nat, 2);
    let a = put_se(a, x.sps_ladf_lowest_interval_qp_offset as int);
    let a = put_ladf_intervals(a, x.intervals, (num_intervals_minus2 as u64 + 1) as u64);
    a
}

/// The values of the LADF block that reading can give.
#[verifier::opaque]
pub open spec fn ladf_ok(x: VvcLadfModel) -> bool {
    &&& x.intervals.len() >= 1 && x.intervals.len() <= 4
    &&& {
        let num_intervals_minus2 = (x.intervals.len() - 1) as u8;
        &&& fits(num_intervals_minus2 as nat, 2)
        &&& se_fits(x.sps_ladf_lowest_interval_qp_offset as int)
        &&& ladf_intervals_ok(x.intervals, (num_intervals_minus2 as u64 + 1) as u64)
    }
}

/// The values of the LADF block that the writer accepts.
#[verifier::opaque]
pub open spec fn ladf_can(x: VvcLadfModel) -> bool {
    &&& x.intervals.len() >= 1 && x.intervals.len() <= 4
    &&& {
        let num_intervals_minus2 = (x.intervals.len() - 1) as u8;
        &&& se_fits(x.sps_ladf_lowest_interval_qp_offset as int)
        &&& ladf_intervals_can(x.intervals, (num_intervals_minus2 as u64 + 1) as u64)
    }
}

/// Parses the LADF block.
fn parse_ladf(r: &mut BitReader<'_>) -> (res: Result<VvcLadf, BitstreamError>)
    ensures
        read_view_is(ladf_at(old(r).bits(), old(r).pos()), res, *old(r), *final(r)),
{
    proof {
        reveal(ladf_at);
    }
    let num_intervals_minus2: u8 = r.u8(2);
    let sps_ladf_lowest_interval_qp_offset: i32 = r.se()?;
    let intervals = parse_ladf_intervals(r, num_intervals_minus2 as u64 + 1)?;
    Ok(VvcLadf { sps_ladf_lowest_interval_qp_offset, intervals })
}

/// Emits the LADF block, the inverse of [`parse_ladf`].
fn write_ladf(w: &mut BitWriter, x: &VvcLadf) -> (res: Result<(), BitstreamError>)
    ensures
        write_is(ladf_can(x@), put_ladf(old(w)@, x@), res, final(w)@),
{
    proof {
        reveal(put_ladf);
        reveal(ladf_can);
    }
    if !(x.intervals.len() >= 1 && x.intervals.len() <= 4) {
        return Err(
            BitstreamError::invalid(
                "LADF interval count must be 1..=4 (sps_num_ladf_intervals_minus2 is u(2))",
            ),
        );
    }
    let num_intervals_minus2: u8 = (x.intervals.len() - 1) as u8;
    w.write_bits(num_intervals_minus2 as u32, 2);
    w.write_se(x.sps_ladf_lowest_interval_qp_offset)?;
    write_ladf_intervals(w, &x.intervals, num_intervals_minus2 as u64 + 1)?;
    Ok(())
}

/// Writing the LADF block gives back the bits it was read from.
pub broadcast proof fn law_put_ladf_at(s: Seq<bool>, p: nat)
    ensures
        #[trigger] ladf_at(s, p) matches Ok((x, q)) ==> {
            &&& ladf_ok(x)
            &&& ladf_can(x)
            &&& within(s, q) ==> within(s, p) && put_ladf(upto(s, p), x) == upto(s, q)
        },
{
    broadcast use {crate::bits::group_write_read, law_put_ladf_intervals_at};

    reveal(ladf_at);
    reveal(put_ladf);
    reveal(ladf_ok);
    reveal(ladf_can);
}

/// Reading gives back the LADF block as it was written.
pub broadcast proof fn law_pre_put_ladf(a: Seq<bool>, x: VvcLadfModel, s: Seq<bool>)
    requires
        #[trigger] pre(put_ladf(a, x), s),
        ladf_ok(x),
    ensures
        pre(a, s),
        ladf_can(x),
        ladf_at(s, a.len()) == Ok::<(VvcLadfModel, nat), Fault>((x, put_ladf(a, x).len())),
{
    broadcast use {crate::bits::group_read_written, law_pre_put_ladf_intervals};

    reveal(ladf_at);
    reveal(put_ladf);
    reveal(ladf_ok);
    reveal(ladf_can);
}

/// The layout of the LADF block: reading at `p` gives `x` and ends at `q` if
/// and only if these elements stand there in this order.
pub proof fn law_layout_ladf(s: Seq<bool>, p: nat, x: VvcLadfModel, q: nat)
    ensures
        ladf_at(s, p) == Ok::<(VvcLadfModel, nat), Fault>((x, q)) <==> ({
            let c = cursor(s, p);
            let num_intervals_minus2 = c.next_u8(2);
            &&& c
                .u8(2, num_intervals_minus2)
                .se(x.sps_ladf_lowest_interval_qp_offset)
                .part(|p: nat| ladf_intervals_at(s, p, (num_intervals_minus2 as u64 + 1) as u64), x.intervals)
                .ends(q)
        }),
{
    reveal(ladf_at);
}

/// Reading the LADF block fails only with an error of this class.
pub broadcast proof fn law_faults_ladf(s: Seq<bool>, p: nat)
    ensures
        #[trigger] ladf_at(s, p) matches Err(f) ==> f == Fault::Invalid,
{
    broadcast use {crate::bits::law_faults_se, law_faults_ladf_intervals};

    reveal(ladf_at);
}

/// What the writer accepts reads back: the LADF block, where each field fits
/// its width and what is not coded has the value that is taken for it.
pub proof fn law_reads_ladf(a: Seq<bool>, x: VvcLadfModel, s: Seq<bool>)
    requires
        ladf_can(x),
        ({
            let num_intervals_minus2 = (x.intervals.len() - 1) as u8;
            &&& ladf_intervals_ok(x.intervals, (num_intervals_minus2 as u64 + 1) as u64)
        }),
        pre(put_ladf(a, x), s),
    ensures
        ladf_at(s, a.len()) == Ok::<(VvcLadfModel, nat), Fault>((x, put_ladf(a, x).len())),
{
    assert(ladf_ok(x)) by {
        broadcast use crate::bits::law_fits_small;

        reveal(ladf_ok);
        reveal(ladf_can);
    }
    law_pre_put_ladf(a, x, s);
}

/// Each field of the model of a [`VvcLadf`] is the field of that name.
pub proof fn law_view_ladf(x: VvcLadf)
    ensures
        x@.sps_ladf_lowest_interval_qp_offset == x.sps_ladf_lowest_interval_qp_offset,
        x@.intervals == x.intervals@,
{
}

/// `sps_range_extension()` syntax structure.
#[derive(Debug, Clone, Copy, PartialEq, Eq, Default)]
pub struct VvcSpsRangeExtension {
    /// `sps_extended_precision_flag` u(1).
    pub sps_extended_precision_flag: u8,
    /// `sps_ts_residual_coding_rice_present_in_sh_flag` u(1) — coded
    /// only when `sps_transform_skip_enabled_flag`; inferred 0.
    pub sps_ts_residual_coding_rice_present_in_sh_flag: u8,
    /// `sps_rrc_rice_extension_flag` u(1).
    pub sps_rrc_rice_extension_flag: u8,
    /// `sps_persistent_rice_adaptation_enabled_flag` u(1).
    pub sps_persistent_rice_adaptation_enabled_flag: u8,
    /// `sps_reverse_last_sig_coeff_enabled_flag` u(1).
    pub sps_reverse_last_sig_coeff_enabled_flag: u8,
}

/// sps_range_extension() at position `p`.
#[verifier::opaque]
pub open spec fn sps_range_ext_at(s: Seq<bool>, p: nat, transform_skip: u8) -> Read<VvcSpsRangeExtension> {
    let sps_extended_precision_flag = u8_at(s, p, 1);
    let p = adv(p, 1);
    let sps_ts_residual_coding_rice_present_in_sh_flag = u8_if(s, p, 1, transform_skip != 0, 0);
    let p = adv_if(p, 1, transform_skip != 0);
    let sps_rrc_rice_extension_flag = u8_at(s, p, 1);
    let p = adv(p, 1);
    let sps_persistent_rice_adaptation_enabled_flag = u8_at(s, p, 1);
    let p = adv(p, 1);
    let sps_reverse_last_sig_coeff_enabled_flag = u8_at(s, p, 1);
    let p = adv(p, 1);
    Ok(
        (
            VvcSpsRangeExtension {
                sps_extended_precision_flag,
                sps_ts_residual_coding_rice_present_in_sh_flag,
                sps_rrc_rice_extension_flag,
                sps_persistent_rice_adaptation_enabled_flag,
                sps_reverse_last_sig_coeff_enabled_flag,
            },
            p,
        ),
    )
}

/// The bits `a` followed by sps_range_extension().
#[verifier::opaque]
pub open spec fn put_sps_range_ext(a: Seq<bool>, x: VvcSpsRangeExtension, transform_skip: u8) -> Seq<bool> {
    let a = put_bit(a, x.sps_extended_precision_flag as nat);
    let a = put_bit_if(a, x.sps_ts_residual_coding_rice_present_in_sh_flag as nat, transform_skip != 0);
    let a = put_bit(a, x.sps_rrc_rice_extension_flag as nat);
    let a = put_bit(a, x.sps_persistent_rice_adaptation_enabled_flag as nat);
    let a = put_bit(a, x.sps_reverse_last_sig_coeff_enabled_flag as nat);
    a
}

/// The values of sps_range_extension() that reading can give.
#[verifier::opaque]
pub open spec fn sps_range_ext_ok(x: VvcSpsRangeExtension, transform_skip: u8) -> bool {
    &&& fits(x.sps_extended_precision_flag as nat, 1)
    &&& if transform_skip != 0 {
        fits(x.sps_ts_residual_coding_rice_present_in_sh_flag as nat, 1)
    } else {
        x.sps_ts_residual_coding_rice_present_in_sh_flag == 0
    }
    &&& fits(x.sps_rrc_rice_extension_flag as nat, 1)
    &&& fits(x.sps_persistent_rice_adaptation_enabled_flag as nat, 1)
    &&& fits(x.sps_reverse_last_sig_coeff_enabled_flag as nat, 1)
}

/// The values of sps_range_extension() that the writer accepts.
#[verifier::opaque]
pub open spec fn sps_range_ext_can(x: VvcSpsRangeExtension, transform_skip: u8) -> bool {
    true
}

/// Parses sps_range_extension().
fn parse_sps_range_ext(
    r: &mut BitReader<'_>,
    transform_skip: u8,
) -> (res: Result<VvcSpsRangeExtension, BitstreamError>)
    ensures
        read_is(sps_range_ext_at(old(r).bits(), old(r).pos(), transform_skip), res, *old(r), *final(r)),
{
    proof {
        reveal(sps_range_ext_at);
    }
    let sps_extended_precision_flag: u8 = r.bit();
    let sps_ts_residual_coding_rice_present_in_sh_flag: u8 = r.bit_if(transform_skip != 0, 0);
    let sps_rrc_rice_extension_flag: u8 = r.bit();
    let sps_persistent_rice_adaptation_enabled_flag: u8 = r.bit();
    let sps_reverse_last_sig_coeff_enabled_flag: u8 = r.bit();
    Ok(
        VvcSpsRangeExtension {
            sps_extended_precision_flag,
            sps_ts_residual_coding_rice_present_in_sh_flag,
            sps_rrc_rice_extension_flag,
            sps_persistent_rice_adaptation_enabled_flag,
            sps_reverse_last_sig_coeff_enabled_flag,
        },
    )
}

/// Emits sps_range_extension(), the inverse of [`parse_sps_range_ext`].
fn write_sps_range_ext(
    w: &mut BitWriter,
    x: &VvcSpsRangeExtension,
    transform_skip: u8,
) -> (res: Result<(), BitstreamError>)
    ensures
        write_is(
            sps_range_ext_can(*x, transform_skip),
            put_sps_range_ext(old(w)@, *x, transform_skip),
            res,
            final(w)@,
        ),
{
    proof {
        reveal(put_sps_range_ext);
        reveal(sps_range_ext_can);
    }
    w.write_bit(x.sps_extended_precision_flag as u32);
    w.write_bit_if(x.sps_ts_residual_coding_rice_present_in_sh_flag as u32, transform_skip != 0);
    w.write_bit(x.sps_rrc_rice_extension_flag as u32);
    w.write_bit(x.sps_persistent_rice_adaptation_enabled_flag as u32);
    w.write_bit(x.sps_reverse_last_sig_coeff_enabled_flag as u32);
    Ok(())
}

/// Writing sps_range_extension() gives back the bits it was read from.
pub broadcast proof fn law_put_sps_range_ext_at(s: Seq<bool>, p: nat, transform_skip: u8)
    ensures
        #[trigger] sps_range_ext_at(s, p, transform_skip) matches Ok((x, q)) ==> {
            &&& sps_range_ext_ok(x, transform_skip)
            &&& sps_range_ext_can(x, transform_skip)
            &&& within(s, q)
                ==> within(s, p)
                && put_sps_range_ext(upto(s, p), x, transform_skip) == upto(s, q)
        },
{
    broadcast use crate::bits::group_write_read;

    reveal(sps_range_ext_at);
    reveal(put_sps_range_ext);
    reveal(sps_range_ext_ok);
    reveal(sps_range_ext_can);
}

/// Reading gives back sps_range_extension() as it was written.
pub broadcast proof fn law_pre_put_sps_range_ext(
    a: Seq<bool>,
    x: VvcSpsRangeExtension,
    transform_skip: u8,
    s: Seq<bool>,
)
    requires
        #[trigger] pre(put_sps_range_ext(a, x, transform_skip), s),
        sps_range_ext_ok(x, transform_skip),
    ensures
        pre(a, s),
        sps_range_ext_can(x, transform_skip),
        sps_range_ext_at(s, a.len(), transform_skip) == Ok::<(VvcSpsRangeExtension, nat), Fault>(
            (x, put_sps_range_ext(a, x, transform_skip).len()),
        ),
{
    broadcast use crate::bits::group_read_written;

    reveal(sps_range_ext_at);
    reveal(put_sps_range_ext);
    reveal(sps_range_ext_ok);
    reveal(sps_range_ext_can);
}

/// The layout of sps_range_extension(): reading at `p` gives `x` and ends at
/// `q` if and only if these elements stand there in this order.
pub proof fn law_layout_sps_range_ext(
    s: Seq<bool>,
    p: nat,
    transform_skip: u8,
    x: VvcSpsRangeExtension,
    q: nat,
)
    ensures
        sps_range_ext_at(s, p, transform_skip) == Ok::<(VvcSpsRangeExtension, nat), Fault>((x, q))
            <==> cursor(s, p)
            .u8(1, x.sps_extended_precision_flag)
            .u8_if(transform_skip != 0, 1, x.sps_ts_residual_coding_rice_present_in_sh_flag, 0)
            .u8(1, x.sps_rrc_rice_extension_flag)
            .u8(1, x.sps_persistent_rice_adaptation_enabled_flag)
            .u8(1, x.sps_reverse_last_sig_coeff_enabled_flag)
            .ends(q),
{
    reveal(sps_range_ext_at);
    reveal(adv_if);
    reveal(u8_if);
}

/// Reading sps_range_extension() never fails.
pub broadcast proof fn law_faults_sps_range_ext(s: Seq<bool>, p: nat, transform_skip: u8)
    ensures
        #[trigger] sps_range_ext_at(s, p, transform_skip) is Ok,
{
    reveal(sps_range_ext_at);
}

/// What the writer accepts reads back: sps_range_extension(), where each field
/// fits its width and what is not coded has the value that is taken for it.
pub proof fn law_reads_sps_range_ext(a: Seq<bool>, x: VvcSpsRangeExtension, transform_skip: u8, s: Seq<bool>)
    requires
        sps_range_ext_can(x, transform_skip),
        fits(x.sps_extended_precision_flag as nat, 1),
        if transform_skip != 0 {
            fits(x.sps_ts_residual_coding_rice_present_in_sh_flag as nat, 1)
        } else {
            x.sps_ts_residual_coding_rice_present_in_sh_flag == 0
        },
        fits(x.sps_rrc_rice_extension_flag as nat, 1),
        fits(x.sps_persistent_rice_adaptation_enabled_flag as nat, 1),
        fits(x.sps_reverse_last_sig_coeff_enabled_flag as nat, 1),
        pre(put_sps_range_ext(a, x, transform_skip), s),
    ensures
        sps_range_ext_at(s, a.len(), transform_skip) == Ok::<(VvcSpsRangeExtension, nat), Fault>(
            (x, put_sps_range_ext(a, x, transform_skip).len()),
        ),
{
    assert(sps_range_ext_ok(x, transform_skip)) by {
        broadcast use crate::bits::law_fits_small;

        reveal(sps_range_ext_ok);
        reveal(sps_range_ext_can);
    }
    law_pre_put_sps_range_ext(a, x, transform_skip, s);
}

/// The SPS timing/HRD block (§7.3.2.4, present iff
/// `sps_timing_hrd_params_present_flag`).
#[derive(Debug, Clone, PartialEq, Eq, Default)]
pub struct VvcSpsTimingHrd {
    /// `general_timing_hrd_parameters()` (§7.3.5.1).
    pub general: VvcGeneralTimingHrd,
    /// `sps_sublayer_cpb_params_present_flag` u(1) — coded only when
    /// `sps_max_sublayers_minus1 > 0`; inferred 0. Determines
    /// `firstSubLayer` for the OLS HRD walk.
    pub sps_sublayer_cpb_params_present_flag: u8,
    /// `ols_timing_hrd_parameters(firstSubLayer,
    /// sps_max_sublayers_minus1)` (§7.3.5.2).
    pub ols: VvcOlsTimingHrd,
}

/// The mathematical model of a [`VvcSpsTimingHrd`].
pub struct VvcSpsTimingHrdModel {
    pub general: VvcGeneralTimingHrd,
    pub sps_sublayer_cpb_params_present_flag: u8,
    pub ols: VvcOlsTimingHrdModel,
}

impl View for VvcSpsTimingHrd {
    type V = VvcSpsTimingHrdModel;

    open spec fn view(&self) -> VvcSpsTimingHrdModel {
        VvcSpsTimingHrdModel {
            general: self.general,
            sps_sublayer_cpb_params_present_flag: self.sps_sublayer_cpb_params_present_flag,
            ols: self.ols@,
        }
    }
}

/// The SPS timing/HRD block at position `p`.
#[verifier::opaque]
pub open spec fn sps_timing_hrd_at(
    s: Seq<bool>,
    p: nat,
    max_sublayers_minus1: u32,
) -> Read<VvcSpsTimingHrdModel> {
    match general_timing_hrd_at(s, p) { Err(f) => Err(f), Ok((general, p)) => {
    let sps_sublayer_cpb_params_present_flag = u8_if(s, p, 1, max_sublayers_minus1 > 0, 0);
    let p = adv_if(p, 1, max_sublayers_minus1 > 0);
    let first = if sps_sublayer_cpb_params_present_flag != 0 { 0 } else { max_sublayers_minus1 };
    match ols_timing_hrd_at(s, p, first, max_sublayers_minus1, general) { Err(f) => Err(f), Ok((ols, p)) => {
    Ok((VvcSpsTimingHrdModel { general, sps_sublayer_cpb_params_present_flag, ols }, p))
    }}}}
}

/// The bits `a` followed by the SPS timing/HRD block.
#[verifier::opaque]
pub open spec fn put_sps_timing_hrd(
    a: Seq<bool>,
    x: VvcSpsTimingHrdModel,
    max_sublayers_minus1: u32,
) -> Seq<bool> {
    let a = put_general_timing_hrd(a, x.general);
    let a = put_bit_if(a, x.sps_sublayer_cpb_params_present_flag as nat, max_sublayers_minus1 > 0);
    let first = if x.sps_sublayer_cpb_params_present_flag != 0 { 0 } else { max_sublayers_minus1 };
    let a = put_ols_timing_hrd(a, x.ols, first, max_sublayers_minus1, x.general);
    a
}

/// The values of the SPS timing/HRD block that reading can give.
#[verifier::opaque]
pub open spec fn sps_timing_hrd_ok(x: VvcSpsTimingHrdModel, max_sublayers_minus1: u32) -> bool {
    &&& general_timing_hrd_ok(x.general)
    &&& if max_sublayers_minus1 > 0 {
        fits(x.sps_sublayer_cpb_params_present_flag as nat, 1)
    } else {
        x.sps_sublayer_cpb_params_present_flag == 0
    }
    &&& {
        let first = if x.sps_sublayer_cpb_params_present_flag != 0 { 0 } else { max_sublayers_minus1 };
        &&& ols_timing_hrd_ok(x.ols, first, max_sublayers_minus1, x.general)
    }
}

/// The values of the SPS timing/HRD block that the writer accepts.
#[verifier::opaque]
pub open spec fn sps_timing_hrd_can(x: VvcSpsTimingHrdModel, max_sublayers_minus1: u32) -> bool {
    &&& general_timing_hrd_can(x.general)
    &&& {
        let first = if x.sps_sublayer_cpb_params_present_flag != 0 { 0 } else { max_sublayers_minus1 };
        &&& ols_timing_hrd_can(x.ols, first, max_sublayers_minus1, x.general)
    }
}

/// Parses the SPS timing/HRD block.
fn parse_sps_timing_hrd(
    r: &mut BitReader<'_>,
    max_sublayers_minus1: u32,
) -> (res: Result<VvcSpsTimingHrd, BitstreamError>)
    ensures
        read_view_is(
            sps_timing_hrd_at(old(r).bits(), old(r).pos(), max_sublayers_minus1),
            res,
            *old(r),
            *final(r),
        ),
{
    proof {
        reveal(sps_timing_hrd_at);
    }
    let general = parse_general_timing_hrd(r)?;
    let sps_sublayer_cpb_params_present_flag: u8 = r.bit_if(max_sublayers_minus1 > 0, 0);
    let first: u32 = if sps_sublayer_cpb_params_present_flag != 0 { 0 } else { max_sublayers_minus1 };
    let ols = parse_ols_timing_hrd(r, first, max_sublayers_minus1, &general)?;
    Ok(VvcSpsTimingHrd { general, sps_sublayer_cpb_params_present_flag, ols })
}

/// Emits the SPS timing/HRD block, the inverse of [`parse_sps_timing_hrd`].
fn write_sps_timing_hrd(
    w: &mut BitWriter,
    x: &VvcSpsTimingHrd,
    max_sublayers_minus1: u32,
) -> (res: Result<(), BitstreamError>)
    ensures
        write_is(
            sps_timing_hrd_can(x@, max_sublayers_minus1),
            put_sps_timing_hrd(old(w)@, x@, max_sublayers_minus1),
            res,
            final(w)@,
        ),
{
    proof {
        reveal(put_sps_timing_hrd);
        reveal(sps_timing_hrd_can);
    }
    write_general_timing_hrd(w, &x.general)?;
    w.write_bit_if(x.sps_sublayer_cpb_params_present_flag as u32, max_sublayers_minus1 > 0);
    let first: u32 = if x.sps_sublayer_cpb_params_present_flag != 0 { 0 } else { max_sublayers_minus1 };
    write_ols_timing_hrd(w, &x.ols, first, max_sublayers_minus1, &x.general)?;
    Ok(())
}

/// Writing the SPS timing/HRD block gives back the bits it was read from.
pub broadcast proof fn law_put_sps_timing_hrd_at(s: Seq<bool>, p: nat, max_sublayers_minus1: u32)
    ensures
        #[trigger] sps_timing_hrd_at(s, p, max_sublayers_minus1) matches Ok((x, q)) ==> {
            &&& sps_timing_hrd_ok(x, max_sublayers_minus1)
            &&& sps_timing_hrd_can(x, max_sublayers_minus1)
            &&& within(s, q)
                ==> within(s, p)
                && put_sps_timing_hrd(upto(s, p), x, max_sublayers_minus1) == upto(s, q)
        },
{
    broadcast use {crate::bits::group_write_read, law_put_general_timing_hrd_at, law_put_ols_timing_hrd_at};

    reveal(sps_timing_hrd_at);
    reveal(put_sps_timing_hrd);
    reveal(sps_timing_hrd_ok);
    reveal(sps_timing_hrd_can);
}

/// Reading gives back the SPS timing/HRD block as it was written.
pub broadcast proof fn law_pre_put_sps_timing_hrd(
    a: Seq<bool>,
    x: VvcSpsTimingHrdModel,
    max_sublayers_minus1: u32,
    s: Seq<bool>,
)
    requires
        #[trigger] pre(put_sps_timing_hrd(a, x, max_sublayers_minus1), s),
        sps_timing_hrd_ok(x, max_sublayers_minus1),
    ensures
        pre(a, s),
        sps_timing_hrd_can(x, max_sublayers_minus1),
        sps_timing_hrd_at(s, a.len(), max_sublayers_minus1) == Ok::<(VvcSpsTimingHrdModel, nat), Fault>(
            (x, put_sps_timing_hrd(a, x, max_sublayers_minus1).len()),
        ),
{
    broadcast use {
        crate::bits::group_read_written,
        law_pre_put_general_timing_hrd,
        law_pre_put_ols_timing_hrd,
    };

    reveal(sps_timing_hrd_at);
    reveal(put_sps_timing_hrd);
    reveal(sps_timing_hrd_ok);
    reveal(sps_timing_hrd_can);
}

/// The layout of the SPS timing/HRD block: reading at `p` gives `x` and ends at
/// `q` if and only if these elements stand there in this order.
pub proof fn law_layout_sps_timing_hrd(
    s: Seq<bool>,
    p: nat,
    max_sublayers_minus1: u32,
    x: VvcSpsTimingHrdModel,
    q: nat,
)
    ensures
        sps_timing_hrd_at(s, p, max_sublayers_minus1) == Ok::<(VvcSpsTimingHrdModel, nat), Fault>((x, q)) <==> ({
            let first = if x.sps_sublayer_cpb_params_present_flag != 0 { 0 } else { max_sublayers_minus1 };
            &&& cursor(s, p)
                .part(|p: nat| general_timing_hrd_at(s, p), x.general)
                .u8_if(max_sublayers_minus1 > 0, 1, x.sps_sublayer_cpb_params_present_flag, 0)
                .part(|p: nat| ols_timing_hrd_at(s, p, first, max_sublayers_minus1, x.general), x.ols)
                .ends(q)
        }),
{
    reveal(sps_timing_hrd_at);
    reveal(adv_if);
    reveal(u8_if);
}

/// Reading the SPS timing/HRD block fails only with an error of this class.
pub broadcast proof fn law_faults_sps_timing_hrd(s: Seq<bool>, p: nat, max_sublayers_minus1: u32)
    ensures
        #[trigger] sps_timing_hrd_at(s, p, max_sublayers_minus1) matches Err(f) ==> f == Fault::Invalid,
{
    broadcast use {law_faults_general_timing_hrd, law_faults_ols_timing_hrd};

    reveal(sps_timing_hrd_at);
}

/// What the writer accepts reads back: the SPS timing/HRD block, where each
/// field fits its width and what is not coded has the value that is taken for
/// it.
pub proof fn law_reads_sps_timing_hrd(
    a: Seq<bool>,
    x: VvcSpsTimingHrdModel,
    max_sublayers_minus1: u32,
    s: Seq<bool>,
)
    requires
        sps_timing_hrd_can(x, max_sublayers_minus1),
        ({
            &&& general_timing_hrd_ok(x.general)
            &&& if max_sublayers_minus1 > 0 {
                fits(x.sps_sublayer_cpb_params_present_flag as nat, 1)
            } else {
                x.sps_sublayer_cpb_params_present_flag == 0
            }
            &&& {
                let first = if x.sps_sublayer_cpb_params_present_flag != 0 {
                    0
                } else {
                    max_sublayers_minus1
                };
                &&& ols_timing_hrd_ok(x.ols, first, max_sublayers_minus1, x.general)
            }
        }),
        pre(put_sps_timing_hrd(a, x, max_sublayers_minus1), s),
    ensures
        sps_timing_hrd_at(s, a.len(), max_sublayers_minus1) == Ok::<(VvcSpsTimingHrdModel, nat), Fault>(
            (x, put_sps_timing_hrd(a, x, max_sublayers_minus1).len()),
        ),
{
    assert(sps_timing_hrd_ok(x, max_sublayers_minus1)) by {
        broadcast use crate::bits::law_fits_small;

        reveal(sps_timing_hrd_ok);
        reveal(sps_timing_hrd_can);
    }
    law_pre_put_sps_timing_hrd(a, x, max_sublayers_minus1, s);
}

/// Each field of the model of a [`VvcSpsTimingHrd`] is the field of that name.
pub proof fn law_view_sps_timing_hrd(x: VvcSpsTimingHrd)
    ensures
        x@.general == x.general,
        x@.sps_sublayer_cpb_params_present_flag == x.sps_sublayer_cpb_params_present_flag,
        x@.ols == x.ols@,
{
}

/// The vui_payload() block at position `p`: its size, alignment, and the bytes.
#[verifier::opaque]
pub open spec fn vui_at(s: Seq<bool>, p: nat) -> Read<Seq<u8>> {
    match ue_at(s, p) {
        Err(f) => Err(f),
        Ok((size_minus1, p)) => if size_minus1 > 1023 {
            Err(Fault::Invalid)
        } else {
            match align_at(s, p) {
                Err(f) => Err(f),
                Ok(p) => if p + 8 * (size_minus1 + 1) > s.len() {
                    Err(Fault::End)
                } else {
                    u8s_at(s, p, 8, (size_minus1 + 1) as nat)
                },
            }
        },
    }
}

/// Writes the block.
#[verifier::opaque]
pub open spec fn put_vui(a: Seq<bool>, x: Seq<u8>) -> Seq<bool> {
    put_u8s(put_align(put_ue(a, (x.len() - 1) as nat)), x, 8)
}

/// A block that reading can give.
#[verifier::opaque]
pub open spec fn vui_ok(x: Seq<u8>) -> bool {
    1 <= x.len() <= 1024
}

/// A block that the writer accepts.
#[verifier::opaque]
pub open spec fn vui_can(x: Seq<u8>) -> bool {
    1 <= x.len() <= 1024
}

/// Parses the block.
fn parse_vui(r: &mut BitReader<'_>) -> (res: Result<Vec<u8>, BitstreamError>)
    ensures
        read_view_is(vui_at(old(r).bits(), old(r).pos()), res, *old(r), *final(r)),
{
    proof {
        reveal(vui_at);
    }
    let size_minus1: u32 = r.ue()?;
    if size_minus1 > 1023 {
        return Err(
            Message::new("sps_vui_payload_size_minus1 = ")
                .num(size_minus1 as i128)
                .with(" > 1023 (7.4.3.4)")
                .invalid(),
        );
    }
    r.read_align("sps_vui_alignment_zero_bit must be 0 (7.3.2.4)")?;
    if r.bits_remaining() < (size_minus1 as u128 + 1) * 8 {
        return Err(
            BitstreamError::unexpected_end("vui_payload() extends past the end of the SPS RBSP"),
        );
    }
    Ok(r.read_u8s(size_minus1 as u64 + 1, 8))
}

/// Emits the block.
fn write_vui(w: &mut BitWriter, x: &Vec<u8>) -> (res: Result<(), BitstreamError>)
    ensures
        write_is(vui_can(x@), put_vui(old(w)@, x@), res, final(w)@),
{
    proof {
        reveal(put_vui);
        reveal(vui_can);
    }
    if x.len() < 1 || x.len() > 1024 {
        return Err(BitstreamError::invalid("vui_payload must be 1..=1024 bytes (7.4.3.4)"));
    }
    w.write_ue((x.len() - 1) as u32)?;
    w.align_to_byte();
    w.write_u8s(x.as_slice(), 8);
    Ok(())
}

/// Writing what was read gives back the bits that were read.
pub broadcast proof fn law_put_vui_at(s: Seq<bool>, p: nat)
    ensures
        #[trigger] vui_at(s, p) matches Ok((x, q)) ==> {
            &&& vui_ok(x)
            &&& vui_can(x)
            &&& within(s, q) ==> within(s, p) && put_vui(upto(s, p), x) == upto(s, q)
        },
{
    broadcast use {crate::bits::group_write_read, crate::bits::group_write_read_lists};

    reveal(vui_at);
    reveal(put_vui);
    reveal(vui_ok);
    reveal(vui_can);
}

/// What was written reads back as the value that was written.
pub broadcast proof fn law_pre_put_vui(a: Seq<bool>, x: Seq<u8>, s: Seq<bool>)
    requires
        #[trigger] pre(put_vui(a, x), s),
        vui_ok(x),
    ensures
        pre(a, s),
        vui_can(x),
        vui_at(s, a.len()) == Ok::<(Seq<u8>, nat), Fault>((x, put_vui(a, x).len())),
{
    broadcast use {crate::bits::group_read_written, crate::bits::group_read_written_lists};

    reveal(vui_at);
    reveal(put_vui);
    reveal(vui_ok);
    reveal(vui_can);
    let b = put_align(put_ue(a, (x.len() - 1) as nat));
    lemma_put_u8s_len(b, x, 8);
    assert(u8s_ok(x, 8));
    assert(put_vui(a, x).len() <= s.len()) by {
        reveal(pre);
    }
}

/// The four conformance window offsets at position `p`.
#[verifier::opaque]
pub open spec fn conf_win_at(s: Seq<bool>, p: nat) -> Read<(u32, u32, u32, u32)> {
    match ue_at(s, p) { Err(f) => Err(f), Ok((left, p)) => {
    match ue_at(s, p) { Err(f) => Err(f), Ok((right, p)) => {
    match ue_at(s, p) { Err(f) => Err(f), Ok((top, p)) => {
    match ue_at(s, p) { Err(f) => Err(f), Ok((bottom, p)) => {
    Ok(((left, right, top, bottom), p)) }}}}}}}}
}

/// The bits `a` followed by the four conformance window offsets.
#[verifier::opaque]
pub open spec fn put_conf_win(a: Seq<bool>, x: (u32, u32, u32, u32)) -> Seq<bool> {
    let a = put_ue(a, x.0 as nat);
    let a = put_ue(a, x.1 as nat);
    let a = put_ue(a, x.2 as nat);
    let a = put_ue(a, x.3 as nat);
    a
}

/// The values of the four conformance window offsets that reading can give.
#[verifier::opaque]
pub open spec fn conf_win_ok(x: (u32, u32, u32, u32)) -> bool {
    &&& ue_fits(x.0 as nat)
    &&& ue_fits(x.1 as nat)
    &&& ue_fits(x.2 as nat)
    &&& ue_fits(x.3 as nat)
}

/// The values of the four conformance window offsets that the writer accepts.
#[verifier::opaque]
pub open spec fn conf_win_can(x: (u32, u32, u32, u32)) -> bool {
    &&& ue_fits(x.0 as nat)
    &&& ue_fits(x.1 as nat)
    &&& ue_fits(x.2 as nat)
    &&& ue_fits(x.3 as nat)
}

/// Parses the four conformance window offsets.
pub(crate) fn parse_conf_win(r: &mut BitReader<'_>) -> (res: Result<(u32, u32, u32, u32), BitstreamError>)
    ensures
        read_is(conf_win_at(old(r).bits(), old(r).pos()), res, *old(r), *final(r)),
{
    proof {
        reveal(conf_win_at);
    }
    let left: u32 = r.ue()?;
    let right: u32 = r.ue()?;
    let top: u32 = r.ue()?;
    let bottom: u32 = r.ue()?;
    Ok((left, right, top, bottom))
}

/// Emits the four conformance window offsets, the inverse of [`parse_conf_win`].
pub(crate) fn write_conf_win(w: &mut BitWriter, x: &(u32, u32, u32, u32)) -> (res: Result<(), BitstreamError>)
    ensures
        write_is(conf_win_can(*x), put_conf_win(old(w)@, *x), res, final(w)@),
{
    proof {
        reveal(put_conf_win);
        reveal(conf_win_can);
    }
    w.write_ue(x.0)?;
    w.write_ue(x.1)?;
    w.write_ue(x.2)?;
    w.write_ue(x.3)?;
    Ok(())
}

/// Writing the four conformance window offsets gives back the bits it was read
/// from.
pub broadcast proof fn law_put_conf_win_at(s: Seq<bool>, p: nat)
    ensures
        #[trigger] conf_win_at(s, p) matches Ok((x, q)) ==> {
            &&& conf_win_ok(x)
            &&& conf_win_can(x)
            &&& within(s, q) ==> within(s, p) && put_conf_win(upto(s, p), x) == upto(s, q)
        },
{
    broadcast use crate::bits::group_write_read;

    reveal(conf_win_at);
    reveal(put_conf_win);
    reveal(conf_win_ok);
    reveal(conf_win_can);
}

/// Reading gives back the four conformance window offsets as it was written.
pub broadcast proof fn law_pre_put_conf_win(a: Seq<bool>, x: (u32, u32, u32, u32), s: Seq<bool>)
    requires
        #[trigger] pre(put_conf_win(a, x), s),
        conf_win_ok(x),
    ensures
        pre(a, s),
        conf_win_can(x),
        conf_win_at(s, a.len()) == Ok::<((u32, u32, u32, u32), nat), Fault>((x, put_conf_win(a, x).len())),
{
    broadcast use crate::bits::group_read_written;

    reveal(conf_win_at);
    reveal(put_conf_win);
    reveal(conf_win_ok);
    reveal(conf_win_can);
}

/// The layout of the four conformance window offsets: reading at `p` gives `x`
/// and ends at `q` if and only if these elements stand there in this order.
pub proof fn law_layout_conf_win(s: Seq<bool>, p: nat, x: (u32, u32, u32, u32), q: nat)
    ensures
        conf_win_at(s, p) == Ok::<((u32, u32, u32, u32), nat), Fault>((x, q)) <==> cursor(s, p)
            .ue(x.0)
            .ue(x.1)
            .ue(x.2)
            .ue(x.3)
            .ends(q),
{
    reveal(conf_win_at);
}

/// Reading the four conformance window offsets fails only with an error of this
/// class.
pub broadcast proof fn law_faults_conf_win(s: Seq<bool>, p: nat)
    ensures
        #[trigger] conf_win_at(s, p) matches Err(f) ==> f == Fault::Invalid,
{
    broadcast use crate::bits::law_faults_ue;

    reveal(conf_win_at);
}

/// What the writer accepts reads back: the four conformance window offsets,
/// where each field fits its width and what is not coded has the value that is
/// taken for it.
pub proof fn law_reads_conf_win(a: Seq<bool>, x: (u32, u32, u32, u32), s: Seq<bool>)
    requires
        conf_win_can(x),
        pre(put_conf_win(a, x), s),
    ensures
        conf_win_at(s, a.len()) == Ok::<((u32, u32, u32, u32), nat), Fault>((x, put_conf_win(a, x).len())),
{
    assert(conf_win_ok(x)) by {
        broadcast use crate::bits::law_fits_small;

        reveal(conf_win_ok);
        reveal(conf_win_can);
    }
    law_pre_put_conf_win(a, x, s);
}

/// Reads ref_pic_list_struct(), behind the items before it.
pub open spec fn ref_pic_lists_item(
    s: Seq<bool>,
    ctx: VvcRplsContext,
    poc_lsb_bits: u32,
) -> spec_fn(Seq<VvcRefPicListStructModel>, nat) -> Read<VvcRefPicListStructModel> {
    |done: Seq<VvcRefPicListStructModel>, q: nat| ref_pic_list_at(s, q, ctx, poc_lsb_bits)
}

/// Writes ref_pic_list_struct(), behind the items before it.
pub open spec fn put_ref_pic_lists_item(
    ctx: VvcRplsContext,
    poc_lsb_bits: u32,
) -> spec_fn(Seq<bool>, Seq<VvcRefPicListStructModel>, VvcRefPicListStructModel) -> Seq<bool> {
    |a: Seq<bool>, done: Seq<VvcRefPicListStructModel>, x: VvcRefPicListStructModel| put_ref_pic_list(
        a,
        x,
        ctx,
        poc_lsb_bits,
    )
}

/// Whether ref_pic_list_struct() may follow the items before it.
pub open spec fn ref_pic_lists_item_ok(
    ctx: VvcRplsContext,
    poc_lsb_bits: u32,
) -> spec_fn(Seq<VvcRefPicListStructModel>, VvcRefPicListStructModel) -> bool {
    |done: Seq<VvcRefPicListStructModel>, x: VvcRefPicListStructModel| ref_pic_list_ok(x, ctx, poc_lsb_bits)
        && ref_pic_list_can(x, ctx, poc_lsb_bits)
}

/// `n` items at position `p`, each ref_pic_list_struct().
#[verifier::opaque]
pub open spec fn ref_pic_lists_at(
    s: Seq<bool>,
    p: nat,
    ctx: VvcRplsContext,
    poc_lsb_bits: u32,
    n: u64,
) -> Read<Seq<VvcRefPicListStructModel>> {
    rep_at(ref_pic_lists_item(s, ctx, poc_lsb_bits), p, n as nat)
}

/// The bits `a` followed by the items.
#[verifier::opaque]
pub open spec fn put_ref_pic_lists(
    a: Seq<bool>,
    xs: Seq<VvcRefPicListStructModel>,
    ctx: VvcRplsContext,
    poc_lsb_bits: u32,
    n: u64,
) -> Seq<bool> {
    put_rep(put_ref_pic_lists_item(ctx, poc_lsb_bits), a, xs)
}

/// `n` items that reading can give.
#[verifier::opaque]
pub open spec fn ref_pic_lists_ok(
    xs: Seq<VvcRefPicListStructModel>,
    ctx: VvcRplsContext,
    poc_lsb_bits: u32,
    n: u64,
) -> bool {
    xs.len() == n
        && forall|i: int| 0 <= i < xs.len()
        ==> ref_pic_list_ok(#[trigger] xs[i], ctx, poc_lsb_bits)
        && ref_pic_list_can(xs[i], ctx, poc_lsb_bits)
}

/// `n` items that the writer accepts.
#[verifier::opaque]
pub open spec fn ref_pic_lists_can(
    xs: Seq<VvcRefPicListStructModel>,
    ctx: VvcRplsContext,
    poc_lsb_bits: u32,
    n: u64,
) -> bool {
    xs.len() == n
        && forall|i: int| 0 <= i < xs.len()
        ==> ref_pic_list_can(#[trigger] xs[i], ctx, poc_lsb_bits)
}

/// Parses `n` items, each ref_pic_list_struct().
fn parse_ref_pic_lists(
    r: &mut BitReader<'_>,
    ctx: &VvcRplsContext,
    poc_lsb_bits: u32,
    n: u64,
) -> (res: Result<Vec<VvcRefPicListStruct>, BitstreamError>)
    ensures
        read_seq_is(
            ref_pic_lists_at(old(r).bits(), old(r).pos(), *ctx, poc_lsb_bits, n),
            res,
            *old(r),
            *final(r),
        ),
        res matches Ok(v) ==> v@.len() == n,
{
    let ghost s = r.bits();
    let ghost p = r.pos();
    let ghost reads = ref_pic_lists_item(s, *ctx, poc_lsb_bits);
    let mut xs: Vec<VvcRefPicListStruct> = Vec::new();
    let mut i: u64 = 0;
    proof {
        reveal(ref_pic_lists_at);
        assert(seq_view(xs@) =~= Seq::empty());
    }
    while i < n
        invariant
            i <= n,
            xs@.len() == i,
            reads == ref_pic_lists_item(s, *ctx, poc_lsb_bits),
            s == r.bits(),
            s == old(r).bits(),
            p == old(r).pos(),
            r.bytes() == old(r).bytes(),
            rep_at(reads, p, i as nat) == Ok::<(
                Seq<VvcRefPicListStructModel>,
                nat,
            ), Fault>((seq_view(xs@), r.pos())),
        decreases n - i,
    {
        match parse_ref_pic_list_struct(r, ctx, poc_lsb_bits) {
            Ok(x) => {
                proof {
                lemma_seq_view_push(xs@, x);
            }
            xs.push(x);
            },
            Err(e) => {
                proof {
                    reveal(ref_pic_lists_at);
                    lemma_rep_err(reads, p, (i + 1) as nat, n as nat);
                }
                return Err(e);
            },
        }
        i = i + 1;
    }
    Ok(xs)
}

/// Emits `n` items, each ref_pic_list_struct().
fn write_ref_pic_lists(
    w: &mut BitWriter,
    xs: &Vec<VvcRefPicListStruct>,
    ctx: &VvcRplsContext,
    poc_lsb_bits: u32,
    n: u64,
) -> (res: Result<(), BitstreamError>)
    ensures
        write_is(
            ref_pic_lists_can(seq_view(xs@), *ctx, poc_lsb_bits, n),
            put_ref_pic_lists(old(w)@, seq_view(xs@), *ctx, poc_lsb_bits, n),
            res,
            final(w)@,
        ),
        res is Ok ==> xs@.len() == n,
{
    let ghost before = w@;
    let ghost puts = put_ref_pic_lists_item(*ctx, poc_lsb_bits);
    let ghost ys = seq_view(xs@);
    proof {
        reveal(put_ref_pic_lists);
        reveal(ref_pic_lists_can);
        assert(ys.take(0) =~= Seq::empty());
    }
    if xs.len() as u64 != n {
        return Err(BitstreamError::invalid("unexpected number of entries"));
    }
    let mut i: usize = 0;
    while i < xs.len()
        invariant
            i <= xs@.len(),
            xs@.len() == n,
            ys == seq_view(xs@),
            ys.len() == xs@.len(),
            before == old(w)@,
            puts == put_ref_pic_lists_item(*ctx, poc_lsb_bits),
            w@ == put_rep(puts, before, ys.take(i as int)),
            forall|j: int| 0 <= j < i ==> ref_pic_list_can(#[trigger] ys[j], *ctx, poc_lsb_bits),
        ensures
            i == xs@.len(),
        decreases xs@.len() - i,
    {
        proof {
            assert(ys.take(i + 1).drop_last() =~= ys.take(i as int));
            assert(ys[i as int] == xs@[i as int]@);
        }
        match write_ref_pic_list_struct(w, &xs[i], ctx, poc_lsb_bits) {
            Ok(()) => {},
            Err(e) => {
                proof {
                    reveal(ref_pic_lists_can);
                }
                return Err(e);
            },
        }
        i = i + 1;
    }
    proof {
        assert(ys.take(i as int) =~= ys);
    }
    Ok(())
}

/// Writing what was read gives back the bits that were read.
pub broadcast proof fn law_put_ref_pic_lists_at(
    s: Seq<bool>,
    p: nat,
    ctx: VvcRplsContext,
    poc_lsb_bits: u32,
    n: u64,
)
    ensures
        #[trigger] ref_pic_lists_at(s, p, ctx, poc_lsb_bits, n) matches Ok((xs, q)) ==> {
            &&& xs.len() == n
            &&& ref_pic_lists_ok(xs, ctx, poc_lsb_bits, n)
            &&& ref_pic_lists_can(xs, ctx, poc_lsb_bits, n)
            &&& within(s, q)
                ==> within(s, p)
                && put_ref_pic_lists(upto(s, p), xs, ctx, poc_lsb_bits, n) == upto(s, q)
        },
{
    broadcast use law_put_ref_pic_list_at;

    reveal(ref_pic_lists_at);
    reveal(put_ref_pic_lists);
    reveal(ref_pic_lists_ok);
    reveal(ref_pic_lists_can);
    let ok = ref_pic_lists_item_ok(ctx, poc_lsb_bits);
    law_put_rep_at(
        s,
        ref_pic_lists_item(s, ctx, poc_lsb_bits),
        put_ref_pic_lists_item(ctx, poc_lsb_bits),
        ok,
        p,
        n as nat,
    );
    if let Ok((xs, q)) = ref_pic_lists_at(s, p, ctx, poc_lsb_bits, n) {
        assert forall|i: int| 0 <= i < xs.len() implies ok(xs.take(i), #[trigger] xs[i]) by {}
    }
}

/// What was written reads back as the items that were written.
pub broadcast proof fn law_pre_put_ref_pic_lists(
    a: Seq<bool>,
    xs: Seq<VvcRefPicListStructModel>,
    ctx: VvcRplsContext,
    poc_lsb_bits: u32,
    n: u64,
    s: Seq<bool>,
)
    requires
        #[trigger] pre(put_ref_pic_lists(a, xs, ctx, poc_lsb_bits, n), s),
        ref_pic_lists_ok(xs, ctx, poc_lsb_bits, n),
    ensures
        pre(a, s),
        ref_pic_lists_can(xs, ctx, poc_lsb_bits, n),
        ref_pic_lists_at(s, a.len(), ctx, poc_lsb_bits, n) == Ok::<(Seq<VvcRefPicListStructModel>, nat), Fault>(
            (xs, put_ref_pic_lists(a, xs, ctx, poc_lsb_bits, n).len()),
        ),
{
    broadcast use law_pre_put_ref_pic_list;

    reveal(ref_pic_lists_at);
    reveal(put_ref_pic_lists);
    reveal(ref_pic_lists_ok);
    reveal(ref_pic_lists_can);
    law_rep_at_put(
        s,
        ref_pic_lists_item(s, ctx, poc_lsb_bits),
        put_ref_pic_lists_item(ctx, poc_lsb_bits),
        ref_pic_lists_item_ok(ctx, poc_lsb_bits),
        a,
        xs,
    );
}

/// `n` items stand one behind the other: `n - 1` items, and then
/// ref_pic_list_struct().
pub proof fn law_layout_ref_pic_lists(
    s: Seq<bool>,
    p: nat,
    ctx: VvcRplsContext,
    poc_lsb_bits: u32,
    n: u64,
    xs: Seq<VvcRefPicListStructModel>,
    q: nat,
)
    ensures
        ref_pic_lists_at(s, p, ctx, poc_lsb_bits, n) == Ok::<(Seq<VvcRefPicListStructModel>, nat), Fault>((xs, q)) <==> if n == 0 {
            xs.len() == 0 && q == p
        } else {
            &&& xs.len() == n
            &&& cursor(s, p)
                .part(|p: nat| ref_pic_lists_at(s, p, ctx, poc_lsb_bits, (n - 1) as u64), xs.drop_last())
                .part(|p: nat| ref_pic_list_at(s, p, ctx, poc_lsb_bits), xs.last())
                .ends(q)
        },
{
    reveal(ref_pic_lists_at);
    lemma_rep_step(ref_pic_lists_item(s, ctx, poc_lsb_bits), p, n as nat);
    if xs.len() == 0 {
        assert(xs =~= Seq::empty());
    } else {
        assert(xs =~= xs.drop_last().push(xs.last()));
    }
    if n > 0 {
        if let Ok((done, r)) = rep_at(ref_pic_lists_item(s, ctx, poc_lsb_bits), p, (n - 1) as nat) {
            if let Ok((y, z)) = ref_pic_lists_item(s, ctx, poc_lsb_bits)(done, r) {
                assert(done.push(y).drop_last() =~= done);
            }
        }
    }
}

/// What the writer accepts as `n` items reads back, where each of them is one that
/// reading can give.
pub proof fn law_reads_ref_pic_lists(
    a: Seq<bool>,
    xs: Seq<VvcRefPicListStructModel>,
    ctx: VvcRplsContext,
    poc_lsb_bits: u32,
    n: u64,
    s: Seq<bool>,
)
    requires
        ref_pic_lists_can(xs, ctx, poc_lsb_bits, n),
        forall|i: int| 0 <= i < xs.len() ==> ref_pic_list_ok(#[trigger] xs[i], ctx, poc_lsb_bits),
        pre(put_ref_pic_lists(a, xs, ctx, poc_lsb_bits, n), s),
    ensures
        xs.len() == n,
        ref_pic_lists_at(s, a.len(), ctx, poc_lsb_bits, n) == Ok::<(Seq<VvcRefPicListStructModel>, nat), Fault>(
            (xs, put_ref_pic_lists(a, xs, ctx, poc_lsb_bits, n).len()),
        ),
{
    reveal(ref_pic_lists_can);
    assert(ref_pic_lists_ok(xs, ctx, poc_lsb_bits, n)) by {
        reveal(ref_pic_lists_ok);
    }
    law_pre_put_ref_pic_lists(a, xs, ctx, poc_lsb_bits, n, s);
}

/// Reading the items fails only with an error of this class.
pub broadcast proof fn law_faults_ref_pic_lists(
    s: Seq<bool>,
    p: nat,
    ctx: VvcRplsContext,
    poc_lsb_bits: u32,
    n: u64,
)
    ensures
        #[trigger] ref_pic_lists_at(s, p, ctx, poc_lsb_bits, n) matches Err(f) ==> f == Fault::Invalid,
{
    broadcast use law_faults_ref_pic_list;

    reveal(ref_pic_lists_at);
    let f = ref_pic_lists_item(s, ctx, poc_lsb_bits);
    assert forall|done: Seq<VvcRefPicListStructModel>, q: nat| (#[trigger] f(done, q)) matches Err(e)
        ==> e == Fault::Invalid by {}
    lemma_rep_faults(f, p, n as nat, |f: Fault| f == Fault::Invalid);
}

/// A list of ref_pic_list_struct() templates at position `p`, empty if it is not
/// coded.
#[verifier::opaque]
pub open spec fn rpl_list_at(
    s: Seq<bool>,
    p: nat,
    coded: bool,
    ctx: VvcRplsContext,
    poc_lsb_bits: u32,
) -> Read<Seq<VvcRefPicListStructModel>> {
    if coded {
        match ue_at(s, p) {
            Err(f) => Err(f),
            Ok((n, p)) => if n > 64 {
                Err(Fault::Invalid)
            } else {
                ref_pic_lists_at(s, p, ctx, poc_lsb_bits, n as u64)
            },
        }
    } else {
        Ok((Seq::empty(), p))
    }
}

/// Writes the list.
#[verifier::opaque]
pub open spec fn put_rpl_list(
    a: Seq<bool>,
    x: Seq<VvcRefPicListStructModel>,
    coded: bool,
    ctx: VvcRplsContext,
    poc_lsb_bits: u32,
) -> Seq<bool> {
    if coded {
        put_ref_pic_lists(put_ue(a, x.len()), x, ctx, poc_lsb_bits, x.len() as u64)
    } else {
        a
    }
}

/// A list that reading can give.
#[verifier::opaque]
pub open spec fn rpl_list_ok(
    x: Seq<VvcRefPicListStructModel>,
    coded: bool,
    ctx: VvcRplsContext,
    poc_lsb_bits: u32,
) -> bool {
    if coded {
        x.len() <= 64 && ref_pic_lists_ok(x, ctx, poc_lsb_bits, x.len() as u64)
    } else {
        x.len() == 0
    }
}

/// A list that the writer accepts.
#[verifier::opaque]
pub open spec fn rpl_list_can(
    x: Seq<VvcRefPicListStructModel>,
    coded: bool,
    ctx: VvcRplsContext,
    poc_lsb_bits: u32,
) -> bool {
    if coded {
        x.len() <= 64 && ref_pic_lists_can(x, ctx, poc_lsb_bits, x.len() as u64)
    } else {
        x.len() == 0
    }
}

/// Parses the list.
fn parse_rpl_list(
    r: &mut BitReader<'_>,
    coded: bool,
    ctx: &VvcRplsContext,
    poc_lsb_bits: u32,
    list: u8,
) -> (res: Result<Vec<VvcRefPicListStruct>, BitstreamError>)
    ensures
        read_seq_is(
            rpl_list_at(old(r).bits(), old(r).pos(), coded, *ctx, poc_lsb_bits),
            res,
            *old(r),
            *final(r),
        ),
{
    proof {
        reveal(rpl_list_at);
    }
    if !coded {
        let none: Vec<VvcRefPicListStruct> = Vec::new();
        assert(seq_view(none@) =~= Seq::empty());
        return Ok(none);
    }
    let n: u32 = r.ue()?;
    if n > 64 {
        return Err(
            Message::new("sps_num_ref_pic_lists[")
                .num(list as i128)
                .with("] = ")
                .num(n as i128)
                .with(" > 64 (7.4.3.4)")
                .invalid(),
        );
    }
    parse_ref_pic_lists(r, ctx, poc_lsb_bits, n as u64)
}

/// Emits the list.
fn write_rpl_list(
    w: &mut BitWriter,
    x: &Vec<VvcRefPicListStruct>,
    coded: bool,
    ctx: &VvcRplsContext,
    poc_lsb_bits: u32,
) -> (res: Result<(), BitstreamError>)
    ensures
        write_is(
            rpl_list_can(seq_view(x@), coded, *ctx, poc_lsb_bits),
            put_rpl_list(old(w)@, seq_view(x@), coded, *ctx, poc_lsb_bits),
            res,
            final(w)@,
        ),
{
    proof {
        reveal(put_rpl_list);
        reveal(rpl_list_can);
    }
    if !coded {
        if x.len() != 0 {
            return Err(
                BitstreamError::invalid(
                    "sps_ref_pic_lists[1] must be empty when sps_rpl1_same_as_rpl0_flag (7.3.2.4)",
                ),
            );
        }
        return Ok(());
    }
    if x.len() > 64 {
        return Err(BitstreamError::invalid("sps_num_ref_pic_lists > 64 (7.4.3.4)"));
    }
    w.write_ue(x.len() as u32)?;
    write_ref_pic_lists(w, x, ctx, poc_lsb_bits, x.len() as u64)
}

/// Writing what was read gives back the bits that were read.
pub broadcast proof fn law_put_rpl_list_at(
    s: Seq<bool>,
    p: nat,
    coded: bool,
    ctx: VvcRplsContext,
    poc_lsb_bits: u32,
)
    ensures
        #[trigger] rpl_list_at(s, p, coded, ctx, poc_lsb_bits) matches Ok((x, q)) ==> {
            &&& rpl_list_ok(x, coded, ctx, poc_lsb_bits)
            &&& rpl_list_can(x, coded, ctx, poc_lsb_bits)
            &&& within(s, q) ==> within(s, p) && put_rpl_list(
                upto(s, p),
                x,
                coded,
                ctx,
                poc_lsb_bits,
            ) == upto(s, q)
        },
{
    broadcast use {crate::bits::group_write_read, law_put_ref_pic_lists_at};

    reveal(rpl_list_at);
    reveal(put_rpl_list);
    reveal(rpl_list_ok);
    reveal(rpl_list_can);
}

/// What was written reads back as the list that was written.
pub broadcast proof fn law_pre_put_rpl_list(
    a: Seq<bool>,
    x: Seq<VvcRefPicListStructModel>,
    coded: bool,
    ctx: VvcRplsContext,
    poc_lsb_bits: u32,
    s: Seq<bool>,
)
    requires
        #[trigger] pre(put_rpl_list(a, x, coded, ctx, poc_lsb_bits), s),
        rpl_list_ok(x, coded, ctx, poc_lsb_bits),
    ensures
        pre(a, s),
        rpl_list_can(x, coded, ctx, poc_lsb_bits),
        rpl_list_at(s, a.len(), coded, ctx, poc_lsb_bits) == Ok::<
            (Seq<VvcRefPicListStructModel>, nat),
            Fault,
        >((x, put_rpl_list(a, x, coded, ctx, poc_lsb_bits).len())),
{
    broadcast use {crate::bits::group_read_written, law_pre_put_ref_pic_lists};

    reveal(rpl_list_at);
    reveal(put_rpl_list);
    reveal(rpl_list_ok);
    reveal(rpl_list_can);
    if !coded {
        assert(x =~= Seq::empty());
    }
}

// ─────────────────────────── Groups of fields ────────────────────────────────

/// The leading fields of an SPS.
#[derive(Clone, Copy)]
pub struct SpsIds {
    pub sps_seq_parameter_set_id: u8,
    pub sps_video_parameter_set_id: u8,
    pub sps_max_sublayers_minus1: u8,
    pub sps_chroma_format_idc: u8,
    pub sps_log2_ctu_size_minus5: u8,
}

/// The leading fields of an SPS at position `p`.
#[verifier::opaque]
pub open spec fn sps_ids_at(s: Seq<bool>, p: nat) -> Read<SpsIds> {
    let sps_seq_parameter_set_id = u8_at(s, p, 4);
    let p = adv(p, 4);
    let sps_video_parameter_set_id = u8_at(s, p, 4);
    let p = adv(p, 4);
    let sps_max_sublayers_minus1 = u8_at(s, p, 3);
    let p = adv(p, 3);
    let sps_chroma_format_idc = u8_at(s, p, 2);
    let p = adv(p, 2);
    let sps_log2_ctu_size_minus5 = u8_at(s, p, 2);
    let p = adv(p, 2);
    if sps_max_sublayers_minus1 > 6 { Err(Fault::Invalid) } else {
    if sps_log2_ctu_size_minus5 > 2 { Err(Fault::Invalid) } else {
    Ok((
        SpsIds {
            sps_seq_parameter_set_id,
            sps_video_parameter_set_id,
            sps_max_sublayers_minus1,
            sps_chroma_format_idc,
            sps_log2_ctu_size_minus5,
        },
        p,
    ))
    }}
}

/// The bits `a` followed by the leading fields of an SPS.
#[verifier::opaque]
pub open spec fn put_sps_ids(a: Seq<bool>, x: SpsIds) -> Seq<bool> {
    let a = put_u(a, x.sps_seq_parameter_set_id as nat, 4);
    let a = put_u(a, x.sps_video_parameter_set_id as nat, 4);
    let a = put_u(a, x.sps_max_sublayers_minus1 as nat, 3);
    let a = put_u(a, x.sps_chroma_format_idc as nat, 2);
    let a = put_u(a, x.sps_log2_ctu_size_minus5 as nat, 2);
    a
}

/// The values of the leading fields of an SPS that reading can give.
#[verifier::opaque]
pub open spec fn sps_ids_ok(x: SpsIds) -> bool {
    &&& x.sps_max_sublayers_minus1 <= 6
    &&& x.sps_log2_ctu_size_minus5 <= 2
    &&& fits(x.sps_seq_parameter_set_id as nat, 4)
    &&& fits(x.sps_video_parameter_set_id as nat, 4)
    &&& fits(x.sps_max_sublayers_minus1 as nat, 3)
    &&& fits(x.sps_chroma_format_idc as nat, 2)
    &&& fits(x.sps_log2_ctu_size_minus5 as nat, 2)
}

/// The values of the leading fields of an SPS that the writer accepts.
#[verifier::opaque]
pub open spec fn sps_ids_can(x: SpsIds) -> bool {
    &&& x.sps_seq_parameter_set_id <= 15 && x.sps_video_parameter_set_id <= 15
    &&& x.sps_max_sublayers_minus1 <= 6
    &&& x.sps_chroma_format_idc <= 3 && x.sps_log2_ctu_size_minus5 <= 2
}

/// Parses the leading fields of an SPS.
fn parse_sps_ids(r: &mut BitReader<'_>) -> (res: Result<SpsIds, BitstreamError>)
    ensures
        read_is(sps_ids_at(old(r).bits(), old(r).pos()), res, *old(r), *final(r)),
        res matches Ok(x) ==> x.sps_log2_ctu_size_minus5 <= 2,
{
    proof {
        reveal(sps_ids_at);
    }
    let sps_seq_parameter_set_id: u8 = r.u8(4);
    let sps_video_parameter_set_id: u8 = r.u8(4);
    let sps_max_sublayers_minus1: u8 = r.u8(3);
    let sps_chroma_format_idc: u8 = r.u8(2);
    let sps_log2_ctu_size_minus5: u8 = r.u8(2);
    if sps_max_sublayers_minus1 > 6 {
        return Err(BitstreamError::invalid("sps_max_sublayers_minus1 = 7 is reserved (7.4.3.4)"));
    }
    if sps_log2_ctu_size_minus5 > 2 {
        return Err(
            Message::new("sps_log2_ctu_size_minus5 = ")
                .num(sps_log2_ctu_size_minus5 as i128)
                .with(" > 2 (spec range 0..=2)")
                .invalid(),
        );
    }
    Ok(
        SpsIds {
            sps_seq_parameter_set_id,
            sps_video_parameter_set_id,
            sps_max_sublayers_minus1,
            sps_chroma_format_idc,
            sps_log2_ctu_size_minus5,
        },
    )
}

/// Emits the leading fields of an SPS, the inverse of [`parse_sps_ids`].
fn write_sps_ids(w: &mut BitWriter, x: &SpsIds) -> (res: Result<(), BitstreamError>)
    ensures
        write_is(sps_ids_can(*x), put_sps_ids(old(w)@, *x), res, final(w)@),
        res is Ok ==> x.sps_log2_ctu_size_minus5 <= 2,
{
    proof {
        reveal(put_sps_ids);
        reveal(sps_ids_can);
    }
    if !(x.sps_seq_parameter_set_id <= 15 && x.sps_video_parameter_set_id <= 15) {
        return Err(BitstreamError::invalid("SPS/VPS id does not fit u(4)"));
    }
    if x.sps_max_sublayers_minus1 > 6 {
        return Err(BitstreamError::invalid("sps_max_sublayers_minus1 = 7 is reserved (7.4.3.4)"));
    }
    if !(x.sps_chroma_format_idc <= 3 && x.sps_log2_ctu_size_minus5 <= 2) {
        return Err(BitstreamError::invalid("sps_chroma_format_idc / sps_log2_ctu_size_minus5 out of range"));
    }
    w.write_bits(x.sps_seq_parameter_set_id as u32, 4);
    w.write_bits(x.sps_video_parameter_set_id as u32, 4);
    w.write_bits(x.sps_max_sublayers_minus1 as u32, 3);
    w.write_bits(x.sps_chroma_format_idc as u32, 2);
    w.write_bits(x.sps_log2_ctu_size_minus5 as u32, 2);
    Ok(())
}

/// Writing the leading fields of an SPS gives back the bits it was read from.
pub broadcast proof fn law_put_sps_ids_at(s: Seq<bool>, p: nat)
    ensures
        #[trigger] sps_ids_at(s, p) matches Ok((x, q)) ==> {
            &&& sps_ids_ok(x)
            &&& sps_ids_can(x)
            &&& within(s, q) ==> within(s, p) && put_sps_ids(upto(s, p), x) == upto(s, q)
        },
{
    broadcast use crate::bits::group_write_read;

    reveal(sps_ids_at);
    reveal(put_sps_ids);
    reveal(sps_ids_ok);
    reveal(sps_ids_can);
}

/// Reading gives back the leading fields of an SPS as it was written.
pub broadcast proof fn law_pre_put_sps_ids(a: Seq<bool>, x: SpsIds, s: Seq<bool>)
    requires
        #[trigger] pre(put_sps_ids(a, x), s),
        sps_ids_ok(x),
    ensures
        pre(a, s),
        sps_ids_can(x),
        sps_ids_at(s, a.len()) == Ok::<(SpsIds, nat), Fault>((x, put_sps_ids(a, x).len())),
{
    broadcast use crate::bits::group_read_written;

    reveal(sps_ids_at);
    reveal(put_sps_ids);
    reveal(sps_ids_ok);
    reveal(sps_ids_can);
}

/// The layout of the leading fields of an SPS: reading at `p` gives `x` and
/// ends at `q` if and only if these elements stand there in this order, and the
/// values are allowed.
pub proof fn law_layout_sps_ids(s: Seq<bool>, p: nat, x: SpsIds, q: nat)
    ensures
        sps_ids_at(s, p) == Ok::<(SpsIds, nat), Fault>((x, q)) <==> ({
            &&& cursor(s, p)
                .u8(4, x.sps_seq_parameter_set_id)
                .u8(4, x.sps_video_parameter_set_id)
                .u8(3, x.sps_max_sublayers_minus1)
                .u8(2, x.sps_chroma_format_idc)
                .u8(2, x.sps_log2_ctu_size_minus5)
                .ends(q)
            &&& x.sps_max_sublayers_minus1 <= 6
            &&& x.sps_log2_ctu_size_minus5 <= 2
        }),
{
    reveal(sps_ids_at);
}

/// Reading the leading fields of an SPS fails only with an error of this class.
pub broadcast proof fn law_faults_sps_ids(s: Seq<bool>, p: nat)
    ensures
        #[trigger] sps_ids_at(s, p) matches Err(f) ==> f == Fault::Invalid,
{
    reveal(sps_ids_at);
}

/// What the writer accepts reads back: the leading fields of an SPS, where each
/// field fits its width and what is not coded has the value that is taken for
/// it.
pub proof fn law_reads_sps_ids(a: Seq<bool>, x: SpsIds, s: Seq<bool>)
    requires
        sps_ids_can(x),
        pre(put_sps_ids(a, x), s),
    ensures
        sps_ids_at(s, a.len()) == Ok::<(SpsIds, nat), Fault>((x, put_sps_ids(a, x).len())),
{
    assert(sps_ids_ok(x)) by {
        broadcast use crate::bits::law_fits_small;

        reveal(sps_ids_ok);
        reveal(sps_ids_can);
    }
    law_pre_put_sps_ids(a, x, s);
}

/// The picture size fields of an SPS.
#[derive(Clone, Copy)]
pub struct SpsSize {
    pub sps_gdr_enabled_flag: u8,
    pub sps_ref_pic_resampling_enabled_flag: u8,
    pub sps_res_change_in_clvs_allowed_flag: u8,
    pub sps_pic_width_max_in_luma_samples: u32,
    pub sps_pic_height_max_in_luma_samples: u32,
    pub sps_conf_win_offsets: Option<(u32, u32, u32, u32)>,
}

/// The picture size fields at position `p`.
#[verifier::opaque]
pub open spec fn sps_size_at(s: Seq<bool>, p: nat) -> Read<SpsSize> {
    let sps_gdr_enabled_flag = u8_at(s, p, 1);
    let p = adv(p, 1);
    let sps_ref_pic_resampling_enabled_flag = u8_at(s, p, 1);
    let p = adv(p, 1);
    let sps_res_change_in_clvs_allowed_flag = u8_if(s, p, 1, sps_ref_pic_resampling_enabled_flag != 0, 0);
    let p = adv_if(p, 1, sps_ref_pic_resampling_enabled_flag != 0);
    match ue_at(s, p) { Err(f) => Err(f), Ok((sps_pic_width_max_in_luma_samples, p)) => {
    match ue_at(s, p) { Err(f) => Err(f), Ok((sps_pic_height_max_in_luma_samples, p)) => {
    if !(sps_pic_width_max_in_luma_samples != 0 && sps_pic_height_max_in_luma_samples != 0) {
        Err(Fault::Invalid)
    } else {
    let present = flag_at(s, p);
    let p = adv(p, 1);
    match (if present { read_some(conf_win_at(s, p)) } else { Ok((None, p)) })
    { Err(f) => Err(f), Ok((sps_conf_win_offsets, p)) => {
    Ok((
        SpsSize {
            sps_gdr_enabled_flag,
            sps_ref_pic_resampling_enabled_flag,
            sps_res_change_in_clvs_allowed_flag,
            sps_pic_width_max_in_luma_samples,
            sps_pic_height_max_in_luma_samples,
            sps_conf_win_offsets,
        },
        p,
    ))
    }}}}}}}
}

/// The bits `a` followed by the picture size fields.
#[verifier::opaque]
pub open spec fn put_sps_size(a: Seq<bool>, x: SpsSize) -> Seq<bool> {
    let a = put_bit(a, x.sps_gdr_enabled_flag as nat);
    let a = put_bit(a, x.sps_ref_pic_resampling_enabled_flag as nat);
    let a = put_bit_if(
        a,
        x.sps_res_change_in_clvs_allowed_flag as nat,
        x.sps_ref_pic_resampling_enabled_flag != 0,
    );
    let a = put_ue(a, x.sps_pic_width_max_in_luma_samples as nat);
    let a = put_ue(a, x.sps_pic_height_max_in_luma_samples as nat);
    let a = put_flag(a, x.sps_conf_win_offsets is Some);
    let a = match x.sps_conf_win_offsets { Some(y) => put_conf_win(a, y), None => a };
    a
}

/// The values of the picture size fields that reading can give.
#[verifier::opaque]
pub open spec fn sps_size_ok(x: SpsSize) -> bool {
    &&& fits(x.sps_gdr_enabled_flag as nat, 1)
    &&& fits(x.sps_ref_pic_resampling_enabled_flag as nat, 1)
    &&& if x.sps_ref_pic_resampling_enabled_flag != 0 {
        fits(x.sps_res_change_in_clvs_allowed_flag as nat, 1)
    } else {
        x.sps_res_change_in_clvs_allowed_flag == 0
    }
    &&& ue_fits(x.sps_pic_width_max_in_luma_samples as nat)
    &&& ue_fits(x.sps_pic_height_max_in_luma_samples as nat)
    &&& x.sps_pic_width_max_in_luma_samples != 0 && x.sps_pic_height_max_in_luma_samples != 0
    &&& x.sps_conf_win_offsets matches Some(y) ==> conf_win_ok(y)
}

/// The values of the picture size fields that the writer accepts.
#[verifier::opaque]
pub open spec fn sps_size_can(x: SpsSize) -> bool {
    &&& ue_fits(x.sps_pic_width_max_in_luma_samples as nat)
    &&& ue_fits(x.sps_pic_height_max_in_luma_samples as nat)
    &&& x.sps_pic_width_max_in_luma_samples != 0 && x.sps_pic_height_max_in_luma_samples != 0
    &&& x.sps_conf_win_offsets matches Some(y) ==> conf_win_can(y)
}

/// Parses the picture size fields.
fn parse_sps_size(r: &mut BitReader<'_>) -> (res: Result<SpsSize, BitstreamError>)
    ensures
        read_is(sps_size_at(old(r).bits(), old(r).pos()), res, *old(r), *final(r)),
{
    proof {
        reveal(sps_size_at);
    }
    let sps_gdr_enabled_flag: u8 = r.bit();
    let sps_ref_pic_resampling_enabled_flag: u8 = r.bit();
    let sps_res_change_in_clvs_allowed_flag: u8 = r.bit_if(sps_ref_pic_resampling_enabled_flag != 0, 0);
    let sps_pic_width_max_in_luma_samples: u32 = r.ue()?;
    let sps_pic_height_max_in_luma_samples: u32 = r.ue()?;
    if !(sps_pic_width_max_in_luma_samples != 0 && sps_pic_height_max_in_luma_samples != 0) {
        return Err(BitstreamError::invalid("sps_pic_width/height_max_in_luma_samples must be > 0 (7.4.3.4)"));
    }
    let present: bool = r.flag();
    let sps_conf_win_offsets = if present { Some(parse_conf_win(r)?) } else { None };
    Ok(
        SpsSize {
            sps_gdr_enabled_flag,
            sps_ref_pic_resampling_enabled_flag,
            sps_res_change_in_clvs_allowed_flag,
            sps_pic_width_max_in_luma_samples,
            sps_pic_height_max_in_luma_samples,
            sps_conf_win_offsets,
        },
    )
}

/// Emits the picture size fields, the inverse of [`parse_sps_size`].
fn write_sps_size(w: &mut BitWriter, x: &SpsSize) -> (res: Result<(), BitstreamError>)
    ensures
        write_is(sps_size_can(*x), put_sps_size(old(w)@, *x), res, final(w)@),
{
    proof {
        reveal(put_sps_size);
        reveal(sps_size_can);
    }
    w.write_bit(x.sps_gdr_enabled_flag as u32);
    w.write_bit(x.sps_ref_pic_resampling_enabled_flag as u32);
    w.write_bit_if(x.sps_res_change_in_clvs_allowed_flag as u32, x.sps_ref_pic_resampling_enabled_flag != 0);
    w.write_ue(x.sps_pic_width_max_in_luma_samples)?;
    w.write_ue(x.sps_pic_height_max_in_luma_samples)?;
    if !(x.sps_pic_width_max_in_luma_samples != 0 && x.sps_pic_height_max_in_luma_samples != 0) {
        return Err(BitstreamError::invalid("sps_pic_width/height_max_in_luma_samples must be > 0 (7.4.3.4)"));
    }
    w.write_flag(x.sps_conf_win_offsets.is_some());
    if let Some(y) = &x.sps_conf_win_offsets {
        write_conf_win(w, y)?;
    }
    Ok(())
}

/// Writing the picture size fields gives back the bits it was read from.
pub broadcast proof fn law_put_sps_size_at(s: Seq<bool>, p: nat)
    ensures
        #[trigger] sps_size_at(s, p) matches Ok((x, q)) ==> {
            &&& sps_size_ok(x)
            &&& sps_size_can(x)
            &&& within(s, q) ==> within(s, p) && put_sps_size(upto(s, p), x) == upto(s, q)
        },
{
    broadcast use {crate::bits::group_write_read, law_put_conf_win_at};

    reveal(sps_size_at);
    reveal(put_sps_size);
    reveal(sps_size_ok);
    reveal(sps_size_can);
}

/// Reading gives back the picture size fields as it was written.
pub broadcast proof fn law_pre_put_sps_size(a: Seq<bool>, x: SpsSize, s: Seq<bool>)
    requires
        #[trigger] pre(put_sps_size(a, x), s),
        sps_size_ok(x),
    ensures
        pre(a, s),
        sps_size_can(x),
        sps_size_at(s, a.len()) == Ok::<(SpsSize, nat), Fault>((x, put_sps_size(a, x).len())),
{
    broadcast use {crate::bits::group_read_written, law_pre_put_conf_win};

    reveal(sps_size_at);
    reveal(put_sps_size);
    reveal(sps_size_ok);
    reveal(sps_size_can);
}

/// The layout of the picture size fields: reading at `p` gives `x` and ends at
/// `q` if and only if these elements stand there in this order, and the values
/// are allowed.
pub proof fn law_layout_sps_size(s: Seq<bool>, p: nat, x: SpsSize, q: nat)
    ensures
        sps_size_at(s, p) == Ok::<(SpsSize, nat), Fault>((x, q)) <==> ({
            &&& cursor(s, p)
                .u8(1, x.sps_gdr_enabled_flag)
                .u8(1, x.sps_ref_pic_resampling_enabled_flag)
                .u8_if(
                    x.sps_ref_pic_resampling_enabled_flag != 0,
                    1,
                    x.sps_res_change_in_clvs_allowed_flag,
                    0,
                )
                .ue(x.sps_pic_width_max_in_luma_samples)
                .ue(x.sps_pic_height_max_in_luma_samples)
                .flagged(|p: nat| conf_win_at(s, p), x.sps_conf_win_offsets)
                .ends(q)
            &&& x.sps_pic_width_max_in_luma_samples != 0 && x.sps_pic_height_max_in_luma_samples != 0
        }),
{
    reveal(sps_size_at);
    reveal(adv_if);
    reveal(u8_if);
}

/// Reading the picture size fields fails only with an error of this class.
pub broadcast proof fn law_faults_sps_size(s: Seq<bool>, p: nat)
    ensures
        #[trigger] sps_size_at(s, p) matches Err(f) ==> f == Fault::Invalid,
{
    broadcast use {crate::bits::law_faults_ue, law_faults_conf_win};

    reveal(sps_size_at);
}

/// What the writer accepts reads back: the picture size fields, where each
/// field fits its width and what is not coded has the value that is taken for
/// it.
pub proof fn law_reads_sps_size(a: Seq<bool>, x: SpsSize, s: Seq<bool>)
    requires
        sps_size_can(x),
        fits(x.sps_gdr_enabled_flag as nat, 1),
        fits(x.sps_ref_pic_resampling_enabled_flag as nat, 1),
        if x.sps_ref_pic_resampling_enabled_flag != 0 {
            fits(x.sps_res_change_in_clvs_allowed_flag as nat, 1)
        } else {
            x.sps_res_change_in_clvs_allowed_flag == 0
        },
        x.sps_conf_win_offsets matches Some(y) ==> conf_win_ok(y),
        pre(put_sps_size(a, x), s),
    ensures
        sps_size_at(s, a.len()) == Ok::<(SpsSize, nat), Fault>((x, put_sps_size(a, x).len())),
{
    assert(sps_size_ok(x)) by {
        broadcast use crate::bits::law_fits_small;

        reveal(sps_size_ok);
        reveal(sps_size_can);
    }
    law_pre_put_sps_size(a, x, s);
}

/// sps_poc_msb_cycle_len_minus1 at position `p`.
#[verifier::opaque]
pub open spec fn poc_msb_at(s: Seq<bool>, p: nat, log2_poc_lsb_minus4: u8) -> Read<u32> {
    match ue_at(s, p) { Err(f) => Err(f), Ok((len, p)) => {
    if !(len <= 27 - log2_poc_lsb_minus4 as u32) { Err(Fault::Invalid) } else {
    Ok((len, p)) }}}
}

/// The bits `a` followed by sps_poc_msb_cycle_len_minus1.
#[verifier::opaque]
pub open spec fn put_poc_msb(a: Seq<bool>, x: u32, log2_poc_lsb_minus4: u8) -> Seq<bool> {
    let a = put_ue(a, x as nat);
    a
}

/// The values of sps_poc_msb_cycle_len_minus1 that reading can give.
#[verifier::opaque]
pub open spec fn poc_msb_ok(x: u32, log2_poc_lsb_minus4: u8) -> bool {
    &&& ue_fits(x as nat)
    &&& x <= 27 - log2_poc_lsb_minus4 as u32
}

/// The values of sps_poc_msb_cycle_len_minus1 that the writer accepts.
#[verifier::opaque]
pub open spec fn poc_msb_can(x: u32, log2_poc_lsb_minus4: u8) -> bool {
    &&& ue_fits(x as nat)
    &&& x <= 27 - log2_poc_lsb_minus4 as u32
}

/// Parses sps_poc_msb_cycle_len_minus1.
fn parse_poc_msb(r: &mut BitReader<'_>, log2_poc_lsb_minus4: u8) -> (res: Result<u32, BitstreamError>)
    requires
        log2_poc_lsb_minus4 <= 12,
    ensures
        read_is(poc_msb_at(old(r).bits(), old(r).pos(), log2_poc_lsb_minus4), res, *old(r), *final(r)),
{
    proof {
        reveal(poc_msb_at);
    }
    let len: u32 = r.ue()?;
    if !(len <= 27 - log2_poc_lsb_minus4 as u32) {
        return Err(
            Message::new("sps_poc_msb_cycle_len_minus1 = ")
                .num(len as i128)
                .with(" > ")
                .num((27 - log2_poc_lsb_minus4 as u32) as i128)
                .with(" (7.4.3.4)")
                .invalid(),
        );
    }
    Ok(len)
}

/// Emits sps_poc_msb_cycle_len_minus1, the inverse of [`parse_poc_msb`].
fn write_poc_msb(w: &mut BitWriter, x: &u32, log2_poc_lsb_minus4: u8) -> (res: Result<(), BitstreamError>)
    requires
        log2_poc_lsb_minus4 <= 12,
    ensures
        write_is(
            poc_msb_can(*x, log2_poc_lsb_minus4),
            put_poc_msb(old(w)@, *x, log2_poc_lsb_minus4),
            res,
            final(w)@,
        ),
{
    proof {
        reveal(put_poc_msb);
        reveal(poc_msb_can);
    }
    w.write_ue(*x)?;
    if !((*x) <= 27 - log2_poc_lsb_minus4 as u32) {
        return Err(
            Message::new("sps_poc_msb_cycle_len_minus1 = ")
                .num((*x) as i128)
                .with(" > ")
                .num((27 - log2_poc_lsb_minus4 as u32) as i128)
                .with(" (7.4.3.4)")
                .invalid(),
        );
    }
    Ok(())
}

/// Writing sps_poc_msb_cycle_len_minus1 gives back the bits it was read from.
pub broadcast proof fn law_put_poc_msb_at(s: Seq<bool>, p: nat, log2_poc_lsb_minus4: u8)
    ensures
        #[trigger] poc_msb_at(s, p, log2_poc_lsb_minus4) matches Ok((x, q)) ==> {
            &&& poc_msb_ok(x, log2_poc_lsb_minus4)
            &&& poc_msb_can(x, log2_poc_lsb_minus4)
            &&& within(s, q) ==> within(s, p) && put_poc_msb(upto(s, p), x, log2_poc_lsb_minus4) == upto(s, q)
        },
{
    broadcast use crate::bits::group_write_read;

    reveal(poc_msb_at);
    reveal(put_poc_msb);
    reveal(poc_msb_ok);
    reveal(poc_msb_can);
}

/// Reading gives back sps_poc_msb_cycle_len_minus1 as it was written.
pub broadcast proof fn law_pre_put_poc_msb(a: Seq<bool>, x: u32, log2_poc_lsb_minus4: u8, s: Seq<bool>)
    requires
        #[trigger] pre(put_poc_msb(a, x, log2_poc_lsb_minus4), s),
        poc_msb_ok(x, log2_poc_lsb_minus4),
    ensures
        pre(a, s),
        poc_msb_can(x, log2_poc_lsb_minus4),
        poc_msb_at(s, a.len(), log2_poc_lsb_minus4) == Ok::<(u32, nat), Fault>(
            (x, put_poc_msb(a, x, log2_poc_lsb_minus4).len()),
        ),
{
    broadcast use crate::bits::group_read_written;

    reveal(poc_msb_at);
    reveal(put_poc_msb);
    reveal(poc_msb_ok);
    reveal(poc_msb_can);
}

/// The layout of sps_poc_msb_cycle_len_minus1: reading at `p` gives `x` and
/// ends at `q` if and only if these elements stand there in this order, and the
/// values are allowed.
pub proof fn law_layout_poc_msb(s: Seq<bool>, p: nat, log2_poc_lsb_minus4: u8, x: u32, q: nat)
    ensures
        poc_msb_at(s, p, log2_poc_lsb_minus4) == Ok::<(u32, nat), Fault>((x, q)) <==> ({
            &&& cursor(s, p).ue(x).ends(q)
            &&& x <= 27 - log2_poc_lsb_minus4 as u32
        }),
{
    reveal(poc_msb_at);
}

/// Reading sps_poc_msb_cycle_len_minus1 fails only with an error of this class.
pub broadcast proof fn law_faults_poc_msb(s: Seq<bool>, p: nat, log2_poc_lsb_minus4: u8)
    ensures
        #[trigger] poc_msb_at(s, p, log2_poc_lsb_minus4) matches Err(f) ==> f == Fault::Invalid,
{
    broadcast use crate::bits::law_faults_ue;

    reveal(poc_msb_at);
}

/// What the writer accepts reads back: sps_poc_msb_cycle_len_minus1, where each
/// field fits its width and what is not coded has the value that is taken for
/// it.
pub proof fn law_reads_poc_msb(a: Seq<bool>, x: u32, log2_poc_lsb_minus4: u8, s: Seq<bool>)
    requires
        poc_msb_can(x, log2_poc_lsb_minus4),
        pre(put_poc_msb(a, x, log2_poc_lsb_minus4), s),
    ensures
        poc_msb_at(s, a.len(), log2_poc_lsb_minus4) == Ok::<(u32, nat), Fault>(
            (x, put_poc_msb(a, x, log2_poc_lsb_minus4).len()),
        ),
{
    assert(poc_msb_ok(x, log2_poc_lsb_minus4)) by {
        broadcast use crate::bits::law_fits_small;

        reveal(poc_msb_ok);
        reveal(poc_msb_can);
    }
    law_pre_put_poc_msb(a, x, log2_poc_lsb_minus4, s);
}

/// The bit depth and picture order count fields of an SPS.
#[derive(Clone, Copy)]
pub struct SpsPoc {
    pub sps_bitdepth_minus8: u32,
    pub sps_entropy_coding_sync_enabled_flag: u8,
    pub sps_entry_point_offsets_present_flag: u8,
    pub sps_log2_max_pic_order_cnt_lsb_minus4: u8,
    pub sps_poc_msb_cycle_len_minus1: Option<u32>,
}

/// The bit depth and picture order count fields at position `p`.
#[verifier::opaque]
pub open spec fn sps_poc_at(s: Seq<bool>, p: nat) -> Read<SpsPoc> {
    match ue_at(s, p) { Err(f) => Err(f), Ok((sps_bitdepth_minus8, p)) => {
    if sps_bitdepth_minus8 > 8 { Err(Fault::Invalid) } else {
    let sps_entropy_coding_sync_enabled_flag = u8_at(s, p, 1);
    let p = adv(p, 1);
    let sps_entry_point_offsets_present_flag = u8_at(s, p, 1);
    let p = adv(p, 1);
    let sps_log2_max_pic_order_cnt_lsb_minus4 = u8_at(s, p, 4);
    let p = adv(p, 4);
    if sps_log2_max_pic_order_cnt_lsb_minus4 > SPS_LOG2_MAX_PIC_ORDER_CNT_LSB_MINUS4_MAX {
        Err(Fault::Invalid)
    } else {
    let present = flag_at(s, p);
    let p = adv(p, 1);
    match (if present {
        read_some(poc_msb_at(s, p, sps_log2_max_pic_order_cnt_lsb_minus4))
    } else {
        Ok((None, p))
    })
    { Err(f) => Err(f), Ok((sps_poc_msb_cycle_len_minus1, p)) => {
    Ok((
        SpsPoc {
            sps_bitdepth_minus8,
            sps_entropy_coding_sync_enabled_flag,
            sps_entry_point_offsets_present_flag,
            sps_log2_max_pic_order_cnt_lsb_minus4,
            sps_poc_msb_cycle_len_minus1,
        },
        p,
    ))
    }}}}}}
}

/// The bits `a` followed by the bit depth and picture order count fields.
#[verifier::opaque]
pub open spec fn put_sps_poc(a: Seq<bool>, x: SpsPoc) -> Seq<bool> {
    let a = put_ue(a, x.sps_bitdepth_minus8 as nat);
    let a = put_bit(a, x.sps_entropy_coding_sync_enabled_flag as nat);
    let a = put_bit(a, x.sps_entry_point_offsets_present_flag as nat);
    let a = put_u(a, x.sps_log2_max_pic_order_cnt_lsb_minus4 as nat, 4);
    let a = put_flag(a, x.sps_poc_msb_cycle_len_minus1 is Some);
    let a = match x.sps_poc_msb_cycle_len_minus1 {
        Some(y) => put_poc_msb(a, y, x.sps_log2_max_pic_order_cnt_lsb_minus4),
        None => a,
    };
    a
}

/// The values of the bit depth and picture order count fields that reading can
/// give.
#[verifier::opaque]
pub open spec fn sps_poc_ok(x: SpsPoc) -> bool {
    &&& x.sps_bitdepth_minus8 <= 8
    &&& fits(x.sps_entropy_coding_sync_enabled_flag as nat, 1)
    &&& fits(x.sps_entry_point_offsets_present_flag as nat, 1)
    &&& fits(x.sps_log2_max_pic_order_cnt_lsb_minus4 as nat, 4)
    &&& x.sps_log2_max_pic_order_cnt_lsb_minus4 <= SPS_LOG2_MAX_PIC_ORDER_CNT_LSB_MINUS4_MAX
    &&& x.sps_poc_msb_cycle_len_minus1 matches Some(y)
        ==> poc_msb_ok(y, x.sps_log2_max_pic_order_cnt_lsb_minus4)
}

/// The values of the bit depth and picture order count fields that the writer
/// accepts.
#[verifier::opaque]
pub open spec fn sps_poc_can(x: SpsPoc) -> bool {
    &&& x.sps_bitdepth_minus8 <= 8
    &&& x.sps_log2_max_pic_order_cnt_lsb_minus4 <= SPS_LOG2_MAX_PIC_ORDER_CNT_LSB_MINUS4_MAX
    &&& x.sps_poc_msb_cycle_len_minus1 matches Some(y)
        ==> poc_msb_can(y, x.sps_log2_max_pic_order_cnt_lsb_minus4)
}

/// Parses the bit depth and picture order count fields.
fn parse_sps_poc(r: &mut BitReader<'_>) -> (res: Result<SpsPoc, BitstreamError>)
    ensures
        read_is(sps_poc_at(old(r).bits(), old(r).pos()), res, *old(r), *final(r)),
        res matches Ok(x) ==> x.sps_bitdepth_minus8 <= 8 && x.sps_log2_max_pic_order_cnt_lsb_minus4 <= 12,
{
    proof {
        reveal(sps_poc_at);
    }
    let sps_bitdepth_minus8: u32 = r.ue()?;
    if sps_bitdepth_minus8 > 8 {
        return Err(
            Message::new("sps_bitdepth_minus8 = ")
                .num(sps_bitdepth_minus8 as i128)
                .with(" > 8 (BitDepth ≤ 16)")
                .invalid(),
        );
    }
    let sps_entropy_coding_sync_enabled_flag: u8 = r.bit();
    let sps_entry_point_offsets_present_flag: u8 = r.bit();
    let sps_log2_max_pic_order_cnt_lsb_minus4: u8 = r.u8(4);
    if sps_log2_max_pic_order_cnt_lsb_minus4 > SPS_LOG2_MAX_PIC_ORDER_CNT_LSB_MINUS4_MAX {
        return Err(
            Message::new("sps_log2_max_pic_order_cnt_lsb_minus4 = ")
                .num(sps_log2_max_pic_order_cnt_lsb_minus4 as i128)
                .with(" > ")
                .num(SPS_LOG2_MAX_PIC_ORDER_CNT_LSB_MINUS4_MAX as i128)
                .with(" (MaxPicOrderCntLsb ≤ 2^16)")
                .invalid(),
        );
    }
    let present: bool = r.flag();
    let sps_poc_msb_cycle_len_minus1 = if present {
        Some(parse_poc_msb(r, sps_log2_max_pic_order_cnt_lsb_minus4)?)
    } else {
        None
    };
    Ok(
        SpsPoc {
            sps_bitdepth_minus8,
            sps_entropy_coding_sync_enabled_flag,
            sps_entry_point_offsets_present_flag,
            sps_log2_max_pic_order_cnt_lsb_minus4,
            sps_poc_msb_cycle_len_minus1,
        },
    )
}

/// Emits the bit depth and picture order count fields, the inverse of [`parse_sps_poc`].
fn write_sps_poc(w: &mut BitWriter, x: &SpsPoc) -> (res: Result<(), BitstreamError>)
    ensures
        write_is(sps_poc_can(*x), put_sps_poc(old(w)@, *x), res, final(w)@),
        res is Ok ==> x.sps_bitdepth_minus8 <= 8 && x.sps_log2_max_pic_order_cnt_lsb_minus4 <= 12,
{
    proof {
        reveal(put_sps_poc);
        reveal(sps_poc_can);
    }
    w.write_ue(x.sps_bitdepth_minus8)?;
    if x.sps_bitdepth_minus8 > 8 {
        return Err(BitstreamError::invalid("sps_bitdepth_minus8 > 8 (BitDepth ≤ 16)"));
    }
    w.write_bit(x.sps_entropy_coding_sync_enabled_flag as u32);
    w.write_bit(x.sps_entry_point_offsets_present_flag as u32);
    w.write_bits(x.sps_log2_max_pic_order_cnt_lsb_minus4 as u32, 4);
    if x.sps_log2_max_pic_order_cnt_lsb_minus4 > SPS_LOG2_MAX_PIC_ORDER_CNT_LSB_MINUS4_MAX {
        return Err(BitstreamError::invalid("sps_log2_max_pic_order_cnt_lsb_minus4 > 12"));
    }
    w.write_flag(x.sps_poc_msb_cycle_len_minus1.is_some());
    if let Some(y) = &x.sps_poc_msb_cycle_len_minus1 {
        write_poc_msb(w, y, x.sps_log2_max_pic_order_cnt_lsb_minus4)?;
    }
    Ok(())
}

/// Writing the bit depth and picture order count fields gives back the bits it
/// was read from.
pub broadcast proof fn law_put_sps_poc_at(s: Seq<bool>, p: nat)
    ensures
        #[trigger] sps_poc_at(s, p) matches Ok((x, q)) ==> {
            &&& sps_poc_ok(x)
            &&& sps_poc_can(x)
            &&& within(s, q) ==> within(s, p) && put_sps_poc(upto(s, p), x) == upto(s, q)
        },
{
    broadcast use {crate::bits::group_write_read, law_put_poc_msb_at};

    reveal(sps_poc_at);
    reveal(put_sps_poc);
    reveal(sps_poc_ok);
    reveal(sps_poc_can);
}

/// Reading gives back the bit depth and picture order count fields as it was
/// written.
pub broadcast proof fn law_pre_put_sps_poc(a: Seq<bool>, x: SpsPoc, s: Seq<bool>)
    requires
        #[trigger] pre(put_sps_poc(a, x), s),
        sps_poc_ok(x),
    ensures
        pre(a, s),
        sps_poc_can(x),
        sps_poc_at(s, a.len()) == Ok::<(SpsPoc, nat), Fault>((x, put_sps_poc(a, x).len())),
{
    broadcast use {crate::bits::group_read_written, law_pre_put_poc_msb};

    reveal(sps_poc_at);
    reveal(put_sps_poc);
    reveal(sps_poc_ok);
    reveal(sps_poc_can);
}

/// The layout of the bit depth and picture order count fields: reading at `p`
/// gives `x` and ends at `q` if and only if these elements stand there in this
/// order, and the values are allowed.
pub proof fn law_layout_sps_poc(s: Seq<bool>, p: nat, x: SpsPoc, q: nat)
    ensures
        sps_poc_at(s, p) == Ok::<(SpsPoc, nat), Fault>((x, q)) <==> ({
            &&& cursor(s, p)
                .ue(x.sps_bitdepth_minus8)
                .u8(1, x.sps_entropy_coding_sync_enabled_flag)
                .u8(1, x.sps_entry_point_offsets_present_flag)
                .u8(4, x.sps_log2_max_pic_order_cnt_lsb_minus4)
                .flagged(
                    |p: nat| poc_msb_at(s, p, x.sps_log2_max_pic_order_cnt_lsb_minus4),
                    x.sps_poc_msb_cycle_len_minus1,
                )
                .ends(q)
            &&& x.sps_bitdepth_minus8 <= 8
            &&& x.sps_log2_max_pic_order_cnt_lsb_minus4 <= 12
        }),
{
    reveal(sps_poc_at);
}

/// Reading the bit depth and picture order count fields fails only with an
/// error of this class.
pub broadcast proof fn law_faults_sps_poc(s: Seq<bool>, p: nat)
    ensures
        #[trigger] sps_poc_at(s, p) matches Err(f) ==> f == Fault::Invalid,
{
    broadcast use {crate::bits::law_faults_ue, law_faults_poc_msb};

    reveal(sps_poc_at);
}

/// What the writer accepts reads back: the bit depth and picture order count
/// fields, where each field fits its width and what is not coded has the value
/// that is taken for it.
pub proof fn law_reads_sps_poc(a: Seq<bool>, x: SpsPoc, s: Seq<bool>)
    requires
        sps_poc_can(x),
        fits(x.sps_entropy_coding_sync_enabled_flag as nat, 1),
        fits(x.sps_entry_point_offsets_present_flag as nat, 1),
        x.sps_poc_msb_cycle_len_minus1 matches Some(y)
            ==> poc_msb_ok(y, x.sps_log2_max_pic_order_cnt_lsb_minus4),
        pre(put_sps_poc(a, x), s),
    ensures
        sps_poc_at(s, a.len()) == Ok::<(SpsPoc, nat), Fault>((x, put_sps_poc(a, x).len())),
{
    assert(sps_poc_ok(x)) by {
        broadcast use crate::bits::law_fits_small;

        reveal(sps_poc_ok);
        reveal(sps_poc_can);
    }
    law_pre_put_sps_poc(a, x, s);
}

/// The block partitioning fields of an SPS.
#[derive(Clone, Copy)]
pub struct SpsPartition {
    pub sps_log2_min_luma_coding_block_size_minus2: u32,
    pub sps_partition_constraints_override_enabled_flag: u8,
    pub sps_log2_diff_min_qt_min_cb_intra_slice_luma: u32,
    pub sps_max_mtt_hierarchy_depth_intra_slice_luma: u32,
    pub sps_log2_diff_max_bt_min_qt_intra_slice_luma: u32,
    pub sps_log2_diff_max_tt_min_qt_intra_slice_luma: u32,
    pub sps_qtbtt_dual_tree_intra_flag: u8,
    pub sps_log2_diff_min_qt_min_cb_intra_slice_chroma: u32,
    pub sps_max_mtt_hierarchy_depth_intra_slice_chroma: u32,
    pub sps_log2_diff_max_bt_min_qt_intra_slice_chroma: u32,
    pub sps_log2_diff_max_tt_min_qt_intra_slice_chroma: u32,
    pub sps_log2_diff_min_qt_min_cb_inter_slice: u32,
    pub sps_max_mtt_hierarchy_depth_inter_slice: u32,
    pub sps_log2_diff_max_bt_min_qt_inter_slice: u32,
    pub sps_log2_diff_max_tt_min_qt_inter_slice: u32,
}

/// The block partitioning fields at position `p`.
#[verifier::opaque]
pub open spec fn sps_partition_at(
    s: Seq<bool>,
    p: nat,
    log2_ctu_size_minus5: u8,
    chroma_format_idc: u8,
) -> Read<SpsPartition> {
    match ue_at(s, p) { Err(f) => Err(f), Ok((sps_log2_min_luma_coding_block_size_minus2, p)) => {
    if !(sps_log2_min_luma_coding_block_size_minus2 <= 4 && sps_log2_min_luma_coding_block_size_minus2 <= log2_ctu_size_minus5 as u32 + 3) {
        Err(Fault::Invalid)
    } else {
    let sps_partition_constraints_override_enabled_flag = u8_at(s, p, 1);
    let p = adv(p, 1);
    match ue_at(s, p) { Err(f) => Err(f), Ok((sps_log2_diff_min_qt_min_cb_intra_slice_luma, p)) => {
    match ue_at(s, p) { Err(f) => Err(f), Ok((sps_max_mtt_hierarchy_depth_intra_slice_luma, p)) => {
    match ue_if(s, p, sps_max_mtt_hierarchy_depth_intra_slice_luma != 0, 0)
    { Err(f) => Err(f), Ok((sps_log2_diff_max_bt_min_qt_intra_slice_luma, p)) => {
    match ue_if(s, p, sps_max_mtt_hierarchy_depth_intra_slice_luma != 0, 0)
    { Err(f) => Err(f), Ok((sps_log2_diff_max_tt_min_qt_intra_slice_luma, p)) => {
    let sps_qtbtt_dual_tree_intra_flag = u8_if(s, p, 1, chroma_format_idc != 0, 0);
    let p = adv_if(p, 1, chroma_format_idc != 0);
    match ue_if(s, p, sps_qtbtt_dual_tree_intra_flag != 0, 0)
    { Err(f) => Err(f), Ok((sps_log2_diff_min_qt_min_cb_intra_slice_chroma, p)) => {
    match ue_if(s, p, sps_qtbtt_dual_tree_intra_flag != 0, 0)
    { Err(f) => Err(f), Ok((sps_max_mtt_hierarchy_depth_intra_slice_chroma, p)) => {
    match ue_if(
        s,
        p,
        sps_qtbtt_dual_tree_intra_flag != 0 && sps_max_mtt_hierarchy_depth_intra_slice_chroma != 0,
        0,
    )
    { Err(f) => Err(f), Ok((sps_log2_diff_max_bt_min_qt_intra_slice_chroma, p)) => {
    match ue_if(
        s,
        p,
        sps_qtbtt_dual_tree_intra_flag != 0 && sps_max_mtt_hierarchy_depth_intra_slice_chroma != 0,
        0,
    )
    { Err(f) => Err(f), Ok((sps_log2_diff_max_tt_min_qt_intra_slice_chroma, p)) => {
    match ue_at(s, p) { Err(f) => Err(f), Ok((sps_log2_diff_min_qt_min_cb_inter_slice, p)) => {
    match ue_at(s, p) { Err(f) => Err(f), Ok((sps_max_mtt_hierarchy_depth_inter_slice, p)) => {
    match ue_if(s, p, sps_max_mtt_hierarchy_depth_inter_slice != 0, 0)
    { Err(f) => Err(f), Ok((sps_log2_diff_max_bt_min_qt_inter_slice, p)) => {
    match ue_if(s, p, sps_max_mtt_hierarchy_depth_inter_slice != 0, 0)
    { Err(f) => Err(f), Ok((sps_log2_diff_max_tt_min_qt_inter_slice, p)) => {
    Ok((
        SpsPartition {
            sps_log2_min_luma_coding_block_size_minus2,
            sps_partition_constraints_override_enabled_flag,
            sps_log2_diff_min_qt_min_cb_intra_slice_luma,
            sps_max_mtt_hierarchy_depth_intra_slice_luma,
            sps_log2_diff_max_bt_min_qt_intra_slice_luma,
            sps_log2_diff_max_tt_min_qt_intra_slice_luma,
            sps_qtbtt_dual_tree_intra_flag,
            sps_log2_diff_min_qt_min_cb_intra_slice_chroma,
            sps_max_mtt_hierarchy_depth_intra_slice_chroma,
            sps_log2_diff_max_bt_min_qt_intra_slice_chroma,
            sps_log2_diff_max_tt_min_qt_intra_slice_chroma,
            sps_log2_diff_min_qt_min_cb_inter_slice,
            sps_max_mtt_hierarchy_depth_inter_slice,
            sps_log2_diff_max_bt_min_qt_inter_slice,
            sps_log2_diff_max_tt_min_qt_inter_slice,
        },
        p,
    ))
    }}}}}}}}}}}}}}}}}}}}}}}}}}}
}

/// The bits `a` followed by the block partitioning fields.
#[verifier::opaque]
pub open spec fn put_sps_partition(
    a: Seq<bool>,
    x: SpsPartition,
    log2_ctu_size_minus5: u8,
    chroma_format_idc: u8,
) -> Seq<bool> {
    let a = put_ue(a, x.sps_log2_min_luma_coding_block_size_minus2 as nat);
    let a = put_bit(a, x.sps_partition_constraints_override_enabled_flag as nat);
    let a = put_ue(a, x.sps_log2_diff_min_qt_min_cb_intra_slice_luma as nat);
    let a = put_ue(a, x.sps_max_mtt_hierarchy_depth_intra_slice_luma as nat);
    let a = put_ue_if(
        a,
        x.sps_log2_diff_max_bt_min_qt_intra_slice_luma as nat,
        x.sps_max_mtt_hierarchy_depth_intra_slice_luma != 0,
    );
    let a = put_ue_if(
        a,
        x.sps_log2_diff_max_tt_min_qt_intra_slice_luma as nat,
        x.sps_max_mtt_hierarchy_depth_intra_slice_luma != 0,
    );
    let a = put_bit_if(a, x.sps_qtbtt_dual_tree_intra_flag as nat, chroma_format_idc != 0);
    let a = put_ue_if(
        a,
        x.sps_log2_diff_min_qt_min_cb_intra_slice_chroma as nat,
        x.sps_qtbtt_dual_tree_intra_flag != 0,
    );
    let a = put_ue_if(
        a,
        x.sps_max_mtt_hierarchy_depth_intra_slice_chroma as nat,
        x.sps_qtbtt_dual_tree_intra_flag != 0,
    );
    let a = put_ue_if(
        a,
        x.sps_log2_diff_max_bt_min_qt_intra_slice_chroma as nat,
        x.sps_qtbtt_dual_tree_intra_flag != 0 && x.sps_max_mtt_hierarchy_depth_intra_slice_chroma != 0,
    );
    let a = put_ue_if(
        a,
        x.sps_log2_diff_max_tt_min_qt_intra_slice_chroma as nat,
        x.sps_qtbtt_dual_tree_intra_flag != 0 && x.sps_max_mtt_hierarchy_depth_intra_slice_chroma != 0,
    );
    let a = put_ue(a, x.sps_log2_diff_min_qt_min_cb_inter_slice as nat);
    let a = put_ue(a, x.sps_max_mtt_hierarchy_depth_inter_slice as nat);
    let a = put_ue_if(
        a,
        x.sps_log2_diff_max_bt_min_qt_inter_slice as nat,
        x.sps_max_mtt_hierarchy_depth_inter_slice != 0,
    );
    let a = put_ue_if(
        a,
        x.sps_log2_diff_max_tt_min_qt_inter_slice as nat,
        x.sps_max_mtt_hierarchy_depth_inter_slice != 0,
    );
    a
}

/// The values of the block partitioning fields that reading can give.
#[verifier::opaque]
pub open spec fn sps_partition_ok(x: SpsPartition, log2_ctu_size_minus5: u8, chroma_format_idc: u8) -> bool {
    &&& x.sps_log2_min_luma_coding_block_size_minus2 <= 4
        && x.sps_log2_min_luma_coding_block_size_minus2 <= log2_ctu_size_minus5 as u32 + 3
    &&& fits(x.sps_partition_constraints_override_enabled_flag as nat, 1)
    &&& ue_fits(x.sps_log2_diff_min_qt_min_cb_intra_slice_luma as nat)
    &&& ue_fits(x.sps_max_mtt_hierarchy_depth_intra_slice_luma as nat)
    &&& if x.sps_max_mtt_hierarchy_depth_intra_slice_luma != 0 {
        ue_fits(x.sps_log2_diff_max_bt_min_qt_intra_slice_luma as nat)
    } else {
        x.sps_log2_diff_max_bt_min_qt_intra_slice_luma == 0
    }
    &&& if x.sps_max_mtt_hierarchy_depth_intra_slice_luma != 0 {
        ue_fits(x.sps_log2_diff_max_tt_min_qt_intra_slice_luma as nat)
    } else {
        x.sps_log2_diff_max_tt_min_qt_intra_slice_luma == 0
    }
    &&& if chroma_format_idc != 0 {
        fits(x.sps_qtbtt_dual_tree_intra_flag as nat, 1)
    } else {
        x.sps_qtbtt_dual_tree_intra_flag == 0
    }
    &&& x.sps_qtbtt_dual_tree_intra_flag == 0 || chroma_format_idc != 0
    &&& if x.sps_qtbtt_dual_tree_intra_flag != 0 {
        ue_fits(x.sps_log2_diff_min_qt_min_cb_intra_slice_chroma as nat)
    } else {
        x.sps_log2_diff_min_qt_min_cb_intra_slice_chroma == 0
    }
    &&& if x.sps_qtbtt_dual_tree_intra_flag != 0 {
        ue_fits(x.sps_max_mtt_hierarchy_depth_intra_slice_chroma as nat)
    } else {
        x.sps_max_mtt_hierarchy_depth_intra_slice_chroma == 0
    }
    &&& if x.sps_qtbtt_dual_tree_intra_flag != 0
        && x.sps_max_mtt_hierarchy_depth_intra_slice_chroma != 0 {
            ue_fits(x.sps_log2_diff_max_bt_min_qt_intra_slice_chroma as nat)
        } else {
            x.sps_log2_diff_max_bt_min_qt_intra_slice_chroma == 0
        }
    &&& if x.sps_qtbtt_dual_tree_intra_flag != 0
        && x.sps_max_mtt_hierarchy_depth_intra_slice_chroma != 0 {
            ue_fits(x.sps_log2_diff_max_tt_min_qt_intra_slice_chroma as nat)
        } else {
            x.sps_log2_diff_max_tt_min_qt_intra_slice_chroma == 0
        }
    &&& ue_fits(x.sps_log2_diff_min_qt_min_cb_inter_slice as nat)
    &&& ue_fits(x.sps_max_mtt_hierarchy_depth_inter_slice as nat)
    &&& if x.sps_max_mtt_hierarchy_depth_inter_slice != 0 {
        ue_fits(x.sps_log2_diff_max_bt_min_qt_inter_slice as nat)
    } else {
        x.sps_log2_diff_max_bt_min_qt_inter_slice == 0
    }
    &&& if x.sps_max_mtt_hierarchy_depth_inter_slice != 0 {
        ue_fits(x.sps_log2_diff_max_tt_min_qt_inter_slice as nat)
    } else {
        x.sps_log2_diff_max_tt_min_qt_inter_slice == 0
    }
}

/// The values of the block partitioning fields that the writer accepts.
#[verifier::opaque]
pub open spec fn sps_partition_can(x: SpsPartition, log2_ctu_size_minus5: u8, chroma_format_idc: u8) -> bool {
    &&& x.sps_log2_min_luma_coding_block_size_minus2 <= 4
        && x.sps_log2_min_luma_coding_block_size_minus2 <= log2_ctu_size_minus5 as u32 + 3
    &&& ue_fits(x.sps_log2_diff_min_qt_min_cb_intra_slice_luma as nat)
    &&& ue_fits(x.sps_max_mtt_hierarchy_depth_intra_slice_luma as nat)
    &&& x.sps_max_mtt_hierarchy_depth_intra_slice_luma != 0
        ==> ue_fits(x.sps_log2_diff_max_bt_min_qt_intra_slice_luma as nat)
    &&& x.sps_max_mtt_hierarchy_depth_intra_slice_luma != 0
        ==> ue_fits(x.sps_log2_diff_max_tt_min_qt_intra_slice_luma as nat)
    &&& x.sps_qtbtt_dual_tree_intra_flag == 0 || chroma_format_idc != 0
    &&& x.sps_qtbtt_dual_tree_intra_flag != 0
        ==> ue_fits(x.sps_log2_diff_min_qt_min_cb_intra_slice_chroma as nat)
    &&& x.sps_qtbtt_dual_tree_intra_flag != 0
        ==> ue_fits(x.sps_max_mtt_hierarchy_depth_intra_slice_chroma as nat)
    &&& x.sps_qtbtt_dual_tree_intra_flag != 0
        && x.sps_max_mtt_hierarchy_depth_intra_slice_chroma != 0
        ==> ue_fits(x.sps_log2_diff_max_bt_min_qt_intra_slice_chroma as nat)
    &&& x.sps_qtbtt_dual_tree_intra_flag != 0
        && x.sps_max_mtt_hierarchy_depth_intra_slice_chroma != 0
        ==> ue_fits(x.sps_log2_diff_max_tt_min_qt_intra_slice_chroma as nat)
    &&& ue_fits(x.sps_log2_diff_min_qt_min_cb_inter_slice as nat)
    &&& ue_fits(x.sps_max_mtt_hierarchy_depth_inter_slice as nat)
    &&& x.sps_max_mtt_hierarchy_depth_inter_slice != 0
        ==> ue_fits(x.sps_log2_diff_max_bt_min_qt_inter_slice as nat)
    &&& x.sps_max_mtt_hierarchy_depth_inter_slice != 0
        ==> ue_fits(x.sps_log2_diff_max_tt_min_qt_inter_slice as nat)
}

/// Parses the block partitioning fields.
fn parse_sps_partition(
    r: &mut BitReader<'_>,
    log2_ctu_size_minus5: u8,
    chroma_format_idc: u8,
) -> (res: Result<SpsPartition, BitstreamError>)
    ensures
        read_is(
            sps_partition_at(old(r).bits(), old(r).pos(), log2_ctu_size_minus5, chroma_format_idc),
            res,
            *old(r),
            *final(r),
        ),
{
    proof {
        reveal(sps_partition_at);
    }
    let sps_log2_min_luma_coding_block_size_minus2: u32 = r.ue()?;
    if !(
        sps_log2_min_luma_coding_block_size_minus2 <= 4
        && sps_log2_min_luma_coding_block_size_minus2 <= log2_ctu_size_minus5 as u32 + 3
    ) {
        return Err(
            Message::new("MinCbLog2SizeY = ")
                .num((sps_log2_min_luma_coding_block_size_minus2 as u64 + 2) as i128)
                .with(" > Min(6, CtbLog2SizeY = ")
                .num((log2_ctu_size_minus5 as u32 + 5) as i128)
                .with(") (7.4.3.4)")
                .invalid(),
        );
    }
    let sps_partition_constraints_override_enabled_flag: u8 = r.bit();
    let sps_log2_diff_min_qt_min_cb_intra_slice_luma: u32 = r.ue()?;
    let sps_max_mtt_hierarchy_depth_intra_slice_luma: u32 = r.ue()?;
    let sps_log2_diff_max_bt_min_qt_intra_slice_luma: u32 = r.ue_if(
        sps_max_mtt_hierarchy_depth_intra_slice_luma != 0,
        0,
    )?;
    let sps_log2_diff_max_tt_min_qt_intra_slice_luma: u32 = r.ue_if(
        sps_max_mtt_hierarchy_depth_intra_slice_luma != 0,
        0,
    )?;
    let sps_qtbtt_dual_tree_intra_flag: u8 = r.bit_if(chroma_format_idc != 0, 0);
    let sps_log2_diff_min_qt_min_cb_intra_slice_chroma: u32 = r.ue_if(
        sps_qtbtt_dual_tree_intra_flag != 0,
        0,
    )?;
    let sps_max_mtt_hierarchy_depth_intra_slice_chroma: u32 = r.ue_if(
        sps_qtbtt_dual_tree_intra_flag != 0,
        0,
    )?;
    let sps_log2_diff_max_bt_min_qt_intra_slice_chroma: u32 = r.ue_if(
        sps_qtbtt_dual_tree_intra_flag != 0 && sps_max_mtt_hierarchy_depth_intra_slice_chroma != 0,
        0,
    )?;
    let sps_log2_diff_max_tt_min_qt_intra_slice_chroma: u32 = r.ue_if(
        sps_qtbtt_dual_tree_intra_flag != 0 && sps_max_mtt_hierarchy_depth_intra_slice_chroma != 0,
        0,
    )?;
    let sps_log2_diff_min_qt_min_cb_inter_slice: u32 = r.ue()?;
    let sps_max_mtt_hierarchy_depth_inter_slice: u32 = r.ue()?;
    let sps_log2_diff_max_bt_min_qt_inter_slice: u32 = r.ue_if(
        sps_max_mtt_hierarchy_depth_inter_slice != 0,
        0,
    )?;
    let sps_log2_diff_max_tt_min_qt_inter_slice: u32 = r.ue_if(
        sps_max_mtt_hierarchy_depth_inter_slice != 0,
        0,
    )?;
    Ok(
        SpsPartition {
            sps_log2_min_luma_coding_block_size_minus2,
            sps_partition_constraints_override_enabled_flag,
            sps_log2_diff_min_qt_min_cb_intra_slice_luma,
            sps_max_mtt_hierarchy_depth_intra_slice_luma,
            sps_log2_diff_max_bt_min_qt_intra_slice_luma,
            sps_log2_diff_max_tt_min_qt_intra_slice_luma,
            sps_qtbtt_dual_tree_intra_flag,
            sps_log2_diff_min_qt_min_cb_intra_slice_chroma,
            sps_max_mtt_hierarchy_depth_intra_slice_chroma,
            sps_log2_diff_max_bt_min_qt_intra_slice_chroma,
            sps_log2_diff_max_tt_min_qt_intra_slice_chroma,
            sps_log2_diff_min_qt_min_cb_inter_slice,
            sps_max_mtt_hierarchy_depth_inter_slice,
            sps_log2_diff_max_bt_min_qt_inter_slice,
            sps_log2_diff_max_tt_min_qt_inter_slice,
        },
    )
}

/// Emits the block partitioning fields, the inverse of [`parse_sps_partition`].
fn write_sps_partition(
    w: &mut BitWriter,
    x: &SpsPartition,
    log2_ctu_size_minus5: u8,
    chroma_format_idc: u8,
) -> (res: Result<(), BitstreamError>)
    ensures
        write_is(
            sps_partition_can(*x, log2_ctu_size_minus5, chroma_format_idc),
            put_sps_partition(old(w)@, *x, log2_ctu_size_minus5, chroma_format_idc),
            res,
            final(w)@,
        ),
{
    proof {
        reveal(put_sps_partition);
        reveal(sps_partition_can);
    }
    w.write_ue(x.sps_log2_min_luma_coding_block_size_minus2)?;
    if !(
        x.sps_log2_min_luma_coding_block_size_minus2 <= 4
        && x.sps_log2_min_luma_coding_block_size_minus2 <= log2_ctu_size_minus5 as u32 + 3
    ) {
        return Err(BitstreamError::invalid("MinCbLog2SizeY > Min(6, CtbLog2SizeY) (7.4.3.4)"));
    }
    w.write_bit(x.sps_partition_constraints_override_enabled_flag as u32);
    w.write_ue(x.sps_log2_diff_min_qt_min_cb_intra_slice_luma)?;
    w.write_ue(x.sps_max_mtt_hierarchy_depth_intra_slice_luma)?;
    w.write_ue_if(
        x.sps_log2_diff_max_bt_min_qt_intra_slice_luma,
        x.sps_max_mtt_hierarchy_depth_intra_slice_luma != 0,
    )?;
    w.write_ue_if(
        x.sps_log2_diff_max_tt_min_qt_intra_slice_luma,
        x.sps_max_mtt_hierarchy_depth_intra_slice_luma != 0,
    )?;
    w.write_bit_if(x.sps_qtbtt_dual_tree_intra_flag as u32, chroma_format_idc != 0);
    if !(x.sps_qtbtt_dual_tree_intra_flag == 0 || chroma_format_idc != 0) {
        return Err(BitstreamError::invalid("sps_qtbtt_dual_tree_intra_flag requires chroma (7.3.2.4)"));
    }
    w.write_ue_if(x.sps_log2_diff_min_qt_min_cb_intra_slice_chroma, x.sps_qtbtt_dual_tree_intra_flag != 0)?;
    w.write_ue_if(x.sps_max_mtt_hierarchy_depth_intra_slice_chroma, x.sps_qtbtt_dual_tree_intra_flag != 0)?;
    w.write_ue_if(
        x.sps_log2_diff_max_bt_min_qt_intra_slice_chroma,
        x.sps_qtbtt_dual_tree_intra_flag != 0 && x.sps_max_mtt_hierarchy_depth_intra_slice_chroma != 0,
    )?;
    w.write_ue_if(
        x.sps_log2_diff_max_tt_min_qt_intra_slice_chroma,
        x.sps_qtbtt_dual_tree_intra_flag != 0 && x.sps_max_mtt_hierarchy_depth_intra_slice_chroma != 0,
    )?;
    w.write_ue(x.sps_log2_diff_min_qt_min_cb_inter_slice)?;
    w.write_ue(x.sps_max_mtt_hierarchy_depth_inter_slice)?;
    w.write_ue_if(x.sps_log2_diff_max_bt_min_qt_inter_slice, x.sps_max_mtt_hierarchy_depth_inter_slice != 0)?;
    w.write_ue_if(x.sps_log2_diff_max_tt_min_qt_inter_slice, x.sps_max_mtt_hierarchy_depth_inter_slice != 0)?;
    Ok(())
}

/// Writing the block partitioning fields gives back the bits it was read from.
pub broadcast proof fn law_put_sps_partition_at(
    s: Seq<bool>,
    p: nat,
    log2_ctu_size_minus5: u8,
    chroma_format_idc: u8,
)
    ensures
        #[trigger] sps_partition_at(s, p, log2_ctu_size_minus5, chroma_format_idc) matches Ok((x, q)) ==> {
            &&& sps_partition_ok(x, log2_ctu_size_minus5, chroma_format_idc)
            &&& sps_partition_can(x, log2_ctu_size_minus5, chroma_format_idc)
            &&& within(s, q)
                ==> within(s, p)
                && put_sps_partition(upto(s, p), x, log2_ctu_size_minus5, chroma_format_idc) == upto(s, q)
        },
{
    broadcast use crate::bits::group_write_read;

    reveal(sps_partition_at);
    reveal(put_sps_partition);
    reveal(sps_partition_ok);
    reveal(sps_partition_can);
}

/// Reading gives back the block partitioning fields as it was written.
pub broadcast proof fn law_pre_put_sps_partition(
    a: Seq<bool>,
    x: SpsPartition,
    log2_ctu_size_minus5: u8,
    chroma_format_idc: u8,
    s: Seq<bool>,
)
    requires
        #[trigger] pre(put_sps_partition(a, x, log2_ctu_size_minus5, chroma_format_idc), s),
        sps_partition_ok(x, log2_ctu_size_minus5, chroma_format_idc),
    ensures
        pre(a, s),
        sps_partition_can(x, log2_ctu_size_minus5, chroma_format_idc),
        sps_partition_at(s, a.len(), log2_ctu_size_minus5, chroma_format_idc) == Ok::<(SpsPartition, nat), Fault>(
            (x, put_sps_partition(a, x, log2_ctu_size_minus5, chroma_format_idc).len()),
        ),
{
    broadcast use crate::bits::group_read_written;

    reveal(sps_partition_at);
    reveal(put_sps_partition);
    reveal(sps_partition_ok);
    reveal(sps_partition_can);
}

/// The layout of the block partitioning fields: reading at `p` gives `x` and
/// ends at `q` if and only if these elements stand there in this order, and the
/// values are allowed.
pub proof fn law_layout_sps_partition(
    s: Seq<bool>,
    p: nat,
    log2_ctu_size_minus5: u8,
    chroma_format_idc: u8,
    x: SpsPartition,
    q: nat,
)
    ensures
        sps_partition_at(s, p, log2_ctu_size_minus5, chroma_format_idc) == Ok::<(SpsPartition, nat), Fault>((x, q)) <==> ({
            &&& cursor(s, p)
                .ue(x.sps_log2_min_luma_coding_block_size_minus2)
                .u8(1, x.sps_partition_constraints_override_enabled_flag)
                .ue(x.sps_log2_diff_min_qt_min_cb_intra_slice_luma)
                .ue(x.sps_max_mtt_hierarchy_depth_intra_slice_luma)
                .ue_if(
                    x.sps_max_mtt_hierarchy_depth_intra_slice_luma != 0,
                    x.sps_log2_diff_max_bt_min_qt_intra_slice_luma,
                    0,
                )
                .ue_if(
                    x.sps_max_mtt_hierarchy_depth_intra_slice_luma != 0,
                    x.sps_log2_diff_max_tt_min_qt_intra_slice_luma,
                    0,
                )
                .u8_if(chroma_format_idc != 0, 1, x.sps_qtbtt_dual_tree_intra_flag, 0)
                .ue_if(
                    x.sps_qtbtt_dual_tree_intra_flag != 0,
                    x.sps_log2_diff_min_qt_min_cb_intra_slice_chroma,
                    0,
                )
                .ue_if(
                    x.sps_qtbtt_dual_tree_intra_flag != 0,
                    x.sps_max_mtt_hierarchy_depth_intra_slice_chroma,
                    0,
                )
                .ue_if(
                    x.sps_qtbtt_dual_tree_intra_flag != 0
                        && x.sps_max_mtt_hierarchy_depth_intra_slice_chroma != 0,
                    x.sps_log2_diff_max_bt_min_qt_intra_slice_chroma,
                    0,
                )
                .ue_if(
                    x.sps_qtbtt_dual_tree_intra_flag != 0
                        && x.sps_max_mtt_hierarchy_depth_intra_slice_chroma != 0,
                    x.sps_log2_diff_max_tt_min_qt_intra_slice_chroma,
                    0,
                )
                .ue(x.sps_log2_diff_min_qt_min_cb_inter_slice)
                .ue(x.sps_max_mtt_hierarchy_depth_inter_slice)
                .ue_if(
                    x.sps_max_mtt_hierarchy_depth_inter_slice != 0,
                    x.sps_log2_diff_max_bt_min_qt_inter_slice,
                    0,
                )
                .ue_if(
                    x.sps_max_mtt_hierarchy_depth_inter_slice != 0,
                    x.sps_log2_diff_max_tt_min_qt_inter_slice,
                    0,
                )
                .ends(q)
            &&& x.sps_log2_min_luma_coding_block_size_minus2 <= 4
                && x.sps_log2_min_luma_coding_block_size_minus2 <= log2_ctu_size_minus5 as u32 + 3
        }),
{
    reveal(sps_partition_at);
    reveal(adv_if);
    reveal(u8_if);
    reveal(ue_if);
}

/// Reading the block partitioning fields fails only with an error of this
/// class.
pub broadcast proof fn law_faults_sps_partition(
    s: Seq<bool>,
    p: nat,
    log2_ctu_size_minus5: u8,
    chroma_format_idc: u8,
)
    ensures
        #[trigger] sps_partition_at(s, p, log2_ctu_size_minus5, chroma_format_idc) matches Err(f)
            ==> f == Fault::Invalid,
{
    broadcast use crate::bits::law_faults_ue;

    reveal(sps_partition_at);
    reveal(ue_if);
}

/// What the writer accepts reads back: the block partitioning fields, where
/// each field fits its width and what is not coded has the value that is taken
/// for it.
pub proof fn law_reads_sps_partition(
    a: Seq<bool>,
    x: SpsPartition,
    log2_ctu_size_minus5: u8,
    chroma_format_idc: u8,
    s: Seq<bool>,
)
    requires
        sps_partition_can(x, log2_ctu_size_minus5, chroma_format_idc),
        fits(x.sps_partition_constraints_override_enabled_flag as nat, 1),
        !(x.sps_max_mtt_hierarchy_depth_intra_slice_luma != 0)
            ==> x.sps_log2_diff_max_bt_min_qt_intra_slice_luma == 0,
        !(x.sps_max_mtt_hierarchy_depth_intra_slice_luma != 0)
            ==> x.sps_log2_diff_max_tt_min_qt_intra_slice_luma == 0,
        if chroma_format_idc != 0 {
            fits(x.sps_qtbtt_dual_tree_intra_flag as nat, 1)
        } else {
            x.sps_qtbtt_dual_tree_intra_flag == 0
        },
        !(x.sps_qtbtt_dual_tree_intra_flag != 0) ==> x.sps_log2_diff_min_qt_min_cb_intra_slice_chroma == 0,
        !(x.sps_qtbtt_dual_tree_intra_flag != 0) ==> x.sps_max_mtt_hierarchy_depth_intra_slice_chroma == 0,
        !(x.sps_qtbtt_dual_tree_intra_flag != 0 && x.sps_max_mtt_hierarchy_depth_intra_slice_chroma != 0)
            ==> x.sps_log2_diff_max_bt_min_qt_intra_slice_chroma == 0,
        !(x.sps_qtbtt_dual_tree_intra_flag != 0 && x.sps_max_mtt_hierarchy_depth_intra_slice_chroma != 0)
            ==> x.sps_log2_diff_max_tt_min_qt_intra_slice_chroma == 0,
        !(x.sps_max_mtt_hierarchy_depth_inter_slice != 0) ==> x.sps_log2_diff_max_bt_min_qt_inter_slice == 0,
        !(x.sps_max_mtt_hierarchy_depth_inter_slice != 0) ==> x.sps_log2_diff_max_tt_min_qt_inter_slice == 0,
        pre(put_sps_partition(a, x, log2_ctu_size_minus5, chroma_format_idc), s),
    ensures
        sps_partition_at(s, a.len(), log2_ctu_size_minus5, chroma_format_idc) == Ok::<(SpsPartition, nat), Fault>(
            (x, put_sps_partition(a, x, log2_ctu_size_minus5, chroma_format_idc).len()),
        ),
{
    assert(sps_partition_ok(x, log2_ctu_size_minus5, chroma_format_idc)) by {
        broadcast use crate::bits::law_fits_small;

        reveal(sps_partition_ok);
        reveal(sps_partition_can);
    }
    law_pre_put_sps_partition(a, x, log2_ctu_size_minus5, chroma_format_idc, s);
}

/// The transform fields of an SPS.
#[derive(Clone, Copy)]
pub struct SpsTransform {
    pub sps_max_luma_transform_size_64_flag: u8,
    pub sps_transform_skip_enabled_flag: u8,
    pub sps_log2_transform_skip_max_size_minus2: u32,
    pub sps_bdpcm_enabled_flag: u8,
    pub sps_mts_enabled_flag: u8,
    pub sps_explicit_mts_intra_enabled_flag: u8,
    pub sps_explicit_mts_inter_enabled_flag: u8,
    pub sps_lfnst_enabled_flag: u8,
    pub sps_joint_cbcr_enabled_flag: u8,
    pub sps_same_qp_table_for_chroma_flag: u8,
}

/// The transform fields at position `p`.
#[verifier::opaque]
pub open spec fn sps_transform_at(
    s: Seq<bool>,
    p: nat,
    log2_ctu_size_minus5: u8,
    chroma_format_idc: u8,
) -> Read<SpsTransform> {
    let sps_max_luma_transform_size_64_flag = u8_if(s, p, 1, log2_ctu_size_minus5 > 0, 0);
    let p = adv_if(p, 1, log2_ctu_size_minus5 > 0);
    let sps_transform_skip_enabled_flag = u8_at(s, p, 1);
    let p = adv(p, 1);
    match ue_if(s, p, sps_transform_skip_enabled_flag != 0, 0)
    { Err(f) => Err(f), Ok((sps_log2_transform_skip_max_size_minus2, p)) => {
    if sps_log2_transform_skip_max_size_minus2 > 3 { Err(Fault::Invalid) } else {
    let sps_bdpcm_enabled_flag = u8_if(s, p, 1, sps_transform_skip_enabled_flag != 0, 0);
    let p = adv_if(p, 1, sps_transform_skip_enabled_flag != 0);
    let sps_mts_enabled_flag = u8_at(s, p, 1);
    let p = adv(p, 1);
    let sps_explicit_mts_intra_enabled_flag = u8_if(s, p, 1, sps_mts_enabled_flag != 0, 0);
    let p = adv_if(p, 1, sps_mts_enabled_flag != 0);
    let sps_explicit_mts_inter_enabled_flag = u8_if(s, p, 1, sps_mts_enabled_flag != 0, 0);
    let p = adv_if(p, 1, sps_mts_enabled_flag != 0);
    let sps_lfnst_enabled_flag = u8_at(s, p, 1);
    let p = adv(p, 1);
    let sps_joint_cbcr_enabled_flag = u8_if(s, p, 1, chroma_format_idc != 0, 0);
    let p = adv_if(p, 1, chroma_format_idc != 0);
    let sps_same_qp_table_for_chroma_flag = u8_if(s, p, 1, chroma_format_idc != 0, 1);
    let p = adv_if(p, 1, chroma_format_idc != 0);
    Ok((
        SpsTransform {
            sps_max_luma_transform_size_64_flag,
            sps_transform_skip_enabled_flag,
            sps_log2_transform_skip_max_size_minus2,
            sps_bdpcm_enabled_flag,
            sps_mts_enabled_flag,
            sps_explicit_mts_intra_enabled_flag,
            sps_explicit_mts_inter_enabled_flag,
            sps_lfnst_enabled_flag,
            sps_joint_cbcr_enabled_flag,
            sps_same_qp_table_for_chroma_flag,
        },
        p,
    ))
    }}}
}

/// The bits `a` followed by the transform fields.
#[verifier::opaque]
pub open spec fn put_sps_transform(
    a: Seq<bool>,
    x: SpsTransform,
    log2_ctu_size_minus5: u8,
    chroma_format_idc: u8,
) -> Seq<bool> {
    let a = put_bit_if(a, x.sps_max_luma_transform_size_64_flag as nat, log2_ctu_size_minus5 > 0);
    let a = put_bit(a, x.sps_transform_skip_enabled_flag as nat);
    let a = put_ue_if(
        a,
        x.sps_log2_transform_skip_max_size_minus2 as nat,
        x.sps_transform_skip_enabled_flag != 0,
    );
    let a = put_bit_if(a, x.sps_bdpcm_enabled_flag as nat, x.sps_transform_skip_enabled_flag != 0);
    let a = put_bit(a, x.sps_mts_enabled_flag as nat);
    let a = put_bit_if(a, x.sps_explicit_mts_intra_enabled_flag as nat, x.sps_mts_enabled_flag != 0);
    let a = put_bit_if(a, x.sps_explicit_mts_inter_enabled_flag as nat, x.sps_mts_enabled_flag != 0);
    let a = put_bit(a, x.sps_lfnst_enabled_flag as nat);
    let a = put_bit_if(a, x.sps_joint_cbcr_enabled_flag as nat, chroma_format_idc != 0);
    let a = put_bit_if(a, x.sps_same_qp_table_for_chroma_flag as nat, chroma_format_idc != 0);
    a
}

/// The values of the transform fields that reading can give.
#[verifier::opaque]
pub open spec fn sps_transform_ok(x: SpsTransform, log2_ctu_size_minus5: u8, chroma_format_idc: u8) -> bool {
    &&& if log2_ctu_size_minus5 > 0 {
        fits(x.sps_max_luma_transform_size_64_flag as nat, 1)
    } else {
        x.sps_max_luma_transform_size_64_flag == 0
    }
    &&& fits(x.sps_transform_skip_enabled_flag as nat, 1)
    &&& if x.sps_transform_skip_enabled_flag != 0 {
        ue_fits(x.sps_log2_transform_skip_max_size_minus2 as nat)
    } else {
        x.sps_log2_transform_skip_max_size_minus2 == 0
    }
    &&& x.sps_log2_transform_skip_max_size_minus2 <= 3
    &&& x.sps_transform_skip_enabled_flag == 0 || x.sps_log2_transform_skip_max_size_minus2 <= 3
    &&& if x.sps_transform_skip_enabled_flag != 0 {
        fits(x.sps_bdpcm_enabled_flag as nat, 1)
    } else {
        x.sps_bdpcm_enabled_flag == 0
    }
    &&& fits(x.sps_mts_enabled_flag as nat, 1)
    &&& if x.sps_mts_enabled_flag != 0 {
        fits(x.sps_explicit_mts_intra_enabled_flag as nat, 1)
    } else {
        x.sps_explicit_mts_intra_enabled_flag == 0
    }
    &&& if x.sps_mts_enabled_flag != 0 {
        fits(x.sps_explicit_mts_inter_enabled_flag as nat, 1)
    } else {
        x.sps_explicit_mts_inter_enabled_flag == 0
    }
    &&& fits(x.sps_lfnst_enabled_flag as nat, 1)
    &&& if chroma_format_idc != 0 {
        fits(x.sps_joint_cbcr_enabled_flag as nat, 1)
    } else {
        x.sps_joint_cbcr_enabled_flag == 0
    }
    &&& if chroma_format_idc != 0 {
        fits(x.sps_same_qp_table_for_chroma_flag as nat, 1)
    } else {
        x.sps_same_qp_table_for_chroma_flag == 1
    }
}

/// The values of the transform fields that the writer accepts.
#[verifier::opaque]
pub open spec fn sps_transform_can(x: SpsTransform, log2_ctu_size_minus5: u8, chroma_format_idc: u8) -> bool {
    &&& x.sps_transform_skip_enabled_flag != 0 ==> ue_fits(x.sps_log2_transform_skip_max_size_minus2 as nat)
    &&& x.sps_transform_skip_enabled_flag == 0 || x.sps_log2_transform_skip_max_size_minus2 <= 3
}

/// Parses the transform fields.
fn parse_sps_transform(
    r: &mut BitReader<'_>,
    log2_ctu_size_minus5: u8,
    chroma_format_idc: u8,
) -> (res: Result<SpsTransform, BitstreamError>)
    ensures
        read_is(
            sps_transform_at(old(r).bits(), old(r).pos(), log2_ctu_size_minus5, chroma_format_idc),
            res,
            *old(r),
            *final(r),
        ),
{
    proof {
        reveal(sps_transform_at);
    }
    let sps_max_luma_transform_size_64_flag: u8 = r.bit_if(log2_ctu_size_minus5 > 0, 0);
    let sps_transform_skip_enabled_flag: u8 = r.bit();
    let sps_log2_transform_skip_max_size_minus2: u32 = r.ue_if(sps_transform_skip_enabled_flag != 0, 0)?;
    if sps_log2_transform_skip_max_size_minus2 > 3 {
        return Err(
            Message::new("sps_log2_transform_skip_max_size_minus2 = ")
                .num(sps_log2_transform_skip_max_size_minus2 as i128)
                .with(" > 3 (7.4.3.4)")
                .invalid(),
        );
    }
    let sps_bdpcm_enabled_flag: u8 = r.bit_if(sps_transform_skip_enabled_flag != 0, 0);
    let sps_mts_enabled_flag: u8 = r.bit();
    let sps_explicit_mts_intra_enabled_flag: u8 = r.bit_if(sps_mts_enabled_flag != 0, 0);
    let sps_explicit_mts_inter_enabled_flag: u8 = r.bit_if(sps_mts_enabled_flag != 0, 0);
    let sps_lfnst_enabled_flag: u8 = r.bit();
    let sps_joint_cbcr_enabled_flag: u8 = r.bit_if(chroma_format_idc != 0, 0);
    let sps_same_qp_table_for_chroma_flag: u8 = r.bit_if(chroma_format_idc != 0, 1);
    Ok(
        SpsTransform {
            sps_max_luma_transform_size_64_flag,
            sps_transform_skip_enabled_flag,
            sps_log2_transform_skip_max_size_minus2,
            sps_bdpcm_enabled_flag,
            sps_mts_enabled_flag,
            sps_explicit_mts_intra_enabled_flag,
            sps_explicit_mts_inter_enabled_flag,
            sps_lfnst_enabled_flag,
            sps_joint_cbcr_enabled_flag,
            sps_same_qp_table_for_chroma_flag,
        },
    )
}

/// Emits the transform fields, the inverse of [`parse_sps_transform`].
fn write_sps_transform(
    w: &mut BitWriter,
    x: &SpsTransform,
    log2_ctu_size_minus5: u8,
    chroma_format_idc: u8,
) -> (res: Result<(), BitstreamError>)
    ensures
        write_is(
            sps_transform_can(*x, log2_ctu_size_minus5, chroma_format_idc),
            put_sps_transform(old(w)@, *x, log2_ctu_size_minus5, chroma_format_idc),
            res,
            final(w)@,
        ),
{
    proof {
        reveal(put_sps_transform);
        reveal(sps_transform_can);
    }
    w.write_bit_if(x.sps_max_luma_transform_size_64_flag as u32, log2_ctu_size_minus5 > 0);
    w.write_bit(x.sps_transform_skip_enabled_flag as u32);
    w.write_ue_if(x.sps_log2_transform_skip_max_size_minus2, x.sps_transform_skip_enabled_flag != 0)?;
    if !(x.sps_transform_skip_enabled_flag == 0 || x.sps_log2_transform_skip_max_size_minus2 <= 3) {
        return Err(BitstreamError::invalid("sps_log2_transform_skip_max_size_minus2 > 3 (7.4.3.4)"));
    }
    w.write_bit_if(x.sps_bdpcm_enabled_flag as u32, x.sps_transform_skip_enabled_flag != 0);
    w.write_bit(x.sps_mts_enabled_flag as u32);
    w.write_bit_if(x.sps_explicit_mts_intra_enabled_flag as u32, x.sps_mts_enabled_flag != 0);
    w.write_bit_if(x.sps_explicit_mts_inter_enabled_flag as u32, x.sps_mts_enabled_flag != 0);
    w.write_bit(x.sps_lfnst_enabled_flag as u32);
    w.write_bit_if(x.sps_joint_cbcr_enabled_flag as u32, chroma_format_idc != 0);
    w.write_bit_if(x.sps_same_qp_table_for_chroma_flag as u32, chroma_format_idc != 0);
    Ok(())
}

/// Writing the transform fields gives back the bits it was read from.
pub broadcast proof fn law_put_sps_transform_at(
    s: Seq<bool>,
    p: nat,
    log2_ctu_size_minus5: u8,
    chroma_format_idc: u8,
)
    ensures
        #[trigger] sps_transform_at(s, p, log2_ctu_size_minus5, chroma_format_idc) matches Ok((x, q)) ==> {
            &&& sps_transform_ok(x, log2_ctu_size_minus5, chroma_format_idc)
            &&& sps_transform_can(x, log2_ctu_size_minus5, chroma_format_idc)
            &&& within(s, q)
                ==> within(s, p)
                && put_sps_transform(upto(s, p), x, log2_ctu_size_minus5, chroma_format_idc) == upto(s, q)
        },
{
    broadcast use crate::bits::group_write_read;

    reveal(sps_transform_at);
    reveal(put_sps_transform);
    reveal(sps_transform_ok);
    reveal(sps_transform_can);
}

/// Reading gives back the transform fields as it was written.
pub broadcast proof fn law_pre_put_sps_transform(
    a: Seq<bool>,
    x: SpsTransform,
    log2_ctu_size_minus5: u8,
    chroma_format_idc: u8,
    s: Seq<bool>,
)
    requires
        #[trigger] pre(put_sps_transform(a, x, log2_ctu_size_minus5, chroma_format_idc), s),
        sps_transform_ok(x, log2_ctu_size_minus5, chroma_format_idc),
    ensures
        pre(a, s),
        sps_transform_can(x, log2_ctu_size_minus5, chroma_format_idc),
        sps_transform_at(s, a.len(), log2_ctu_size_minus5, chroma_format_idc) == Ok::<(SpsTransform, nat), Fault>(
            (x, put_sps_transform(a, x, log2_ctu_size_minus5, chroma_format_idc).len()),
        ),
{
    broadcast use crate::bits::group_read_written;

    reveal(sps_transform_at);
    reveal(put_sps_transform);
    reveal(sps_transform_ok);
    reveal(sps_transform_can);
}

/// The layout of the transform fields: reading at `p` gives `x` and ends at `q`
/// if and only if these elements stand there in this order, and the values are
/// allowed.
pub proof fn law_layout_sps_transform(
    s: Seq<bool>,
    p: nat,
    log2_ctu_size_minus5: u8,
    chroma_format_idc: u8,
    x: SpsTransform,
    q: nat,
)
    ensures
        sps_transform_at(s, p, log2_ctu_size_minus5, chroma_format_idc) == Ok::<(SpsTransform, nat), Fault>((x, q)) <==> ({
            &&& cursor(s, p)
                .u8_if(log2_ctu_size_minus5 > 0, 1, x.sps_max_luma_transform_size_64_flag, 0)
                .u8(1, x.sps_transform_skip_enabled_flag)
                .ue_if(x.sps_transform_skip_enabled_flag != 0, x.sps_log2_transform_skip_max_size_minus2, 0)
                .u8_if(x.sps_transform_skip_enabled_flag != 0, 1, x.sps_bdpcm_enabled_flag, 0)
                .u8(1, x.sps_mts_enabled_flag)
                .u8_if(x.sps_mts_enabled_flag != 0, 1, x.sps_explicit_mts_intra_enabled_flag, 0)
                .u8_if(x.sps_mts_enabled_flag != 0, 1, x.sps_explicit_mts_inter_enabled_flag, 0)
                .u8(1, x.sps_lfnst_enabled_flag)
                .u8_if(chroma_format_idc != 0, 1, x.sps_joint_cbcr_enabled_flag, 0)
                .u8_if(chroma_format_idc != 0, 1, x.sps_same_qp_table_for_chroma_flag, 1)
                .ends(q)
            &&& x.sps_log2_transform_skip_max_size_minus2 <= 3
        }),
{
    reveal(sps_transform_at);
    reveal(adv_if);
    reveal(u8_if);
    reveal(ue_if);
}

/// Reading the transform fields fails only with an error of this class.
pub broadcast proof fn law_faults_sps_transform(
    s: Seq<bool>,
    p: nat,
    log2_ctu_size_minus5: u8,
    chroma_format_idc: u8,
)
    ensures
        #[trigger] sps_transform_at(s, p, log2_ctu_size_minus5, chroma_format_idc) matches Err(f)
            ==> f == Fault::Invalid,
{
    broadcast use crate::bits::law_faults_ue;

    reveal(sps_transform_at);
    reveal(ue_if);
}

/// What the writer accepts reads back: the transform fields, where each field
/// fits its width and what is not coded has the value that is taken for it.
pub proof fn law_reads_sps_transform(
    a: Seq<bool>,
    x: SpsTransform,
    log2_ctu_size_minus5: u8,
    chroma_format_idc: u8,
    s: Seq<bool>,
)
    requires
        sps_transform_can(x, log2_ctu_size_minus5, chroma_format_idc),
        if log2_ctu_size_minus5 > 0 {
            fits(x.sps_max_luma_transform_size_64_flag as nat, 1)
        } else {
            x.sps_max_luma_transform_size_64_flag == 0
        },
        fits(x.sps_transform_skip_enabled_flag as nat, 1),
        !(x.sps_transform_skip_enabled_flag != 0) ==> x.sps_log2_transform_skip_max_size_minus2 == 0,
        if x.sps_transform_skip_enabled_flag != 0 {
            fits(x.sps_bdpcm_enabled_flag as nat, 1)
        } else {
            x.sps_bdpcm_enabled_flag == 0
        },
        fits(x.sps_mts_enabled_flag as nat, 1),
        if x.sps_mts_enabled_flag != 0 {
            fits(x.sps_explicit_mts_intra_enabled_flag as nat, 1)
        } else {
            x.sps_explicit_mts_intra_enabled_flag == 0
        },
        if x.sps_mts_enabled_flag != 0 {
            fits(x.sps_explicit_mts_inter_enabled_flag as nat, 1)
        } else {
            x.sps_explicit_mts_inter_enabled_flag == 0
        },
        fits(x.sps_lfnst_enabled_flag as nat, 1),
        if chroma_format_idc != 0 {
            fits(x.sps_joint_cbcr_enabled_flag as nat, 1)
        } else {
            x.sps_joint_cbcr_enabled_flag == 0
        },
        if chroma_format_idc != 0 {
            fits(x.sps_same_qp_table_for_chroma_flag as nat, 1)
        } else {
            x.sps_same_qp_table_for_chroma_flag == 1
        },
        pre(put_sps_transform(a, x, log2_ctu_size_minus5, chroma_format_idc), s),
    ensures
        sps_transform_at(s, a.len(), log2_ctu_size_minus5, chroma_format_idc) == Ok::<(SpsTransform, nat), Fault>(
            (x, put_sps_transform(a, x, log2_ctu_size_minus5, chroma_format_idc).len()),
        ),
{
    assert(sps_transform_ok(x, log2_ctu_size_minus5, chroma_format_idc)) by {
        broadcast use crate::bits::law_fits_small;

        reveal(sps_transform_ok);
        reveal(sps_transform_can);
    }
    law_pre_put_sps_transform(a, x, log2_ctu_size_minus5, chroma_format_idc, s);
}

/// The loop filter and reference list flags of an SPS.
#[derive(Clone, Copy)]
pub struct SpsFilters {
    pub sps_sao_enabled_flag: u8,
    pub sps_alf_enabled_flag: u8,
    pub sps_ccalf_enabled_flag: u8,
    pub sps_lmcs_enabled_flag: u8,
    pub sps_weighted_pred_flag: u8,
    pub sps_weighted_bipred_flag: u8,
    pub sps_long_term_ref_pics_flag: u8,
    pub sps_inter_layer_prediction_enabled_flag: u8,
    pub sps_idr_rpl_present_flag: u8,
    pub sps_rpl1_same_as_rpl0_flag: u8,
}

/// The loop filter and reference list flags at position `p`.
#[verifier::opaque]
pub open spec fn sps_filters_at(s: Seq<bool>, p: nat, chroma_format_idc: u8, vps_id: u8) -> Read<SpsFilters> {
    let sps_sao_enabled_flag = u8_at(s, p, 1);
    let p = adv(p, 1);
    let sps_alf_enabled_flag = u8_at(s, p, 1);
    let p = adv(p, 1);
    let sps_ccalf_enabled_flag = u8_if(s, p, 1, sps_alf_enabled_flag != 0 && chroma_format_idc != 0, 0);
    let p = adv_if(p, 1, sps_alf_enabled_flag != 0 && chroma_format_idc != 0);
    let sps_lmcs_enabled_flag = u8_at(s, p, 1);
    let p = adv(p, 1);
    let sps_weighted_pred_flag = u8_at(s, p, 1);
    let p = adv(p, 1);
    let sps_weighted_bipred_flag = u8_at(s, p, 1);
    let p = adv(p, 1);
    let sps_long_term_ref_pics_flag = u8_at(s, p, 1);
    let p = adv(p, 1);
    let sps_inter_layer_prediction_enabled_flag = u8_if(s, p, 1, vps_id > 0, 0);
    let p = adv_if(p, 1, vps_id > 0);
    let sps_idr_rpl_present_flag = u8_at(s, p, 1);
    let p = adv(p, 1);
    let sps_rpl1_same_as_rpl0_flag = u8_at(s, p, 1);
    let p = adv(p, 1);
    Ok(
        (
            SpsFilters {
                sps_sao_enabled_flag,
                sps_alf_enabled_flag,
                sps_ccalf_enabled_flag,
                sps_lmcs_enabled_flag,
                sps_weighted_pred_flag,
                sps_weighted_bipred_flag,
                sps_long_term_ref_pics_flag,
                sps_inter_layer_prediction_enabled_flag,
                sps_idr_rpl_present_flag,
                sps_rpl1_same_as_rpl0_flag,
            },
            p,
        ),
    )
}

/// The bits `a` followed by the loop filter and reference list flags.
#[verifier::opaque]
pub open spec fn put_sps_filters(
    a: Seq<bool>,
    x: SpsFilters,
    chroma_format_idc: u8,
    vps_id: u8,
) -> Seq<bool> {
    let a = put_bit(a, x.sps_sao_enabled_flag as nat);
    let a = put_bit(a, x.sps_alf_enabled_flag as nat);
    let a = put_bit_if(
        a,
        x.sps_ccalf_enabled_flag as nat,
        x.sps_alf_enabled_flag != 0 && chroma_format_idc != 0,
    );
    let a = put_bit(a, x.sps_lmcs_enabled_flag as nat);
    let a = put_bit(a, x.sps_weighted_pred_flag as nat);
    let a = put_bit(a, x.sps_weighted_bipred_flag as nat);
    let a = put_bit(a, x.sps_long_term_ref_pics_flag as nat);
    let a = put_bit_if(a, x.sps_inter_layer_prediction_enabled_flag as nat, vps_id > 0);
    let a = put_bit(a, x.sps_idr_rpl_present_flag as nat);
    let a = put_bit(a, x.sps_rpl1_same_as_rpl0_flag as nat);
    a
}

/// The values of the loop filter and reference list flags that reading can
/// give.
#[verifier::opaque]
pub open spec fn sps_filters_ok(x: SpsFilters, chroma_format_idc: u8, vps_id: u8) -> bool {
    &&& fits(x.sps_sao_enabled_flag as nat, 1)
    &&& fits(x.sps_alf_enabled_flag as nat, 1)
    &&& if x.sps_alf_enabled_flag != 0
        && chroma_format_idc != 0 {
            fits(x.sps_ccalf_enabled_flag as nat, 1)
        } else {
            x.sps_ccalf_enabled_flag == 0
        }
    &&& fits(x.sps_lmcs_enabled_flag as nat, 1)
    &&& fits(x.sps_weighted_pred_flag as nat, 1)
    &&& fits(x.sps_weighted_bipred_flag as nat, 1)
    &&& fits(x.sps_long_term_ref_pics_flag as nat, 1)
    &&& if vps_id > 0 {
        fits(x.sps_inter_layer_prediction_enabled_flag as nat, 1)
    } else {
        x.sps_inter_layer_prediction_enabled_flag == 0
    }
    &&& fits(x.sps_idr_rpl_present_flag as nat, 1)
    &&& fits(x.sps_rpl1_same_as_rpl0_flag as nat, 1)
}

/// The values of the loop filter and reference list flags that the writer
/// accepts.
#[verifier::opaque]
pub open spec fn sps_filters_can(x: SpsFilters, chroma_format_idc: u8, vps_id: u8) -> bool {
    true
}

/// Parses the loop filter and reference list flags.
fn parse_sps_filters(
    r: &mut BitReader<'_>,
    chroma_format_idc: u8,
    vps_id: u8,
) -> (res: Result<SpsFilters, BitstreamError>)
    ensures
        read_is(
            sps_filters_at(old(r).bits(), old(r).pos(), chroma_format_idc, vps_id),
            res,
            *old(r),
            *final(r),
        ),
{
    proof {
        reveal(sps_filters_at);
    }
    let sps_sao_enabled_flag: u8 = r.bit();
    let sps_alf_enabled_flag: u8 = r.bit();
    let sps_ccalf_enabled_flag: u8 = r.bit_if(sps_alf_enabled_flag != 0 && chroma_format_idc != 0, 0);
    let sps_lmcs_enabled_flag: u8 = r.bit();
    let sps_weighted_pred_flag: u8 = r.bit();
    let sps_weighted_bipred_flag: u8 = r.bit();
    let sps_long_term_ref_pics_flag: u8 = r.bit();
    let sps_inter_layer_prediction_enabled_flag: u8 = r.bit_if(vps_id > 0, 0);
    let sps_idr_rpl_present_flag: u8 = r.bit();
    let sps_rpl1_same_as_rpl0_flag: u8 = r.bit();
    Ok(
        SpsFilters {
            sps_sao_enabled_flag,
            sps_alf_enabled_flag,
            sps_ccalf_enabled_flag,
            sps_lmcs_enabled_flag,
            sps_weighted_pred_flag,
            sps_weighted_bipred_flag,
            sps_long_term_ref_pics_flag,
            sps_inter_layer_prediction_enabled_flag,
            sps_idr_rpl_present_flag,
            sps_rpl1_same_as_rpl0_flag,
        },
    )
}

/// Emits the loop filter and reference list flags, the inverse of [`parse_sps_filters`].
fn write_sps_filters(
    w: &mut BitWriter,
    x: &SpsFilters,
    chroma_format_idc: u8,
    vps_id: u8,
) -> (res: Result<(), BitstreamError>)
    ensures
        write_is(
            sps_filters_can(*x, chroma_format_idc, vps_id),
            put_sps_filters(old(w)@, *x, chroma_format_idc, vps_id),
            res,
            final(w)@,
        ),
{
    proof {
        reveal(put_sps_filters);
        reveal(sps_filters_can);
    }
    w.write_bit(x.sps_sao_enabled_flag as u32);
    w.write_bit(x.sps_alf_enabled_flag as u32);
    w.write_bit_if(x.sps_ccalf_enabled_flag as u32, x.sps_alf_enabled_flag != 0 && chroma_format_idc != 0);
    w.write_bit(x.sps_lmcs_enabled_flag as u32);
    w.write_bit(x.sps_weighted_pred_flag as u32);
    w.write_bit(x.sps_weighted_bipred_flag as u32);
    w.write_bit(x.sps_long_term_ref_pics_flag as u32);
    w.write_bit_if(x.sps_inter_layer_prediction_enabled_flag as u32, vps_id > 0);
    w.write_bit(x.sps_idr_rpl_present_flag as u32);
    w.write_bit(x.sps_rpl1_same_as_rpl0_flag as u32);
    Ok(())
}

/// Writing the loop filter and reference list flags gives back the bits it was
/// read from.
pub broadcast proof fn law_put_sps_filters_at(s: Seq<bool>, p: nat, chroma_format_idc: u8, vps_id: u8)
    ensures
        #[trigger] sps_filters_at(s, p, chroma_format_idc, vps_id) matches Ok((x, q)) ==> {
            &&& sps_filters_ok(x, chroma_format_idc, vps_id)
            &&& sps_filters_can(x, chroma_format_idc, vps_id)
            &&& within(s, q)
                ==> within(s, p)
                && put_sps_filters(upto(s, p), x, chroma_format_idc, vps_id) == upto(s, q)
        },
{
    broadcast use crate::bits::group_write_read;

    reveal(sps_filters_at);
    reveal(put_sps_filters);
    reveal(sps_filters_ok);
    reveal(sps_filters_can);
}

/// Reading gives back the loop filter and reference list flags as it was
/// written.
pub broadcast proof fn law_pre_put_sps_filters(
    a: Seq<bool>,
    x: SpsFilters,
    chroma_format_idc: u8,
    vps_id: u8,
    s: Seq<bool>,
)
    requires
        #[trigger] pre(put_sps_filters(a, x, chroma_format_idc, vps_id), s),
        sps_filters_ok(x, chroma_format_idc, vps_id),
    ensures
        pre(a, s),
        sps_filters_can(x, chroma_format_idc, vps_id),
        sps_filters_at(s, a.len(), chroma_format_idc, vps_id) == Ok::<(SpsFilters, nat), Fault>(
            (x, put_sps_filters(a, x, chroma_format_idc, vps_id).len()),
        ),
{
    broadcast use crate::bits::group_read_written;

    reveal(sps_filters_at);
    reveal(put_sps_filters);
    reveal(sps_filters_ok);
    reveal(sps_filters_can);
}

/// The layout of the loop filter and reference list flags: reading at `p` gives
/// `x` and ends at `q` if and only if these elements stand there in this order.
pub proof fn law_layout_sps_filters(
    s: Seq<bool>,
    p: nat,
    chroma_format_idc: u8,
    vps_id: u8,
    x: SpsFilters,
    q: nat,
)
    ensures
        sps_filters_at(s, p, chroma_format_idc, vps_id) == Ok::<(SpsFilters, nat), Fault>((x, q))
            <==> cursor(s, p)
            .u8(1, x.sps_sao_enabled_flag)
            .u8(1, x.sps_alf_enabled_flag)
            .u8_if(x.sps_alf_enabled_flag != 0 && chroma_format_idc != 0, 1, x.sps_ccalf_enabled_flag, 0)
            .u8(1, x.sps_lmcs_enabled_flag)
            .u8(1, x.sps_weighted_pred_flag)
            .u8(1, x.sps_weighted_bipred_flag)
            .u8(1, x.sps_long_term_ref_pics_flag)
            .u8_if(vps_id > 0, 1, x.sps_inter_layer_prediction_enabled_flag, 0)
            .u8(1, x.sps_idr_rpl_present_flag)
            .u8(1, x.sps_rpl1_same_as_rpl0_flag)
            .ends(q),
{
    reveal(sps_filters_at);
    reveal(adv_if);
    reveal(u8_if);
}

/// Reading the loop filter and reference list flags never fails.
pub broadcast proof fn law_faults_sps_filters(s: Seq<bool>, p: nat, chroma_format_idc: u8, vps_id: u8)
    ensures
        #[trigger] sps_filters_at(s, p, chroma_format_idc, vps_id) is Ok,
{
    reveal(sps_filters_at);
}

/// What the writer accepts reads back: the loop filter and reference list
/// flags, where each field fits its width and what is not coded has the value
/// that is taken for it.
pub proof fn law_reads_sps_filters(
    a: Seq<bool>,
    x: SpsFilters,
    chroma_format_idc: u8,
    vps_id: u8,
    s: Seq<bool>,
)
    requires
        sps_filters_can(x, chroma_format_idc, vps_id),
        fits(x.sps_sao_enabled_flag as nat, 1),
        fits(x.sps_alf_enabled_flag as nat, 1),
        if x.sps_alf_enabled_flag != 0 && chroma_format_idc != 0 {
            fits(x.sps_ccalf_enabled_flag as nat, 1)
        } else {
            x.sps_ccalf_enabled_flag == 0
        },
        fits(x.sps_lmcs_enabled_flag as nat, 1),
        fits(x.sps_weighted_pred_flag as nat, 1),
        fits(x.sps_weighted_bipred_flag as nat, 1),
        fits(x.sps_long_term_ref_pics_flag as nat, 1),
        if vps_id > 0 {
            fits(x.sps_inter_layer_prediction_enabled_flag as nat, 1)
        } else {
            x.sps_inter_layer_prediction_enabled_flag == 0
        },
        fits(x.sps_idr_rpl_present_flag as nat, 1),
        fits(x.sps_rpl1_same_as_rpl0_flag as nat, 1),
        pre(put_sps_filters(a, x, chroma_format_idc, vps_id), s),
    ensures
        sps_filters_at(s, a.len(), chroma_format_idc, vps_id) == Ok::<(SpsFilters, nat), Fault>(
            (x, put_sps_filters(a, x, chroma_format_idc, vps_id).len()),
        ),
{
    assert(sps_filters_ok(x, chroma_format_idc, vps_id)) by {
        broadcast use crate::bits::law_fits_small;

        reveal(sps_filters_ok);
        reveal(sps_filters_can);
    }
    law_pre_put_sps_filters(a, x, chroma_format_idc, vps_id, s);
}

/// The inter prediction flags of an SPS.
#[derive(Clone, Copy)]
pub struct SpsInter {
    pub sps_ref_wraparound_enabled_flag: u8,
    pub sps_temporal_mvp_enabled_flag: u8,
    pub sps_sbtmvp_enabled_flag: u8,
    pub sps_amvr_enabled_flag: u8,
    pub sps_bdof_enabled_flag: u8,
    pub sps_bdof_control_present_in_ph_flag: u8,
    pub sps_smvd_enabled_flag: u8,
    pub sps_dmvr_enabled_flag: u8,
    pub sps_dmvr_control_present_in_ph_flag: u8,
    pub sps_mmvd_enabled_flag: u8,
    pub sps_mmvd_fullpel_only_enabled_flag: u8,
}

/// The inter prediction flags at position `p`.
#[verifier::opaque]
pub open spec fn sps_inter_at(s: Seq<bool>, p: nat) -> Read<SpsInter> {
    let sps_ref_wraparound_enabled_flag = u8_at(s, p, 1);
    let p = adv(p, 1);
    let sps_temporal_mvp_enabled_flag = u8_at(s, p, 1);
    let p = adv(p, 1);
    let sps_sbtmvp_enabled_flag = u8_if(s, p, 1, sps_temporal_mvp_enabled_flag != 0, 0);
    let p = adv_if(p, 1, sps_temporal_mvp_enabled_flag != 0);
    let sps_amvr_enabled_flag = u8_at(s, p, 1);
    let p = adv(p, 1);
    let sps_bdof_enabled_flag = u8_at(s, p, 1);
    let p = adv(p, 1);
    let sps_bdof_control_present_in_ph_flag = u8_if(s, p, 1, sps_bdof_enabled_flag != 0, 0);
    let p = adv_if(p, 1, sps_bdof_enabled_flag != 0);
    let sps_smvd_enabled_flag = u8_at(s, p, 1);
    let p = adv(p, 1);
    let sps_dmvr_enabled_flag = u8_at(s, p, 1);
    let p = adv(p, 1);
    let sps_dmvr_control_present_in_ph_flag = u8_if(s, p, 1, sps_dmvr_enabled_flag != 0, 0);
    let p = adv_if(p, 1, sps_dmvr_enabled_flag != 0);
    let sps_mmvd_enabled_flag = u8_at(s, p, 1);
    let p = adv(p, 1);
    let sps_mmvd_fullpel_only_enabled_flag = u8_if(s, p, 1, sps_mmvd_enabled_flag != 0, 0);
    let p = adv_if(p, 1, sps_mmvd_enabled_flag != 0);
    Ok(
        (
            SpsInter {
                sps_ref_wraparound_enabled_flag,
                sps_temporal_mvp_enabled_flag,
                sps_sbtmvp_enabled_flag,
                sps_amvr_enabled_flag,
                sps_bdof_enabled_flag,
                sps_bdof_control_present_in_ph_flag,
                sps_smvd_enabled_flag,
                sps_dmvr_enabled_flag,
                sps_dmvr_control_present_in_ph_flag,
                sps_mmvd_enabled_flag,
                sps_mmvd_fullpel_only_enabled_flag,
            },
            p,
        ),
    )
}

/// The bits `a` followed by the inter prediction flags.
#[verifier::opaque]
pub open spec fn put_sps_inter(a: Seq<bool>, x: SpsInter) -> Seq<bool> {
    let a = put_bit(a, x.sps_ref_wraparound_enabled_flag as nat);
    let a = put_bit(a, x.sps_temporal_mvp_enabled_flag as nat);
    let a = put_bit_if(a, x.sps_sbtmvp_enabled_flag as nat, x.sps_temporal_mvp_enabled_flag != 0);
    let a = put_bit(a, x.sps_amvr_enabled_flag as nat);
    let a = put_bit(a, x.sps_bdof_enabled_flag as nat);
    let a = put_bit_if(a, x.sps_bdof_control_present_in_ph_flag as nat, x.sps_bdof_enabled_flag != 0);
    let a = put_bit(a, x.sps_smvd_enabled_flag as nat);
    let a = put_bit(a, x.sps_dmvr_enabled_flag as nat);
    let a = put_bit_if(a, x.sps_dmvr_control_present_in_ph_flag as nat, x.sps_dmvr_enabled_flag != 0);
    let a = put_bit(a, x.sps_mmvd_enabled_flag as nat);
    let a = put_bit_if(a, x.sps_mmvd_fullpel_only_enabled_flag as nat, x.sps_mmvd_enabled_flag != 0);
    a
}

/// The values of the inter prediction flags that reading can give.
#[verifier::opaque]
pub open spec fn sps_inter_ok(x: SpsInter) -> bool {
    &&& fits(x.sps_ref_wraparound_enabled_flag as nat, 1)
    &&& fits(x.sps_temporal_mvp_enabled_flag as nat, 1)
    &&& if x.sps_temporal_mvp_enabled_flag != 0 {
        fits(x.sps_sbtmvp_enabled_flag as nat, 1)
    } else {
        x.sps_sbtmvp_enabled_flag == 0
    }
    &&& fits(x.sps_amvr_enabled_flag as nat, 1)
    &&& fits(x.sps_bdof_enabled_flag as nat, 1)
    &&& if x.sps_bdof_enabled_flag != 0 {
        fits(x.sps_bdof_control_present_in_ph_flag as nat, 1)
    } else {
        x.sps_bdof_control_present_in_ph_flag == 0
    }
    &&& fits(x.sps_smvd_enabled_flag as nat, 1)
    &&& fits(x.sps_dmvr_enabled_flag as nat, 1)
    &&& if x.sps_dmvr_enabled_flag != 0 {
        fits(x.sps_dmvr_control_present_in_ph_flag as nat, 1)
    } else {
        x.sps_dmvr_control_present_in_ph_flag == 0
    }
    &&& fits(x.sps_mmvd_enabled_flag as nat, 1)
    &&& if x.sps_mmvd_enabled_flag != 0 {
        fits(x.sps_mmvd_fullpel_only_enabled_flag as nat, 1)
    } else {
        x.sps_mmvd_fullpel_only_enabled_flag == 0
    }
}

/// The values of the inter prediction flags that the writer accepts.
#[verifier::opaque]
pub open spec fn sps_inter_can(x: SpsInter) -> bool {
    true
}

/// Parses the inter prediction flags.
fn parse_sps_inter(r: &mut BitReader<'_>) -> (res: Result<SpsInter, BitstreamError>)
    ensures
        read_is(sps_inter_at(old(r).bits(), old(r).pos()), res, *old(r), *final(r)),
{
    proof {
        reveal(sps_inter_at);
    }
    let sps_ref_wraparound_enabled_flag: u8 = r.bit();
    let sps_temporal_mvp_enabled_flag: u8 = r.bit();
    let sps_sbtmvp_enabled_flag: u8 = r.bit_if(sps_temporal_mvp_enabled_flag != 0, 0);
    let sps_amvr_enabled_flag: u8 = r.bit();
    let sps_bdof_enabled_flag: u8 = r.bit();
    let sps_bdof_control_present_in_ph_flag: u8 = r.bit_if(sps_bdof_enabled_flag != 0, 0);
    let sps_smvd_enabled_flag: u8 = r.bit();
    let sps_dmvr_enabled_flag: u8 = r.bit();
    let sps_dmvr_control_present_in_ph_flag: u8 = r.bit_if(sps_dmvr_enabled_flag != 0, 0);
    let sps_mmvd_enabled_flag: u8 = r.bit();
    let sps_mmvd_fullpel_only_enabled_flag: u8 = r.bit_if(sps_mmvd_enabled_flag != 0, 0);
    Ok(
        SpsInter {
            sps_ref_wraparound_enabled_flag,
            sps_temporal_mvp_enabled_flag,
            sps_sbtmvp_enabled_flag,
            sps_amvr_enabled_flag,
            sps_bdof_enabled_flag,
            sps_bdof_control_present_in_ph_flag,
            sps_smvd_enabled_flag,
            sps_dmvr_enabled_flag,
            sps_dmvr_control_present_in_ph_flag,
            sps_mmvd_enabled_flag,
            sps_mmvd_fullpel_only_enabled_flag,
        },
    )
}

/// Emits the inter prediction flags, the inverse of [`parse_sps_inter`].
fn write_sps_inter(w: &mut BitWriter, x: &SpsInter) -> (res: Result<(), BitstreamError>)
    ensures
        write_is(sps_inter_can(*x), put_sps_inter(old(w)@, *x), res, final(w)@),
{
    proof {
        reveal(put_sps_inter);
        reveal(sps_inter_can);
    }
    w.write_bit(x.sps_ref_wraparound_enabled_flag as u32);
    w.write_bit(x.sps_temporal_mvp_enabled_flag as u32);
    w.write_bit_if(x.sps_sbtmvp_enabled_flag as u32, x.sps_temporal_mvp_enabled_flag != 0);
    w.write_bit(x.sps_amvr_enabled_flag as u32);
    w.write_bit(x.sps_bdof_enabled_flag as u32);
    w.write_bit_if(x.sps_bdof_control_present_in_ph_flag as u32, x.sps_bdof_enabled_flag != 0);
    w.write_bit(x.sps_smvd_enabled_flag as u32);
    w.write_bit(x.sps_dmvr_enabled_flag as u32);
    w.write_bit_if(x.sps_dmvr_control_present_in_ph_flag as u32, x.sps_dmvr_enabled_flag != 0);
    w.write_bit(x.sps_mmvd_enabled_flag as u32);
    w.write_bit_if(x.sps_mmvd_fullpel_only_enabled_flag as u32, x.sps_mmvd_enabled_flag != 0);
    Ok(())
}

/// Writing the inter prediction flags gives back the bits it was read from.
pub broadcast proof fn law_put_sps_inter_at(s: Seq<bool>, p: nat)
    ensures
        #[trigger] sps_inter_at(s, p) matches Ok((x, q)) ==> {
            &&& sps_inter_ok(x)
            &&& sps_inter_can(x)
            &&& within(s, q) ==> within(s, p) && put_sps_inter(upto(s, p), x) == upto(s, q)
        },
{
    broadcast use crate::bits::group_write_read;

    reveal(sps_inter_at);
    reveal(put_sps_inter);
    reveal(sps_inter_ok);
    reveal(sps_inter_can);
}

/// Reading gives back the inter prediction flags as it was written.
pub broadcast proof fn law_pre_put_sps_inter(a: Seq<bool>, x: SpsInter, s: Seq<bool>)
    requires
        #[trigger] pre(put_sps_inter(a, x), s),
        sps_inter_ok(x),
    ensures
        pre(a, s),
        sps_inter_can(x),
        sps_inter_at(s, a.len()) == Ok::<(SpsInter, nat), Fault>((x, put_sps_inter(a, x).len())),
{
    broadcast use crate::bits::group_read_written;

    reveal(sps_inter_at);
    reveal(put_sps_inter);
    reveal(sps_inter_ok);
    reveal(sps_inter_can);
}

/// The layout of the inter prediction flags: reading at `p` gives `x` and ends
/// at `q` if and only if these elements stand there in this order.
pub proof fn law_layout_sps_inter(s: Seq<bool>, p: nat, x: SpsInter, q: nat)
    ensures
        sps_inter_at(s, p) == Ok::<(SpsInter, nat), Fault>((x, q)) <==> cursor(s, p)
            .u8(1, x.sps_ref_wraparound_enabled_flag)
            .u8(1, x.sps_temporal_mvp_enabled_flag)
            .u8_if(x.sps_temporal_mvp_enabled_flag != 0, 1, x.sps_sbtmvp_enabled_flag, 0)
            .u8(1, x.sps_amvr_enabled_flag)
            .u8(1, x.sps_bdof_enabled_flag)
            .u8_if(x.sps_bdof_enabled_flag != 0, 1, x.sps_bdof_control_present_in_ph_flag, 0)
            .u8(1, x.sps_smvd_enabled_flag)
            .u8(1, x.sps_dmvr_enabled_flag)
            .u8_if(x.sps_dmvr_enabled_flag != 0, 1, x.sps_dmvr_control_present_in_ph_flag, 0)
            .u8(1, x.sps_mmvd_enabled_flag)
            .u8_if(x.sps_mmvd_enabled_flag != 0, 1, x.sps_mmvd_fullpel_only_enabled_flag, 0)
            .ends(q),
{
    reveal(sps_inter_at);
    reveal(adv_if);
    reveal(u8_if);
}

/// Reading the inter prediction flags never fails.
pub broadcast proof fn law_faults_sps_inter(s: Seq<bool>, p: nat)
    ensures
        #[trigger] sps_inter_at(s, p) is Ok,
{
    reveal(sps_inter_at);
}

/// What the writer accepts reads back: the inter prediction flags, where each
/// field fits its width and what is not coded has the value that is taken for
/// it.
pub proof fn law_reads_sps_inter(a: Seq<bool>, x: SpsInter, s: Seq<bool>)
    requires
        sps_inter_can(x),
        fits(x.sps_ref_wraparound_enabled_flag as nat, 1),
        fits(x.sps_temporal_mvp_enabled_flag as nat, 1),
        if x.sps_temporal_mvp_enabled_flag != 0 {
            fits(x.sps_sbtmvp_enabled_flag as nat, 1)
        } else {
            x.sps_sbtmvp_enabled_flag == 0
        },
        fits(x.sps_amvr_enabled_flag as nat, 1),
        fits(x.sps_bdof_enabled_flag as nat, 1),
        if x.sps_bdof_enabled_flag != 0 {
            fits(x.sps_bdof_control_present_in_ph_flag as nat, 1)
        } else {
            x.sps_bdof_control_present_in_ph_flag == 0
        },
        fits(x.sps_smvd_enabled_flag as nat, 1),
        fits(x.sps_dmvr_enabled_flag as nat, 1),
        if x.sps_dmvr_enabled_flag != 0 {
            fits(x.sps_dmvr_control_present_in_ph_flag as nat, 1)
        } else {
            x.sps_dmvr_control_present_in_ph_flag == 0
        },
        fits(x.sps_mmvd_enabled_flag as nat, 1),
        if x.sps_mmvd_enabled_flag != 0 {
            fits(x.sps_mmvd_fullpel_only_enabled_flag as nat, 1)
        } else {
            x.sps_mmvd_fullpel_only_enabled_flag == 0
        },
        pre(put_sps_inter(a, x), s),
    ensures
        sps_inter_at(s, a.len()) == Ok::<(SpsInter, nat), Fault>((x, put_sps_inter(a, x).len())),
{
    assert(sps_inter_ok(x)) by {
        broadcast use crate::bits::law_fits_small;

        reveal(sps_inter_ok);
        reveal(sps_inter_can);
    }
    law_pre_put_sps_inter(a, x, s);
}

/// The merge and affine fields of an SPS.
#[derive(Clone, Copy)]
pub struct SpsMerge {
    pub sps_six_minus_max_num_merge_cand: u32,
    pub sps_sbt_enabled_flag: u8,
    pub sps_affine_enabled_flag: u8,
    pub sps_five_minus_max_num_subblock_merge_cand: u32,
    pub sps_6param_affine_enabled_flag: u8,
    pub sps_affine_amvr_enabled_flag: u8,
    pub sps_affine_prof_enabled_flag: u8,
    pub sps_prof_control_present_in_ph_flag: u8,
    pub sps_bcw_enabled_flag: u8,
    pub sps_ciip_enabled_flag: u8,
    pub sps_gpm_enabled_flag: u8,
    pub sps_max_num_merge_cand_minus_max_num_gpm_cand: u32,
    pub sps_log2_parallel_merge_level_minus2: u32,
}

/// The merge and affine fields at position `p`.
#[verifier::opaque]
pub open spec fn sps_merge_at(
    s: Seq<bool>,
    p: nat,
    sbtmvp: u8,
    amvr: u8,
    log2_ctu_size_minus5: u8,
) -> Read<SpsMerge> {
    match ue_at(s, p) { Err(f) => Err(f), Ok((sps_six_minus_max_num_merge_cand, p)) => {
    if sps_six_minus_max_num_merge_cand > 5 { Err(Fault::Invalid) } else {
    let sps_sbt_enabled_flag = u8_at(s, p, 1);
    let p = adv(p, 1);
    let sps_affine_enabled_flag = u8_at(s, p, 1);
    let p = adv(p, 1);
    match ue_if(s, p, sps_affine_enabled_flag != 0, 0)
    { Err(f) => Err(f), Ok((sps_five_minus_max_num_subblock_merge_cand, p)) => {
    if !(sps_affine_enabled_flag == 0 || (sps_five_minus_max_num_subblock_merge_cand <= 5 && sps_five_minus_max_num_subblock_merge_cand + sbtmvp as u32 <= 5)) {
        Err(Fault::Invalid)
    } else {
    let sps_6param_affine_enabled_flag = u8_if(s, p, 1, sps_affine_enabled_flag != 0, 0);
    let p = adv_if(p, 1, sps_affine_enabled_flag != 0);
    let sps_affine_amvr_enabled_flag = u8_if(s, p, 1, sps_affine_enabled_flag != 0 && amvr != 0, 0);
    let p = adv_if(p, 1, sps_affine_enabled_flag != 0 && amvr != 0);
    let sps_affine_prof_enabled_flag = u8_if(s, p, 1, sps_affine_enabled_flag != 0, 0);
    let p = adv_if(p, 1, sps_affine_enabled_flag != 0);
    let sps_prof_control_present_in_ph_flag = u8_if(
        s,
        p,
        1,
        sps_affine_enabled_flag != 0 && sps_affine_prof_enabled_flag != 0,
        0,
    );
    let p = adv_if(p, 1, sps_affine_enabled_flag != 0 && sps_affine_prof_enabled_flag != 0);
    let sps_bcw_enabled_flag = u8_at(s, p, 1);
    let p = adv(p, 1);
    let sps_ciip_enabled_flag = u8_at(s, p, 1);
    let p = adv(p, 1);
    let sps_gpm_enabled_flag = u8_if(s, p, 1, sps_six_minus_max_num_merge_cand <= 4, 0);
    let p = adv_if(p, 1, sps_six_minus_max_num_merge_cand <= 4);
    match ue_if(s, p, sps_gpm_enabled_flag != 0 && sps_six_minus_max_num_merge_cand <= 3, 0)
    { Err(f) => Err(f), Ok((sps_max_num_merge_cand_minus_max_num_gpm_cand, p)) => {
    if !(sps_six_minus_max_num_merge_cand > 3 || sps_max_num_merge_cand_minus_max_num_gpm_cand <= 4 - sps_six_minus_max_num_merge_cand) {
        Err(Fault::Invalid)
    } else {
    match ue_at(s, p) { Err(f) => Err(f), Ok((sps_log2_parallel_merge_level_minus2, p)) => {
    if !(sps_log2_parallel_merge_level_minus2 <= log2_ctu_size_minus5 as u32 + 3) {
        Err(Fault::Invalid)
    } else {
    Ok((
        SpsMerge {
            sps_six_minus_max_num_merge_cand,
            sps_sbt_enabled_flag,
            sps_affine_enabled_flag,
            sps_five_minus_max_num_subblock_merge_cand,
            sps_6param_affine_enabled_flag,
            sps_affine_amvr_enabled_flag,
            sps_affine_prof_enabled_flag,
            sps_prof_control_present_in_ph_flag,
            sps_bcw_enabled_flag,
            sps_ciip_enabled_flag,
            sps_gpm_enabled_flag,
            sps_max_num_merge_cand_minus_max_num_gpm_cand,
            sps_log2_parallel_merge_level_minus2,
        },
        p,
    ))
    }}}}}}}}}}}}
}

/// The bits `a` followed by the merge and affine fields.
#[verifier::opaque]
pub open spec fn put_sps_merge(
    a: Seq<bool>,
    x: SpsMerge,
    sbtmvp: u8,
    amvr: u8,
    log2_ctu_size_minus5: u8,
) -> Seq<bool> {
    let a = put_ue(a, x.sps_six_minus_max_num_merge_cand as nat);
    let a = put_bit(a, x.sps_sbt_enabled_flag as nat);
    let a = put_bit(a, x.sps_affine_enabled_flag as nat);
    let a = put_ue_if(a, x.sps_five_minus_max_num_subblock_merge_cand as nat, x.sps_affine_enabled_flag != 0);
    let a = put_bit_if(a, x.sps_6param_affine_enabled_flag as nat, x.sps_affine_enabled_flag != 0);
    let a = put_bit_if(a, x.sps_affine_amvr_enabled_flag as nat, x.sps_affine_enabled_flag != 0 && amvr != 0);
    let a = put_bit_if(a, x.sps_affine_prof_enabled_flag as nat, x.sps_affine_enabled_flag != 0);
    let a = put_bit_if(
        a,
        x.sps_prof_control_present_in_ph_flag as nat,
        x.sps_affine_enabled_flag != 0 && x.sps_affine_prof_enabled_flag != 0,
    );
    let a = put_bit(a, x.sps_bcw_enabled_flag as nat);
    let a = put_bit(a, x.sps_ciip_enabled_flag as nat);
    let a = put_bit_if(a, x.sps_gpm_enabled_flag as nat, x.sps_six_minus_max_num_merge_cand <= 4);
    let a = put_ue_if(
        a,
        x.sps_max_num_merge_cand_minus_max_num_gpm_cand as nat,
        x.sps_gpm_enabled_flag != 0 && x.sps_six_minus_max_num_merge_cand <= 3,
    );
    let a = put_ue(a, x.sps_log2_parallel_merge_level_minus2 as nat);
    a
}

/// The values of the merge and affine fields that reading can give.
#[verifier::opaque]
pub open spec fn sps_merge_ok(x: SpsMerge, sbtmvp: u8, amvr: u8, log2_ctu_size_minus5: u8) -> bool {
    &&& x.sps_six_minus_max_num_merge_cand <= 5
    &&& fits(x.sps_sbt_enabled_flag as nat, 1)
    &&& fits(x.sps_affine_enabled_flag as nat, 1)
    &&& if x.sps_affine_enabled_flag != 0 {
        ue_fits(x.sps_five_minus_max_num_subblock_merge_cand as nat)
    } else {
        x.sps_five_minus_max_num_subblock_merge_cand == 0
    }
    &&& x.sps_affine_enabled_flag == 0
        || (
            x.sps_five_minus_max_num_subblock_merge_cand <= 5
                && x.sps_five_minus_max_num_subblock_merge_cand + sbtmvp as u32 <= 5
        )
    &&& if x.sps_affine_enabled_flag != 0 {
        fits(x.sps_6param_affine_enabled_flag as nat, 1)
    } else {
        x.sps_6param_affine_enabled_flag == 0
    }
    &&& if x.sps_affine_enabled_flag != 0
        && amvr != 0 {
            fits(x.sps_affine_amvr_enabled_flag as nat, 1)
        } else {
            x.sps_affine_amvr_enabled_flag == 0
        }
    &&& if x.sps_affine_enabled_flag != 0 {
        fits(x.sps_affine_prof_enabled_flag as nat, 1)
    } else {
        x.sps_affine_prof_enabled_flag == 0
    }
    &&& if x.sps_affine_enabled_flag != 0
        && x.sps_affine_prof_enabled_flag != 0 {
            fits(x.sps_prof_control_present_in_ph_flag as nat, 1)
        } else {
            x.sps_prof_control_present_in_ph_flag == 0
        }
    &&& fits(x.sps_bcw_enabled_flag as nat, 1)
    &&& fits(x.sps_ciip_enabled_flag as nat, 1)
    &&& if x.sps_six_minus_max_num_merge_cand <= 4 {
        fits(x.sps_gpm_enabled_flag as nat, 1)
    } else {
        x.sps_gpm_enabled_flag == 0
    }
    &&& if x.sps_gpm_enabled_flag != 0
        && x.sps_six_minus_max_num_merge_cand <= 3 {
            ue_fits(x.sps_max_num_merge_cand_minus_max_num_gpm_cand as nat)
        } else {
            x.sps_max_num_merge_cand_minus_max_num_gpm_cand == 0
        }
    &&& x.sps_six_minus_max_num_merge_cand > 3
        || x.sps_max_num_merge_cand_minus_max_num_gpm_cand <= 4 - x.sps_six_minus_max_num_merge_cand
    &&& x.sps_gpm_enabled_flag == 0
        || x.sps_six_minus_max_num_merge_cand > 3
        || x.sps_max_num_merge_cand_minus_max_num_gpm_cand <= 4 - x.sps_six_minus_max_num_merge_cand
    &&& ue_fits(x.sps_log2_parallel_merge_level_minus2 as nat)
    &&& x.sps_log2_parallel_merge_level_minus2 <= log2_ctu_size_minus5 as u32 + 3
}

/// The values of the merge and affine fields that the writer accepts.
#[verifier::opaque]
pub open spec fn sps_merge_can(x: SpsMerge, sbtmvp: u8, amvr: u8, log2_ctu_size_minus5: u8) -> bool {
    &&& x.sps_six_minus_max_num_merge_cand <= 5
    &&& x.sps_affine_enabled_flag != 0 ==> ue_fits(x.sps_five_minus_max_num_subblock_merge_cand as nat)
    &&& x.sps_gpm_enabled_flag != 0
        && x.sps_six_minus_max_num_merge_cand <= 3
        ==> ue_fits(x.sps_max_num_merge_cand_minus_max_num_gpm_cand as nat)
    &&& x.sps_gpm_enabled_flag == 0
        || x.sps_six_minus_max_num_merge_cand > 3
        || x.sps_max_num_merge_cand_minus_max_num_gpm_cand <= 4 - x.sps_six_minus_max_num_merge_cand
    &&& ue_fits(x.sps_log2_parallel_merge_level_minus2 as nat)
    &&& x.sps_log2_parallel_merge_level_minus2 <= log2_ctu_size_minus5 as u32 + 3
}

/// Parses the merge and affine fields.
fn parse_sps_merge(
    r: &mut BitReader<'_>,
    sbtmvp: u8,
    amvr: u8,
    log2_ctu_size_minus5: u8,
) -> (res: Result<SpsMerge, BitstreamError>)
    ensures
        read_is(
            sps_merge_at(old(r).bits(), old(r).pos(), sbtmvp, amvr, log2_ctu_size_minus5),
            res,
            *old(r),
            *final(r),
        ),
{
    proof {
        reveal(sps_merge_at);
    }
    let sps_six_minus_max_num_merge_cand: u32 = r.ue()?;
    if sps_six_minus_max_num_merge_cand > 5 {
        return Err(
            Message::new("sps_six_minus_max_num_merge_cand = ")
                .num(sps_six_minus_max_num_merge_cand as i128)
                .with(" > 5 (7.4.3.4)")
                .invalid(),
        );
    }
    let sps_sbt_enabled_flag: u8 = r.bit();
    let sps_affine_enabled_flag: u8 = r.bit();
    let sps_five_minus_max_num_subblock_merge_cand: u32 = r.ue_if(sps_affine_enabled_flag != 0, 0)?;
    if !(
        sps_affine_enabled_flag == 0
        || (sps_five_minus_max_num_subblock_merge_cand <= 5 && sps_five_minus_max_num_subblock_merge_cand + sbtmvp as u32 <= 5)
    ) {
        return Err(
            Message::new("sps_five_minus_max_num_subblock_merge_cand = ")
                .num(sps_five_minus_max_num_subblock_merge_cand as i128)
                .with(" > 5 - sps_sbtmvp_enabled_flag (7.4.3.4)")
                .invalid(),
        );
    }
    let sps_6param_affine_enabled_flag: u8 = r.bit_if(sps_affine_enabled_flag != 0, 0);
    let sps_affine_amvr_enabled_flag: u8 = r.bit_if(sps_affine_enabled_flag != 0 && amvr != 0, 0);
    let sps_affine_prof_enabled_flag: u8 = r.bit_if(sps_affine_enabled_flag != 0, 0);
    let sps_prof_control_present_in_ph_flag: u8 = r.bit_if(
        sps_affine_enabled_flag != 0 && sps_affine_prof_enabled_flag != 0,
        0,
    );
    let sps_bcw_enabled_flag: u8 = r.bit();
    let sps_ciip_enabled_flag: u8 = r.bit();
    let sps_gpm_enabled_flag: u8 = r.bit_if(sps_six_minus_max_num_merge_cand <= 4, 0);
    let sps_max_num_merge_cand_minus_max_num_gpm_cand: u32 = r.ue_if(
        sps_gpm_enabled_flag != 0 && sps_six_minus_max_num_merge_cand <= 3,
        0,
    )?;
    if !(
        sps_six_minus_max_num_merge_cand > 3
        || sps_max_num_merge_cand_minus_max_num_gpm_cand <= 4 - sps_six_minus_max_num_merge_cand
    ) {
        return Err(
            Message::new("sps_max_num_merge_cand_minus_max_num_gpm_cand = ")
                .num(sps_max_num_merge_cand_minus_max_num_gpm_cand as i128)
                .with(" > MaxNumMergeCand - 2 (7.4.3.4)")
                .invalid(),
        );
    }
    let sps_log2_parallel_merge_level_minus2: u32 = r.ue()?;
    if !(sps_log2_parallel_merge_level_minus2 <= log2_ctu_size_minus5 as u32 + 3) {
        return Err(
            Message::new("sps_log2_parallel_merge_level_minus2 = ")
                .num(sps_log2_parallel_merge_level_minus2 as i128)
                .with(" > CtbLog2SizeY - 2 (7.4.3.4)")
                .invalid(),
        );
    }
    Ok(
        SpsMerge {
            sps_six_minus_max_num_merge_cand,
            sps_sbt_enabled_flag,
            sps_affine_enabled_flag,
            sps_five_minus_max_num_subblock_merge_cand,
            sps_6param_affine_enabled_flag,
            sps_affine_amvr_enabled_flag,
            sps_affine_prof_enabled_flag,
            sps_prof_control_present_in_ph_flag,
            sps_bcw_enabled_flag,
            sps_ciip_enabled_flag,
            sps_gpm_enabled_flag,
            sps_max_num_merge_cand_minus_max_num_gpm_cand,
            sps_log2_parallel_merge_level_minus2,
        },
    )
}

/// Emits the merge and affine fields, the inverse of [`parse_sps_merge`].
fn write_sps_merge(
    w: &mut BitWriter,
    x: &SpsMerge,
    sbtmvp: u8,
    amvr: u8,
    log2_ctu_size_minus5: u8,
) -> (res: Result<(), BitstreamError>)
    ensures
        write_is(
            sps_merge_can(*x, sbtmvp, amvr, log2_ctu_size_minus5),
            put_sps_merge(old(w)@, *x, sbtmvp, amvr, log2_ctu_size_minus5),
            res,
            final(w)@,
        ),
{
    proof {
        reveal(put_sps_merge);
        reveal(sps_merge_can);
    }
    w.write_ue(x.sps_six_minus_max_num_merge_cand)?;
    if x.sps_six_minus_max_num_merge_cand > 5 {
        return Err(BitstreamError::invalid("sps_six_minus_max_num_merge_cand > 5 (7.4.3.4)"));
    }
    w.write_bit(x.sps_sbt_enabled_flag as u32);
    w.write_bit(x.sps_affine_enabled_flag as u32);
    w.write_ue_if(x.sps_five_minus_max_num_subblock_merge_cand, x.sps_affine_enabled_flag != 0)?;
    w.write_bit_if(x.sps_6param_affine_enabled_flag as u32, x.sps_affine_enabled_flag != 0);
    w.write_bit_if(x.sps_affine_amvr_enabled_flag as u32, x.sps_affine_enabled_flag != 0 && amvr != 0);
    w.write_bit_if(x.sps_affine_prof_enabled_flag as u32, x.sps_affine_enabled_flag != 0);
    w.write_bit_if(
        x.sps_prof_control_present_in_ph_flag as u32,
        x.sps_affine_enabled_flag != 0 && x.sps_affine_prof_enabled_flag != 0,
    );
    w.write_bit(x.sps_bcw_enabled_flag as u32);
    w.write_bit(x.sps_ciip_enabled_flag as u32);
    w.write_bit_if(x.sps_gpm_enabled_flag as u32, x.sps_six_minus_max_num_merge_cand <= 4);
    w.write_ue_if(
        x.sps_max_num_merge_cand_minus_max_num_gpm_cand,
        x.sps_gpm_enabled_flag != 0 && x.sps_six_minus_max_num_merge_cand <= 3,
    )?;
    if !(
        x.sps_gpm_enabled_flag == 0
        || x.sps_six_minus_max_num_merge_cand > 3
        || x.sps_max_num_merge_cand_minus_max_num_gpm_cand <= 4 - x.sps_six_minus_max_num_merge_cand
    ) {
        return Err(
            BitstreamError::invalid("sps_max_num_merge_cand_minus_max_num_gpm_cand > MaxNumMergeCand - 2"),
        );
    }
    w.write_ue(x.sps_log2_parallel_merge_level_minus2)?;
    if !(x.sps_log2_parallel_merge_level_minus2 <= log2_ctu_size_minus5 as u32 + 3) {
        return Err(
            BitstreamError::invalid("sps_log2_parallel_merge_level_minus2 > CtbLog2SizeY - 2 (7.4.3.4)"),
        );
    }
    Ok(())
}

/// Writing the merge and affine fields gives back the bits it was read from.
pub broadcast proof fn law_put_sps_merge_at(
    s: Seq<bool>,
    p: nat,
    sbtmvp: u8,
    amvr: u8,
    log2_ctu_size_minus5: u8,
)
    ensures
        #[trigger] sps_merge_at(s, p, sbtmvp, amvr, log2_ctu_size_minus5) matches Ok((x, q)) ==> {
            &&& sps_merge_ok(x, sbtmvp, amvr, log2_ctu_size_minus5)
            &&& sps_merge_can(x, sbtmvp, amvr, log2_ctu_size_minus5)
            &&& within(s, q)
                ==> within(s, p)
                && put_sps_merge(upto(s, p), x, sbtmvp, amvr, log2_ctu_size_minus5) == upto(s, q)
        },
{
    broadcast use crate::bits::group_write_read;

    reveal(sps_merge_at);
    reveal(put_sps_merge);
    reveal(sps_merge_ok);
    reveal(sps_merge_can);
}

/// Reading gives back the merge and affine fields as it was written.
pub broadcast proof fn law_pre_put_sps_merge(
    a: Seq<bool>,
    x: SpsMerge,
    sbtmvp: u8,
    amvr: u8,
    log2_ctu_size_minus5: u8,
    s: Seq<bool>,
)
    requires
        #[trigger] pre(put_sps_merge(a, x, sbtmvp, amvr, log2_ctu_size_minus5), s),
        sps_merge_ok(x, sbtmvp, amvr, log2_ctu_size_minus5),
    ensures
        pre(a, s),
        sps_merge_can(x, sbtmvp, amvr, log2_ctu_size_minus5),
        sps_merge_at(s, a.len(), sbtmvp, amvr, log2_ctu_size_minus5) == Ok::<(SpsMerge, nat), Fault>(
            (x, put_sps_merge(a, x, sbtmvp, amvr, log2_ctu_size_minus5).len()),
        ),
{
    broadcast use crate::bits::group_read_written;

    reveal(sps_merge_at);
    reveal(put_sps_merge);
    reveal(sps_merge_ok);
    reveal(sps_merge_can);
}

/// The layout of the merge and affine fields: reading at `p` gives `x` and ends
/// at `q` if and only if these elements stand there in this order, and the
/// values are allowed.
pub proof fn law_layout_sps_merge(
    s: Seq<bool>,
    p: nat,
    sbtmvp: u8,
    amvr: u8,
    log2_ctu_size_minus5: u8,
    x: SpsMerge,
    q: nat,
)
    ensures
        sps_merge_at(s, p, sbtmvp, amvr, log2_ctu_size_minus5) == Ok::<(SpsMerge, nat), Fault>((x, q)) <==> ({
            &&& cursor(s, p)
                .ue(x.sps_six_minus_max_num_merge_cand)
                .u8(1, x.sps_sbt_enabled_flag)
                .u8(1, x.sps_affine_enabled_flag)
                .ue_if(x.sps_affine_enabled_flag != 0, x.sps_five_minus_max_num_subblock_merge_cand, 0)
                .u8_if(x.sps_affine_enabled_flag != 0, 1, x.sps_6param_affine_enabled_flag, 0)
                .u8_if(x.sps_affine_enabled_flag != 0 && amvr != 0, 1, x.sps_affine_amvr_enabled_flag, 0)
                .u8_if(x.sps_affine_enabled_flag != 0, 1, x.sps_affine_prof_enabled_flag, 0)
                .u8_if(
                    x.sps_affine_enabled_flag != 0 && x.sps_affine_prof_enabled_flag != 0,
                    1,
                    x.sps_prof_control_present_in_ph_flag,
                    0,
                )
                .u8(1, x.sps_bcw_enabled_flag)
                .u8(1, x.sps_ciip_enabled_flag)
                .u8_if(x.sps_six_minus_max_num_merge_cand <= 4, 1, x.sps_gpm_enabled_flag, 0)
                .ue_if(
                    x.sps_gpm_enabled_flag != 0 && x.sps_six_minus_max_num_merge_cand <= 3,
                    x.sps_max_num_merge_cand_minus_max_num_gpm_cand,
                    0,
                )
                .ue(x.sps_log2_parallel_merge_level_minus2)
                .ends(q)
            &&& x.sps_six_minus_max_num_merge_cand <= 5
            &&& (
                x.sps_affine_enabled_flag == 0
                    || (
                        x.sps_five_minus_max_num_subblock_merge_cand <= 5
                            && x.sps_five_minus_max_num_subblock_merge_cand + sbtmvp as u32 <= 5
                    )
            )
            &&& (
                x.sps_six_minus_max_num_merge_cand > 3
                    || x.sps_max_num_merge_cand_minus_max_num_gpm_cand <= 4 - x.sps_six_minus_max_num_merge_cand
            )
            &&& x.sps_log2_parallel_merge_level_minus2 <= log2_ctu_size_minus5 as u32 + 3
        }),
{
    reveal(sps_merge_at);
    reveal(adv_if);
    reveal(u8_if);
    reveal(ue_if);
}

/// Reading the merge and affine fields fails only with an error of this class.
pub broadcast proof fn law_faults_sps_merge(
    s: Seq<bool>,
    p: nat,
    sbtmvp: u8,
    amvr: u8,
    log2_ctu_size_minus5: u8,
)
    ensures
        #[trigger] sps_merge_at(s, p, sbtmvp, amvr, log2_ctu_size_minus5) matches Err(f)
            ==> f == Fault::Invalid,
{
    broadcast use crate::bits::law_faults_ue;

    reveal(sps_merge_at);
    reveal(ue_if);
}

/// What the writer accepts reads back: the merge and affine fields, where each
/// field fits its width and what is not coded has the value that is taken for
/// it.
pub proof fn law_reads_sps_merge(
    a: Seq<bool>,
    x: SpsMerge,
    sbtmvp: u8,
    amvr: u8,
    log2_ctu_size_minus5: u8,
    s: Seq<bool>,
)
    requires
        sps_merge_can(x, sbtmvp, amvr, log2_ctu_size_minus5),
        fits(x.sps_sbt_enabled_flag as nat, 1),
        fits(x.sps_affine_enabled_flag as nat, 1),
        !(x.sps_affine_enabled_flag != 0) ==> x.sps_five_minus_max_num_subblock_merge_cand == 0,
        if x.sps_affine_enabled_flag != 0 {
            fits(x.sps_6param_affine_enabled_flag as nat, 1)
        } else {
            x.sps_6param_affine_enabled_flag == 0
        },
        if x.sps_affine_enabled_flag != 0 && amvr != 0 {
            fits(x.sps_affine_amvr_enabled_flag as nat, 1)
        } else {
            x.sps_affine_amvr_enabled_flag == 0
        },
        if x.sps_affine_enabled_flag != 0 {
            fits(x.sps_affine_prof_enabled_flag as nat, 1)
        } else {
            x.sps_affine_prof_enabled_flag == 0
        },
        if x.sps_affine_enabled_flag != 0 && x.sps_affine_prof_enabled_flag != 0 {
            fits(x.sps_prof_control_present_in_ph_flag as nat, 1)
        } else {
            x.sps_prof_control_present_in_ph_flag == 0
        },
        fits(x.sps_bcw_enabled_flag as nat, 1),
        fits(x.sps_ciip_enabled_flag as nat, 1),
        if x.sps_six_minus_max_num_merge_cand <= 4 {
            fits(x.sps_gpm_enabled_flag as nat, 1)
        } else {
            x.sps_gpm_enabled_flag == 0
        },
        !(x.sps_gpm_enabled_flag != 0 && x.sps_six_minus_max_num_merge_cand <= 3)
            ==> x.sps_max_num_merge_cand_minus_max_num_gpm_cand == 0,
        x.sps_affine_enabled_flag != 0 ==> x.sps_five_minus_max_num_subblock_merge_cand + sbtmvp <= 5,
        pre(put_sps_merge(a, x, sbtmvp, amvr, log2_ctu_size_minus5), s),
    ensures
        sps_merge_at(s, a.len(), sbtmvp, amvr, log2_ctu_size_minus5) == Ok::<(SpsMerge, nat), Fault>(
            (x, put_sps_merge(a, x, sbtmvp, amvr, log2_ctu_size_minus5).len()),
        ),
{
    assert(sps_merge_ok(x, sbtmvp, amvr, log2_ctu_size_minus5)) by {
        broadcast use crate::bits::law_fits_small;

        reveal(sps_merge_ok);
        reveal(sps_merge_can);
    }
    law_pre_put_sps_merge(a, x, sbtmvp, amvr, log2_ctu_size_minus5, s);
}

/// The intra and screen content fields of an SPS.
#[derive(Clone, Copy)]
pub struct SpsIntra {
    pub sps_isp_enabled_flag: u8,
    pub sps_mrl_enabled_flag: u8,
    pub sps_mip_enabled_flag: u8,
    pub sps_cclm_enabled_flag: u8,
    pub sps_chroma_horizontal_collocated_flag: u8,
    pub sps_chroma_vertical_collocated_flag: u8,
    pub sps_palette_enabled_flag: u8,
    pub sps_act_enabled_flag: u8,
    pub sps_min_qp_prime_ts: u32,
    pub sps_ibc_enabled_flag: u8,
    pub sps_six_minus_max_num_ibc_merge_cand: u32,
}

/// The intra and screen content fields at position `p`.
#[verifier::opaque]
pub open spec fn sps_intra_at(
    s: Seq<bool>,
    p: nat,
    chroma_format_idc: u8,
    max_64: u8,
    transform_skip: u8,
) -> Read<SpsIntra> {
    let sps_isp_enabled_flag = u8_at(s, p, 1);
    let p = adv(p, 1);
    let sps_mrl_enabled_flag = u8_at(s, p, 1);
    let p = adv(p, 1);
    let sps_mip_enabled_flag = u8_at(s, p, 1);
    let p = adv(p, 1);
    let sps_cclm_enabled_flag = u8_if(s, p, 1, chroma_format_idc != 0, 0);
    let p = adv_if(p, 1, chroma_format_idc != 0);
    let sps_chroma_horizontal_collocated_flag = u8_if(s, p, 1, chroma_format_idc == 1, 1);
    let p = adv_if(p, 1, chroma_format_idc == 1);
    let sps_chroma_vertical_collocated_flag = u8_if(s, p, 1, chroma_format_idc == 1, 1);
    let p = adv_if(p, 1, chroma_format_idc == 1);
    let sps_palette_enabled_flag = u8_at(s, p, 1);
    let p = adv(p, 1);
    let sps_act_enabled_flag = u8_if(s, p, 1, chroma_format_idc == 3 && max_64 == 0, 0);
    let p = adv_if(p, 1, chroma_format_idc == 3 && max_64 == 0);
    match ue_if(s, p, transform_skip != 0 || sps_palette_enabled_flag != 0, 0)
    { Err(f) => Err(f), Ok((sps_min_qp_prime_ts, p)) => {
    if sps_min_qp_prime_ts > 8 { Err(Fault::Invalid) } else {
    let sps_ibc_enabled_flag = u8_at(s, p, 1);
    let p = adv(p, 1);
    match ue_if(s, p, sps_ibc_enabled_flag != 0, 0)
    { Err(f) => Err(f), Ok((sps_six_minus_max_num_ibc_merge_cand, p)) => {
    if sps_six_minus_max_num_ibc_merge_cand > 5 { Err(Fault::Invalid) } else {
    Ok((
        SpsIntra {
            sps_isp_enabled_flag,
            sps_mrl_enabled_flag,
            sps_mip_enabled_flag,
            sps_cclm_enabled_flag,
            sps_chroma_horizontal_collocated_flag,
            sps_chroma_vertical_collocated_flag,
            sps_palette_enabled_flag,
            sps_act_enabled_flag,
            sps_min_qp_prime_ts,
            sps_ibc_enabled_flag,
            sps_six_minus_max_num_ibc_merge_cand,
        },
        p,
    ))
    }}}}}}
}

/// The bits `a` followed by the intra and screen content fields.
#[verifier::opaque]
pub open spec fn put_sps_intra(
    a: Seq<bool>,
    x: SpsIntra,
    chroma_format_idc: u8,
    max_64: u8,
    transform_skip: u8,
) -> Seq<bool> {
    let a = put_bit(a, x.sps_isp_enabled_flag as nat);
    let a = put_bit(a, x.sps_mrl_enabled_flag as nat);
    let a = put_bit(a, x.sps_mip_enabled_flag as nat);
    let a = put_bit_if(a, x.sps_cclm_enabled_flag as nat, chroma_format_idc != 0);
    let a = put_bit_if(a, x.sps_chroma_horizontal_collocated_flag as nat, chroma_format_idc == 1);
    let a = put_bit_if(a, x.sps_chroma_vertical_collocated_flag as nat, chroma_format_idc == 1);
    let a = put_bit(a, x.sps_palette_enabled_flag as nat);
    let a = put_bit_if(a, x.sps_act_enabled_flag as nat, chroma_format_idc == 3 && max_64 == 0);
    let a = put_ue_if(
        a,
        x.sps_min_qp_prime_ts as nat,
        transform_skip != 0 || x.sps_palette_enabled_flag != 0,
    );
    let a = put_bit(a, x.sps_ibc_enabled_flag as nat);
    let a = put_ue_if(a, x.sps_six_minus_max_num_ibc_merge_cand as nat, x.sps_ibc_enabled_flag != 0);
    a
}

/// The values of the intra and screen content fields that reading can give.
#[verifier::opaque]
pub open spec fn sps_intra_ok(x: SpsIntra, chroma_format_idc: u8, max_64: u8, transform_skip: u8) -> bool {
    &&& fits(x.sps_isp_enabled_flag as nat, 1)
    &&& fits(x.sps_mrl_enabled_flag as nat, 1)
    &&& fits(x.sps_mip_enabled_flag as nat, 1)
    &&& if chroma_format_idc != 0 {
        fits(x.sps_cclm_enabled_flag as nat, 1)
    } else {
        x.sps_cclm_enabled_flag == 0
    }
    &&& if chroma_format_idc == 1 {
        fits(x.sps_chroma_horizontal_collocated_flag as nat, 1)
    } else {
        x.sps_chroma_horizontal_collocated_flag == 1
    }
    &&& if chroma_format_idc == 1 {
        fits(x.sps_chroma_vertical_collocated_flag as nat, 1)
    } else {
        x.sps_chroma_vertical_collocated_flag == 1
    }
    &&& fits(x.sps_palette_enabled_flag as nat, 1)
    &&& if chroma_format_idc == 3
        && max_64 == 0 { fits(x.sps_act_enabled_flag as nat, 1) } else { x.sps_act_enabled_flag == 0 }
    &&& if transform_skip != 0
        || x.sps_palette_enabled_flag != 0 {
            ue_fits(x.sps_min_qp_prime_ts as nat)
        } else {
            x.sps_min_qp_prime_ts == 0
        }
    &&& x.sps_min_qp_prime_ts <= 8
    &&& (transform_skip == 0 && x.sps_palette_enabled_flag == 0) || x.sps_min_qp_prime_ts <= 8
    &&& fits(x.sps_ibc_enabled_flag as nat, 1)
    &&& if x.sps_ibc_enabled_flag != 0 {
        ue_fits(x.sps_six_minus_max_num_ibc_merge_cand as nat)
    } else {
        x.sps_six_minus_max_num_ibc_merge_cand == 0
    }
    &&& x.sps_six_minus_max_num_ibc_merge_cand <= 5
    &&& x.sps_ibc_enabled_flag == 0 || x.sps_six_minus_max_num_ibc_merge_cand <= 5
}

/// The values of the intra and screen content fields that the writer accepts.
#[verifier::opaque]
pub open spec fn sps_intra_can(x: SpsIntra, chroma_format_idc: u8, max_64: u8, transform_skip: u8) -> bool {
    &&& transform_skip != 0 || x.sps_palette_enabled_flag != 0 ==> ue_fits(x.sps_min_qp_prime_ts as nat)
    &&& (transform_skip == 0 && x.sps_palette_enabled_flag == 0) || x.sps_min_qp_prime_ts <= 8
    &&& x.sps_ibc_enabled_flag != 0 ==> ue_fits(x.sps_six_minus_max_num_ibc_merge_cand as nat)
    &&& x.sps_ibc_enabled_flag == 0 || x.sps_six_minus_max_num_ibc_merge_cand <= 5
}

/// Parses the intra and screen content fields.
fn parse_sps_intra(
    r: &mut BitReader<'_>,
    chroma_format_idc: u8,
    max_64: u8,
    transform_skip: u8,
) -> (res: Result<SpsIntra, BitstreamError>)
    ensures
        read_is(
            sps_intra_at(old(r).bits(), old(r).pos(), chroma_format_idc, max_64, transform_skip),
            res,
            *old(r),
            *final(r),
        ),
{
    proof {
        reveal(sps_intra_at);
    }
    let sps_isp_enabled_flag: u8 = r.bit();
    let sps_mrl_enabled_flag: u8 = r.bit();
    let sps_mip_enabled_flag: u8 = r.bit();
    let sps_cclm_enabled_flag: u8 = r.bit_if(chroma_format_idc != 0, 0);
    let sps_chroma_horizontal_collocated_flag: u8 = r.bit_if(chroma_format_idc == 1, 1);
    let sps_chroma_vertical_collocated_flag: u8 = r.bit_if(chroma_format_idc == 1, 1);
    let sps_palette_enabled_flag: u8 = r.bit();
    let sps_act_enabled_flag: u8 = r.bit_if(chroma_format_idc == 3 && max_64 == 0, 0);
    let sps_min_qp_prime_ts: u32 = r.ue_if(transform_skip != 0 || sps_palette_enabled_flag != 0, 0)?;
    if sps_min_qp_prime_ts > 8 {
        return Err(
            Message::new("sps_min_qp_prime_ts = ")
                .num(sps_min_qp_prime_ts as i128)
                .with(" > 8 (7.4.3.4)")
                .invalid(),
        );
    }
    let sps_ibc_enabled_flag: u8 = r.bit();
    let sps_six_minus_max_num_ibc_merge_cand: u32 = r.ue_if(sps_ibc_enabled_flag != 0, 0)?;
    if sps_six_minus_max_num_ibc_merge_cand > 5 {
        return Err(
            Message::new("sps_six_minus_max_num_ibc_merge_cand = ")
                .num(sps_six_minus_max_num_ibc_merge_cand as i128)
                .with(" > 5 (7.4.3.4)")
                .invalid(),
        );
    }
    Ok(
        SpsIntra {
            sps_isp_enabled_flag,
            sps_mrl_enabled_flag,
            sps_mip_enabled_flag,
            sps_cclm_enabled_flag,
            sps_chroma_horizontal_collocated_flag,
            sps_chroma_vertical_collocated_flag,
            sps_palette_enabled_flag,
            sps_act_enabled_flag,
            sps_min_qp_prime_ts,
            sps_ibc_enabled_flag,
            sps_six_minus_max_num_ibc_merge_cand,
        },
    )
}

/// Emits the intra and screen content fields, the inverse of [`parse_sps_intra`].
fn write_sps_intra(
    w: &mut BitWriter,
    x: &SpsIntra,
    chroma_format_idc: u8,
    max_64: u8,
    transform_skip: u8,
) -> (res: Result<(), BitstreamError>)
    ensures
        write_is(
            sps_intra_can(*x, chroma_format_idc, max_64, transform_skip),
            put_sps_intra(old(w)@, *x, chroma_format_idc, max_64, transform_skip),
            res,
            final(w)@,
        ),
{
    proof {
        reveal(put_sps_intra);
        reveal(sps_intra_can);
    }
    w.write_bit(x.sps_isp_enabled_flag as u32);
    w.write_bit(x.sps_mrl_enabled_flag as u32);
    w.write_bit(x.sps_mip_enabled_flag as u32);
    w.write_bit_if(x.sps_cclm_enabled_flag as u32, chroma_format_idc != 0);
    w.write_bit_if(x.sps_chroma_horizontal_collocated_flag as u32, chroma_format_idc == 1);
    w.write_bit_if(x.sps_chroma_vertical_collocated_flag as u32, chroma_format_idc == 1);
    w.write_bit(x.sps_palette_enabled_flag as u32);
    w.write_bit_if(x.sps_act_enabled_flag as u32, chroma_format_idc == 3 && max_64 == 0);
    w.write_ue_if(x.sps_min_qp_prime_ts, transform_skip != 0 || x.sps_palette_enabled_flag != 0)?;
    if !((transform_skip == 0 && x.sps_palette_enabled_flag == 0) || x.sps_min_qp_prime_ts <= 8) {
        return Err(BitstreamError::invalid("sps_min_qp_prime_ts > 8 (7.4.3.4)"));
    }
    w.write_bit(x.sps_ibc_enabled_flag as u32);
    w.write_ue_if(x.sps_six_minus_max_num_ibc_merge_cand, x.sps_ibc_enabled_flag != 0)?;
    if !(x.sps_ibc_enabled_flag == 0 || x.sps_six_minus_max_num_ibc_merge_cand <= 5) {
        return Err(BitstreamError::invalid("sps_six_minus_max_num_ibc_merge_cand > 5 (7.4.3.4)"));
    }
    Ok(())
}

/// Writing the intra and screen content fields gives back the bits it was read
/// from.
pub broadcast proof fn law_put_sps_intra_at(
    s: Seq<bool>,
    p: nat,
    chroma_format_idc: u8,
    max_64: u8,
    transform_skip: u8,
)
    ensures
        #[trigger] sps_intra_at(s, p, chroma_format_idc, max_64, transform_skip) matches Ok((x, q)) ==> {
            &&& sps_intra_ok(x, chroma_format_idc, max_64, transform_skip)
            &&& sps_intra_can(x, chroma_format_idc, max_64, transform_skip)
            &&& within(s, q)
                ==> within(s, p)
                && put_sps_intra(upto(s, p), x, chroma_format_idc, max_64, transform_skip) == upto(s, q)
        },
{
    broadcast use crate::bits::group_write_read;

    reveal(sps_intra_at);
    reveal(put_sps_intra);
    reveal(sps_intra_ok);
    reveal(sps_intra_can);
}

/// Reading gives back the intra and screen content fields as it was written.
pub broadcast proof fn law_pre_put_sps_intra(
    a: Seq<bool>,
    x: SpsIntra,
    chroma_format_idc: u8,
    max_64: u8,
    transform_skip: u8,
    s: Seq<bool>,
)
    requires
        #[trigger] pre(put_sps_intra(a, x, chroma_format_idc, max_64, transform_skip), s),
        sps_intra_ok(x, chroma_format_idc, max_64, transform_skip),
    ensures
        pre(a, s),
        sps_intra_can(x, chroma_format_idc, max_64, transform_skip),
        sps_intra_at(s, a.len(), chroma_format_idc, max_64, transform_skip) == Ok::<(SpsIntra, nat), Fault>(
            (x, put_sps_intra(a, x, chroma_format_idc, max_64, transform_skip).len()),
        ),
{
    broadcast use crate::bits::group_read_written;

    reveal(sps_intra_at);
    reveal(put_sps_intra);
    reveal(sps_intra_ok);
    reveal(sps_intra_can);
}

/// The layout of the intra and screen content fields: reading at `p` gives `x`
/// and ends at `q` if and only if these elements stand there in this order, and
/// the values are allowed.
pub proof fn law_layout_sps_intra(
    s: Seq<bool>,
    p: nat,
    chroma_format_idc: u8,
    max_64: u8,
    transform_skip: u8,
    x: SpsIntra,
    q: nat,
)
    ensures
        sps_intra_at(s, p, chroma_format_idc, max_64, transform_skip) == Ok::<(SpsIntra, nat), Fault>((x, q)) <==> ({
            &&& cursor(s, p)
                .u8(1, x.sps_isp_enabled_flag)
                .u8(1, x.sps_mrl_enabled_flag)
                .u8(1, x.sps_mip_enabled_flag)
                .u8_if(chroma_format_idc != 0, 1, x.sps_cclm_enabled_flag, 0)
                .u8_if(chroma_format_idc == 1, 1, x.sps_chroma_horizontal_collocated_flag, 1)
                .u8_if(chroma_format_idc == 1, 1, x.sps_chroma_vertical_collocated_flag, 1)
                .u8(1, x.sps_palette_enabled_flag)
                .u8_if(chroma_format_idc == 3 && max_64 == 0, 1, x.sps_act_enabled_flag, 0)
                .ue_if(transform_skip != 0 || x.sps_palette_enabled_flag != 0, x.sps_min_qp_prime_ts, 0)
                .u8(1, x.sps_ibc_enabled_flag)
                .ue_if(x.sps_ibc_enabled_flag != 0, x.sps_six_minus_max_num_ibc_merge_cand, 0)
                .ends(q)
            &&& x.sps_min_qp_prime_ts <= 8
            &&& x.sps_six_minus_max_num_ibc_merge_cand <= 5
        }),
{
    reveal(sps_intra_at);
    reveal(adv_if);
    reveal(u8_if);
    reveal(ue_if);
}

/// Reading the intra and screen content fields fails only with an error of this
/// class.
pub broadcast proof fn law_faults_sps_intra(
    s: Seq<bool>,
    p: nat,
    chroma_format_idc: u8,
    max_64: u8,
    transform_skip: u8,
)
    ensures
        #[trigger] sps_intra_at(s, p, chroma_format_idc, max_64, transform_skip) matches Err(f)
            ==> f == Fault::Invalid,
{
    broadcast use crate::bits::law_faults_ue;

    reveal(sps_intra_at);
    reveal(ue_if);
}

/// What the writer accepts reads back: the intra and screen content fields,
/// where each field fits its width and what is not coded has the value that is
/// taken for it.
pub proof fn law_reads_sps_intra(
    a: Seq<bool>,
    x: SpsIntra,
    chroma_format_idc: u8,
    max_64: u8,
    transform_skip: u8,
    s: Seq<bool>,
)
    requires
        sps_intra_can(x, chroma_format_idc, max_64, transform_skip),
        fits(x.sps_isp_enabled_flag as nat, 1),
        fits(x.sps_mrl_enabled_flag as nat, 1),
        fits(x.sps_mip_enabled_flag as nat, 1),
        if chroma_format_idc != 0 {
            fits(x.sps_cclm_enabled_flag as nat, 1)
        } else {
            x.sps_cclm_enabled_flag == 0
        },
        if chroma_format_idc == 1 {
            fits(x.sps_chroma_horizontal_collocated_flag as nat, 1)
        } else {
            x.sps_chroma_horizontal_collocated_flag == 1
        },
        if chroma_format_idc == 1 {
            fits(x.sps_chroma_vertical_collocated_flag as nat, 1)
        } else {
            x.sps_chroma_vertical_collocated_flag == 1
        },
        fits(x.sps_palette_enabled_flag as nat, 1),
        if chroma_format_idc == 3 && max_64 == 0 {
            fits(x.sps_act_enabled_flag as nat, 1)
        } else {
            x.sps_act_enabled_flag == 0
        },
        !(transform_skip != 0 || x.sps_palette_enabled_flag != 0) ==> x.sps_min_qp_prime_ts == 0,
        fits(x.sps_ibc_enabled_flag as nat, 1),
        !(x.sps_ibc_enabled_flag != 0) ==> x.sps_six_minus_max_num_ibc_merge_cand == 0,
        pre(put_sps_intra(a, x, chroma_format_idc, max_64, transform_skip), s),
    ensures
        sps_intra_at(s, a.len(), chroma_format_idc, max_64, transform_skip) == Ok::<(SpsIntra, nat), Fault>(
            (x, put_sps_intra(a, x, chroma_format_idc, max_64, transform_skip).len()),
        ),
{
    assert(sps_intra_ok(x, chroma_format_idc, max_64, transform_skip)) by {
        broadcast use crate::bits::law_fits_small;

        reveal(sps_intra_ok);
        reveal(sps_intra_can);
    }
    law_pre_put_sps_intra(a, x, chroma_format_idc, max_64, transform_skip, s);
}

/// The scaling matrix and quantization flags of an SPS.
#[derive(Clone, Copy)]
pub struct SpsScaling {
    pub sps_explicit_scaling_list_enabled_flag: u8,
    pub sps_scaling_matrix_for_lfnst_disabled_flag: u8,
    pub sps_scaling_matrix_for_alternative_colour_space_disabled_flag: u8,
    pub sps_scaling_matrix_designated_colour_space_flag: u8,
    pub sps_dep_quant_enabled_flag: u8,
    pub sps_sign_data_hiding_enabled_flag: u8,
    pub sps_virtual_boundaries_enabled_flag: u8,
    pub sps_virtual_boundaries_present_flag: u8,
}

/// The scaling matrix and quantization flags at position `p`.
#[verifier::opaque]
pub open spec fn sps_scaling_at(s: Seq<bool>, p: nat, lfnst: u8, act: u8) -> Read<SpsScaling> {
    let sps_explicit_scaling_list_enabled_flag = u8_at(s, p, 1);
    let p = adv(p, 1);
    let sps_scaling_matrix_for_lfnst_disabled_flag = u8_if(
        s,
        p,
        1,
        lfnst != 0 && sps_explicit_scaling_list_enabled_flag != 0,
        0,
    );
    let p = adv_if(p, 1, lfnst != 0 && sps_explicit_scaling_list_enabled_flag != 0);
    let sps_scaling_matrix_for_alternative_colour_space_disabled_flag = u8_if(
        s,
        p,
        1,
        act != 0 && sps_explicit_scaling_list_enabled_flag != 0,
        0,
    );
    let p = adv_if(p, 1, act != 0 && sps_explicit_scaling_list_enabled_flag != 0);
    let sps_scaling_matrix_designated_colour_space_flag = u8_if(
        s,
        p,
        1,
        sps_scaling_matrix_for_alternative_colour_space_disabled_flag != 0,
        0,
    );
    let p = adv_if(p, 1, sps_scaling_matrix_for_alternative_colour_space_disabled_flag != 0);
    let sps_dep_quant_enabled_flag = u8_at(s, p, 1);
    let p = adv(p, 1);
    let sps_sign_data_hiding_enabled_flag = u8_at(s, p, 1);
    let p = adv(p, 1);
    let sps_virtual_boundaries_enabled_flag = u8_at(s, p, 1);
    let p = adv(p, 1);
    let sps_virtual_boundaries_present_flag = u8_if(s, p, 1, sps_virtual_boundaries_enabled_flag != 0, 0);
    let p = adv_if(p, 1, sps_virtual_boundaries_enabled_flag != 0);
    Ok(
        (
            SpsScaling {
                sps_explicit_scaling_list_enabled_flag,
                sps_scaling_matrix_for_lfnst_disabled_flag,
                sps_scaling_matrix_for_alternative_colour_space_disabled_flag,
                sps_scaling_matrix_designated_colour_space_flag,
                sps_dep_quant_enabled_flag,
                sps_sign_data_hiding_enabled_flag,
                sps_virtual_boundaries_enabled_flag,
                sps_virtual_boundaries_present_flag,
            },
            p,
        ),
    )
}

/// The bits `a` followed by the scaling matrix and quantization flags.
#[verifier::opaque]
pub open spec fn put_sps_scaling(a: Seq<bool>, x: SpsScaling, lfnst: u8, act: u8) -> Seq<bool> {
    let a = put_bit(a, x.sps_explicit_scaling_list_enabled_flag as nat);
    let a = put_bit_if(
        a,
        x.sps_scaling_matrix_for_lfnst_disabled_flag as nat,
        lfnst != 0 && x.sps_explicit_scaling_list_enabled_flag != 0,
    );
    let a = put_bit_if(
        a,
        x.sps_scaling_matrix_for_alternative_colour_space_disabled_flag as nat,
        act != 0 && x.sps_explicit_scaling_list_enabled_flag != 0,
    );
    let a = put_bit_if(
        a,
        x.sps_scaling_matrix_designated_colour_space_flag as nat,
        x.sps_scaling_matrix_for_alternative_colour_space_disabled_flag != 0,
    );
    let a = put_bit(a, x.sps_dep_quant_enabled_flag as nat);
    let a = put_bit(a, x.sps_sign_data_hiding_enabled_flag as nat);
    let a = put_bit(a, x.sps_virtual_boundaries_enabled_flag as nat);
    let a = put_bit_if(
        a,
        x.sps_virtual_boundaries_present_flag as nat,
        x.sps_virtual_boundaries_enabled_flag != 0,
    );
    a
}

/// The values of the scaling matrix and quantization flags that reading can
/// give.
#[verifier::opaque]
pub open spec fn sps_scaling_ok(x: SpsScaling, lfnst: u8, act: u8) -> bool {
    &&& fits(x.sps_explicit_scaling_list_enabled_flag as nat, 1)
    &&& if lfnst != 0
        && x.sps_explicit_scaling_list_enabled_flag != 0 {
            fits(x.sps_scaling_matrix_for_lfnst_disabled_flag as nat, 1)
        } else {
            x.sps_scaling_matrix_for_lfnst_disabled_flag == 0
        }
    &&& if act != 0
        && x.sps_explicit_scaling_list_enabled_flag != 0 {
            fits(x.sps_scaling_matrix_for_alternative_colour_space_disabled_flag as nat, 1)
        } else {
            x.sps_scaling_matrix_for_alternative_colour_space_disabled_flag == 0
        }
    &&& if x.sps_scaling_matrix_for_alternative_colour_space_disabled_flag != 0 {
        fits(x.sps_scaling_matrix_designated_colour_space_flag as nat, 1)
    } else {
        x.sps_scaling_matrix_designated_colour_space_flag == 0
    }
    &&& fits(x.sps_dep_quant_enabled_flag as nat, 1)
    &&& fits(x.sps_sign_data_hiding_enabled_flag as nat, 1)
    &&& fits(x.sps_virtual_boundaries_enabled_flag as nat, 1)
    &&& if x.sps_virtual_boundaries_enabled_flag != 0 {
        fits(x.sps_virtual_boundaries_present_flag as nat, 1)
    } else {
        x.sps_virtual_boundaries_present_flag == 0
    }
}

/// The values of the scaling matrix and quantization flags that the writer
/// accepts.
#[verifier::opaque]
pub open spec fn sps_scaling_can(x: SpsScaling, lfnst: u8, act: u8) -> bool {
    true
}

/// Parses the scaling matrix and quantization flags.
fn parse_sps_scaling(r: &mut BitReader<'_>, lfnst: u8, act: u8) -> (res: Result<SpsScaling, BitstreamError>)
    ensures
        read_is(sps_scaling_at(old(r).bits(), old(r).pos(), lfnst, act), res, *old(r), *final(r)),
{
    proof {
        reveal(sps_scaling_at);
    }
    let sps_explicit_scaling_list_enabled_flag: u8 = r.bit();
    let sps_scaling_matrix_for_lfnst_disabled_flag: u8 = r.bit_if(
        lfnst != 0 && sps_explicit_scaling_list_enabled_flag != 0,
        0,
    );
    let sps_scaling_matrix_for_alternative_colour_space_disabled_flag: u8 = r.bit_if(
        act != 0 && sps_explicit_scaling_list_enabled_flag != 0,
        0,
    );
    let sps_scaling_matrix_designated_colour_space_flag: u8 = r.bit_if(
        sps_scaling_matrix_for_alternative_colour_space_disabled_flag != 0,
        0,
    );
    let sps_dep_quant_enabled_flag: u8 = r.bit();
    let sps_sign_data_hiding_enabled_flag: u8 = r.bit();
    let sps_virtual_boundaries_enabled_flag: u8 = r.bit();
    let sps_virtual_boundaries_present_flag: u8 = r.bit_if(sps_virtual_boundaries_enabled_flag != 0, 0);
    Ok(
        SpsScaling {
            sps_explicit_scaling_list_enabled_flag,
            sps_scaling_matrix_for_lfnst_disabled_flag,
            sps_scaling_matrix_for_alternative_colour_space_disabled_flag,
            sps_scaling_matrix_designated_colour_space_flag,
            sps_dep_quant_enabled_flag,
            sps_sign_data_hiding_enabled_flag,
            sps_virtual_boundaries_enabled_flag,
            sps_virtual_boundaries_present_flag,
        },
    )
}

/// Emits the scaling matrix and quantization flags, the inverse of [`parse_sps_scaling`].
fn write_sps_scaling(
    w: &mut BitWriter,
    x: &SpsScaling,
    lfnst: u8,
    act: u8,
) -> (res: Result<(), BitstreamError>)
    ensures
        write_is(sps_scaling_can(*x, lfnst, act), put_sps_scaling(old(w)@, *x, lfnst, act), res, final(w)@),
{
    proof {
        reveal(put_sps_scaling);
        reveal(sps_scaling_can);
    }
    w.write_bit(x.sps_explicit_scaling_list_enabled_flag as u32);
    w.write_bit_if(
        x.sps_scaling_matrix_for_lfnst_disabled_flag as u32,
        lfnst != 0 && x.sps_explicit_scaling_list_enabled_flag != 0,
    );
    w.write_bit_if(
        x.sps_scaling_matrix_for_alternative_colour_space_disabled_flag as u32,
        act != 0 && x.sps_explicit_scaling_list_enabled_flag != 0,
    );
    w.write_bit_if(
        x.sps_scaling_matrix_designated_colour_space_flag as u32,
        x.sps_scaling_matrix_for_alternative_colour_space_disabled_flag != 0,
    );
    w.write_bit(x.sps_dep_quant_enabled_flag as u32);
    w.write_bit(x.sps_sign_data_hiding_enabled_flag as u32);
    w.write_bit(x.sps_virtual_boundaries_enabled_flag as u32);
    w.write_bit_if(x.sps_virtual_boundaries_present_flag as u32, x.sps_virtual_boundaries_enabled_flag != 0);
    Ok(())
}

/// Writing the scaling matrix and quantization flags gives back the bits it was
/// read from.
pub broadcast proof fn law_put_sps_scaling_at(s: Seq<bool>, p: nat, lfnst: u8, act: u8)
    ensures
        #[trigger] sps_scaling_at(s, p, lfnst, act) matches Ok((x, q)) ==> {
            &&& sps_scaling_ok(x, lfnst, act)
            &&& sps_scaling_can(x, lfnst, act)
            &&& within(s, q) ==> within(s, p) && put_sps_scaling(upto(s, p), x, lfnst, act) == upto(s, q)
        },
{
    broadcast use crate::bits::group_write_read;

    reveal(sps_scaling_at);
    reveal(put_sps_scaling);
    reveal(sps_scaling_ok);
    reveal(sps_scaling_can);
}

/// Reading gives back the scaling matrix and quantization flags as it was
/// written.
pub broadcast proof fn law_pre_put_sps_scaling(a: Seq<bool>, x: SpsScaling, lfnst: u8, act: u8, s: Seq<bool>)
    requires
        #[trigger] pre(put_sps_scaling(a, x, lfnst, act), s),
        sps_scaling_ok(x, lfnst, act),
    ensures
        pre(a, s),
        sps_scaling_can(x, lfnst, act),
        sps_scaling_at(s, a.len(), lfnst, act) == Ok::<(SpsScaling, nat), Fault>(
            (x, put_sps_scaling(a, x, lfnst, act).len()),
        ),
{
    broadcast use crate::bits::group_read_written;

    reveal(sps_scaling_at);
    reveal(put_sps_scaling);
    reveal(sps_scaling_ok);
    reveal(sps_scaling_can);
}

/// The layout of the scaling matrix and quantization flags: reading at `p`
/// gives `x` and ends at `q` if and only if these elements stand there in this
/// order.
pub proof fn law_layout_sps_scaling(s: Seq<bool>, p: nat, lfnst: u8, act: u8, x: SpsScaling, q: nat)
    ensures
        sps_scaling_at(s, p, lfnst, act) == Ok::<(SpsScaling, nat), Fault>((x, q)) <==> cursor(s, p)
            .u8(1, x.sps_explicit_scaling_list_enabled_flag)
            .u8_if(
                lfnst != 0 && x.sps_explicit_scaling_list_enabled_flag != 0,
                1,
                x.sps_scaling_matrix_for_lfnst_disabled_flag,
                0,
            )
            .u8_if(
                act != 0 && x.sps_explicit_scaling_list_enabled_flag != 0,
                1,
                x.sps_scaling_matrix_for_alternative_colour_space_disabled_flag,
                0,
            )
            .u8_if(
                x.sps_scaling_matrix_for_alternative_colour_space_disabled_flag != 0,
                1,
                x.sps_scaling_matrix_designated_colour_space_flag,
                0,
            )
            .u8(1, x.sps_dep_quant_enabled_flag)
            .u8(1, x.sps_sign_data_hiding_enabled_flag)
            .u8(1, x.sps_virtual_boundaries_enabled_flag)
            .u8_if(x.sps_virtual_boundaries_enabled_flag != 0, 1, x.sps_virtual_boundaries_present_flag, 0)
            .ends(q),
{
    reveal(sps_scaling_at);
    reveal(adv_if);
    reveal(u8_if);
}

/// Reading the scaling matrix and quantization flags never fails.
pub broadcast proof fn law_faults_sps_scaling(s: Seq<bool>, p: nat, lfnst: u8, act: u8)
    ensures
        #[trigger] sps_scaling_at(s, p, lfnst, act) is Ok,
{
    reveal(sps_scaling_at);
}

/// What the writer accepts reads back: the scaling matrix and quantization
/// flags, where each field fits its width and what is not coded has the value
/// that is taken for it.
pub proof fn law_reads_sps_scaling(a: Seq<bool>, x: SpsScaling, lfnst: u8, act: u8, s: Seq<bool>)
    requires
        sps_scaling_can(x, lfnst, act),
        fits(x.sps_explicit_scaling_list_enabled_flag as nat, 1),
        if lfnst != 0 && x.sps_explicit_scaling_list_enabled_flag != 0 {
            fits(x.sps_scaling_matrix_for_lfnst_disabled_flag as nat, 1)
        } else {
            x.sps_scaling_matrix_for_lfnst_disabled_flag == 0
        },
        if act != 0 && x.sps_explicit_scaling_list_enabled_flag != 0 {
            fits(x.sps_scaling_matrix_for_alternative_colour_space_disabled_flag as nat, 1)
        } else {
            x.sps_scaling_matrix_for_alternative_colour_space_disabled_flag == 0
        },
        if x.sps_scaling_matrix_for_alternative_colour_space_disabled_flag != 0 {
            fits(x.sps_scaling_matrix_designated_colour_space_flag as nat, 1)
        } else {
            x.sps_scaling_matrix_designated_colour_space_flag == 0
        },
        fits(x.sps_dep_quant_enabled_flag as nat, 1),
        fits(x.sps_sign_data_hiding_enabled_flag as nat, 1),
        fits(x.sps_virtual_boundaries_enabled_flag as nat, 1),
        if x.sps_virtual_boundaries_enabled_flag != 0 {
            fits(x.sps_virtual_boundaries_present_flag as nat, 1)
        } else {
            x.sps_virtual_boundaries_present_flag == 0
        },
        pre(put_sps_scaling(a, x, lfnst, act), s),
    ensures
        sps_scaling_at(s, a.len(), lfnst, act) == Ok::<(SpsScaling, nat), Fault>(
            (x, put_sps_scaling(a, x, lfnst, act).len()),
        ),
{
    assert(sps_scaling_ok(x, lfnst, act)) by {
        broadcast use crate::bits::law_fits_small;

        reveal(sps_scaling_ok);
        reveal(sps_scaling_can);
    }
    law_pre_put_sps_scaling(a, x, lfnst, act, s);
}

/// The extension fields of an SPS.
#[derive(Clone, Copy)]
pub struct SpsExt {
    pub sps_extension_flag: u8,
    pub sps_extension_7bits: u8,
    pub range_extension: Option<VvcSpsRangeExtension>,
}

/// The extension fields at position `p`.
#[verifier::opaque]
pub open spec fn sps_ext_at(s: Seq<bool>, p: nat, transform_skip: u8) -> Read<SpsExt> {
    let sps_extension_flag = u8_at(s, p, 1);
    let p = adv(p, 1);
    let range_flag = flag_if(s, p, sps_extension_flag != 0, false);
    let p = adv_if(p, 1, sps_extension_flag != 0);
    let sps_extension_7bits = u8_if(s, p, 7, sps_extension_flag != 0, 0);
    let p = adv_if(p, 7, sps_extension_flag != 0);
    match (if range_flag { read_some(sps_range_ext_at(s, p, transform_skip)) } else { Ok((None, p)) })
    { Err(f) => Err(f), Ok((range_extension, p)) => {
    Ok((SpsExt { sps_extension_flag, sps_extension_7bits, range_extension }, p))
    }}
}

/// The bits `a` followed by the extension fields.
#[verifier::opaque]
pub open spec fn put_sps_ext(a: Seq<bool>, x: SpsExt, transform_skip: u8) -> Seq<bool> {
    let a = put_bit(a, x.sps_extension_flag as nat);
    let range_flag = x.range_extension is Some;
    let a = put_flag_if(a, range_flag, x.sps_extension_flag != 0);
    let a = put_u_if(a, x.sps_extension_7bits as nat, 7, x.sps_extension_flag != 0);
    let a = match x.range_extension { Some(y) => put_sps_range_ext(a, y, transform_skip), None => a };
    a
}

/// The values of the extension fields that reading can give.
#[verifier::opaque]
pub open spec fn sps_ext_ok(x: SpsExt, transform_skip: u8) -> bool {
    &&& fits(x.sps_extension_flag as nat, 1)
    &&& x.sps_extension_flag != 0 || (!x.range_extension.is_some() && x.sps_extension_7bits == 0)
    &&& {
        let range_flag = x.range_extension is Some;
        &&& x.sps_extension_flag != 0 || !range_flag
        &&& if x.sps_extension_flag != 0 {
            fits(x.sps_extension_7bits as nat, 7)
        } else {
            x.sps_extension_7bits == 0
        }
        &&& x.range_extension is Some ==> range_flag
        &&& x.range_extension matches Some(y) ==> sps_range_ext_ok(y, transform_skip)
    }
}

/// The values of the extension fields that the writer accepts.
#[verifier::opaque]
pub open spec fn sps_ext_can(x: SpsExt, transform_skip: u8) -> bool {
    &&& x.sps_extension_flag != 0 || (!x.range_extension.is_some() && x.sps_extension_7bits == 0)
    &&& {
        let range_flag = x.range_extension is Some;
        &&& x.range_extension is Some ==> range_flag
        &&& x.range_extension matches Some(y) ==> sps_range_ext_can(y, transform_skip)
    }
}

/// Parses the extension fields.
fn parse_sps_ext(r: &mut BitReader<'_>, transform_skip: u8) -> (res: Result<SpsExt, BitstreamError>)
    ensures
        read_is(sps_ext_at(old(r).bits(), old(r).pos(), transform_skip), res, *old(r), *final(r)),
{
    proof {
        reveal(sps_ext_at);
    }
    let sps_extension_flag: u8 = r.bit();
    let range_flag: bool = r.flag_if(sps_extension_flag != 0, false);
    let sps_extension_7bits: u8 = r.u8_if(7, sps_extension_flag != 0, 0);
    let range_extension = if range_flag { Some(parse_sps_range_ext(r, transform_skip)?) } else { None };
    Ok(SpsExt { sps_extension_flag, sps_extension_7bits, range_extension })
}

/// Emits the extension fields, the inverse of [`parse_sps_ext`].
fn write_sps_ext(w: &mut BitWriter, x: &SpsExt, transform_skip: u8) -> (res: Result<(), BitstreamError>)
    ensures
        write_is(sps_ext_can(*x, transform_skip), put_sps_ext(old(w)@, *x, transform_skip), res, final(w)@),
{
    proof {
        reveal(put_sps_ext);
        reveal(sps_ext_can);
    }
    w.write_bit(x.sps_extension_flag as u32);
    if !(x.sps_extension_flag != 0 || (!x.range_extension.is_some() && x.sps_extension_7bits == 0)) {
        return Err(BitstreamError::invalid("extension payloads require sps_extension_flag (7.3.2.4)"));
    }
    let range_flag: bool = x.range_extension.is_some();
    w.write_flag_if(range_flag, x.sps_extension_flag != 0);
    w.write_bits_if(x.sps_extension_7bits as u32, 7, x.sps_extension_flag != 0);
    if let Some(y) = &x.range_extension {
        write_sps_range_ext(w, y, transform_skip)?;
    }
    Ok(())
}

/// Writing the extension fields gives back the bits it was read from.
pub broadcast proof fn law_put_sps_ext_at(s: Seq<bool>, p: nat, transform_skip: u8)
    ensures
        #[trigger] sps_ext_at(s, p, transform_skip) matches Ok((x, q)) ==> {
            &&& sps_ext_ok(x, transform_skip)
            &&& sps_ext_can(x, transform_skip)
            &&& within(s, q) ==> within(s, p) && put_sps_ext(upto(s, p), x, transform_skip) == upto(s, q)
        },
{
    broadcast use {crate::bits::group_write_read, law_put_sps_range_ext_at};

    reveal(sps_ext_at);
    reveal(put_sps_ext);
    reveal(sps_ext_ok);
    reveal(sps_ext_can);
}

/// Reading gives back the extension fields as it was written.
pub broadcast proof fn law_pre_put_sps_ext(a: Seq<bool>, x: SpsExt, transform_skip: u8, s: Seq<bool>)
    requires
        #[trigger] pre(put_sps_ext(a, x, transform_skip), s),
        sps_ext_ok(x, transform_skip),
    ensures
        pre(a, s),
        sps_ext_can(x, transform_skip),
        sps_ext_at(s, a.len(), transform_skip) == Ok::<(SpsExt, nat), Fault>(
            (x, put_sps_ext(a, x, transform_skip).len()),
        ),
{
    broadcast use {crate::bits::group_read_written, law_pre_put_sps_range_ext};

    reveal(sps_ext_at);
    reveal(put_sps_ext);
    reveal(sps_ext_ok);
    reveal(sps_ext_can);
}

/// The layout of the extension fields: reading at `p` gives `x` and ends at `q`
/// if and only if these elements stand there in this order.
pub proof fn law_layout_sps_ext(s: Seq<bool>, p: nat, transform_skip: u8, x: SpsExt, q: nat)
    ensures
        sps_ext_at(s, p, transform_skip) == Ok::<(SpsExt, nat), Fault>((x, q)) <==> ({
            let c = cursor(s, p).u8(1, x.sps_extension_flag);
            let range_flag = if x.sps_extension_flag != 0 { c.next_flag() } else { false };
            &&& c
                .flag_if(x.sps_extension_flag != 0, range_flag, false)
                .u8_if(x.sps_extension_flag != 0, 7, x.sps_extension_7bits, 0)
                .part_if(range_flag, |p: nat| sps_range_ext_at(s, p, transform_skip), x.range_extension)
                .ends(q)
        }),
{
    reveal(sps_ext_at);
    reveal(adv_if);
    reveal(flag_if);
    reveal(u8_if);
}

/// Reading the extension fields never fails.
pub broadcast proof fn law_faults_sps_ext(s: Seq<bool>, p: nat, transform_skip: u8)
    ensures
        #[trigger] sps_ext_at(s, p, transform_skip) is Ok,
{
    broadcast use law_faults_sps_range_ext;

    reveal(sps_ext_at);
}

/// What the writer accepts reads back: the extension fields, where each field
/// fits its width and what is not coded has the value that is taken for it.
pub proof fn law_reads_sps_ext(a: Seq<bool>, x: SpsExt, transform_skip: u8, s: Seq<bool>)
    requires
        sps_ext_can(x, transform_skip),
        fits(x.sps_extension_flag as nat, 1),
        if x.sps_extension_flag != 0 {
            fits(x.sps_extension_7bits as nat, 7)
        } else {
            x.sps_extension_7bits == 0
        },
        x.range_extension matches Some(y) ==> sps_range_ext_ok(y, transform_skip),
        pre(put_sps_ext(a, x, transform_skip), s),
    ensures
        sps_ext_at(s, a.len(), transform_skip) == Ok::<(SpsExt, nat), Fault>(
            (x, put_sps_ext(a, x, transform_skip).len()),
        ),
{
    assert(sps_ext_ok(x, transform_skip)) by {
        broadcast use crate::bits::law_fits_small;

        reveal(sps_ext_ok);
        reveal(sps_ext_can);
    }
    law_pre_put_sps_ext(a, x, transform_skip, s);
}

// ─────────────────────────── The SPS itself ──────────────────────────────────

/// A completely-walked VVC SPS (§7.3.2.4). Every syntax element is
/// retained (or inferred when its presence condition failed), so
/// [`write_sps`] can re-emit the RBSP byte-exactly.
#[derive(Debug, Clone, PartialEq, Eq, Default)]
pub struct VvcSps {
    /// `sps_seq_parameter_set_id` u(4).
    pub sps_seq_parameter_set_id: u8,
    /// `sps_video_parameter_set_id` u(4).
    pub sps_video_parameter_set_id: u8,
    /// `sps_max_sublayers_minus1` u(3) — 0..=6 (7 is reserved).
    pub sps_max_sublayers_minus1: u8,
    /// `sps_chroma_format_idc` u(2) — 0 = 4:0:0, 1 = 4:2:0, 2 =
    /// 4:2:2, 3 = 4:4:4.
    pub sps_chroma_format_idc: u8,
    /// `sps_log2_ctu_size_minus5` u(2) — 0..=2 (CTU 32 / 64 / 128).
    pub sps_log2_ctu_size_minus5: u8,
    /// `profile_tier_level(1, sps_max_sublayers_minus1)` — present
    /// iff `sps_ptl_dpb_hrd_params_present_flag`.
    pub profile_tier_level: Option<VvcProfileTierLevel>,
    /// `sps_gdr_enabled_flag` u(1).
    pub sps_gdr_enabled_flag: u8,
    /// `sps_ref_pic_resampling_enabled_flag` u(1).
    pub sps_ref_pic_resampling_enabled_flag: u8,
    /// `sps_res_change_in_clvs_allowed_flag` u(1) — coded only when
    /// ref-pic resampling is enabled; inferred 0.
    pub sps_res_change_in_clvs_allowed_flag: u8,
    /// `sps_pic_width_max_in_luma_samples` ue(v) — must be > 0.
    pub sps_pic_width_max_in_luma_samples: u32,
    /// `sps_pic_height_max_in_luma_samples` ue(v) — must be > 0.
    pub sps_pic_height_max_in_luma_samples: u32,
    /// `(left, right, top, bottom)` `sps_conf_win_*_offset` values —
    /// present iff `sps_conformance_window_flag`.
    pub sps_conf_win_offsets: Option<(u32, u32, u32, u32)>,
    /// Subpicture layout block — present iff
    /// `sps_subpic_info_present_flag`.
    pub subpic_info: Option<VvcSubpicInfo>,
    /// `sps_bitdepth_minus8` ue(v) — 0..=8 (`BitDepth ≤ 16`).
    pub sps_bitdepth_minus8: u32,
    /// `sps_entropy_coding_sync_enabled_flag` u(1) (WPP).
    pub sps_entropy_coding_sync_enabled_flag: u8,
    /// `sps_entry_point_offsets_present_flag` u(1).
    pub sps_entry_point_offsets_present_flag: u8,
    /// `sps_log2_max_pic_order_cnt_lsb_minus4` u(4) — 0..=12.
    pub sps_log2_max_pic_order_cnt_lsb_minus4: u8,
    /// `sps_poc_msb_cycle_len_minus1` ue(v) — present iff
    /// `sps_poc_msb_cycle_flag`; range `0..=32 -
    /// sps_log2_max_pic_order_cnt_lsb_minus4 - 5`.
    pub sps_poc_msb_cycle_len_minus1: Option<u32>,
    /// `sps_extra_ph_bit_present_flag[i]` bits —
    /// `sps_num_extra_ph_bytes * 8` of them (0..=2 bytes).
    pub sps_extra_ph_bit_present_flags: Vec<u8>,
    /// `sps_extra_sh_bit_present_flag[i]` bits.
    pub sps_extra_sh_bit_present_flags: Vec<u8>,
    /// `sps_sublayer_dpb_params_flag` u(1) — coded only when PTL/DPB/
    /// HRD present and `sps_max_sublayers_minus1 > 0`; inferred 0.
    pub sps_sublayer_dpb_params_flag: u8,
    /// `dpb_parameters(sps_max_sublayers_minus1,
    /// sps_sublayer_dpb_params_flag)` — present iff
    /// `sps_ptl_dpb_hrd_params_present_flag`.
    pub dpb_parameters: Option<VvcDpbParameters>,
    /// `sps_log2_min_luma_coding_block_size_minus2` ue(v) —
    /// `MinCbLog2SizeY ≤ Min(6, CtbLog2SizeY)`.
    pub sps_log2_min_luma_coding_block_size_minus2: u32,
    /// `sps_partition_constraints_override_enabled_flag` u(1).
    pub sps_partition_constraints_override_enabled_flag: u8,
    /// `sps_log2_diff_min_qt_min_cb_intra_slice_luma` ue(v).
    pub sps_log2_diff_min_qt_min_cb_intra_slice_luma: u32,
    /// `sps_max_mtt_hierarchy_depth_intra_slice_luma` ue(v).
    pub sps_max_mtt_hierarchy_depth_intra_slice_luma: u32,
    /// `sps_log2_diff_max_bt_min_qt_intra_slice_luma` ue(v) — coded
    /// only when the intra-luma MTT depth is nonzero; inferred 0.
    pub sps_log2_diff_max_bt_min_qt_intra_slice_luma: u32,
    /// `sps_log2_diff_max_tt_min_qt_intra_slice_luma` ue(v) — ditto.
    pub sps_log2_diff_max_tt_min_qt_intra_slice_luma: u32,
    /// `sps_qtbtt_dual_tree_intra_flag` u(1) — coded only when
    /// `sps_chroma_format_idc != 0`; inferred 0.
    pub sps_qtbtt_dual_tree_intra_flag: u8,
    /// `sps_log2_diff_min_qt_min_cb_intra_slice_chroma` ue(v) — coded
    /// only when dual-tree intra; inferred 0.
    pub sps_log2_diff_min_qt_min_cb_intra_slice_chroma: u32,
    /// `sps_max_mtt_hierarchy_depth_intra_slice_chroma` ue(v) — ditto.
    pub sps_max_mtt_hierarchy_depth_intra_slice_chroma: u32,
    /// `sps_log2_diff_max_bt_min_qt_intra_slice_chroma` ue(v).
    pub sps_log2_diff_max_bt_min_qt_intra_slice_chroma: u32,
    /// `sps_log2_diff_max_tt_min_qt_intra_slice_chroma` ue(v).
    pub sps_log2_diff_max_tt_min_qt_intra_slice_chroma: u32,
    /// `sps_log2_diff_min_qt_min_cb_inter_slice` ue(v).
    pub sps_log2_diff_min_qt_min_cb_inter_slice: u32,
    /// `sps_max_mtt_hierarchy_depth_inter_slice` ue(v).
    pub sps_max_mtt_hierarchy_depth_inter_slice: u32,
    /// `sps_log2_diff_max_bt_min_qt_inter_slice` ue(v) — coded only
    /// when the inter MTT depth is nonzero; inferred 0.
    pub sps_log2_diff_max_bt_min_qt_inter_slice: u32,
    /// `sps_log2_diff_max_tt_min_qt_inter_slice` ue(v) — ditto.
    pub sps_log2_diff_max_tt_min_qt_inter_slice: u32,
    /// `sps_max_luma_transform_size_64_flag` u(1) — coded only when
    /// `CtbSizeY > 32`; inferred 0.
    pub sps_max_luma_transform_size_64_flag: u8,
    /// `sps_transform_skip_enabled_flag` u(1).
    pub sps_transform_skip_enabled_flag: u8,
    /// `sps_log2_transform_skip_max_size_minus2` ue(v) — 0..=3, coded
    /// only when transform skip is enabled.
    pub sps_log2_transform_skip_max_size_minus2: u32,
    /// `sps_bdpcm_enabled_flag` u(1) — coded only when transform skip
    /// is enabled; inferred 0.
    pub sps_bdpcm_enabled_flag: u8,
    /// `sps_mts_enabled_flag` u(1).
    pub sps_mts_enabled_flag: u8,
    /// `sps_explicit_mts_intra_enabled_flag` u(1) — coded only when
    /// MTS is enabled; inferred 0.
    pub sps_explicit_mts_intra_enabled_flag: u8,
    /// `sps_explicit_mts_inter_enabled_flag` u(1) — ditto.
    pub sps_explicit_mts_inter_enabled_flag: u8,
    /// `sps_lfnst_enabled_flag` u(1).
    pub sps_lfnst_enabled_flag: u8,
    /// `sps_joint_cbcr_enabled_flag` u(1) — coded only when chroma is
    /// present; inferred 0.
    pub sps_joint_cbcr_enabled_flag: u8,
    /// `sps_same_qp_table_for_chroma_flag` u(1) — coded only when
    /// chroma is present; inferred 1 (§7.4.3.4).
    pub sps_same_qp_table_for_chroma_flag: u8,
    /// Chroma QP mapping tables — `numQpTables` of them (1, 2 or 3
    /// depending on the two flags above); empty for monochrome.
    pub chroma_qp_tables: Vec<VvcChromaQpTable>,
    /// `sps_sao_enabled_flag` u(1).
    pub sps_sao_enabled_flag: u8,
    /// `sps_alf_enabled_flag` u(1).
    pub sps_alf_enabled_flag: u8,
    /// `sps_ccalf_enabled_flag` u(1) — coded only when ALF is enabled
    /// and chroma is present; inferred 0.
    pub sps_ccalf_enabled_flag: u8,
    /// `sps_lmcs_enabled_flag` u(1).
    pub sps_lmcs_enabled_flag: u8,
    /// `sps_weighted_pred_flag` u(1).
    pub sps_weighted_pred_flag: u8,
    /// `sps_weighted_bipred_flag` u(1).
    pub sps_weighted_bipred_flag: u8,
    /// `sps_long_term_ref_pics_flag` u(1).
    pub sps_long_term_ref_pics_flag: u8,
    /// `sps_inter_layer_prediction_enabled_flag` u(1) — coded only
    /// when `sps_video_parameter_set_id > 0`; inferred 0.
    pub sps_inter_layer_prediction_enabled_flag: u8,
    /// `sps_idr_rpl_present_flag` u(1).
    pub sps_idr_rpl_present_flag: u8,
    /// `sps_rpl1_same_as_rpl0_flag` u(1).
    pub sps_rpl1_same_as_rpl0_flag: u8,
    /// The `ref_pic_list_struct(i, j)` template lists. `[1]` is empty
    /// when `sps_rpl1_same_as_rpl0_flag` (list 1 mirrors list 0 and
    /// is not coded). Each list holds ≤ 64 structures (§7.4.3.4).
    pub sps_ref_pic_lists: [Vec<VvcRefPicListStruct>; 2],
    /// `sps_ref_wraparound_enabled_flag` u(1).
    pub sps_ref_wraparound_enabled_flag: u8,
    /// `sps_temporal_mvp_enabled_flag` u(1).
    pub sps_temporal_mvp_enabled_flag: u8,
    /// `sps_sbtmvp_enabled_flag` u(1) — coded only when temporal MVP
    /// is enabled; inferred 0.
    pub sps_sbtmvp_enabled_flag: u8,
    /// `sps_amvr_enabled_flag` u(1).
    pub sps_amvr_enabled_flag: u8,
    /// `sps_bdof_enabled_flag` u(1).
    pub sps_bdof_enabled_flag: u8,
    /// `sps_bdof_control_present_in_ph_flag` u(1) — coded only when
    /// BDOF is enabled; inferred 0.
    pub sps_bdof_control_present_in_ph_flag: u8,
    /// `sps_smvd_enabled_flag` u(1).
    pub sps_smvd_enabled_flag: u8,
    /// `sps_dmvr_enabled_flag` u(1).
    pub sps_dmvr_enabled_flag: u8,
    /// `sps_dmvr_control_present_in_ph_flag` u(1) — coded only when
    /// DMVR is enabled; inferred 0.
    pub sps_dmvr_control_present_in_ph_flag: u8,
    /// `sps_mmvd_enabled_flag` u(1).
    pub sps_mmvd_enabled_flag: u8,
    /// `sps_mmvd_fullpel_only_enabled_flag` u(1) — coded only when
    /// MMVD is enabled; inferred 0.
    pub sps_mmvd_fullpel_only_enabled_flag: u8,
    /// `sps_six_minus_max_num_merge_cand` ue(v) — 0..=5
    /// (`MaxNumMergeCand = 6 - value`).
    pub sps_six_minus_max_num_merge_cand: u32,
    /// `sps_sbt_enabled_flag` u(1).
    pub sps_sbt_enabled_flag: u8,
    /// `sps_affine_enabled_flag` u(1).
    pub sps_affine_enabled_flag: u8,
    /// `sps_five_minus_max_num_subblock_merge_cand` ue(v) — coded
    /// only when affine is enabled; 0..=`5 - sps_sbtmvp_enabled_flag`.
    pub sps_five_minus_max_num_subblock_merge_cand: u32,
    /// `sps_6param_affine_enabled_flag` u(1) — coded only when affine
    /// is enabled; inferred 0.
    pub sps_6param_affine_enabled_flag: u8,
    /// `sps_affine_amvr_enabled_flag` u(1) — coded only when affine
    /// and AMVR are both enabled; inferred 0.
    pub sps_affine_amvr_enabled_flag: u8,
    /// `sps_affine_prof_enabled_flag` u(1) — coded only when affine
    /// is enabled; inferred 0.
    pub sps_affine_prof_enabled_flag: u8,
    /// `sps_prof_control_present_in_ph_flag` u(1) — coded only when
    /// affine PROF is enabled; inferred 0.
    pub sps_prof_control_present_in_ph_flag: u8,
    /// `sps_bcw_enabled_flag` u(1).
    pub sps_bcw_enabled_flag: u8,
    /// `sps_ciip_enabled_flag` u(1).
    pub sps_ciip_enabled_flag: u8,
    /// `sps_gpm_enabled_flag` u(1) — coded only when
    /// `MaxNumMergeCand >= 2`; inferred 0.
    pub sps_gpm_enabled_flag: u8,
    /// `sps_max_num_merge_cand_minus_max_num_gpm_cand` ue(v) — coded
    /// only when GPM is enabled and `MaxNumMergeCand >= 3`; range
    /// 0..=`MaxNumMergeCand - 2`.
    pub sps_max_num_merge_cand_minus_max_num_gpm_cand: u32,
    /// `sps_log2_parallel_merge_level_minus2` ue(v) — 0..=`CtbLog2SizeY - 2`.
    pub sps_log2_parallel_merge_level_minus2: u32,
    /// `sps_isp_enabled_flag` u(1).
    pub sps_isp_enabled_flag: u8,
    /// `sps_mrl_enabled_flag` u(1).
    pub sps_mrl_enabled_flag: u8,
    /// `sps_mip_enabled_flag` u(1).
    pub sps_mip_enabled_flag: u8,
    /// `sps_cclm_enabled_flag` u(1) — coded only when chroma is
    /// present; inferred 0.
    pub sps_cclm_enabled_flag: u8,
    /// `sps_chroma_horizontal_collocated_flag` u(1) — coded only for
    /// 4:2:0; inferred 1 (§7.4.3.4).
    pub sps_chroma_horizontal_collocated_flag: u8,
    /// `sps_chroma_vertical_collocated_flag` u(1) — ditto.
    pub sps_chroma_vertical_collocated_flag: u8,
    /// `sps_palette_enabled_flag` u(1).
    pub sps_palette_enabled_flag: u8,
    /// `sps_act_enabled_flag` u(1) — coded only for 4:4:4 with the
    /// 64-luma-transform flag clear; inferred 0.
    pub sps_act_enabled_flag: u8,
    /// `sps_min_qp_prime_ts` ue(v) — 0..=8, coded only when transform
    /// skip or palette is enabled.
    pub sps_min_qp_prime_ts: u32,
    /// `sps_ibc_enabled_flag` u(1).
    pub sps_ibc_enabled_flag: u8,
    /// `sps_six_minus_max_num_ibc_merge_cand` ue(v) — 0..=5, coded
    /// only when IBC is enabled.
    pub sps_six_minus_max_num_ibc_merge_cand: u32,
    /// LADF block — present iff `sps_ladf_enabled_flag`.
    pub ladf: Option<VvcLadf>,
    /// `sps_explicit_scaling_list_enabled_flag` u(1).
    pub sps_explicit_scaling_list_enabled_flag: u8,
    /// `sps_scaling_matrix_for_lfnst_disabled_flag` u(1) — coded only
    /// when LFNST and explicit scaling lists are both enabled;
    /// inferred 0.
    pub sps_scaling_matrix_for_lfnst_disabled_flag: u8,
    /// `sps_scaling_matrix_for_alternative_colour_space_disabled_flag`
    /// u(1) — coded only when ACT and explicit scaling lists are both
    /// enabled; inferred 0.
    pub sps_scaling_matrix_for_alternative_colour_space_disabled_flag: u8,
    /// `sps_scaling_matrix_designated_colour_space_flag` u(1) — coded
    /// only when the previous flag is set; inferred 0.
    pub sps_scaling_matrix_designated_colour_space_flag: u8,
    /// `sps_dep_quant_enabled_flag` u(1).
    pub sps_dep_quant_enabled_flag: u8,
    /// `sps_sign_data_hiding_enabled_flag` u(1).
    pub sps_sign_data_hiding_enabled_flag: u8,
    /// `sps_virtual_boundaries_enabled_flag` u(1).
    pub sps_virtual_boundaries_enabled_flag: u8,
    /// `sps_virtual_boundaries_present_flag` u(1) — coded only when
    /// virtual boundaries are enabled; inferred 0.
    pub sps_virtual_boundaries_present_flag: u8,
    /// `sps_virtual_boundary_pos_x_minus1[i]` ue(v) — ≤ 3 entries.
    pub sps_virtual_boundary_pos_x_minus1: Vec<u32>,
    /// `sps_virtual_boundary_pos_y_minus1[i]` ue(v) — ≤ 3 entries.
    pub sps_virtual_boundary_pos_y_minus1: Vec<u32>,
    /// Timing/HRD block — present iff
    /// `sps_timing_hrd_params_present_flag` (which itself is only
    /// coded when `sps_ptl_dpb_hrd_params_present_flag`).
    pub timing_hrd: Option<VvcSpsTimingHrd>,
    /// `sps_field_seq_flag` u(1).
    pub sps_field_seq_flag: u8,
    /// Raw `vui_payload()` bytes (`sps_vui_payload_size_minus1 + 1`
    /// of them, 1..=1024) — present iff
    /// `sps_vui_parameters_present_flag`. Preserved opaquely; §7.3.2.4
    /// byte-aligns before the payload so the block round-trips
    /// byte-exactly without VUI field parsing.
    pub vui_payload: Option<Vec<u8>>,
    /// `sps_extension_flag` u(1).
    pub sps_extension_flag: u8,
    /// `sps_range_extension()` — present iff `sps_range_extension_flag`
    /// (only coded when `sps_extension_flag`).
    pub range_extension: Option<VvcSpsRangeExtension>,
    /// `sps_extension_7bits` u(7) — coded only when
    /// `sps_extension_flag`; inferred 0.
    pub sps_extension_7bits: u8,
    /// `sps_extension_data_flag` bits (0/1 each) — the
    /// `more_rbsp_data()`-driven tail present when
    /// `sps_extension_7bits != 0`. Retained verbatim so the writer
    /// stays byte-exact.
    pub sps_extension_data: Vec<u8>,
}

/// `Ceil(size / CtbSizeY)` for a picture size in luma samples.
pub open spec fn ctbs(size: u32, log2_ctu_size_minus5: u8) -> nat {
    let ctb = pow2((log2_ctu_size_minus5 + 5) as nat);
    ((size + ctb - 1) / ctb as int) as nat
}

pub(crate) broadcast proof fn lemma_ctbs_bound(size: u32, log2_ctu_size_minus5: u8)
    ensures
        log2_ctu_size_minus5 <= 2 ==> #[trigger] ctbs(size, log2_ctu_size_minus5) <= 0x0800_0000,
{
    lemma2_to64();
    let ctb = pow2((log2_ctu_size_minus5 + 5) as nat);
    if log2_ctu_size_minus5 == 0 {
        assert(ctb == 32);
        assert(ctbs(size, log2_ctu_size_minus5) == (size + 31) / 32);
    } else if log2_ctu_size_minus5 == 1 {
        assert(ctb == 64);
        assert(ctbs(size, log2_ctu_size_minus5) == (size + 63) / 64);
    } else if log2_ctu_size_minus5 == 2 {
        assert(ctb == 128);
        assert(ctbs(size, log2_ctu_size_minus5) == (size + 127) / 128);
    }
}

/// `Ceil(size / CtbSizeY)` for a picture size in luma samples.
pub(crate) fn pic_ctbs(size: u32, log2_ctu_size_minus5: u8) -> (n: u64)
    requires
        log2_ctu_size_minus5 <= 58,
    ensures
        n == ctbs(size, log2_ctu_size_minus5),
        log2_ctu_size_minus5 <= 2 ==> n <= 0x0800_0000,
{
    let e: u32 = log2_ctu_size_minus5 as u32 + 5;
    proof {
        lemma_pow2_le(e as nat, 63);
        lemma_pow2_pos(e as nat);
        lemma2_to64();
        lemma2_to64_rest();
        vstd::bits::lemma_u64_shl_is_mul(1, e as u64);
        lemma_ctbs_bound(size, log2_ctu_size_minus5);
    }
    let ctb: u64 = 1u64 << e;
    (size as u64 + ctb - 1) / ctb
}

/// numQpTables: none for monochrome.
pub open spec fn num_qp_tables(chroma_format_idc: u8, same: u8, joint: u8) -> u64 {
    if chroma_format_idc == 0 {
        0
    } else if same != 0 {
        1
    } else if joint != 0 {
        3
    } else {
        2
    }
}

/// numQpTables: none for monochrome.
fn count_qp_tables(chroma_format_idc: u8, same: u8, joint: u8) -> (n: u64)
    ensures
        n == num_qp_tables(chroma_format_idc, same, joint),
{
    if chroma_format_idc == 0 {
        0
    } else if same != 0 {
        1
    } else if joint != 0 {
        3
    } else {
        2
    }
}

impl VvcSps {
    /// `CtbLog2SizeY = sps_log2_ctu_size_minus5 + 5` (§7.4.3.4).
    pub fn ctb_log2_size_y(&self) -> (n: u32)
        ensures
            n == self.sps_log2_ctu_size_minus5 + 5,
    {
        self.sps_log2_ctu_size_minus5 as u32 + 5
    }

    /// `CtbSizeY = 1 << CtbLog2SizeY`.
    pub fn ctb_size_y(&self) -> (n: u32)
        requires
            self.sps_log2_ctu_size_minus5 <= 26,
        ensures
            n == pow2((self.sps_log2_ctu_size_minus5 + 5) as nat),
    {
        let e: u32 = self.ctb_log2_size_y();
        proof {
            lemma2_to64();
            lemma_pow2_le(e as nat, 31);
            vstd::bits::lemma_u32_shl_is_mul(1, e);
        }
        1u32 << e
    }

    /// Effective sample bit depth (`8 + sps_bitdepth_minus8`).
    pub fn bit_depth(&self) -> (n: u32)
        requires
            self.sps_bitdepth_minus8 <= u32::MAX - 8,
        ensures
            n == self.sps_bitdepth_minus8 + 8,
    {
        8 + self.sps_bitdepth_minus8
    }

    /// Width of `ph_pic_order_cnt_lsb` in bits (§7.4.3.4 / §7.4.3.8):
    /// `sps_log2_max_pic_order_cnt_lsb_minus4 + 4`.
    pub fn poc_lsb_width(&self) -> (n: u32)
        ensures
            n == self.sps_log2_max_pic_order_cnt_lsb_minus4 + 4,
    {
        self.sps_log2_max_pic_order_cnt_lsb_minus4 as u32 + 4
    }

    /// `MaxPicOrderCntLsb = 1 << poc_lsb_width()` (§7.4.3.4).
    pub fn max_pic_order_cnt_lsb(&self) -> (n: u32)
        requires
            self.sps_log2_max_pic_order_cnt_lsb_minus4 <= 27,
        ensures
            n == pow2((self.sps_log2_max_pic_order_cnt_lsb_minus4 + 4) as nat),
    {
        let e: u32 = self.poc_lsb_width();
        proof {
            lemma2_to64();
            lemma_pow2_le(e as nat, 31);
            vstd::bits::lemma_u32_shl_is_mul(1, e);
        }
        1u32 << e
    }

    /// `sps_ptl_dpb_hrd_params_present_flag`: in this representation
    /// the flag is carried by the presence of
    /// [`VvcSps::profile_tier_level`] / [`VvcSps::dpb_parameters`].
    pub fn ptl_dpb_hrd_params_present(&self) -> (b: bool)
        ensures
            b == (self.profile_tier_level is Some),
    {
        self.profile_tier_level.is_some()
    }

    /// `MaxNumMergeCand = 6 - sps_six_minus_max_num_merge_cand`
    /// (§7.4.3.4), at least 1.
    pub fn max_num_merge_cand(&self) -> (n: u32)
        ensures
            n == (if self.sps_six_minus_max_num_merge_cand <= 5 {
                6 - self.sps_six_minus_max_num_merge_cand
            } else {
                1
            }),
    {
        if self.sps_six_minus_max_num_merge_cand <= 5 {
            6 - self.sps_six_minus_max_num_merge_cand
        } else {
            1
        }
    }

    /// `(sps_pic_width_max_in_luma_samples + CtbSizeY - 1) / CtbSizeY`,
    /// the picture width in CTUs (`tmpWidthVal`, §7.4.3.4).
    pub fn pic_width_in_ctbs(&self) -> (n: u64)
        requires
            self.sps_log2_ctu_size_minus5 <= 26,
        ensures
            n == ctbs(self.sps_pic_width_max_in_luma_samples, self.sps_log2_ctu_size_minus5),
    {
        pic_ctbs(self.sps_pic_width_max_in_luma_samples, self.sps_log2_ctu_size_minus5)
    }

    /// `tmpHeightVal` (§7.4.3.4), the picture height in CTUs.
    pub fn pic_height_in_ctbs(&self) -> (n: u64)
        requires
            self.sps_log2_ctu_size_minus5 <= 26,
        ensures
            n == ctbs(self.sps_pic_height_max_in_luma_samples, self.sps_log2_ctu_size_minus5),
    {
        pic_ctbs(self.sps_pic_height_max_in_luma_samples, self.sps_log2_ctu_size_minus5)
    }
}

broadcast proof fn lemma_sps_ids_bounds(x: SpsIds)
    ensures
        #[trigger] sps_ids_ok(x) ==> x.sps_log2_ctu_size_minus5 <= 2,
{
    reveal(sps_ids_ok);
}

/// The fields of an SPS up to the DPB parameters.
pub struct SpsFront {
    pub ids: SpsIds,
    pub profile_tier_level: Option<VvcProfileTierLevel>,
    pub size: SpsSize,
    pub subpic_info: Option<VvcSubpicInfo>,
    pub poc: SpsPoc,
    pub sps_extra_ph_bit_present_flags: Vec<u8>,
    pub sps_extra_sh_bit_present_flags: Vec<u8>,
    pub sps_sublayer_dpb_params_flag: u8,
    pub dpb_parameters: Option<VvcDpbParameters>,
}

/// The mathematical model of a [`SpsFront`].
pub struct SpsFrontModel {
    pub ids: SpsIds,
    pub profile_tier_level: Option<VvcProfileTierLevelModel>,
    pub size: SpsSize,
    pub subpic_info: Option<VvcSubpicInfoModel>,
    pub poc: SpsPoc,
    pub sps_extra_ph_bit_present_flags: Seq<u8>,
    pub sps_extra_sh_bit_present_flags: Seq<u8>,
    pub sps_sublayer_dpb_params_flag: u8,
    pub dpb_parameters: Option<VvcDpbParametersModel>,
}

impl View for SpsFront {
    type V = SpsFrontModel;

    open spec fn view(&self) -> SpsFrontModel {
        SpsFrontModel {
            ids: self.ids,
            profile_tier_level: opt_view(self.profile_tier_level),
            size: self.size,
            subpic_info: opt_view(self.subpic_info),
            poc: self.poc,
            sps_extra_ph_bit_present_flags: self.sps_extra_ph_bit_present_flags@,
            sps_extra_sh_bit_present_flags: self.sps_extra_sh_bit_present_flags@,
            sps_sublayer_dpb_params_flag: self.sps_sublayer_dpb_params_flag,
            dpb_parameters: opt_view(self.dpb_parameters),
        }
    }
}

/// The fields of an SPS up to the DPB parameters at position `p`.
#[verifier::opaque]
pub open spec fn sps_front_at(s: Seq<bool>, p: nat) -> Read<SpsFrontModel> {
    match sps_ids_at(s, p) { Err(f) => Err(f), Ok((ids, p)) => {
    let max_sub = ids.sps_max_sublayers_minus1 as u32;
    let present = flag_at(s, p);
    let p = adv(p, 1);
    match (if present { read_some(ptl_at(s, p, true, max_sub)) } else { Ok((None, p)) })
    { Err(f) => Err(f), Ok((profile_tier_level, p)) => {
    let ptl_present = profile_tier_level.is_some();
    match sps_size_at(s, p) { Err(f) => Err(f), Ok((size, p)) => {
    let tmp_w = ctbs(size.sps_pic_width_max_in_luma_samples, ids.sps_log2_ctu_size_minus5) as u64;
    let tmp_h = ctbs(size.sps_pic_height_max_in_luma_samples, ids.sps_log2_ctu_size_minus5) as u64;
    let present = flag_at(s, p);
    let p = adv(p, 1);
    match (if present { read_some(subpic_info_at(s, p, tmp_w, tmp_h)) } else { Ok((None, p)) })
    { Err(f) => Err(f), Ok((subpic_info, p)) => {
    match sps_poc_at(s, p) { Err(f) => Err(f), Ok((poc, p)) => {
    let num_extra_ph_bytes = u8_at(s, p, 2);
    let p = adv(p, 2);
    if num_extra_ph_bytes > 2 { Err(Fault::Invalid) } else {
    match bitlist_at(s, p, ((num_extra_ph_bytes as u64 * 8) as u64) as nat)
    { Err(f) => Err(f), Ok((sps_extra_ph_bit_present_flags, p)) => {
    let num_extra_sh_bytes = u8_at(s, p, 2);
    let p = adv(p, 2);
    if num_extra_sh_bytes > 2 { Err(Fault::Invalid) } else {
    match bitlist_at(s, p, ((num_extra_sh_bytes as u64 * 8) as u64) as nat)
    { Err(f) => Err(f), Ok((sps_extra_sh_bit_present_flags, p)) => {
    let sps_sublayer_dpb_params_flag = u8_if(s, p, 1, ptl_present && ids.sps_max_sublayers_minus1 > 0, 0);
    let p = adv_if(p, 1, ptl_present && ids.sps_max_sublayers_minus1 > 0);
    match (if ptl_present {
        read_some(dpb_parameters_at(s, p, max_sub, sps_sublayer_dpb_params_flag != 0))
    } else {
        Ok((None, p))
    })
    { Err(f) => Err(f), Ok((dpb_parameters, p)) => {
    Ok((
        SpsFrontModel {
            ids,
            profile_tier_level,
            size,
            subpic_info,
            poc,
            sps_extra_ph_bit_present_flags,
            sps_extra_sh_bit_present_flags,
            sps_sublayer_dpb_params_flag,
            dpb_parameters,
        },
        p,
    ))
    }}}}}}}}}}}}}}}}}}
}

/// The bits `a` followed by the fields of an SPS up to the DPB parameters.
#[verifier::opaque]
pub open spec fn put_sps_front(a: Seq<bool>, x: SpsFrontModel) -> Seq<bool> {
    let a = put_sps_ids(a, x.ids);
    let max_sub = x.ids.sps_max_sublayers_minus1 as u32;
    let a = put_flag(a, x.profile_tier_level is Some);
    let a = match x.profile_tier_level { Some(y) => put_ptl(a, y, true, max_sub), None => a };
    let ptl_present = x.profile_tier_level.is_some();
    let a = put_sps_size(a, x.size);
    let tmp_w = ctbs(x.size.sps_pic_width_max_in_luma_samples, x.ids.sps_log2_ctu_size_minus5) as u64;
    let tmp_h = ctbs(x.size.sps_pic_height_max_in_luma_samples, x.ids.sps_log2_ctu_size_minus5) as u64;
    let a = put_flag(a, x.subpic_info is Some);
    let a = match x.subpic_info { Some(y) => put_subpic_info(a, y, tmp_w, tmp_h), None => a };
    let a = put_sps_poc(a, x.poc);
    let num_extra_ph_bytes = (x.sps_extra_ph_bit_present_flags.len() / 8) as u8;
    let a = put_u(a, num_extra_ph_bytes as nat, 2);
    let a = put_bitlist(a, x.sps_extra_ph_bit_present_flags);
    let num_extra_sh_bytes = (x.sps_extra_sh_bit_present_flags.len() / 8) as u8;
    let a = put_u(a, num_extra_sh_bytes as nat, 2);
    let a = put_bitlist(a, x.sps_extra_sh_bit_present_flags);
    let a = put_bit_if(
        a,
        x.sps_sublayer_dpb_params_flag as nat,
        ptl_present && x.ids.sps_max_sublayers_minus1 > 0,
    );
    let a = match x.dpb_parameters {
        Some(y) => put_dpb_parameters(a, y, max_sub, x.sps_sublayer_dpb_params_flag != 0),
        None => a,
    };
    a
}

/// The values of the fields of an SPS up to the DPB parameters that reading can
/// give.
#[verifier::opaque]
pub open spec fn sps_front_ok(x: SpsFrontModel) -> bool {
    &&& sps_ids_ok(x.ids)
    &&& {
        let max_sub = x.ids.sps_max_sublayers_minus1 as u32;
        &&& x.profile_tier_level matches Some(y) ==> ptl_ok(y, true, max_sub)
        &&& {
            let ptl_present = x.profile_tier_level.is_some();
            &&& sps_size_ok(x.size)
            &&& {
                let tmp_w = ctbs(
                    x.size.sps_pic_width_max_in_luma_samples,
                    x.ids.sps_log2_ctu_size_minus5,
                ) as u64;
                let tmp_h = ctbs(
                    x.size.sps_pic_height_max_in_luma_samples,
                    x.ids.sps_log2_ctu_size_minus5,
                ) as u64;
                &&& x.subpic_info matches Some(y) ==> subpic_info_ok(y, tmp_w, tmp_h)
                &&& sps_poc_ok(x.poc)
                &&& x.sps_extra_ph_bit_present_flags.len() % 8 == 0
                    && x.sps_extra_ph_bit_present_flags.len() <= 16
                &&& {
                    let num_extra_ph_bytes = (x.sps_extra_ph_bit_present_flags.len() / 8) as u8;
                    &&& fits(num_extra_ph_bytes as nat, 2)
                    &&& num_extra_ph_bytes <= 2
                    &&& x.sps_extra_ph_bit_present_flags.len() == (num_extra_ph_bytes as u64 * 8) as u64
                    &&& bitlist_ok(x.sps_extra_ph_bit_present_flags)
                    &&& x.sps_extra_sh_bit_present_flags.len() % 8 == 0
                        && x.sps_extra_sh_bit_present_flags.len() <= 16
                    &&& {
                        let num_extra_sh_bytes = (x.sps_extra_sh_bit_present_flags.len() / 8) as u8;
                        &&& fits(num_extra_sh_bytes as nat, 2)
                        &&& num_extra_sh_bytes <= 2
                        &&& x.sps_extra_sh_bit_present_flags.len() == (num_extra_sh_bytes as u64 * 8) as u64
                        &&& bitlist_ok(x.sps_extra_sh_bit_present_flags)
                        &&& if ptl_present
                            && x.ids.sps_max_sublayers_minus1 > 0 {
                                fits(x.sps_sublayer_dpb_params_flag as nat, 1)
                            } else {
                                x.sps_sublayer_dpb_params_flag == 0
                            }
                        &&& x.dpb_parameters is Some <==> ptl_present
                        &&& x.dpb_parameters matches Some(y)
                            ==> dpb_parameters_ok(y, max_sub, x.sps_sublayer_dpb_params_flag != 0)
                    }
                }
            }
        }
    }
}

/// The values of the fields of an SPS up to the DPB parameters that the writer
/// accepts.
#[verifier::opaque]
pub open spec fn sps_front_can(x: SpsFrontModel) -> bool {
    &&& sps_ids_can(x.ids)
    &&& {
        let max_sub = x.ids.sps_max_sublayers_minus1 as u32;
        &&& x.profile_tier_level matches Some(y) ==> ptl_can(y, true, max_sub)
        &&& {
            let ptl_present = x.profile_tier_level.is_some();
            &&& sps_size_can(x.size)
            &&& {
                let tmp_w = ctbs(
                    x.size.sps_pic_width_max_in_luma_samples,
                    x.ids.sps_log2_ctu_size_minus5,
                ) as u64;
                let tmp_h = ctbs(
                    x.size.sps_pic_height_max_in_luma_samples,
                    x.ids.sps_log2_ctu_size_minus5,
                ) as u64;
                &&& x.subpic_info matches Some(y) ==> subpic_info_can(y, tmp_w, tmp_h)
                &&& sps_poc_can(x.poc)
                &&& x.sps_extra_ph_bit_present_flags.len() % 8 == 0
                    && x.sps_extra_ph_bit_present_flags.len() <= 16
                &&& x.sps_extra_sh_bit_present_flags.len() % 8 == 0
                    && x.sps_extra_sh_bit_present_flags.len() <= 16
                &&& x.dpb_parameters is Some <==> ptl_present
                &&& x.dpb_parameters matches Some(y)
                    ==> dpb_parameters_can(y, max_sub, x.sps_sublayer_dpb_params_flag != 0)
            }
        }
    }
}

/// Parses the fields of an SPS up to the DPB parameters.
#[verifier::rlimit(40)]
#[verifier::spinoff_prover]
fn parse_sps_front(r: &mut BitReader<'_>) -> (res: Result<SpsFront, BitstreamError>)
    ensures
        read_view_is(sps_front_at(old(r).bits(), old(r).pos()), res, *old(r), *final(r)),
        res matches Ok(x)
            ==> x.ids.sps_log2_ctu_size_minus5 <= 2
            && x.poc.sps_bitdepth_minus8 <= 8
            && x.poc.sps_log2_max_pic_order_cnt_lsb_minus4 <= 12,
{
    proof {
        reveal(sps_front_at);
    }
    let ids = parse_sps_ids(r)?;
    let max_sub: u32 = ids.sps_max_sublayers_minus1 as u32;
    let present: bool = r.flag();
    let profile_tier_level = if present { Some(parse_profile_tier_level(r, true, max_sub)?) } else { None };
    let ptl_present: bool = profile_tier_level.is_some();
    let size = parse_sps_size(r)?;
    let tmp_w: u64 = pic_ctbs(size.sps_pic_width_max_in_luma_samples, ids.sps_log2_ctu_size_minus5);
    let tmp_h: u64 = pic_ctbs(size.sps_pic_height_max_in_luma_samples, ids.sps_log2_ctu_size_minus5);
    let present: bool = r.flag();
    let subpic_info = if present { Some(parse_subpic_info(r, tmp_w, tmp_h)?) } else { None };
    let poc = parse_sps_poc(r)?;
    let num_extra_ph_bytes: u8 = r.u8(2);
    if num_extra_ph_bytes > 2 {
        return Err(
            BitstreamError::invalid(
                "sps_num_extra_ph_bytes = 3 is outside this version's envelope (7.4.3.4)",
            ),
        );
    }
    let sps_extra_ph_bit_present_flags = r.read_bitlist((num_extra_ph_bytes as u64 * 8) as u64);
    let num_extra_sh_bytes: u8 = r.u8(2);
    if num_extra_sh_bytes > 2 {
        return Err(
            BitstreamError::invalid(
                "sps_num_extra_sh_bytes = 3 is outside this version's envelope (7.4.3.4)",
            ),
        );
    }
    let sps_extra_sh_bit_present_flags = r.read_bitlist((num_extra_sh_bytes as u64 * 8) as u64);
    let sps_sublayer_dpb_params_flag: u8 = r.bit_if(ptl_present && ids.sps_max_sublayers_minus1 > 0, 0);
    let dpb_parameters = if ptl_present {
        Some(parse_dpb_parameters(r, max_sub, sps_sublayer_dpb_params_flag != 0)?)
    } else {
        None
    };
    Ok(
        SpsFront {
            ids,
            profile_tier_level,
            size,
            subpic_info,
            poc,
            sps_extra_ph_bit_present_flags,
            sps_extra_sh_bit_present_flags,
            sps_sublayer_dpb_params_flag,
            dpb_parameters,
        },
    )
}

/// Emits the fields of an SPS up to the DPB parameters, the inverse of [`parse_sps_front`].
#[verifier::rlimit(40)]
#[verifier::spinoff_prover]
fn write_sps_front(w: &mut BitWriter, x: &VvcSps) -> (res: Result<(), BitstreamError>)
    ensures
        write_is(sps_front_can(x@.front), put_sps_front(old(w)@, x@.front), res, final(w)@),
        res is Ok
            ==> x.sps_log2_ctu_size_minus5 <= 2
            && x.sps_bitdepth_minus8 <= 8
            && x.sps_log2_max_pic_order_cnt_lsb_minus4 <= 12,
{
    proof {
        reveal(put_sps_front);
        reveal(sps_front_can);
    }
    let ids = SpsIds {
        sps_seq_parameter_set_id: x.sps_seq_parameter_set_id,
        sps_video_parameter_set_id: x.sps_video_parameter_set_id,
        sps_max_sublayers_minus1: x.sps_max_sublayers_minus1,
        sps_chroma_format_idc: x.sps_chroma_format_idc,
        sps_log2_ctu_size_minus5: x.sps_log2_ctu_size_minus5,
    };
    write_sps_ids(w, &ids)?;
    let max_sub: u32 = ids.sps_max_sublayers_minus1 as u32;
    w.write_flag(x.profile_tier_level.is_some());
    if let Some(y) = &x.profile_tier_level {
        write_profile_tier_level(w, y, true, max_sub)?;
    }
    let ptl_present: bool = x.profile_tier_level.is_some();
    let size = SpsSize {
        sps_gdr_enabled_flag: x.sps_gdr_enabled_flag,
        sps_ref_pic_resampling_enabled_flag: x.sps_ref_pic_resampling_enabled_flag,
        sps_res_change_in_clvs_allowed_flag: x.sps_res_change_in_clvs_allowed_flag,
        sps_pic_width_max_in_luma_samples: x.sps_pic_width_max_in_luma_samples,
        sps_pic_height_max_in_luma_samples: x.sps_pic_height_max_in_luma_samples,
        sps_conf_win_offsets: x.sps_conf_win_offsets,
    };
    write_sps_size(w, &size)?;
    let tmp_w: u64 = pic_ctbs(size.sps_pic_width_max_in_luma_samples, ids.sps_log2_ctu_size_minus5);
    let tmp_h: u64 = pic_ctbs(size.sps_pic_height_max_in_luma_samples, ids.sps_log2_ctu_size_minus5);
    w.write_flag(x.subpic_info.is_some());
    if let Some(y) = &x.subpic_info {
        write_subpic_info(w, y, tmp_w, tmp_h)?;
    }
    let poc = SpsPoc {
        sps_bitdepth_minus8: x.sps_bitdepth_minus8,
        sps_entropy_coding_sync_enabled_flag: x.sps_entropy_coding_sync_enabled_flag,
        sps_entry_point_offsets_present_flag: x.sps_entry_point_offsets_present_flag,
        sps_log2_max_pic_order_cnt_lsb_minus4: x.sps_log2_max_pic_order_cnt_lsb_minus4,
        sps_poc_msb_cycle_len_minus1: x.sps_poc_msb_cycle_len_minus1,
    };
    write_sps_poc(w, &poc)?;
    if !(x.sps_extra_ph_bit_present_flags.len() % 8 == 0 && x.sps_extra_ph_bit_present_flags.len() <= 16) {
        return Err(BitstreamError::invalid("sps_extra_ph_bit_present_flags length must be 0, 8 or 16 bits"));
    }
    let num_extra_ph_bytes: u8 = (x.sps_extra_ph_bit_present_flags.len() / 8) as u8;
    w.write_bits(num_extra_ph_bytes as u32, 2);
    w.write_bitlist(x.sps_extra_ph_bit_present_flags.as_slice());
    if !(x.sps_extra_sh_bit_present_flags.len() % 8 == 0 && x.sps_extra_sh_bit_present_flags.len() <= 16) {
        return Err(BitstreamError::invalid("sps_extra_sh_bit_present_flags length must be 0, 8 or 16 bits"));
    }
    let num_extra_sh_bytes: u8 = (x.sps_extra_sh_bit_present_flags.len() / 8) as u8;
    w.write_bits(num_extra_sh_bytes as u32, 2);
    w.write_bitlist(x.sps_extra_sh_bit_present_flags.as_slice());
    w.write_bit_if(x.sps_sublayer_dpb_params_flag as u32, ptl_present && ids.sps_max_sublayers_minus1 > 0);
    if x.dpb_parameters.is_some() != ptl_present {
        return Err(
            BitstreamError::invalid("dpb_parameters must be present iff profile_tier_level is (7.3.2.4)"),
        );
    }
    if let Some(y) = &x.dpb_parameters {
        write_dpb_parameters(w, y, max_sub, x.sps_sublayer_dpb_params_flag != 0)?;
    }
    Ok(())
}

/// Writing the fields of an SPS up to the DPB parameters gives back the bits it
/// was read from.
#[verifier::rlimit(40)]
#[verifier::spinoff_prover]
pub broadcast proof fn law_put_sps_front_at(s: Seq<bool>, p: nat)
    ensures
        #[trigger] sps_front_at(s, p) matches Ok((x, q)) ==> {
            &&& sps_front_ok(x)
            &&& sps_front_can(x)
            &&& within(s, q) ==> within(s, p) && put_sps_front(upto(s, p), x) == upto(s, q)
        },
{
    broadcast use {
        crate::bits::group_write_read,
        crate::bits::group_write_read_lists,
        law_put_sps_ids_at,
        law_put_ptl_at,
        law_put_sps_size_at,
        law_put_subpic_info_at,
        law_put_sps_poc_at,
        law_put_dpb_parameters_at,
        lemma_ctbs_bound,
        lemma_sps_ids_bounds,
    };

    reveal(sps_front_at);
    reveal(put_sps_front);
    reveal(sps_front_ok);
    reveal(sps_front_can);
}

/// Reading gives back the fields of an SPS up to the DPB parameters as it was
/// written.
#[verifier::rlimit(40)]
#[verifier::spinoff_prover]
pub broadcast proof fn law_pre_put_sps_front(a: Seq<bool>, x: SpsFrontModel, s: Seq<bool>)
    requires
        #[trigger] pre(put_sps_front(a, x), s),
        sps_front_ok(x),
    ensures
        pre(a, s),
        sps_front_can(x),
        sps_front_at(s, a.len()) == Ok::<(SpsFrontModel, nat), Fault>((x, put_sps_front(a, x).len())),
{
    broadcast use {
        crate::bits::group_read_written,
        crate::bits::group_read_written_lists,
        law_pre_put_sps_ids,
        law_pre_put_ptl,
        law_pre_put_sps_size,
        law_pre_put_subpic_info,
        law_pre_put_sps_poc,
        law_pre_put_dpb_parameters,
        lemma_ctbs_bound,
        lemma_sps_ids_bounds,
    };

    reveal(sps_front_at);
    reveal(put_sps_front);
    reveal(sps_front_ok);
    reveal(sps_front_can);
}

/// The layout of the fields of an SPS up to the DPB parameters: reading at `p`
/// gives `x` and ends at `q` if and only if these elements stand there in this
/// order, and the values are allowed.
#[verifier::rlimit(40)]
#[verifier::spinoff_prover]
pub proof fn law_layout_sps_front(s: Seq<bool>, p: nat, x: SpsFrontModel, q: nat)
    ensures
        sps_front_at(s, p) == Ok::<(SpsFrontModel, nat), Fault>((x, q)) <==> ({
            let max_sub = x.ids.sps_max_sublayers_minus1 as u32;
            let ptl_present = x.profile_tier_level.is_some();
            let tmp_w = ctbs(x.size.sps_pic_width_max_in_luma_samples, x.ids.sps_log2_ctu_size_minus5) as u64;
            let tmp_h = ctbs(
                x.size.sps_pic_height_max_in_luma_samples,
                x.ids.sps_log2_ctu_size_minus5,
            ) as u64;
            let c = cursor(s, p)
                .part(|p: nat| sps_ids_at(s, p), x.ids)
                .flagged(|p: nat| ptl_at(s, p, true, max_sub), x.profile_tier_level)
                .part(|p: nat| sps_size_at(s, p), x.size)
                .flagged(|p: nat| subpic_info_at(s, p, tmp_w, tmp_h), x.subpic_info)
                .part(|p: nat| sps_poc_at(s, p), x.poc);
            let num_extra_ph_bytes = c.next_u8(2);
            let c = c
                .u8(2, num_extra_ph_bytes)
                .part(
                    |p: nat| bitlist_at(s, p, ((num_extra_ph_bytes as u64 * 8) as u64) as nat),
                    x.sps_extra_ph_bit_present_flags,
                );
            let num_extra_sh_bytes = c.next_u8(2);
            &&& c
                .u8(2, num_extra_sh_bytes)
                .part(
                    |p: nat| bitlist_at(s, p, ((num_extra_sh_bytes as u64 * 8) as u64) as nat),
                    x.sps_extra_sh_bit_present_flags,
                )
                .u8_if(
                    ptl_present && x.ids.sps_max_sublayers_minus1 > 0,
                    1,
                    x.sps_sublayer_dpb_params_flag,
                    0,
                )
                .part_if(
                    ptl_present,
                    |p: nat| dpb_parameters_at(s, p, max_sub, x.sps_sublayer_dpb_params_flag != 0),
                    x.dpb_parameters,
                )
                .ends(q)
            &&& num_extra_ph_bytes <= 2
            &&& num_extra_sh_bytes <= 2
        }),
{
    reveal(sps_front_at);
    reveal(adv_if);
    reveal(u8_if);
}

/// Reading the fields of an SPS up to the DPB parameters fails only with an
/// error of this class.
#[verifier::rlimit(40)]
#[verifier::spinoff_prover]
pub broadcast proof fn law_faults_sps_front(s: Seq<bool>, p: nat)
    ensures
        #[trigger] sps_front_at(s, p) matches Err(f) ==> f == Fault::Invalid,
{
    broadcast use {
        law_faults_sps_ids,
        law_faults_ptl,
        law_faults_sps_size,
        law_faults_subpic_info,
        law_faults_sps_poc,
        crate::bits::law_faults_bitlist,
        law_faults_dpb_parameters,
    };

    reveal(sps_front_at);
}

/// What the writer accepts reads back: the fields of an SPS up to the DPB
/// parameters, where each field fits its width and what is not coded has the
/// value that is taken for it.
#[verifier::rlimit(40)]
#[verifier::spinoff_prover]
pub proof fn law_reads_sps_front(a: Seq<bool>, x: SpsFrontModel, s: Seq<bool>)
    requires
        sps_front_can(x),
        ({
            &&& sps_ids_ok(x.ids)
            &&& {
                let max_sub = x.ids.sps_max_sublayers_minus1 as u32;
                &&& x.profile_tier_level matches Some(y) ==> ptl_ok(y, true, max_sub)
                &&& {
                    let ptl_present = x.profile_tier_level.is_some();
                    &&& sps_size_ok(x.size)
                    &&& {
                        let tmp_w = ctbs(
                            x.size.sps_pic_width_max_in_luma_samples,
                            x.ids.sps_log2_ctu_size_minus5,
                        ) as u64;
                        let tmp_h = ctbs(
                            x.size.sps_pic_height_max_in_luma_samples,
                            x.ids.sps_log2_ctu_size_minus5,
                        ) as u64;
                        &&& x.subpic_info matches Some(y) ==> subpic_info_ok(y, tmp_w, tmp_h)
                        &&& sps_poc_ok(x.poc)
                        &&& bitlist_ok(x.sps_extra_ph_bit_present_flags)
                        &&& bitlist_ok(x.sps_extra_sh_bit_present_flags)
                        &&& if ptl_present
                            && x.ids.sps_max_sublayers_minus1 > 0 {
                                fits(x.sps_sublayer_dpb_params_flag as nat, 1)
                            } else {
                                x.sps_sublayer_dpb_params_flag == 0
                            }
                        &&& x.dpb_parameters matches Some(y)
                            ==> dpb_parameters_ok(y, max_sub, x.sps_sublayer_dpb_params_flag != 0)
                    }
                }
            }
        }),
        pre(put_sps_front(a, x), s),
    ensures
        sps_front_at(s, a.len()) == Ok::<(SpsFrontModel, nat), Fault>((x, put_sps_front(a, x).len())),
{
    assert(sps_front_ok(x)) by {
        broadcast use crate::bits::law_fits_small;

        reveal(sps_front_ok);
        reveal(sps_front_can);
    }
    law_pre_put_sps_front(a, x, s);
}

/// Each field of the model of a [`SpsFront`] is the field of that name.
pub proof fn law_view_sps_front(x: SpsFront)
    ensures
        x@.ids == x.ids,
        x@.profile_tier_level == opt_view(x.profile_tier_level),
        x@.size == x.size,
        x@.subpic_info == opt_view(x.subpic_info),
        x@.poc == x.poc,
        x@.sps_extra_ph_bit_present_flags == x.sps_extra_ph_bit_present_flags@,
        x@.sps_extra_sh_bit_present_flags == x.sps_extra_sh_bit_present_flags@,
        x@.sps_sublayer_dpb_params_flag == x.sps_sublayer_dpb_params_flag,
        x@.dpb_parameters == opt_view(x.dpb_parameters),
{
}

/// The fields of an SPS from the block partitioning to the reference picture lists.
pub struct SpsCoding {
    pub partition: SpsPartition,
    pub transform: SpsTransform,
    pub chroma_qp_tables: Vec<VvcChromaQpTable>,
    pub filters: SpsFilters,
    pub list0: Vec<VvcRefPicListStruct>,
    pub list1: Vec<VvcRefPicListStruct>,
}

/// The mathematical model of a [`SpsCoding`].
pub struct SpsCodingModel {
    pub partition: SpsPartition,
    pub transform: SpsTransform,
    pub chroma_qp_tables: Seq<VvcChromaQpTableModel>,
    pub filters: SpsFilters,
    pub list0: Seq<VvcRefPicListStructModel>,
    pub list1: Seq<VvcRefPicListStructModel>,
}

impl View for SpsCoding {
    type V = SpsCodingModel;

    open spec fn view(&self) -> SpsCodingModel {
        SpsCodingModel {
            partition: self.partition,
            transform: self.transform,
            chroma_qp_tables: seq_view(self.chroma_qp_tables@),
            filters: self.filters,
            list0: seq_view(self.list0@),
            list1: seq_view(self.list1@),
        }
    }
}

/// The fields of an SPS from the block partitioning to the reference picture
/// lists at position `p`.
#[verifier::opaque]
pub open spec fn sps_coding_at(
    s: Seq<bool>,
    p: nat,
    ids: SpsIds,
    bitdepth_minus8: u32,
    poc_lsb_bits: u32,
) -> Read<SpsCodingModel> {
    match sps_partition_at(s, p, ids.sps_log2_ctu_size_minus5, ids.sps_chroma_format_idc)
    { Err(f) => Err(f), Ok((partition, p)) => {
    match sps_transform_at(s, p, ids.sps_log2_ctu_size_minus5, ids.sps_chroma_format_idc)
    { Err(f) => Err(f), Ok((transform, p)) => {
    let num_qp_tables = num_qp_tables(
        ids.sps_chroma_format_idc,
        transform.sps_same_qp_table_for_chroma_flag,
        transform.sps_joint_cbcr_enabled_flag,
    );
    match qp_tables_at(s, p, bitdepth_minus8, num_qp_tables)
    { Err(f) => Err(f), Ok((chroma_qp_tables, p)) => {
    match sps_filters_at(s, p, ids.sps_chroma_format_idc, ids.sps_video_parameter_set_id)
    { Err(f) => Err(f), Ok((filters, p)) => {
    let rpls_ctx = VvcRplsContext {
        long_term_ref_pics: filters.sps_long_term_ref_pics_flag != 0,
        inter_layer_prediction: filters.sps_inter_layer_prediction_enabled_flag != 0,
        in_sps_list: true,
    };
    match rpl_list_at(s, p, true, rpls_ctx, poc_lsb_bits) { Err(f) => Err(f), Ok((list0, p)) => {
    match rpl_list_at(s, p, filters.sps_rpl1_same_as_rpl0_flag == 0, rpls_ctx, poc_lsb_bits)
    { Err(f) => Err(f), Ok((list1, p)) => {
    Ok((SpsCodingModel { partition, transform, chroma_qp_tables, filters, list0, list1 }, p))
    }}}}}}}}}}}}
}

/// The bits `a` followed by the fields of an SPS from the block partitioning to
/// the reference picture lists.
#[verifier::opaque]
pub open spec fn put_sps_coding(
    a: Seq<bool>,
    x: SpsCodingModel,
    ids: SpsIds,
    bitdepth_minus8: u32,
    poc_lsb_bits: u32,
) -> Seq<bool> {
    let a = put_sps_partition(a, x.partition, ids.sps_log2_ctu_size_minus5, ids.sps_chroma_format_idc);
    let a = put_sps_transform(a, x.transform, ids.sps_log2_ctu_size_minus5, ids.sps_chroma_format_idc);
    let num_qp_tables = num_qp_tables(
        ids.sps_chroma_format_idc,
        x.transform.sps_same_qp_table_for_chroma_flag,
        x.transform.sps_joint_cbcr_enabled_flag,
    );
    let a = put_qp_tables(a, x.chroma_qp_tables, bitdepth_minus8, num_qp_tables);
    let a = put_sps_filters(a, x.filters, ids.sps_chroma_format_idc, ids.sps_video_parameter_set_id);
    let rpls_ctx = VvcRplsContext {
        long_term_ref_pics: x.filters.sps_long_term_ref_pics_flag != 0,
        inter_layer_prediction: x.filters.sps_inter_layer_prediction_enabled_flag != 0,
        in_sps_list: true,
    };
    let a = put_rpl_list(a, x.list0, true, rpls_ctx, poc_lsb_bits);
    let a = put_rpl_list(a, x.list1, x.filters.sps_rpl1_same_as_rpl0_flag == 0, rpls_ctx, poc_lsb_bits);
    a
}

/// The values of the fields of an SPS from the block partitioning to the
/// reference picture lists that reading can give.
#[verifier::opaque]
pub open spec fn sps_coding_ok(
    x: SpsCodingModel,
    ids: SpsIds,
    bitdepth_minus8: u32,
    poc_lsb_bits: u32,
) -> bool {
    &&& sps_partition_ok(x.partition, ids.sps_log2_ctu_size_minus5, ids.sps_chroma_format_idc)
    &&& sps_transform_ok(x.transform, ids.sps_log2_ctu_size_minus5, ids.sps_chroma_format_idc)
    &&& {
        let num_qp_tables = num_qp_tables(
            ids.sps_chroma_format_idc,
            x.transform.sps_same_qp_table_for_chroma_flag,
            x.transform.sps_joint_cbcr_enabled_flag,
        );
        &&& qp_tables_ok(x.chroma_qp_tables, bitdepth_minus8, num_qp_tables)
        &&& sps_filters_ok(x.filters, ids.sps_chroma_format_idc, ids.sps_video_parameter_set_id)
        &&& {
            let rpls_ctx = VvcRplsContext {
                long_term_ref_pics: x.filters.sps_long_term_ref_pics_flag != 0,
                inter_layer_prediction: x.filters.sps_inter_layer_prediction_enabled_flag != 0,
                in_sps_list: true,
            };
            &&& rpl_list_ok(x.list0, true, rpls_ctx, poc_lsb_bits)
            &&& rpl_list_ok(x.list1, x.filters.sps_rpl1_same_as_rpl0_flag == 0, rpls_ctx, poc_lsb_bits)
        }
    }
}

/// The values of the fields of an SPS from the block partitioning to the
/// reference picture lists that the writer accepts.
#[verifier::opaque]
pub open spec fn sps_coding_can(
    x: SpsCodingModel,
    ids: SpsIds,
    bitdepth_minus8: u32,
    poc_lsb_bits: u32,
) -> bool {
    &&& sps_partition_can(x.partition, ids.sps_log2_ctu_size_minus5, ids.sps_chroma_format_idc)
    &&& sps_transform_can(x.transform, ids.sps_log2_ctu_size_minus5, ids.sps_chroma_format_idc)
    &&& {
        let num_qp_tables = num_qp_tables(
            ids.sps_chroma_format_idc,
            x.transform.sps_same_qp_table_for_chroma_flag,
            x.transform.sps_joint_cbcr_enabled_flag,
        );
        &&& qp_tables_can(x.chroma_qp_tables, bitdepth_minus8, num_qp_tables)
        &&& sps_filters_can(x.filters, ids.sps_chroma_format_idc, ids.sps_video_parameter_set_id)
        &&& {
            let rpls_ctx = VvcRplsContext {
                long_term_ref_pics: x.filters.sps_long_term_ref_pics_flag != 0,
                inter_layer_prediction: x.filters.sps_inter_layer_prediction_enabled_flag != 0,
                in_sps_list: true,
            };
            &&& rpl_list_can(x.list0, true, rpls_ctx, poc_lsb_bits)
            &&& rpl_list_can(x.list1, x.filters.sps_rpl1_same_as_rpl0_flag == 0, rpls_ctx, poc_lsb_bits)
        }
    }
}

/// Parses the fields of an SPS from the block partitioning to the reference picture lists.
#[verifier::rlimit(40)]
#[verifier::spinoff_prover]
fn parse_sps_coding(
    r: &mut BitReader<'_>,
    ids: SpsIds,
    bitdepth_minus8: u32,
    poc_lsb_bits: u32,
) -> (res: Result<SpsCoding, BitstreamError>)
    requires
        bitdepth_minus8 <= 8,
    ensures
        read_view_is(
            sps_coding_at(old(r).bits(), old(r).pos(), ids, bitdepth_minus8, poc_lsb_bits),
            res,
            *old(r),
            *final(r),
        ),
{
    proof {
        reveal(sps_coding_at);
    }
    let partition = parse_sps_partition(r, ids.sps_log2_ctu_size_minus5, ids.sps_chroma_format_idc)?;
    let transform = parse_sps_transform(r, ids.sps_log2_ctu_size_minus5, ids.sps_chroma_format_idc)?;
    let num_qp_tables: u64 = count_qp_tables(
        ids.sps_chroma_format_idc,
        transform.sps_same_qp_table_for_chroma_flag,
        transform.sps_joint_cbcr_enabled_flag,
    );
    let chroma_qp_tables = parse_qp_tables(r, bitdepth_minus8, num_qp_tables)?;
    let filters = parse_sps_filters(r, ids.sps_chroma_format_idc, ids.sps_video_parameter_set_id)?;
    let rpls_ctx: VvcRplsContext = VvcRplsContext {
        long_term_ref_pics: filters.sps_long_term_ref_pics_flag != 0,
        inter_layer_prediction: filters.sps_inter_layer_prediction_enabled_flag != 0,
        in_sps_list: true,
    };
    let list0 = parse_rpl_list(r, true, &rpls_ctx, poc_lsb_bits, 0)?;
    let list1 = parse_rpl_list(r, filters.sps_rpl1_same_as_rpl0_flag == 0, &rpls_ctx, poc_lsb_bits, 1)?;
    Ok(SpsCoding { partition, transform, chroma_qp_tables, filters, list0, list1 })
}

/// Emits the fields of an SPS from the block partitioning to the reference
/// picture lists, the inverse of [`parse_sps_coding`].
#[verifier::rlimit(40)]
#[verifier::spinoff_prover]
fn write_sps_coding(
    w: &mut BitWriter,
    x: &VvcSps,
    ids: SpsIds,
    bitdepth_minus8: u32,
    poc_lsb_bits: u32,
) -> (res: Result<(), BitstreamError>)
    requires
        bitdepth_minus8 <= 8,
    ensures
        write_is(
            sps_coding_can(x@.coding, ids, bitdepth_minus8, poc_lsb_bits),
            put_sps_coding(old(w)@, x@.coding, ids, bitdepth_minus8, poc_lsb_bits),
            res,
            final(w)@,
        ),
{
    proof {
        reveal(put_sps_coding);
        reveal(sps_coding_can);
    }
    let partition = SpsPartition {
        sps_log2_min_luma_coding_block_size_minus2: x.sps_log2_min_luma_coding_block_size_minus2,
        sps_partition_constraints_override_enabled_flag: x.sps_partition_constraints_override_enabled_flag,
        sps_log2_diff_min_qt_min_cb_intra_slice_luma: x.sps_log2_diff_min_qt_min_cb_intra_slice_luma,
        sps_max_mtt_hierarchy_depth_intra_slice_luma: x.sps_max_mtt_hierarchy_depth_intra_slice_luma,
        sps_log2_diff_max_bt_min_qt_intra_slice_luma: x.sps_log2_diff_max_bt_min_qt_intra_slice_luma,
        sps_log2_diff_max_tt_min_qt_intra_slice_luma: x.sps_log2_diff_max_tt_min_qt_intra_slice_luma,
        sps_qtbtt_dual_tree_intra_flag: x.sps_qtbtt_dual_tree_intra_flag,
        sps_log2_diff_min_qt_min_cb_intra_slice_chroma: x.sps_log2_diff_min_qt_min_cb_intra_slice_chroma,
        sps_max_mtt_hierarchy_depth_intra_slice_chroma: x.sps_max_mtt_hierarchy_depth_intra_slice_chroma,
        sps_log2_diff_max_bt_min_qt_intra_slice_chroma: x.sps_log2_diff_max_bt_min_qt_intra_slice_chroma,
        sps_log2_diff_max_tt_min_qt_intra_slice_chroma: x.sps_log2_diff_max_tt_min_qt_intra_slice_chroma,
        sps_log2_diff_min_qt_min_cb_inter_slice: x.sps_log2_diff_min_qt_min_cb_inter_slice,
        sps_max_mtt_hierarchy_depth_inter_slice: x.sps_max_mtt_hierarchy_depth_inter_slice,
        sps_log2_diff_max_bt_min_qt_inter_slice: x.sps_log2_diff_max_bt_min_qt_inter_slice,
        sps_log2_diff_max_tt_min_qt_inter_slice: x.sps_log2_diff_max_tt_min_qt_inter_slice,
    };
    write_sps_partition(w, &partition, ids.sps_log2_ctu_size_minus5, ids.sps_chroma_format_idc)?;
    let transform = SpsTransform {
        sps_max_luma_transform_size_64_flag: x.sps_max_luma_transform_size_64_flag,
        sps_transform_skip_enabled_flag: x.sps_transform_skip_enabled_flag,
        sps_log2_transform_skip_max_size_minus2: x.sps_log2_transform_skip_max_size_minus2,
        sps_bdpcm_enabled_flag: x.sps_bdpcm_enabled_flag,
        sps_mts_enabled_flag: x.sps_mts_enabled_flag,
        sps_explicit_mts_intra_enabled_flag: x.sps_explicit_mts_intra_enabled_flag,
        sps_explicit_mts_inter_enabled_flag: x.sps_explicit_mts_inter_enabled_flag,
        sps_lfnst_enabled_flag: x.sps_lfnst_enabled_flag,
        sps_joint_cbcr_enabled_flag: x.sps_joint_cbcr_enabled_flag,
        sps_same_qp_table_for_chroma_flag: x.sps_same_qp_table_for_chroma_flag,
    };
    write_sps_transform(w, &transform, ids.sps_log2_ctu_size_minus5, ids.sps_chroma_format_idc)?;
    let num_qp_tables: u64 = count_qp_tables(
        ids.sps_chroma_format_idc,
        transform.sps_same_qp_table_for_chroma_flag,
        transform.sps_joint_cbcr_enabled_flag,
    );
    write_qp_tables(w, &x.chroma_qp_tables, bitdepth_minus8, num_qp_tables)?;
    let filters = SpsFilters {
        sps_sao_enabled_flag: x.sps_sao_enabled_flag,
        sps_alf_enabled_flag: x.sps_alf_enabled_flag,
        sps_ccalf_enabled_flag: x.sps_ccalf_enabled_flag,
        sps_lmcs_enabled_flag: x.sps_lmcs_enabled_flag,
        sps_weighted_pred_flag: x.sps_weighted_pred_flag,
        sps_weighted_bipred_flag: x.sps_weighted_bipred_flag,
        sps_long_term_ref_pics_flag: x.sps_long_term_ref_pics_flag,
        sps_inter_layer_prediction_enabled_flag: x.sps_inter_layer_prediction_enabled_flag,
        sps_idr_rpl_present_flag: x.sps_idr_rpl_present_flag,
        sps_rpl1_same_as_rpl0_flag: x.sps_rpl1_same_as_rpl0_flag,
    };
    write_sps_filters(w, &filters, ids.sps_chroma_format_idc, ids.sps_video_parameter_set_id)?;
    let rpls_ctx: VvcRplsContext = VvcRplsContext {
        long_term_ref_pics: filters.sps_long_term_ref_pics_flag != 0,
        inter_layer_prediction: filters.sps_inter_layer_prediction_enabled_flag != 0,
        in_sps_list: true,
    };
    write_rpl_list(w, &x.sps_ref_pic_lists[0], true, &rpls_ctx, poc_lsb_bits)?;
    write_rpl_list(
        w,
        &x.sps_ref_pic_lists[1],
        filters.sps_rpl1_same_as_rpl0_flag == 0,
        &rpls_ctx,
        poc_lsb_bits,
    )?;
    Ok(())
}

/// Writing the fields of an SPS from the block partitioning to the reference
/// picture lists gives back the bits it was read from.
#[verifier::rlimit(40)]
#[verifier::spinoff_prover]
pub broadcast proof fn law_put_sps_coding_at(
    s: Seq<bool>,
    p: nat,
    ids: SpsIds,
    bitdepth_minus8: u32,
    poc_lsb_bits: u32,
)
    requires
        bitdepth_minus8 <= 8,
    ensures
        #[trigger] sps_coding_at(s, p, ids, bitdepth_minus8, poc_lsb_bits) matches Ok((x, q)) ==> {
            &&& sps_coding_ok(x, ids, bitdepth_minus8, poc_lsb_bits)
            &&& sps_coding_can(x, ids, bitdepth_minus8, poc_lsb_bits)
            &&& within(s, q)
                ==> within(s, p)
                && put_sps_coding(upto(s, p), x, ids, bitdepth_minus8, poc_lsb_bits) == upto(s, q)
        },
{
    broadcast use {
        crate::bits::group_write_read,
        law_put_sps_partition_at,
        law_put_sps_transform_at,
        law_put_qp_tables_at,
        law_put_sps_filters_at,
        law_put_rpl_list_at,
    };

    reveal(sps_coding_at);
    reveal(put_sps_coding);
    reveal(sps_coding_ok);
    reveal(sps_coding_can);
}

/// Reading gives back the fields of an SPS from the block partitioning to the
/// reference picture lists as it was written.
#[verifier::rlimit(40)]
#[verifier::spinoff_prover]
pub broadcast proof fn law_pre_put_sps_coding(
    a: Seq<bool>,
    x: SpsCodingModel,
    ids: SpsIds,
    bitdepth_minus8: u32,
    poc_lsb_bits: u32,
    s: Seq<bool>,
)
    requires
        #[trigger] pre(put_sps_coding(a, x, ids, bitdepth_minus8, poc_lsb_bits), s),
        sps_coding_ok(x, ids, bitdepth_minus8, poc_lsb_bits),
        bitdepth_minus8 <= 8,
    ensures
        pre(a, s),
        sps_coding_can(x, ids, bitdepth_minus8, poc_lsb_bits),
        sps_coding_at(s, a.len(), ids, bitdepth_minus8, poc_lsb_bits) == Ok::<(SpsCodingModel, nat), Fault>(
            (x, put_sps_coding(a, x, ids, bitdepth_minus8, poc_lsb_bits).len()),
        ),
{
    broadcast use {
        crate::bits::group_read_written,
        law_pre_put_sps_partition,
        law_pre_put_sps_transform,
        law_pre_put_qp_tables,
        law_pre_put_sps_filters,
        law_pre_put_rpl_list,
    };

    reveal(sps_coding_at);
    reveal(put_sps_coding);
    reveal(sps_coding_ok);
    reveal(sps_coding_can);
}

/// The layout of the fields of an SPS from the block partitioning to the
/// reference picture lists: reading at `p` gives `x` and ends at `q` if and
/// only if these elements stand there in this order.
#[verifier::rlimit(40)]
#[verifier::spinoff_prover]
pub proof fn law_layout_sps_coding(
    s: Seq<bool>,
    p: nat,
    ids: SpsIds,
    bitdepth_minus8: u32,
    poc_lsb_bits: u32,
    x: SpsCodingModel,
    q: nat,
)
    ensures
        sps_coding_at(s, p, ids, bitdepth_minus8, poc_lsb_bits) == Ok::<(SpsCodingModel, nat), Fault>((x, q)) <==> ({
            let num_qp_tables = num_qp_tables(
                ids.sps_chroma_format_idc,
                x.transform.sps_same_qp_table_for_chroma_flag,
                x.transform.sps_joint_cbcr_enabled_flag,
            );
            let rpls_ctx = VvcRplsContext {
                long_term_ref_pics: x.filters.sps_long_term_ref_pics_flag != 0,
                inter_layer_prediction: x.filters.sps_inter_layer_prediction_enabled_flag != 0,
                in_sps_list: true,
            };
            &&& cursor(s, p)
                .part(
                    |p: nat| sps_partition_at(s, p, ids.sps_log2_ctu_size_minus5, ids.sps_chroma_format_idc),
                    x.partition,
                )
                .part(
                    |p: nat| sps_transform_at(s, p, ids.sps_log2_ctu_size_minus5, ids.sps_chroma_format_idc),
                    x.transform,
                )
                .part(|p: nat| qp_tables_at(s, p, bitdepth_minus8, num_qp_tables), x.chroma_qp_tables)
                .part(
                    |p: nat| sps_filters_at(s, p, ids.sps_chroma_format_idc, ids.sps_video_parameter_set_id),
                    x.filters,
                )
                .part(|p: nat| rpl_list_at(s, p, true, rpls_ctx, poc_lsb_bits), x.list0)
                .part(
                    |p: nat| rpl_list_at(
                        s,
                        p,
                        x.filters.sps_rpl1_same_as_rpl0_flag == 0,
                        rpls_ctx,
                        poc_lsb_bits,
                    ),
                    x.list1,
                )
                .ends(q)
        }),
{
    reveal(sps_coding_at);
}

/// Reading the fields of an SPS from the block partitioning to the reference
/// picture lists fails only with an error of this class.
#[verifier::rlimit(40)]
#[verifier::spinoff_prover]
pub broadcast proof fn law_faults_sps_coding(
    s: Seq<bool>,
    p: nat,
    ids: SpsIds,
    bitdepth_minus8: u32,
    poc_lsb_bits: u32,
)
    ensures
        #[trigger] sps_coding_at(s, p, ids, bitdepth_minus8, poc_lsb_bits) matches Err(f)
            ==> f == Fault::Invalid,
{
    broadcast use {
        law_faults_sps_partition,
        law_faults_sps_transform,
        law_faults_qp_tables,
        law_faults_sps_filters,
        law_faults_rpl_list,
    };

    reveal(sps_coding_at);
}

/// What the writer accepts reads back: the fields of an SPS from the block
/// partitioning to the reference picture lists, where each field fits its width
/// and what is not coded has the value that is taken for it.
#[verifier::rlimit(40)]
#[verifier::spinoff_prover]
pub proof fn law_reads_sps_coding(
    a: Seq<bool>,
    x: SpsCodingModel,
    ids: SpsIds,
    bitdepth_minus8: u32,
    poc_lsb_bits: u32,
    s: Seq<bool>,
)
    requires
        sps_coding_can(x, ids, bitdepth_minus8, poc_lsb_bits),
        ({
            &&& sps_partition_ok(x.partition, ids.sps_log2_ctu_size_minus5, ids.sps_chroma_format_idc)
            &&& sps_transform_ok(x.transform, ids.sps_log2_ctu_size_minus5, ids.sps_chroma_format_idc)
            &&& {
                let num_qp_tables = num_qp_tables(
                    ids.sps_chroma_format_idc,
                    x.transform.sps_same_qp_table_for_chroma_flag,
                    x.transform.sps_joint_cbcr_enabled_flag,
                );
                &&& qp_tables_ok(x.chroma_qp_tables, bitdepth_minus8, num_qp_tables)
                &&& sps_filters_ok(x.filters, ids.sps_chroma_format_idc, ids.sps_video_parameter_set_id)
                &&& {
                    let rpls_ctx = VvcRplsContext {
                        long_term_ref_pics: x.filters.sps_long_term_ref_pics_flag != 0,
                        inter_layer_prediction: x.filters.sps_inter_layer_prediction_enabled_flag != 0,
                        in_sps_list: true,
                    };
                    &&& rpl_list_ok(x.list0, true, rpls_ctx, poc_lsb_bits)
                    &&& rpl_list_ok(
                        x.list1,
                        x.filters.sps_rpl1_same_as_rpl0_flag == 0,
                        rpls_ctx,
                        poc_lsb_bits,
                    )
                }
            }
        }),
        pre(put_sps_coding(a, x, ids, bitdepth_minus8, poc_lsb_bits), s),
        bitdepth_minus8 <= 8,
    ensures
        sps_coding_at(s, a.len(), ids, bitdepth_minus8, poc_lsb_bits) == Ok::<(SpsCodingModel, nat), Fault>(
            (x, put_sps_coding(a, x, ids, bitdepth_minus8, poc_lsb_bits).len()),
        ),
{
    assert(sps_coding_ok(x, ids, bitdepth_minus8, poc_lsb_bits)) by {
        broadcast use crate::bits::law_fits_small;

        reveal(sps_coding_ok);
        reveal(sps_coding_can);
    }
    law_pre_put_sps_coding(a, x, ids, bitdepth_minus8, poc_lsb_bits, s);
}

/// Each field of the model of a [`SpsCoding`] is the field of that name.
pub proof fn law_view_sps_coding(x: SpsCoding)
    ensures
        x@.partition == x.partition,
        x@.transform == x.transform,
        x@.chroma_qp_tables == seq_view(x.chroma_qp_tables@),
        x@.filters == x.filters,
        x@.list0 == seq_view(x.list0@),
        x@.list1 == seq_view(x.list1@),
{
}

/// The coding tool fields of an SPS.
pub struct SpsTools {
    pub inter: SpsInter,
    pub merge: SpsMerge,
    pub intra: SpsIntra,
    pub ladf: Option<VvcLadf>,
    pub scaling: SpsScaling,
    pub sps_virtual_boundary_pos_x_minus1: Vec<u32>,
    pub sps_virtual_boundary_pos_y_minus1: Vec<u32>,
}

/// The mathematical model of a [`SpsTools`].
pub struct SpsToolsModel {
    pub inter: SpsInter,
    pub merge: SpsMerge,
    pub intra: SpsIntra,
    pub ladf: Option<VvcLadfModel>,
    pub scaling: SpsScaling,
    pub sps_virtual_boundary_pos_x_minus1: Seq<u32>,
    pub sps_virtual_boundary_pos_y_minus1: Seq<u32>,
}

impl View for SpsTools {
    type V = SpsToolsModel;

    open spec fn view(&self) -> SpsToolsModel {
        SpsToolsModel {
            inter: self.inter,
            merge: self.merge,
            intra: self.intra,
            ladf: opt_view(self.ladf),
            scaling: self.scaling,
            sps_virtual_boundary_pos_x_minus1: self.sps_virtual_boundary_pos_x_minus1@,
            sps_virtual_boundary_pos_y_minus1: self.sps_virtual_boundary_pos_y_minus1@,
        }
    }
}

/// The coding tool fields of an SPS at position `p`.
#[verifier::opaque]
pub open spec fn sps_tools_at(
    s: Seq<bool>,
    p: nat,
    ids: SpsIds,
    transform: SpsTransform,
    width: u32,
    height: u32,
) -> Read<SpsToolsModel> {
    match sps_inter_at(s, p) { Err(f) => Err(f), Ok((inter, p)) => {
    match sps_merge_at(
        s,
        p,
        inter.sps_sbtmvp_enabled_flag,
        inter.sps_amvr_enabled_flag,
        ids.sps_log2_ctu_size_minus5,
    )
    { Err(f) => Err(f), Ok((merge, p)) => {
    match sps_intra_at(
        s,
        p,
        ids.sps_chroma_format_idc,
        transform.sps_max_luma_transform_size_64_flag,
        transform.sps_transform_skip_enabled_flag,
    )
    { Err(f) => Err(f), Ok((intra, p)) => {
    let present = flag_at(s, p);
    let p = adv(p, 1);
    match (if present { read_some(ladf_at(s, p)) } else { Ok((None, p)) })
    { Err(f) => Err(f), Ok((ladf, p)) => {
    match sps_scaling_at(s, p, transform.sps_lfnst_enabled_flag, intra.sps_act_enabled_flag)
    { Err(f) => Err(f), Ok((scaling, p)) => {
    let vb = scaling.sps_virtual_boundaries_enabled_flag != 0
        && scaling.sps_virtual_boundaries_present_flag != 0;
    match ue_if(s, p, vb, 0) { Err(f) => Err(f), Ok((num_ver, p)) => {
    if !(num_ver <= (if width <= 8 { 0u32 } else { 3u32 })) { Err(Fault::Invalid) } else {
    match (if vb { ues_at(s, p, (num_ver as u64) as nat) } else { Ok((Seq::empty(), p)) })
    { Err(f) => Err(f), Ok((sps_virtual_boundary_pos_x_minus1, p)) => {
    match ue_if(s, p, vb, 0) { Err(f) => Err(f), Ok((num_hor, p)) => {
    if !(num_hor <= (if height <= 8 { 0u32 } else { 3u32 })) { Err(Fault::Invalid) } else {
    match (if vb { ues_at(s, p, (num_hor as u64) as nat) } else { Ok((Seq::empty(), p)) })
    { Err(f) => Err(f), Ok((sps_virtual_boundary_pos_y_minus1, p)) => {
    Ok((
        SpsToolsModel {
            inter,
            merge,
            intra,
            ladf,
            scaling,
            sps_virtual_boundary_pos_x_minus1,
            sps_virtual_boundary_pos_y_minus1,
        },
        p,
    ))
    }}}}}}}}}}}}}}}}}}}}
}

/// The bits `a` followed by the coding tool fields of an SPS.
#[verifier::opaque]
pub open spec fn put_sps_tools(
    a: Seq<bool>,
    x: SpsToolsModel,
    ids: SpsIds,
    transform: SpsTransform,
    width: u32,
    height: u32,
) -> Seq<bool> {
    let a = put_sps_inter(a, x.inter);
    let a = put_sps_merge(
        a,
        x.merge,
        x.inter.sps_sbtmvp_enabled_flag,
        x.inter.sps_amvr_enabled_flag,
        ids.sps_log2_ctu_size_minus5,
    );
    let a = put_sps_intra(
        a,
        x.intra,
        ids.sps_chroma_format_idc,
        transform.sps_max_luma_transform_size_64_flag,
        transform.sps_transform_skip_enabled_flag,
    );
    let a = put_flag(a, x.ladf is Some);
    let a = match x.ladf { Some(y) => put_ladf(a, y), None => a };
    let a = put_sps_scaling(a, x.scaling, transform.sps_lfnst_enabled_flag, x.intra.sps_act_enabled_flag);
    let vb = x.scaling.sps_virtual_boundaries_enabled_flag != 0
        && x.scaling.sps_virtual_boundaries_present_flag != 0;
    let num_ver = (if vb { x.sps_virtual_boundary_pos_x_minus1.len() as u32 } else { 0 });
    let a = put_ue_if(a, num_ver as nat, vb);
    let a = if vb { put_ues(a, x.sps_virtual_boundary_pos_x_minus1) } else { a };
    let num_hor = (if vb { x.sps_virtual_boundary_pos_y_minus1.len() as u32 } else { 0 });
    let a = put_ue_if(a, num_hor as nat, vb);
    let a = if vb { put_ues(a, x.sps_virtual_boundary_pos_y_minus1) } else { a };
    a
}

/// The values of the coding tool fields of an SPS that reading can give.
#[verifier::opaque]
pub open spec fn sps_tools_ok(
    x: SpsToolsModel,
    ids: SpsIds,
    transform: SpsTransform,
    width: u32,
    height: u32,
) -> bool {
    &&& sps_inter_ok(x.inter)
    &&& sps_merge_ok(
        x.merge,
        x.inter.sps_sbtmvp_enabled_flag,
        x.inter.sps_amvr_enabled_flag,
        ids.sps_log2_ctu_size_minus5,
    )
    &&& sps_intra_ok(
        x.intra,
        ids.sps_chroma_format_idc,
        transform.sps_max_luma_transform_size_64_flag,
        transform.sps_transform_skip_enabled_flag,
    )
    &&& x.ladf matches Some(y) ==> ladf_ok(y)
    &&& sps_scaling_ok(x.scaling, transform.sps_lfnst_enabled_flag, x.intra.sps_act_enabled_flag)
    &&& {
        let vb = x.scaling.sps_virtual_boundaries_enabled_flag != 0
            && x.scaling.sps_virtual_boundaries_present_flag != 0;
        &&& !vb
            || (
                x.sps_virtual_boundary_pos_x_minus1.len() <= 3
                    && x.sps_virtual_boundary_pos_y_minus1.len() <= 3
            )
        &&& {
            let num_ver = (if vb { x.sps_virtual_boundary_pos_x_minus1.len() as u32 } else { 0 });
            &&& if vb { ue_fits(num_ver as nat) } else { num_ver == 0 }
            &&& num_ver <= (if width <= 8 { 0u32 } else { 3u32 })
            &&& x.sps_virtual_boundary_pos_x_minus1.len() == (if vb { num_ver as u64 as int } else { 0 })
            &&& ues_ok(x.sps_virtual_boundary_pos_x_minus1)
            &&& {
                let num_hor = (if vb { x.sps_virtual_boundary_pos_y_minus1.len() as u32 } else { 0 });
                &&& if vb { ue_fits(num_hor as nat) } else { num_hor == 0 }
                &&& num_hor <= (if height <= 8 { 0u32 } else { 3u32 })
                &&& x.sps_virtual_boundary_pos_y_minus1.len() == (if vb { num_hor as u64 as int } else { 0 })
                &&& ues_ok(x.sps_virtual_boundary_pos_y_minus1)
            }
        }
    }
}

/// The values of the coding tool fields of an SPS that the writer accepts.
#[verifier::opaque]
pub open spec fn sps_tools_can(
    x: SpsToolsModel,
    ids: SpsIds,
    transform: SpsTransform,
    width: u32,
    height: u32,
) -> bool {
    &&& sps_inter_can(x.inter)
    &&& sps_merge_can(
        x.merge,
        x.inter.sps_sbtmvp_enabled_flag,
        x.inter.sps_amvr_enabled_flag,
        ids.sps_log2_ctu_size_minus5,
    )
    &&& sps_intra_can(
        x.intra,
        ids.sps_chroma_format_idc,
        transform.sps_max_luma_transform_size_64_flag,
        transform.sps_transform_skip_enabled_flag,
    )
    &&& x.ladf matches Some(y) ==> ladf_can(y)
    &&& sps_scaling_can(x.scaling, transform.sps_lfnst_enabled_flag, x.intra.sps_act_enabled_flag)
    &&& {
        let vb = x.scaling.sps_virtual_boundaries_enabled_flag != 0
            && x.scaling.sps_virtual_boundaries_present_flag != 0;
        &&& !vb
            || (
                x.sps_virtual_boundary_pos_x_minus1.len() <= 3
                    && x.sps_virtual_boundary_pos_y_minus1.len() <= 3
            )
        &&& {
            let num_ver = (if vb { x.sps_virtual_boundary_pos_x_minus1.len() as u32 } else { 0 });
            &&& vb ==> ue_fits(num_ver as nat)
            &&& vb ==> ues_ok(x.sps_virtual_boundary_pos_x_minus1)
            &&& {
                let num_hor = (if vb { x.sps_virtual_boundary_pos_y_minus1.len() as u32 } else { 0 });
                &&& vb ==> ue_fits(num_hor as nat)
                &&& vb ==> ues_ok(x.sps_virtual_boundary_pos_y_minus1)
            }
        }
    }
}

/// Parses the coding tool fields of an SPS.
#[verifier::rlimit(40)]
#[verifier::spinoff_prover]
fn parse_sps_tools(
    r: &mut BitReader<'_>,
    ids: SpsIds,
    transform: SpsTransform,
    width: u32,
    height: u32,
) -> (res: Result<SpsTools, BitstreamError>)
    ensures
        read_view_is(
            sps_tools_at(old(r).bits(), old(r).pos(), ids, transform, width, height),
            res,
            *old(r),
            *final(r),
        ),
{
    proof {
        reveal(sps_tools_at);
    }
    let inter = parse_sps_inter(r)?;
    let merge = parse_sps_merge(
        r,
        inter.sps_sbtmvp_enabled_flag,
        inter.sps_amvr_enabled_flag,
        ids.sps_log2_ctu_size_minus5,
    )?;
    let intra = parse_sps_intra(
        r,
        ids.sps_chroma_format_idc,
        transform.sps_max_luma_transform_size_64_flag,
        transform.sps_transform_skip_enabled_flag,
    )?;
    let present: bool = r.flag();
    let ladf = if present { Some(parse_ladf(r)?) } else { None };
    let scaling = parse_sps_scaling(r, transform.sps_lfnst_enabled_flag, intra.sps_act_enabled_flag)?;
    let vb: bool = scaling.sps_virtual_boundaries_enabled_flag != 0
        && scaling.sps_virtual_boundaries_present_flag != 0;
    let num_ver: u32 = r.ue_if(vb, 0)?;
    if !(num_ver <= (if width <= 8 { 0u32 } else { 3u32 })) {
        return Err(
            Message::new("sps_num_ver_virtual_boundaries = ")
                .num(num_ver as i128)
                .with(" > ")
                .num((if width <= 8 { 0 } else { 3 }) as i128)
                .with(" (7.4.3.4)")
                .invalid(),
        );
    }
    let sps_virtual_boundary_pos_x_minus1 = if vb { r.read_ues(num_ver as u64)? } else { Vec::new() };
    let num_hor: u32 = r.ue_if(vb, 0)?;
    if !(num_hor <= (if height <= 8 { 0u32 } else { 3u32 })) {
        return Err(
            Message::new("sps_num_hor_virtual_boundaries = ")
                .num(num_hor as i128)
                .with(" > ")
                .num((if height <= 8 { 0 } else { 3 }) as i128)
                .with(" (7.4.3.4)")
                .invalid(),
        );
    }
    let sps_virtual_boundary_pos_y_minus1 = if vb { r.read_ues(num_hor as u64)? } else { Vec::new() };
    Ok(
        SpsTools {
            inter,
            merge,
            intra,
            ladf,
            scaling,
            sps_virtual_boundary_pos_x_minus1,
            sps_virtual_boundary_pos_y_minus1,
        },
    )
}

/// Emits the coding tool fields of an SPS, the inverse of [`parse_sps_tools`].
#[verifier::rlimit(40)]
#[verifier::spinoff_prover]
fn write_sps_tools(
    w: &mut BitWriter,
    x: &VvcSps,
    ids: SpsIds,
    transform: SpsTransform,
    width: u32,
    height: u32,
) -> (res: Result<(), BitstreamError>)
    ensures
        write_is(
            sps_tools_can(x@.tools, ids, transform, width, height),
            put_sps_tools(old(w)@, x@.tools, ids, transform, width, height),
            res,
            final(w)@,
        ),
{
    proof {
        reveal(put_sps_tools);
        reveal(sps_tools_can);
    }
    let inter = SpsInter {
        sps_ref_wraparound_enabled_flag: x.sps_ref_wraparound_enabled_flag,
        sps_temporal_mvp_enabled_flag: x.sps_temporal_mvp_enabled_flag,
        sps_sbtmvp_enabled_flag: x.sps_sbtmvp_enabled_flag,
        sps_amvr_enabled_flag: x.sps_amvr_enabled_flag,
        sps_bdof_enabled_flag: x.sps_bdof_enabled_flag,
        sps_bdof_control_present_in_ph_flag: x.sps_bdof_control_present_in_ph_flag,
        sps_smvd_enabled_flag: x.sps_smvd_enabled_flag,
        sps_dmvr_enabled_flag: x.sps_dmvr_enabled_flag,
        sps_dmvr_control_present_in_ph_flag: x.sps_dmvr_control_present_in_ph_flag,
        sps_mmvd_enabled_flag: x.sps_mmvd_enabled_flag,
        sps_mmvd_fullpel_only_enabled_flag: x.sps_mmvd_fullpel_only_enabled_flag,
    };
    write_sps_inter(w, &inter)?;
    let merge = SpsMerge {
        sps_six_minus_max_num_merge_cand: x.sps_six_minus_max_num_merge_cand,
        sps_sbt_enabled_flag: x.sps_sbt_enabled_flag,
        sps_affine_enabled_flag: x.sps_affine_enabled_flag,
        sps_five_minus_max_num_subblock_merge_cand: x.sps_five_minus_max_num_subblock_merge_cand,
        sps_6param_affine_enabled_flag: x.sps_6param_affine_enabled_flag,
        sps_affine_amvr_enabled_flag: x.sps_affine_amvr_enabled_flag,
        sps_affine_prof_enabled_flag: x.sps_affine_prof_enabled_flag,
        sps_prof_control_present_in_ph_flag: x.sps_prof_control_present_in_ph_flag,
        sps_bcw_enabled_flag: x.sps_bcw_enabled_flag,
        sps_ciip_enabled_flag: x.sps_ciip_enabled_flag,
        sps_gpm_enabled_flag: x.sps_gpm_enabled_flag,
        sps_max_num_merge_cand_minus_max_num_gpm_cand: x.sps_max_num_merge_cand_minus_max_num_gpm_cand,
        sps_log2_parallel_merge_level_minus2: x.sps_log2_parallel_merge_level_minus2,
    };
    write_sps_merge(
        w,
        &merge,
        inter.sps_sbtmvp_enabled_flag,
        inter.sps_amvr_enabled_flag,
        ids.sps_log2_ctu_size_minus5,
    )?;
    let intra = SpsIntra {
        sps_isp_enabled_flag: x.sps_isp_enabled_flag,
        sps_mrl_enabled_flag: x.sps_mrl_enabled_flag,
        sps_mip_enabled_flag: x.sps_mip_enabled_flag,
        sps_cclm_enabled_flag: x.sps_cclm_enabled_flag,
        sps_chroma_horizontal_collocated_flag: x.sps_chroma_horizontal_collocated_flag,
        sps_chroma_vertical_collocated_flag: x.sps_chroma_vertical_collocated_flag,
        sps_palette_enabled_flag: x.sps_palette_enabled_flag,
        sps_act_enabled_flag: x.sps_act_enabled_flag,
        sps_min_qp_prime_ts: x.sps_min_qp_prime_ts,
        sps_ibc_enabled_flag: x.sps_ibc_enabled_flag,
        sps_six_minus_max_num_ibc_merge_cand: x.sps_six_minus_max_num_ibc_merge_cand,
    };
    write_sps_intra(
        w,
        &intra,
        ids.sps_chroma_format_idc,
        transform.sps_max_luma_transform_size_64_flag,
        transform.sps_transform_skip_enabled_flag,
    )?;
    w.write_flag(x.ladf.is_some());
    if let Some(y) = &x.ladf {
        write_ladf(w, y)?;
    }
    let scaling = SpsScaling {
        sps_explicit_scaling_list_enabled_flag: x.sps_explicit_scaling_list_enabled_flag,
        sps_scaling_matrix_for_lfnst_disabled_flag: x.sps_scaling_matrix_for_lfnst_disabled_flag,
        sps_scaling_matrix_for_alternative_colour_space_disabled_flag: x.sps_scaling_matrix_for_alternative_colour_space_disabled_flag,
        sps_scaling_matrix_designated_colour_space_flag: x.sps_scaling_matrix_designated_colour_space_flag,
        sps_dep_quant_enabled_flag: x.sps_dep_quant_enabled_flag,
        sps_sign_data_hiding_enabled_flag: x.sps_sign_data_hiding_enabled_flag,
        sps_virtual_boundaries_enabled_flag: x.sps_virtual_boundaries_enabled_flag,
        sps_virtual_boundaries_present_flag: x.sps_virtual_boundaries_present_flag,
    };
    write_sps_scaling(w, &scaling, transform.sps_lfnst_enabled_flag, intra.sps_act_enabled_flag)?;
    let vb: bool = scaling.sps_virtual_boundaries_enabled_flag != 0
        && scaling.sps_virtual_boundaries_present_flag != 0;
    if !(
        !vb
        || (x.sps_virtual_boundary_pos_x_minus1.len() <= 3 && x.sps_virtual_boundary_pos_y_minus1.len() <= 3)
    ) {
        return Err(BitstreamError::invalid("at most 3 virtual boundaries per direction (7.4.3.4)"));
    }
    let num_ver: u32 = if vb { x.sps_virtual_boundary_pos_x_minus1.len() as u32 } else { 0 };
    w.write_ue_if(num_ver, vb)?;
    if vb { w.write_ues(x.sps_virtual_boundary_pos_x_minus1.as_slice())?; }
    let num_hor: u32 = if vb { x.sps_virtual_boundary_pos_y_minus1.len() as u32 } else { 0 };
    w.write_ue_if(num_hor, vb)?;
    if vb { w.write_ues(x.sps_virtual_boundary_pos_y_minus1.as_slice())?; }
    Ok(())
}

/// Writing the coding tool fields of an SPS gives back the bits it was read
/// from.
#[verifier::rlimit(40)]
#[verifier::spinoff_prover]
pub broadcast proof fn law_put_sps_tools_at(
    s: Seq<bool>,
    p: nat,
    ids: SpsIds,
    transform: SpsTransform,
    width: u32,
    height: u32,
)
    ensures
        #[trigger] sps_tools_at(s, p, ids, transform, width, height) matches Ok((x, q)) ==> {
            &&& sps_tools_ok(x, ids, transform, width, height)
            &&& sps_tools_can(x, ids, transform, width, height)
            &&& within(s, q)
                ==> within(s, p)
                && put_sps_tools(upto(s, p), x, ids, transform, width, height) == upto(s, q)
        },
{
    broadcast use {
        crate::bits::group_write_read,
        crate::bits::group_write_read_lists,
        law_put_sps_inter_at,
        law_put_sps_merge_at,
        law_put_sps_intra_at,
        law_put_ladf_at,
        law_put_sps_scaling_at,
    };

    reveal(sps_tools_at);
    reveal(put_sps_tools);
    reveal(sps_tools_ok);
    reveal(sps_tools_can);
}

/// Reading gives back the coding tool fields of an SPS as it was written.
#[verifier::rlimit(40)]
#[verifier::spinoff_prover]
pub broadcast proof fn law_pre_put_sps_tools(
    a: Seq<bool>,
    x: SpsToolsModel,
    ids: SpsIds,
    transform: SpsTransform,
    width: u32,
    height: u32,
    s: Seq<bool>,
)
    requires
        #[trigger] pre(put_sps_tools(a, x, ids, transform, width, height), s),
        sps_tools_ok(x, ids, transform, width, height),
    ensures
        pre(a, s),
        sps_tools_can(x, ids, transform, width, height),
        sps_tools_at(s, a.len(), ids, transform, width, height) == Ok::<(SpsToolsModel, nat), Fault>(
            (x, put_sps_tools(a, x, ids, transform, width, height).len()),
        ),
{
    broadcast use {
        crate::bits::group_read_written,
        crate::bits::group_read_written_lists,
        law_pre_put_sps_inter,
        law_pre_put_sps_merge,
        law_pre_put_sps_intra,
        law_pre_put_ladf,
        law_pre_put_sps_scaling,
    };

    reveal(sps_tools_at);
    reveal(put_sps_tools);
    reveal(sps_tools_ok);
    reveal(sps_tools_can);
    if x.sps_virtual_boundary_pos_x_minus1.len() == 0 {
        assert(x.sps_virtual_boundary_pos_x_minus1 =~= Seq::empty());
    }
    if x.sps_virtual_boundary_pos_y_minus1.len() == 0 {
        assert(x.sps_virtual_boundary_pos_y_minus1 =~= Seq::empty());
    }
}

/// The layout of the coding tool fields of an SPS: reading at `p` gives `x` and
/// ends at `q` if and only if these elements stand there in this order, and the
/// values are allowed.
#[verifier::rlimit(40)]
#[verifier::spinoff_prover]
pub proof fn law_layout_sps_tools(
    s: Seq<bool>,
    p: nat,
    ids: SpsIds,
    transform: SpsTransform,
    width: u32,
    height: u32,
    x: SpsToolsModel,
    q: nat,
)
    ensures
        sps_tools_at(s, p, ids, transform, width, height) == Ok::<(SpsToolsModel, nat), Fault>((x, q)) <==> ({
            let vb = x.scaling.sps_virtual_boundaries_enabled_flag != 0
                && x.scaling.sps_virtual_boundaries_present_flag != 0;
            let c = cursor(s, p)
                .part(|p: nat| sps_inter_at(s, p), x.inter)
                .part(
                    |p: nat| sps_merge_at(
                        s,
                        p,
                        x.inter.sps_sbtmvp_enabled_flag,
                        x.inter.sps_amvr_enabled_flag,
                        ids.sps_log2_ctu_size_minus5,
                    ),
                    x.merge,
                )
                .part(
                    |p: nat| sps_intra_at(
                        s,
                        p,
                        ids.sps_chroma_format_idc,
                        transform.sps_max_luma_transform_size_64_flag,
                        transform.sps_transform_skip_enabled_flag,
                    ),
                    x.intra,
                )
                .flagged(|p: nat| ladf_at(s, p), x.ladf)
                .part(
                    |p: nat| sps_scaling_at(
                        s,
                        p,
                        transform.sps_lfnst_enabled_flag,
                        x.intra.sps_act_enabled_flag,
                    ),
                    x.scaling,
                );
            let num_ver = if vb { c.next_ue() } else { 0 };
            let c = c
                .ue_if(vb, num_ver, 0)
                .part_or(
                    vb,
                    |p: nat| ues_at(s, p, (num_ver as u64) as nat),
                    x.sps_virtual_boundary_pos_x_minus1,
                    Seq::empty(),
                );
            let num_hor = if vb { c.next_ue() } else { 0 };
            &&& c
                .ue_if(vb, num_hor, 0)
                .part_or(
                    vb,
                    |p: nat| ues_at(s, p, (num_hor as u64) as nat),
                    x.sps_virtual_boundary_pos_y_minus1,
                    Seq::empty(),
                )
                .ends(q)
            &&& num_ver <= (if width <= 8 { 0u32 } else { 3u32 })
            &&& num_hor <= (if height <= 8 { 0u32 } else { 3u32 })
        }),
{
    reveal(sps_tools_at);
    reveal(ue_if);
}

/// Reading the coding tool fields of an SPS fails only with an error of this
/// class.
#[verifier::rlimit(40)]
#[verifier::spinoff_prover]
pub broadcast proof fn law_faults_sps_tools(
    s: Seq<bool>,
    p: nat,
    ids: SpsIds,
    transform: SpsTransform,
    width: u32,
    height: u32,
)
    ensures
        #[trigger] sps_tools_at(s, p, ids, transform, width, height) matches Err(f) ==> f == Fault::Invalid,
{
    broadcast use {
        law_faults_sps_inter,
        law_faults_sps_merge,
        law_faults_sps_intra,
        law_faults_ladf,
        law_faults_sps_scaling,
        crate::bits::law_faults_ue,
        crate::bits::law_faults_ues,
    };

    reveal(sps_tools_at);
    reveal(ue_if);
}

/// What the writer accepts reads back: the coding tool fields of an SPS, where
/// each field fits its width and what is not coded has the value that is taken
/// for it.
#[verifier::rlimit(40)]
#[verifier::spinoff_prover]
pub proof fn law_reads_sps_tools(
    a: Seq<bool>,
    x: SpsToolsModel,
    ids: SpsIds,
    transform: SpsTransform,
    width: u32,
    height: u32,
    s: Seq<bool>,
)
    requires
        sps_tools_can(x, ids, transform, width, height),
        ({
            &&& sps_inter_ok(x.inter)
            &&& sps_merge_ok(
                x.merge,
                x.inter.sps_sbtmvp_enabled_flag,
                x.inter.sps_amvr_enabled_flag,
                ids.sps_log2_ctu_size_minus5,
            )
            &&& sps_intra_ok(
                x.intra,
                ids.sps_chroma_format_idc,
                transform.sps_max_luma_transform_size_64_flag,
                transform.sps_transform_skip_enabled_flag,
            )
            &&& x.ladf matches Some(y) ==> ladf_ok(y)
            &&& sps_scaling_ok(x.scaling, transform.sps_lfnst_enabled_flag, x.intra.sps_act_enabled_flag)
            &&& {
                let vb = x.scaling.sps_virtual_boundaries_enabled_flag != 0
                    && x.scaling.sps_virtual_boundaries_present_flag != 0;
                &&& (!vb ==> x.sps_virtual_boundary_pos_x_minus1.len() == 0)
                &&& (!vb ==> x.sps_virtual_boundary_pos_y_minus1.len() == 0)
                &&& (width <= 8 ==> x.sps_virtual_boundary_pos_x_minus1.len() == 0)
                &&& (height <= 8 ==> x.sps_virtual_boundary_pos_y_minus1.len() == 0)
            }
        }),
        pre(put_sps_tools(a, x, ids, transform, width, height), s),
    ensures
        sps_tools_at(s, a.len(), ids, transform, width, height) == Ok::<(SpsToolsModel, nat), Fault>(
            (x, put_sps_tools(a, x, ids, transform, width, height).len()),
        ),
{
    assert(sps_tools_ok(x, ids, transform, width, height)) by {
        broadcast use crate::bits::law_fits_small;

        reveal(sps_tools_ok);
        reveal(sps_tools_can);
    }
    law_pre_put_sps_tools(a, x, ids, transform, width, height, s);
}

/// Each field of the model of a [`SpsTools`] is the field of that name.
pub proof fn law_view_sps_tools(x: SpsTools)
    ensures
        x@.inter == x.inter,
        x@.merge == x.merge,
        x@.intra == x.intra,
        x@.ladf == opt_view(x.ladf),
        x@.scaling == x.scaling,
        x@.sps_virtual_boundary_pos_x_minus1 == x.sps_virtual_boundary_pos_x_minus1@,
        x@.sps_virtual_boundary_pos_y_minus1 == x.sps_virtual_boundary_pos_y_minus1@,
{
}

/// The fields of an SPS from the timing block to the end.
pub struct SpsEnd {
    pub timing_hrd: Option<VvcSpsTimingHrd>,
    pub sps_field_seq_flag: u8,
    pub vui_payload: Option<Vec<u8>>,
    pub ext: SpsExt,
    pub sps_extension_data: Vec<u8>,
}

/// The mathematical model of a [`SpsEnd`].
pub struct SpsEndModel {
    pub timing_hrd: Option<VvcSpsTimingHrdModel>,
    pub sps_field_seq_flag: u8,
    pub vui_payload: Option<Seq<u8>>,
    pub ext: SpsExt,
    pub sps_extension_data: Seq<u8>,
}

impl View for SpsEnd {
    type V = SpsEndModel;

    open spec fn view(&self) -> SpsEndModel {
        SpsEndModel {
            timing_hrd: opt_view(self.timing_hrd),
            sps_field_seq_flag: self.sps_field_seq_flag,
            vui_payload: opt_view(self.vui_payload),
            ext: self.ext,
            sps_extension_data: self.sps_extension_data@,
        }
    }
}

/// The fields of an SPS from the timing block to the end at position `p`.
#[verifier::opaque]
pub open spec fn sps_end_at(
    s: Seq<bool>,
    p: nat,
    max_sub: u32,
    ptl_present: bool,
    transform_skip: u8,
) -> Read<SpsEndModel> {
    let present = flag_if(s, p, ptl_present, false);
    let p = adv_if(p, 1, ptl_present);
    match (if present { read_some(sps_timing_hrd_at(s, p, max_sub)) } else { Ok((None, p)) })
    { Err(f) => Err(f), Ok((timing_hrd, p)) => {
    let sps_field_seq_flag = u8_at(s, p, 1);
    let p = adv(p, 1);
    let present = flag_at(s, p);
    let p = adv(p, 1);
    match (if present { read_some(vui_at(s, p)) } else { Ok((None, p)) })
    { Err(f) => Err(f), Ok((vui_payload, p)) => {
    match sps_ext_at(s, p, transform_skip) { Err(f) => Err(f), Ok((ext, p)) => {
    match tail_at(s, p, ext.sps_extension_7bits != 0) { Err(f) => Err(f), Ok((sps_extension_data, p)) => {
    Ok((SpsEndModel { timing_hrd, sps_field_seq_flag, vui_payload, ext, sps_extension_data }, p))
    }}}}}}}}
}

/// The bits `a` followed by the fields of an SPS from the timing block to the
/// end.
#[verifier::opaque]
pub open spec fn put_sps_end(
    a: Seq<bool>,
    x: SpsEndModel,
    max_sub: u32,
    ptl_present: bool,
    transform_skip: u8,
) -> Seq<bool> {
    let a = put_flag_if(a, x.timing_hrd is Some, ptl_present);
    let a = match x.timing_hrd { Some(y) => put_sps_timing_hrd(a, y, max_sub), None => a };
    let a = put_bit(a, x.sps_field_seq_flag as nat);
    let a = put_flag(a, x.vui_payload is Some);
    let a = match x.vui_payload { Some(y) => put_vui(a, y), None => a };
    let a = put_sps_ext(a, x.ext, transform_skip);
    let a = put_tail(a, x.sps_extension_data, x.ext.sps_extension_7bits != 0);
    a
}

/// The values of the fields of an SPS from the timing block to the end that
/// reading can give.
#[verifier::opaque]
pub open spec fn sps_end_ok(x: SpsEndModel, max_sub: u32, ptl_present: bool, transform_skip: u8) -> bool {
    &&& x.timing_hrd is Some ==> ptl_present
    &&& x.timing_hrd matches Some(y) ==> sps_timing_hrd_ok(y, max_sub)
    &&& fits(x.sps_field_seq_flag as nat, 1)
    &&& x.vui_payload matches Some(y) ==> vui_ok(y)
    &&& sps_ext_ok(x.ext, transform_skip)
    &&& tail_ok(x.sps_extension_data, x.ext.sps_extension_7bits != 0)
}

/// The values of the fields of an SPS from the timing block to the end that the
/// writer accepts.
#[verifier::opaque]
pub open spec fn sps_end_can(x: SpsEndModel, max_sub: u32, ptl_present: bool, transform_skip: u8) -> bool {
    &&& x.timing_hrd is Some ==> ptl_present
    &&& x.timing_hrd matches Some(y) ==> sps_timing_hrd_can(y, max_sub)
    &&& x.vui_payload matches Some(y) ==> vui_can(y)
    &&& sps_ext_can(x.ext, transform_skip)
    &&& tail_can(x.sps_extension_data, x.ext.sps_extension_7bits != 0)
}

/// Parses the fields of an SPS from the timing block to the end.
#[verifier::rlimit(40)]
#[verifier::spinoff_prover]
fn parse_sps_end(
    r: &mut BitReader<'_>,
    max_sub: u32,
    ptl_present: bool,
    transform_skip: u8,
) -> (res: Result<SpsEnd, BitstreamError>)
    ensures
        read_view_is(
            sps_end_at(old(r).bits(), old(r).pos(), max_sub, ptl_present, transform_skip),
            res,
            *old(r),
            *final(r),
        ),
{
    proof {
        reveal(sps_end_at);
    }
    let present: bool = r.flag_if(ptl_present, false);
    let timing_hrd = if present { Some(parse_sps_timing_hrd(r, max_sub)?) } else { None };
    let sps_field_seq_flag: u8 = r.bit();
    let present: bool = r.flag();
    let vui_payload = if present { Some(parse_vui(r)?) } else { None };
    let ext = parse_sps_ext(r, transform_skip)?;
    let sps_extension_data = parse_tail(r, ext.sps_extension_7bits != 0)?;
    Ok(SpsEnd { timing_hrd, sps_field_seq_flag, vui_payload, ext, sps_extension_data })
}

/// Emits the fields of an SPS from the timing block to the end, the inverse of
/// [`parse_sps_end`].
#[verifier::rlimit(40)]
#[verifier::spinoff_prover]
fn write_sps_end(
    w: &mut BitWriter,
    x: &VvcSps,
    max_sub: u32,
    ptl_present: bool,
    transform_skip: u8,
) -> (res: Result<(), BitstreamError>)
    ensures
        write_is(
            sps_end_can(x@.end, max_sub, ptl_present, transform_skip),
            put_sps_end(old(w)@, x@.end, max_sub, ptl_present, transform_skip),
            res,
            final(w)@,
        ),
{
    proof {
        reveal(put_sps_end);
        reveal(sps_end_can);
    }
    if x.timing_hrd.is_some() && !ptl_present {
        return Err(
            BitstreamError::invalid("timing_hrd requires sps_ptl_dpb_hrd_params_present_flag (7.3.2.4)"),
        );
    }
    w.write_flag_if(x.timing_hrd.is_some(), ptl_present);
    if let Some(y) = &x.timing_hrd {
        write_sps_timing_hrd(w, y, max_sub)?;
    }
    w.write_bit(x.sps_field_seq_flag as u32);
    w.write_flag(x.vui_payload.is_some());
    if let Some(y) = &x.vui_payload {
        write_vui(w, y)?;
    }
    let ext = SpsExt {
        sps_extension_flag: x.sps_extension_flag,
        sps_extension_7bits: x.sps_extension_7bits,
        range_extension: x.range_extension,
    };
    write_sps_ext(w, &ext, transform_skip)?;
    write_tail(
        w,
        &x.sps_extension_data,
        ext.sps_extension_7bits != 0,
        "sps_extension_data",
        "sps_extension_7bits != 0 (7.3.2.4)",
    )?;
    Ok(())
}

/// Writing the fields of an SPS from the timing block to the end gives back the
/// bits it was read from.
#[verifier::rlimit(40)]
#[verifier::spinoff_prover]
pub broadcast proof fn law_put_sps_end_at(
    s: Seq<bool>,
    p: nat,
    max_sub: u32,
    ptl_present: bool,
    transform_skip: u8,
)
    ensures
        #[trigger] sps_end_at(s, p, max_sub, ptl_present, transform_skip) matches Ok((x, q)) ==> {
            &&& sps_end_ok(x, max_sub, ptl_present, transform_skip)
            &&& tail_can(x.sps_extension_data, x.ext.sps_extension_7bits != 0)
                ==> sps_end_can(x, max_sub, ptl_present, transform_skip)
            &&& within(s, q)
                ==> within(s, p)
                && put_sps_end(upto(s, p), x, max_sub, ptl_present, transform_skip) == upto(s, q)
        },
{
    broadcast use {
        crate::bits::group_write_read,
        law_put_sps_timing_hrd_at,
        law_put_vui_at,
        law_put_sps_ext_at,
        law_put_tail_at,
    };

    reveal(sps_end_at);
    reveal(put_sps_end);
    reveal(sps_end_ok);
    reveal(sps_end_can);
}

/// Reading gives back the fields of an SPS from the timing block to the end as
/// it was written.
#[verifier::rlimit(40)]
#[verifier::spinoff_prover]
pub broadcast proof fn law_pre_put_sps_end(
    a: Seq<bool>,
    x: SpsEndModel,
    max_sub: u32,
    ptl_present: bool,
    transform_skip: u8,
    s: Seq<bool>,
)
    requires
        #[trigger] whole(put_sps_end(a, x, max_sub, ptl_present, transform_skip), s),
        sps_end_ok(x, max_sub, ptl_present, transform_skip),
    ensures
        pre(a, s),
        tail_can(x.sps_extension_data, x.ext.sps_extension_7bits != 0)
            ==> sps_end_can(x, max_sub, ptl_present, transform_skip),
        sps_end_at(
            s,
            a.len(),
            max_sub,
            ptl_present,
            transform_skip,
        ) == Ok::<(SpsEndModel, nat), Fault>((x, s.len())),
{
    broadcast use {
        crate::bits::group_read_written,
        law_pre_put_sps_timing_hrd,
        law_pre_put_vui,
        law_pre_put_sps_ext,
        law_pre_put_tail,
    };

    reveal(sps_end_at);
    reveal(put_sps_end);
    reveal(sps_end_ok);
    reveal(sps_end_can);
}

/// The layout of the fields of an SPS from the timing block to the end: reading
/// at `p` gives `x` and ends at `q` if and only if these elements stand there
/// in this order.
#[verifier::rlimit(40)]
#[verifier::spinoff_prover]
pub proof fn law_layout_sps_end(
    s: Seq<bool>,
    p: nat,
    max_sub: u32,
    ptl_present: bool,
    transform_skip: u8,
    x: SpsEndModel,
    q: nat,
)
    ensures
        sps_end_at(s, p, max_sub, ptl_present, transform_skip) == Ok::<(SpsEndModel, nat), Fault>((x, q))
            <==> cursor(s, p)
            .flagged_if(ptl_present, |p: nat| sps_timing_hrd_at(s, p, max_sub), x.timing_hrd)
            .u8(1, x.sps_field_seq_flag)
            .flagged(|p: nat| vui_at(s, p), x.vui_payload)
            .part(|p: nat| sps_ext_at(s, p, transform_skip), x.ext)
            .part(|p: nat| tail_at(s, p, x.ext.sps_extension_7bits != 0), x.sps_extension_data)
            .ends(q),
{
    reveal(sps_end_at);
    reveal(adv_if);
    reveal(flag_if);
}

/// Reading the fields of an SPS from the timing block to the end never fails
/// with an error of this class.
#[verifier::rlimit(40)]
#[verifier::spinoff_prover]
pub broadcast proof fn law_faults_sps_end(
    s: Seq<bool>,
    p: nat,
    max_sub: u32,
    ptl_present: bool,
    transform_skip: u8,
)
    ensures
        #[trigger] sps_end_at(s, p, max_sub, ptl_present, transform_skip) matches Err(f)
            ==> f != Fault::Unsupported,
{
    broadcast use {
        law_faults_sps_timing_hrd,
        law_faults_vui,
        law_faults_sps_ext,
        crate::bits::law_faults_tail,
    };

    reveal(sps_end_at);
}

/// What the writer accepts reads back: the fields of an SPS from the timing
/// block to the end, where each field fits its width and what is not coded has
/// the value that is taken for it.
#[verifier::rlimit(40)]
#[verifier::spinoff_prover]
pub proof fn law_reads_sps_end(
    a: Seq<bool>,
    x: SpsEndModel,
    max_sub: u32,
    ptl_present: bool,
    transform_skip: u8,
    s: Seq<bool>,
)
    requires
        sps_end_can(x, max_sub, ptl_present, transform_skip),
        x.timing_hrd matches Some(y) ==> sps_timing_hrd_ok(y, max_sub),
        fits(x.sps_field_seq_flag as nat, 1),
        x.vui_payload matches Some(y) ==> vui_ok(y),
        sps_ext_ok(x.ext, transform_skip),
        tail_ok(x.sps_extension_data, x.ext.sps_extension_7bits != 0),
        tail_can(x.sps_extension_data, x.ext.sps_extension_7bits != 0),
        whole(put_sps_end(a, x, max_sub, ptl_present, transform_skip), s),
    ensures
        sps_end_at(
            s,
            a.len(),
            max_sub,
            ptl_present,
            transform_skip,
        ) == Ok::<(SpsEndModel, nat), Fault>((x, s.len())),
{
    assert(sps_end_ok(x, max_sub, ptl_present, transform_skip)) by {
        broadcast use crate::bits::law_fits_small;

        reveal(sps_end_ok);
        reveal(sps_end_can);
    }
    law_pre_put_sps_end(a, x, max_sub, ptl_present, transform_skip, s);
}

/// Each field of the model of a [`SpsEnd`] is the field of that name.
pub proof fn law_view_sps_end(x: SpsEnd)
    ensures
        x@.timing_hrd == opt_view(x.timing_hrd),
        x@.sps_field_seq_flag == x.sps_field_seq_flag,
        x@.vui_payload == opt_view(x.vui_payload),
        x@.ext == x.ext,
        x@.sps_extension_data == x.sps_extension_data@,
{
}

broadcast proof fn lemma_sps_front_bounds(x: SpsFrontModel)
    ensures
        #[trigger] sps_front_ok(x) ==> x.poc.sps_bitdepth_minus8 <= 8
            && x.poc.sps_log2_max_pic_order_cnt_lsb_minus4 <= 12,
{
    reveal(sps_front_ok);
    reveal(sps_poc_ok);
}

/// The mathematical model of a [`VvcSps`].
pub struct VvcSpsModel {
    pub front: SpsFrontModel,
    pub coding: SpsCodingModel,
    pub tools: SpsToolsModel,
    pub end: SpsEndModel,
}

impl View for VvcSps {
    type V = VvcSpsModel;

    open spec fn view(&self) -> VvcSpsModel {
        VvcSpsModel {
            front: SpsFrontModel {
                ids: SpsIds {
                    sps_seq_parameter_set_id: self.sps_seq_parameter_set_id,
                    sps_video_parameter_set_id: self.sps_video_parameter_set_id,
                    sps_max_sublayers_minus1: self.sps_max_sublayers_minus1,
                    sps_chroma_format_idc: self.sps_chroma_format_idc,
                    sps_log2_ctu_size_minus5: self.sps_log2_ctu_size_minus5,
                },
                profile_tier_level: opt_view(self.profile_tier_level),
                size: SpsSize {
                    sps_gdr_enabled_flag: self.sps_gdr_enabled_flag,
                    sps_ref_pic_resampling_enabled_flag: self.sps_ref_pic_resampling_enabled_flag,
                    sps_res_change_in_clvs_allowed_flag: self.sps_res_change_in_clvs_allowed_flag,
                    sps_pic_width_max_in_luma_samples: self.sps_pic_width_max_in_luma_samples,
                    sps_pic_height_max_in_luma_samples: self.sps_pic_height_max_in_luma_samples,
                    sps_conf_win_offsets: self.sps_conf_win_offsets,
                },
                subpic_info: opt_view(self.subpic_info),
                poc: SpsPoc {
                    sps_bitdepth_minus8: self.sps_bitdepth_minus8,
                    sps_entropy_coding_sync_enabled_flag: self.sps_entropy_coding_sync_enabled_flag,
                    sps_entry_point_offsets_present_flag: self.sps_entry_point_offsets_present_flag,
                    sps_log2_max_pic_order_cnt_lsb_minus4: self.sps_log2_max_pic_order_cnt_lsb_minus4,
                    sps_poc_msb_cycle_len_minus1: self.sps_poc_msb_cycle_len_minus1,
                },
                sps_extra_ph_bit_present_flags: self.sps_extra_ph_bit_present_flags@,
                sps_extra_sh_bit_present_flags: self.sps_extra_sh_bit_present_flags@,
                sps_sublayer_dpb_params_flag: self.sps_sublayer_dpb_params_flag,
                dpb_parameters: opt_view(self.dpb_parameters),
            },
            coding: SpsCodingModel {
                partition: SpsPartition {
                    sps_log2_min_luma_coding_block_size_minus2: self.sps_log2_min_luma_coding_block_size_minus2,
                    sps_partition_constraints_override_enabled_flag: self.sps_partition_constraints_override_enabled_flag,
                    sps_log2_diff_min_qt_min_cb_intra_slice_luma: self.sps_log2_diff_min_qt_min_cb_intra_slice_luma,
                    sps_max_mtt_hierarchy_depth_intra_slice_luma: self.sps_max_mtt_hierarchy_depth_intra_slice_luma,
                    sps_log2_diff_max_bt_min_qt_intra_slice_luma: self.sps_log2_diff_max_bt_min_qt_intra_slice_luma,
                    sps_log2_diff_max_tt_min_qt_intra_slice_luma: self.sps_log2_diff_max_tt_min_qt_intra_slice_luma,
                    sps_qtbtt_dual_tree_intra_flag: self.sps_qtbtt_dual_tree_intra_flag,
                    sps_log2_diff_min_qt_min_cb_intra_slice_chroma: self.sps_log2_diff_min_qt_min_cb_intra_slice_chroma,
                    sps_max_mtt_hierarchy_depth_intra_slice_chroma: self.sps_max_mtt_hierarchy_depth_intra_slice_chroma,
                    sps_log2_diff_max_bt_min_qt_intra_slice_chroma: self.sps_log2_diff_max_bt_min_qt_intra_slice_chroma,
                    sps_log2_diff_max_tt_min_qt_intra_slice_chroma: self.sps_log2_diff_max_tt_min_qt_intra_slice_chroma,
                    sps_log2_diff_min_qt_min_cb_inter_slice: self.sps_log2_diff_min_qt_min_cb_inter_slice,
                    sps_max_mtt_hierarchy_depth_inter_slice: self.sps_max_mtt_hierarchy_depth_inter_slice,
                    sps_log2_diff_max_bt_min_qt_inter_slice: self.sps_log2_diff_max_bt_min_qt_inter_slice,
                    sps_log2_diff_max_tt_min_qt_inter_slice: self.sps_log2_diff_max_tt_min_qt_inter_slice,
                },
                transform: SpsTransform {
                    sps_max_luma_transform_size_64_flag: self.sps_max_luma_transform_size_64_flag,
                    sps_transform_skip_enabled_flag: self.sps_transform_skip_enabled_flag,
                    sps_log2_transform_skip_max_size_minus2: self.sps_log2_transform_skip_max_size_minus2,
                    sps_bdpcm_enabled_flag: self.sps_bdpcm_enabled_flag,
                    sps_mts_enabled_flag: self.sps_mts_enabled_flag,
                    sps_explicit_mts_intra_enabled_flag: self.sps_explicit_mts_intra_enabled_flag,
                    sps_explicit_mts_inter_enabled_flag: self.sps_explicit_mts_inter_enabled_flag,
                    sps_lfnst_enabled_flag: self.sps_lfnst_enabled_flag,
                    sps_joint_cbcr_enabled_flag: self.sps_joint_cbcr_enabled_flag,
                    sps_same_qp_table_for_chroma_flag: self.sps_same_qp_table_for_chroma_flag,
                },
                chroma_qp_tables: seq_view(self.chroma_qp_tables@),
                filters: SpsFilters {
                    sps_sao_enabled_flag: self.sps_sao_enabled_flag,
                    sps_alf_enabled_flag: self.sps_alf_enabled_flag,
                    sps_ccalf_enabled_flag: self.sps_ccalf_enabled_flag,
                    sps_lmcs_enabled_flag: self.sps_lmcs_enabled_flag,
                    sps_weighted_pred_flag: self.sps_weighted_pred_flag,
                    sps_weighted_bipred_flag: self.sps_weighted_bipred_flag,
                    sps_long_term_ref_pics_flag: self.sps_long_term_ref_pics_flag,
                    sps_inter_layer_prediction_enabled_flag: self.sps_inter_layer_prediction_enabled_flag,
                    sps_idr_rpl_present_flag: self.sps_idr_rpl_present_flag,
                    sps_rpl1_same_as_rpl0_flag: self.sps_rpl1_same_as_rpl0_flag,
                },
                list0: seq_view(self.sps_ref_pic_lists@[0]@),
                list1: seq_view(self.sps_ref_pic_lists@[1]@),
            },
            tools: SpsToolsModel {
                inter: SpsInter {
                    sps_ref_wraparound_enabled_flag: self.sps_ref_wraparound_enabled_flag,
                    sps_temporal_mvp_enabled_flag: self.sps_temporal_mvp_enabled_flag,
                    sps_sbtmvp_enabled_flag: self.sps_sbtmvp_enabled_flag,
                    sps_amvr_enabled_flag: self.sps_amvr_enabled_flag,
                    sps_bdof_enabled_flag: self.sps_bdof_enabled_flag,
                    sps_bdof_control_present_in_ph_flag: self.sps_bdof_control_present_in_ph_flag,
                    sps_smvd_enabled_flag: self.sps_smvd_enabled_flag,
                    sps_dmvr_enabled_flag: self.sps_dmvr_enabled_flag,
                    sps_dmvr_control_present_in_ph_flag: self.sps_dmvr_control_present_in_ph_flag,
                    sps_mmvd_enabled_flag: self.sps_mmvd_enabled_flag,
                    sps_mmvd_fullpel_only_enabled_flag: self.sps_mmvd_fullpel_only_enabled_flag,
                },
                merge: SpsMerge {
                    sps_six_minus_max_num_merge_cand: self.sps_six_minus_max_num_merge_cand,
                    sps_sbt_enabled_flag: self.sps_sbt_enabled_flag,
                    sps_affine_enabled_flag: self.sps_affine_enabled_flag,
                    sps_five_minus_max_num_subblock_merge_cand: self.sps_five_minus_max_num_subblock_merge_cand,
                    sps_6param_affine_enabled_flag: self.sps_6param_affine_enabled_flag,
                    sps_affine_amvr_enabled_flag: self.sps_affine_amvr_enabled_flag,
                    sps_affine_prof_enabled_flag: self.sps_affine_prof_enabled_flag,
                    sps_prof_control_present_in_ph_flag: self.sps_prof_control_present_in_ph_flag,
                    sps_bcw_enabled_flag: self.sps_bcw_enabled_flag,
                    sps_ciip_enabled_flag: self.sps_ciip_enabled_flag,
                    sps_gpm_enabled_flag: self.sps_gpm_enabled_flag,
                    sps_max_num_merge_cand_minus_max_num_gpm_cand: self.sps_max_num_merge_cand_minus_max_num_gpm_cand,
                    sps_log2_parallel_merge_level_minus2: self.sps_log2_parallel_merge_level_minus2,
                },
                intra: SpsIntra {
                    sps_isp_enabled_flag: self.sps_isp_enabled_flag,
                    sps_mrl_enabled_flag: self.sps_mrl_enabled_flag,
                    sps_mip_enabled_flag: self.sps_mip_enabled_flag,
                    sps_cclm_enabled_flag: self.sps_cclm_enabled_flag,
                    sps_chroma_horizontal_collocated_flag: self.sps_chroma_horizontal_collocated_flag,
                    sps_chroma_vertical_collocated_flag: self.sps_chroma_vertical_collocated_flag,
                    sps_palette_enabled_flag: self.sps_palette_enabled_flag,
                    sps_act_enabled_flag: self.sps_act_enabled_flag,
                    sps_min_qp_prime_ts: self.sps_min_qp_prime_ts,
                    sps_ibc_enabled_flag: self.sps_ibc_enabled_flag,
                    sps_six_minus_max_num_ibc_merge_cand: self.sps_six_minus_max_num_ibc_merge_cand,
                },
                ladf: opt_view(self.ladf),
                scaling: SpsScaling {
                    sps_explicit_scaling_list_enabled_flag: self.sps_explicit_scaling_list_enabled_flag,
                    sps_scaling_matrix_for_lfnst_disabled_flag: self.sps_scaling_matrix_for_lfnst_disabled_flag,
                    sps_scaling_matrix_for_alternative_colour_space_disabled_flag: self.sps_scaling_matrix_for_alternative_colour_space_disabled_flag,
                    sps_scaling_matrix_designated_colour_space_flag: self.sps_scaling_matrix_designated_colour_space_flag,
                    sps_dep_quant_enabled_flag: self.sps_dep_quant_enabled_flag,
                    sps_sign_data_hiding_enabled_flag: self.sps_sign_data_hiding_enabled_flag,
                    sps_virtual_boundaries_enabled_flag: self.sps_virtual_boundaries_enabled_flag,
                    sps_virtual_boundaries_present_flag: self.sps_virtual_boundaries_present_flag,
                },
                sps_virtual_boundary_pos_x_minus1: self.sps_virtual_boundary_pos_x_minus1@,
                sps_virtual_boundary_pos_y_minus1: self.sps_virtual_boundary_pos_y_minus1@,
            },
            end: SpsEndModel {
                timing_hrd: opt_view(self.timing_hrd),
                sps_field_seq_flag: self.sps_field_seq_flag,
                vui_payload: opt_view(self.vui_payload),
                ext: SpsExt {
                    sps_extension_flag: self.sps_extension_flag,
                    sps_extension_7bits: self.sps_extension_7bits,
                    range_extension: self.range_extension,
                },
                sps_extension_data: self.sps_extension_data@,
            },
        }
    }
}

/// seq_parameter_set_rbsp() at position `p`.
#[verifier::opaque]
pub open spec fn sps_at(s: Seq<bool>, p: nat) -> Read<VvcSpsModel> {
    match sps_front_at(s, p) { Err(f) => Err(f), Ok((front, p)) => {
    match sps_coding_at(
        s,
        p,
        front.ids,
        front.poc.sps_bitdepth_minus8,
        (front.poc.sps_log2_max_pic_order_cnt_lsb_minus4 as u32 + 4) as u32,
    )
    { Err(f) => Err(f), Ok((coding, p)) => {
    match sps_tools_at(
        s,
        p,
        front.ids,
        coding.transform,
        front.size.sps_pic_width_max_in_luma_samples,
        front.size.sps_pic_height_max_in_luma_samples,
    )
    { Err(f) => Err(f), Ok((tools, p)) => {
    match sps_end_at(
        s,
        p,
        front.ids.sps_max_sublayers_minus1 as u32,
        front.profile_tier_level.is_some(),
        coding.transform.sps_transform_skip_enabled_flag,
    )
    { Err(f) => Err(f), Ok((end, p)) => {
    Ok((VvcSpsModel { front, coding, tools, end }, p))
    }}}}}}}}
}

/// The bits `a` followed by seq_parameter_set_rbsp().
#[verifier::opaque]
pub open spec fn put_sps(a: Seq<bool>, x: VvcSpsModel) -> Seq<bool> {
    let a = put_sps_front(a, x.front);
    let a = put_sps_coding(
        a,
        x.coding,
        x.front.ids,
        x.front.poc.sps_bitdepth_minus8,
        (x.front.poc.sps_log2_max_pic_order_cnt_lsb_minus4 as u32 + 4) as u32,
    );
    let a = put_sps_tools(
        a,
        x.tools,
        x.front.ids,
        x.coding.transform,
        x.front.size.sps_pic_width_max_in_luma_samples,
        x.front.size.sps_pic_height_max_in_luma_samples,
    );
    let a = put_sps_end(
        a,
        x.end,
        x.front.ids.sps_max_sublayers_minus1 as u32,
        x.front.profile_tier_level.is_some(),
        x.coding.transform.sps_transform_skip_enabled_flag,
    );
    a
}

/// The values of seq_parameter_set_rbsp() that reading can give.
#[verifier::opaque]
pub open spec fn sps_ok(x: VvcSpsModel) -> bool {
    &&& sps_front_ok(x.front)
    &&& sps_coding_ok(
        x.coding,
        x.front.ids,
        x.front.poc.sps_bitdepth_minus8,
        (x.front.poc.sps_log2_max_pic_order_cnt_lsb_minus4 as u32 + 4) as u32,
    )
    &&& sps_tools_ok(
        x.tools,
        x.front.ids,
        x.coding.transform,
        x.front.size.sps_pic_width_max_in_luma_samples,
        x.front.size.sps_pic_height_max_in_luma_samples,
    )
    &&& sps_end_ok(
        x.end,
        x.front.ids.sps_max_sublayers_minus1 as u32,
        x.front.profile_tier_level.is_some(),
        x.coding.transform.sps_transform_skip_enabled_flag,
    )
}

/// The values of seq_parameter_set_rbsp() that the writer accepts.
#[verifier::opaque]
pub open spec fn sps_can(x: VvcSpsModel) -> bool {
    &&& sps_front_can(x.front)
    &&& sps_coding_can(
        x.coding,
        x.front.ids,
        x.front.poc.sps_bitdepth_minus8,
        (x.front.poc.sps_log2_max_pic_order_cnt_lsb_minus4 as u32 + 4) as u32,
    )
    &&& sps_tools_can(
        x.tools,
        x.front.ids,
        x.coding.transform,
        x.front.size.sps_pic_width_max_in_luma_samples,
        x.front.size.sps_pic_height_max_in_luma_samples,
    )
    &&& sps_end_can(
        x.end,
        x.front.ids.sps_max_sublayers_minus1 as u32,
        x.front.profile_tier_level.is_some(),
        x.coding.transform.sps_transform_skip_enabled_flag,
    )
}

/// Parses seq_parameter_set_rbsp().
#[verifier::rlimit(40)]
#[verifier::spinoff_prover]
fn parse_sps_rbsp(r: &mut BitReader<'_>) -> (res: Result<VvcSps, BitstreamError>)
    ensures
        read_view_is(sps_at(old(r).bits(), old(r).pos()), res, *old(r), *final(r)),
{
    proof {
        reveal(sps_at);
    }
    let front = parse_sps_front(r)?;
    let coding = parse_sps_coding(
        r,
        front.ids,
        front.poc.sps_bitdepth_minus8,
        front.poc.sps_log2_max_pic_order_cnt_lsb_minus4 as u32 + 4,
    )?;
    let tools = parse_sps_tools(
        r,
        front.ids,
        coding.transform,
        front.size.sps_pic_width_max_in_luma_samples,
        front.size.sps_pic_height_max_in_luma_samples,
    )?;
    let end = parse_sps_end(
        r,
        front.ids.sps_max_sublayers_minus1 as u32,
        front.profile_tier_level.is_some(),
        coding.transform.sps_transform_skip_enabled_flag,
    )?;
    Ok(VvcSps {
        sps_seq_parameter_set_id: front.ids.sps_seq_parameter_set_id,
        sps_video_parameter_set_id: front.ids.sps_video_parameter_set_id,
        sps_max_sublayers_minus1: front.ids.sps_max_sublayers_minus1,
        sps_chroma_format_idc: front.ids.sps_chroma_format_idc,
        sps_log2_ctu_size_minus5: front.ids.sps_log2_ctu_size_minus5,
        profile_tier_level: front.profile_tier_level,
        sps_gdr_enabled_flag: front.size.sps_gdr_enabled_flag,
        sps_ref_pic_resampling_enabled_flag: front.size.sps_ref_pic_resampling_enabled_flag,
        sps_res_change_in_clvs_allowed_flag: front.size.sps_res_change_in_clvs_allowed_flag,
        sps_pic_width_max_in_luma_samples: front.size.sps_pic_width_max_in_luma_samples,
        sps_pic_height_max_in_luma_samples: front.size.sps_pic_height_max_in_luma_samples,
        sps_conf_win_offsets: front.size.sps_conf_win_offsets,
        subpic_info: front.subpic_info,
        sps_bitdepth_minus8: front.poc.sps_bitdepth_minus8,
        sps_entropy_coding_sync_enabled_flag: front.poc.sps_entropy_coding_sync_enabled_flag,
        sps_entry_point_offsets_present_flag: front.poc.sps_entry_point_offsets_present_flag,
        sps_log2_max_pic_order_cnt_lsb_minus4: front.poc.sps_log2_max_pic_order_cnt_lsb_minus4,
        sps_poc_msb_cycle_len_minus1: front.poc.sps_poc_msb_cycle_len_minus1,
        sps_extra_ph_bit_present_flags: front.sps_extra_ph_bit_present_flags,
        sps_extra_sh_bit_present_flags: front.sps_extra_sh_bit_present_flags,
        sps_sublayer_dpb_params_flag: front.sps_sublayer_dpb_params_flag,
        dpb_parameters: front.dpb_parameters,
        sps_log2_min_luma_coding_block_size_minus2: coding.partition.sps_log2_min_luma_coding_block_size_minus2,
        sps_partition_constraints_override_enabled_flag: coding.partition.sps_partition_constraints_override_enabled_flag,
        sps_log2_diff_min_qt_min_cb_intra_slice_luma: coding.partition.sps_log2_diff_min_qt_min_cb_intra_slice_luma,
        sps_max_mtt_hierarchy_depth_intra_slice_luma: coding.partition.sps_max_mtt_hierarchy_depth_intra_slice_luma,
        sps_log2_diff_max_bt_min_qt_intra_slice_luma: coding.partition.sps_log2_diff_max_bt_min_qt_intra_slice_luma,
        sps_log2_diff_max_tt_min_qt_intra_slice_luma: coding.partition.sps_log2_diff_max_tt_min_qt_intra_slice_luma,
        sps_qtbtt_dual_tree_intra_flag: coding.partition.sps_qtbtt_dual_tree_intra_flag,
        sps_log2_diff_min_qt_min_cb_intra_slice_chroma: coding.partition.sps_log2_diff_min_qt_min_cb_intra_slice_chroma,
        sps_max_mtt_hierarchy_depth_intra_slice_chroma: coding.partition.sps_max_mtt_hierarchy_depth_intra_slice_chroma,
        sps_log2_diff_max_bt_min_qt_intra_slice_chroma: coding.partition.sps_log2_diff_max_bt_min_qt_intra_slice_chroma,
        sps_log2_diff_max_tt_min_qt_intra_slice_chroma: coding.partition.sps_log2_diff_max_tt_min_qt_intra_slice_chroma,
        sps_log2_diff_min_qt_min_cb_inter_slice: coding.partition.sps_log2_diff_min_qt_min_cb_inter_slice,
        sps_max_mtt_hierarchy_depth_inter_slice: coding.partition.sps_max_mtt_hierarchy_depth_inter_slice,
        sps_log2_diff_max_bt_min_qt_inter_slice: coding.partition.sps_log2_diff_max_bt_min_qt_inter_slice,
        sps_log2_diff_max_tt_min_qt_inter_slice: coding.partition.sps_log2_diff_max_tt_min_qt_inter_slice,
        sps_max_luma_transform_size_64_flag: coding.transform.sps_max_luma_transform_size_64_flag,
        sps_transform_skip_enabled_flag: coding.transform.sps_transform_skip_enabled_flag,
        sps_log2_transform_skip_max_size_minus2: coding.transform.sps_log2_transform_skip_max_size_minus2,
        sps_bdpcm_enabled_flag: coding.transform.sps_bdpcm_enabled_flag,
        sps_mts_enabled_flag: coding.transform.sps_mts_enabled_flag,
        sps_explicit_mts_intra_enabled_flag: coding.transform.sps_explicit_mts_intra_enabled_flag,
        sps_explicit_mts_inter_enabled_flag: coding.transform.sps_explicit_mts_inter_enabled_flag,
        sps_lfnst_enabled_flag: coding.transform.sps_lfnst_enabled_flag,
        sps_joint_cbcr_enabled_flag: coding.transform.sps_joint_cbcr_enabled_flag,
        sps_same_qp_table_for_chroma_flag: coding.transform.sps_same_qp_table_for_chroma_flag,
        chroma_qp_tables: coding.chroma_qp_tables,
        sps_sao_enabled_flag: coding.filters.sps_sao_enabled_flag,
        sps_alf_enabled_flag: coding.filters.sps_alf_enabled_flag,
        sps_ccalf_enabled_flag: coding.filters.sps_ccalf_enabled_flag,
        sps_lmcs_enabled_flag: coding.filters.sps_lmcs_enabled_flag,
        sps_weighted_pred_flag: coding.filters.sps_weighted_pred_flag,
        sps_weighted_bipred_flag: coding.filters.sps_weighted_bipred_flag,
        sps_long_term_ref_pics_flag: coding.filters.sps_long_term_ref_pics_flag,
        sps_inter_layer_prediction_enabled_flag: coding.filters.sps_inter_layer_prediction_enabled_flag,
        sps_idr_rpl_present_flag: coding.filters.sps_idr_rpl_present_flag,
        sps_rpl1_same_as_rpl0_flag: coding.filters.sps_rpl1_same_as_rpl0_flag,
        sps_ref_pic_lists: [coding.list0, coding.list1],
        sps_ref_wraparound_enabled_flag: tools.inter.sps_ref_wraparound_enabled_flag,
        sps_temporal_mvp_enabled_flag: tools.inter.sps_temporal_mvp_enabled_flag,
        sps_sbtmvp_enabled_flag: tools.inter.sps_sbtmvp_enabled_flag,
        sps_amvr_enabled_flag: tools.inter.sps_amvr_enabled_flag,
        sps_bdof_enabled_flag: tools.inter.sps_bdof_enabled_flag,
        sps_bdof_control_present_in_ph_flag: tools.inter.sps_bdof_control_present_in_ph_flag,
        sps_smvd_enabled_flag: tools.inter.sps_smvd_enabled_flag,
        sps_dmvr_enabled_flag: tools.inter.sps_dmvr_enabled_flag,
        sps_dmvr_control_present_in_ph_flag: tools.inter.sps_dmvr_control_present_in_ph_flag,
        sps_mmvd_enabled_flag: tools.inter.sps_mmvd_enabled_flag,
        sps_mmvd_fullpel_only_enabled_flag: tools.inter.sps_mmvd_fullpel_only_enabled_flag,
        sps_six_minus_max_num_merge_cand: tools.merge.sps_six_minus_max_num_merge_cand,
        sps_sbt_enabled_flag: tools.merge.sps_sbt_enabled_flag,
        sps_affine_enabled_flag: tools.merge.sps_affine_enabled_flag,
        sps_five_minus_max_num_subblock_merge_cand: tools.merge.sps_five_minus_max_num_subblock_merge_cand,
        sps_6param_affine_enabled_flag: tools.merge.sps_6param_affine_enabled_flag,
        sps_affine_amvr_enabled_flag: tools.merge.sps_affine_amvr_enabled_flag,
        sps_affine_prof_enabled_flag: tools.merge.sps_affine_prof_enabled_flag,
        sps_prof_control_present_in_ph_flag: tools.merge.sps_prof_control_present_in_ph_flag,
        sps_bcw_enabled_flag: tools.merge.sps_bcw_enabled_flag,
        sps_ciip_enabled_flag: tools.merge.sps_ciip_enabled_flag,
        sps_gpm_enabled_flag: tools.merge.sps_gpm_enabled_flag,
        sps_max_num_merge_cand_minus_max_num_gpm_cand: tools.merge.sps_max_num_merge_cand_minus_max_num_gpm_cand,
        sps_log2_parallel_merge_level_minus2: tools.merge.sps_log2_parallel_merge_level_minus2,
        sps_isp_enabled_flag: tools.intra.sps_isp_enabled_flag,
        sps_mrl_enabled_flag: tools.intra.sps_mrl_enabled_flag,
        sps_mip_enabled_flag: tools.intra.sps_mip_enabled_flag,
        sps_cclm_enabled_flag: tools.intra.sps_cclm_enabled_flag,
        sps_chroma_horizontal_collocated_flag: tools.intra.sps_chroma_horizontal_collocated_flag,
        sps_chroma_vertical_collocated_flag: tools.intra.sps_chroma_vertical_collocated_flag,
        sps_palette_enabled_flag: tools.intra.sps_palette_enabled_flag,
        sps_act_enabled_flag: tools.intra.sps_act_enabled_flag,
        sps_min_qp_prime_ts: tools.intra.sps_min_qp_prime_ts,
        sps_ibc_enabled_flag: tools.intra.sps_ibc_enabled_flag,
        sps_six_minus_max_num_ibc_merge_cand: tools.intra.sps_six_minus_max_num_ibc_merge_cand,
        ladf: tools.ladf,
        sps_explicit_scaling_list_enabled_flag: tools.scaling.sps_explicit_scaling_list_enabled_flag,
        sps_scaling_matrix_for_lfnst_disabled_flag: tools.scaling.sps_scaling_matrix_for_lfnst_disabled_flag,
        sps_scaling_matrix_for_alternative_colour_space_disabled_flag: tools.scaling.sps_scaling_matrix_for_alternative_colour_space_disabled_flag,
        sps_scaling_matrix_designated_colour_space_flag: tools.scaling.sps_scaling_matrix_designated_colour_space_flag,
        sps_dep_quant_enabled_flag: tools.scaling.sps_dep_quant_enabled_flag,
        sps_sign_data_hiding_enabled_flag: tools.scaling.sps_sign_data_hiding_enabled_flag,
        sps_virtual_boundaries_enabled_flag: tools.scaling.sps_virtual_boundaries_enabled_flag,
        sps_virtual_boundaries_present_flag: tools.scaling.sps_virtual_boundaries_present_flag,
        sps_virtual_boundary_pos_x_minus1: tools.sps_virtual_boundary_pos_x_minus1,
        sps_virtual_boundary_pos_y_minus1: tools.sps_virtual_boundary_pos_y_minus1,
        timing_hrd: end.timing_hrd,
        sps_field_seq_flag: end.sps_field_seq_flag,
        vui_payload: end.vui_payload,
        sps_extension_flag: end.ext.sps_extension_flag,
        sps_extension_7bits: end.ext.sps_extension_7bits,
        range_extension: end.ext.range_extension,
        sps_extension_data: end.sps_extension_data,
    })
}

/// Emits seq_parameter_set_rbsp().
#[verifier::rlimit(40)]
#[verifier::spinoff_prover]
fn write_sps_rbsp(w: &mut BitWriter, x: &VvcSps) -> (res: Result<(), BitstreamError>)
    ensures
        write_is(sps_can(x@), put_sps(old(w)@, x@), res, final(w)@),
{
    proof {
        reveal(put_sps);
        reveal(sps_can);
    }
    write_sps_front(w, x)?;
    write_sps_coding(
        w,
        x,
        SpsIds {
            sps_seq_parameter_set_id: x.sps_seq_parameter_set_id,
            sps_video_parameter_set_id: x.sps_video_parameter_set_id,
            sps_max_sublayers_minus1: x.sps_max_sublayers_minus1,
            sps_chroma_format_idc: x.sps_chroma_format_idc,
            sps_log2_ctu_size_minus5: x.sps_log2_ctu_size_minus5,
        },
        x.sps_bitdepth_minus8,
        x.sps_log2_max_pic_order_cnt_lsb_minus4 as u32 + 4,
    )?;
    write_sps_tools(
        w,
        x,
        SpsIds {
            sps_seq_parameter_set_id: x.sps_seq_parameter_set_id,
            sps_video_parameter_set_id: x.sps_video_parameter_set_id,
            sps_max_sublayers_minus1: x.sps_max_sublayers_minus1,
            sps_chroma_format_idc: x.sps_chroma_format_idc,
            sps_log2_ctu_size_minus5: x.sps_log2_ctu_size_minus5,
        },
        SpsTransform {
            sps_max_luma_transform_size_64_flag: x.sps_max_luma_transform_size_64_flag,
            sps_transform_skip_enabled_flag: x.sps_transform_skip_enabled_flag,
            sps_log2_transform_skip_max_size_minus2: x.sps_log2_transform_skip_max_size_minus2,
            sps_bdpcm_enabled_flag: x.sps_bdpcm_enabled_flag,
            sps_mts_enabled_flag: x.sps_mts_enabled_flag,
            sps_explicit_mts_intra_enabled_flag: x.sps_explicit_mts_intra_enabled_flag,
            sps_explicit_mts_inter_enabled_flag: x.sps_explicit_mts_inter_enabled_flag,
            sps_lfnst_enabled_flag: x.sps_lfnst_enabled_flag,
            sps_joint_cbcr_enabled_flag: x.sps_joint_cbcr_enabled_flag,
            sps_same_qp_table_for_chroma_flag: x.sps_same_qp_table_for_chroma_flag,
        },
        x.sps_pic_width_max_in_luma_samples,
        x.sps_pic_height_max_in_luma_samples,
    )?;
    write_sps_end(
        w,
        x,
        x.sps_max_sublayers_minus1 as u32,
        x.profile_tier_level.is_some(),
        x.sps_transform_skip_enabled_flag,
    )?;
    Ok(())
}

/// Writing seq_parameter_set_rbsp() gives back the bits it was read from.
#[verifier::rlimit(40)]
#[verifier::spinoff_prover]
pub broadcast proof fn law_put_sps_at(s: Seq<bool>, p: nat)
    ensures
        #[trigger] sps_at(s, p) matches Ok((x, q)) ==> {
            &&& sps_ok(x)
            &&& tail_can(x.end.sps_extension_data, x.end.ext.sps_extension_7bits != 0) ==> sps_can(x)
            &&& within(s, q) ==> within(s, p) && put_sps(upto(s, p), x) == upto(s, q)
        },
{
    broadcast use {
        crate::bits::group_write_read,
        law_put_sps_front_at,
        law_put_sps_coding_at,
        law_put_sps_tools_at,
        law_put_sps_end_at,
        lemma_sps_front_bounds,
    };

    reveal(sps_at);
    reveal(put_sps);
    reveal(sps_ok);
    reveal(sps_can);
}

/// Reading gives back seq_parameter_set_rbsp() as it was written.
#[verifier::rlimit(40)]
#[verifier::spinoff_prover]
pub broadcast proof fn law_pre_put_sps(a: Seq<bool>, x: VvcSpsModel, s: Seq<bool>)
    requires
        #[trigger] whole(put_sps(a, x), s),
        sps_ok(x),
    ensures
        pre(a, s),
        tail_can(x.end.sps_extension_data, x.end.ext.sps_extension_7bits != 0) ==> sps_can(x),
        sps_at(s, a.len()) == Ok::<(VvcSpsModel, nat), Fault>((x, s.len())),
{
    broadcast use {
        crate::bits::group_read_written,
        law_pre_put_sps_front,
        law_pre_put_sps_coding,
        law_pre_put_sps_tools,
        law_pre_put_sps_end,
        lemma_sps_front_bounds,
    };

    reveal(sps_at);
    reveal(put_sps);
    reveal(sps_ok);
    reveal(sps_can);
}

/// The layout of seq_parameter_set_rbsp(): reading at `p` gives `x` and ends at
/// `q` if and only if these elements stand there in this order.
#[verifier::rlimit(40)]
#[verifier::spinoff_prover]
pub proof fn law_layout_sps(s: Seq<bool>, p: nat, x: VvcSpsModel, q: nat)
    ensures
        sps_at(s, p) == Ok::<(VvcSpsModel, nat), Fault>((x, q)) <==> cursor(s, p)
            .part(|p: nat| sps_front_at(s, p), x.front)
            .part(
                |p: nat| sps_coding_at(
                    s,
                    p,
                    x.front.ids,
                    x.front.poc.sps_bitdepth_minus8,
                    (x.front.poc.sps_log2_max_pic_order_cnt_lsb_minus4 as u32 + 4) as u32,
                ),
                x.coding,
            )
            .part(
                |p: nat| sps_tools_at(
                    s,
                    p,
                    x.front.ids,
                    x.coding.transform,
                    x.front.size.sps_pic_width_max_in_luma_samples,
                    x.front.size.sps_pic_height_max_in_luma_samples,
                ),
                x.tools,
            )
            .part(
                |p: nat| sps_end_at(
                    s,
                    p,
                    x.front.ids.sps_max_sublayers_minus1 as u32,
                    x.front.profile_tier_level.is_some(),
                    x.coding.transform.sps_transform_skip_enabled_flag,
                ),
                x.end,
            )
            .ends(q),
{
    reveal(sps_at);
}

/// Reading seq_parameter_set_rbsp() never fails with an error of this class.
#[verifier::rlimit(40)]
#[verifier::spinoff_prover]
pub broadcast proof fn law_faults_sps(s: Seq<bool>, p: nat)
    ensures
        #[trigger] sps_at(s, p) matches Err(f) ==> f != Fault::Unsupported,
{
    broadcast use {law_faults_sps_front, law_faults_sps_coding, law_faults_sps_tools, law_faults_sps_end};

    reveal(sps_at);
}

/// What the writer accepts reads back: seq_parameter_set_rbsp(), where each
/// field fits its width and what is not coded has the value that is taken for
/// it.
#[verifier::rlimit(40)]
#[verifier::spinoff_prover]
pub proof fn law_reads_sps(a: Seq<bool>, x: VvcSpsModel, s: Seq<bool>)
    requires
        sps_can(x),
        sps_front_ok(x.front),
        sps_coding_ok(
            x.coding,
            x.front.ids,
            x.front.poc.sps_bitdepth_minus8,
            (x.front.poc.sps_log2_max_pic_order_cnt_lsb_minus4 as u32 + 4) as u32,
        ),
        sps_tools_ok(
            x.tools,
            x.front.ids,
            x.coding.transform,
            x.front.size.sps_pic_width_max_in_luma_samples,
            x.front.size.sps_pic_height_max_in_luma_samples,
        ),
        sps_end_ok(
            x.end,
            x.front.ids.sps_max_sublayers_minus1 as u32,
            x.front.profile_tier_level.is_some(),
            x.coding.transform.sps_transform_skip_enabled_flag,
        ),
        whole(put_sps(a, x), s),
    ensures
        sps_at(s, a.len()) == Ok::<(VvcSpsModel, nat), Fault>((x, s.len())),
{
    assert(sps_ok(x)) by {
        broadcast use crate::bits::law_fits_small;

        reveal(sps_ok);
        reveal(sps_can);
    }
    law_pre_put_sps(a, x, s);
}

/// Each field of the model of a [`VvcSps`] is the field of that name.
pub proof fn law_view_sps(x: VvcSps)
    ensures
        x@.front.ids.sps_seq_parameter_set_id == x.sps_seq_parameter_set_id,
        x@.front.ids.sps_video_parameter_set_id == x.sps_video_parameter_set_id,
        x@.front.ids.sps_max_sublayers_minus1 == x.sps_max_sublayers_minus1,
        x@.front.ids.sps_chroma_format_idc == x.sps_chroma_format_idc,
        x@.front.ids.sps_log2_ctu_size_minus5 == x.sps_log2_ctu_size_minus5,
        x@.front.profile_tier_level == opt_view(x.profile_tier_level),
        x@.front.size.sps_gdr_enabled_flag == x.sps_gdr_enabled_flag,
        x@.front.size.sps_ref_pic_resampling_enabled_flag == x.sps_ref_pic_resampling_enabled_flag,
        x@.front.size.sps_res_change_in_clvs_allowed_flag == x.sps_res_change_in_clvs_allowed_flag,
        x@.front.size.sps_pic_width_max_in_luma_samples == x.sps_pic_width_max_in_luma_samples,
        x@.front.size.sps_pic_height_max_in_luma_samples == x.sps_pic_height_max_in_luma_samples,
        x@.front.size.sps_conf_win_offsets == x.sps_conf_win_offsets,
        x@.front.subpic_info == opt_view(x.subpic_info),
        x@.front.poc.sps_bitdepth_minus8 == x.sps_bitdepth_minus8,
        x@.front.poc.sps_entropy_coding_sync_enabled_flag == x.sps_entropy_coding_sync_enabled_flag,
        x@.front.poc.sps_entry_point_offsets_present_flag == x.sps_entry_point_offsets_present_flag,
        x@.front.poc.sps_log2_max_pic_order_cnt_lsb_minus4 == x.sps_log2_max_pic_order_cnt_lsb_minus4,
        x@.front.poc.sps_poc_msb_cycle_len_minus1 == x.sps_poc_msb_cycle_len_minus1,
        x@.front.sps_extra_ph_bit_present_flags == x.sps_extra_ph_bit_present_flags@,
        x@.front.sps_extra_sh_bit_present_flags == x.sps_extra_sh_bit_present_flags@,
        x@.front.sps_sublayer_dpb_params_flag == x.sps_sublayer_dpb_params_flag,
        x@.front.dpb_parameters == opt_view(x.dpb_parameters),
        x@.coding.partition.sps_log2_min_luma_coding_block_size_minus2 == x.sps_log2_min_luma_coding_block_size_minus2,
        x@.coding.partition.sps_partition_constraints_override_enabled_flag == x.sps_partition_constraints_override_enabled_flag,
        x@.coding.partition.sps_log2_diff_min_qt_min_cb_intra_slice_luma == x.sps_log2_diff_min_qt_min_cb_intra_slice_luma,
        x@.coding.partition.sps_max_mtt_hierarchy_depth_intra_slice_luma == x.sps_max_mtt_hierarchy_depth_intra_slice_luma,
        x@.coding.partition.sps_log2_diff_max_bt_min_qt_intra_slice_luma == x.sps_log2_diff_max_bt_min_qt_intra_slice_luma,
        x@.coding.partition.sps_log2_diff_max_tt_min_qt_intra_slice_luma == x.sps_log2_diff_max_tt_min_qt_intra_slice_luma,
        x@.coding.partition.sps_qtbtt_dual_tree_intra_flag == x.sps_qtbtt_dual_tree_intra_flag,
        x@.coding.partition.sps_log2_diff_min_qt_min_cb_intra_slice_chroma == x.sps_log2_diff_min_qt_min_cb_intra_slice_chroma,
        x@.coding.partition.sps_max_mtt_hierarchy_depth_intra_slice_chroma == x.sps_max_mtt_hierarchy_depth_intra_slice_chroma,
        x@.coding.partition.sps_log2_diff_max_bt_min_qt_intra_slice_chroma == x.sps_log2_diff_max_bt_min_qt_intra_slice_chroma,
        x@.coding.partition.sps_log2_diff_max_tt_min_qt_intra_slice_chroma == x.sps_log2_diff_max_tt_min_qt_intra_slice_chroma,
        x@.coding.partition.sps_log2_diff_min_qt_min_cb_inter_slice == x.sps_log2_diff_min_qt_min_cb_inter_slice,
        x@.coding.partition.sps_max_mtt_hierarchy_depth_inter_slice == x.sps_max_mtt_hierarchy_depth_inter_slice,
        x@.coding.partition.sps_log2_diff_max_bt_min_qt_inter_slice == x.sps_log2_diff_max_bt_min_qt_inter_slice,
        x@.coding.partition.sps_log2_diff_max_tt_min_qt_inter_slice == x.sps_log2_diff_max_tt_min_qt_inter_slice,
        x@.coding.transform.sps_max_luma_transform_size_64_flag == x.sps_max_luma_transform_size_64_flag,
        x@.coding.transform.sps_transform_skip_enabled_flag == x.sps_transform_skip_enabled_flag,
        x@.coding.transform.sps_log2_transform_skip_max_size_minus2 == x.sps_log2_transform_skip_max_size_minus2,
        x@.coding.transform.sps_bdpcm_enabled_flag == x.sps_bdpcm_enabled_flag,
        x@.coding.transform.sps_mts_enabled_flag == x.sps_mts_enabled_flag,
        x@.coding.transform.sps_explicit_mts_intra_enabled_flag == x.sps_explicit_mts_intra_enabled_flag,
        x@.coding.transform.sps_explicit_mts_inter_enabled_flag == x.sps_explicit_mts_inter_enabled_flag,
        x@.coding.transform.sps_lfnst_enabled_flag == x.sps_lfnst_enabled_flag,
        x@.coding.transform.sps_joint_cbcr_enabled_flag == x.sps_joint_cbcr_enabled_flag,
        x@.coding.transform.sps_same_qp_table_for_chroma_flag == x.sps_same_qp_table_for_chroma_flag,
        x@.coding.chroma_qp_tables == seq_view(x.chroma_qp_tables@),
        x@.coding.filters.sps_sao_enabled_flag == x.sps_sao_enabled_flag,
        x@.coding.filters.sps_alf_enabled_flag == x.sps_alf_enabled_flag,
        x@.coding.filters.sps_ccalf_enabled_flag == x.sps_ccalf_enabled_flag,
        x@.coding.filters.sps_lmcs_enabled_flag == x.sps_lmcs_enabled_flag,
        x@.coding.filters.sps_weighted_pred_flag == x.sps_weighted_pred_flag,
        x@.coding.filters.sps_weighted_bipred_flag == x.sps_weighted_bipred_flag,
        x@.coding.filters.sps_long_term_ref_pics_flag == x.sps_long_term_ref_pics_flag,
        x@.coding.filters.sps_inter_layer_prediction_enabled_flag == x.sps_inter_layer_prediction_enabled_flag,
        x@.coding.filters.sps_idr_rpl_present_flag == x.sps_idr_rpl_present_flag,
        x@.coding.filters.sps_rpl1_same_as_rpl0_flag == x.sps_rpl1_same_as_rpl0_flag,
        x@.coding.list0 == seq_view(x.sps_ref_pic_lists@[0]@),
        x@.coding.list1 == seq_view(x.sps_ref_pic_lists@[1]@),
        x@.tools.inter.sps_ref_wraparound_enabled_flag == x.sps_ref_wraparound_enabled_flag,
        x@.tools.inter.sps_temporal_mvp_enabled_flag == x.sps_temporal_mvp_enabled_flag,
        x@.tools.inter.sps_sbtmvp_enabled_flag == x.sps_sbtmvp_enabled_flag,
        x@.tools.inter.sps_amvr_enabled_flag == x.sps_amvr_enabled_flag,
        x@.tools.inter.sps_bdof_enabled_flag == x.sps_bdof_enabled_flag,
        x@.tools.inter.sps_bdof_control_present_in_ph_flag == x.sps_bdof_control_present_in_ph_flag,
        x@.tools.inter.sps_smvd_enabled_flag == x.sps_smvd_enabled_flag,
        x@.tools.inter.sps_dmvr_enabled_flag == x.sps_dmvr_enabled_flag,
        x@.tools.inter.sps_dmvr_control_present_in_ph_flag == x.sps_dmvr_control_present_in_ph_flag,
        x@.tools.inter.sps_mmvd_enabled_flag == x.sps_mmvd_enabled_flag,
        x@.tools.inter.sps_mmvd_fullpel_only_enabled_flag == x.sps_mmvd_fullpel_only_enabled_flag,
        x@.tools.merge.sps_six_minus_max_num_merge_cand == x.sps_six_minus_max_num_merge_cand,
        x@.tools.merge.sps_sbt_enabled_flag == x.sps_sbt_enabled_flag,
        x@.tools.merge.sps_affine_enabled_flag == x.sps_affine_enabled_flag,
        x@.tools.merge.sps_five_minus_max_num_subblock_merge_cand == x.sps_five_minus_max_num_subblock_merge_cand,
        x@.tools.merge.sps_6param_affine_enabled_flag == x.sps_6param_affine_enabled_flag,
        x@.tools.merge.sps_affine_amvr_enabled_flag == x.sps_affine_amvr_enabled_flag,
        x@.tools.merge.sps_affine_prof_enabled_flag == x.sps_affine_prof_enabled_flag,
        x@.tools.merge.sps_prof_control_present_in_ph_flag == x.sps_prof_control_present_in_ph_flag,
        x@.tools.merge.sps_bcw_enabled_flag == x.sps_bcw_enabled_flag,
        x@.tools.merge.sps_ciip_enabled_flag == x.sps_ciip_enabled_flag,
        x@.tools.merge.sps_gpm_enabled_flag == x.sps_gpm_enabled_flag,
        x@.tools.merge.sps_max_num_merge_cand_minus_max_num_gpm_cand == x.sps_max_num_merge_cand_minus_max_num_gpm_cand,
        x@.tools.merge.sps_log2_parallel_merge_level_minus2 == x.sps_log2_parallel_merge_level_minus2,
        x@.tools.intra.sps_isp_enabled_flag == x.sps_isp_enabled_flag,
        x@.tools.intra.sps_mrl_enabled_flag == x.sps_mrl_enabled_flag,
        x@.tools.intra.sps_mip_enabled_flag == x.sps_mip_enabled_flag,
        x@.tools.intra.sps_cclm_enabled_flag == x.sps_cclm_enabled_flag,
        x@.tools.intra.sps_chroma_horizontal_collocated_flag == x.sps_chroma_horizontal_collocated_flag,
        x@.tools.intra.sps_chroma_vertical_collocated_flag == x.sps_chroma_vertical_collocated_flag,
        x@.tools.intra.sps_palette_enabled_flag == x.sps_palette_enabled_flag,
        x@.tools.intra.sps_act_enabled_flag == x.sps_act_enabled_flag,
        x@.tools.intra.sps_min_qp_prime_ts == x.sps_min_qp_prime_ts,
        x@.tools.intra.sps_ibc_enabled_flag == x.sps_ibc_enabled_flag,
        x@.tools.intra.sps_six_minus_max_num_ibc_merge_cand == x.sps_six_minus_max_num_ibc_merge_cand,
        x@.tools.ladf == opt_view(x.ladf),
        x@.tools.scaling.sps_explicit_scaling_list_enabled_flag == x.sps_explicit_scaling_list_enabled_flag,
        x@.tools.scaling.sps_scaling_matrix_for_lfnst_disabled_flag == x.sps_scaling_matrix_for_lfnst_disabled_flag,
        x@.tools.scaling.sps_scaling_matrix_for_alternative_colour_space_disabled_flag == x.sps_scaling_matrix_for_alternative_colour_space_disabled_flag,
        x@.tools.scaling.sps_scaling_matrix_designated_colour_space_flag == x.sps_scaling_matrix_designated_colour_space_flag,
        x@.tools.scaling.sps_dep_quant_enabled_flag == x.sps_dep_quant_enabled_flag,
        x@.tools.scaling.sps_sign_data_hiding_enabled_flag == x.sps_sign_data_hiding_enabled_flag,
        x@.tools.scaling.sps_virtual_boundaries_enabled_flag == x.sps_virtual_boundaries_enabled_flag,
        x@.tools.scaling.sps_virtual_boundaries_present_flag == x.sps_virtual_boundaries_present_flag,
        x@.tools.sps_virtual_boundary_pos_x_minus1 == x.sps_virtual_boundary_pos_x_minus1@,
        x@.tools.sps_virtual_boundary_pos_y_minus1 == x.sps_virtual_boundary_pos_y_minus1@,
        x@.end.timing_hrd == opt_view(x.timing_hrd),
        x@.end.sps_field_seq_flag == x.sps_field_seq_flag,
        x@.end.vui_payload == opt_view(x.vui_payload),
        x@.end.ext.sps_extension_flag == x.sps_extension_flag,
        x@.end.ext.sps_extension_7bits == x.sps_extension_7bits,
        x@.end.ext.range_extension == x.range_extension,
        x@.end.sps_extension_data == x.sps_extension_data@,
{
}

/// The SPS that the RBSP `r` holds.
pub open spec fn sps_of_rbsp(r: Seq<u8>) -> Result<VvcSpsModel, Fault> {
    match sps_at(bits_of(r), 0) {
        Ok((x, _)) => Ok(x),
        Err(f) => Err(f),
    }
}

/// The SPS that the NAL unit `b` holds.
pub open spec fn sps_of_nal(b: Seq<u8>) -> Result<VvcSpsModel, Fault> {
    match rbsp_of_nal(b, NAL_TYPE_SPS) {
        Ok(r) => sps_of_rbsp(r),
        Err(f) => Err(f),
    }
}

/// The bits of the RBSP that holds `x`.
pub open spec fn sps_bits(x: VvcSpsModel) -> Seq<bool> {
    put_sps(Seq::empty(), x)
}

/// Parse a complete VVC SPS NAL (two-byte NAL header at index 0..1),
/// through `rbsp_trailing_bits()`.
///
/// The input slice must point at the start of the NAL body, behind the
/// start code. Emulation-prevention bytes are stripped before bit-level
/// parsing. Every syntax element is retained (or inferred when absent),
/// and the declared §7.4 value ranges are enforced, so [`write_sps`]
/// round-trips the RBSP byte-exactly.
pub fn parse_sps(nal_body: &[u8]) -> (res: Result<VvcSps, BitstreamError>)
    ensures
        nal_read_is(sps_of_nal(nal_body@), res),
{
    let rbsp = nal_rbsp(nal_body, NAL_TYPE_SPS, "SPS")?;
    let mut r = BitReader::new(rbsp.as_slice());
    parse_sps_rbsp(&mut r)
}

/// Emit a SPS RBSP including `rbsp_trailing_bits()`, the byte-exact inverse
/// of [`parse_sps`]'s RBSP walk.
pub fn write_sps(x: &VvcSps) -> (res: Result<Vec<u8>, BitstreamError>)
    ensures
        rbsp_write_is(sps_can(x@), sps_bits(x@), res),
{
    let mut w = BitWriter::new();
    write_sps_rbsp(&mut w, x)?;
    proof {
        lemma_put_sps_aligned(Seq::empty(), x@);
        lemma_pad_aligned(w@);
    }
    Ok(w.finish())
}

/// Emit a complete SPS NAL (canonical header: layer 0, TID 0),
/// emulation-prevention framed.
pub fn write_sps_nal(x: &VvcSps) -> (res: Result<Vec<u8>, BitstreamError>)
    ensures
        nal_write_is(sps_can(x@), NAL_TYPE_SPS, sps_bits(x@), res),
{
    let rbsp = write_sps(x)?;
    let nal = frame_nal(NAL_TYPE_SPS, &rbsp);
    proof {
        assert(bits_of(rbsp@) == sps_bits(x@));
    }
    Ok(nal)
}

proof fn lemma_put_sps_aligned(a: Seq<bool>, x: VvcSpsModel)
    ensures
        put_sps(a, x).len() % 8 == 0,
{
    reveal(put_sps);
    reveal(put_sps_end);
    reveal(put_tail);
    broadcast use lemma_trailing_aligned;

}

/// Writing what was parsed gives back the RBSP: for every RBSP that the parser
/// accepts, the bits of the parsed SPS are the bits of the RBSP, and the
/// writer emits them unless the extension data ends in a zero bit.
pub proof fn law_write_parsed_sps(r: Seq<u8>)
    requires
        r.len() <= usize::MAX,
    ensures
        sps_of_rbsp(r) matches Ok(x) ==> {
            &&& sps_ok(x)
            &&& sps_bits(x) == bits_of(r)
            &&& tail_can(x.end.sps_extension_data, x.end.ext.sps_extension_7bits != 0) ==> sps_can(x)
            &&& forall|out: Seq<u8>| bits_of(out) == sps_bits(x) ==> out == r
        },
{
    let s = bits_of(r);
    lemma_bits_of_len(r);
    law_put_sps_at(s, 0);
    if let Ok((x, q)) = sps_at(s, 0) {
        lemma_sps_at_end(s, 0);
        assert(within(s, q)) by {
            reveal(within);
        }
        assert(upto(s, 0) =~= Seq::empty() && upto(s, q) =~= s) by {
            reveal(upto);
        }
        assert forall|out: Seq<u8>| bits_of(out) == sps_bits(x) implies out == r by {
            lemma_bits_of_injective(out, r);
        }
    }
}

/// Writing what was parsed gives back the NAL unit, where that is in canonical
/// form: every NAL unit that holds the bits of the parsed SPS is the one that was
/// parsed.
pub proof fn law_write_parsed_sps_nal(b: Seq<u8>)
    requires
        b.len() <= usize::MAX,
        canonical_nal(NAL_TYPE_SPS, b),
    ensures
        sps_of_nal(b) matches Ok(x) ==> {
            &&& tail_can(x.end.sps_extension_data, x.end.ext.sps_extension_7bits != 0) ==> sps_can(x)
            &&& forall|r: Seq<u8>| #[trigger] bits_of(r) == sps_bits(x) ==> nal_of_rbsp(NAL_TYPE_SPS, r) == b
        },
{
    law_framed_rbsp_of_nal(NAL_TYPE_SPS, b);
    lemma_unescape_len(b.skip(2));
    law_write_parsed_sps(unescape(b.skip(2)));
}

/// [`parse_sps`] gives the SPS that the NAL unit holds, or an error of its class.
pub proof fn law_parse_sps(nal_body: &[u8], res: Result<VvcSps, BitstreamError>)
    requires
        call_ensures(parse_sps, (nal_body,), res),
    ensures
        match res {
            Ok(v) => sps_of_nal(nal_body@) == Ok::<VvcSpsModel, Fault>(v@),
            Err(e) => sps_of_nal(nal_body@) == Err::<VvcSpsModel, Fault>(e.fault()),
        },
{
}

/// [`write_sps`] and [`write_sps_nal`] give the bits of the SPS, as they are or as a NAL unit
/// of type 15, and both refuse what reading cannot give back.
pub proof fn law_write_sps(
    x: VvcSps,
    rbsp: Result<Vec<u8>, BitstreamError>,
    nal: Result<Vec<u8>, BitstreamError>,
)
    requires
        call_ensures(write_sps, (&x,), rbsp),
        call_ensures(write_sps_nal, (&x,), nal),
    ensures
        rbsp is Ok <==> sps_can(x@),
        nal is Ok <==> sps_can(x@),
        rbsp matches Ok(b) ==> bits_of(b@) == put_sps(Seq::empty(), x@),
        rbsp matches Err(e) ==> e.fault() == Fault::Invalid,
        nal matches Err(e) ==> e.fault() == Fault::Invalid,
        match (rbsp, nal) {
            (Ok(r), Ok(n)) => n@ == seq![0u8, 121u8] + escape(r@, 0),
            _ => true,
        },
{
    if let (Ok(r), Ok(n)) = (rbsp, nal) {
        let b = choose|b: Seq<u8>| #[trigger] bits_of(b) == sps_bits(x@) && n@ == nal_of_rbsp(
            NAL_TYPE_SPS,
            b,
        );
        lemma_bits_of_injective(b, r@);
    }
}

/// A SPS is what stands behind the two header bytes of a NAL unit of type 15.
pub proof fn law_sps_nal(b: Seq<u8>, x: VvcSpsModel)
    ensures
        sps_of_nal(b) == Ok::<VvcSpsModel, Fault>(x) <==> ({
            let s = bits_of(unescape(b.skip(2)));
            &&& b.len() >= 2
            &&& b[0] < 128
            &&& b[1] / 8 == 15
            &&& cursor(s, 0).part(|p: nat| sps_at(s, p), x).ends(s.len())
        }),
        sps_of_nal(b) == Err::<VvcSpsModel, Fault>(Fault::End) <== b.len() < 2,
{
    lemma_sps_at_end(bits_of(unescape(b.skip(2))), 0);
}

proof fn lemma_sps_at_end(s: Seq<bool>, p: nat)
    ensures
        sps_at(s, p) matches Ok((_, q)) ==> q == s.len(),
{
    reveal(sps_at);
    reveal(sps_end_at);
    broadcast use law_put_tail_at;

}

/// What was written parses back: a SPS that reading can give comes back from
/// its RBSP and from its NAL unit.
pub proof fn law_parse_written_sps(x: VvcSpsModel, r: Seq<u8>)
    requires
        sps_ok(x),
        bits_of(r) == sps_bits(x),
        r.len() <= usize::MAX,
    ensures
        sps_of_rbsp(r) == Ok::<VvcSpsModel, Fault>(x),
        sps_of_nal(nal_of_rbsp(NAL_TYPE_SPS, r)) == Ok::<VvcSpsModel, Fault>(x),
        tail_can(x.end.sps_extension_data, x.end.ext.sps_extension_7bits != 0) ==> sps_can(x),
{
    lemma_bits_of_len(r);
    assert(whole(sps_bits(x), bits_of(r))) by {
        reveal(whole);
    }
    law_pre_put_sps(Seq::empty(), x, bits_of(r));
    law_rbsp_of_framed_nal(NAL_TYPE_SPS, r);
}

/// What a subpicture is made of. The first one starts at the corner, the last one
/// reaches to the far corner, and those between are coded whole. With equal sizes
/// only the first one is coded, and the others follow it row by row.
#[verifier::rlimit(60)]
#[verifier::spinoff_prover]
pub proof fn law_layout_subpic_entry(
    s: Seq<bool>,
    p: nat,
    done: Seq<VvcSubpicEntry>,
    w: u64,
    h: u64,
    num: u32,
    independent: u8,
    same_size: u8,
    e: VvcSubpicEntry,
    q: nat,
)
    ensures
        subpic_entry_at(s, p, done, w, h, num, independent, same_size) == Ok::<(VvcSubpicEntry, nat), Fault>(
            (e, q),
        ) <==> ({
            let i = done.len();
            let coded = same_size == 0 || i == 0;
            let wb = ceil_log2(w as nat);
            let hb = ceil_log2(h as nat);
            let x = e.sps_subpic_ctu_top_left_x;
            let y = e.sps_subpic_ctu_top_left_y;
            let w0 = done[0].sps_subpic_width_minus1 + 1;
            let h0 = done[0].sps_subpic_height_minus1 + 1;
            let per_row = w as int / w0;
            let c = cursor(s, p);
            let c = if coded {
                c
                    .u32_if(i > 0 && w > 1, wb, x, 0)
                    .u32_if(i > 0 && h > 1, hb, y, 0)
                    .u32_if(i < num && w > 1, wb, e.sps_subpic_width_minus1, (w - x - 1) as u32)
                    .u32_if(i < num && h > 1, hb, e.sps_subpic_height_minus1, (h - y - 1) as u32)
            } else {
                c.and(
                    x == ((i as int % per_row) * w0) as u32 && y == ((i as int / per_row) * h0) as u32
                        && e.sps_subpic_width_minus1 + 1 == w0 && e.sps_subpic_height_minus1 + 1 == h0,
                )
            };
            &&& c
                .u8_if(independent == 0, 1, e.sps_subpic_treated_as_pic_flag, 1)
                .u8_if(independent == 0, 1, e.sps_loop_filter_across_subpic_enabled_flag, 0)
                .ends(q)
            &&& !coded ==> {
                &&& w as int % w0 == 0 && h as int % h0 == 0
                &&& per_row * (h as int / h0) == num + 1
            }
            &&& x + e.sps_subpic_width_minus1 < w
            &&& y + e.sps_subpic_height_minus1 < h
        }),
{
    reveal(subpic_entry_at);
    reveal(u32_if);
    reveal(u8_if);
    reveal(adv_if);
}

/// The subpictures stand one behind the other, and none is coded for a picture that
/// has only one.
pub proof fn law_layout_subpic_entries(
    s: Seq<bool>,
    p: nat,
    w: u64,
    h: u64,
    num: u32,
    independent: u8,
    same_size: u8,
    xs: Seq<VvcSubpicEntry>,
    q: nat,
)
    ensures
        subpic_entries_at(s, p, w, h, num, independent, same_size) == Ok::<(Seq<VvcSubpicEntry>, nat), Fault>(
            (xs, q),
        ) ==> ({
            &&& num == 0 ==> xs.len() == 0 && q == p
            &&& num > 0 ==> {
                &&& xs.len() == num + 1
                &&& exists|at: Seq<nat>|
                    {
                        &&& at.len() == num + 2 && at[0] == p && at[num + 1] == q
                        &&& forall|i: int|
                            0 <= i <= num ==> subpic_entry_at(
                                s,
                                #[trigger] at[i],
                                xs.take(i),
                                w,
                                h,
                                num,
                                independent,
                                same_size,
                            ) == Ok::<(VvcSubpicEntry, nat), Fault>((xs[i], at[i + 1]))
                    }
            }
        }),
{
    reveal(subpic_entries_at);
    let n = num_subpic_entries(num);
    lemma_rep_step(subpic_item(s, w, h, num, independent, same_size), p, n);
    if num > 0 {
        if let Ok((ys, r)) = rep_at(subpic_item(s, w, h, num, independent, same_size), p, n) {
            let at = lemma_rep_places(subpic_item(s, w, h, num, independent, same_size), p, n);
            assert(at.len() == num + 2 && at[0] == p && at[num + 1] == r);
        }
    }
}

/// What the writer accepts as subpictures reads back: as many as there are, each of
/// which reading can give behind those before it.
pub proof fn law_reads_subpic_entries(
    a: Seq<bool>,
    xs: Seq<VvcSubpicEntry>,
    w: u64,
    h: u64,
    num: u32,
    independent: u8,
    same_size: u8,
    s: Seq<bool>,
)
    requires
        subpic_entries_can(xs, w, h, num, independent, same_size),
        forall|i: int|
            0 <= i < xs.len() ==> subpic_entry_ok(
                #[trigger] xs[i],
                xs.take(i),
                w,
                h,
                num,
                independent,
                same_size,
            ),
        w <= 0x0800_0000,
        h <= 0x0800_0000,
        pre(put_subpic_entries(a, xs, w, h, num, independent, same_size), s),
    ensures
        subpic_entries_at(s, a.len(), w, h, num, independent, same_size) == Ok::<
            (Seq<VvcSubpicEntry>, nat),
            Fault,
        >((xs, put_subpic_entries(a, xs, w, h, num, independent, same_size).len())),
{
    assert(subpic_entries_ok(xs, w, h, num, independent, same_size)) by {
        reveal(subpic_entries_ok);
        reveal(subpic_entries_can);
        assert forall|i: int| 0 <= i < xs.len() implies subpic_item_ok(w, h, num, independent, same_size)(
            #[trigger] xs.take(i),
            xs[i],
        ) by {
            assert(subpic_entry_ok(xs[i], xs.take(i), w, h, num, independent, same_size));
        }
    }
    law_pre_put_subpic_entries(a, xs, w, h, num, independent, same_size, s);
}

/// vui_payload() behind its flag is its size less one, alignment bits, and at most
/// 1024 bytes, all of which must be there.
pub proof fn law_layout_vui(s: Seq<bool>, p: nat, x: Seq<u8>, q: nat)
    ensures
        vui_at(s, p) == Ok::<(Seq<u8>, nat), Fault>((x, q)) <==> ({
            &&& 1 <= x.len() <= 1024
            &&& cursor(s, p)
                .ue((x.len() - 1) as u32)
                .align()
                .room(8 * x.len() as int)
                .part(|p: nat| u8s_at(s, p, 8, x.len()), x)
                .ends(q)
        }),
{
    broadcast use crate::bits::group_write_read_lists;

    reveal(vui_at);
}

/// What the writer accepts as a VUI payload reads back.
pub proof fn law_reads_vui(a: Seq<bool>, x: Seq<u8>, s: Seq<bool>)
    requires
        vui_can(x),
        pre(put_vui(a, x), s),
    ensures
        vui_at(s, a.len()) == Ok::<(Seq<u8>, nat), Fault>((x, put_vui(a, x).len())),
{
    assert(vui_ok(x)) by {
        reveal(vui_ok);
        reveal(vui_can);
    }
    law_pre_put_vui(a, x, s);
}

/// The reference picture list structures of an SPS stand behind their number, at
/// most 64.
pub proof fn law_layout_rpl_list(
    s: Seq<bool>,
    p: nat,
    coded: bool,
    ctx: VvcRplsContext,
    poc_lsb_bits: u32,
    x: Seq<VvcRefPicListStructModel>,
    q: nat,
)
    ensures
        rpl_list_at(s, p, coded, ctx, poc_lsb_bits) == Ok::<(Seq<VvcRefPicListStructModel>, nat), Fault>(
            (x, q),
        ) <==> if coded {
            &&& x.len() <= 64
            &&& cursor(s, p)
                .ue(x.len() as u32)
                .part(|p: nat| ref_pic_lists_at(s, p, ctx, poc_lsb_bits, x.len() as u64), x)
                .ends(q)
        } else {
            x.len() == 0 && q == p
        },
{
    broadcast use law_put_ref_pic_lists_at;

    reveal(rpl_list_at);
    if x.len() == 0 {
        assert(x =~= Seq::empty());
    }
}

/// A picture is covered by the smallest number of coding tree blocks, of 32, 64 or
/// 128 samples.
pub proof fn law_ctbs(size: u32, log2_ctu_size_minus5: u8)
    requires
        size > 0,
        log2_ctu_size_minus5 <= 2,
    ensures
        ({
            let n = ctbs(size, log2_ctu_size_minus5);
            let ctb = if log2_ctu_size_minus5 == 0 {
                32int
            } else if log2_ctu_size_minus5 == 1 {
                64
            } else {
                128
            };
            (n - 1) * ctb < size <= n * ctb
        }),
{
    lemma2_to64();
    let ctb = pow2((log2_ctu_size_minus5 + 5) as nat) as int;
    assert(ctb == 32 || ctb == 64 || ctb == 128);
    let n = (size + ctb - 1) / ctb;
    assert((n - 1) * ctb < size <= n * ctb) by (nonlinear_arith)
        requires
            ctb > 0,
            n == (size + ctb - 1) / ctb,
    ;
    assert(n >= 0) by (nonlinear_arith)
        requires
            ctb > 0,
            0 < size <= n * ctb,
    ;
}

/// There is no table of chroma quantisation for monochrome; else one for all, or one
/// each for Cb, Cr and, if it is coded jointly, both.
pub proof fn law_num_qp_tables(chroma_format_idc: u8, same: u8, joint: u8)
    ensures
        num_qp_tables(0, same, joint) == 0,
        chroma_format_idc > 0 ==> num_qp_tables(chroma_format_idc, same, joint) == if same != 0 {
            1u64
        } else {
            (2 + if joint != 0 {
                1u64
            } else {
                0
            }) as u64
        },
{
}

/// Reading the subpictures fails only as invalid.
pub broadcast proof fn law_faults_subpic_entries(
    s: Seq<bool>,
    p: nat,
    w: u64,
    h: u64,
    num: u32,
    independent: u8,
    same_size: u8,
)
    ensures
        #[trigger] subpic_entries_at(s, p, w, h, num, independent, same_size) matches Err(f)
            ==> f == Fault::Invalid,
{
    reveal(subpic_entries_at);
    reveal(subpic_entry_at);
    lemma_rep_faults(
        subpic_item(s, w, h, num, independent, same_size),
        p,
        num_subpic_entries(num),
        |f: Fault| f == Fault::Invalid,
    );
}

/// Reading the VUI payload fails only as too short or as invalid.
pub broadcast proof fn law_faults_vui(s: Seq<bool>, p: nat)
    ensures
        #[trigger] vui_at(s, p) matches Err(f) ==> f != Fault::Unsupported,
{
    broadcast use {crate::bits::law_faults_ue, crate::bits::law_faults_u8s};

    reveal(vui_at);
    reveal(align_at);
}

/// Reading the lists fails only as invalid.
pub broadcast proof fn law_faults_rpl_list(
    s: Seq<bool>,
    p: nat,
    coded: bool,
    ctx: VvcRplsContext,
    poc_lsb_bits: u32,
)
    ensures
        #[trigger] rpl_list_at(s, p, coded, ctx, poc_lsb_bits) matches Err(f) ==> f == Fault::Invalid,
{
    broadcast use {crate::bits::law_faults_ue, law_faults_ref_pic_lists};

    reveal(rpl_list_at);
}

/// What the writer accepts as a list of reference picture list structures reads back,
/// where each of them is one that reading can give.
pub proof fn law_reads_rpl_list(
    a: Seq<bool>,
    x: Seq<VvcRefPicListStructModel>,
    coded: bool,
    ctx: VvcRplsContext,
    poc_lsb_bits: u32,
    s: Seq<bool>,
)
    requires
        rpl_list_can(x, coded, ctx, poc_lsb_bits),
        coded ==> ref_pic_lists_ok(x, ctx, poc_lsb_bits, x.len() as u64),
        pre(put_rpl_list(a, x, coded, ctx, poc_lsb_bits), s),
    ensures
        rpl_list_at(s, a.len(), coded, ctx, poc_lsb_bits) == Ok::<(Seq<VvcRefPicListStructModel>, nat), Fault>(
            (x, put_rpl_list(a, x, coded, ctx, poc_lsb_bits).len()),
        ),
{
    assert(rpl_list_ok(x, coded, ctx, poc_lsb_bits)) by {
        reveal(rpl_list_ok);
        reveal(rpl_list_can);
    }
    law_pre_put_rpl_list(a, x, coded, ctx, poc_lsb_bits, s);
}

/// The values that follow from the fields of an SPS.
pub proof fn law_sps_values(
    x: VvcSps,
    ctb_log2: u32,
    ctb: u32,
    depth: u32,
    lsb_width: u32,
    lsb_max: u32,
    ptl: bool,
    merge: u32,
    w: u64,
    h: u64,
)
    requires
        call_ensures(VvcSps::ctb_log2_size_y, (&x,), ctb_log2),
        call_ensures(VvcSps::ctb_size_y, (&x,), ctb),
        call_ensures(VvcSps::bit_depth, (&x,), depth),
        call_ensures(VvcSps::poc_lsb_width, (&x,), lsb_width),
        call_ensures(VvcSps::max_pic_order_cnt_lsb, (&x,), lsb_max),
        call_ensures(VvcSps::ptl_dpb_hrd_params_present, (&x,), ptl),
        call_ensures(VvcSps::max_num_merge_cand, (&x,), merge),
        call_ensures(VvcSps::pic_width_in_ctbs, (&x,), w),
        call_ensures(VvcSps::pic_height_in_ctbs, (&x,), h),
    ensures
        ctb_log2 == x.sps_log2_ctu_size_minus5 + 5,
        ctb == pow2(ctb_log2 as nat),
        depth == x.sps_bitdepth_minus8 + 8,
        lsb_width == x.sps_log2_max_pic_order_cnt_lsb_minus4 + 4,
        lsb_max == pow2(lsb_width as nat),
        ptl <==> x.profile_tier_level is Some,
        x.sps_six_minus_max_num_merge_cand <= 5 ==> merge + x.sps_six_minus_max_num_merge_cand == 6,
        x.sps_six_minus_max_num_merge_cand > 5 ==> merge == 1,
        w == ctbs(x.sps_pic_width_max_in_luma_samples, x.sps_log2_ctu_size_minus5),
        h == ctbs(x.sps_pic_height_max_in_luma_samples, x.sps_log2_ctu_size_minus5),
{
}

} // verus!
