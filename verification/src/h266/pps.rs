//! H.266 / VVC picture parameter set (§7.3.2.5): complete walk,
//! parse and byte-exact write.
//!
//! [`parse_pps`] walks every syntax element of
//! `pic_parameter_set_rbsp()` through `rbsp_trailing_bits()`, including
//! the tile/slice partition block with the §6.5.1 tile and slice
//! derivations that its rectangular-slice loop depends on; [`write_pps`]
//! is its byte-exact inverse (see [`law_write_parsed_pps`]).
use crate::bit_reader::{BitReader, read_is, read_seq_is, read_vec_is, read_view_is};
use crate::bit_writer::{BitWriter, unfit_error, us_fit, write_is};
use crate::bits::{
    Read, adv, adv_if, bits_of, fits, flag_at, group_read_written, group_read_written_lists,
    group_write_read, group_write_read_lists, law_faults_se, law_faults_tail, law_faults_ue,
    law_faults_ues, law_faults_us, law_fits_small, law_pre_put_tail, law_put_rep_at,
    law_put_tail_at, law_rep_at_put, lemma_bits_of_injective, lemma_bits_of_len,
    lemma_pad_aligned, lemma_rep_err, lemma_rep_faults, lemma_rep_step, lemma_seq_view_push,
    lemma_trailing_aligned, opt_view, pre, put_bit, put_bit_if, put_flag, put_rep, put_se,
    put_se_if, put_tail, put_u, put_ue, put_ue_if, put_ues, put_us, read_some, rep_at, se_at,
    se_fits, se_if, seq_view, tail_at, tail_can, tail_ok, u8_at, u8_if, ue_at, ue_fits, ue_if,
    ues_at, ues_ok, upto, us_at, us_ok, whole, within,
};
use crate::layout::cursor;
use crate::h266::sps::{
    conf_win_at, conf_win_can, conf_win_ok, ctbs, law_faults_conf_win, law_pre_put_conf_win,
    law_put_conf_win_at, lemma_ctbs_bound, parse_conf_win, pic_ctbs, put_conf_win,
    write_conf_win,
};
use crate::h266::{
    NAL_TYPE_PPS, canonical_nal, frame_nal, law_framed_rbsp_of_nal, law_rbsp_of_framed_nal,
    nal_of_rbsp, nal_rbsp, nal_read_is, nal_write_is, rbsp_of_nal, rbsp_write_is,
};
use crate::nal::{escape, lemma_unescape_len, unescape};
use crate::rbsp::{parse_tail, write_tail};
use crate::message::Message;
use crate::{BitstreamError, Fault};
use vstd::prelude::*;

verus! {

/// Table A.2 level-6.3 limit: `MaxTileCols ≤ 30`.
pub const PPS_MAX_TILE_COLS: u64 = 30;

/// Table A.2 level-6.3 limit: `MaxTilesPerAu ≤ 990`.
pub const PPS_MAX_TILES_PER_AU: u64 = 990;

/// Table A.2 level-6.3 limit: `MaxSlicesPerAu ≤ 1000`, so
/// `pps_num_slices_in_pic_minus1 ≤ 999` (§7.4.3.5).
pub const PPS_NUM_SLICES_IN_PIC_MINUS1_MAX: u32 = 999;

// ─────────────────────────── Sub-blocks ──────────────────────────────────────

/// PPS-signalled subpicture ID mapping (§7.3.2.5, present iff
/// `pps_subpic_id_mapping_present_flag`).
#[derive(Debug, Clone, PartialEq, Eq, Default)]
pub struct VvcPpsSubpicIdMapping {
    /// `pps_num_subpics_minus1` ue(v) — coded only when
    /// `!pps_no_pic_partition_flag`; inferred 0 otherwise. Must equal
    /// the SPS value (§7.4.3.5); bounded by Table A.2 (≤ 999).
    pub pps_num_subpics_minus1: u32,
    /// `pps_subpic_id_len_minus1` ue(v) — 0..=15, must equal the SPS
    /// value.
    pub pps_subpic_id_len_minus1: u32,
    /// `pps_subpic_id[i]` u(v) — `pps_num_subpics_minus1 + 1` ids.
    pub pps_subpic_ids: Vec<u32>,
}

/// The mathematical model of a [`VvcPpsSubpicIdMapping`].
pub struct VvcPpsSubpicIdMappingModel {
    pub pps_num_subpics_minus1: u32,
    pub pps_subpic_id_len_minus1: u32,
    pub pps_subpic_ids: Seq<u32>,
}

impl View for VvcPpsSubpicIdMapping {
    type V = VvcPpsSubpicIdMappingModel;

    open spec fn view(&self) -> VvcPpsSubpicIdMappingModel {
        VvcPpsSubpicIdMappingModel {
            pps_num_subpics_minus1: self.pps_num_subpics_minus1,
            pps_subpic_id_len_minus1: self.pps_subpic_id_len_minus1,
            pps_subpic_ids: self.pps_subpic_ids@,
        }
    }
}

/// The subpicture id mapping at position `p`.
#[verifier::opaque]
pub open spec fn subpic_map_at(s: Seq<bool>, p: nat, no_partition: u8) -> Read<VvcPpsSubpicIdMappingModel> {
    match ue_if(s, p, no_partition == 0, 0) { Err(f) => Err(f), Ok((pps_num_subpics_minus1, p)) => {
    if pps_num_subpics_minus1 > PPS_NUM_SLICES_IN_PIC_MINUS1_MAX { Err(Fault::Invalid) } else {
    match ue_at(s, p) { Err(f) => Err(f), Ok((pps_subpic_id_len_minus1, p)) => {
    if pps_subpic_id_len_minus1 > 15 { Err(Fault::Invalid) } else {
    let bits = (pps_subpic_id_len_minus1 + 1) as u32;
    match us_at(s, p, bits as nat, (pps_num_subpics_minus1 as u64 + 1) as nat)
    { Err(f) => Err(f), Ok((pps_subpic_ids, p)) => {
    Ok((VvcPpsSubpicIdMappingModel { pps_num_subpics_minus1, pps_subpic_id_len_minus1, pps_subpic_ids }, p))
    }}}}}}}}
}

/// The bits `a` followed by the subpicture id mapping.
#[verifier::opaque]
pub open spec fn put_subpic_map(a: Seq<bool>, x: VvcPpsSubpicIdMappingModel, no_partition: u8) -> Seq<bool> {
    let a = put_ue_if(a, x.pps_num_subpics_minus1 as nat, no_partition == 0);
    let a = put_ue(a, x.pps_subpic_id_len_minus1 as nat);
    let bits = (x.pps_subpic_id_len_minus1 + 1) as u32;
    let a = put_us(a, x.pps_subpic_ids, bits as nat);
    a
}

/// The values of the subpicture id mapping that reading can give.
#[verifier::opaque]
pub open spec fn subpic_map_ok(x: VvcPpsSubpicIdMappingModel, no_partition: u8) -> bool {
    &&& if no_partition == 0 {
        x.pps_num_subpics_minus1 <= PPS_NUM_SLICES_IN_PIC_MINUS1_MAX
    } else {
        x.pps_num_subpics_minus1 == 0
    }
    &&& x.pps_subpic_id_len_minus1 <= 15
    &&& {
        let bits = (x.pps_subpic_id_len_minus1 + 1) as u32;
        &&& us_ok(x.pps_subpic_ids, bits as nat)
        &&& x.pps_subpic_ids.len() == x.pps_num_subpics_minus1 as u64 + 1
    }
}

/// The values of the subpicture id mapping that the writer accepts.
#[verifier::opaque]
pub open spec fn subpic_map_can(x: VvcPpsSubpicIdMappingModel, no_partition: u8) -> bool {
    &&& if no_partition == 0 {
        x.pps_num_subpics_minus1 <= PPS_NUM_SLICES_IN_PIC_MINUS1_MAX
    } else {
        x.pps_num_subpics_minus1 == 0
    }
    &&& no_partition == 0 ==> ue_fits(x.pps_num_subpics_minus1 as nat)
    &&& x.pps_subpic_id_len_minus1 <= 15
    &&& {
        let bits = (x.pps_subpic_id_len_minus1 + 1) as u32;
        &&& x.pps_subpic_ids.len() == x.pps_num_subpics_minus1 as usize + 1
        &&& us_ok(x.pps_subpic_ids, bits as nat)
    }
}

/// Parses the subpicture id mapping.
fn parse_subpic_map(
    r: &mut BitReader<'_>,
    no_partition: u8,
) -> (res: Result<VvcPpsSubpicIdMapping, BitstreamError>)
    ensures
        read_view_is(subpic_map_at(old(r).bits(), old(r).pos(), no_partition), res, *old(r), *final(r)),
{
    proof {
        reveal(subpic_map_at);
    }
    let pps_num_subpics_minus1: u32 = r.ue_if(no_partition == 0, 0)?;
    if pps_num_subpics_minus1 > PPS_NUM_SLICES_IN_PIC_MINUS1_MAX {
        return Err(BitstreamError::invalid("pps_num_subpics_minus1 exceeds MaxSlicesPerAu - 1 (Table A.2)"));
    }
    let pps_subpic_id_len_minus1: u32 = r.ue()?;
    if pps_subpic_id_len_minus1 > 15 {
        return Err(BitstreamError::invalid("pps_subpic_id_len_minus1 > 15 (7.4.3.5)"));
    }
    let bits: u32 = pps_subpic_id_len_minus1 + 1;
    let pps_subpic_ids = r.read_us(pps_num_subpics_minus1 as u64 + 1, bits);
    Ok(VvcPpsSubpicIdMapping { pps_num_subpics_minus1, pps_subpic_id_len_minus1, pps_subpic_ids })
}

/// Emits the subpicture id mapping, the inverse of [`parse_subpic_map`].
fn write_subpic_map(
    w: &mut BitWriter,
    x: &VvcPpsSubpicIdMapping,
    no_partition: u8,
) -> (res: Result<(), BitstreamError>)
    ensures
        write_is(subpic_map_can(x@, no_partition), put_subpic_map(old(w)@, x@, no_partition), res, final(w)@),
{
    proof {
        reveal(put_subpic_map);
        reveal(subpic_map_can);
    }
    if !(
        if no_partition == 0 {
            x.pps_num_subpics_minus1 <= PPS_NUM_SLICES_IN_PIC_MINUS1_MAX
        } else {
            x.pps_num_subpics_minus1 == 0
        }
    ) {
        return Err(
            if no_partition == 0 {
                BitstreamError::invalid("pps_num_subpics_minus1 exceeds MaxSlicesPerAu - 1 (Table A.2)")
            } else {
                BitstreamError::invalid(
                    "pps_num_subpics_minus1 must carry its inferred value 0 when pps_no_pic_partition_flag (7.4.3.5)",
                )
            },
        );
    }
    w.write_ue_if(x.pps_num_subpics_minus1, no_partition == 0)?;
    if x.pps_subpic_id_len_minus1 > 15 {
        return Err(BitstreamError::invalid("pps_subpic_id_len_minus1 > 15 (7.4.3.5)"));
    }
    w.write_ue(x.pps_subpic_id_len_minus1)?;
    let bits: u32 = x.pps_subpic_id_len_minus1 + 1;
    if !(x.pps_subpic_ids.len() == x.pps_num_subpics_minus1 as usize + 1) {
        return Err(BitstreamError::invalid("pps_subpic_id count != pps_num_subpics_minus1 + 1 (7.3.2.5)"));
    }
    if !us_fit(x.pps_subpic_ids.as_slice(), bits) {
        return Err(unfit_error("pps_subpic_id", x.pps_subpic_ids.as_slice(), bits));
    }
    w.write_us(x.pps_subpic_ids.as_slice(), bits);
    Ok(())
}

/// Writing the subpicture id mapping gives back the bits it was read from.
pub broadcast proof fn law_put_subpic_map_at(s: Seq<bool>, p: nat, no_partition: u8)
    ensures
        #[trigger] subpic_map_at(s, p, no_partition) matches Ok((x, q)) ==> {
            &&& subpic_map_ok(x, no_partition)
            &&& subpic_map_can(x, no_partition)
            &&& within(s, q) ==> within(s, p) && put_subpic_map(upto(s, p), x, no_partition) == upto(s, q)
        },
{
    broadcast use {crate::bits::group_write_read, crate::bits::group_write_read_lists};

    reveal(subpic_map_at);
    reveal(put_subpic_map);
    reveal(subpic_map_ok);
    reveal(subpic_map_can);
}

/// Reading gives back the subpicture id mapping as it was written.
pub broadcast proof fn law_pre_put_subpic_map(
    a: Seq<bool>,
    x: VvcPpsSubpicIdMappingModel,
    no_partition: u8,
    s: Seq<bool>,
)
    requires
        #[trigger] pre(put_subpic_map(a, x, no_partition), s),
        subpic_map_ok(x, no_partition),
    ensures
        pre(a, s),
        subpic_map_can(x, no_partition),
        subpic_map_at(s, a.len(), no_partition) == Ok::<(VvcPpsSubpicIdMappingModel, nat), Fault>(
            (x, put_subpic_map(a, x, no_partition).len()),
        ),
{
    broadcast use {crate::bits::group_read_written, crate::bits::group_read_written_lists};

    reveal(subpic_map_at);
    reveal(put_subpic_map);
    reveal(subpic_map_ok);
    reveal(subpic_map_can);
}

/// The layout of the subpicture id mapping: reading at `p` gives `x` and ends
/// at `q` if and only if these elements stand there in this order, and the
/// values are allowed.
pub proof fn law_layout_subpic_map(
    s: Seq<bool>,
    p: nat,
    no_partition: u8,
    x: VvcPpsSubpicIdMappingModel,
    q: nat,
)
    ensures
        subpic_map_at(s, p, no_partition) == Ok::<(VvcPpsSubpicIdMappingModel, nat), Fault>((x, q)) <==> ({
            let bits = (x.pps_subpic_id_len_minus1 + 1) as u32;
            &&& cursor(s, p)
                .ue_if(no_partition == 0, x.pps_num_subpics_minus1, 0)
                .ue(x.pps_subpic_id_len_minus1)
                .part(
                    |p: nat| us_at(s, p, bits as nat, (x.pps_num_subpics_minus1 as u64 + 1) as nat),
                    x.pps_subpic_ids,
                )
                .ends(q)
            &&& x.pps_num_subpics_minus1 <= 999
            &&& x.pps_subpic_id_len_minus1 <= 15
        }),
{
    reveal(subpic_map_at);
    reveal(ue_if);
}

/// Reading the subpicture id mapping fails only with an error of this class.
pub broadcast proof fn law_faults_subpic_map(s: Seq<bool>, p: nat, no_partition: u8)
    ensures
        #[trigger] subpic_map_at(s, p, no_partition) matches Err(f) ==> f == Fault::Invalid,
{
    broadcast use {crate::bits::law_faults_ue, crate::bits::law_faults_us};

    reveal(subpic_map_at);
    reveal(ue_if);
}

/// What the writer accepts reads back: the subpicture id mapping, where each
/// field fits its width and what is not coded has the value that is taken for
/// it.
pub proof fn law_reads_subpic_map(a: Seq<bool>, x: VvcPpsSubpicIdMappingModel, no_partition: u8, s: Seq<bool>)
    requires
        subpic_map_can(x, no_partition),
        !(no_partition == 0) ==> x.pps_num_subpics_minus1 == 0,
        pre(put_subpic_map(a, x, no_partition), s),
    ensures
        subpic_map_at(s, a.len(), no_partition) == Ok::<(VvcPpsSubpicIdMappingModel, nat), Fault>(
            (x, put_subpic_map(a, x, no_partition).len()),
        ),
{
    assert(subpic_map_ok(x, no_partition)) by {
        broadcast use crate::bits::law_fits_small;

        reveal(subpic_map_ok);
        reveal(subpic_map_can);
    }
    law_pre_put_subpic_map(a, x, no_partition, s);
}

/// Each field of the model of a [`VvcPpsSubpicIdMapping`] is the field of that name.
pub proof fn law_view_subpic_map(x: VvcPpsSubpicIdMapping)
    ensures
        x@.pps_num_subpics_minus1 == x.pps_num_subpics_minus1,
        x@.pps_subpic_id_len_minus1 == x.pps_subpic_id_len_minus1,
        x@.pps_subpic_ids == x.pps_subpic_ids@,
{
}

/// One coded iteration of the §7.3.2.5 rectangular-slice loop.
///
/// Entries correspond to the loop's *coded* iterations, in order — a
/// tile that splits into `NumSlicesInTile > 1` slices consumes that
/// many picture-level slice indices but contributes exactly one entry
/// (the standard's `i += NumSlicesInTile − 1` advance), and the last
/// slice (`i == pps_num_slices_in_pic_minus1`) has no syntax at all.
/// Uncoded fields carry their §7.4.3.5 inferred values.
#[derive(Debug, Clone, PartialEq, Eq, Default)]
pub struct VvcPpsRectSlice {
    /// `pps_slice_width_in_tiles_minus1[i]` ue(v) — coded only when
    /// the slice's top-left tile is not in the last tile column;
    /// inferred 0.
    pub pps_slice_width_in_tiles_minus1: u32,
    /// `pps_slice_height_in_tiles_minus1[i]` ue(v) — coded only when
    /// the top-left tile is not in the last tile row AND
    /// (`pps_tile_idx_delta_present_flag` or the tile is in column
    /// 0); inferred 0 (last row) or the previous slice's value.
    pub pps_slice_height_in_tiles_minus1: u32,
    /// `pps_exp_slice_height_in_ctus_minus1[i][j]` values — `Some`
    /// iff the `pps_num_exp_slices_in_tile[i]` field was coded (the
    /// slice covers exactly one tile whose row is taller than one
    /// CTU); the vec may be empty (`pps_num_exp_slices_in_tile = 0`,
    /// tile not split).
    pub exp_slice_heights_in_ctus_minus1: Option<Vec<u32>>,
    /// `pps_tile_idx_delta_val[i]` se(v) — `Some` iff coded
    /// (`pps_tile_idx_delta_present_flag` and not the last slice);
    /// nonzero, `|v| < NumTilesInPic`.
    pub pps_tile_idx_delta_val: Option<i32>,
}

/// The `!pps_no_pic_partition_flag` tile/slice partition block
/// (§7.3.2.5).
#[derive(Debug, Clone, PartialEq, Eq, Default)]
pub struct VvcPpsPartition {
    /// `pps_log2_ctu_size_minus5` u(2) — 0..=2, must equal the SPS
    /// value.
    pub pps_log2_ctu_size_minus5: u8,
    /// `pps_tile_column_width_minus1[i]` ue(v) — the
    /// `pps_num_exp_tile_columns_minus1 + 1` explicit column widths.
    pub pps_tile_column_widths_minus1: Vec<u32>,
    /// `pps_tile_row_height_minus1[i]` ue(v) — explicit row heights.
    pub pps_tile_row_heights_minus1: Vec<u32>,
    /// `pps_loop_filter_across_tiles_enabled_flag` u(1) — coded only
    /// when `NumTilesInPic > 1`; inferred 0.
    pub pps_loop_filter_across_tiles_enabled_flag: u8,
    /// `pps_rect_slice_flag` u(1) — coded only when
    /// `NumTilesInPic > 1`; inferred 1.
    pub pps_rect_slice_flag: u8,
    /// `pps_single_slice_per_subpic_flag` u(1) — coded only when
    /// `pps_rect_slice_flag`; 0 otherwise.
    pub pps_single_slice_per_subpic_flag: u8,
    /// `pps_num_slices_in_pic_minus1` ue(v) — coded only for the
    /// explicit rectangular-slice layout; 0..=999 (Table A.2).
    pub pps_num_slices_in_pic_minus1: u32,
    /// `pps_tile_idx_delta_present_flag` u(1) — coded only when
    /// `pps_num_slices_in_pic_minus1 > 1`; inferred 0.
    pub pps_tile_idx_delta_present_flag: u8,
    /// The coded rectangular-slice loop iterations (see
    /// [`VvcPpsRectSlice`]).
    pub rect_slices: Vec<VvcPpsRectSlice>,
    /// `pps_loop_filter_across_slices_enabled_flag` u(1) — coded only
    /// when `!pps_rect_slice_flag`, `pps_single_slice_per_subpic_flag`
    /// or `pps_num_slices_in_pic_minus1 > 0`; inferred 0.
    pub pps_loop_filter_across_slices_enabled_flag: u8,
}

// ─────────────────────────── 6.5.1 derivations ───────────────────────────────

/// The sum of explicit sizes that are coded less one.
pub open spec fn exp_sum(exp: Seq<u32>) -> nat
    decreases exp.len(),
{
    if exp.len() == 0 {
        0
    } else {
        exp_sum(exp.drop_last()) + exp.last() as nat + 1
    }
}

/// The number of sizes that cover `total`: the explicit sizes, then the last
/// explicit size as often as it fits, then the remainder.
pub open spec fn fill_count(exp: Seq<u32>, total: nat) -> nat {
    let left = (total - exp_sum(exp)) as nat;
    let last = (exp.last() + 1) as nat;
    exp.len() + left / last + if left % last > 0 {
        1nat
    } else {
        0nat
    }
}

/// The sizes that cover `total`, as [`fill_count`] counts them.
pub open spec fn fill(exp: Seq<u32>, total: nat) -> Seq<u64> {
    let left = (total - exp_sum(exp)) as nat;
    let last = (exp.last() + 1) as nat;
    Seq::new(
        fill_count(exp, total),
        |i: int|
            if i < exp.len() {
                (exp[i] + 1) as u64
            } else if i < exp.len() + left / last {
                last as u64
            } else {
                (left % last) as u64
            },
    )
}

proof fn lemma_exp_sum_take(exp: Seq<u32>, i: int)
    requires
        0 <= i <= exp.len(),
    ensures
        exp_sum(exp.take(i)) + (exp.len() - i) <= exp_sum(exp),
    decreases exp.len() - i,
{
    if i < exp.len() {
        lemma_exp_sum_take(exp, i + 1);
        assert(exp.take(i + 1).drop_last() =~= exp.take(i));
    } else {
        assert(exp.take(i) =~= exp);
    }
}

/// Derive the per-tile-column widths (or per-row heights) in CTBs
/// from the explicit `*_minus1` list per §6.5.1 eqs. (14)/(15):
/// explicit entries first, then uniform fill with the last explicit
/// size, then the remainder. Errors if the explicit entries overrun
/// the picture or the derived count exceeds `max_count`.
fn derive_tile_sizes(exp_minus1: &Vec<u32>, total_ctbs: u64, max_count: u64, axis: &str) -> (res: Result<
    Vec<u64>,
    BitstreamError,
>)
    requires
        exp_minus1@.len() >= 1,
        total_ctbs <= 0x0800_0000,
        max_count <= 990,
    ensures
        match res {
            Ok(v) => exp_sum(exp_minus1@) <= total_ctbs && fill_count(
                exp_minus1@,
                total_ctbs as nat,
            ) <= max_count && v@ == fill(exp_minus1@, total_ctbs as nat),
            Err(e) => e.fault() == Fault::Invalid && !(exp_sum(exp_minus1@) <= total_ctbs
                && fill_count(exp_minus1@, total_ctbs as nat) <= max_count),
        },
{
    let ghost exp = exp_minus1@;
    let mut sizes: Vec<u64> = Vec::new();
    let mut remaining: u64 = total_ctbs;
    let mut i: usize = 0;
    proof {
        assert(exp.take(0) =~= Seq::empty());
    }
    while i < exp_minus1.len()
        invariant
            exp == exp_minus1@,
            i <= exp.len(),
            total_ctbs <= 0x0800_0000,
            remaining + exp_sum(exp.take(i as int)) == total_ctbs,
            sizes@.len() == i,
            forall|j: int| 0 <= j < i ==> #[trigger] sizes@[j] == exp[j] + 1,
        decreases exp.len() - i,
    {
        proof {
            assert(exp.take(i + 1).drop_last() =~= exp.take(i as int));
            lemma_exp_sum_take(exp, i + 1);
        }
        let v: u64 = exp_minus1[i] as u64 + 1;
        if v > remaining {
            return Err(
                Message::new("explicit tile ")
                    .with(axis)
                    .with(" sizes exceed the picture (")
                    .num(v as i128)
                    .with(" CTBs > ")
                    .num(remaining as i128)
                    .with(" remaining, 6.5.1)")
                    .invalid(),
            );
        }
        sizes.push(v);
        remaining = remaining - v;
        i = i + 1;
    }
    proof {
        assert(exp.take(i as int) =~= exp);
    }
    let last: u64 = exp_minus1[exp_minus1.len() - 1] as u64 + 1;
    let n_uniform: u64 = remaining / last;
    let tail: u64 = remaining % last;
    let extra: u64 = if tail > 0 {
        1
    } else {
        0
    };
    proof {
        assert(n_uniform <= remaining) by (nonlinear_arith)
            requires
                n_uniform == remaining / last,
                last >= 1,
        ;
        lemma_exp_sum_take(exp, 0);
    }
    let count: u64 = exp_minus1.len() as u64 + n_uniform + extra;
    if count > max_count {
        return Err(
            Message::new("derived tile ")
                .with(axis)
                .with(" count ")
                .num(count as i128)
                .with(" exceeds the Table A.2 limit ")
                .num(max_count as i128)
                .invalid(),
        );
    }
    let mut k: u64 = 0;
    while k < n_uniform
        invariant
            k <= n_uniform,
            exp == exp_minus1@,
            sizes@.len() == exp.len() + k,
            forall|j: int| 0 <= j < exp.len() ==> #[trigger] sizes@[j] == exp[j] + 1,
            forall|j: int| exp.len() <= j < sizes@.len() ==> #[trigger] sizes@[j] == last,
        decreases n_uniform - k,
    {
        sizes.push(last);
        k = k + 1;
    }
    if tail > 0 {
        sizes.push(tail);
    }
    proof {
        assert(sizes@ =~= fill(exp, total_ctbs as nat));
    }
    Ok(sizes)
}

/// The tile grid of a picture.
pub struct TileGrid {
    /// The number of tile columns.
    pub cols: u64,
    /// The number of tile rows.
    pub rows: u64,
    /// The height of each tile row in CTBs.
    pub row_heights: Vec<u64>,
}

/// The mathematical model of a [`TileGrid`].
pub struct TileGridModel {
    pub cols: u64,
    pub rows: u64,
    pub row_heights: Seq<u64>,
}

impl View for TileGrid {
    type V = TileGridModel;

    open spec fn view(&self) -> TileGridModel {
        TileGridModel { cols: self.cols, rows: self.rows, row_heights: self.row_heights@ }
    }
}

/// The explicit column widths and row heights give a tile grid within the limits
/// of Table A.2.
#[verifier::opaque]
pub open spec fn grid_ok(cols: Seq<u32>, rows: Seq<u32>, w: nat, h: nat) -> bool {
    &&& cols.len() >= 1
    &&& rows.len() >= 1
    &&& exp_sum(cols) <= w
    &&& fill_count(cols, w) <= PPS_MAX_TILE_COLS
    &&& exp_sum(rows) <= h
    &&& fill_count(rows, h) <= PPS_MAX_TILES_PER_AU as nat / fill_count(cols, w)
}

/// The tile grid of a picture of `w` by `h` CTBs.
#[verifier::opaque]
pub open spec fn grid_of(cols: Seq<u32>, rows: Seq<u32>, w: nat, h: nat) -> TileGridModel {
    TileGridModel {
        cols: fill_count(cols, w) as u64,
        rows: fill_count(rows, h) as u64,
        row_heights: fill(rows, h),
    }
}

/// What holds of every tile grid.
pub open spec fn grid_wf(g: TileGridModel) -> bool {
    &&& 1 <= g.cols <= 30
    &&& 1 <= g.rows <= 990
    &&& g.row_heights.len() == g.rows
    &&& forall|i: int| 0 <= i < g.rows ==> 1 <= #[trigger] g.row_heights[i] <= 0x0800_0000
}

/// A tile grid is well formed.
pub broadcast proof fn lemma_grid(cols: Seq<u32>, rows: Seq<u32>, w: nat, h: nat)
    ensures
        #[trigger] grid_ok(cols, rows, w, h) && h <= 0x0800_0000 ==> grid_wf(
            grid_of(cols, rows, w, h),
        ),
{
    reveal(grid_ok);
    reveal(grid_of);
    if grid_ok(cols, rows, w, h) && h <= 0x0800_0000 {
        let c = fill_count(cols, w);
        let g = grid_of(cols, rows, w, h);
        let left = (h - exp_sum(rows)) as nat;
        let last = (rows.last() + 1) as nat;
        assert(c >= 1) by {
            lemma_fill_count_pos(cols, w);
        }
        lemma_fill_count_pos(rows, h);
        assert(990nat / c <= 990) by (nonlinear_arith)
            requires
                c >= 1,
        ;
        assert forall|i: int| 0 <= i < g.rows implies 1 <= #[trigger] g.row_heights[i]
            <= 0x0800_0000 by {
            lemma_fill_item(rows, h, i);
        }
    }
}

proof fn lemma_fill_count_pos(exp: Seq<u32>, total: nat)
    requires
        exp.len() >= 1,
        exp_sum(exp) <= total,
    ensures
        fill_count(exp, total) >= exp.len(),
{
    let left = (total - exp_sum(exp)) as nat;
    let last = (exp.last() + 1) as nat;
    assert(left / last >= 0) by (nonlinear_arith)
        requires
            last >= 1,
    ;
}

proof fn lemma_fill_item(exp: Seq<u32>, total: nat, i: int)
    requires
        exp.len() >= 1,
        exp_sum(exp) <= total <= 0x0800_0000,
        0 <= i < fill_count(exp, total),
    ensures
        1 <= fill(exp, total)[i] <= total,
{
    let left = (total - exp_sum(exp)) as nat;
    let last = (exp.last() + 1) as nat;
    assert(exp.take(exp.len() - 1) =~= exp.drop_last());
    if i < exp.len() {
        lemma_exp_sum_take(exp, i + 1);
        assert(exp.take(i + 1).drop_last() =~= exp.take(i));
    } else {
        assert(left % last < last && left % last <= left) by (nonlinear_arith)
            requires
                last >= 1,
                left >= 0,
        ;
    }
}

/// Whether every explicit size is at most `total`.
fn sizes_inside(exp_minus1: &Vec<u32>, total: u64) -> (b: bool)
    ensures
        !b ==> exp_sum(exp_minus1@) > total,
{
    let mut i: usize = 0;
    while i < exp_minus1.len()
        invariant
            i <= exp_minus1@.len(),
        decreases exp_minus1@.len() - i,
    {
        if exp_minus1[i] as u64 >= total {
            proof {
                let exp = exp_minus1@;
                lemma_exp_sum_take(exp, i + 1);
                assert(exp.take(i + 1).drop_last() =~= exp.take(i as int));
            }
            return false;
        }
        i = i + 1;
    }
    true
}

/// What is wrong with explicit sizes that are too many or none.
fn partition_error(cols: &Vec<u32>, rows: &Vec<u32>, w: u64, h: u64) -> (e: BitstreamError)
    requires
        w <= 0x0800_0000,
        h <= 0x0800_0000,
    ensures
        e.fault() == Fault::Invalid,
{
    if cols.len() == 0 || rows.len() == 0 {
        return BitstreamError::invalid(
            "partition block needs at least one explicit tile column width and row height",
        );
    }
    match tile_grid(cols, rows, w, h) {
        Err(e) => e,
        Ok(_) => BitstreamError::invalid("explicit tile column/row count exceeds the Table A.2 limits"),
    }
}

/// The tile grid of a picture of `w` by `h` CTBs.
fn tile_grid(cols: &Vec<u32>, rows: &Vec<u32>, w: u64, h: u64) -> (res: Result<
    TileGrid,
    BitstreamError,
>)
    requires
        cols@.len() >= 1,
        rows@.len() >= 1,
        w <= 0x0800_0000,
        h <= 0x0800_0000,
    ensures
        match res {
            Ok(g) => grid_ok(cols@, rows@, w as nat, h as nat) && g@ == grid_of(
                cols@,
                rows@,
                w as nat,
                h as nat,
            ) && grid_wf(g@),
            Err(e) => e.fault() == Fault::Invalid && !grid_ok(cols@, rows@, w as nat, h as nat),
        },
{
    proof {
        reveal(grid_ok);
        reveal(grid_of);
        lemma_grid(cols@, rows@, w as nat, h as nat);
    }
    if !sizes_inside(cols, w) {
        return Err(BitstreamError::invalid("pps_tile_column_width_minus1 >= PicWidthInCtbsY (7.4.3.5)"));
    }
    if !sizes_inside(rows, h) {
        return Err(BitstreamError::invalid("pps_tile_row_height_minus1 >= PicHeightInCtbsY (7.4.3.5)"));
    }
    let col_widths = derive_tile_sizes(cols, w, PPS_MAX_TILE_COLS, "column")?;
    let n: u64 = col_widths.len() as u64;
    proof {
        lemma_fill_count_pos(cols@, w as nat);
        assert(990u64 / n <= 990) by (nonlinear_arith)
            requires
                n >= 1,
        ;
    }
    let row_heights = derive_tile_sizes(rows, h, PPS_MAX_TILES_PER_AU / n, "row")?;
    Ok(TileGrid { cols: n, rows: row_heights.len() as u64, row_heights })
}

/// The explicit slice heights fit into a tile row.
pub open spec fn tile_slices_ok(exp: Seq<u32>, row_height: nat) -> bool {
    exp.len() == 0 || exp_sum(exp) <= row_height
}

/// `NumSlicesInTile` per §6.5.1 eq. (21): explicit slice heights, then uniform
/// fill with the last explicit height, then the remainder.
pub open spec fn tile_slices(exp: Seq<u32>, row_height: nat) -> nat {
    if exp.len() == 0 {
        1
    } else {
        fill_count(exp, row_height)
    }
}

proof fn lemma_tile_slices(exp: Seq<u32>, row_height: nat)
    requires
        tile_slices_ok(exp, row_height),
    ensures
        1 <= tile_slices(exp, row_height),
{
    if exp.len() > 0 {
        lemma_fill_count_pos(exp, row_height);
    }
}

/// `NumSlicesInTile[i]` per §6.5.1 eq. (21). Errors if the explicit heights
/// overrun the tile row.
fn num_slices_in_tile(exp_heights_minus1: &Vec<u32>, row_height_ctus: u64) -> (res: Result<
    u64,
    BitstreamError,
>)
    requires
        row_height_ctus <= 0x0800_0000,
    ensures
        match res {
            Ok(n) => tile_slices_ok(exp_heights_minus1@, row_height_ctus as nat) && n
                == tile_slices(exp_heights_minus1@, row_height_ctus as nat) && 1 <= n
                <= 0x1000_0001,
            Err(e) => e.fault() == Fault::Invalid && !tile_slices_ok(
                exp_heights_minus1@,
                row_height_ctus as nat,
            ),
        },
{
    if exp_heights_minus1.len() == 0 {
        return Ok(1);
    }
    let ghost exp = exp_heights_minus1@;
    let mut remaining: u64 = row_height_ctus;
    let mut i: usize = 0;
    proof {
        assert(exp.take(0) =~= Seq::empty());
        lemma_exp_sum_take(exp, 0);
    }
    while i < exp_heights_minus1.len()
        invariant
            exp == exp_heights_minus1@,
            exp.len() >= 1,
            i <= exp.len(),
            row_height_ctus <= 0x0800_0000,
            remaining + exp_sum(exp.take(i as int)) == row_height_ctus,
        decreases exp.len() - i,
    {
        proof {
            assert(exp.take(i + 1).drop_last() =~= exp.take(i as int));
            lemma_exp_sum_take(exp, i + 1);
        }
        let h: u64 = exp_heights_minus1[i] as u64 + 1;
        if h > remaining {
            return Err(
                Message::new("pps_exp_slice_height_in_ctus_minus1 overruns the tile row (")
                    .num(h as i128)
                    .with(" > ")
                    .num(remaining as i128)
                    .with(", 6.5.1)")
                    .invalid(),
            );
        }
        remaining = remaining - h;
        i = i + 1;
    }
    proof {
        assert(exp.take(i as int) =~= exp);
    }
    let last: u64 = exp_heights_minus1[exp_heights_minus1.len() - 1] as u64 + 1;
    proof {
        assert(remaining / last <= remaining) by (nonlinear_arith)
            requires
                last >= 1,
        ;
        lemma_fill_count_pos(exp, row_height_ctus as nat);
    }
    let extra: u64 = if remaining % last > 0 {
        1
    } else {
        0
    };
    Ok(exp_heights_minus1.len() as u64 + remaining / last + extra)
}

// ─────────────────────────── The rectangular-slice loop ──────────────────────

/// The mathematical model of a [`VvcPpsRectSlice`].
pub struct VvcPpsRectSliceModel {
    pub pps_slice_width_in_tiles_minus1: u32,
    pub pps_slice_height_in_tiles_minus1: u32,
    pub exp_slice_heights_in_ctus_minus1: Option<Seq<u32>>,
    pub pps_tile_idx_delta_val: Option<i32>,
}

impl View for VvcPpsRectSlice {
    type V = VvcPpsRectSliceModel;

    open spec fn view(&self) -> VvcPpsRectSliceModel {
        VvcPpsRectSliceModel {
            pps_slice_width_in_tiles_minus1: self.pps_slice_width_in_tiles_minus1,
            pps_slice_height_in_tiles_minus1: self.pps_slice_height_in_tiles_minus1,
            exp_slice_heights_in_ctus_minus1: opt_view(self.exp_slice_heights_in_ctus_minus1),
            pps_tile_idx_delta_val: self.pps_tile_idx_delta_val,
        }
    }
}

/// Where the rectangular-slice loop stands: the index of the next slice, its
/// top-left tile, and the height of the slice before it.
pub struct SliceWalk {
    pub i: nat,
    pub tile: nat,
    pub prev_height: u32,
}

/// The walk starts at the first slice, in the first tile.
pub open spec fn walk_start() -> SliceWalk {
    SliceWalk { i: 0, tile: 0, prev_height: 0 }
}

/// The tile column of tile `tile`.
pub open spec fn tile_x(g: TileGridModel, tile: nat) -> nat {
    tile % (g.cols as nat)
}

/// The tile row of tile `tile`.
pub open spec fn tile_y(g: TileGridModel, tile: nat) -> nat {
    tile / (g.cols as nat)
}

/// The §7.3.2.5 presence condition for `pps_slice_width_in_tiles_minus1[i]`.
pub open spec fn width_coded(g: TileGridModel, tile: nat) -> bool {
    tile_x(g, tile) != g.cols - 1
}

/// The §7.3.2.5 presence condition for `pps_slice_height_in_tiles_minus1[i]`.
pub open spec fn height_coded(g: TileGridModel, delta_present: bool, tile: nat) -> bool {
    tile_y(g, tile) != g.rows - 1 && (delta_present || tile_x(g, tile) == 0)
}

/// `pps_slice_height_in_tiles_minus1[i]` where it is not coded.
pub open spec fn inferred_height(g: TileGridModel, st: SliceWalk) -> u32 {
    if tile_y(g, st.tile) == g.rows - 1 {
        0
    } else {
        st.prev_height
    }
}

/// The height in CTBs of the tile row of `tile`.
pub open spec fn row_height(g: TileGridModel, tile: nat) -> nat {
    g.row_heights[tile_y(g, tile) as int] as nat
}

/// The §7.3.2.5 condition for the `pps_num_exp_slices_in_tile[i]` block: the
/// slice covers one tile, whose row is taller than one CTU.
pub open spec fn exp_coded(g: TileGridModel, tile: nat, w: u32, h: u32) -> bool {
    w == 0 && h == 0 && row_height(g, tile) > 1
}

/// The explicit slice heights allowed in a tile.
pub open spec fn exp_ok(g: TileGridModel, st: SliceWalk, num: u32, exp: Seq<u32>) -> bool {
    &&& exp.len() < row_height(g, st.tile)
    &&& forall|j: int| 0 <= j < exp.len() ==> #[trigger] exp[j] < row_height(g, st.tile)
    &&& tile_slices_ok(exp, row_height(g, st.tile))
    &&& st.i + tile_slices(exp, row_height(g, st.tile)) - 1 <= num
}

/// The index of the last slice that an entry stands for.
pub open spec fn last_slice(g: TileGridModel, st: SliceWalk, exp: Option<Seq<u32>>) -> nat {
    match exp {
        Some(v) => (st.i + tile_slices(v, row_height(g, st.tile)) - 1) as nat,
        None => st.i,
    }
}

/// A coded `pps_tile_idx_delta_val[i]` that leads to another tile of the picture.
pub open spec fn delta_ok(g: TileGridModel, tile: nat, delta: i32) -> bool {
    &&& delta != 0
    &&& -(g.cols * g.rows) < delta < g.cols * g.rows
    &&& 0 <= tile + delta < g.cols * g.rows
}

/// The tile of the next slice where no delta is coded (§6.5.1).
pub open spec fn default_advance(g: TileGridModel, tile: nat, w: u32, h: u32) -> nat {
    let t = tile + w as nat + 1;
    if t % (g.cols as nat) == 0 {
        t + h as nat * g.cols as nat
    } else {
        t
    }
}

/// The walk behind an entry.
pub open spec fn walk_next(
    g: TileGridModel,
    num: u32,
    st: SliceWalk,
    e: VvcPpsRectSliceModel,
) -> SliceWalk {
    let last = last_slice(g, st, e.exp_slice_heights_in_ctus_minus1);
    SliceWalk {
        i: last + 1,
        tile: if last < num {
            match e.pps_tile_idx_delta_val {
                Some(delta) => (st.tile + delta) as nat,
                None => default_advance(
                    g,
                    st.tile,
                    e.pps_slice_width_in_tiles_minus1,
                    e.pps_slice_height_in_tiles_minus1,
                ),
            }
        } else {
            st.tile
        },
        prev_height: e.pps_slice_height_in_tiles_minus1,
    }
}

/// The explicit slice heights at position `p`, behind their count.
#[verifier::opaque]
pub open spec fn exp_heights_at(
    s: Seq<bool>,
    p: nat,
    coded: bool,
    g: TileGridModel,
    st: SliceWalk,
    num: u32,
) -> Read<Option<Seq<u32>>> {
    if coded {
        match ue_at(s, p) {
            Err(f) => Err(f),
            Ok((n, p)) => if n >= row_height(g, st.tile) {
                Err(Fault::Invalid)
            } else {
                match ues_at(s, p, n as nat) {
                    Err(f) => Err(f),
                    Ok((v, p)) => if exp_ok(g, st, num, v) {
                        Ok((Some(v), p))
                    } else {
                        Err(Fault::Invalid)
                    },
                }
            },
        }
    } else {
        Ok((None, p))
    }
}

/// One entry of the loop at position `p`.
#[verifier::opaque]
pub open spec fn rect_slice_at(
    s: Seq<bool>,
    p: nat,
    st: SliceWalk,
    g: TileGridModel,
    delta_present: bool,
    num: u32,
) -> Read<VvcPpsRectSliceModel> {
    match ue_if(s, p, width_coded(g, st.tile), 0) {
        Err(f) => Err(f),
        Ok((w, p)) => if w >= g.cols - tile_x(g, st.tile) {
            Err(Fault::Invalid)
        } else {
            match ue_if(s, p, height_coded(g, delta_present, st.tile), inferred_height(g, st)) {
                Err(f) => Err(f),
                Ok((h, p)) => if h >= g.rows - tile_y(g, st.tile) {
                    Err(Fault::Invalid)
                } else {
                    match exp_heights_at(s, p, exp_coded(g, st.tile, w, h), g, st, num) {
                        Err(f) => Err(f),
                        Ok((exp, p)) => {
                            let last = last_slice(g, st, exp);
                            if delta_present && last < num {
                                match se_at(s, p) {
                                    Err(f) => Err(f),
                                    Ok((delta, p)) => if delta_ok(g, st.tile, delta) {
                                        Ok(
                                            (
                                                VvcPpsRectSliceModel {
                                                    pps_slice_width_in_tiles_minus1: w,
                                                    pps_slice_height_in_tiles_minus1: h,
                                                    exp_slice_heights_in_ctus_minus1: exp,
                                                    pps_tile_idx_delta_val: Some(delta),
                                                },
                                                p,
                                            ),
                                        )
                                    } else {
                                        Err(Fault::Invalid)
                                    },
                                }
                            } else if last < num && default_advance(g, st.tile, w, h) >= g.cols
                                * g.rows {
                                Err(Fault::Invalid)
                            } else {
                                Ok(
                                    (
                                        VvcPpsRectSliceModel {
                                            pps_slice_width_in_tiles_minus1: w,
                                            pps_slice_height_in_tiles_minus1: h,
                                            exp_slice_heights_in_ctus_minus1: exp,
                                            pps_tile_idx_delta_val: None,
                                        },
                                        p,
                                    ),
                                )
                            }
                        },
                    }
                },
            }
        },
    }
}

/// Writes one entry of the loop.
#[verifier::opaque]
pub open spec fn put_rect_slice(
    a: Seq<bool>,
    e: VvcPpsRectSliceModel,
    st: SliceWalk,
    g: TileGridModel,
    delta_present: bool,
    num: u32,
) -> Seq<bool> {
    let a = put_ue_if(
        a,
        e.pps_slice_width_in_tiles_minus1 as nat,
        width_coded(g, st.tile),
    );
    let a = put_ue_if(
        a,
        e.pps_slice_height_in_tiles_minus1 as nat,
        height_coded(g, delta_present, st.tile),
    );
    let a = match e.exp_slice_heights_in_ctus_minus1 {
        Some(v) => put_ues(put_ue(a, v.len()), v),
        None => a,
    };
    match e.pps_tile_idx_delta_val {
        Some(delta) => put_se(a, delta as int),
        None => a,
    }
}

/// An entry that the writer accepts.
#[verifier::opaque]
pub open spec fn rect_slice_can(
    e: VvcPpsRectSliceModel,
    st: SliceWalk,
    g: TileGridModel,
    delta_present: bool,
    num: u32,
) -> bool {
    let w = e.pps_slice_width_in_tiles_minus1;
    let h = e.pps_slice_height_in_tiles_minus1;
    let last = last_slice(g, st, e.exp_slice_heights_in_ctus_minus1);
    &&& w < g.cols - tile_x(g, st.tile)
    &&& h < g.rows - tile_y(g, st.tile)
    &&& e.exp_slice_heights_in_ctus_minus1 is Some <==> exp_coded(g, st.tile, w, h)
    &&& e.exp_slice_heights_in_ctus_minus1 matches Some(v) ==> exp_ok(g, st, num, v)
    &&& e.pps_tile_idx_delta_val is Some <==> delta_present && last < num
    &&& e.pps_tile_idx_delta_val matches Some(delta) ==> delta_ok(g, st.tile, delta)
    &&& !delta_present && last < num ==> default_advance(g, st.tile, w, h) < g.cols * g.rows
}

/// An entry that reading can give.
#[verifier::opaque]
pub open spec fn rect_slice_ok(
    e: VvcPpsRectSliceModel,
    st: SliceWalk,
    g: TileGridModel,
    delta_present: bool,
    num: u32,
) -> bool {
    &&& rect_slice_can(e, st, g, delta_present, num)
    &&& !width_coded(g, st.tile) ==> e.pps_slice_width_in_tiles_minus1 == 0
    &&& !height_coded(g, delta_present, st.tile) ==> e.pps_slice_height_in_tiles_minus1
        == inferred_height(g, st)
}

/// How many slices the walk has left.
pub open spec fn slices_left(st: SliceWalk, num: u32) -> nat {
    if st.i < num {
        (num - st.i) as nat
    } else {
        0
    }
}

/// The entries of the loop at position `p`, from the walk `st` on. Every entry
/// stands for at least one slice, so the walk always moves on.
pub open spec fn slice_loop_at(
    s: Seq<bool>,
    p: nat,
    st: SliceWalk,
    g: TileGridModel,
    delta_present: bool,
    num: u32,
) -> Read<Seq<VvcPpsRectSliceModel>>
    decreases slices_left(st, num),
{
    if st.i >= num {
        Ok((Seq::empty(), p))
    } else {
        match rect_slice_at(s, p, st, g, delta_present, num) {
            Err(f) => Err(f),
            Ok((e, p)) => {
                let next = walk_next(g, num, st, e);
                if next.i <= st.i {
                    Err(Fault::Invalid)
                } else {
                    match slice_loop_at(s, p, next, g, delta_present, num) {
                        Err(f) => Err(f),
                        Ok((rest, p)) => Ok((seq![e] + rest, p)),
                    }
                }
            },
        }
    }
}

/// Writes the entries of the loop, from the walk `st` on.
pub open spec fn put_slice_loop(
    a: Seq<bool>,
    es: Seq<VvcPpsRectSliceModel>,
    st: SliceWalk,
    g: TileGridModel,
    delta_present: bool,
    num: u32,
) -> Seq<bool>
    decreases es.len(),
{
    if es.len() == 0 {
        a
    } else {
        put_slice_loop(
            put_rect_slice(a, es[0], st, g, delta_present, num),
            es.skip(1),
            walk_next(g, num, st, es[0]),
            g,
            delta_present,
            num,
        )
    }
}

/// Entries that reading can give, from the walk `st` on.
pub open spec fn slice_loop_ok(
    es: Seq<VvcPpsRectSliceModel>,
    st: SliceWalk,
    g: TileGridModel,
    delta_present: bool,
    num: u32,
) -> bool
    decreases es.len(),
{
    if st.i >= num {
        es.len() == 0
    } else {
        &&& es.len() > 0
        &&& rect_slice_ok(es[0], st, g, delta_present, num)
        &&& slice_loop_ok(es.skip(1), walk_next(g, num, st, es[0]), g, delta_present, num)
    }
}

/// Entries that the writer accepts, from the walk `st` on.
pub open spec fn slice_loop_can(
    es: Seq<VvcPpsRectSliceModel>,
    st: SliceWalk,
    g: TileGridModel,
    delta_present: bool,
    num: u32,
) -> bool
    decreases es.len(),
{
    if st.i >= num {
        es.len() == 0
    } else {
        &&& es.len() > 0
        &&& rect_slice_can(es[0], st, g, delta_present, num)
        &&& slice_loop_can(es.skip(1), walk_next(g, num, st, es[0]), g, delta_present, num)
    }
}

/// The rectangular slices at position `p`, none outside the explicit layout.
#[verifier::opaque]
pub open spec fn rect_slices_at(
    s: Seq<bool>,
    p: nat,
    explicit: bool,
    g: TileGridModel,
    delta_present: bool,
    num: u32,
) -> Read<Seq<VvcPpsRectSliceModel>> {
    if explicit {
        slice_loop_at(s, p, walk_start(), g, delta_present, num)
    } else {
        Ok((Seq::empty(), p))
    }
}

/// Writes the rectangular slices.
#[verifier::opaque]
pub open spec fn put_rect_slices(
    a: Seq<bool>,
    es: Seq<VvcPpsRectSliceModel>,
    explicit: bool,
    g: TileGridModel,
    delta_present: bool,
    num: u32,
) -> Seq<bool> {
    if explicit {
        put_slice_loop(a, es, walk_start(), g, delta_present, num)
    } else {
        a
    }
}

/// Rectangular slices that reading can give.
#[verifier::opaque]
pub open spec fn rect_slices_ok(
    es: Seq<VvcPpsRectSliceModel>,
    explicit: bool,
    g: TileGridModel,
    delta_present: bool,
    num: u32,
) -> bool {
    if explicit {
        slice_loop_ok(es, walk_start(), g, delta_present, num)
    } else {
        es.len() == 0
    }
}

/// Rectangular slices that the writer accepts.
#[verifier::opaque]
pub open spec fn rect_slices_can(
    es: Seq<VvcPpsRectSliceModel>,
    explicit: bool,
    g: TileGridModel,
    delta_present: bool,
    num: u32,
) -> bool {
    if explicit {
        slice_loop_can(es, walk_start(), g, delta_present, num)
    } else {
        es.len() == 0
    }
}

/// What holds of the walk while the loop runs.
pub open spec fn walk_wf(st: SliceWalk, g: TileGridModel, num: u32) -> bool {
    &&& grid_wf(g)
    &&& num <= 999
    &&& st.i < num
    &&& st.tile < g.cols * g.rows
}

proof fn lemma_tile_place(g: TileGridModel, tile: nat)
    requires
        grid_wf(g),
        tile < g.cols * g.rows,
    ensures
        tile_x(g, tile) < g.cols,
        tile_y(g, tile) < g.rows,
        1 <= row_height(g, tile) <= 0x0800_0000,
        g.cols * g.rows <= 29700,
{
    assert(tile % (g.cols as nat) < g.cols && tile / (g.cols as nat) < g.rows) by (nonlinear_arith)
        requires
            g.cols >= 1,
            tile < g.cols * g.rows,
    ;
    assert(g.cols * g.rows <= 29700) by (nonlinear_arith)
        requires
            0 <= g.cols <= 30,
            0 <= g.rows <= 990,
    ;
}

proof fn lemma_walk_next(
    g: TileGridModel,
    delta_present: bool,
    num: u32,
    st: SliceWalk,
    e: VvcPpsRectSliceModel,
)
    requires
        walk_wf(st, g, num),
        rect_slice_can(e, st, g, delta_present, num),
    ensures
        st.i < walk_next(g, num, st, e).i <= num + 1,
        walk_next(g, num, st, e).i < num ==> walk_wf(walk_next(g, num, st, e), g, num),
{
    reveal(rect_slice_can);
    lemma_tile_place(g, st.tile);
    if let Some(v) = e.exp_slice_heights_in_ctus_minus1 {
        lemma_tile_slices(v, row_height(g, st.tile));
    }
}

/// Writing an entry that was read gives back the bits that were read.
proof fn law_put_rect_slice_at(
    s: Seq<bool>,
    p: nat,
    st: SliceWalk,
    g: TileGridModel,
    delta_present: bool,
    num: u32,
)
    ensures
        rect_slice_at(s, p, st, g, delta_present, num) matches Ok((e, q)) ==> {
            &&& rect_slice_ok(e, st, g, delta_present, num)
            &&& rect_slice_can(e, st, g, delta_present, num)
            &&& within(s, q) ==> within(s, p) && put_rect_slice(
                upto(s, p),
                e,
                st,
                g,
                delta_present,
                num,
            ) == upto(s, q)
        },
{
    broadcast use {crate::bits::group_write_read, crate::bits::group_write_read_lists};

    reveal(rect_slice_at);
    reveal(exp_heights_at);
    reveal(put_rect_slice);
    reveal(rect_slice_ok);
    reveal(rect_slice_can);
}

/// An entry that was written reads back.
proof fn law_pre_put_rect_slice(
    a: Seq<bool>,
    e: VvcPpsRectSliceModel,
    st: SliceWalk,
    g: TileGridModel,
    delta_present: bool,
    num: u32,
    s: Seq<bool>,
)
    requires
        walk_wf(st, g, num),
        rect_slice_ok(e, st, g, delta_present, num),
        pre(put_rect_slice(a, e, st, g, delta_present, num), s),
    ensures
        pre(a, s),
        rect_slice_at(s, a.len(), st, g, delta_present, num) == Ok::<
            (VvcPpsRectSliceModel, nat),
            Fault,
        >((e, put_rect_slice(a, e, st, g, delta_present, num).len())),
{
    broadcast use {crate::bits::group_read_written, crate::bits::group_read_written_lists};

    reveal(rect_slice_at);
    reveal(exp_heights_at);
    reveal(put_rect_slice);
    reveal(rect_slice_ok);
    reveal(rect_slice_can);
    lemma_tile_place(g, st.tile);
    if let Some(v) = e.exp_slice_heights_in_ctus_minus1 {
        assert(ues_ok(v));
    }
}

proof fn law_put_slice_loop_at(
    s: Seq<bool>,
    p: nat,
    st: SliceWalk,
    g: TileGridModel,
    delta_present: bool,
    num: u32,
)
    ensures
        slice_loop_at(s, p, st, g, delta_present, num) matches Ok((es, q)) ==> {
            &&& slice_loop_ok(es, st, g, delta_present, num)
            &&& slice_loop_can(es, st, g, delta_present, num)
            &&& within(s, q) ==> within(s, p) && put_slice_loop(
                upto(s, p),
                es,
                st,
                g,
                delta_present,
                num,
            ) == upto(s, q)
        },
    decreases slices_left(st, num),
{
    if st.i < num {
        law_put_rect_slice_at(s, p, st, g, delta_present, num);
        if let Ok((e, q)) = rect_slice_at(s, p, st, g, delta_present, num) {
            let next = walk_next(g, num, st, e);
            if next.i > st.i {
                law_put_slice_loop_at(s, q, next, g, delta_present, num);
                if let Ok((rest, r)) = slice_loop_at(s, q, next, g, delta_present, num) {
                    assert((seq![e] + rest).skip(1) =~= rest);
                }
            }
        }
    }
}

proof fn law_pre_put_slice_loop(
    a: Seq<bool>,
    es: Seq<VvcPpsRectSliceModel>,
    st: SliceWalk,
    g: TileGridModel,
    delta_present: bool,
    num: u32,
    s: Seq<bool>,
)
    requires
        st.i < num ==> walk_wf(st, g, num),
        slice_loop_ok(es, st, g, delta_present, num),
        pre(put_slice_loop(a, es, st, g, delta_present, num), s),
    ensures
        pre(a, s),
        slice_loop_can(es, st, g, delta_present, num),
        slice_loop_at(s, a.len(), st, g, delta_present, num) == Ok::<
            (Seq<VvcPpsRectSliceModel>, nat),
            Fault,
        >((es, put_slice_loop(a, es, st, g, delta_present, num).len())),
    decreases es.len(),
{
    if es.len() > 0 {
        let e = es[0];
        let rest = es.skip(1);
        let next = walk_next(g, num, st, e);
        assert(rect_slice_can(e, st, g, delta_present, num)) by {
            reveal(rect_slice_ok);
        }
        lemma_walk_next(g, delta_present, num, st, e);
        let b = put_rect_slice(a, e, st, g, delta_present, num);
        law_pre_put_slice_loop(b, rest, next, g, delta_present, num, s);
        law_pre_put_rect_slice(a, e, st, g, delta_present, num, s);
        assert(seq![e] + rest =~= es);
    } else {
        assert(es =~= Seq::empty());
    }
}

/// Writing what was read gives back the bits that were read.
pub broadcast proof fn law_put_rect_slices_at(
    s: Seq<bool>,
    p: nat,
    explicit: bool,
    g: TileGridModel,
    delta_present: bool,
    num: u32,
)
    ensures
        #[trigger] rect_slices_at(s, p, explicit, g, delta_present, num) matches Ok((es, q)) ==> {
            &&& rect_slices_ok(es, explicit, g, delta_present, num)
            &&& rect_slices_can(es, explicit, g, delta_present, num)
            &&& within(s, q) ==> within(s, p) && put_rect_slices(
                upto(s, p),
                es,
                explicit,
                g,
                delta_present,
                num,
            ) == upto(s, q)
        },
{
    reveal(rect_slices_at);
    reveal(put_rect_slices);
    reveal(rect_slices_ok);
    reveal(rect_slices_can);
    law_put_slice_loop_at(s, p, walk_start(), g, delta_present, num);
}

/// What was written reads back as the slices that were written.
pub broadcast proof fn law_pre_put_rect_slices(
    a: Seq<bool>,
    es: Seq<VvcPpsRectSliceModel>,
    explicit: bool,
    g: TileGridModel,
    delta_present: bool,
    num: u32,
    s: Seq<bool>,
)
    requires
        #[trigger] pre(put_rect_slices(a, es, explicit, g, delta_present, num), s),
        rect_slices_ok(es, explicit, g, delta_present, num),
        explicit ==> grid_wf(g) && num <= 999,
    ensures
        pre(a, s),
        rect_slices_can(es, explicit, g, delta_present, num),
        rect_slices_at(s, a.len(), explicit, g, delta_present, num) == Ok::<
            (Seq<VvcPpsRectSliceModel>, nat),
            Fault,
        >((es, put_rect_slices(a, es, explicit, g, delta_present, num).len())),
{
    reveal(rect_slices_at);
    reveal(put_rect_slices);
    reveal(rect_slices_ok);
    reveal(rect_slices_can);
    if explicit {
        assert(g.cols * g.rows >= 1) by (nonlinear_arith)
            requires
                g.cols >= 1,
                g.rows >= 1,
        ;
        law_pre_put_slice_loop(a, es, walk_start(), g, delta_present, num, s);
    } else {
        assert(es =~= Seq::empty());
    }
}

/// Parses one entry of the loop.
fn parse_rect_slice(
    r: &mut BitReader<'_>,
    i: u32,
    tile_idx: u64,
    prev_height: u32,
    grid: &TileGrid,
    delta_present: bool,
    num: u32,
) -> (res: Result<VvcPpsRectSlice, BitstreamError>)
    requires
        walk_wf(SliceWalk { i: i as nat, tile: tile_idx as nat, prev_height }, grid@, num),
    ensures
        read_view_is(
            rect_slice_at(
                old(r).bits(),
                old(r).pos(),
                SliceWalk { i: i as nat, tile: tile_idx as nat, prev_height },
                grid@,
                delta_present,
                num,
            ),
            res,
            *old(r),
            *final(r),
        ),
{
    let ghost st = SliceWalk { i: i as nat, tile: tile_idx as nat, prev_height };
    let ghost g = grid@;
    proof {
        reveal(rect_slice_at);
        lemma_tile_place(g, st.tile);
    }
    let x: u64 = tile_idx % grid.cols;
    let y: u64 = tile_idx / grid.cols;
    let w: u32 = r.ue_if(x != grid.cols - 1, 0)?;
    if w as u64 >= grid.cols - x {
        return Err(
            BitstreamError::invalid(
                "pps_slice_width_in_tiles_minus1 overruns the tile grid (7.4.3.5)",
            ),
        );
    }
    let inferred: u32 = if y == grid.rows - 1 {
        0
    } else {
        prev_height
    };
    let h: u32 = r.ue_if(y != grid.rows - 1 && (delta_present || x == 0), inferred)?;
    if h as u64 >= grid.rows - y {
        return Err(
            BitstreamError::invalid(
                "pps_slice_height_in_tiles_minus1 overruns the tile grid (7.4.3.5)",
            ),
        );
    }
    let row_h: u64 = grid.row_heights[y as usize];
    let exp_block: bool = w == 0 && h == 0 && row_h > 1;
    let (exp, n) = parse_exp_heights(r, exp_block, i, row_h, num, Ghost(g), Ghost(st))?;
    let last: u64 = i as u64 + n - 1;
    let mut delta_val: Option<i32> = None;
    if delta_present && last < num as u64 {
        let delta: i32 = r.se()?;
        if !apply_delta(grid, tile_idx, delta) {
            return Err(
                delta_error(grid, tile_idx, delta),
            );
        }
        delta_val = Some(delta);
    } else if last < num as u64 && advance(grid, tile_idx, w, h) >= grid.cols * grid.rows {
        return Err(
            BitstreamError::invalid("rectangular-slice walk runs off the tile grid (6.5.1)"),
        );
    }
    Ok(
        VvcPpsRectSlice {
            pps_slice_width_in_tiles_minus1: w,
            pps_slice_height_in_tiles_minus1: h,
            exp_slice_heights_in_ctus_minus1: exp,
            pps_tile_idx_delta_val: delta_val,
        },
    )
}

/// Parses the explicit slice heights of a tile, and counts its slices.
fn parse_exp_heights(
    r: &mut BitReader<'_>,
    coded: bool,
    i: u32,
    row_h: u64,
    num: u32,
    Ghost(g): Ghost<TileGridModel>,
    Ghost(st): Ghost<SliceWalk>,
) -> (res: Result<(Option<Vec<u32>>, u64), BitstreamError>)
    requires
        walk_wf(st, g, num),
        st.i == i,
        row_h == row_height(g, st.tile),
        row_h <= 0x0800_0000,
    ensures
        final(r).bits() == old(r).bits(),
        final(r).bytes() == old(r).bytes(),
        match exp_heights_at(old(r).bits(), old(r).pos(), coded, g, st, num) {
            Ok((exp, p)) => res matches Ok((v, n)) && opt_view(v) == exp && final(r).pos() == p
                && i + n - 1 == last_slice(g, st, exp) && 1 <= n <= 0x1000_0001,
            Err(f) => res matches Err(e) && e.fault() == f,
        },
{
    proof {
        reveal(exp_heights_at);
    }
    if !coded {
        return Ok((None, 1));
    }
    let num_exp: u32 = r.ue()?;
    if num_exp as u64 >= row_h {
        return Err(
            BitstreamError::invalid("pps_num_exp_slices_in_tile >= RowHeightVal (7.4.3.5)"),
        );
    }
    let exp: Vec<u32> = r.read_ues(num_exp as u64)?;
    let n: u64 = check_exp_heights(&exp, i, row_h, num, Ghost(g), Ghost(st))?;
    Ok((Some(exp), n))
}

/// Checks the explicit slice heights of a tile, and counts its slices.
fn check_exp_heights(
    exp: &Vec<u32>,
    i: u32,
    row_h: u64,
    num: u32,
    Ghost(g): Ghost<TileGridModel>,
    Ghost(st): Ghost<SliceWalk>,
) -> (res: Result<u64, BitstreamError>)
    requires
        st.i == i,
        i < num,
        row_h == row_height(g, st.tile),
        row_h <= 0x0800_0000,
    ensures
        match res {
            Ok(n) => exp_ok(g, st, num, exp@) && n == tile_slices(exp@, row_h as nat) && 1 <= n
                <= 0x1000_0001,
            Err(e) => e.fault() == Fault::Invalid && !exp_ok(g, st, num, exp@),
        },
{
    if exp.len() as u64 >= row_h {
        return Err(
            BitstreamError::invalid("pps_num_exp_slices_in_tile >= RowHeightVal (7.4.3.5)"),
        );
    }
    let mut k: usize = 0;
    while k < exp.len()
        invariant
            k <= exp@.len(),
            row_h == row_height(g, st.tile),
            forall|j: int| 0 <= j < k ==> #[trigger] exp@[j] < row_height(g, st.tile),
        decreases exp@.len() - k,
    {
        if exp[k] as u64 >= row_h {
            assert(!(exp@[k as int] < row_height(g, st.tile)));
            return Err(
                BitstreamError::invalid(
                    "pps_exp_slice_height_in_ctus_minus1 >= RowHeightVal (7.4.3.5)",
                ),
            );
        }
        k = k + 1;
    }
    let n: u64 = num_slices_in_tile(exp, row_h)?;
    if i as u64 + n - 1 > num as u64 {
        return Err(
            BitstreamError::invalid(
                "tile splits into more slices than pps_num_slices_in_pic_minus1 allows (6.5.1)",
            ),
        );
    }
    Ok(n)
}

/// Whether a coded `pps_tile_idx_delta_val[i]` leads to another tile of the
/// picture (§7.4.3.5).
fn apply_delta(grid: &TileGrid, tile_idx: u64, delta: i32) -> (b: bool)
    requires
        grid_wf(grid@),
        tile_idx < grid@.cols * grid@.rows,
    ensures
        b == delta_ok(grid@, tile_idx as nat, delta),
{
    proof {
        lemma_tile_place(grid@, tile_idx as nat);
    }
    let tiles: i64 = (grid.cols * grid.rows) as i64;
    let t: i64 = tile_idx as i64 + delta as i64;
    delta != 0 && -tiles < delta as i64 && (delta as i64) < tiles && 0 <= t && t < tiles
}

/// What is wrong with a `pps_tile_idx_delta_val[i]` that [`apply_delta`] refuses.
fn delta_error(grid: &TileGrid, tile_idx: u64, delta: i32) -> (e: BitstreamError)
    requires
        grid_wf(grid@),
        tile_idx < grid@.cols * grid@.rows,
    ensures
        e.fault() == Fault::Invalid,
{
    proof {
        lemma_tile_place(grid@, tile_idx as nat);
    }
    let tiles: i64 = (grid.cols * grid.rows) as i64;
    if delta == 0 || delta as i64 <= -tiles || delta as i64 >= tiles {
        Message::new("pps_tile_idx_delta_val = ")
            .num(delta as i128)
            .with(" outside ±(NumTilesInPic − 1) or zero (7.4.3.5)")
            .invalid()
    } else {
        BitstreamError::invalid("pps_tile_idx_delta_val walks outside the picture's tiles (6.5.1)")
    }
}

/// The default (`!pps_tile_idx_delta_present_flag`) §6.5.1 tile advance.
fn advance(grid: &TileGrid, tile_idx: u64, w: u32, h: u32) -> (t: u64)
    requires
        grid_wf(grid@),
        tile_idx < grid@.cols * grid@.rows,
        w < 30,
        h < 990,
    ensures
        t == default_advance(grid@, tile_idx as nat, w, h),
{
    proof {
        lemma_tile_place(grid@, tile_idx as nat);
        assert(h * grid.cols <= 29700) by (nonlinear_arith)
            requires
                0 <= h <= 990,
                0 <= grid.cols <= 30,
        ;
    }
    let t: u64 = tile_idx + w as u64 + 1;
    if t % grid.cols == 0 {
        t + h as u64 * grid.cols
    } else {
        t
    }
}

proof fn lemma_slice_loop_step(
    s: Seq<bool>,
    p0: nat,
    p: nat,
    done: Seq<VvcPpsRectSliceModel>,
    st: SliceWalk,
    g: TileGridModel,
    delta_present: bool,
    num: u32,
)
    requires
        st.i < num,
        loop_split(s, p0, p, done, st, g, delta_present, num),
        rect_slice_at(s, p, st, g, delta_present, num) matches Ok((e, _)) ==> walk_next(
            g,
            num,
            st,
            e,
        ).i > st.i,
    ensures
        match rect_slice_at(s, p, st, g, delta_present, num) {
            Ok((e, q)) => loop_split(
                s,
                p0,
                q,
                done.push(e),
                walk_next(g, num, st, e),
                g,
                delta_present,
                num,
            ),
            Err(f) => slice_loop_at(s, p0, walk_start(), g, delta_present, num) == Err::<
                (Seq<VvcPpsRectSliceModel>, nat),
                Fault,
            >(f),
        },
{
    if let Ok((e, q)) = rect_slice_at(s, p, st, g, delta_present, num) {
        if let Ok((rest, _)) = slice_loop_at(s, q, walk_next(g, num, st, e), g, delta_present, num) {
            assert(done + (seq![e] + rest) =~= done.push(e) + rest);
        }
    }
}

/// The whole loop from `p0` is the entries `done`, and then the loop from `p`
/// with the walk `st`.
pub open spec fn loop_split(
    s: Seq<bool>,
    p0: nat,
    p: nat,
    done: Seq<VvcPpsRectSliceModel>,
    st: SliceWalk,
    g: TileGridModel,
    delta_present: bool,
    num: u32,
) -> bool {
    slice_loop_at(s, p0, walk_start(), g, delta_present, num) == match slice_loop_at(
        s,
        p,
        st,
        g,
        delta_present,
        num,
    ) {
        Ok((rest, q)) => Ok((done + rest, q)),
        Err(f) => Err(f),
    }
}

/// Parses the rectangular slices.
fn parse_rect_slices(
    r: &mut BitReader<'_>,
    explicit: bool,
    grid: &TileGrid,
    delta_present: bool,
    num: u32,
) -> (res: Result<Vec<VvcPpsRectSlice>, BitstreamError>)
    requires
        grid_wf(grid@),
        num <= 999,
    ensures
        read_seq_is(
            rect_slices_at(old(r).bits(), old(r).pos(), explicit, grid@, delta_present, num),
            res,
            *old(r),
            *final(r),
        ),
{
    let ghost s = r.bits();
    let ghost p0 = r.pos();
    let ghost g = grid@;
    let mut es: Vec<VvcPpsRectSlice> = Vec::new();
    let mut i: u32 = 0;
    let mut tile_idx: u64 = 0;
    let mut prev_height: u32 = 0;
    proof {
        reveal(rect_slices_at);
        assert(seq_view(es@) =~= Seq::empty());
        assert(g.cols * g.rows >= 1) by (nonlinear_arith)
            requires
                g.cols >= 1,
                g.rows >= 1,
        ;
        if let Ok((rest, q)) = slice_loop_at(s, p0, walk_start(), g, delta_present, num) {
            assert(Seq::<VvcPpsRectSliceModel>::empty() + rest =~= rest);
        }
    }
    if !explicit {
        return Ok(es);
    }
    while i < num
        invariant
            explicit,
            g == grid@,
            grid_wf(g),
            num <= 999,
            i <= num + 1,
            tile_idx < g.cols * g.rows,
            s == r.bits(),
            s == old(r).bits(),
            p0 == old(r).pos(),
            r.bytes() == old(r).bytes(),
            loop_split(
                s,
                p0,
                r.pos(),
                seq_view(es@),
                SliceWalk { i: i as nat, tile: tile_idx as nat, prev_height },
                g,
                delta_present,
                num,
            ),
        decreases num + 1 - i,
    {
        let ghost st = SliceWalk { i: i as nat, tile: tile_idx as nat, prev_height };
        let ghost p = r.pos();
        proof {
            law_put_rect_slice_at(s, p, st, g, delta_present, num);
            if let Ok((m, _)) = rect_slice_at(s, p, st, g, delta_present, num) {
                lemma_walk_next(g, delta_present, num, st, m);
            }
            lemma_slice_loop_step(s, p0, p, seq_view(es@), st, g, delta_present, num);
        }
        match parse_rect_slice(r, i, tile_idx, prev_height, grid, delta_present, num) {
            Ok(e) => {
                let ghost m = e@;
                proof {
                    reveal(rect_slice_can);
                    lemma_tile_place(g, st.tile);
                    lemma_seq_view_push(es@, e);
                }
                let (next_i, next_tile) = step(&e, i, tile_idx, grid, delta_present, num, Ghost(st));
                prev_height = e.pps_slice_height_in_tiles_minus1;
                i = next_i;
                tile_idx = next_tile;
                es.push(e);
            },
            Err(e) => {
                proof {
                    reveal(rect_slices_at);
                }
                return Err(e);
            },
        }
    }
    proof {
        assert(seq_view(es@) + Seq::empty() =~= seq_view(es@));
    }
    Ok(es)
}

/// The index and the tile of the slice behind an entry.
fn step(
    e: &VvcPpsRectSlice,
    i: u32,
    tile_idx: u64,
    grid: &TileGrid,
    delta_present: bool,
    num: u32,
    Ghost(st): Ghost<SliceWalk>,
) -> (next: (u32, u64))
    requires
        walk_wf(st, grid@, num),
        st.i == i,
        st.tile == tile_idx,
        rect_slice_can(e@, st, grid@, delta_present, num),
    ensures
        next.0 == walk_next(grid@, num, st, e@).i,
        next.1 == walk_next(grid@, num, st, e@).tile,
        i < next.0 <= num + 1,
        next.1 < grid@.cols * grid@.rows,
{
    proof {
        reveal(rect_slice_can);
        lemma_tile_place(grid@, st.tile);
    }
    let mut last: u32 = i;
    if let Some(exp) = &e.exp_slice_heights_in_ctus_minus1 {
        let y: u64 = tile_idx / grid.cols;
        match num_slices_in_tile(exp, grid.row_heights[y as usize]) {
            Ok(n) => {
                last = (i as u64 + n - 1) as u32;
            },
            Err(_) => {},
        }
    }
    if last < num {
        let t: u64 = match e.pps_tile_idx_delta_val {
            Some(delta) => (tile_idx as i64 + delta as i64) as u64,
            None => advance(
                grid,
                tile_idx,
                e.pps_slice_width_in_tiles_minus1,
                e.pps_slice_height_in_tiles_minus1,
            ),
        };
        (last + 1, t)
    } else {
        (last + 1, tile_idx)
    }
}

/// Emits one entry of the loop.
fn write_rect_slice(
    bw: &mut BitWriter,
    e: &VvcPpsRectSlice,
    i: u32,
    tile_idx: u64,
    grid: &TileGrid,
    delta_present: bool,
    num: u32,
    Ghost(st): Ghost<SliceWalk>,
) -> (res: Result<(), BitstreamError>)
    requires
        walk_wf(st, grid@, num),
        st.i == i,
        st.tile == tile_idx,
    ensures
        write_is(
            rect_slice_can(e@, st, grid@, delta_present, num),
            put_rect_slice(old(bw)@, e@, st, grid@, delta_present, num),
            res,
            final(bw)@,
        ),
{
    let ghost g = grid@;
    proof {
        reveal(put_rect_slice);
        reveal(rect_slice_can);
        lemma_tile_place(g, st.tile);
    }
    let x: u64 = tile_idx % grid.cols;
    let y: u64 = tile_idx / grid.cols;
    let w: u32 = e.pps_slice_width_in_tiles_minus1;
    let h: u32 = e.pps_slice_height_in_tiles_minus1;
    if w as u64 >= grid.cols - x || h as u64 >= grid.rows - y {
        return Err(BitstreamError::invalid("rect slice overruns the tile grid (7.4.3.5)"));
    }
    bw.write_ue_if(w, x != grid.cols - 1)?;
    bw.write_ue_if(h, y != grid.rows - 1 && (delta_present || x == 0))?;
    let row_h: u64 = grid.row_heights[y as usize];
    let exp_block: bool = w == 0 && h == 0 && row_h > 1;
    if e.exp_slice_heights_in_ctus_minus1.is_some() != exp_block {
        return Err(
            BitstreamError::invalid(
                "exp_slice_heights_in_ctus_minus1 presence contradicts the one-tile-slice condition (7.3.2.5)",
            ),
        );
    }
    let mut last: u64 = i as u64;
    if let Some(exp) = &e.exp_slice_heights_in_ctus_minus1 {
        let n: u64 = check_exp_heights(exp, i, row_h, num, Ghost(g), Ghost(st))?;
        assert(ues_ok(exp@));
        bw.write_ue(exp.len() as u32)?;
        bw.write_ues(exp.as_slice())?;
        last = i as u64 + n - 1;
    }
    if e.pps_tile_idx_delta_val.is_some() != (delta_present && last < num as u64) {
        return Err(
            if delta_present && e.pps_tile_idx_delta_val.is_some() {
                BitstreamError::invalid("pps_tile_idx_delta_val present on the final coded slice (7.3.2.5)")
            } else {
                BitstreamError::invalid(
                    "pps_tile_idx_delta_val presence contradicts pps_tile_idx_delta_present_flag (7.3.2.5)",
                )
            },
        );
    }
    if let Some(delta) = e.pps_tile_idx_delta_val {
        if !apply_delta(grid, tile_idx, delta) {
            return Err(
                delta_error(grid, tile_idx, delta),
            );
        }
        bw.write_se(delta)?;
    } else if last < num as u64 && advance(grid, tile_idx, w, h) >= grid.cols * grid.rows {
        return Err(
            BitstreamError::invalid("rectangular-slice walk runs off the tile grid (6.5.1)"),
        );
    }
    Ok(())
}

/// Emits the rectangular slices.
fn write_rect_slices(
    bw: &mut BitWriter,
    es: &Vec<VvcPpsRectSlice>,
    explicit: bool,
    grid: &TileGrid,
    delta_present: bool,
    num: u32,
) -> (res: Result<(), BitstreamError>)
    requires
        grid_wf(grid@),
        explicit ==> num <= 999,
    ensures
        write_is(
            rect_slices_can(seq_view(es@), explicit, grid@, delta_present, num),
            put_rect_slices(old(bw)@, seq_view(es@), explicit, grid@, delta_present, num),
            res,
            final(bw)@,
        ),
{
    let ghost g = grid@;
    let ghost ms = seq_view(es@);
    proof {
        reveal(put_rect_slices);
        reveal(rect_slices_can);
        assert(ms.skip(0) =~= ms);
        assert(g.cols * g.rows >= 1) by (nonlinear_arith)
            requires
                g.cols >= 1,
                g.rows >= 1,
        ;
    }
    if !explicit {
        if es.len() != 0 {
            return Err(
                BitstreamError::invalid(
                    "rect_slices must be empty outside the explicit rectangular-slice layout",
                ),
            );
        }
        return Ok(());
    }
    let mut i: u32 = 0;
    let mut tile_idx: u64 = 0;
    let mut k: usize = 0;
    let ghost mut st = walk_start();
    while i < num
        invariant
            explicit,
            g == grid@,
            grid_wf(g),
            num <= 999,
            i <= num + 1,
            tile_idx < g.cols * g.rows,
            ms == seq_view(es@),
            k <= ms.len(),
            st.i == i,
            st.tile == tile_idx,
            put_slice_loop(bw@, ms.skip(k as int), st, g, delta_present, num) == put_slice_loop(
                old(bw)@,
                ms,
                walk_start(),
                g,
                delta_present,
                num,
            ),
            slice_loop_can(ms.skip(k as int), st, g, delta_present, num) == slice_loop_can(
                ms,
                walk_start(),
                g,
                delta_present,
                num,
            ),
        decreases num + 1 - i,
    {
        proof {
            reveal(rect_slices_can);
        }
        if k >= es.len() {
            return Err(
                BitstreamError::invalid(
                    "rect_slices has fewer entries than the slice-loop walk requires",
                ),
            );
        }
        let e: &VvcPpsRectSlice = &es[k];
        proof {
            assert(ms.skip(k as int)[0] == e@);
            assert(ms.skip(k as int).skip(1) =~= ms.skip(k + 1));
        }
        match write_rect_slice(bw, e, i, tile_idx, grid, delta_present, num, Ghost(st)) {
            Ok(()) => {},
            Err(err) => {
                return Err(err);
            },
        }
        let (next_i, next_tile) = step(e, i, tile_idx, grid, delta_present, num, Ghost(st));
        proof {
            st = walk_next(g, num, st, e@);
        }
        i = next_i;
        tile_idx = next_tile;
        k = k + 1;
    }
    if k < es.len() {
        return Err(
            BitstreamError::invalid(
                "rect_slices has more entries than the slice-loop walk consumes",
            ),
        );
    }
    proof {
        reveal(put_rect_slices);
        reveal(rect_slices_can);
    }
    Ok(())
}

/// The mathematical model of a [`VvcPpsPartition`].
pub struct VvcPpsPartitionModel {
    pub pps_log2_ctu_size_minus5: u8,
    pub pps_tile_column_widths_minus1: Seq<u32>,
    pub pps_tile_row_heights_minus1: Seq<u32>,
    pub pps_loop_filter_across_tiles_enabled_flag: u8,
    pub pps_rect_slice_flag: u8,
    pub pps_single_slice_per_subpic_flag: u8,
    pub pps_num_slices_in_pic_minus1: u32,
    pub pps_tile_idx_delta_present_flag: u8,
    pub rect_slices: Seq<VvcPpsRectSliceModel>,
    pub pps_loop_filter_across_slices_enabled_flag: u8,
}

impl View for VvcPpsPartition {
    type V = VvcPpsPartitionModel;

    open spec fn view(&self) -> VvcPpsPartitionModel {
        VvcPpsPartitionModel {
            pps_log2_ctu_size_minus5: self.pps_log2_ctu_size_minus5,
            pps_tile_column_widths_minus1: self.pps_tile_column_widths_minus1@,
            pps_tile_row_heights_minus1: self.pps_tile_row_heights_minus1@,
            pps_loop_filter_across_tiles_enabled_flag: self.pps_loop_filter_across_tiles_enabled_flag,
            pps_rect_slice_flag: self.pps_rect_slice_flag,
            pps_single_slice_per_subpic_flag: self.pps_single_slice_per_subpic_flag,
            pps_num_slices_in_pic_minus1: self.pps_num_slices_in_pic_minus1,
            pps_tile_idx_delta_present_flag: self.pps_tile_idx_delta_present_flag,
            rect_slices: seq_view(self.rect_slices@),
            pps_loop_filter_across_slices_enabled_flag: self.pps_loop_filter_across_slices_enabled_flag,
        }
    }
}

/// The tile/slice partition block at position `p`.
#[verifier::opaque]
pub open spec fn pps_partition_at(
    s: Seq<bool>,
    p: nat,
    width: u32,
    height: u32,
) -> Read<VvcPpsPartitionModel> {
    let pps_log2_ctu_size_minus5 = u8_at(s, p, 2);
    let p = adv(p, 2);
    if pps_log2_ctu_size_minus5 > 2 { Err(Fault::Invalid) } else {
    let w_ctbs = ctbs(width, pps_log2_ctu_size_minus5) as u64;
    let h_ctbs = ctbs(height, pps_log2_ctu_size_minus5) as u64;
    match ue_at(s, p) { Err(f) => Err(f), Ok((num_exp_cols, p)) => {
    match ue_at(s, p) { Err(f) => Err(f), Ok((num_exp_rows, p)) => {
    if !(num_exp_cols < 30 && num_exp_rows < 990) { Err(Fault::Invalid) } else {
    match ues_at(s, p, (num_exp_cols as u64 + 1) as nat)
    { Err(f) => Err(f), Ok((pps_tile_column_widths_minus1, p)) => {
    match ues_at(s, p, (num_exp_rows as u64 + 1) as nat)
    { Err(f) => Err(f), Ok((pps_tile_row_heights_minus1, p)) => {
    if !(grid_ok(pps_tile_column_widths_minus1, pps_tile_row_heights_minus1, w_ctbs as nat, h_ctbs as nat)) {
        Err(Fault::Invalid)
    } else {
    let grid = grid_of(
        pps_tile_column_widths_minus1,
        pps_tile_row_heights_minus1,
        w_ctbs as nat,
        h_ctbs as nat,
    );
    let tiled = grid.cols > 1 || grid.rows > 1;
    let pps_loop_filter_across_tiles_enabled_flag = u8_if(s, p, 1, tiled, 0);
    let p = adv_if(p, 1, tiled);
    let pps_rect_slice_flag = u8_if(s, p, 1, tiled, 1);
    let p = adv_if(p, 1, tiled);
    let pps_single_slice_per_subpic_flag = u8_if(s, p, 1, pps_rect_slice_flag != 0, 0);
    let p = adv_if(p, 1, pps_rect_slice_flag != 0);
    let explicit = pps_rect_slice_flag != 0 && pps_single_slice_per_subpic_flag == 0;
    match ue_if(s, p, explicit, 0) { Err(f) => Err(f), Ok((pps_num_slices_in_pic_minus1, p)) => {
    if pps_num_slices_in_pic_minus1 > PPS_NUM_SLICES_IN_PIC_MINUS1_MAX { Err(Fault::Invalid) } else {
    let pps_tile_idx_delta_present_flag = u8_if(s, p, 1, explicit && pps_num_slices_in_pic_minus1 > 1, 0);
    let p = adv_if(p, 1, explicit && pps_num_slices_in_pic_minus1 > 1);
    match rect_slices_at(
        s,
        p,
        explicit,
        grid,
        pps_tile_idx_delta_present_flag != 0,
        pps_num_slices_in_pic_minus1,
    )
    { Err(f) => Err(f), Ok((rect_slices, p)) => {
    let pps_loop_filter_across_slices_enabled_flag = u8_if(
        s,
        p,
        1,
        pps_rect_slice_flag == 0 || pps_single_slice_per_subpic_flag != 0 || pps_num_slices_in_pic_minus1 > 0,
        0,
    );
    let p = adv_if(
        p,
        1,
        pps_rect_slice_flag == 0 || pps_single_slice_per_subpic_flag != 0 || pps_num_slices_in_pic_minus1 > 0,
    );
    Ok((
        VvcPpsPartitionModel {
            pps_log2_ctu_size_minus5,
            pps_tile_column_widths_minus1,
            pps_tile_row_heights_minus1,
            pps_loop_filter_across_tiles_enabled_flag,
            pps_rect_slice_flag,
            pps_single_slice_per_subpic_flag,
            pps_num_slices_in_pic_minus1,
            pps_tile_idx_delta_present_flag,
            rect_slices,
            pps_loop_filter_across_slices_enabled_flag,
        },
        p,
    ))
    }}}}}}}}}}}}}}}}
}

/// The bits `a` followed by the tile/slice partition block.
#[verifier::opaque]
pub open spec fn put_pps_partition(
    a: Seq<bool>,
    x: VvcPpsPartitionModel,
    width: u32,
    height: u32,
) -> Seq<bool> {
    let a = put_u(a, x.pps_log2_ctu_size_minus5 as nat, 2);
    let w_ctbs = ctbs(width, x.pps_log2_ctu_size_minus5) as u64;
    let h_ctbs = ctbs(height, x.pps_log2_ctu_size_minus5) as u64;
    let num_exp_cols = (x.pps_tile_column_widths_minus1.len() - 1) as u32;
    let a = put_ue(a, num_exp_cols as nat);
    let num_exp_rows = (x.pps_tile_row_heights_minus1.len() - 1) as u32;
    let a = put_ue(a, num_exp_rows as nat);
    let a = put_ues(a, x.pps_tile_column_widths_minus1);
    let a = put_ues(a, x.pps_tile_row_heights_minus1);
    let grid = grid_of(
        x.pps_tile_column_widths_minus1,
        x.pps_tile_row_heights_minus1,
        w_ctbs as nat,
        h_ctbs as nat,
    );
    let tiled = grid.cols > 1 || grid.rows > 1;
    let a = put_bit_if(a, x.pps_loop_filter_across_tiles_enabled_flag as nat, tiled);
    let a = put_bit_if(a, x.pps_rect_slice_flag as nat, tiled);
    let a = put_bit_if(a, x.pps_single_slice_per_subpic_flag as nat, x.pps_rect_slice_flag != 0);
    let explicit = x.pps_rect_slice_flag != 0 && x.pps_single_slice_per_subpic_flag == 0;
    let a = put_ue_if(a, x.pps_num_slices_in_pic_minus1 as nat, explicit);
    let a = put_bit_if(
        a,
        x.pps_tile_idx_delta_present_flag as nat,
        explicit && x.pps_num_slices_in_pic_minus1 > 1,
    );
    let a = put_rect_slices(
        a,
        x.rect_slices,
        explicit,
        grid,
        x.pps_tile_idx_delta_present_flag != 0,
        x.pps_num_slices_in_pic_minus1,
    );
    let a = put_bit_if(
        a,
        x.pps_loop_filter_across_slices_enabled_flag as nat,
        x.pps_rect_slice_flag == 0
            || x.pps_single_slice_per_subpic_flag != 0
            || x.pps_num_slices_in_pic_minus1 > 0,
    );
    a
}

/// The values of the tile/slice partition block that reading can give.
#[verifier::opaque]
pub open spec fn pps_partition_ok(x: VvcPpsPartitionModel, width: u32, height: u32) -> bool {
    &&& fits(x.pps_log2_ctu_size_minus5 as nat, 2)
    &&& x.pps_log2_ctu_size_minus5 <= 2
    &&& {
        let w_ctbs = ctbs(width, x.pps_log2_ctu_size_minus5) as u64;
        let h_ctbs = ctbs(height, x.pps_log2_ctu_size_minus5) as u64;
        &&& x.pps_tile_column_widths_minus1.len() >= 1
            && x.pps_tile_column_widths_minus1.len() <= 30
            && x.pps_tile_row_heights_minus1.len() >= 1
            && x.pps_tile_row_heights_minus1.len() <= 990
        &&& {
            let num_exp_cols = (x.pps_tile_column_widths_minus1.len() - 1) as u32;
            &&& ue_fits(num_exp_cols as nat)
            &&& {
                let num_exp_rows = (x.pps_tile_row_heights_minus1.len() - 1) as u32;
                &&& ue_fits(num_exp_rows as nat)
                &&& num_exp_cols < 30 && num_exp_rows < 990
                &&& x.pps_tile_column_widths_minus1.len() == num_exp_cols as u64 + 1
                &&& ues_ok(x.pps_tile_column_widths_minus1)
                &&& x.pps_tile_row_heights_minus1.len() == num_exp_rows as u64 + 1
                &&& ues_ok(x.pps_tile_row_heights_minus1)
                &&& grid_ok(
                    x.pps_tile_column_widths_minus1,
                    x.pps_tile_row_heights_minus1,
                    w_ctbs as nat,
                    h_ctbs as nat,
                )
                &&& {
                    let grid = grid_of(
                        x.pps_tile_column_widths_minus1,
                        x.pps_tile_row_heights_minus1,
                        w_ctbs as nat,
                        h_ctbs as nat,
                    );
                    let tiled = grid.cols > 1 || grid.rows > 1;
                    &&& if tiled {
                        fits(x.pps_loop_filter_across_tiles_enabled_flag as nat, 1)
                    } else {
                        x.pps_loop_filter_across_tiles_enabled_flag == 0
                    }
                    &&& if tiled { fits(x.pps_rect_slice_flag as nat, 1) } else { x.pps_rect_slice_flag == 1 }
                    &&& if x.pps_rect_slice_flag != 0 {
                        fits(x.pps_single_slice_per_subpic_flag as nat, 1)
                    } else {
                        x.pps_single_slice_per_subpic_flag == 0
                    }
                    &&& {
                        let explicit = x.pps_rect_slice_flag != 0 && x.pps_single_slice_per_subpic_flag == 0;
                        &&& !explicit || x.pps_num_slices_in_pic_minus1 <= PPS_NUM_SLICES_IN_PIC_MINUS1_MAX
                        &&& if explicit {
                            ue_fits(x.pps_num_slices_in_pic_minus1 as nat)
                        } else {
                            x.pps_num_slices_in_pic_minus1 == 0
                        }
                        &&& x.pps_num_slices_in_pic_minus1 <= PPS_NUM_SLICES_IN_PIC_MINUS1_MAX
                        &&& if explicit
                            && x.pps_num_slices_in_pic_minus1 > 1 {
                                fits(x.pps_tile_idx_delta_present_flag as nat, 1)
                            } else {
                                x.pps_tile_idx_delta_present_flag == 0
                            }
                        &&& rect_slices_ok(
                            x.rect_slices,
                            explicit,
                            grid,
                            x.pps_tile_idx_delta_present_flag != 0,
                            x.pps_num_slices_in_pic_minus1,
                        )
                        &&& if x.pps_rect_slice_flag == 0
                            || x.pps_single_slice_per_subpic_flag != 0
                            || x.pps_num_slices_in_pic_minus1 > 0 {
                                fits(x.pps_loop_filter_across_slices_enabled_flag as nat, 1)
                            } else {
                                x.pps_loop_filter_across_slices_enabled_flag == 0
                            }
                    }
                }
            }
        }
    }
}

/// The values of the tile/slice partition block that the writer accepts.
#[verifier::opaque]
pub open spec fn pps_partition_can(x: VvcPpsPartitionModel, width: u32, height: u32) -> bool {
    &&& x.pps_log2_ctu_size_minus5 <= 2
    &&& {
        let w_ctbs = ctbs(width, x.pps_log2_ctu_size_minus5) as u64;
        let h_ctbs = ctbs(height, x.pps_log2_ctu_size_minus5) as u64;
        &&& x.pps_tile_column_widths_minus1.len() >= 1
            && x.pps_tile_column_widths_minus1.len() <= 30
            && x.pps_tile_row_heights_minus1.len() >= 1
            && x.pps_tile_row_heights_minus1.len() <= 990
        &&& {
            let num_exp_cols = (x.pps_tile_column_widths_minus1.len() - 1) as u32;
            &&& ue_fits(num_exp_cols as nat)
            &&& {
                let num_exp_rows = (x.pps_tile_row_heights_minus1.len() - 1) as u32;
                &&& ue_fits(num_exp_rows as nat)
                &&& ues_ok(x.pps_tile_column_widths_minus1)
                &&& ues_ok(x.pps_tile_row_heights_minus1)
                &&& grid_ok(
                    x.pps_tile_column_widths_minus1,
                    x.pps_tile_row_heights_minus1,
                    w_ctbs as nat,
                    h_ctbs as nat,
                )
                &&& {
                    let grid = grid_of(
                        x.pps_tile_column_widths_minus1,
                        x.pps_tile_row_heights_minus1,
                        w_ctbs as nat,
                        h_ctbs as nat,
                    );
                    let tiled = grid.cols > 1 || grid.rows > 1;
                    &&& tiled || x.pps_rect_slice_flag == 1
                    &&& {
                        let explicit = x.pps_rect_slice_flag != 0 && x.pps_single_slice_per_subpic_flag == 0;
                        &&& !explicit || x.pps_num_slices_in_pic_minus1 <= PPS_NUM_SLICES_IN_PIC_MINUS1_MAX
                        &&& explicit ==> ue_fits(x.pps_num_slices_in_pic_minus1 as nat)
                        &&& rect_slices_can(
                            x.rect_slices,
                            explicit,
                            grid,
                            x.pps_tile_idx_delta_present_flag != 0,
                            x.pps_num_slices_in_pic_minus1,
                        )
                    }
                }
            }
        }
    }
}

/// Parses the tile/slice partition block.
#[verifier::rlimit(60)]
#[verifier::spinoff_prover]
fn parse_pps_partition(
    r: &mut BitReader<'_>,
    width: u32,
    height: u32,
) -> (res: Result<VvcPpsPartition, BitstreamError>)
    ensures
        read_view_is(pps_partition_at(old(r).bits(), old(r).pos(), width, height), res, *old(r), *final(r)),
{
    proof {
        reveal(pps_partition_at);
    }
    let pps_log2_ctu_size_minus5: u8 = r.u8(2);
    if pps_log2_ctu_size_minus5 > 2 {
        return Err(BitstreamError::invalid("pps_log2_ctu_size_minus5 > 2 (spec range 0..=2)"));
    }
    let w_ctbs: u64 = pic_ctbs(width, pps_log2_ctu_size_minus5);
    let h_ctbs: u64 = pic_ctbs(height, pps_log2_ctu_size_minus5);
    let num_exp_cols: u32 = r.ue()?;
    let num_exp_rows: u32 = r.ue()?;
    if !(num_exp_cols < 30 && num_exp_rows < 990) {
        return Err(BitstreamError::invalid("explicit tile column/row count exceeds the Table A.2 limits"));
    }
    let pps_tile_column_widths_minus1 = r.read_ues(num_exp_cols as u64 + 1)?;
    let pps_tile_row_heights_minus1 = r.read_ues(num_exp_rows as u64 + 1)?;
    let grid = tile_grid(&pps_tile_column_widths_minus1, &pps_tile_row_heights_minus1, w_ctbs, h_ctbs)?;
    let tiled: bool = grid.cols > 1 || grid.rows > 1;
    let pps_loop_filter_across_tiles_enabled_flag: u8 = r.bit_if(tiled, 0);
    let pps_rect_slice_flag: u8 = r.bit_if(tiled, 1);
    let pps_single_slice_per_subpic_flag: u8 = r.bit_if(pps_rect_slice_flag != 0, 0);
    let explicit: bool = pps_rect_slice_flag != 0 && pps_single_slice_per_subpic_flag == 0;
    let pps_num_slices_in_pic_minus1: u32 = r.ue_if(explicit, 0)?;
    if pps_num_slices_in_pic_minus1 > PPS_NUM_SLICES_IN_PIC_MINUS1_MAX {
        return Err(
            Message::new("pps_num_slices_in_pic_minus1 = ")
                .num(pps_num_slices_in_pic_minus1 as i128)
                .with(" > ")
                .num(PPS_NUM_SLICES_IN_PIC_MINUS1_MAX as i128)
                .with(" (Table A.2)")
                .invalid(),
        );
    }
    let pps_tile_idx_delta_present_flag: u8 = r.bit_if(explicit && pps_num_slices_in_pic_minus1 > 1, 0);
    let rect_slices = parse_rect_slices(
        r,
        explicit,
        &grid,
        pps_tile_idx_delta_present_flag != 0,
        pps_num_slices_in_pic_minus1,
    )?;
    let pps_loop_filter_across_slices_enabled_flag: u8 = r.bit_if(
        pps_rect_slice_flag == 0 || pps_single_slice_per_subpic_flag != 0 || pps_num_slices_in_pic_minus1 > 0,
        0,
    );
    Ok(
        VvcPpsPartition {
            pps_log2_ctu_size_minus5,
            pps_tile_column_widths_minus1,
            pps_tile_row_heights_minus1,
            pps_loop_filter_across_tiles_enabled_flag,
            pps_rect_slice_flag,
            pps_single_slice_per_subpic_flag,
            pps_num_slices_in_pic_minus1,
            pps_tile_idx_delta_present_flag,
            rect_slices,
            pps_loop_filter_across_slices_enabled_flag,
        },
    )
}

/// Emits the tile/slice partition block, the inverse of [`parse_pps_partition`].
#[verifier::rlimit(60)]
#[verifier::spinoff_prover]
fn write_pps_partition(
    w: &mut BitWriter,
    x: &VvcPpsPartition,
    width: u32,
    height: u32,
) -> (res: Result<(), BitstreamError>)
    ensures
        write_is(
            pps_partition_can(x@, width, height),
            put_pps_partition(old(w)@, x@, width, height),
            res,
            final(w)@,
        ),
{
    proof {
        reveal(put_pps_partition);
        reveal(pps_partition_can);
    }
    w.write_bits(x.pps_log2_ctu_size_minus5 as u32, 2);
    if x.pps_log2_ctu_size_minus5 > 2 {
        return Err(BitstreamError::invalid("pps_log2_ctu_size_minus5 > 2 (spec range 0..=2)"));
    }
    let w_ctbs: u64 = pic_ctbs(width, x.pps_log2_ctu_size_minus5);
    let h_ctbs: u64 = pic_ctbs(height, x.pps_log2_ctu_size_minus5);
    if !(
        x.pps_tile_column_widths_minus1.len() >= 1
        && x.pps_tile_column_widths_minus1.len() <= 30
        && x.pps_tile_row_heights_minus1.len() >= 1
        && x.pps_tile_row_heights_minus1.len() <= 990
    ) {
        return Err(
            partition_error(&x.pps_tile_column_widths_minus1, &x.pps_tile_row_heights_minus1, w_ctbs, h_ctbs),
        );
    }
    let num_exp_cols: u32 = (x.pps_tile_column_widths_minus1.len() - 1) as u32;
    w.write_ue(num_exp_cols)?;
    let num_exp_rows: u32 = (x.pps_tile_row_heights_minus1.len() - 1) as u32;
    w.write_ue(num_exp_rows)?;
    w.write_ues(x.pps_tile_column_widths_minus1.as_slice())?;
    w.write_ues(x.pps_tile_row_heights_minus1.as_slice())?;
    let grid = tile_grid(&x.pps_tile_column_widths_minus1, &x.pps_tile_row_heights_minus1, w_ctbs, h_ctbs)?;
    let tiled: bool = grid.cols > 1 || grid.rows > 1;
    w.write_bit_if(x.pps_loop_filter_across_tiles_enabled_flag as u32, tiled);
    w.write_bit_if(x.pps_rect_slice_flag as u32, tiled);
    if !(tiled || x.pps_rect_slice_flag == 1) {
        return Err(
            BitstreamError::invalid(
                "pps_rect_slice_flag must carry its inferred value 1 for a single-tile picture",
            ),
        );
    }
    w.write_bit_if(x.pps_single_slice_per_subpic_flag as u32, x.pps_rect_slice_flag != 0);
    let explicit: bool = x.pps_rect_slice_flag != 0 && x.pps_single_slice_per_subpic_flag == 0;
    if !(!explicit || x.pps_num_slices_in_pic_minus1 <= PPS_NUM_SLICES_IN_PIC_MINUS1_MAX) {
        return Err(
            BitstreamError::invalid("pps_num_slices_in_pic_minus1 exceeds MaxSlicesPerAu - 1 (Table A.2)"),
        );
    }
    w.write_ue_if(x.pps_num_slices_in_pic_minus1, explicit)?;
    w.write_bit_if(x.pps_tile_idx_delta_present_flag as u32, explicit && x.pps_num_slices_in_pic_minus1 > 1);
    write_rect_slices(
        w,
        &x.rect_slices,
        explicit,
        &grid,
        x.pps_tile_idx_delta_present_flag != 0,
        x.pps_num_slices_in_pic_minus1,
    )?;
    w.write_bit_if(
        x.pps_loop_filter_across_slices_enabled_flag as u32,
        x.pps_rect_slice_flag == 0
            || x.pps_single_slice_per_subpic_flag != 0
            || x.pps_num_slices_in_pic_minus1 > 0,
    );
    Ok(())
}

/// Writing the tile/slice partition block gives back the bits it was read from.
#[verifier::rlimit(60)]
#[verifier::spinoff_prover]
pub broadcast proof fn law_put_pps_partition_at(s: Seq<bool>, p: nat, width: u32, height: u32)
    ensures
        #[trigger] pps_partition_at(s, p, width, height) matches Ok((x, q)) ==> {
            &&& pps_partition_ok(x, width, height)
            &&& pps_partition_can(x, width, height)
            &&& within(s, q) ==> within(s, p) && put_pps_partition(upto(s, p), x, width, height) == upto(s, q)
        },
{
    broadcast use {
        crate::bits::group_write_read,
        crate::bits::group_write_read_lists,
        law_put_rect_slices_at,
        lemma_grid,
        lemma_ctbs_bound,
    };

    reveal(pps_partition_at);
    reveal(put_pps_partition);
    reveal(pps_partition_ok);
    reveal(pps_partition_can);
}

/// Reading gives back the tile/slice partition block as it was written.
#[verifier::rlimit(60)]
#[verifier::spinoff_prover]
pub broadcast proof fn law_pre_put_pps_partition(
    a: Seq<bool>,
    x: VvcPpsPartitionModel,
    width: u32,
    height: u32,
    s: Seq<bool>,
)
    requires
        #[trigger] pre(put_pps_partition(a, x, width, height), s),
        pps_partition_ok(x, width, height),
    ensures
        pre(a, s),
        pps_partition_can(x, width, height),
        pps_partition_at(s, a.len(), width, height) == Ok::<(VvcPpsPartitionModel, nat), Fault>(
            (x, put_pps_partition(a, x, width, height).len()),
        ),
{
    broadcast use {
        crate::bits::group_read_written,
        crate::bits::group_read_written_lists,
        law_pre_put_rect_slices,
        lemma_grid,
        lemma_ctbs_bound,
    };

    reveal(pps_partition_at);
    reveal(put_pps_partition);
    reveal(pps_partition_ok);
    reveal(pps_partition_can);
}

/// The layout of the tile/slice partition block: reading at `p` gives `x` and
/// ends at `q` if and only if these elements stand there in this order, and the
/// values are allowed.
#[verifier::rlimit(60)]
#[verifier::spinoff_prover]
pub proof fn law_layout_pps_partition(
    s: Seq<bool>,
    p: nat,
    width: u32,
    height: u32,
    x: VvcPpsPartitionModel,
    q: nat,
)
    ensures
        pps_partition_at(s, p, width, height) == Ok::<(VvcPpsPartitionModel, nat), Fault>((x, q)) <==> ({
            let w_ctbs = ctbs(width, x.pps_log2_ctu_size_minus5) as u64;
            let h_ctbs = ctbs(height, x.pps_log2_ctu_size_minus5) as u64;
            let c = cursor(s, p).u8(2, x.pps_log2_ctu_size_minus5);
            let num_exp_cols = c.next_ue();
            let c = c.ue(num_exp_cols);
            let num_exp_rows = c.next_ue();
            let grid = grid_of(
                x.pps_tile_column_widths_minus1,
                x.pps_tile_row_heights_minus1,
                w_ctbs as nat,
                h_ctbs as nat,
            );
            let tiled = grid.cols > 1 || grid.rows > 1;
            let explicit = x.pps_rect_slice_flag != 0 && x.pps_single_slice_per_subpic_flag == 0;
            &&& c
                .ue(num_exp_rows)
                .part(
                    |p: nat| ues_at(s, p, (num_exp_cols as u64 + 1) as nat),
                    x.pps_tile_column_widths_minus1,
                )
                .part(|p: nat| ues_at(s, p, (num_exp_rows as u64 + 1) as nat), x.pps_tile_row_heights_minus1)
                .u8_if(tiled, 1, x.pps_loop_filter_across_tiles_enabled_flag, 0)
                .u8_if(tiled, 1, x.pps_rect_slice_flag, 1)
                .u8_if(x.pps_rect_slice_flag != 0, 1, x.pps_single_slice_per_subpic_flag, 0)
                .ue_if(explicit, x.pps_num_slices_in_pic_minus1, 0)
                .u8_if(
                    explicit && x.pps_num_slices_in_pic_minus1 > 1,
                    1,
                    x.pps_tile_idx_delta_present_flag,
                    0,
                )
                .part(
                    |p: nat| rect_slices_at(
                        s,
                        p,
                        explicit,
                        grid,
                        x.pps_tile_idx_delta_present_flag != 0,
                        x.pps_num_slices_in_pic_minus1,
                    ),
                    x.rect_slices,
                )
                .u8_if(
                    x.pps_rect_slice_flag == 0
                        || x.pps_single_slice_per_subpic_flag != 0
                        || x.pps_num_slices_in_pic_minus1 > 0,
                    1,
                    x.pps_loop_filter_across_slices_enabled_flag,
                    0,
                )
                .ends(q)
            &&& x.pps_log2_ctu_size_minus5 <= 2
            &&& num_exp_cols < 30 && num_exp_rows < 990
            &&& grid_ok(
                x.pps_tile_column_widths_minus1,
                x.pps_tile_row_heights_minus1,
                w_ctbs as nat,
                h_ctbs as nat,
            )
            &&& x.pps_num_slices_in_pic_minus1 <= 999
        }),
{
    reveal(pps_partition_at);
    reveal(adv_if);
    reveal(u8_if);
    reveal(ue_if);
}

/// Reading the tile/slice partition block fails only with an error of this
/// class.
#[verifier::rlimit(60)]
#[verifier::spinoff_prover]
pub broadcast proof fn law_faults_pps_partition(s: Seq<bool>, p: nat, width: u32, height: u32)
    ensures
        #[trigger] pps_partition_at(s, p, width, height) matches Err(f) ==> f == Fault::Invalid,
{
    broadcast use {crate::bits::law_faults_ue, crate::bits::law_faults_ues, law_faults_rect_slices};

    reveal(pps_partition_at);
    reveal(ue_if);
}

/// What the writer accepts reads back: the tile/slice partition block, where
/// each field fits its width and what is not coded has the value that is taken
/// for it.
#[verifier::rlimit(60)]
#[verifier::spinoff_prover]
pub proof fn law_reads_pps_partition(
    a: Seq<bool>,
    x: VvcPpsPartitionModel,
    width: u32,
    height: u32,
    s: Seq<bool>,
)
    requires
        pps_partition_can(x, width, height),
        ({
            let w_ctbs = ctbs(width, x.pps_log2_ctu_size_minus5) as u64;
            let h_ctbs = ctbs(height, x.pps_log2_ctu_size_minus5) as u64;
            let grid = grid_of(
                x.pps_tile_column_widths_minus1,
                x.pps_tile_row_heights_minus1,
                w_ctbs as nat,
                h_ctbs as nat,
            );
            let tiled = grid.cols > 1 || grid.rows > 1;
            &&& if tiled {
                fits(x.pps_loop_filter_across_tiles_enabled_flag as nat, 1)
            } else {
                x.pps_loop_filter_across_tiles_enabled_flag == 0
            }
            &&& if tiled { fits(x.pps_rect_slice_flag as nat, 1) } else { x.pps_rect_slice_flag == 1 }
            &&& if x.pps_rect_slice_flag != 0 {
                fits(x.pps_single_slice_per_subpic_flag as nat, 1)
            } else {
                x.pps_single_slice_per_subpic_flag == 0
            }
            &&& {
                let explicit = x.pps_rect_slice_flag != 0 && x.pps_single_slice_per_subpic_flag == 0;
                &&& (!explicit ==> x.pps_num_slices_in_pic_minus1 == 0)
                &&& if explicit
                    && x.pps_num_slices_in_pic_minus1 > 1 {
                        fits(x.pps_tile_idx_delta_present_flag as nat, 1)
                    } else {
                        x.pps_tile_idx_delta_present_flag == 0
                    }
                &&& rect_slices_ok(
                    x.rect_slices,
                    explicit,
                    grid,
                    x.pps_tile_idx_delta_present_flag != 0,
                    x.pps_num_slices_in_pic_minus1,
                )
                &&& (
                    if x.pps_rect_slice_flag == 0 || x.pps_single_slice_per_subpic_flag != 0 || x.pps_num_slices_in_pic_minus1 > 0 {
                        fits(x.pps_loop_filter_across_slices_enabled_flag as nat, 1)
                    } else {
                        x.pps_loop_filter_across_slices_enabled_flag == 0
                    }
                )
            }
        }),
        pre(put_pps_partition(a, x, width, height), s),
    ensures
        pps_partition_at(s, a.len(), width, height) == Ok::<(VvcPpsPartitionModel, nat), Fault>(
            (x, put_pps_partition(a, x, width, height).len()),
        ),
{
    assert(pps_partition_ok(x, width, height)) by {
        broadcast use crate::bits::law_fits_small;

        reveal(pps_partition_ok);
        reveal(pps_partition_can);
    }
    law_pre_put_pps_partition(a, x, width, height, s);
}

/// Each field of the model of a [`VvcPpsPartition`] is the field of that name.
pub proof fn law_view_pps_partition(x: VvcPpsPartition)
    ensures
        x@.pps_log2_ctu_size_minus5 == x.pps_log2_ctu_size_minus5,
        x@.pps_tile_column_widths_minus1 == x.pps_tile_column_widths_minus1@,
        x@.pps_tile_row_heights_minus1 == x.pps_tile_row_heights_minus1@,
        x@.pps_loop_filter_across_tiles_enabled_flag == x.pps_loop_filter_across_tiles_enabled_flag,
        x@.pps_rect_slice_flag == x.pps_rect_slice_flag,
        x@.pps_single_slice_per_subpic_flag == x.pps_single_slice_per_subpic_flag,
        x@.pps_num_slices_in_pic_minus1 == x.pps_num_slices_in_pic_minus1,
        x@.pps_tile_idx_delta_present_flag == x.pps_tile_idx_delta_present_flag,
        x@.rect_slices == seq_view(x.rect_slices@),
        x@.pps_loop_filter_across_slices_enabled_flag == x.pps_loop_filter_across_slices_enabled_flag,
{
}

// ─────────────────────────── Scalar blocks ───────────────────────────────────

/// The `pps_chroma_tool_offsets_present_flag` block (§7.3.2.5).
#[derive(Debug, Clone, PartialEq, Eq, Default)]
pub struct VvcPpsChromaToolOffsets {
    /// `pps_cb_qp_offset` se(v) — −12..=12.
    pub pps_cb_qp_offset: i32,
    /// `pps_cr_qp_offset` se(v) — −12..=12.
    pub pps_cr_qp_offset: i32,
    /// `pps_joint_cbcr_qp_offset_value` se(v) — `Some` iff
    /// `pps_joint_cbcr_qp_offset_present_flag`; −12..=12.
    pub pps_joint_cbcr_qp_offset_value: Option<i32>,
    /// `pps_slice_chroma_qp_offsets_present_flag` u(1).
    pub pps_slice_chroma_qp_offsets_present_flag: u8,
    /// The `pps_cu_chroma_qp_offset_list_enabled_flag` list — `Some`
    /// iff enabled; 1..=6 `(cb, cr, joint)` triples, `joint` present
    /// iff `pps_joint_cbcr_qp_offset_present_flag`. All offsets
    /// −12..=12.
    pub cu_chroma_qp_offset_list: Option<Vec<(i32, i32, Option<i32>)>>,
}

/// A chroma QP offset at position `p`.
#[verifier::opaque]
pub open spec fn qp_off_at(s: Seq<bool>, p: nat) -> Read<i32> {
    match se_at(s, p) { Err(f) => Err(f), Ok((v, p)) => {
    if !(-12 <= v && v <= 12) { Err(Fault::Invalid) } else {
    Ok((v, p)) }}}
}

/// The bits `a` followed by a chroma QP offset.
#[verifier::opaque]
pub open spec fn put_qp_off(a: Seq<bool>, x: i32) -> Seq<bool> {
    let a = put_se(a, x as int);
    a
}

/// The values of a chroma QP offset that reading can give.
#[verifier::opaque]
pub open spec fn qp_off_ok(x: i32) -> bool {
    &&& -12 <= x && x <= 12
}

/// The values of a chroma QP offset that the writer accepts.
#[verifier::opaque]
pub open spec fn qp_off_can(x: i32) -> bool {
    &&& -12 <= x && x <= 12
}

/// Parses a chroma QP offset.
fn parse_qp_off(r: &mut BitReader<'_>, name: &str) -> (res: Result<i32, BitstreamError>)
    ensures
        read_is(qp_off_at(old(r).bits(), old(r).pos()), res, *old(r), *final(r)),
{
    proof {
        reveal(qp_off_at);
    }
    let v: i32 = r.se()?;
    if !(-12 <= v && v <= 12) {
        return Err(
            Message::new("")
                .with(name)
                .with(" = ")
                .num(v as i128)
                .with(" outside -12..=12 (7.4.3.5)")
                .invalid(),
        );
    }
    Ok(v)
}

/// Emits a chroma QP offset, the inverse of [`parse_qp_off`].
fn write_qp_off(w: &mut BitWriter, x: &i32, name: &str) -> (res: Result<(), BitstreamError>)
    ensures
        write_is(qp_off_can(*x), put_qp_off(old(w)@, *x), res, final(w)@),
{
    proof {
        reveal(put_qp_off);
        reveal(qp_off_can);
    }
    w.write_se(*x)?;
    if !(-12 <= (*x) && (*x) <= 12) {
        return Err(
            Message::new("")
                .with(name)
                .with(" = ")
                .num((*x) as i128)
                .with(" outside -12..=12 (7.4.3.5)")
                .invalid(),
        );
    }
    Ok(())
}

/// Writing a chroma QP offset gives back the bits it was read from.
pub broadcast proof fn law_put_qp_off_at(s: Seq<bool>, p: nat)
    ensures
        #[trigger] qp_off_at(s, p) matches Ok((x, q)) ==> {
            &&& qp_off_ok(x)
            &&& qp_off_can(x)
            &&& within(s, q) ==> within(s, p) && put_qp_off(upto(s, p), x) == upto(s, q)
        },
{
    broadcast use crate::bits::group_write_read;

    reveal(qp_off_at);
    reveal(put_qp_off);
    reveal(qp_off_ok);
    reveal(qp_off_can);
}

/// Reading gives back a chroma QP offset as it was written.
pub broadcast proof fn law_pre_put_qp_off(a: Seq<bool>, x: i32, s: Seq<bool>)
    requires
        #[trigger] pre(put_qp_off(a, x), s),
        qp_off_ok(x),
    ensures
        pre(a, s),
        qp_off_can(x),
        qp_off_at(s, a.len()) == Ok::<(i32, nat), Fault>((x, put_qp_off(a, x).len())),
{
    broadcast use crate::bits::group_read_written;

    reveal(qp_off_at);
    reveal(put_qp_off);
    reveal(qp_off_ok);
    reveal(qp_off_can);
}

/// The layout of a chroma QP offset: reading at `p` gives `x` and ends at `q`
/// if and only if these elements stand there in this order, and the values are
/// allowed.
pub proof fn law_layout_qp_off(s: Seq<bool>, p: nat, x: i32, q: nat)
    ensures
        qp_off_at(s, p) == Ok::<(i32, nat), Fault>((x, q)) <==> ({
            &&& cursor(s, p).se(x).ends(q)
            &&& -12 <= x && x <= 12
        }),
{
    reveal(qp_off_at);
}

/// Reading a chroma QP offset fails only with an error of this class.
pub broadcast proof fn law_faults_qp_off(s: Seq<bool>, p: nat)
    ensures
        #[trigger] qp_off_at(s, p) matches Err(f) ==> f == Fault::Invalid,
{
    broadcast use crate::bits::law_faults_se;

    reveal(qp_off_at);
}

/// What the writer accepts reads back: a chroma QP offset, where each field
/// fits its width and what is not coded has the value that is taken for it.
pub proof fn law_reads_qp_off(a: Seq<bool>, x: i32, s: Seq<bool>)
    requires
        qp_off_can(x),
        pre(put_qp_off(a, x), s),
    ensures
        qp_off_at(s, a.len()) == Ok::<(i32, nat), Fault>((x, put_qp_off(a, x).len())),
{
    assert(qp_off_ok(x)) by {
        broadcast use crate::bits::law_fits_small;

        reveal(qp_off_ok);
        reveal(qp_off_can);
    }
    law_pre_put_qp_off(a, x, s);
}

/// One entry of the chroma QP offset list at position `p`.
#[verifier::opaque]
pub open spec fn qp_triple_at(s: Seq<bool>, p: nat, joint_present: bool) -> Read<(i32, i32, Option<i32>)> {
    match qp_off_at(s, p) { Err(f) => Err(f), Ok((cb, p)) => {
    match qp_off_at(s, p) { Err(f) => Err(f), Ok((cr, p)) => {
    match (if joint_present { read_some(qp_off_at(s, p)) } else { Ok((None, p)) })
    { Err(f) => Err(f), Ok((joint, p)) => {
    Ok(((cb, cr, joint), p)) }}}}}}
}

/// The bits `a` followed by one entry of the chroma QP offset list.
#[verifier::opaque]
pub open spec fn put_qp_triple(a: Seq<bool>, x: (i32, i32, Option<i32>), joint_present: bool) -> Seq<bool> {
    let a = put_qp_off(a, x.0);
    let a = put_qp_off(a, x.1);
    let a = match x.2 { Some(y) => put_qp_off(a, y), None => a };
    a
}

/// The values of one entry of the chroma QP offset list that reading can give.
#[verifier::opaque]
pub open spec fn qp_triple_ok(x: (i32, i32, Option<i32>), joint_present: bool) -> bool {
    &&& qp_off_ok(x.0)
    &&& qp_off_ok(x.1)
    &&& x.2 is Some <==> joint_present
    &&& x.2 matches Some(y) ==> qp_off_ok(y)
}

/// The values of one entry of the chroma QP offset list that the writer
/// accepts.
#[verifier::opaque]
pub open spec fn qp_triple_can(x: (i32, i32, Option<i32>), joint_present: bool) -> bool {
    &&& qp_off_can(x.0)
    &&& qp_off_can(x.1)
    &&& x.2 is Some <==> joint_present
    &&& x.2 matches Some(y) ==> qp_off_can(y)
}

/// Parses one entry of the chroma QP offset list.
fn parse_qp_triple(
    r: &mut BitReader<'_>,
    joint_present: bool,
) -> (res: Result<(i32, i32, Option<i32>), BitstreamError>)
    ensures
        read_is(qp_triple_at(old(r).bits(), old(r).pos(), joint_present), res, *old(r), *final(r)),
{
    proof {
        reveal(qp_triple_at);
    }
    let cb = parse_qp_off(r, "pps_cb_qp_offset_list")?;
    let cr = parse_qp_off(r, "pps_cr_qp_offset_list")?;
    let joint = if joint_present { Some(parse_qp_off(r, "pps_joint_cbcr_qp_offset_list")?) } else { None };
    Ok((cb, cr, joint))
}

/// Emits one entry of the chroma QP offset list, the inverse of [`parse_qp_triple`].
fn write_qp_triple(
    w: &mut BitWriter,
    x: &(i32, i32, Option<i32>),
    joint_present: bool,
) -> (res: Result<(), BitstreamError>)
    ensures
        write_is(qp_triple_can(*x, joint_present), put_qp_triple(old(w)@, *x, joint_present), res, final(w)@),
{
    proof {
        reveal(put_qp_triple);
        reveal(qp_triple_can);
    }
    write_qp_off(w, &x.0, "pps_cb_qp_offset_list")?;
    write_qp_off(w, &x.1, "pps_cr_qp_offset_list")?;
    if x.2.is_some() != joint_present {
        return Err(
            BitstreamError::invalid(
                "joint offset presence contradicts pps_joint_cbcr_qp_offset_present_flag (7.3.2.5)",
            ),
        );
    }
    if let Some(y) = &x.2 {
        write_qp_off(w, y, "pps_joint_cbcr_qp_offset_list")?;
    }
    Ok(())
}

/// Writing one entry of the chroma QP offset list gives back the bits it was
/// read from.
pub broadcast proof fn law_put_qp_triple_at(s: Seq<bool>, p: nat, joint_present: bool)
    ensures
        #[trigger] qp_triple_at(s, p, joint_present) matches Ok((x, q)) ==> {
            &&& qp_triple_ok(x, joint_present)
            &&& qp_triple_can(x, joint_present)
            &&& within(s, q) ==> within(s, p) && put_qp_triple(upto(s, p), x, joint_present) == upto(s, q)
        },
{
    broadcast use {crate::bits::group_write_read, law_put_qp_off_at};

    reveal(qp_triple_at);
    reveal(put_qp_triple);
    reveal(qp_triple_ok);
    reveal(qp_triple_can);
}

/// Reading gives back one entry of the chroma QP offset list as it was written.
pub broadcast proof fn law_pre_put_qp_triple(
    a: Seq<bool>,
    x: (i32, i32, Option<i32>),
    joint_present: bool,
    s: Seq<bool>,
)
    requires
        #[trigger] pre(put_qp_triple(a, x, joint_present), s),
        qp_triple_ok(x, joint_present),
    ensures
        pre(a, s),
        qp_triple_can(x, joint_present),
        qp_triple_at(s, a.len(), joint_present) == Ok::<((i32, i32, Option<i32>), nat), Fault>(
            (x, put_qp_triple(a, x, joint_present).len()),
        ),
{
    broadcast use {crate::bits::group_read_written, law_pre_put_qp_off};

    reveal(qp_triple_at);
    reveal(put_qp_triple);
    reveal(qp_triple_ok);
    reveal(qp_triple_can);
}

/// The layout of one entry of the chroma QP offset list: reading at `p` gives
/// `x` and ends at `q` if and only if these elements stand there in this order.
pub proof fn law_layout_qp_triple(
    s: Seq<bool>,
    p: nat,
    joint_present: bool,
    x: (i32, i32, Option<i32>),
    q: nat,
)
    ensures
        qp_triple_at(s, p, joint_present) == Ok::<((i32, i32, Option<i32>), nat), Fault>((x, q))
            <==> cursor(s, p)
            .part(|p: nat| qp_off_at(s, p), x.0)
            .part(|p: nat| qp_off_at(s, p), x.1)
            .part_if(joint_present, |p: nat| qp_off_at(s, p), x.2)
            .ends(q),
{
    reveal(qp_triple_at);
}

/// Reading one entry of the chroma QP offset list fails only with an error of
/// this class.
pub broadcast proof fn law_faults_qp_triple(s: Seq<bool>, p: nat, joint_present: bool)
    ensures
        #[trigger] qp_triple_at(s, p, joint_present) matches Err(f) ==> f == Fault::Invalid,
{
    broadcast use law_faults_qp_off;

    reveal(qp_triple_at);
}

/// What the writer accepts reads back: one entry of the chroma QP offset list,
/// where each field fits its width and what is not coded has the value that is
/// taken for it.
pub proof fn law_reads_qp_triple(a: Seq<bool>, x: (i32, i32, Option<i32>), joint_present: bool, s: Seq<bool>)
    requires
        qp_triple_can(x, joint_present),
        qp_off_ok(x.0),
        qp_off_ok(x.1),
        x.2 matches Some(y) ==> qp_off_ok(y),
        pre(put_qp_triple(a, x, joint_present), s),
    ensures
        qp_triple_at(s, a.len(), joint_present) == Ok::<((i32, i32, Option<i32>), nat), Fault>(
            (x, put_qp_triple(a, x, joint_present).len()),
        ),
{
    assert(qp_triple_ok(x, joint_present)) by {
        broadcast use crate::bits::law_fits_small;

        reveal(qp_triple_ok);
        reveal(qp_triple_can);
    }
    law_pre_put_qp_triple(a, x, joint_present, s);
}

/// Reads one entry of the chroma QP offset list, behind the items before it.
pub open spec fn qp_triples_item(
    s: Seq<bool>,
    joint_present: bool,
) -> spec_fn(Seq<(i32, i32, Option<i32>)>, nat) -> Read<(i32, i32, Option<i32>)> {
    |done: Seq<(i32, i32, Option<i32>)>, q: nat| qp_triple_at(s, q, joint_present)
}

/// Writes one entry of the chroma QP offset list, behind the items before it.
pub open spec fn put_qp_triples_item(
    joint_present: bool,
) -> spec_fn(Seq<bool>, Seq<(i32, i32, Option<i32>)>, (i32, i32, Option<i32>)) -> Seq<bool> {
    |a: Seq<bool>, done: Seq<(
        i32,
        i32,
        Option<i32>,
    )>, x: (i32, i32, Option<i32>)| put_qp_triple(a, x, joint_present)
}

/// Whether one entry of the chroma QP offset list may follow the items before
/// it.
pub open spec fn qp_triples_item_ok(
    joint_present: bool,
) -> spec_fn(Seq<(i32, i32, Option<i32>)>, (i32, i32, Option<i32>)) -> bool {
    |done: Seq<(i32, i32, Option<i32>)>, x: (i32, i32, Option<i32>)| qp_triple_ok(x, joint_present)
        && qp_triple_can(x, joint_present)
}

/// `n` items at position `p`, each one entry of the chroma QP offset list.
#[verifier::opaque]
pub open spec fn qp_triples_at(
    s: Seq<bool>,
    p: nat,
    joint_present: bool,
    n: u64,
) -> Read<Seq<(i32, i32, Option<i32>)>> {
    rep_at(qp_triples_item(s, joint_present), p, n as nat)
}

/// The bits `a` followed by the items.
#[verifier::opaque]
pub open spec fn put_qp_triples(
    a: Seq<bool>,
    xs: Seq<(i32, i32, Option<i32>)>,
    joint_present: bool,
    n: u64,
) -> Seq<bool> {
    put_rep(put_qp_triples_item(joint_present), a, xs)
}

/// `n` items that reading can give.
#[verifier::opaque]
pub open spec fn qp_triples_ok(xs: Seq<(i32, i32, Option<i32>)>, joint_present: bool, n: u64) -> bool {
    xs.len() == n
        && forall|i: int| 0 <= i < xs.len()
        ==> qp_triple_ok(#[trigger] xs[i], joint_present)
        && qp_triple_can(xs[i], joint_present)
}

/// `n` items that the writer accepts.
#[verifier::opaque]
pub open spec fn qp_triples_can(xs: Seq<(i32, i32, Option<i32>)>, joint_present: bool, n: u64) -> bool {
    xs.len() == n && forall|i: int| 0 <= i < xs.len() ==> qp_triple_can(#[trigger] xs[i], joint_present)
}

/// Parses `n` items, each one entry of the chroma QP offset list.
fn parse_qp_triples(
    r: &mut BitReader<'_>,
    joint_present: bool,
    n: u64,
) -> (res: Result<Vec<(i32, i32, Option<i32>)>, BitstreamError>)
    ensures
        read_vec_is(qp_triples_at(old(r).bits(), old(r).pos(), joint_present, n), res, *old(r), *final(r)),
        res matches Ok(v) ==> v@.len() == n,
{
    let ghost s = r.bits();
    let ghost p = r.pos();
    let ghost reads = qp_triples_item(s, joint_present);
    let mut xs: Vec<(i32, i32, Option<i32>)> = Vec::new();
    let mut i: u64 = 0;
    proof {
        reveal(qp_triples_at);
    }
    while i < n
        invariant
            i <= n,
            xs@.len() == i,
            reads == qp_triples_item(s, joint_present),
            s == r.bits(),
            s == old(r).bits(),
            p == old(r).pos(),
            r.bytes() == old(r).bytes(),
            rep_at(reads, p, i as nat) == Ok::<(Seq<(i32, i32, Option<i32>)>, nat), Fault>((xs@, r.pos())),
        decreases n - i,
    {
        match parse_qp_triple(r, joint_present) {
            Ok(x) => {
                xs.push(x);
            },
            Err(e) => {
                proof {
                    reveal(qp_triples_at);
                    lemma_rep_err(reads, p, (i + 1) as nat, n as nat);
                }
                return Err(e);
            },
        }
        i = i + 1;
    }
    Ok(xs)
}

/// Emits `n` items, each one entry of the chroma QP offset list.
fn write_qp_triples(
    w: &mut BitWriter,
    xs: &Vec<(i32, i32, Option<i32>)>,
    joint_present: bool,
    n: u64,
) -> (res: Result<(), BitstreamError>)
    ensures
        write_is(
            qp_triples_can(xs@, joint_present, n),
            put_qp_triples(old(w)@, xs@, joint_present, n),
            res,
            final(w)@,
        ),
        res is Ok ==> xs@.len() == n,
{
    let ghost before = w@;
    let ghost puts = put_qp_triples_item(joint_present);
    let ghost ys = xs@;
    proof {
        reveal(put_qp_triples);
        reveal(qp_triples_can);
        assert(ys.take(0) =~= Seq::empty());
    }
    if xs.len() as u64 != n {
        return Err(BitstreamError::invalid("unexpected number of entries"));
    }
    let mut i: usize = 0;
    while i < xs.len()
        invariant
            i <= xs@.len(),
            xs@.len() == n,
            ys == xs@,
            ys.len() == xs@.len(),
            before == old(w)@,
            puts == put_qp_triples_item(joint_present),
            w@ == put_rep(puts, before, ys.take(i as int)),
            forall|j: int| 0 <= j < i ==> qp_triple_can(#[trigger] ys[j], joint_present),
        ensures
            i == xs@.len(),
        decreases xs@.len() - i,
    {
        proof {
            assert(ys.take(i + 1).drop_last() =~= ys.take(i as int));
            assert(ys[i as int] == xs@[i as int]);
        }
        match write_qp_triple(w, &xs[i], joint_present) {
            Ok(()) => {},
            Err(e) => {
                proof {
                    reveal(qp_triples_can);
                }
                return Err(e);
            },
        }
        i = i + 1;
    }
    proof {
        assert(ys.take(i as int) =~= ys);
    }
    Ok(())
}

/// Writing what was read gives back the bits that were read.
pub broadcast proof fn law_put_qp_triples_at(s: Seq<bool>, p: nat, joint_present: bool, n: u64)
    ensures
        #[trigger] qp_triples_at(s, p, joint_present, n) matches Ok((xs, q)) ==> {
            &&& xs.len() == n
            &&& qp_triples_ok(xs, joint_present, n)
            &&& qp_triples_can(xs, joint_present, n)
            &&& within(s, q)
                ==> within(s, p)
                && put_qp_triples(upto(s, p), xs, joint_present, n) == upto(s, q)
        },
{
    broadcast use law_put_qp_triple_at;

    reveal(qp_triples_at);
    reveal(put_qp_triples);
    reveal(qp_triples_ok);
    reveal(qp_triples_can);
    let ok = qp_triples_item_ok(joint_present);
    law_put_rep_at(s, qp_triples_item(s, joint_present), put_qp_triples_item(joint_present), ok, p, n as nat);
    if let Ok((xs, q)) = qp_triples_at(s, p, joint_present, n) {
        assert forall|i: int| 0 <= i < xs.len() implies ok(xs.take(i), #[trigger] xs[i]) by {}
    }
}

/// What was written reads back as the items that were written.
pub broadcast proof fn law_pre_put_qp_triples(
    a: Seq<bool>,
    xs: Seq<(i32, i32, Option<i32>)>,
    joint_present: bool,
    n: u64,
    s: Seq<bool>,
)
    requires
        #[trigger] pre(put_qp_triples(a, xs, joint_present, n), s),
        qp_triples_ok(xs, joint_present, n),
    ensures
        pre(a, s),
        qp_triples_can(xs, joint_present, n),
        qp_triples_at(s, a.len(), joint_present, n) == Ok::<(Seq<(i32, i32, Option<i32>)>, nat), Fault>(
            (xs, put_qp_triples(a, xs, joint_present, n).len()),
        ),
{
    broadcast use law_pre_put_qp_triple;

    reveal(qp_triples_at);
    reveal(put_qp_triples);
    reveal(qp_triples_ok);
    reveal(qp_triples_can);
    law_rep_at_put(
        s,
        qp_triples_item(s, joint_present),
        put_qp_triples_item(joint_present),
        qp_triples_item_ok(joint_present),
        a,
        xs,
    );
}

/// `n` items stand one behind the other: `n - 1` items, and then one entry of
/// the chroma QP offset list.
pub proof fn law_layout_qp_triples(
    s: Seq<bool>,
    p: nat,
    joint_present: bool,
    n: u64,
    xs: Seq<(i32, i32, Option<i32>)>,
    q: nat,
)
    ensures
        qp_triples_at(s, p, joint_present, n) == Ok::<(Seq<(i32, i32, Option<i32>)>, nat), Fault>((xs, q)) <==> if n == 0 {
            xs.len() == 0 && q == p
        } else {
            &&& xs.len() == n
            &&& cursor(s, p)
                .part(|p: nat| qp_triples_at(s, p, joint_present, (n - 1) as u64), xs.drop_last())
                .part(|p: nat| qp_triple_at(s, p, joint_present), xs.last())
                .ends(q)
        },
{
    reveal(qp_triples_at);
    lemma_rep_step(qp_triples_item(s, joint_present), p, n as nat);
    if xs.len() == 0 {
        assert(xs =~= Seq::empty());
    } else {
        assert(xs =~= xs.drop_last().push(xs.last()));
    }
    if n > 0 {
        if let Ok((done, r)) = rep_at(qp_triples_item(s, joint_present), p, (n - 1) as nat) {
            if let Ok((y, z)) = qp_triples_item(s, joint_present)(done, r) {
                assert(done.push(y).drop_last() =~= done);
            }
        }
    }
}

/// What the writer accepts as `n` items reads back, where each of them is one that
/// reading can give.
pub proof fn law_reads_qp_triples(
    a: Seq<bool>,
    xs: Seq<(i32, i32, Option<i32>)>,
    joint_present: bool,
    n: u64,
    s: Seq<bool>,
)
    requires
        qp_triples_can(xs, joint_present, n),
        forall|i: int| 0 <= i < xs.len() ==> qp_triple_ok(#[trigger] xs[i], joint_present),
        pre(put_qp_triples(a, xs, joint_present, n), s),
    ensures
        xs.len() == n,
        qp_triples_at(s, a.len(), joint_present, n) == Ok::<(Seq<(i32, i32, Option<i32>)>, nat), Fault>(
            (xs, put_qp_triples(a, xs, joint_present, n).len()),
        ),
{
    reveal(qp_triples_can);
    assert(qp_triples_ok(xs, joint_present, n)) by {
        reveal(qp_triples_ok);
    }
    law_pre_put_qp_triples(a, xs, joint_present, n, s);
}

/// Reading the items fails only with an error of this class.
pub broadcast proof fn law_faults_qp_triples(s: Seq<bool>, p: nat, joint_present: bool, n: u64)
    ensures
        #[trigger] qp_triples_at(s, p, joint_present, n) matches Err(f) ==> f == Fault::Invalid,
{
    broadcast use law_faults_qp_triple;

    reveal(qp_triples_at);
    let f = qp_triples_item(s, joint_present);
    assert forall|done: Seq<(i32, i32, Option<i32>)>, q: nat| (#[trigger] f(done, q)) matches Err(e)
        ==> e == Fault::Invalid by {}
    lemma_rep_faults(f, p, n as nat, |f: Fault| f == Fault::Invalid);
}

/// The list at position `p`, behind its length.
#[verifier::opaque]
pub open spec fn qp_list_at(s: Seq<bool>, p: nat, joint_present: bool) -> Read<Seq<(i32, i32, Option<i32>)>> {
    match ue_at(s, p) {
        Err(f) => Err(f),
        Ok((n, p)) => if n > 5 {
            Err(Fault::Invalid)
        } else {
            qp_triples_at(s, p, joint_present, (n + 1) as u64)
        },
    }
}

/// Writes the list behind its length.
#[verifier::opaque]
pub open spec fn put_qp_list(
    a: Seq<bool>,
    x: Seq<(i32, i32, Option<i32>)>,
    joint_present: bool,
) -> Seq<bool> {
    put_qp_triples(put_ue(a, (x.len() - 1) as nat), x, joint_present, x.len() as u64)
}

/// A list that reading can give.
#[verifier::opaque]
pub open spec fn qp_list_ok(x: Seq<(i32, i32, Option<i32>)>, joint_present: bool) -> bool {
    1 <= x.len() <= 6 && qp_triples_ok(x, joint_present, x.len() as u64)
}

/// A list that the writer accepts.
#[verifier::opaque]
pub open spec fn qp_list_can(x: Seq<(i32, i32, Option<i32>)>, joint_present: bool) -> bool {
    1 <= x.len() <= 6 && qp_triples_can(x, joint_present, x.len() as u64)
}

/// Parses the list.
fn parse_qp_list(
    r: &mut BitReader<'_>,
    joint_present: bool,
) -> (res: Result<Vec<(i32, i32, Option<i32>)>, BitstreamError>)
    ensures
        read_vec_is(qp_list_at(old(r).bits(), old(r).pos(), joint_present), res, *old(r), *final(r)),
{
    proof {
        reveal(qp_list_at);
    }
    let n: u32 = r.ue()?;
    if n > 5 {
        return Err(BitstreamError::invalid("pps_chroma_qp_offset_list_len_minus1 > 5 (7.4.3.5)"));
    }
    parse_qp_triples(r, joint_present, n as u64 + 1)
}

/// Emits the list.
fn write_qp_list(
    w: &mut BitWriter,
    x: &Vec<(i32, i32, Option<i32>)>,
    joint_present: bool,
) -> (res: Result<(), BitstreamError>)
    ensures
        write_is(qp_list_can(x@, joint_present), put_qp_list(old(w)@, x@, joint_present), res, final(w)@),
{
    proof {
        reveal(put_qp_list);
        reveal(qp_list_can);
    }
    if x.len() < 1 || x.len() > 6 {
        return Err(BitstreamError::invalid("pps_chroma_qp_offset_list_len_minus1 outside 0..=5 (7.4.3.5)"));
    }
    w.write_ue((x.len() - 1) as u32)?;
    write_qp_triples(w, x, joint_present, x.len() as u64)
}

/// Writing what was read gives back the bits that were read.
pub broadcast proof fn law_put_qp_list_at(s: Seq<bool>, p: nat, joint_present: bool)
    ensures
        #[trigger] qp_list_at(s, p, joint_present) matches Ok((x, q)) ==> {
            &&& qp_list_ok(x, joint_present)
            &&& qp_list_can(x, joint_present)
            &&& within(s, q) ==> within(s, p) && put_qp_list(upto(s, p), x, joint_present) == upto(s, q)
        },
{
    broadcast use {crate::bits::group_write_read, law_put_qp_triples_at};

    reveal(qp_list_at);
    reveal(put_qp_list);
    reveal(qp_list_ok);
    reveal(qp_list_can);
}

/// What was written reads back as the list that was written.
pub broadcast proof fn law_pre_put_qp_list(
    a: Seq<bool>,
    x: Seq<(i32, i32, Option<i32>)>,
    joint_present: bool,
    s: Seq<bool>,
)
    requires
        #[trigger] pre(put_qp_list(a, x, joint_present), s),
        qp_list_ok(x, joint_present),
    ensures
        pre(a, s),
        qp_list_can(x, joint_present),
        qp_list_at(s, a.len(), joint_present) == Ok::<(Seq<(i32, i32, Option<i32>)>, nat), Fault>(
            (x, put_qp_list(a, x, joint_present).len()),
        ),
{
    broadcast use {crate::bits::group_read_written, law_pre_put_qp_triples};

    reveal(qp_list_at);
    reveal(put_qp_list);
    reveal(qp_list_ok);
    reveal(qp_list_can);
}

/// The list is its length less 1, and then its items.
pub proof fn law_layout_qp_list(
    s: Seq<bool>,
    p: nat,
    joint_present: bool,
    x: Seq<(i32, i32, Option<i32>)>,
    q: nat,
)
    ensures
        qp_list_at(s, p, joint_present) == Ok::<(Seq<(i32, i32, Option<i32>)>, nat), Fault>((x, q)) <==> ({
            &&& 1 <= x.len() <= 6
            &&& cursor(s, p)
                .ue((x.len() - 1) as u32)
                .part(|p: nat| qp_triples_at(s, p, joint_present, x.len() as u64), x)
                .ends(q)
        }),
{
    broadcast use law_put_qp_triples_at;

    reveal(qp_list_at);
}

/// What the writer accepts as a list reads back, where the items are ones that reading
/// can give.
pub proof fn law_reads_qp_list(
    a: Seq<bool>,
    x: Seq<(i32, i32, Option<i32>)>,
    joint_present: bool,
    s: Seq<bool>,
)
    requires
        qp_list_can(x, joint_present),
        qp_triples_ok(x, joint_present, x.len() as u64),
        pre(put_qp_list(a, x, joint_present), s),
    ensures
        1 <= x.len() <= 6,
        qp_list_at(s, a.len(), joint_present) == Ok::<(Seq<(i32, i32, Option<i32>)>, nat), Fault>(
            (x, put_qp_list(a, x, joint_present).len()),
        ),
{
    reveal(qp_list_can);
    assert(qp_list_ok(x, joint_present)) by {
        reveal(qp_list_ok);
    }
    law_pre_put_qp_list(a, x, joint_present, s);
}

/// Reading the list fails only with an error of this class.
pub broadcast proof fn law_faults_qp_list(s: Seq<bool>, p: nat, joint_present: bool)
    ensures
        #[trigger] qp_list_at(s, p, joint_present) matches Err(f) ==> f == Fault::Invalid,
{
    broadcast use {crate::bits::law_faults_ue, law_faults_qp_triples};

    reveal(qp_list_at);
}

/// The mathematical model of a [`VvcPpsChromaToolOffsets`].
pub struct VvcPpsChromaToolOffsetsModel {
    pub pps_cb_qp_offset: i32,
    pub pps_cr_qp_offset: i32,
    pub pps_joint_cbcr_qp_offset_value: Option<i32>,
    pub pps_slice_chroma_qp_offsets_present_flag: u8,
    pub cu_chroma_qp_offset_list: Option<Seq<(i32, i32, Option<i32>)>>,
}

impl View for VvcPpsChromaToolOffsets {
    type V = VvcPpsChromaToolOffsetsModel;

    open spec fn view(&self) -> VvcPpsChromaToolOffsetsModel {
        VvcPpsChromaToolOffsetsModel {
            pps_cb_qp_offset: self.pps_cb_qp_offset,
            pps_cr_qp_offset: self.pps_cr_qp_offset,
            pps_joint_cbcr_qp_offset_value: self.pps_joint_cbcr_qp_offset_value,
            pps_slice_chroma_qp_offsets_present_flag: self.pps_slice_chroma_qp_offsets_present_flag,
            cu_chroma_qp_offset_list: opt_view(self.cu_chroma_qp_offset_list),
        }
    }
}

/// The chroma tool offsets block at position `p`.
#[verifier::opaque]
pub open spec fn chroma_offsets_at(s: Seq<bool>, p: nat) -> Read<VvcPpsChromaToolOffsetsModel> {
    match qp_off_at(s, p) { Err(f) => Err(f), Ok((pps_cb_qp_offset, p)) => {
    match qp_off_at(s, p) { Err(f) => Err(f), Ok((pps_cr_qp_offset, p)) => {
    let present = flag_at(s, p);
    let p = adv(p, 1);
    match (if present { read_some(qp_off_at(s, p)) } else { Ok((None, p)) })
    { Err(f) => Err(f), Ok((pps_joint_cbcr_qp_offset_value, p)) => {
    let pps_slice_chroma_qp_offsets_present_flag = u8_at(s, p, 1);
    let p = adv(p, 1);
    let present = flag_at(s, p);
    let p = adv(p, 1);
    match (if present {
        read_some(qp_list_at(s, p, pps_joint_cbcr_qp_offset_value.is_some()))
    } else {
        Ok((None, p))
    })
    { Err(f) => Err(f), Ok((cu_chroma_qp_offset_list, p)) => {
    Ok((
        VvcPpsChromaToolOffsetsModel {
            pps_cb_qp_offset,
            pps_cr_qp_offset,
            pps_joint_cbcr_qp_offset_value,
            pps_slice_chroma_qp_offsets_present_flag,
            cu_chroma_qp_offset_list,
        },
        p,
    ))
    }}}}}}}}
}

/// The bits `a` followed by the chroma tool offsets block.
#[verifier::opaque]
pub open spec fn put_chroma_offsets(a: Seq<bool>, x: VvcPpsChromaToolOffsetsModel) -> Seq<bool> {
    let a = put_qp_off(a, x.pps_cb_qp_offset);
    let a = put_qp_off(a, x.pps_cr_qp_offset);
    let a = put_flag(a, x.pps_joint_cbcr_qp_offset_value is Some);
    let a = match x.pps_joint_cbcr_qp_offset_value { Some(y) => put_qp_off(a, y), None => a };
    let a = put_bit(a, x.pps_slice_chroma_qp_offsets_present_flag as nat);
    let a = put_flag(a, x.cu_chroma_qp_offset_list is Some);
    let a = match x.cu_chroma_qp_offset_list {
        Some(y) => put_qp_list(a, y, x.pps_joint_cbcr_qp_offset_value.is_some()),
        None => a,
    };
    a
}

/// The values of the chroma tool offsets block that reading can give.
#[verifier::opaque]
pub open spec fn chroma_offsets_ok(x: VvcPpsChromaToolOffsetsModel) -> bool {
    &&& qp_off_ok(x.pps_cb_qp_offset)
    &&& qp_off_ok(x.pps_cr_qp_offset)
    &&& x.pps_joint_cbcr_qp_offset_value matches Some(y) ==> qp_off_ok(y)
    &&& fits(x.pps_slice_chroma_qp_offsets_present_flag as nat, 1)
    &&& x.cu_chroma_qp_offset_list matches Some(y)
        ==> qp_list_ok(y, x.pps_joint_cbcr_qp_offset_value.is_some())
}

/// The values of the chroma tool offsets block that the writer accepts.
#[verifier::opaque]
pub open spec fn chroma_offsets_can(x: VvcPpsChromaToolOffsetsModel) -> bool {
    &&& qp_off_can(x.pps_cb_qp_offset)
    &&& qp_off_can(x.pps_cr_qp_offset)
    &&& x.pps_joint_cbcr_qp_offset_value matches Some(y) ==> qp_off_can(y)
    &&& x.cu_chroma_qp_offset_list matches Some(y)
        ==> qp_list_can(y, x.pps_joint_cbcr_qp_offset_value.is_some())
}

/// Parses the chroma tool offsets block.
fn parse_chroma_offsets(r: &mut BitReader<'_>) -> (res: Result<VvcPpsChromaToolOffsets, BitstreamError>)
    ensures
        read_view_is(chroma_offsets_at(old(r).bits(), old(r).pos()), res, *old(r), *final(r)),
{
    proof {
        reveal(chroma_offsets_at);
    }
    let pps_cb_qp_offset = parse_qp_off(r, "pps_cb_qp_offset")?;
    let pps_cr_qp_offset = parse_qp_off(r, "pps_cr_qp_offset")?;
    let present: bool = r.flag();
    let pps_joint_cbcr_qp_offset_value = if present {
        Some(parse_qp_off(r, "pps_joint_cbcr_qp_offset_value")?)
    } else {
        None
    };
    let pps_slice_chroma_qp_offsets_present_flag: u8 = r.bit();
    let present: bool = r.flag();
    let cu_chroma_qp_offset_list = if present {
        Some(parse_qp_list(r, pps_joint_cbcr_qp_offset_value.is_some())?)
    } else {
        None
    };
    Ok(
        VvcPpsChromaToolOffsets {
            pps_cb_qp_offset,
            pps_cr_qp_offset,
            pps_joint_cbcr_qp_offset_value,
            pps_slice_chroma_qp_offsets_present_flag,
            cu_chroma_qp_offset_list,
        },
    )
}

/// Emits the chroma tool offsets block, the inverse of [`parse_chroma_offsets`].
fn write_chroma_offsets(w: &mut BitWriter, x: &VvcPpsChromaToolOffsets) -> (res: Result<(), BitstreamError>)
    ensures
        write_is(chroma_offsets_can(x@), put_chroma_offsets(old(w)@, x@), res, final(w)@),
{
    proof {
        reveal(put_chroma_offsets);
        reveal(chroma_offsets_can);
    }
    write_qp_off(w, &x.pps_cb_qp_offset, "pps_cb_qp_offset")?;
    write_qp_off(w, &x.pps_cr_qp_offset, "pps_cr_qp_offset")?;
    w.write_flag(x.pps_joint_cbcr_qp_offset_value.is_some());
    if let Some(y) = &x.pps_joint_cbcr_qp_offset_value {
        write_qp_off(w, y, "pps_joint_cbcr_qp_offset_value")?;
    }
    w.write_bit(x.pps_slice_chroma_qp_offsets_present_flag as u32);
    w.write_flag(x.cu_chroma_qp_offset_list.is_some());
    if let Some(y) = &x.cu_chroma_qp_offset_list {
        write_qp_list(w, y, x.pps_joint_cbcr_qp_offset_value.is_some())?;
    }
    Ok(())
}

/// Writing the chroma tool offsets block gives back the bits it was read from.
pub broadcast proof fn law_put_chroma_offsets_at(s: Seq<bool>, p: nat)
    ensures
        #[trigger] chroma_offsets_at(s, p) matches Ok((x, q)) ==> {
            &&& chroma_offsets_ok(x)
            &&& chroma_offsets_can(x)
            &&& within(s, q) ==> within(s, p) && put_chroma_offsets(upto(s, p), x) == upto(s, q)
        },
{
    broadcast use {crate::bits::group_write_read, law_put_qp_off_at, law_put_qp_list_at};

    reveal(chroma_offsets_at);
    reveal(put_chroma_offsets);
    reveal(chroma_offsets_ok);
    reveal(chroma_offsets_can);
}

/// Reading gives back the chroma tool offsets block as it was written.
pub broadcast proof fn law_pre_put_chroma_offsets(a: Seq<bool>, x: VvcPpsChromaToolOffsetsModel, s: Seq<bool>)
    requires
        #[trigger] pre(put_chroma_offsets(a, x), s),
        chroma_offsets_ok(x),
    ensures
        pre(a, s),
        chroma_offsets_can(x),
        chroma_offsets_at(s, a.len()) == Ok::<(VvcPpsChromaToolOffsetsModel, nat), Fault>(
            (x, put_chroma_offsets(a, x).len()),
        ),
{
    broadcast use {crate::bits::group_read_written, law_pre_put_qp_off, law_pre_put_qp_list};

    reveal(chroma_offsets_at);
    reveal(put_chroma_offsets);
    reveal(chroma_offsets_ok);
    reveal(chroma_offsets_can);
}

/// The layout of the chroma tool offsets block: reading at `p` gives `x` and
/// ends at `q` if and only if these elements stand there in this order.
pub proof fn law_layout_chroma_offsets(s: Seq<bool>, p: nat, x: VvcPpsChromaToolOffsetsModel, q: nat)
    ensures
        chroma_offsets_at(s, p) == Ok::<(VvcPpsChromaToolOffsetsModel, nat), Fault>((x, q)) <==> cursor(s, p)
            .part(|p: nat| qp_off_at(s, p), x.pps_cb_qp_offset)
            .part(|p: nat| qp_off_at(s, p), x.pps_cr_qp_offset)
            .flagged(|p: nat| qp_off_at(s, p), x.pps_joint_cbcr_qp_offset_value)
            .u8(1, x.pps_slice_chroma_qp_offsets_present_flag)
            .flagged(
                |p: nat| qp_list_at(s, p, x.pps_joint_cbcr_qp_offset_value.is_some()),
                x.cu_chroma_qp_offset_list,
            )
            .ends(q),
{
    reveal(chroma_offsets_at);
}

/// Reading the chroma tool offsets block fails only with an error of this
/// class.
pub broadcast proof fn law_faults_chroma_offsets(s: Seq<bool>, p: nat)
    ensures
        #[trigger] chroma_offsets_at(s, p) matches Err(f) ==> f == Fault::Invalid,
{
    broadcast use {law_faults_qp_off, law_faults_qp_list};

    reveal(chroma_offsets_at);
}

/// What the writer accepts reads back: the chroma tool offsets block, where
/// each field fits its width and what is not coded has the value that is taken
/// for it.
pub proof fn law_reads_chroma_offsets(a: Seq<bool>, x: VvcPpsChromaToolOffsetsModel, s: Seq<bool>)
    requires
        chroma_offsets_can(x),
        qp_off_ok(x.pps_cb_qp_offset),
        qp_off_ok(x.pps_cr_qp_offset),
        x.pps_joint_cbcr_qp_offset_value matches Some(y) ==> qp_off_ok(y),
        fits(x.pps_slice_chroma_qp_offsets_present_flag as nat, 1),
        x.cu_chroma_qp_offset_list matches Some(y)
            ==> qp_list_ok(y, x.pps_joint_cbcr_qp_offset_value.is_some()),
        pre(put_chroma_offsets(a, x), s),
    ensures
        chroma_offsets_at(s, a.len()) == Ok::<(VvcPpsChromaToolOffsetsModel, nat), Fault>(
            (x, put_chroma_offsets(a, x).len()),
        ),
{
    assert(chroma_offsets_ok(x)) by {
        broadcast use crate::bits::law_fits_small;

        reveal(chroma_offsets_ok);
        reveal(chroma_offsets_can);
    }
    law_pre_put_chroma_offsets(a, x, s);
}

/// Each field of the model of a [`VvcPpsChromaToolOffsets`] is the field of that name.
pub proof fn law_view_chroma_offsets(x: VvcPpsChromaToolOffsets)
    ensures
        x@.pps_cb_qp_offset == x.pps_cb_qp_offset,
        x@.pps_cr_qp_offset == x.pps_cr_qp_offset,
        x@.pps_joint_cbcr_qp_offset_value == x.pps_joint_cbcr_qp_offset_value,
        x@.pps_slice_chroma_qp_offsets_present_flag == x.pps_slice_chroma_qp_offsets_present_flag,
        x@.cu_chroma_qp_offset_list == opt_view(x.cu_chroma_qp_offset_list),
{
}

/// The `pps_deblocking_filter_control_present_flag` block (§7.3.2.5).
#[derive(Debug, Clone, Copy, PartialEq, Eq, Default)]
pub struct VvcPpsDeblocking {
    /// `pps_deblocking_filter_override_enabled_flag` u(1).
    pub pps_deblocking_filter_override_enabled_flag: u8,
    /// `pps_deblocking_filter_disabled_flag` u(1).
    pub pps_deblocking_filter_disabled_flag: u8,
    /// `pps_dbf_info_in_ph_flag` u(1) — coded only when
    /// `!pps_no_pic_partition_flag` and override is enabled; inferred
    /// 0.
    pub pps_dbf_info_in_ph_flag: u8,
    /// `pps_luma_beta_offset_div2` se(v) — −12..=12; the four chroma
    /// offsets follow only when `pps_chroma_tool_offsets_present_flag`.
    pub pps_luma_beta_offset_div2: i32,
    /// `pps_luma_tc_offset_div2` se(v) — −12..=12.
    pub pps_luma_tc_offset_div2: i32,
    /// `(pps_cb_beta_offset_div2, pps_cb_tc_offset_div2)` — coded
    /// only with chroma tool offsets; inferred = luma values.
    pub pps_cb_offsets_div2: (i32, i32),
    /// `(pps_cr_beta_offset_div2, pps_cr_tc_offset_div2)` — ditto.
    pub pps_cr_offsets_div2: (i32, i32),
}

/// A pair of deblocking offsets at position `p`.
#[verifier::opaque]
pub open spec fn dbf_pair_at(s: Seq<bool>, p: nat) -> Read<(i32, i32)> {
    match se_at(s, p) { Err(f) => Err(f), Ok((beta, p)) => {
    if !(-12 <= beta && beta <= 12) { Err(Fault::Invalid) } else {
    match se_at(s, p) { Err(f) => Err(f), Ok((tc, p)) => {
    if !(-12 <= tc && tc <= 12) { Err(Fault::Invalid) } else {
    Ok(((beta, tc), p)) }}}}}}
}

/// The bits `a` followed by a pair of deblocking offsets.
#[verifier::opaque]
pub open spec fn put_dbf_pair(a: Seq<bool>, x: (i32, i32)) -> Seq<bool> {
    let a = put_se(a, x.0 as int);
    let a = put_se(a, x.1 as int);
    a
}

/// The values of a pair of deblocking offsets that reading can give.
#[verifier::opaque]
pub open spec fn dbf_pair_ok(x: (i32, i32)) -> bool {
    &&& -12 <= x.0 && x.0 <= 12
    &&& -12 <= x.1 && x.1 <= 12
}

/// The values of a pair of deblocking offsets that the writer accepts.
#[verifier::opaque]
pub open spec fn dbf_pair_can(x: (i32, i32)) -> bool {
    &&& -12 <= x.0 && x.0 <= 12
    &&& -12 <= x.1 && x.1 <= 12
}

/// Parses a pair of deblocking offsets.
fn parse_dbf_pair(r: &mut BitReader<'_>) -> (res: Result<(i32, i32), BitstreamError>)
    ensures
        read_is(dbf_pair_at(old(r).bits(), old(r).pos()), res, *old(r), *final(r)),
{
    proof {
        reveal(dbf_pair_at);
    }
    let beta: i32 = r.se()?;
    if !(-12 <= beta && beta <= 12) {
        return Err(
            Message::new("deblocking offset ")
                .num(beta as i128)
                .with(" outside -12..=12 (7.4.3.5)")
                .invalid(),
        );
    }
    let tc: i32 = r.se()?;
    if !(-12 <= tc && tc <= 12) {
        return Err(
            Message::new("deblocking offset ").num(tc as i128).with(" outside -12..=12 (7.4.3.5)").invalid(),
        );
    }
    Ok((beta, tc))
}

/// Emits a pair of deblocking offsets, the inverse of [`parse_dbf_pair`].
fn write_dbf_pair(w: &mut BitWriter, x: &(i32, i32)) -> (res: Result<(), BitstreamError>)
    ensures
        write_is(dbf_pair_can(*x), put_dbf_pair(old(w)@, *x), res, final(w)@),
{
    proof {
        reveal(put_dbf_pair);
        reveal(dbf_pair_can);
    }
    w.write_se(x.0)?;
    if !(-12 <= x.0 && x.0 <= 12) {
        return Err(
            Message::new("deblocking offset ").num(x.0 as i128).with(" outside -12..=12 (7.4.3.5)").invalid(),
        );
    }
    w.write_se(x.1)?;
    if !(-12 <= x.1 && x.1 <= 12) {
        return Err(
            Message::new("deblocking offset ").num(x.1 as i128).with(" outside -12..=12 (7.4.3.5)").invalid(),
        );
    }
    Ok(())
}

/// Writing a pair of deblocking offsets gives back the bits it was read from.
pub broadcast proof fn law_put_dbf_pair_at(s: Seq<bool>, p: nat)
    ensures
        #[trigger] dbf_pair_at(s, p) matches Ok((x, q)) ==> {
            &&& dbf_pair_ok(x)
            &&& dbf_pair_can(x)
            &&& within(s, q) ==> within(s, p) && put_dbf_pair(upto(s, p), x) == upto(s, q)
        },
{
    broadcast use crate::bits::group_write_read;

    reveal(dbf_pair_at);
    reveal(put_dbf_pair);
    reveal(dbf_pair_ok);
    reveal(dbf_pair_can);
}

/// Reading gives back a pair of deblocking offsets as it was written.
pub broadcast proof fn law_pre_put_dbf_pair(a: Seq<bool>, x: (i32, i32), s: Seq<bool>)
    requires
        #[trigger] pre(put_dbf_pair(a, x), s),
        dbf_pair_ok(x),
    ensures
        pre(a, s),
        dbf_pair_can(x),
        dbf_pair_at(s, a.len()) == Ok::<((i32, i32), nat), Fault>((x, put_dbf_pair(a, x).len())),
{
    broadcast use crate::bits::group_read_written;

    reveal(dbf_pair_at);
    reveal(put_dbf_pair);
    reveal(dbf_pair_ok);
    reveal(dbf_pair_can);
}

/// The layout of a pair of deblocking offsets: reading at `p` gives `x` and
/// ends at `q` if and only if these elements stand there in this order, and the
/// values are allowed.
pub proof fn law_layout_dbf_pair(s: Seq<bool>, p: nat, x: (i32, i32), q: nat)
    ensures
        dbf_pair_at(s, p) == Ok::<((i32, i32), nat), Fault>((x, q)) <==> ({
            &&& cursor(s, p)
                .se(x.0)
                .se(x.1)
                .ends(q)
            &&& -12 <= x.0 && x.0 <= 12
            &&& -12 <= x.1 && x.1 <= 12
        }),
{
    reveal(dbf_pair_at);
}

/// Reading a pair of deblocking offsets fails only with an error of this class.
pub broadcast proof fn law_faults_dbf_pair(s: Seq<bool>, p: nat)
    ensures
        #[trigger] dbf_pair_at(s, p) matches Err(f) ==> f == Fault::Invalid,
{
    broadcast use crate::bits::law_faults_se;

    reveal(dbf_pair_at);
}

/// What the writer accepts reads back: a pair of deblocking offsets, where each
/// field fits its width and what is not coded has the value that is taken for
/// it.
pub proof fn law_reads_dbf_pair(a: Seq<bool>, x: (i32, i32), s: Seq<bool>)
    requires
        dbf_pair_can(x),
        pre(put_dbf_pair(a, x), s),
    ensures
        dbf_pair_at(s, a.len()) == Ok::<((i32, i32), nat), Fault>((x, put_dbf_pair(a, x).len())),
{
    assert(dbf_pair_ok(x)) by {
        broadcast use crate::bits::law_fits_small;

        reveal(dbf_pair_ok);
        reveal(dbf_pair_can);
    }
    law_pre_put_dbf_pair(a, x, s);
}

/// The deblocking control block at position `p`.
#[verifier::opaque]
pub open spec fn deblocking_at(
    s: Seq<bool>,
    p: nat,
    no_partition: u8,
    chroma: bool,
) -> Read<VvcPpsDeblocking> {
    let pps_deblocking_filter_override_enabled_flag = u8_at(s, p, 1);
    let p = adv(p, 1);
    let pps_deblocking_filter_disabled_flag = u8_at(s, p, 1);
    let p = adv(p, 1);
    let pps_dbf_info_in_ph_flag = u8_if(
        s,
        p,
        1,
        no_partition == 0 && pps_deblocking_filter_override_enabled_flag != 0,
        0,
    );
    let p = adv_if(p, 1, no_partition == 0 && pps_deblocking_filter_override_enabled_flag != 0);
    match se_if(s, p, pps_deblocking_filter_disabled_flag == 0, 0)
    { Err(f) => Err(f), Ok((pps_luma_beta_offset_div2, p)) => {
    if !(-12 <= pps_luma_beta_offset_div2 && pps_luma_beta_offset_div2 <= 12) { Err(Fault::Invalid) } else {
    match se_if(s, p, pps_deblocking_filter_disabled_flag == 0, 0)
    { Err(f) => Err(f), Ok((pps_luma_tc_offset_div2, p)) => {
    if !(-12 <= pps_luma_tc_offset_div2 && pps_luma_tc_offset_div2 <= 12) { Err(Fault::Invalid) } else {
    match (if pps_deblocking_filter_disabled_flag == 0 && chroma {
        dbf_pair_at(s, p)
    } else {
        Ok(((pps_luma_beta_offset_div2, pps_luma_tc_offset_div2), p))
    })
    { Err(f) => Err(f), Ok((pps_cb_offsets_div2, p)) => {
    match (if pps_deblocking_filter_disabled_flag == 0 && chroma {
        dbf_pair_at(s, p)
    } else {
        Ok(((pps_luma_beta_offset_div2, pps_luma_tc_offset_div2), p))
    })
    { Err(f) => Err(f), Ok((pps_cr_offsets_div2, p)) => {
    Ok((
        VvcPpsDeblocking {
            pps_deblocking_filter_override_enabled_flag,
            pps_deblocking_filter_disabled_flag,
            pps_dbf_info_in_ph_flag,
            pps_luma_beta_offset_div2,
            pps_luma_tc_offset_div2,
            pps_cb_offsets_div2,
            pps_cr_offsets_div2,
        },
        p,
    ))
    }}}}}}}}}}
}

/// The bits `a` followed by the deblocking control block.
#[verifier::opaque]
pub open spec fn put_deblocking(
    a: Seq<bool>,
    x: VvcPpsDeblocking,
    no_partition: u8,
    chroma: bool,
) -> Seq<bool> {
    let a = put_bit(a, x.pps_deblocking_filter_override_enabled_flag as nat);
    let a = put_bit(a, x.pps_deblocking_filter_disabled_flag as nat);
    let a = put_bit_if(
        a,
        x.pps_dbf_info_in_ph_flag as nat,
        no_partition == 0 && x.pps_deblocking_filter_override_enabled_flag != 0,
    );
    let a = put_se_if(a, x.pps_luma_beta_offset_div2 as int, x.pps_deblocking_filter_disabled_flag == 0);
    let a = put_se_if(a, x.pps_luma_tc_offset_div2 as int, x.pps_deblocking_filter_disabled_flag == 0);
    let a = if x.pps_deblocking_filter_disabled_flag == 0 && chroma {
        put_dbf_pair(a, x.pps_cb_offsets_div2)
    } else {
        a
    };
    let a = if x.pps_deblocking_filter_disabled_flag == 0 && chroma {
        put_dbf_pair(a, x.pps_cr_offsets_div2)
    } else {
        a
    };
    a
}

/// The values of the deblocking control block that reading can give.
#[verifier::opaque]
pub open spec fn deblocking_ok(x: VvcPpsDeblocking, no_partition: u8, chroma: bool) -> bool {
    &&& fits(x.pps_deblocking_filter_override_enabled_flag as nat, 1)
    &&& fits(x.pps_deblocking_filter_disabled_flag as nat, 1)
    &&& if no_partition == 0
        && x.pps_deblocking_filter_override_enabled_flag != 0 {
            fits(x.pps_dbf_info_in_ph_flag as nat, 1)
        } else {
            x.pps_dbf_info_in_ph_flag == 0
        }
    &&& x.pps_deblocking_filter_disabled_flag != 0
        || (
            -12 <= x.pps_luma_beta_offset_div2
                && x.pps_luma_beta_offset_div2 <= 12
                && -12 <= x.pps_luma_tc_offset_div2
                && x.pps_luma_tc_offset_div2 <= 12
        )
    &&& if x.pps_deblocking_filter_disabled_flag == 0 {
        se_fits(x.pps_luma_beta_offset_div2 as int)
    } else {
        x.pps_luma_beta_offset_div2 == 0
    }
    &&& -12 <= x.pps_luma_beta_offset_div2 && x.pps_luma_beta_offset_div2 <= 12
    &&& if x.pps_deblocking_filter_disabled_flag == 0 {
        se_fits(x.pps_luma_tc_offset_div2 as int)
    } else {
        x.pps_luma_tc_offset_div2 == 0
    }
    &&& -12 <= x.pps_luma_tc_offset_div2 && x.pps_luma_tc_offset_div2 <= 12
    &&& if x.pps_deblocking_filter_disabled_flag == 0
        && chroma {
            dbf_pair_ok(x.pps_cb_offsets_div2)
        } else {
            x.pps_cb_offsets_div2 == (x.pps_luma_beta_offset_div2, x.pps_luma_tc_offset_div2)
        }
    &&& if x.pps_deblocking_filter_disabled_flag == 0
        && chroma {
            dbf_pair_ok(x.pps_cr_offsets_div2)
        } else {
            x.pps_cr_offsets_div2 == (x.pps_luma_beta_offset_div2, x.pps_luma_tc_offset_div2)
        }
}

/// The values of the deblocking control block that the writer accepts.
#[verifier::opaque]
pub open spec fn deblocking_can(x: VvcPpsDeblocking, no_partition: u8, chroma: bool) -> bool {
    &&& x.pps_deblocking_filter_disabled_flag != 0
        || (
            -12 <= x.pps_luma_beta_offset_div2
                && x.pps_luma_beta_offset_div2 <= 12
                && -12 <= x.pps_luma_tc_offset_div2
                && x.pps_luma_tc_offset_div2 <= 12
        )
    &&& x.pps_deblocking_filter_disabled_flag == 0 ==> se_fits(x.pps_luma_beta_offset_div2 as int)
    &&& x.pps_deblocking_filter_disabled_flag == 0 ==> se_fits(x.pps_luma_tc_offset_div2 as int)
    &&& x.pps_deblocking_filter_disabled_flag == 0 && chroma ==> dbf_pair_can(x.pps_cb_offsets_div2)
    &&& x.pps_deblocking_filter_disabled_flag == 0 && chroma ==> dbf_pair_can(x.pps_cr_offsets_div2)
}

/// Parses the deblocking control block.
fn parse_deblocking(
    r: &mut BitReader<'_>,
    no_partition: u8,
    chroma: bool,
) -> (res: Result<VvcPpsDeblocking, BitstreamError>)
    ensures
        read_is(deblocking_at(old(r).bits(), old(r).pos(), no_partition, chroma), res, *old(r), *final(r)),
{
    proof {
        reveal(deblocking_at);
    }
    let pps_deblocking_filter_override_enabled_flag: u8 = r.bit();
    let pps_deblocking_filter_disabled_flag: u8 = r.bit();
    let pps_dbf_info_in_ph_flag: u8 = r.bit_if(
        no_partition == 0 && pps_deblocking_filter_override_enabled_flag != 0,
        0,
    );
    let pps_luma_beta_offset_div2: i32 = r.se_if(pps_deblocking_filter_disabled_flag == 0, 0)?;
    if !(-12 <= pps_luma_beta_offset_div2 && pps_luma_beta_offset_div2 <= 12) {
        return Err(
            Message::new("deblocking offset ")
                .num(pps_luma_beta_offset_div2 as i128)
                .with(" outside -12..=12 (7.4.3.5)")
                .invalid(),
        );
    }
    let pps_luma_tc_offset_div2: i32 = r.se_if(pps_deblocking_filter_disabled_flag == 0, 0)?;
    if !(-12 <= pps_luma_tc_offset_div2 && pps_luma_tc_offset_div2 <= 12) {
        return Err(
            Message::new("deblocking offset ")
                .num(pps_luma_tc_offset_div2 as i128)
                .with(" outside -12..=12 (7.4.3.5)")
                .invalid(),
        );
    }
    let pps_cb_offsets_div2 = if pps_deblocking_filter_disabled_flag == 0 && chroma {
        parse_dbf_pair(r)?
    } else {
        (pps_luma_beta_offset_div2, pps_luma_tc_offset_div2)
    };
    let pps_cr_offsets_div2 = if pps_deblocking_filter_disabled_flag == 0 && chroma {
        parse_dbf_pair(r)?
    } else {
        (pps_luma_beta_offset_div2, pps_luma_tc_offset_div2)
    };
    Ok(
        VvcPpsDeblocking {
            pps_deblocking_filter_override_enabled_flag,
            pps_deblocking_filter_disabled_flag,
            pps_dbf_info_in_ph_flag,
            pps_luma_beta_offset_div2,
            pps_luma_tc_offset_div2,
            pps_cb_offsets_div2,
            pps_cr_offsets_div2,
        },
    )
}

/// Emits the deblocking control block, the inverse of [`parse_deblocking`].
fn write_deblocking(
    w: &mut BitWriter,
    x: &VvcPpsDeblocking,
    no_partition: u8,
    chroma: bool,
) -> (res: Result<(), BitstreamError>)
    ensures
        write_is(
            deblocking_can(*x, no_partition, chroma),
            put_deblocking(old(w)@, *x, no_partition, chroma),
            res,
            final(w)@,
        ),
{
    proof {
        reveal(put_deblocking);
        reveal(deblocking_can);
    }
    w.write_bit(x.pps_deblocking_filter_override_enabled_flag as u32);
    w.write_bit(x.pps_deblocking_filter_disabled_flag as u32);
    w.write_bit_if(
        x.pps_dbf_info_in_ph_flag as u32,
        no_partition == 0 && x.pps_deblocking_filter_override_enabled_flag != 0,
    );
    if !(
        x.pps_deblocking_filter_disabled_flag != 0
        || (-12 <= x.pps_luma_beta_offset_div2 && x.pps_luma_beta_offset_div2 <= 12 && -12 <= x.pps_luma_tc_offset_div2 && x.pps_luma_tc_offset_div2 <= 12)
    ) {
        return Err(
            if !(-12 <= x.pps_luma_beta_offset_div2 && x.pps_luma_beta_offset_div2 <= 12) {
                Message::new("deblocking offset ")
                    .num(x.pps_luma_beta_offset_div2 as i128)
                    .with(" outside -12..=12 (7.4.3.5)")
                    .invalid()
            } else {
                Message::new("deblocking offset ")
                    .num(x.pps_luma_tc_offset_div2 as i128)
                    .with(" outside -12..=12 (7.4.3.5)")
                    .invalid()
            },
        );
    }
    w.write_se_if(x.pps_luma_beta_offset_div2, x.pps_deblocking_filter_disabled_flag == 0)?;
    w.write_se_if(x.pps_luma_tc_offset_div2, x.pps_deblocking_filter_disabled_flag == 0)?;
    if x.pps_deblocking_filter_disabled_flag == 0 && chroma { write_dbf_pair(w, &x.pps_cb_offsets_div2)?; }
    if x.pps_deblocking_filter_disabled_flag == 0 && chroma { write_dbf_pair(w, &x.pps_cr_offsets_div2)?; }
    Ok(())
}

/// Writing the deblocking control block gives back the bits it was read from.
pub broadcast proof fn law_put_deblocking_at(s: Seq<bool>, p: nat, no_partition: u8, chroma: bool)
    ensures
        #[trigger] deblocking_at(s, p, no_partition, chroma) matches Ok((x, q)) ==> {
            &&& deblocking_ok(x, no_partition, chroma)
            &&& deblocking_can(x, no_partition, chroma)
            &&& within(s, q)
                ==> within(s, p)
                && put_deblocking(upto(s, p), x, no_partition, chroma) == upto(s, q)
        },
{
    broadcast use {crate::bits::group_write_read, law_put_dbf_pair_at};

    reveal(deblocking_at);
    reveal(put_deblocking);
    reveal(deblocking_ok);
    reveal(deblocking_can);
}

/// Reading gives back the deblocking control block as it was written.
pub broadcast proof fn law_pre_put_deblocking(
    a: Seq<bool>,
    x: VvcPpsDeblocking,
    no_partition: u8,
    chroma: bool,
    s: Seq<bool>,
)
    requires
        #[trigger] pre(put_deblocking(a, x, no_partition, chroma), s),
        deblocking_ok(x, no_partition, chroma),
    ensures
        pre(a, s),
        deblocking_can(x, no_partition, chroma),
        deblocking_at(s, a.len(), no_partition, chroma) == Ok::<(VvcPpsDeblocking, nat), Fault>(
            (x, put_deblocking(a, x, no_partition, chroma).len()),
        ),
{
    broadcast use {crate::bits::group_read_written, law_pre_put_dbf_pair};

    reveal(deblocking_at);
    reveal(put_deblocking);
    reveal(deblocking_ok);
    reveal(deblocking_can);
}

/// The layout of the deblocking control block: reading at `p` gives `x` and
/// ends at `q` if and only if these elements stand there in this order, and the
/// values are allowed.
pub proof fn law_layout_deblocking(
    s: Seq<bool>,
    p: nat,
    no_partition: u8,
    chroma: bool,
    x: VvcPpsDeblocking,
    q: nat,
)
    ensures
        deblocking_at(s, p, no_partition, chroma) == Ok::<(VvcPpsDeblocking, nat), Fault>((x, q)) <==> ({
            &&& cursor(s, p)
                .u8(1, x.pps_deblocking_filter_override_enabled_flag)
                .u8(1, x.pps_deblocking_filter_disabled_flag)
                .u8_if(
                    no_partition == 0 && x.pps_deblocking_filter_override_enabled_flag != 0,
                    1,
                    x.pps_dbf_info_in_ph_flag,
                    0,
                )
                .se_if(x.pps_deblocking_filter_disabled_flag == 0, x.pps_luma_beta_offset_div2, 0)
                .se_if(x.pps_deblocking_filter_disabled_flag == 0, x.pps_luma_tc_offset_div2, 0)
                .part_or(
                    x.pps_deblocking_filter_disabled_flag == 0 && chroma,
                    |p: nat| dbf_pair_at(s, p),
                    x.pps_cb_offsets_div2,
                    (x.pps_luma_beta_offset_div2, x.pps_luma_tc_offset_div2),
                )
                .part_or(
                    x.pps_deblocking_filter_disabled_flag == 0 && chroma,
                    |p: nat| dbf_pair_at(s, p),
                    x.pps_cr_offsets_div2,
                    (x.pps_luma_beta_offset_div2, x.pps_luma_tc_offset_div2),
                )
                .ends(q)
            &&& -12 <= x.pps_luma_beta_offset_div2 && x.pps_luma_beta_offset_div2 <= 12
            &&& -12 <= x.pps_luma_tc_offset_div2 && x.pps_luma_tc_offset_div2 <= 12
        }),
{
    reveal(deblocking_at);
    reveal(adv_if);
    reveal(se_if);
    reveal(u8_if);
}

/// Reading the deblocking control block fails only with an error of this class.
pub broadcast proof fn law_faults_deblocking(s: Seq<bool>, p: nat, no_partition: u8, chroma: bool)
    ensures
        #[trigger] deblocking_at(s, p, no_partition, chroma) matches Err(f) ==> f == Fault::Invalid,
{
    broadcast use {crate::bits::law_faults_se, law_faults_dbf_pair};

    reveal(deblocking_at);
    reveal(se_if);
}

/// What the writer accepts reads back: the deblocking control block, where each
/// field fits its width and what is not coded has the value that is taken for
/// it.
pub proof fn law_reads_deblocking(
    a: Seq<bool>,
    x: VvcPpsDeblocking,
    no_partition: u8,
    chroma: bool,
    s: Seq<bool>,
)
    requires
        deblocking_can(x, no_partition, chroma),
        fits(x.pps_deblocking_filter_override_enabled_flag as nat, 1),
        fits(x.pps_deblocking_filter_disabled_flag as nat, 1),
        if no_partition == 0 && x.pps_deblocking_filter_override_enabled_flag != 0 {
            fits(x.pps_dbf_info_in_ph_flag as nat, 1)
        } else {
            x.pps_dbf_info_in_ph_flag == 0
        },
        !(x.pps_deblocking_filter_disabled_flag == 0) ==> x.pps_luma_beta_offset_div2 == 0,
        !(x.pps_deblocking_filter_disabled_flag == 0) ==> x.pps_luma_tc_offset_div2 == 0,
        if x.pps_deblocking_filter_disabled_flag == 0 && chroma {
            dbf_pair_ok(x.pps_cb_offsets_div2)
        } else {
            x.pps_cb_offsets_div2 == (x.pps_luma_beta_offset_div2, x.pps_luma_tc_offset_div2)
        },
        if x.pps_deblocking_filter_disabled_flag == 0 && chroma {
            dbf_pair_ok(x.pps_cr_offsets_div2)
        } else {
            x.pps_cr_offsets_div2 == (x.pps_luma_beta_offset_div2, x.pps_luma_tc_offset_div2)
        },
        pre(put_deblocking(a, x, no_partition, chroma), s),
    ensures
        deblocking_at(s, a.len(), no_partition, chroma) == Ok::<(VvcPpsDeblocking, nat), Fault>(
            (x, put_deblocking(a, x, no_partition, chroma).len()),
        ),
{
    assert(deblocking_ok(x, no_partition, chroma)) by {
        broadcast use crate::bits::law_fits_small;

        reveal(deblocking_ok);
        reveal(deblocking_can);
    }
    law_pre_put_deblocking(a, x, no_partition, chroma, s);
}

/// The four scaling window offsets at position `p`.
#[verifier::opaque]
pub open spec fn scaling_win_at(s: Seq<bool>, p: nat) -> Read<(i32, i32, i32, i32)> {
    match se_at(s, p) { Err(f) => Err(f), Ok((left, p)) => {
    match se_at(s, p) { Err(f) => Err(f), Ok((right, p)) => {
    match se_at(s, p) { Err(f) => Err(f), Ok((top, p)) => {
    match se_at(s, p) { Err(f) => Err(f), Ok((bottom, p)) => {
    Ok(((left, right, top, bottom), p)) }}}}}}}}
}

/// The bits `a` followed by the four scaling window offsets.
#[verifier::opaque]
pub open spec fn put_scaling_win(a: Seq<bool>, x: (i32, i32, i32, i32)) -> Seq<bool> {
    let a = put_se(a, x.0 as int);
    let a = put_se(a, x.1 as int);
    let a = put_se(a, x.2 as int);
    let a = put_se(a, x.3 as int);
    a
}

/// The values of the four scaling window offsets that reading can give.
#[verifier::opaque]
pub open spec fn scaling_win_ok(x: (i32, i32, i32, i32)) -> bool {
    &&& se_fits(x.0 as int)
    &&& se_fits(x.1 as int)
    &&& se_fits(x.2 as int)
    &&& se_fits(x.3 as int)
}

/// The values of the four scaling window offsets that the writer accepts.
#[verifier::opaque]
pub open spec fn scaling_win_can(x: (i32, i32, i32, i32)) -> bool {
    &&& se_fits(x.0 as int)
    &&& se_fits(x.1 as int)
    &&& se_fits(x.2 as int)
    &&& se_fits(x.3 as int)
}

/// Parses the four scaling window offsets.
fn parse_scaling_win(r: &mut BitReader<'_>) -> (res: Result<(i32, i32, i32, i32), BitstreamError>)
    ensures
        read_is(scaling_win_at(old(r).bits(), old(r).pos()), res, *old(r), *final(r)),
{
    proof {
        reveal(scaling_win_at);
    }
    let left: i32 = r.se()?;
    let right: i32 = r.se()?;
    let top: i32 = r.se()?;
    let bottom: i32 = r.se()?;
    Ok((left, right, top, bottom))
}

/// Emits the four scaling window offsets, the inverse of [`parse_scaling_win`].
fn write_scaling_win(w: &mut BitWriter, x: &(i32, i32, i32, i32)) -> (res: Result<(), BitstreamError>)
    ensures
        write_is(scaling_win_can(*x), put_scaling_win(old(w)@, *x), res, final(w)@),
{
    proof {
        reveal(put_scaling_win);
        reveal(scaling_win_can);
    }
    w.write_se(x.0)?;
    w.write_se(x.1)?;
    w.write_se(x.2)?;
    w.write_se(x.3)?;
    Ok(())
}

/// Writing the four scaling window offsets gives back the bits it was read
/// from.
pub broadcast proof fn law_put_scaling_win_at(s: Seq<bool>, p: nat)
    ensures
        #[trigger] scaling_win_at(s, p) matches Ok((x, q)) ==> {
            &&& scaling_win_ok(x)
            &&& scaling_win_can(x)
            &&& within(s, q) ==> within(s, p) && put_scaling_win(upto(s, p), x) == upto(s, q)
        },
{
    broadcast use crate::bits::group_write_read;

    reveal(scaling_win_at);
    reveal(put_scaling_win);
    reveal(scaling_win_ok);
    reveal(scaling_win_can);
}

/// Reading gives back the four scaling window offsets as it was written.
pub broadcast proof fn law_pre_put_scaling_win(a: Seq<bool>, x: (i32, i32, i32, i32), s: Seq<bool>)
    requires
        #[trigger] pre(put_scaling_win(a, x), s),
        scaling_win_ok(x),
    ensures
        pre(a, s),
        scaling_win_can(x),
        scaling_win_at(s, a.len()) == Ok::<((i32, i32, i32, i32), nat), Fault>(
            (x, put_scaling_win(a, x).len()),
        ),
{
    broadcast use crate::bits::group_read_written;

    reveal(scaling_win_at);
    reveal(put_scaling_win);
    reveal(scaling_win_ok);
    reveal(scaling_win_can);
}

/// The layout of the four scaling window offsets: reading at `p` gives `x` and
/// ends at `q` if and only if these elements stand there in this order.
pub proof fn law_layout_scaling_win(s: Seq<bool>, p: nat, x: (i32, i32, i32, i32), q: nat)
    ensures
        scaling_win_at(s, p) == Ok::<((i32, i32, i32, i32), nat), Fault>((x, q)) <==> cursor(s, p)
            .se(x.0)
            .se(x.1)
            .se(x.2)
            .se(x.3)
            .ends(q),
{
    reveal(scaling_win_at);
}

/// Reading the four scaling window offsets fails only with an error of this
/// class.
pub broadcast proof fn law_faults_scaling_win(s: Seq<bool>, p: nat)
    ensures
        #[trigger] scaling_win_at(s, p) matches Err(f) ==> f == Fault::Invalid,
{
    broadcast use crate::bits::law_faults_se;

    reveal(scaling_win_at);
}

/// What the writer accepts reads back: the four scaling window offsets, where
/// each field fits its width and what is not coded has the value that is taken
/// for it.
pub proof fn law_reads_scaling_win(a: Seq<bool>, x: (i32, i32, i32, i32), s: Seq<bool>)
    requires
        scaling_win_can(x),
        pre(put_scaling_win(a, x), s),
    ensures
        scaling_win_at(s, a.len()) == Ok::<((i32, i32, i32, i32), nat), Fault>(
            (x, put_scaling_win(a, x).len()),
        ),
{
    assert(scaling_win_ok(x)) by {
        broadcast use crate::bits::law_fits_small;

        reveal(scaling_win_ok);
        reveal(scaling_win_can);
    }
    law_pre_put_scaling_win(a, x, s);
}

/// A single ue(v) value at position `p`.
#[verifier::opaque]
pub open spec fn ue_value_at(s: Seq<bool>, p: nat) -> Read<u32> {
    match ue_at(s, p) { Err(f) => Err(f), Ok((v, p)) => {
    Ok((v, p)) }}
}

/// The bits `a` followed by a single ue(v) value.
#[verifier::opaque]
pub open spec fn put_ue_value(a: Seq<bool>, x: u32) -> Seq<bool> {
    let a = put_ue(a, x as nat);
    a
}

/// The values of a single ue(v) value that reading can give.
#[verifier::opaque]
pub open spec fn ue_value_ok(x: u32) -> bool {
    &&& ue_fits(x as nat)
}

/// The values of a single ue(v) value that the writer accepts.
#[verifier::opaque]
pub open spec fn ue_value_can(x: u32) -> bool {
    &&& ue_fits(x as nat)
}

/// Parses a single ue(v) value.
fn parse_ue_value(r: &mut BitReader<'_>) -> (res: Result<u32, BitstreamError>)
    ensures
        read_is(ue_value_at(old(r).bits(), old(r).pos()), res, *old(r), *final(r)),
{
    proof {
        reveal(ue_value_at);
    }
    let v: u32 = r.ue()?;
    Ok(v)
}

/// Emits a single ue(v) value, the inverse of [`parse_ue_value`].
fn write_ue_value(w: &mut BitWriter, x: &u32) -> (res: Result<(), BitstreamError>)
    ensures
        write_is(ue_value_can(*x), put_ue_value(old(w)@, *x), res, final(w)@),
{
    proof {
        reveal(put_ue_value);
        reveal(ue_value_can);
    }
    w.write_ue(*x)?;
    Ok(())
}

/// Writing a single ue(v) value gives back the bits it was read from.
pub broadcast proof fn law_put_ue_value_at(s: Seq<bool>, p: nat)
    ensures
        #[trigger] ue_value_at(s, p) matches Ok((x, q)) ==> {
            &&& ue_value_ok(x)
            &&& ue_value_can(x)
            &&& within(s, q) ==> within(s, p) && put_ue_value(upto(s, p), x) == upto(s, q)
        },
{
    broadcast use crate::bits::group_write_read;

    reveal(ue_value_at);
    reveal(put_ue_value);
    reveal(ue_value_ok);
    reveal(ue_value_can);
}

/// Reading gives back a single ue(v) value as it was written.
pub broadcast proof fn law_pre_put_ue_value(a: Seq<bool>, x: u32, s: Seq<bool>)
    requires
        #[trigger] pre(put_ue_value(a, x), s),
        ue_value_ok(x),
    ensures
        pre(a, s),
        ue_value_can(x),
        ue_value_at(s, a.len()) == Ok::<(u32, nat), Fault>((x, put_ue_value(a, x).len())),
{
    broadcast use crate::bits::group_read_written;

    reveal(ue_value_at);
    reveal(put_ue_value);
    reveal(ue_value_ok);
    reveal(ue_value_can);
}

/// The layout of a single ue(v) value: reading at `p` gives `x` and ends at `q`
/// if and only if these elements stand there in this order.
pub proof fn law_layout_ue_value(s: Seq<bool>, p: nat, x: u32, q: nat)
    ensures
        ue_value_at(s, p) == Ok::<(u32, nat), Fault>((x, q)) <==> cursor(s, p).ue(x).ends(q),
{
    reveal(ue_value_at);
}

/// Reading a single ue(v) value fails only with an error of this class.
pub broadcast proof fn law_faults_ue_value(s: Seq<bool>, p: nat)
    ensures
        #[trigger] ue_value_at(s, p) matches Err(f) ==> f == Fault::Invalid,
{
    broadcast use crate::bits::law_faults_ue;

    reveal(ue_value_at);
}

/// What the writer accepts reads back: a single ue(v) value, where each field
/// fits its width and what is not coded has the value that is taken for it.
pub proof fn law_reads_ue_value(a: Seq<bool>, x: u32, s: Seq<bool>)
    requires
        ue_value_can(x),
        pre(put_ue_value(a, x), s),
    ensures
        ue_value_at(s, a.len()) == Ok::<(u32, nat), Fault>((x, put_ue_value(a, x).len())),
{
    assert(ue_value_ok(x)) by {
        broadcast use crate::bits::law_fits_small;

        reveal(ue_value_ok);
        reveal(ue_value_can);
    }
    law_pre_put_ue_value(a, x, s);
}

// ─────────────────────────── The PPS itself ──────────────────────────────────

/// A completely-walked VVC PPS (§7.3.2.5). Every syntax element is
/// retained (or inferred when its presence condition failed), so
/// [`write_pps`] can re-emit the RBSP byte-exactly.
#[derive(Debug, Clone, PartialEq, Eq, Default)]
pub struct VvcPps {
    /// `pps_pic_parameter_set_id` u(6) — 0..=63.
    pub pps_pic_parameter_set_id: u8,
    /// `pps_seq_parameter_set_id` u(4) — 0..=15.
    pub pps_seq_parameter_set_id: u8,
    /// `pps_mixed_nalu_types_in_pic_flag` u(1).
    pub pps_mixed_nalu_types_in_pic_flag: u8,
    /// `pps_pic_width_in_luma_samples` ue(v) — must be > 0.
    pub pps_pic_width_in_luma_samples: u32,
    /// `pps_pic_height_in_luma_samples` ue(v) — must be > 0.
    pub pps_pic_height_in_luma_samples: u32,
    /// `(left, right, top, bottom)` `pps_conf_win_*_offset` values —
    /// present iff `pps_conformance_window_flag`.
    pub pps_conf_win_offsets: Option<(u32, u32, u32, u32)>,
    /// `(left, right, top, bottom)` `pps_scaling_win_*_offset` values
    /// (signed) — present iff
    /// `pps_scaling_window_explicit_signalling_flag`.
    pub pps_scaling_win_offsets: Option<(i32, i32, i32, i32)>,
    /// `pps_output_flag_present_flag` u(1).
    pub pps_output_flag_present_flag: u8,
    /// `pps_no_pic_partition_flag` u(1) — 1 means a single tile and a
    /// single slice span the picture and [`VvcPps::partition`] is
    /// `None`.
    pub pps_no_pic_partition_flag: u8,
    /// Subpicture ID mapping — present iff
    /// `pps_subpic_id_mapping_present_flag`.
    pub subpic_id_mapping: Option<VvcPpsSubpicIdMapping>,
    /// Tile/slice partition block — present iff
    /// `!pps_no_pic_partition_flag`.
    pub partition: Option<VvcPpsPartition>,
    /// `pps_cabac_init_present_flag` u(1).
    pub pps_cabac_init_present_flag: u8,
    /// `pps_num_ref_idx_default_active_minus1[i]` ue(v) — 0..=14 each.
    pub pps_num_ref_idx_default_active_minus1: [u32; 2],
    /// `pps_rpl1_idx_present_flag` u(1).
    pub pps_rpl1_idx_present_flag: u8,
    /// `pps_weighted_pred_flag` u(1).
    pub pps_weighted_pred_flag: u8,
    /// `pps_weighted_bipred_flag` u(1).
    pub pps_weighted_bipred_flag: u8,
    /// `pps_pic_width_minus_wraparound_offset` ue(v) — `Some` iff
    /// `pps_ref_wraparound_enabled_flag`.
    pub pps_pic_width_minus_wraparound_offset: Option<u32>,
    /// `pps_init_qp_minus26` se(v).
    pub pps_init_qp_minus26: i32,
    /// `pps_cu_qp_delta_enabled_flag` u(1).
    pub pps_cu_qp_delta_enabled_flag: u8,
    /// Chroma tool offsets block — present iff
    /// `pps_chroma_tool_offsets_present_flag`.
    pub chroma_tool_offsets: Option<VvcPpsChromaToolOffsets>,
    /// Deblocking control block — present iff
    /// `pps_deblocking_filter_control_present_flag`.
    pub deblocking: Option<VvcPpsDeblocking>,
    /// `pps_rpl_info_in_ph_flag` u(1) — coded only when
    /// `!pps_no_pic_partition_flag`; inferred 0.
    pub pps_rpl_info_in_ph_flag: u8,
    /// `pps_sao_info_in_ph_flag` u(1) — ditto.
    pub pps_sao_info_in_ph_flag: u8,
    /// `pps_alf_info_in_ph_flag` u(1) — ditto.
    pub pps_alf_info_in_ph_flag: u8,
    /// `pps_wp_info_in_ph_flag` u(1) — coded only when weighted
    /// prediction is on and `pps_rpl_info_in_ph_flag`; inferred 0.
    pub pps_wp_info_in_ph_flag: u8,
    /// `pps_qp_delta_info_in_ph_flag` u(1) — coded only when
    /// `!pps_no_pic_partition_flag`; inferred 0.
    pub pps_qp_delta_info_in_ph_flag: u8,
    /// `pps_picture_header_extension_present_flag` u(1).
    pub pps_picture_header_extension_present_flag: u8,
    /// `pps_slice_header_extension_present_flag` u(1).
    pub pps_slice_header_extension_present_flag: u8,
    /// `pps_extension_flag` u(1).
    pub pps_extension_flag: u8,
    /// `pps_extension_data_flag` bits (0/1 each) — retained verbatim;
    /// must end in a 1 bit (a trailing 0 is indistinguishable from
    /// `rbsp_trailing_bits` padding).
    pub pps_extension_data: Vec<u8>,
}

/// The leading fields of a PPS.
#[derive(Clone, Copy)]
pub struct PpsHead {
    pub pps_pic_parameter_set_id: u8,
    pub pps_seq_parameter_set_id: u8,
    pub pps_mixed_nalu_types_in_pic_flag: u8,
    pub pps_pic_width_in_luma_samples: u32,
    pub pps_pic_height_in_luma_samples: u32,
    pub pps_conf_win_offsets: Option<(u32, u32, u32, u32)>,
    pub pps_scaling_win_offsets: Option<(i32, i32, i32, i32)>,
    pub pps_output_flag_present_flag: u8,
    pub pps_no_pic_partition_flag: u8,
}

/// The leading fields of a PPS at position `p`.
#[verifier::opaque]
pub open spec fn pps_head_at(s: Seq<bool>, p: nat) -> Read<PpsHead> {
    let pps_pic_parameter_set_id = u8_at(s, p, 6);
    let p = adv(p, 6);
    let pps_seq_parameter_set_id = u8_at(s, p, 4);
    let p = adv(p, 4);
    let pps_mixed_nalu_types_in_pic_flag = u8_at(s, p, 1);
    let p = adv(p, 1);
    match ue_at(s, p) { Err(f) => Err(f), Ok((pps_pic_width_in_luma_samples, p)) => {
    match ue_at(s, p) { Err(f) => Err(f), Ok((pps_pic_height_in_luma_samples, p)) => {
    if !(pps_pic_width_in_luma_samples != 0 && pps_pic_height_in_luma_samples != 0) {
        Err(Fault::Invalid)
    } else {
    let present = flag_at(s, p);
    let p = adv(p, 1);
    match (if present { read_some(conf_win_at(s, p)) } else { Ok((None, p)) })
    { Err(f) => Err(f), Ok((pps_conf_win_offsets, p)) => {
    let present = flag_at(s, p);
    let p = adv(p, 1);
    match (if present { read_some(scaling_win_at(s, p)) } else { Ok((None, p)) })
    { Err(f) => Err(f), Ok((pps_scaling_win_offsets, p)) => {
    let pps_output_flag_present_flag = u8_at(s, p, 1);
    let p = adv(p, 1);
    let pps_no_pic_partition_flag = u8_at(s, p, 1);
    let p = adv(p, 1);
    Ok((
        PpsHead {
            pps_pic_parameter_set_id,
            pps_seq_parameter_set_id,
            pps_mixed_nalu_types_in_pic_flag,
            pps_pic_width_in_luma_samples,
            pps_pic_height_in_luma_samples,
            pps_conf_win_offsets,
            pps_scaling_win_offsets,
            pps_output_flag_present_flag,
            pps_no_pic_partition_flag,
        },
        p,
    ))
    }}}}}}}}}
}

/// The bits `a` followed by the leading fields of a PPS.
#[verifier::opaque]
pub open spec fn put_pps_head(a: Seq<bool>, x: PpsHead) -> Seq<bool> {
    let a = put_u(a, x.pps_pic_parameter_set_id as nat, 6);
    let a = put_u(a, x.pps_seq_parameter_set_id as nat, 4);
    let a = put_bit(a, x.pps_mixed_nalu_types_in_pic_flag as nat);
    let a = put_ue(a, x.pps_pic_width_in_luma_samples as nat);
    let a = put_ue(a, x.pps_pic_height_in_luma_samples as nat);
    let a = put_flag(a, x.pps_conf_win_offsets is Some);
    let a = match x.pps_conf_win_offsets { Some(y) => put_conf_win(a, y), None => a };
    let a = put_flag(a, x.pps_scaling_win_offsets is Some);
    let a = match x.pps_scaling_win_offsets { Some(y) => put_scaling_win(a, y), None => a };
    let a = put_bit(a, x.pps_output_flag_present_flag as nat);
    let a = put_bit(a, x.pps_no_pic_partition_flag as nat);
    a
}

/// The values of the leading fields of a PPS that reading can give.
#[verifier::opaque]
pub open spec fn pps_head_ok(x: PpsHead) -> bool {
    &&& fits(x.pps_pic_parameter_set_id as nat, 6)
    &&& fits(x.pps_seq_parameter_set_id as nat, 4)
    &&& fits(x.pps_mixed_nalu_types_in_pic_flag as nat, 1)
    &&& ue_fits(x.pps_pic_width_in_luma_samples as nat)
    &&& ue_fits(x.pps_pic_height_in_luma_samples as nat)
    &&& x.pps_pic_width_in_luma_samples != 0 && x.pps_pic_height_in_luma_samples != 0
    &&& x.pps_conf_win_offsets matches Some(y) ==> conf_win_ok(y)
    &&& x.pps_scaling_win_offsets matches Some(y) ==> scaling_win_ok(y)
    &&& fits(x.pps_output_flag_present_flag as nat, 1)
    &&& fits(x.pps_no_pic_partition_flag as nat, 1)
}

/// The values of the leading fields of a PPS that the writer accepts.
#[verifier::opaque]
pub open spec fn pps_head_can(x: PpsHead) -> bool {
    &&& x.pps_pic_parameter_set_id <= 63 && x.pps_seq_parameter_set_id <= 15
    &&& ue_fits(x.pps_pic_width_in_luma_samples as nat)
    &&& ue_fits(x.pps_pic_height_in_luma_samples as nat)
    &&& x.pps_pic_width_in_luma_samples != 0 && x.pps_pic_height_in_luma_samples != 0
    &&& x.pps_conf_win_offsets matches Some(y) ==> conf_win_can(y)
    &&& x.pps_scaling_win_offsets matches Some(y) ==> scaling_win_can(y)
}

/// Parses the leading fields of a PPS.
fn parse_pps_head(r: &mut BitReader<'_>) -> (res: Result<PpsHead, BitstreamError>)
    ensures
        read_is(pps_head_at(old(r).bits(), old(r).pos()), res, *old(r), *final(r)),
{
    proof {
        reveal(pps_head_at);
    }
    let pps_pic_parameter_set_id: u8 = r.u8(6);
    let pps_seq_parameter_set_id: u8 = r.u8(4);
    let pps_mixed_nalu_types_in_pic_flag: u8 = r.bit();
    let pps_pic_width_in_luma_samples: u32 = r.ue()?;
    let pps_pic_height_in_luma_samples: u32 = r.ue()?;
    if !(pps_pic_width_in_luma_samples != 0 && pps_pic_height_in_luma_samples != 0) {
        return Err(BitstreamError::invalid("pps_pic_width/height_in_luma_samples must be > 0 (7.4.3.5)"));
    }
    let present: bool = r.flag();
    let pps_conf_win_offsets = if present { Some(parse_conf_win(r)?) } else { None };
    let present: bool = r.flag();
    let pps_scaling_win_offsets = if present { Some(parse_scaling_win(r)?) } else { None };
    let pps_output_flag_present_flag: u8 = r.bit();
    let pps_no_pic_partition_flag: u8 = r.bit();
    Ok(
        PpsHead {
            pps_pic_parameter_set_id,
            pps_seq_parameter_set_id,
            pps_mixed_nalu_types_in_pic_flag,
            pps_pic_width_in_luma_samples,
            pps_pic_height_in_luma_samples,
            pps_conf_win_offsets,
            pps_scaling_win_offsets,
            pps_output_flag_present_flag,
            pps_no_pic_partition_flag,
        },
    )
}

/// Emits the leading fields of a PPS, the inverse of [`parse_pps_head`].
fn write_pps_head(w: &mut BitWriter, x: &PpsHead) -> (res: Result<(), BitstreamError>)
    ensures
        write_is(pps_head_can(*x), put_pps_head(old(w)@, *x), res, final(w)@),
{
    proof {
        reveal(put_pps_head);
        reveal(pps_head_can);
    }
    if !(x.pps_pic_parameter_set_id <= 63 && x.pps_seq_parameter_set_id <= 15) {
        return Err(BitstreamError::invalid("PPS/SPS id out of range"));
    }
    w.write_bits(x.pps_pic_parameter_set_id as u32, 6);
    w.write_bits(x.pps_seq_parameter_set_id as u32, 4);
    w.write_bit(x.pps_mixed_nalu_types_in_pic_flag as u32);
    w.write_ue(x.pps_pic_width_in_luma_samples)?;
    w.write_ue(x.pps_pic_height_in_luma_samples)?;
    if !(x.pps_pic_width_in_luma_samples != 0 && x.pps_pic_height_in_luma_samples != 0) {
        return Err(BitstreamError::invalid("pps_pic_width/height_in_luma_samples must be > 0 (7.4.3.5)"));
    }
    w.write_flag(x.pps_conf_win_offsets.is_some());
    if let Some(y) = &x.pps_conf_win_offsets {
        write_conf_win(w, y)?;
    }
    w.write_flag(x.pps_scaling_win_offsets.is_some());
    if let Some(y) = &x.pps_scaling_win_offsets {
        write_scaling_win(w, y)?;
    }
    w.write_bit(x.pps_output_flag_present_flag as u32);
    w.write_bit(x.pps_no_pic_partition_flag as u32);
    Ok(())
}

/// Writing the leading fields of a PPS gives back the bits it was read from.
pub broadcast proof fn law_put_pps_head_at(s: Seq<bool>, p: nat)
    ensures
        #[trigger] pps_head_at(s, p) matches Ok((x, q)) ==> {
            &&& pps_head_ok(x)
            &&& pps_head_can(x)
            &&& within(s, q) ==> within(s, p) && put_pps_head(upto(s, p), x) == upto(s, q)
        },
{
    broadcast use {crate::bits::group_write_read, law_put_conf_win_at, law_put_scaling_win_at};

    reveal(pps_head_at);
    reveal(put_pps_head);
    reveal(pps_head_ok);
    reveal(pps_head_can);
}

/// Reading gives back the leading fields of a PPS as it was written.
pub broadcast proof fn law_pre_put_pps_head(a: Seq<bool>, x: PpsHead, s: Seq<bool>)
    requires
        #[trigger] pre(put_pps_head(a, x), s),
        pps_head_ok(x),
    ensures
        pre(a, s),
        pps_head_can(x),
        pps_head_at(s, a.len()) == Ok::<(PpsHead, nat), Fault>((x, put_pps_head(a, x).len())),
{
    broadcast use {crate::bits::group_read_written, law_pre_put_conf_win, law_pre_put_scaling_win};

    reveal(pps_head_at);
    reveal(put_pps_head);
    reveal(pps_head_ok);
    reveal(pps_head_can);
}

/// The layout of the leading fields of a PPS: reading at `p` gives `x` and ends
/// at `q` if and only if these elements stand there in this order, and the
/// values are allowed.
pub proof fn law_layout_pps_head(s: Seq<bool>, p: nat, x: PpsHead, q: nat)
    ensures
        pps_head_at(s, p) == Ok::<(PpsHead, nat), Fault>((x, q)) <==> ({
            &&& cursor(s, p)
                .u8(6, x.pps_pic_parameter_set_id)
                .u8(4, x.pps_seq_parameter_set_id)
                .u8(1, x.pps_mixed_nalu_types_in_pic_flag)
                .ue(x.pps_pic_width_in_luma_samples)
                .ue(x.pps_pic_height_in_luma_samples)
                .flagged(|p: nat| conf_win_at(s, p), x.pps_conf_win_offsets)
                .flagged(|p: nat| scaling_win_at(s, p), x.pps_scaling_win_offsets)
                .u8(1, x.pps_output_flag_present_flag)
                .u8(1, x.pps_no_pic_partition_flag)
                .ends(q)
            &&& x.pps_pic_width_in_luma_samples != 0 && x.pps_pic_height_in_luma_samples != 0
        }),
{
    reveal(pps_head_at);
}

/// Reading the leading fields of a PPS fails only with an error of this class.
pub broadcast proof fn law_faults_pps_head(s: Seq<bool>, p: nat)
    ensures
        #[trigger] pps_head_at(s, p) matches Err(f) ==> f == Fault::Invalid,
{
    broadcast use {crate::bits::law_faults_ue, law_faults_conf_win, law_faults_scaling_win};

    reveal(pps_head_at);
}

/// What the writer accepts reads back: the leading fields of a PPS, where each
/// field fits its width and what is not coded has the value that is taken for
/// it.
pub proof fn law_reads_pps_head(a: Seq<bool>, x: PpsHead, s: Seq<bool>)
    requires
        pps_head_can(x),
        fits(x.pps_mixed_nalu_types_in_pic_flag as nat, 1),
        x.pps_conf_win_offsets matches Some(y) ==> conf_win_ok(y),
        x.pps_scaling_win_offsets matches Some(y) ==> scaling_win_ok(y),
        fits(x.pps_output_flag_present_flag as nat, 1),
        fits(x.pps_no_pic_partition_flag as nat, 1),
        pre(put_pps_head(a, x), s),
    ensures
        pps_head_at(s, a.len()) == Ok::<(PpsHead, nat), Fault>((x, put_pps_head(a, x).len())),
{
    assert(pps_head_ok(x)) by {
        broadcast use crate::bits::law_fits_small;

        reveal(pps_head_ok);
        reveal(pps_head_can);
    }
    law_pre_put_pps_head(a, x, s);
}

/// The trailing flags of a PPS.
#[derive(Clone, Copy)]
pub struct PpsInPh {
    pub pps_rpl_info_in_ph_flag: u8,
    pub pps_sao_info_in_ph_flag: u8,
    pub pps_alf_info_in_ph_flag: u8,
    pub pps_wp_info_in_ph_flag: u8,
    pub pps_qp_delta_info_in_ph_flag: u8,
    pub pps_picture_header_extension_present_flag: u8,
    pub pps_slice_header_extension_present_flag: u8,
    pub pps_extension_flag: u8,
}

/// The trailing flags of a PPS at position `p`.
#[verifier::opaque]
pub open spec fn pps_in_ph_at(s: Seq<bool>, p: nat, no_partition: u8, weighted: bool) -> Read<PpsInPh> {
    let pps_rpl_info_in_ph_flag = u8_if(s, p, 1, no_partition == 0, 0);
    let p = adv_if(p, 1, no_partition == 0);
    let pps_sao_info_in_ph_flag = u8_if(s, p, 1, no_partition == 0, 0);
    let p = adv_if(p, 1, no_partition == 0);
    let pps_alf_info_in_ph_flag = u8_if(s, p, 1, no_partition == 0, 0);
    let p = adv_if(p, 1, no_partition == 0);
    let pps_wp_info_in_ph_flag = u8_if(
        s,
        p,
        1,
        no_partition == 0 && weighted && pps_rpl_info_in_ph_flag != 0,
        0,
    );
    let p = adv_if(p, 1, no_partition == 0 && weighted && pps_rpl_info_in_ph_flag != 0);
    let pps_qp_delta_info_in_ph_flag = u8_if(s, p, 1, no_partition == 0, 0);
    let p = adv_if(p, 1, no_partition == 0);
    let pps_picture_header_extension_present_flag = u8_at(s, p, 1);
    let p = adv(p, 1);
    let pps_slice_header_extension_present_flag = u8_at(s, p, 1);
    let p = adv(p, 1);
    let pps_extension_flag = u8_at(s, p, 1);
    let p = adv(p, 1);
    Ok(
        (
            PpsInPh {
                pps_rpl_info_in_ph_flag,
                pps_sao_info_in_ph_flag,
                pps_alf_info_in_ph_flag,
                pps_wp_info_in_ph_flag,
                pps_qp_delta_info_in_ph_flag,
                pps_picture_header_extension_present_flag,
                pps_slice_header_extension_present_flag,
                pps_extension_flag,
            },
            p,
        ),
    )
}

/// The bits `a` followed by the trailing flags of a PPS.
#[verifier::opaque]
pub open spec fn put_pps_in_ph(a: Seq<bool>, x: PpsInPh, no_partition: u8, weighted: bool) -> Seq<bool> {
    let a = put_bit_if(a, x.pps_rpl_info_in_ph_flag as nat, no_partition == 0);
    let a = put_bit_if(a, x.pps_sao_info_in_ph_flag as nat, no_partition == 0);
    let a = put_bit_if(a, x.pps_alf_info_in_ph_flag as nat, no_partition == 0);
    let a = put_bit_if(
        a,
        x.pps_wp_info_in_ph_flag as nat,
        no_partition == 0 && weighted && x.pps_rpl_info_in_ph_flag != 0,
    );
    let a = put_bit_if(a, x.pps_qp_delta_info_in_ph_flag as nat, no_partition == 0);
    let a = put_bit(a, x.pps_picture_header_extension_present_flag as nat);
    let a = put_bit(a, x.pps_slice_header_extension_present_flag as nat);
    let a = put_bit(a, x.pps_extension_flag as nat);
    a
}

/// The values of the trailing flags of a PPS that reading can give.
#[verifier::opaque]
pub open spec fn pps_in_ph_ok(x: PpsInPh, no_partition: u8, weighted: bool) -> bool {
    &&& if no_partition == 0 {
        fits(x.pps_rpl_info_in_ph_flag as nat, 1)
    } else {
        x.pps_rpl_info_in_ph_flag == 0
    }
    &&& if no_partition == 0 {
        fits(x.pps_sao_info_in_ph_flag as nat, 1)
    } else {
        x.pps_sao_info_in_ph_flag == 0
    }
    &&& if no_partition == 0 {
        fits(x.pps_alf_info_in_ph_flag as nat, 1)
    } else {
        x.pps_alf_info_in_ph_flag == 0
    }
    &&& if no_partition == 0
        && weighted
        && x.pps_rpl_info_in_ph_flag != 0 {
            fits(x.pps_wp_info_in_ph_flag as nat, 1)
        } else {
            x.pps_wp_info_in_ph_flag == 0
        }
    &&& if no_partition == 0 {
        fits(x.pps_qp_delta_info_in_ph_flag as nat, 1)
    } else {
        x.pps_qp_delta_info_in_ph_flag == 0
    }
    &&& fits(x.pps_picture_header_extension_present_flag as nat, 1)
    &&& fits(x.pps_slice_header_extension_present_flag as nat, 1)
    &&& fits(x.pps_extension_flag as nat, 1)
}

/// The values of the trailing flags of a PPS that the writer accepts.
#[verifier::opaque]
pub open spec fn pps_in_ph_can(x: PpsInPh, no_partition: u8, weighted: bool) -> bool {
    true
}

/// Parses the trailing flags of a PPS.
fn parse_pps_in_ph(
    r: &mut BitReader<'_>,
    no_partition: u8,
    weighted: bool,
) -> (res: Result<PpsInPh, BitstreamError>)
    ensures
        read_is(pps_in_ph_at(old(r).bits(), old(r).pos(), no_partition, weighted), res, *old(r), *final(r)),
{
    proof {
        reveal(pps_in_ph_at);
    }
    let pps_rpl_info_in_ph_flag: u8 = r.bit_if(no_partition == 0, 0);
    let pps_sao_info_in_ph_flag: u8 = r.bit_if(no_partition == 0, 0);
    let pps_alf_info_in_ph_flag: u8 = r.bit_if(no_partition == 0, 0);
    let pps_wp_info_in_ph_flag: u8 = r.bit_if(
        no_partition == 0 && weighted && pps_rpl_info_in_ph_flag != 0,
        0,
    );
    let pps_qp_delta_info_in_ph_flag: u8 = r.bit_if(no_partition == 0, 0);
    let pps_picture_header_extension_present_flag: u8 = r.bit();
    let pps_slice_header_extension_present_flag: u8 = r.bit();
    let pps_extension_flag: u8 = r.bit();
    Ok(
        PpsInPh {
            pps_rpl_info_in_ph_flag,
            pps_sao_info_in_ph_flag,
            pps_alf_info_in_ph_flag,
            pps_wp_info_in_ph_flag,
            pps_qp_delta_info_in_ph_flag,
            pps_picture_header_extension_present_flag,
            pps_slice_header_extension_present_flag,
            pps_extension_flag,
        },
    )
}

/// Emits the trailing flags of a PPS, the inverse of [`parse_pps_in_ph`].
fn write_pps_in_ph(
    w: &mut BitWriter,
    x: &PpsInPh,
    no_partition: u8,
    weighted: bool,
) -> (res: Result<(), BitstreamError>)
    ensures
        write_is(
            pps_in_ph_can(*x, no_partition, weighted),
            put_pps_in_ph(old(w)@, *x, no_partition, weighted),
            res,
            final(w)@,
        ),
{
    proof {
        reveal(put_pps_in_ph);
        reveal(pps_in_ph_can);
    }
    w.write_bit_if(x.pps_rpl_info_in_ph_flag as u32, no_partition == 0);
    w.write_bit_if(x.pps_sao_info_in_ph_flag as u32, no_partition == 0);
    w.write_bit_if(x.pps_alf_info_in_ph_flag as u32, no_partition == 0);
    w.write_bit_if(
        x.pps_wp_info_in_ph_flag as u32,
        no_partition == 0 && weighted && x.pps_rpl_info_in_ph_flag != 0,
    );
    w.write_bit_if(x.pps_qp_delta_info_in_ph_flag as u32, no_partition == 0);
    w.write_bit(x.pps_picture_header_extension_present_flag as u32);
    w.write_bit(x.pps_slice_header_extension_present_flag as u32);
    w.write_bit(x.pps_extension_flag as u32);
    Ok(())
}

/// Writing the trailing flags of a PPS gives back the bits it was read from.
pub broadcast proof fn law_put_pps_in_ph_at(s: Seq<bool>, p: nat, no_partition: u8, weighted: bool)
    ensures
        #[trigger] pps_in_ph_at(s, p, no_partition, weighted) matches Ok((x, q)) ==> {
            &&& pps_in_ph_ok(x, no_partition, weighted)
            &&& pps_in_ph_can(x, no_partition, weighted)
            &&& within(s, q)
                ==> within(s, p)
                && put_pps_in_ph(upto(s, p), x, no_partition, weighted) == upto(s, q)
        },
{
    broadcast use crate::bits::group_write_read;

    reveal(pps_in_ph_at);
    reveal(put_pps_in_ph);
    reveal(pps_in_ph_ok);
    reveal(pps_in_ph_can);
}

/// Reading gives back the trailing flags of a PPS as it was written.
pub broadcast proof fn law_pre_put_pps_in_ph(
    a: Seq<bool>,
    x: PpsInPh,
    no_partition: u8,
    weighted: bool,
    s: Seq<bool>,
)
    requires
        #[trigger] pre(put_pps_in_ph(a, x, no_partition, weighted), s),
        pps_in_ph_ok(x, no_partition, weighted),
    ensures
        pre(a, s),
        pps_in_ph_can(x, no_partition, weighted),
        pps_in_ph_at(s, a.len(), no_partition, weighted) == Ok::<(PpsInPh, nat), Fault>(
            (x, put_pps_in_ph(a, x, no_partition, weighted).len()),
        ),
{
    broadcast use crate::bits::group_read_written;

    reveal(pps_in_ph_at);
    reveal(put_pps_in_ph);
    reveal(pps_in_ph_ok);
    reveal(pps_in_ph_can);
}

/// The layout of the trailing flags of a PPS: reading at `p` gives `x` and ends
/// at `q` if and only if these elements stand there in this order.
pub proof fn law_layout_pps_in_ph(s: Seq<bool>, p: nat, no_partition: u8, weighted: bool, x: PpsInPh, q: nat)
    ensures
        pps_in_ph_at(s, p, no_partition, weighted) == Ok::<(PpsInPh, nat), Fault>((x, q)) <==> cursor(s, p)
            .u8_if(no_partition == 0, 1, x.pps_rpl_info_in_ph_flag, 0)
            .u8_if(no_partition == 0, 1, x.pps_sao_info_in_ph_flag, 0)
            .u8_if(no_partition == 0, 1, x.pps_alf_info_in_ph_flag, 0)
            .u8_if(
                no_partition == 0 && weighted && x.pps_rpl_info_in_ph_flag != 0,
                1,
                x.pps_wp_info_in_ph_flag,
                0,
            )
            .u8_if(no_partition == 0, 1, x.pps_qp_delta_info_in_ph_flag, 0)
            .u8(1, x.pps_picture_header_extension_present_flag)
            .u8(1, x.pps_slice_header_extension_present_flag)
            .u8(1, x.pps_extension_flag)
            .ends(q),
{
    reveal(pps_in_ph_at);
    reveal(adv_if);
    reveal(u8_if);
}

/// Reading the trailing flags of a PPS never fails.
pub broadcast proof fn law_faults_pps_in_ph(s: Seq<bool>, p: nat, no_partition: u8, weighted: bool)
    ensures
        #[trigger] pps_in_ph_at(s, p, no_partition, weighted) is Ok,
{
    reveal(pps_in_ph_at);
}

/// What the writer accepts reads back: the trailing flags of a PPS, where each
/// field fits its width and what is not coded has the value that is taken for
/// it.
pub proof fn law_reads_pps_in_ph(a: Seq<bool>, x: PpsInPh, no_partition: u8, weighted: bool, s: Seq<bool>)
    requires
        pps_in_ph_can(x, no_partition, weighted),
        if no_partition == 0 {
            fits(x.pps_rpl_info_in_ph_flag as nat, 1)
        } else {
            x.pps_rpl_info_in_ph_flag == 0
        },
        if no_partition == 0 {
            fits(x.pps_sao_info_in_ph_flag as nat, 1)
        } else {
            x.pps_sao_info_in_ph_flag == 0
        },
        if no_partition == 0 {
            fits(x.pps_alf_info_in_ph_flag as nat, 1)
        } else {
            x.pps_alf_info_in_ph_flag == 0
        },
        if no_partition == 0 && weighted && x.pps_rpl_info_in_ph_flag != 0 {
            fits(x.pps_wp_info_in_ph_flag as nat, 1)
        } else {
            x.pps_wp_info_in_ph_flag == 0
        },
        if no_partition == 0 {
            fits(x.pps_qp_delta_info_in_ph_flag as nat, 1)
        } else {
            x.pps_qp_delta_info_in_ph_flag == 0
        },
        fits(x.pps_picture_header_extension_present_flag as nat, 1),
        fits(x.pps_slice_header_extension_present_flag as nat, 1),
        fits(x.pps_extension_flag as nat, 1),
        pre(put_pps_in_ph(a, x, no_partition, weighted), s),
    ensures
        pps_in_ph_at(s, a.len(), no_partition, weighted) == Ok::<(PpsInPh, nat), Fault>(
            (x, put_pps_in_ph(a, x, no_partition, weighted).len()),
        ),
{
    assert(pps_in_ph_ok(x, no_partition, weighted)) by {
        broadcast use crate::bits::law_fits_small;

        reveal(pps_in_ph_ok);
        reveal(pps_in_ph_can);
    }
    law_pre_put_pps_in_ph(a, x, no_partition, weighted, s);
}

impl VvcPps {
    /// The CTU size exponent of the picture geometry, less 5: that of the
    /// partition block, or 5 without one.
    pub open spec fn log2_ctu_minus5(&self) -> u8 {
        match self.partition {
            Some(p) => p.pps_log2_ctu_size_minus5,
            None => 5,
        }
    }

    /// `PicWidthInCtbsY` from the PPS's own geometry (only meaningful
    /// when [`VvcPps::partition`] is present; §6.5.1).
    pub fn pic_width_in_ctbs(&self) -> (n: u64)
        requires
            self.log2_ctu_minus5() <= 58,
        ensures
            n == ctbs(self.pps_pic_width_in_luma_samples, self.log2_ctu_minus5()),
    {
        let c: u8 = match &self.partition {
            Some(p) => p.pps_log2_ctu_size_minus5,
            None => 5,
        };
        pic_ctbs(self.pps_pic_width_in_luma_samples, c)
    }

    /// `PicHeightInCtbsY` (§6.5.1).
    pub fn pic_height_in_ctbs(&self) -> (n: u64)
        requires
            self.log2_ctu_minus5() <= 58,
        ensures
            n == ctbs(self.pps_pic_height_in_luma_samples, self.log2_ctu_minus5()),
    {
        let c: u8 = match &self.partition {
            Some(p) => p.pps_log2_ctu_size_minus5,
            None => 5,
        };
        pic_ctbs(self.pps_pic_height_in_luma_samples, c)
    }
}

/// The fields of a PPS up to the partition block.
pub struct PpsFront {
    pub head: PpsHead,
    pub subpic_id_mapping: Option<VvcPpsSubpicIdMapping>,
    pub partition: Option<VvcPpsPartition>,
}

/// The mathematical model of a [`PpsFront`].
pub struct PpsFrontModel {
    pub head: PpsHead,
    pub subpic_id_mapping: Option<VvcPpsSubpicIdMappingModel>,
    pub partition: Option<VvcPpsPartitionModel>,
}

impl View for PpsFront {
    type V = PpsFrontModel;

    open spec fn view(&self) -> PpsFrontModel {
        PpsFrontModel {
            head: self.head,
            subpic_id_mapping: opt_view(self.subpic_id_mapping),
            partition: opt_view(self.partition),
        }
    }
}

/// The fields of a PPS up to the partition block at position `p`.
#[verifier::opaque]
pub open spec fn pps_front_at(s: Seq<bool>, p: nat) -> Read<PpsFrontModel> {
    match pps_head_at(s, p) { Err(f) => Err(f), Ok((head, p)) => {
    let present = flag_at(s, p);
    let p = adv(p, 1);
    match (if present {
        read_some(subpic_map_at(s, p, head.pps_no_pic_partition_flag))
    } else {
        Ok((None, p))
    })
    { Err(f) => Err(f), Ok((subpic_id_mapping, p)) => {
    match (if head.pps_no_pic_partition_flag == 0 {
        read_some(pps_partition_at(s, p, head.pps_pic_width_in_luma_samples, head.pps_pic_height_in_luma_samples))
    } else {
        Ok((None, p))
    })
    { Err(f) => Err(f), Ok((partition, p)) => {
    Ok((PpsFrontModel { head, subpic_id_mapping, partition }, p))
    }}}}}}
}

/// The bits `a` followed by the fields of a PPS up to the partition block.
#[verifier::opaque]
pub open spec fn put_pps_front(a: Seq<bool>, x: PpsFrontModel) -> Seq<bool> {
    let a = put_pps_head(a, x.head);
    let a = put_flag(a, x.subpic_id_mapping is Some);
    let a = match x.subpic_id_mapping {
        Some(y) => put_subpic_map(a, y, x.head.pps_no_pic_partition_flag),
        None => a,
    };
    let a = match x.partition {
        Some(y) => put_pps_partition(
            a,
            y,
            x.head.pps_pic_width_in_luma_samples,
            x.head.pps_pic_height_in_luma_samples,
        ),
        None => a,
    };
    a
}

/// The values of the fields of a PPS up to the partition block that reading can
/// give.
#[verifier::opaque]
pub open spec fn pps_front_ok(x: PpsFrontModel) -> bool {
    &&& pps_head_ok(x.head)
    &&& x.subpic_id_mapping matches Some(y) ==> subpic_map_ok(y, x.head.pps_no_pic_partition_flag)
    &&& x.partition is Some <==> (x.head.pps_no_pic_partition_flag == 0)
    &&& x.partition matches Some(y)
        ==> pps_partition_ok(y, x.head.pps_pic_width_in_luma_samples, x.head.pps_pic_height_in_luma_samples)
}

/// The values of the fields of a PPS up to the partition block that the writer
/// accepts.
#[verifier::opaque]
pub open spec fn pps_front_can(x: PpsFrontModel) -> bool {
    &&& pps_head_can(x.head)
    &&& x.subpic_id_mapping matches Some(y) ==> subpic_map_can(y, x.head.pps_no_pic_partition_flag)
    &&& x.partition is Some <==> (x.head.pps_no_pic_partition_flag == 0)
    &&& x.partition matches Some(y)
        ==> pps_partition_can(y, x.head.pps_pic_width_in_luma_samples, x.head.pps_pic_height_in_luma_samples)
}

/// Parses the fields of a PPS up to the partition block.
fn parse_pps_front(r: &mut BitReader<'_>) -> (res: Result<PpsFront, BitstreamError>)
    ensures
        read_view_is(pps_front_at(old(r).bits(), old(r).pos()), res, *old(r), *final(r)),
{
    proof {
        reveal(pps_front_at);
    }
    let head = parse_pps_head(r)?;
    let present: bool = r.flag();
    let subpic_id_mapping = if present {
        Some(parse_subpic_map(r, head.pps_no_pic_partition_flag)?)
    } else {
        None
    };
    let partition = if head.pps_no_pic_partition_flag == 0 {
        Some(parse_pps_partition(r, head.pps_pic_width_in_luma_samples, head.pps_pic_height_in_luma_samples)?)
    } else {
        None
    };
    Ok(PpsFront { head, subpic_id_mapping, partition })
}

/// Emits the fields of a PPS up to the partition block, the inverse of [`parse_pps_front`].
fn write_pps_front(w: &mut BitWriter, x: &VvcPps) -> (res: Result<(), BitstreamError>)
    ensures
        write_is(pps_front_can(x@.front), put_pps_front(old(w)@, x@.front), res, final(w)@),
{
    proof {
        reveal(put_pps_front);
        reveal(pps_front_can);
    }
    let head = PpsHead {
        pps_pic_parameter_set_id: x.pps_pic_parameter_set_id,
        pps_seq_parameter_set_id: x.pps_seq_parameter_set_id,
        pps_mixed_nalu_types_in_pic_flag: x.pps_mixed_nalu_types_in_pic_flag,
        pps_pic_width_in_luma_samples: x.pps_pic_width_in_luma_samples,
        pps_pic_height_in_luma_samples: x.pps_pic_height_in_luma_samples,
        pps_conf_win_offsets: x.pps_conf_win_offsets,
        pps_scaling_win_offsets: x.pps_scaling_win_offsets,
        pps_output_flag_present_flag: x.pps_output_flag_present_flag,
        pps_no_pic_partition_flag: x.pps_no_pic_partition_flag,
    };
    write_pps_head(w, &head)?;
    w.write_flag(x.subpic_id_mapping.is_some());
    if let Some(y) = &x.subpic_id_mapping {
        write_subpic_map(w, y, head.pps_no_pic_partition_flag)?;
    }
    if x.partition.is_some() != (head.pps_no_pic_partition_flag == 0) {
        return Err(
            BitstreamError::invalid(
                "partition block must be present iff !pps_no_pic_partition_flag (7.3.2.5)",
            ),
        );
    }
    if let Some(y) = &x.partition {
        write_pps_partition(w, y, head.pps_pic_width_in_luma_samples, head.pps_pic_height_in_luma_samples)?;
    }
    Ok(())
}

/// Writing the fields of a PPS up to the partition block gives back the bits it
/// was read from.
pub broadcast proof fn law_put_pps_front_at(s: Seq<bool>, p: nat)
    ensures
        #[trigger] pps_front_at(s, p) matches Ok((x, q)) ==> {
            &&& pps_front_ok(x)
            &&& pps_front_can(x)
            &&& within(s, q) ==> within(s, p) && put_pps_front(upto(s, p), x) == upto(s, q)
        },
{
    broadcast use {
        crate::bits::group_write_read,
        law_put_pps_head_at,
        law_put_subpic_map_at,
        law_put_pps_partition_at,
    };

    reveal(pps_front_at);
    reveal(put_pps_front);
    reveal(pps_front_ok);
    reveal(pps_front_can);
}

/// Reading gives back the fields of a PPS up to the partition block as it was
/// written.
pub broadcast proof fn law_pre_put_pps_front(a: Seq<bool>, x: PpsFrontModel, s: Seq<bool>)
    requires
        #[trigger] pre(put_pps_front(a, x), s),
        pps_front_ok(x),
    ensures
        pre(a, s),
        pps_front_can(x),
        pps_front_at(s, a.len()) == Ok::<(PpsFrontModel, nat), Fault>((x, put_pps_front(a, x).len())),
{
    broadcast use {
        crate::bits::group_read_written,
        law_pre_put_pps_head,
        law_pre_put_subpic_map,
        law_pre_put_pps_partition,
    };

    reveal(pps_front_at);
    reveal(put_pps_front);
    reveal(pps_front_ok);
    reveal(pps_front_can);
}

/// The layout of the fields of a PPS up to the partition block: reading at `p`
/// gives `x` and ends at `q` if and only if these elements stand there in this
/// order.
pub proof fn law_layout_pps_front(s: Seq<bool>, p: nat, x: PpsFrontModel, q: nat)
    ensures
        pps_front_at(s, p) == Ok::<(PpsFrontModel, nat), Fault>((x, q)) <==> cursor(s, p)
            .part(|p: nat| pps_head_at(s, p), x.head)
            .flagged(|p: nat| subpic_map_at(s, p, x.head.pps_no_pic_partition_flag), x.subpic_id_mapping)
            .part_if(
                x.head.pps_no_pic_partition_flag == 0,
                |p: nat| pps_partition_at(
                    s,
                    p,
                    x.head.pps_pic_width_in_luma_samples,
                    x.head.pps_pic_height_in_luma_samples,
                ),
                x.partition,
            )
            .ends(q),
{
    reveal(pps_front_at);
}

/// Reading the fields of a PPS up to the partition block fails only with an
/// error of this class.
pub broadcast proof fn law_faults_pps_front(s: Seq<bool>, p: nat)
    ensures
        #[trigger] pps_front_at(s, p) matches Err(f) ==> f == Fault::Invalid,
{
    broadcast use {law_faults_pps_head, law_faults_subpic_map, law_faults_pps_partition};

    reveal(pps_front_at);
}

/// What the writer accepts reads back: the fields of a PPS up to the partition
/// block, where each field fits its width and what is not coded has the value
/// that is taken for it.
pub proof fn law_reads_pps_front(a: Seq<bool>, x: PpsFrontModel, s: Seq<bool>)
    requires
        pps_front_can(x),
        pps_head_ok(x.head),
        x.subpic_id_mapping matches Some(y) ==> subpic_map_ok(y, x.head.pps_no_pic_partition_flag),
        x.partition matches Some(y)
            ==> pps_partition_ok(
                y,
                x.head.pps_pic_width_in_luma_samples,
                x.head.pps_pic_height_in_luma_samples,
            ),
        pre(put_pps_front(a, x), s),
    ensures
        pps_front_at(s, a.len()) == Ok::<(PpsFrontModel, nat), Fault>((x, put_pps_front(a, x).len())),
{
    assert(pps_front_ok(x)) by {
        broadcast use crate::bits::law_fits_small;

        reveal(pps_front_ok);
        reveal(pps_front_can);
    }
    law_pre_put_pps_front(a, x, s);
}

/// Each field of the model of a [`PpsFront`] is the field of that name.
pub proof fn law_view_pps_front(x: PpsFront)
    ensures
        x@.head == x.head,
        x@.subpic_id_mapping == opt_view(x.subpic_id_mapping),
        x@.partition == opt_view(x.partition),
{
}

/// The fields of a PPS behind the partition block.
pub struct PpsRest {
    pub pps_cabac_init_present_flag: u8,
    pub ref_idx0: u32,
    pub ref_idx1: u32,
    pub pps_rpl1_idx_present_flag: u8,
    pub pps_weighted_pred_flag: u8,
    pub pps_weighted_bipred_flag: u8,
    pub pps_pic_width_minus_wraparound_offset: Option<u32>,
    pub pps_init_qp_minus26: i32,
    pub pps_cu_qp_delta_enabled_flag: u8,
    pub chroma_tool_offsets: Option<VvcPpsChromaToolOffsets>,
    pub deblocking: Option<VvcPpsDeblocking>,
    pub in_ph: PpsInPh,
    pub pps_extension_data: Vec<u8>,
}

/// The mathematical model of a [`PpsRest`].
pub struct PpsRestModel {
    pub pps_cabac_init_present_flag: u8,
    pub ref_idx0: u32,
    pub ref_idx1: u32,
    pub pps_rpl1_idx_present_flag: u8,
    pub pps_weighted_pred_flag: u8,
    pub pps_weighted_bipred_flag: u8,
    pub pps_pic_width_minus_wraparound_offset: Option<u32>,
    pub pps_init_qp_minus26: i32,
    pub pps_cu_qp_delta_enabled_flag: u8,
    pub chroma_tool_offsets: Option<VvcPpsChromaToolOffsetsModel>,
    pub deblocking: Option<VvcPpsDeblocking>,
    pub in_ph: PpsInPh,
    pub pps_extension_data: Seq<u8>,
}

impl View for PpsRest {
    type V = PpsRestModel;

    open spec fn view(&self) -> PpsRestModel {
        PpsRestModel {
            pps_cabac_init_present_flag: self.pps_cabac_init_present_flag,
            ref_idx0: self.ref_idx0,
            ref_idx1: self.ref_idx1,
            pps_rpl1_idx_present_flag: self.pps_rpl1_idx_present_flag,
            pps_weighted_pred_flag: self.pps_weighted_pred_flag,
            pps_weighted_bipred_flag: self.pps_weighted_bipred_flag,
            pps_pic_width_minus_wraparound_offset: self.pps_pic_width_minus_wraparound_offset,
            pps_init_qp_minus26: self.pps_init_qp_minus26,
            pps_cu_qp_delta_enabled_flag: self.pps_cu_qp_delta_enabled_flag,
            chroma_tool_offsets: opt_view(self.chroma_tool_offsets),
            deblocking: self.deblocking,
            in_ph: self.in_ph,
            pps_extension_data: self.pps_extension_data@,
        }
    }
}

/// The fields of a PPS behind the partition block at position `p`.
#[verifier::opaque]
pub open spec fn pps_rest_at(s: Seq<bool>, p: nat, no_partition: u8) -> Read<PpsRestModel> {
    let pps_cabac_init_present_flag = u8_at(s, p, 1);
    let p = adv(p, 1);
    match ue_at(s, p) { Err(f) => Err(f), Ok((ref_idx0, p)) => {
    if ref_idx0 > 14 { Err(Fault::Invalid) } else {
    match ue_at(s, p) { Err(f) => Err(f), Ok((ref_idx1, p)) => {
    if ref_idx1 > 14 { Err(Fault::Invalid) } else {
    let pps_rpl1_idx_present_flag = u8_at(s, p, 1);
    let p = adv(p, 1);
    let pps_weighted_pred_flag = u8_at(s, p, 1);
    let p = adv(p, 1);
    let pps_weighted_bipred_flag = u8_at(s, p, 1);
    let p = adv(p, 1);
    let present = flag_at(s, p);
    let p = adv(p, 1);
    match (if present { read_some(ue_value_at(s, p)) } else { Ok((None, p)) })
    { Err(f) => Err(f), Ok((pps_pic_width_minus_wraparound_offset, p)) => {
    match se_at(s, p) { Err(f) => Err(f), Ok((pps_init_qp_minus26, p)) => {
    let pps_cu_qp_delta_enabled_flag = u8_at(s, p, 1);
    let p = adv(p, 1);
    let present = flag_at(s, p);
    let p = adv(p, 1);
    match (if present { read_some(chroma_offsets_at(s, p)) } else { Ok((None, p)) })
    { Err(f) => Err(f), Ok((chroma_tool_offsets, p)) => {
    let present = flag_at(s, p);
    let p = adv(p, 1);
    match (if present {
        read_some(deblocking_at(s, p, no_partition, chroma_tool_offsets.is_some()))
    } else {
        Ok((None, p))
    })
    { Err(f) => Err(f), Ok((deblocking, p)) => {
    match pps_in_ph_at(s, p, no_partition, pps_weighted_pred_flag != 0 || pps_weighted_bipred_flag != 0)
    { Err(f) => Err(f), Ok((in_ph, p)) => {
    match tail_at(s, p, in_ph.pps_extension_flag != 0) { Err(f) => Err(f), Ok((pps_extension_data, p)) => {
    Ok((
        PpsRestModel {
            pps_cabac_init_present_flag,
            ref_idx0,
            ref_idx1,
            pps_rpl1_idx_present_flag,
            pps_weighted_pred_flag,
            pps_weighted_bipred_flag,
            pps_pic_width_minus_wraparound_offset,
            pps_init_qp_minus26,
            pps_cu_qp_delta_enabled_flag,
            chroma_tool_offsets,
            deblocking,
            in_ph,
            pps_extension_data,
        },
        p,
    ))
    }}}}}}}}}}}}}}}}}}
}

/// The bits `a` followed by the fields of a PPS behind the partition block.
#[verifier::opaque]
pub open spec fn put_pps_rest(a: Seq<bool>, x: PpsRestModel, no_partition: u8) -> Seq<bool> {
    let a = put_bit(a, x.pps_cabac_init_present_flag as nat);
    let a = put_ue(a, x.ref_idx0 as nat);
    let a = put_ue(a, x.ref_idx1 as nat);
    let a = put_bit(a, x.pps_rpl1_idx_present_flag as nat);
    let a = put_bit(a, x.pps_weighted_pred_flag as nat);
    let a = put_bit(a, x.pps_weighted_bipred_flag as nat);
    let a = put_flag(a, x.pps_pic_width_minus_wraparound_offset is Some);
    let a = match x.pps_pic_width_minus_wraparound_offset { Some(y) => put_ue_value(a, y), None => a };
    let a = put_se(a, x.pps_init_qp_minus26 as int);
    let a = put_bit(a, x.pps_cu_qp_delta_enabled_flag as nat);
    let a = put_flag(a, x.chroma_tool_offsets is Some);
    let a = match x.chroma_tool_offsets { Some(y) => put_chroma_offsets(a, y), None => a };
    let a = put_flag(a, x.deblocking is Some);
    let a = match x.deblocking {
        Some(y) => put_deblocking(a, y, no_partition, x.chroma_tool_offsets.is_some()),
        None => a,
    };
    let a = put_pps_in_ph(
        a,
        x.in_ph,
        no_partition,
        x.pps_weighted_pred_flag != 0 || x.pps_weighted_bipred_flag != 0,
    );
    let a = put_tail(a, x.pps_extension_data, x.in_ph.pps_extension_flag != 0);
    a
}

/// The values of the fields of a PPS behind the partition block that reading
/// can give.
#[verifier::opaque]
pub open spec fn pps_rest_ok(x: PpsRestModel, no_partition: u8) -> bool {
    &&& fits(x.pps_cabac_init_present_flag as nat, 1)
    &&& x.ref_idx0 <= 14
    &&& x.ref_idx1 <= 14
    &&& fits(x.pps_rpl1_idx_present_flag as nat, 1)
    &&& fits(x.pps_weighted_pred_flag as nat, 1)
    &&& fits(x.pps_weighted_bipred_flag as nat, 1)
    &&& x.pps_pic_width_minus_wraparound_offset matches Some(y) ==> ue_value_ok(y)
    &&& se_fits(x.pps_init_qp_minus26 as int)
    &&& fits(x.pps_cu_qp_delta_enabled_flag as nat, 1)
    &&& x.chroma_tool_offsets matches Some(y) ==> chroma_offsets_ok(y)
    &&& x.deblocking matches Some(y) ==> deblocking_ok(y, no_partition, x.chroma_tool_offsets.is_some())
    &&& pps_in_ph_ok(x.in_ph, no_partition, x.pps_weighted_pred_flag != 0 || x.pps_weighted_bipred_flag != 0)
    &&& tail_ok(x.pps_extension_data, x.in_ph.pps_extension_flag != 0)
}

/// The values of the fields of a PPS behind the partition block that the writer
/// accepts.
#[verifier::opaque]
pub open spec fn pps_rest_can(x: PpsRestModel, no_partition: u8) -> bool {
    &&& x.ref_idx0 <= 14
    &&& x.ref_idx1 <= 14
    &&& x.pps_pic_width_minus_wraparound_offset matches Some(y) ==> ue_value_can(y)
    &&& se_fits(x.pps_init_qp_minus26 as int)
    &&& x.chroma_tool_offsets matches Some(y) ==> chroma_offsets_can(y)
    &&& x.deblocking matches Some(y) ==> deblocking_can(y, no_partition, x.chroma_tool_offsets.is_some())
    &&& pps_in_ph_can(x.in_ph, no_partition, x.pps_weighted_pred_flag != 0 || x.pps_weighted_bipred_flag != 0)
    &&& tail_can(x.pps_extension_data, x.in_ph.pps_extension_flag != 0)
}

/// Parses the fields of a PPS behind the partition block.
#[verifier::rlimit(40)]
#[verifier::spinoff_prover]
fn parse_pps_rest(r: &mut BitReader<'_>, no_partition: u8) -> (res: Result<PpsRest, BitstreamError>)
    ensures
        read_view_is(pps_rest_at(old(r).bits(), old(r).pos(), no_partition), res, *old(r), *final(r)),
{
    proof {
        reveal(pps_rest_at);
    }
    let pps_cabac_init_present_flag: u8 = r.bit();
    let ref_idx0: u32 = r.ue()?;
    if ref_idx0 > 14 {
        return Err(BitstreamError::invalid("pps_num_ref_idx_default_active_minus1 > 14 (7.4.3.5)"));
    }
    let ref_idx1: u32 = r.ue()?;
    if ref_idx1 > 14 {
        return Err(BitstreamError::invalid("pps_num_ref_idx_default_active_minus1 > 14 (7.4.3.5)"));
    }
    let pps_rpl1_idx_present_flag: u8 = r.bit();
    let pps_weighted_pred_flag: u8 = r.bit();
    let pps_weighted_bipred_flag: u8 = r.bit();
    let present: bool = r.flag();
    let pps_pic_width_minus_wraparound_offset = if present { Some(parse_ue_value(r)?) } else { None };
    let pps_init_qp_minus26: i32 = r.se()?;
    let pps_cu_qp_delta_enabled_flag: u8 = r.bit();
    let present: bool = r.flag();
    let chroma_tool_offsets = if present { Some(parse_chroma_offsets(r)?) } else { None };
    let present: bool = r.flag();
    let deblocking = if present {
        Some(parse_deblocking(r, no_partition, chroma_tool_offsets.is_some())?)
    } else {
        None
    };
    let in_ph = parse_pps_in_ph(
        r,
        no_partition,
        pps_weighted_pred_flag != 0 || pps_weighted_bipred_flag != 0,
    )?;
    let pps_extension_data = parse_tail(r, in_ph.pps_extension_flag != 0)?;
    Ok(
        PpsRest {
            pps_cabac_init_present_flag,
            ref_idx0,
            ref_idx1,
            pps_rpl1_idx_present_flag,
            pps_weighted_pred_flag,
            pps_weighted_bipred_flag,
            pps_pic_width_minus_wraparound_offset,
            pps_init_qp_minus26,
            pps_cu_qp_delta_enabled_flag,
            chroma_tool_offsets,
            deblocking,
            in_ph,
            pps_extension_data,
        },
    )
}

/// Emits the fields of a PPS behind the partition block, the inverse of [`parse_pps_rest`].
#[verifier::rlimit(40)]
#[verifier::spinoff_prover]
fn write_pps_rest(w: &mut BitWriter, x: &VvcPps, no_partition: u8) -> (res: Result<(), BitstreamError>)
    ensures
        write_is(
            pps_rest_can(x@.rest, no_partition),
            put_pps_rest(old(w)@, x@.rest, no_partition),
            res,
            final(w)@,
        ),
{
    proof {
        reveal(put_pps_rest);
        reveal(pps_rest_can);
    }
    w.write_bit(x.pps_cabac_init_present_flag as u32);
    w.write_ue(x.pps_num_ref_idx_default_active_minus1[0])?;
    if !(x.pps_num_ref_idx_default_active_minus1[0] <= 14) {
        return Err(BitstreamError::invalid("pps_num_ref_idx_default_active_minus1 > 14 (7.4.3.5)"));
    }
    w.write_ue(x.pps_num_ref_idx_default_active_minus1[1])?;
    if !(x.pps_num_ref_idx_default_active_minus1[1] <= 14) {
        return Err(BitstreamError::invalid("pps_num_ref_idx_default_active_minus1 > 14 (7.4.3.5)"));
    }
    w.write_bit(x.pps_rpl1_idx_present_flag as u32);
    w.write_bit(x.pps_weighted_pred_flag as u32);
    w.write_bit(x.pps_weighted_bipred_flag as u32);
    w.write_flag(x.pps_pic_width_minus_wraparound_offset.is_some());
    if let Some(y) = &x.pps_pic_width_minus_wraparound_offset {
        write_ue_value(w, y)?;
    }
    w.write_se(x.pps_init_qp_minus26)?;
    w.write_bit(x.pps_cu_qp_delta_enabled_flag as u32);
    w.write_flag(x.chroma_tool_offsets.is_some());
    if let Some(y) = &x.chroma_tool_offsets {
        write_chroma_offsets(w, y)?;
    }
    w.write_flag(x.deblocking.is_some());
    if let Some(y) = &x.deblocking {
        write_deblocking(w, y, no_partition, x.chroma_tool_offsets.is_some())?;
    }
    let in_ph = PpsInPh {
        pps_rpl_info_in_ph_flag: x.pps_rpl_info_in_ph_flag,
        pps_sao_info_in_ph_flag: x.pps_sao_info_in_ph_flag,
        pps_alf_info_in_ph_flag: x.pps_alf_info_in_ph_flag,
        pps_wp_info_in_ph_flag: x.pps_wp_info_in_ph_flag,
        pps_qp_delta_info_in_ph_flag: x.pps_qp_delta_info_in_ph_flag,
        pps_picture_header_extension_present_flag: x.pps_picture_header_extension_present_flag,
        pps_slice_header_extension_present_flag: x.pps_slice_header_extension_present_flag,
        pps_extension_flag: x.pps_extension_flag,
    };
    write_pps_in_ph(
        w,
        &in_ph,
        no_partition,
        x.pps_weighted_pred_flag != 0 || x.pps_weighted_bipred_flag != 0,
    )?;
    write_tail(
        w,
        &x.pps_extension_data,
        in_ph.pps_extension_flag != 0,
        "pps_extension_data",
        "pps_extension_flag (7.3.2.5)",
    )?;
    Ok(())
}

/// Writing the fields of a PPS behind the partition block gives back the bits
/// it was read from.
#[verifier::rlimit(40)]
#[verifier::spinoff_prover]
pub broadcast proof fn law_put_pps_rest_at(s: Seq<bool>, p: nat, no_partition: u8)
    ensures
        #[trigger] pps_rest_at(s, p, no_partition) matches Ok((x, q)) ==> {
            &&& pps_rest_ok(x, no_partition)
            &&& tail_can(x.pps_extension_data, x.in_ph.pps_extension_flag != 0)
                ==> pps_rest_can(x, no_partition)
            &&& within(s, q) ==> within(s, p) && put_pps_rest(upto(s, p), x, no_partition) == upto(s, q)
        },
{
    broadcast use {
        crate::bits::group_write_read,
        law_put_ue_value_at,
        law_put_chroma_offsets_at,
        law_put_deblocking_at,
        law_put_pps_in_ph_at,
        law_put_tail_at,
    };

    reveal(pps_rest_at);
    reveal(put_pps_rest);
    reveal(pps_rest_ok);
    reveal(pps_rest_can);
}

/// Reading gives back the fields of a PPS behind the partition block as it was
/// written.
#[verifier::rlimit(40)]
#[verifier::spinoff_prover]
pub broadcast proof fn law_pre_put_pps_rest(a: Seq<bool>, x: PpsRestModel, no_partition: u8, s: Seq<bool>)
    requires
        #[trigger] whole(put_pps_rest(a, x, no_partition), s),
        pps_rest_ok(x, no_partition),
    ensures
        pre(a, s),
        tail_can(x.pps_extension_data, x.in_ph.pps_extension_flag != 0) ==> pps_rest_can(x, no_partition),
        pps_rest_at(s, a.len(), no_partition) == Ok::<(PpsRestModel, nat), Fault>((x, s.len())),
{
    broadcast use {
        crate::bits::group_read_written,
        law_pre_put_ue_value,
        law_pre_put_chroma_offsets,
        law_pre_put_deblocking,
        law_pre_put_pps_in_ph,
        law_pre_put_tail,
    };

    reveal(pps_rest_at);
    reveal(put_pps_rest);
    reveal(pps_rest_ok);
    reveal(pps_rest_can);
}

/// The layout of the fields of a PPS behind the partition block: reading at `p`
/// gives `x` and ends at `q` if and only if these elements stand there in this
/// order, and the values are allowed.
#[verifier::rlimit(40)]
#[verifier::spinoff_prover]
pub proof fn law_layout_pps_rest(s: Seq<bool>, p: nat, no_partition: u8, x: PpsRestModel, q: nat)
    ensures
        pps_rest_at(s, p, no_partition) == Ok::<(PpsRestModel, nat), Fault>((x, q)) <==> ({
            &&& cursor(s, p)
                .u8(1, x.pps_cabac_init_present_flag)
                .ue(x.ref_idx0)
                .ue(x.ref_idx1)
                .u8(1, x.pps_rpl1_idx_present_flag)
                .u8(1, x.pps_weighted_pred_flag)
                .u8(1, x.pps_weighted_bipred_flag)
                .flagged(|p: nat| ue_value_at(s, p), x.pps_pic_width_minus_wraparound_offset)
                .se(x.pps_init_qp_minus26)
                .u8(1, x.pps_cu_qp_delta_enabled_flag)
                .flagged(|p: nat| chroma_offsets_at(s, p), x.chroma_tool_offsets)
                .flagged(
                    |p: nat| deblocking_at(s, p, no_partition, x.chroma_tool_offsets.is_some()),
                    x.deblocking,
                )
                .part(
                    |p: nat| pps_in_ph_at(
                        s,
                        p,
                        no_partition,
                        x.pps_weighted_pred_flag != 0 || x.pps_weighted_bipred_flag != 0,
                    ),
                    x.in_ph,
                )
                .part(|p: nat| tail_at(s, p, x.in_ph.pps_extension_flag != 0), x.pps_extension_data)
                .ends(q)
            &&& x.ref_idx0 <= 14
            &&& x.ref_idx1 <= 14
        }),
{
    reveal(pps_rest_at);
}

/// Reading the fields of a PPS behind the partition block never fails with an
/// error of this class.
#[verifier::rlimit(40)]
#[verifier::spinoff_prover]
pub broadcast proof fn law_faults_pps_rest(s: Seq<bool>, p: nat, no_partition: u8)
    ensures
        #[trigger] pps_rest_at(s, p, no_partition) matches Err(f) ==> f != Fault::Unsupported,
{
    broadcast use {
        crate::bits::law_faults_ue,
        law_faults_ue_value,
        crate::bits::law_faults_se,
        law_faults_chroma_offsets,
        law_faults_deblocking,
        law_faults_pps_in_ph,
        crate::bits::law_faults_tail,
    };

    reveal(pps_rest_at);
}

/// What the writer accepts reads back: the fields of a PPS behind the partition
/// block, where each field fits its width and what is not coded has the value
/// that is taken for it.
#[verifier::rlimit(40)]
#[verifier::spinoff_prover]
pub proof fn law_reads_pps_rest(a: Seq<bool>, x: PpsRestModel, no_partition: u8, s: Seq<bool>)
    requires
        pps_rest_can(x, no_partition),
        fits(x.pps_cabac_init_present_flag as nat, 1),
        fits(x.pps_rpl1_idx_present_flag as nat, 1),
        fits(x.pps_weighted_pred_flag as nat, 1),
        fits(x.pps_weighted_bipred_flag as nat, 1),
        x.pps_pic_width_minus_wraparound_offset matches Some(y) ==> ue_value_ok(y),
        fits(x.pps_cu_qp_delta_enabled_flag as nat, 1),
        x.chroma_tool_offsets matches Some(y) ==> chroma_offsets_ok(y),
        x.deblocking matches Some(y) ==> deblocking_ok(y, no_partition, x.chroma_tool_offsets.is_some()),
        pps_in_ph_ok(x.in_ph, no_partition, x.pps_weighted_pred_flag != 0 || x.pps_weighted_bipred_flag != 0),
        tail_ok(x.pps_extension_data, x.in_ph.pps_extension_flag != 0),
        tail_can(x.pps_extension_data, x.in_ph.pps_extension_flag != 0),
        whole(put_pps_rest(a, x, no_partition), s),
    ensures
        pps_rest_at(s, a.len(), no_partition) == Ok::<(PpsRestModel, nat), Fault>((x, s.len())),
{
    assert(pps_rest_ok(x, no_partition)) by {
        broadcast use crate::bits::law_fits_small;

        reveal(pps_rest_ok);
        reveal(pps_rest_can);
    }
    law_pre_put_pps_rest(a, x, no_partition, s);
}

/// Each field of the model of a [`PpsRest`] is the field of that name.
pub proof fn law_view_pps_rest(x: PpsRest)
    ensures
        x@.pps_cabac_init_present_flag == x.pps_cabac_init_present_flag,
        x@.ref_idx0 == x.ref_idx0,
        x@.ref_idx1 == x.ref_idx1,
        x@.pps_rpl1_idx_present_flag == x.pps_rpl1_idx_present_flag,
        x@.pps_weighted_pred_flag == x.pps_weighted_pred_flag,
        x@.pps_weighted_bipred_flag == x.pps_weighted_bipred_flag,
        x@.pps_pic_width_minus_wraparound_offset == x.pps_pic_width_minus_wraparound_offset,
        x@.pps_init_qp_minus26 == x.pps_init_qp_minus26,
        x@.pps_cu_qp_delta_enabled_flag == x.pps_cu_qp_delta_enabled_flag,
        x@.chroma_tool_offsets == opt_view(x.chroma_tool_offsets),
        x@.deblocking == x.deblocking,
        x@.in_ph == x.in_ph,
        x@.pps_extension_data == x.pps_extension_data@,
{
}

/// The mathematical model of a [`VvcPps`].
pub struct VvcPpsModel {
    pub front: PpsFrontModel,
    pub rest: PpsRestModel,
}

impl View for VvcPps {
    type V = VvcPpsModel;

    open spec fn view(&self) -> VvcPpsModel {
        VvcPpsModel {
            front: PpsFrontModel {
                head: PpsHead {
                    pps_pic_parameter_set_id: self.pps_pic_parameter_set_id,
                    pps_seq_parameter_set_id: self.pps_seq_parameter_set_id,
                    pps_mixed_nalu_types_in_pic_flag: self.pps_mixed_nalu_types_in_pic_flag,
                    pps_pic_width_in_luma_samples: self.pps_pic_width_in_luma_samples,
                    pps_pic_height_in_luma_samples: self.pps_pic_height_in_luma_samples,
                    pps_conf_win_offsets: self.pps_conf_win_offsets,
                    pps_scaling_win_offsets: self.pps_scaling_win_offsets,
                    pps_output_flag_present_flag: self.pps_output_flag_present_flag,
                    pps_no_pic_partition_flag: self.pps_no_pic_partition_flag,
                },
                subpic_id_mapping: opt_view(self.subpic_id_mapping),
                partition: opt_view(self.partition),
            },
            rest: PpsRestModel {
                pps_cabac_init_present_flag: self.pps_cabac_init_present_flag,
                ref_idx0: self.pps_num_ref_idx_default_active_minus1@[0],
                ref_idx1: self.pps_num_ref_idx_default_active_minus1@[1],
                pps_rpl1_idx_present_flag: self.pps_rpl1_idx_present_flag,
                pps_weighted_pred_flag: self.pps_weighted_pred_flag,
                pps_weighted_bipred_flag: self.pps_weighted_bipred_flag,
                pps_pic_width_minus_wraparound_offset: self.pps_pic_width_minus_wraparound_offset,
                pps_init_qp_minus26: self.pps_init_qp_minus26,
                pps_cu_qp_delta_enabled_flag: self.pps_cu_qp_delta_enabled_flag,
                chroma_tool_offsets: opt_view(self.chroma_tool_offsets),
                deblocking: self.deblocking,
                in_ph: PpsInPh {
                    pps_rpl_info_in_ph_flag: self.pps_rpl_info_in_ph_flag,
                    pps_sao_info_in_ph_flag: self.pps_sao_info_in_ph_flag,
                    pps_alf_info_in_ph_flag: self.pps_alf_info_in_ph_flag,
                    pps_wp_info_in_ph_flag: self.pps_wp_info_in_ph_flag,
                    pps_qp_delta_info_in_ph_flag: self.pps_qp_delta_info_in_ph_flag,
                    pps_picture_header_extension_present_flag: self.pps_picture_header_extension_present_flag,
                    pps_slice_header_extension_present_flag: self.pps_slice_header_extension_present_flag,
                    pps_extension_flag: self.pps_extension_flag,
                },
                pps_extension_data: self.pps_extension_data@,
            },
        }
    }
}

/// pic_parameter_set_rbsp() at position `p`.
#[verifier::opaque]
pub open spec fn pps_at(s: Seq<bool>, p: nat) -> Read<VvcPpsModel> {
    match pps_front_at(s, p) { Err(f) => Err(f), Ok((front, p)) => {
    match pps_rest_at(s, p, front.head.pps_no_pic_partition_flag) { Err(f) => Err(f), Ok((rest, p)) => {
    Ok((VvcPpsModel { front, rest }, p))
    }}}}
}

/// The bits `a` followed by pic_parameter_set_rbsp().
#[verifier::opaque]
pub open spec fn put_pps(a: Seq<bool>, x: VvcPpsModel) -> Seq<bool> {
    let a = put_pps_front(a, x.front);
    let a = put_pps_rest(a, x.rest, x.front.head.pps_no_pic_partition_flag);
    a
}

/// The values of pic_parameter_set_rbsp() that reading can give.
#[verifier::opaque]
pub open spec fn pps_ok(x: VvcPpsModel) -> bool {
    &&& pps_front_ok(x.front)
    &&& pps_rest_ok(x.rest, x.front.head.pps_no_pic_partition_flag)
}

/// The values of pic_parameter_set_rbsp() that the writer accepts.
#[verifier::opaque]
pub open spec fn pps_can(x: VvcPpsModel) -> bool {
    &&& pps_front_can(x.front)
    &&& pps_rest_can(x.rest, x.front.head.pps_no_pic_partition_flag)
}

/// Parses pic_parameter_set_rbsp().
#[verifier::rlimit(40)]
#[verifier::spinoff_prover]
fn parse_pps_rbsp(r: &mut BitReader<'_>) -> (res: Result<VvcPps, BitstreamError>)
    ensures
        read_view_is(pps_at(old(r).bits(), old(r).pos()), res, *old(r), *final(r)),
{
    proof {
        reveal(pps_at);
    }
    let front = parse_pps_front(r)?;
    let rest = parse_pps_rest(r, front.head.pps_no_pic_partition_flag)?;
    Ok(VvcPps {
        pps_pic_parameter_set_id: front.head.pps_pic_parameter_set_id,
        pps_seq_parameter_set_id: front.head.pps_seq_parameter_set_id,
        pps_mixed_nalu_types_in_pic_flag: front.head.pps_mixed_nalu_types_in_pic_flag,
        pps_pic_width_in_luma_samples: front.head.pps_pic_width_in_luma_samples,
        pps_pic_height_in_luma_samples: front.head.pps_pic_height_in_luma_samples,
        pps_conf_win_offsets: front.head.pps_conf_win_offsets,
        pps_scaling_win_offsets: front.head.pps_scaling_win_offsets,
        pps_output_flag_present_flag: front.head.pps_output_flag_present_flag,
        pps_no_pic_partition_flag: front.head.pps_no_pic_partition_flag,
        subpic_id_mapping: front.subpic_id_mapping,
        partition: front.partition,
        pps_cabac_init_present_flag: rest.pps_cabac_init_present_flag,
        pps_num_ref_idx_default_active_minus1: [rest.ref_idx0, rest.ref_idx1],
        pps_rpl1_idx_present_flag: rest.pps_rpl1_idx_present_flag,
        pps_weighted_pred_flag: rest.pps_weighted_pred_flag,
        pps_weighted_bipred_flag: rest.pps_weighted_bipred_flag,
        pps_pic_width_minus_wraparound_offset: rest.pps_pic_width_minus_wraparound_offset,
        pps_init_qp_minus26: rest.pps_init_qp_minus26,
        pps_cu_qp_delta_enabled_flag: rest.pps_cu_qp_delta_enabled_flag,
        chroma_tool_offsets: rest.chroma_tool_offsets,
        deblocking: rest.deblocking,
        pps_rpl_info_in_ph_flag: rest.in_ph.pps_rpl_info_in_ph_flag,
        pps_sao_info_in_ph_flag: rest.in_ph.pps_sao_info_in_ph_flag,
        pps_alf_info_in_ph_flag: rest.in_ph.pps_alf_info_in_ph_flag,
        pps_wp_info_in_ph_flag: rest.in_ph.pps_wp_info_in_ph_flag,
        pps_qp_delta_info_in_ph_flag: rest.in_ph.pps_qp_delta_info_in_ph_flag,
        pps_picture_header_extension_present_flag: rest.in_ph.pps_picture_header_extension_present_flag,
        pps_slice_header_extension_present_flag: rest.in_ph.pps_slice_header_extension_present_flag,
        pps_extension_flag: rest.in_ph.pps_extension_flag,
        pps_extension_data: rest.pps_extension_data,
    })
}

/// Emits pic_parameter_set_rbsp().
#[verifier::rlimit(40)]
#[verifier::spinoff_prover]
fn write_pps_rbsp(w: &mut BitWriter, x: &VvcPps) -> (res: Result<(), BitstreamError>)
    ensures
        write_is(pps_can(x@), put_pps(old(w)@, x@), res, final(w)@),
{
    proof {
        reveal(put_pps);
        reveal(pps_can);
    }
    write_pps_front(w, x)?;
    write_pps_rest(w, x, x.pps_no_pic_partition_flag)?;
    Ok(())
}

/// Writing pic_parameter_set_rbsp() gives back the bits it was read from.
#[verifier::rlimit(40)]
#[verifier::spinoff_prover]
pub broadcast proof fn law_put_pps_at(s: Seq<bool>, p: nat)
    ensures
        #[trigger] pps_at(s, p) matches Ok((x, q)) ==> {
            &&& pps_ok(x)
            &&& tail_can(x.rest.pps_extension_data, x.rest.in_ph.pps_extension_flag != 0) ==> pps_can(x)
            &&& within(s, q) ==> within(s, p) && put_pps(upto(s, p), x) == upto(s, q)
        },
{
    broadcast use {crate::bits::group_write_read, law_put_pps_front_at, law_put_pps_rest_at};

    reveal(pps_at);
    reveal(put_pps);
    reveal(pps_ok);
    reveal(pps_can);
}

/// Reading gives back pic_parameter_set_rbsp() as it was written.
#[verifier::rlimit(40)]
#[verifier::spinoff_prover]
pub broadcast proof fn law_pre_put_pps(a: Seq<bool>, x: VvcPpsModel, s: Seq<bool>)
    requires
        #[trigger] whole(put_pps(a, x), s),
        pps_ok(x),
    ensures
        pre(a, s),
        tail_can(x.rest.pps_extension_data, x.rest.in_ph.pps_extension_flag != 0) ==> pps_can(x),
        pps_at(s, a.len()) == Ok::<(VvcPpsModel, nat), Fault>((x, s.len())),
{
    broadcast use {crate::bits::group_read_written, law_pre_put_pps_front, law_pre_put_pps_rest};

    reveal(pps_at);
    reveal(put_pps);
    reveal(pps_ok);
    reveal(pps_can);
}

/// The layout of pic_parameter_set_rbsp(): reading at `p` gives `x` and ends at
/// `q` if and only if these elements stand there in this order.
#[verifier::rlimit(40)]
#[verifier::spinoff_prover]
pub proof fn law_layout_pps(s: Seq<bool>, p: nat, x: VvcPpsModel, q: nat)
    ensures
        pps_at(s, p) == Ok::<(VvcPpsModel, nat), Fault>((x, q)) <==> cursor(s, p)
            .part(|p: nat| pps_front_at(s, p), x.front)
            .part(|p: nat| pps_rest_at(s, p, x.front.head.pps_no_pic_partition_flag), x.rest)
            .ends(q),
{
    reveal(pps_at);
}

/// Reading pic_parameter_set_rbsp() never fails with an error of this class.
#[verifier::rlimit(40)]
#[verifier::spinoff_prover]
pub broadcast proof fn law_faults_pps(s: Seq<bool>, p: nat)
    ensures
        #[trigger] pps_at(s, p) matches Err(f) ==> f != Fault::Unsupported,
{
    broadcast use {law_faults_pps_front, law_faults_pps_rest};

    reveal(pps_at);
}

/// What the writer accepts reads back: pic_parameter_set_rbsp(), where each
/// field fits its width and what is not coded has the value that is taken for
/// it.
#[verifier::rlimit(40)]
#[verifier::spinoff_prover]
pub proof fn law_reads_pps(a: Seq<bool>, x: VvcPpsModel, s: Seq<bool>)
    requires
        pps_can(x),
        pps_front_ok(x.front),
        pps_rest_ok(x.rest, x.front.head.pps_no_pic_partition_flag),
        whole(put_pps(a, x), s),
    ensures
        pps_at(s, a.len()) == Ok::<(VvcPpsModel, nat), Fault>((x, s.len())),
{
    assert(pps_ok(x)) by {
        broadcast use crate::bits::law_fits_small;

        reveal(pps_ok);
        reveal(pps_can);
    }
    law_pre_put_pps(a, x, s);
}

/// Each field of the model of a [`VvcPps`] is the field of that name.
pub proof fn law_view_pps(x: VvcPps)
    ensures
        x@.front.head.pps_pic_parameter_set_id == x.pps_pic_parameter_set_id,
        x@.front.head.pps_seq_parameter_set_id == x.pps_seq_parameter_set_id,
        x@.front.head.pps_mixed_nalu_types_in_pic_flag == x.pps_mixed_nalu_types_in_pic_flag,
        x@.front.head.pps_pic_width_in_luma_samples == x.pps_pic_width_in_luma_samples,
        x@.front.head.pps_pic_height_in_luma_samples == x.pps_pic_height_in_luma_samples,
        x@.front.head.pps_conf_win_offsets == x.pps_conf_win_offsets,
        x@.front.head.pps_scaling_win_offsets == x.pps_scaling_win_offsets,
        x@.front.head.pps_output_flag_present_flag == x.pps_output_flag_present_flag,
        x@.front.head.pps_no_pic_partition_flag == x.pps_no_pic_partition_flag,
        x@.front.subpic_id_mapping == opt_view(x.subpic_id_mapping),
        x@.front.partition == opt_view(x.partition),
        x@.rest.pps_cabac_init_present_flag == x.pps_cabac_init_present_flag,
        x@.rest.ref_idx0 == x.pps_num_ref_idx_default_active_minus1@[0],
        x@.rest.ref_idx1 == x.pps_num_ref_idx_default_active_minus1@[1],
        x@.rest.pps_rpl1_idx_present_flag == x.pps_rpl1_idx_present_flag,
        x@.rest.pps_weighted_pred_flag == x.pps_weighted_pred_flag,
        x@.rest.pps_weighted_bipred_flag == x.pps_weighted_bipred_flag,
        x@.rest.pps_pic_width_minus_wraparound_offset == x.pps_pic_width_minus_wraparound_offset,
        x@.rest.pps_init_qp_minus26 == x.pps_init_qp_minus26,
        x@.rest.pps_cu_qp_delta_enabled_flag == x.pps_cu_qp_delta_enabled_flag,
        x@.rest.chroma_tool_offsets == opt_view(x.chroma_tool_offsets),
        x@.rest.deblocking == x.deblocking,
        x@.rest.in_ph.pps_rpl_info_in_ph_flag == x.pps_rpl_info_in_ph_flag,
        x@.rest.in_ph.pps_sao_info_in_ph_flag == x.pps_sao_info_in_ph_flag,
        x@.rest.in_ph.pps_alf_info_in_ph_flag == x.pps_alf_info_in_ph_flag,
        x@.rest.in_ph.pps_wp_info_in_ph_flag == x.pps_wp_info_in_ph_flag,
        x@.rest.in_ph.pps_qp_delta_info_in_ph_flag == x.pps_qp_delta_info_in_ph_flag,
        x@.rest.in_ph.pps_picture_header_extension_present_flag == x.pps_picture_header_extension_present_flag,
        x@.rest.in_ph.pps_slice_header_extension_present_flag == x.pps_slice_header_extension_present_flag,
        x@.rest.in_ph.pps_extension_flag == x.pps_extension_flag,
        x@.rest.pps_extension_data == x.pps_extension_data@,
{
}

/// The PPS that the RBSP `r` holds.
pub open spec fn pps_of_rbsp(r: Seq<u8>) -> Result<VvcPpsModel, Fault> {
    match pps_at(bits_of(r), 0) {
        Ok((x, _)) => Ok(x),
        Err(f) => Err(f),
    }
}

/// The PPS that the NAL unit `b` holds.
pub open spec fn pps_of_nal(b: Seq<u8>) -> Result<VvcPpsModel, Fault> {
    match rbsp_of_nal(b, NAL_TYPE_PPS) {
        Ok(r) => pps_of_rbsp(r),
        Err(f) => Err(f),
    }
}

/// The bits of the RBSP that holds `x`.
pub open spec fn pps_bits(x: VvcPpsModel) -> Seq<bool> {
    put_pps(Seq::empty(), x)
}

/// Parse a complete VVC PPS NAL (two-byte NAL header at index 0..1),
/// through `rbsp_trailing_bits()`.
///
/// The input slice must point at the start of the NAL body, behind the
/// start code. Emulation-prevention bytes are stripped before bit-level
/// parsing. Every syntax element is retained (or inferred when absent),
/// and the declared §7.4 value ranges are enforced, so [`write_pps`]
/// round-trips the RBSP byte-exactly.
pub fn parse_pps(nal_body: &[u8]) -> (res: Result<VvcPps, BitstreamError>)
    ensures
        nal_read_is(pps_of_nal(nal_body@), res),
{
    let rbsp = nal_rbsp(nal_body, NAL_TYPE_PPS, "PPS")?;
    let mut r = BitReader::new(rbsp.as_slice());
    parse_pps_rbsp(&mut r)
}

/// Emit a PPS RBSP including `rbsp_trailing_bits()`, the byte-exact inverse
/// of [`parse_pps`]'s RBSP walk.
pub fn write_pps(x: &VvcPps) -> (res: Result<Vec<u8>, BitstreamError>)
    ensures
        rbsp_write_is(pps_can(x@), pps_bits(x@), res),
{
    let mut w = BitWriter::new();
    write_pps_rbsp(&mut w, x)?;
    proof {
        lemma_put_pps_aligned(Seq::empty(), x@);
        lemma_pad_aligned(w@);
    }
    Ok(w.finish())
}

/// Emit a complete PPS NAL (canonical header: layer 0, TID 0),
/// emulation-prevention framed.
pub fn write_pps_nal(x: &VvcPps) -> (res: Result<Vec<u8>, BitstreamError>)
    ensures
        nal_write_is(pps_can(x@), NAL_TYPE_PPS, pps_bits(x@), res),
{
    let rbsp = write_pps(x)?;
    let nal = frame_nal(NAL_TYPE_PPS, &rbsp);
    proof {
        assert(bits_of(rbsp@) == pps_bits(x@));
    }
    Ok(nal)
}

proof fn lemma_put_pps_aligned(a: Seq<bool>, x: VvcPpsModel)
    ensures
        put_pps(a, x).len() % 8 == 0,
{
    reveal(put_pps);
    reveal(put_pps_rest);
    reveal(put_tail);
    broadcast use lemma_trailing_aligned;

}

/// Writing what was parsed gives back the RBSP: for every RBSP that the parser
/// accepts, the bits of the parsed PPS are the bits of the RBSP, and the
/// writer emits them unless the extension data ends in a zero bit.
pub proof fn law_write_parsed_pps(r: Seq<u8>)
    requires
        r.len() <= usize::MAX,
    ensures
        pps_of_rbsp(r) matches Ok(x) ==> {
            &&& pps_ok(x)
            &&& pps_bits(x) == bits_of(r)
            &&& tail_can(x.rest.pps_extension_data, x.rest.in_ph.pps_extension_flag != 0) ==> pps_can(x)
            &&& forall|out: Seq<u8>| bits_of(out) == pps_bits(x) ==> out == r
        },
{
    let s = bits_of(r);
    lemma_bits_of_len(r);
    law_put_pps_at(s, 0);
    if let Ok((x, q)) = pps_at(s, 0) {
        lemma_pps_at_end(s, 0);
        assert(within(s, q)) by {
            reveal(within);
        }
        assert(upto(s, 0) =~= Seq::empty() && upto(s, q) =~= s) by {
            reveal(upto);
        }
        assert forall|out: Seq<u8>| bits_of(out) == pps_bits(x) implies out == r by {
            lemma_bits_of_injective(out, r);
        }
    }
}

/// Writing what was parsed gives back the NAL unit, where that is in canonical
/// form: every NAL unit that holds the bits of the parsed PPS is the one that was
/// parsed.
pub proof fn law_write_parsed_pps_nal(b: Seq<u8>)
    requires
        b.len() <= usize::MAX,
        canonical_nal(NAL_TYPE_PPS, b),
    ensures
        pps_of_nal(b) matches Ok(x) ==> {
            &&& tail_can(x.rest.pps_extension_data, x.rest.in_ph.pps_extension_flag != 0) ==> pps_can(x)
            &&& forall|r: Seq<u8>| #[trigger] bits_of(r) == pps_bits(x) ==> nal_of_rbsp(NAL_TYPE_PPS, r) == b
        },
{
    law_framed_rbsp_of_nal(NAL_TYPE_PPS, b);
    lemma_unescape_len(b.skip(2));
    law_write_parsed_pps(unescape(b.skip(2)));
}

/// [`parse_pps`] gives the PPS that the NAL unit holds, or an error of its class.
pub proof fn law_parse_pps(nal_body: &[u8], res: Result<VvcPps, BitstreamError>)
    requires
        call_ensures(parse_pps, (nal_body,), res),
    ensures
        match res {
            Ok(v) => pps_of_nal(nal_body@) == Ok::<VvcPpsModel, Fault>(v@),
            Err(e) => pps_of_nal(nal_body@) == Err::<VvcPpsModel, Fault>(e.fault()),
        },
{
}

/// [`write_pps`] and [`write_pps_nal`] give the bits of the PPS, as they are or as a NAL unit
/// of type 16, and both refuse what reading cannot give back.
pub proof fn law_write_pps(
    x: VvcPps,
    rbsp: Result<Vec<u8>, BitstreamError>,
    nal: Result<Vec<u8>, BitstreamError>,
)
    requires
        call_ensures(write_pps, (&x,), rbsp),
        call_ensures(write_pps_nal, (&x,), nal),
    ensures
        rbsp is Ok <==> pps_can(x@),
        nal is Ok <==> pps_can(x@),
        rbsp matches Ok(b) ==> bits_of(b@) == put_pps(Seq::empty(), x@),
        rbsp matches Err(e) ==> e.fault() == Fault::Invalid,
        nal matches Err(e) ==> e.fault() == Fault::Invalid,
        match (rbsp, nal) {
            (Ok(r), Ok(n)) => n@ == seq![0u8, 129u8] + escape(r@, 0),
            _ => true,
        },
{
    if let (Ok(r), Ok(n)) = (rbsp, nal) {
        let b = choose|b: Seq<u8>| #[trigger] bits_of(b) == pps_bits(x@) && n@ == nal_of_rbsp(
            NAL_TYPE_PPS,
            b,
        );
        lemma_bits_of_injective(b, r@);
    }
}

/// A PPS is what stands behind the two header bytes of a NAL unit of type 16.
pub proof fn law_pps_nal(b: Seq<u8>, x: VvcPpsModel)
    ensures
        pps_of_nal(b) == Ok::<VvcPpsModel, Fault>(x) <==> ({
            let s = bits_of(unescape(b.skip(2)));
            &&& b.len() >= 2
            &&& b[0] < 128
            &&& b[1] / 8 == 16
            &&& cursor(s, 0).part(|p: nat| pps_at(s, p), x).ends(s.len())
        }),
        pps_of_nal(b) == Err::<VvcPpsModel, Fault>(Fault::End) <== b.len() < 2,
{
    lemma_pps_at_end(bits_of(unescape(b.skip(2))), 0);
}

proof fn lemma_pps_at_end(s: Seq<bool>, p: nat)
    ensures
        pps_at(s, p) matches Ok((_, q)) ==> q == s.len(),
{
    reveal(pps_at);
    reveal(pps_rest_at);
    broadcast use law_put_tail_at;

}

/// What was written parses back: a PPS that reading can give comes back from
/// its RBSP and from its NAL unit.
pub proof fn law_parse_written_pps(x: VvcPpsModel, r: Seq<u8>)
    requires
        pps_ok(x),
        bits_of(r) == pps_bits(x),
        r.len() <= usize::MAX,
    ensures
        pps_of_rbsp(r) == Ok::<VvcPpsModel, Fault>(x),
        pps_of_nal(nal_of_rbsp(NAL_TYPE_PPS, r)) == Ok::<VvcPpsModel, Fault>(x),
        tail_can(x.rest.pps_extension_data, x.rest.in_ph.pps_extension_flag != 0) ==> pps_can(x),
{
    lemma_bits_of_len(r);
    assert(whole(pps_bits(x), bits_of(r))) by {
        reveal(whole);
    }
    law_pre_put_pps(Seq::empty(), x, bits_of(r));
    law_rbsp_of_framed_nal(NAL_TYPE_PPS, r);
}

/// The sum of sizes.
pub open spec fn size_sum(v: Seq<u64>) -> int
    decreases v.len(),
{
    if v.len() == 0 {
        0
    } else {
        size_sum(v.drop_last()) + v.last()
    }
}

/// The sizes that are coded less one.
pub open spec fn sizes_of(exp: Seq<u32>) -> Seq<u64> {
    Seq::new(exp.len(), |i: int| (exp[i] + 1) as u64)
}

/// Explicit sizes are coded less one, and their sum is that of the sizes.
pub proof fn law_exp_sum(exp: Seq<u32>)
    ensures
        exp_sum(exp) == size_sum(sizes_of(exp)),
    decreases exp.len(),
{
    if exp.len() > 0 {
        law_exp_sum(exp.drop_last());
        assert(sizes_of(exp).drop_last() =~= sizes_of(exp.drop_last()));
    }
}

/// The sizes that explicit sizes lead to: the explicit ones, then the last one over
/// and over, and a smaller one at the end if that is needed to make up the whole.
#[verifier::rlimit(60)]
#[verifier::spinoff_prover]
pub proof fn law_fill(exp: Seq<u32>, total: nat, i: int)
    requires
        exp.len() >= 1,
        exp_sum(exp) <= total <= 0x0800_0000,
    ensures
        ({
            let v = fill(exp, total);
            &&& size_sum(v) == total
            &&& v.len() == fill_count(exp, total)
            &&& v.len() >= exp.len()
            &&& 0 <= i < exp.len() ==> v[i] == exp[i] + 1
            &&& exp.len() <= i < v.len() - 1 ==> v[i] == exp.last() + 1
            &&& exp.len() <= i < v.len() ==> 1 <= v[i] <= exp.last() + 1
        }),
{
    let v = fill(exp, total);
    let left = (total - exp_sum(exp)) as nat;
    let last = (exp.last() + 1) as nat;
    lemma_fill_count_pos(exp, total);
    assert(left == last * (left / last) + left % last && left % last < last) by (nonlinear_arith)
        requires
            last >= 1,
    ;
    law_exp_sum(exp);
    let head = v.take(exp.len() as int);
    lemma_exp_sum_take(exp, exp.len() as int);
    assert(exp.last() + 1 <= exp_sum(exp));
    assert forall|k: int| 0 <= k < exp.len() implies exp[k] + 1 <= 0x0800_0000 by {
        lemma_exp_sum_take(exp, k + 1);
        assert(exp.take(k + 1).drop_last() =~= exp.take(k));
    }
    assert(head =~= sizes_of(exp));
    lemma_fill_sum(exp, total, left / last);
    assert(v.len() >= exp.len() + left / last);
    if left % last > 0 {
        assert(v.drop_last() =~= v.take((exp.len() + left / last) as int));
    } else {
        assert(v =~= v.take((exp.len() + left / last) as int));
    }
    if 0 <= i < v.len() {
        lemma_fill_item(exp, total, i);
    }
    assert(left % last <= left) by (nonlinear_arith)
        requires
            last >= 1,
            left >= 0,
            left == last * (left / last) + left % last,
            left / last >= 0,
    ;
}

#[verifier::rlimit(60)]
#[verifier::spinoff_prover]
proof fn lemma_fill_sum(exp: Seq<u32>, total: nat, k: nat)
    requires
        exp.len() >= 1,
        exp_sum(exp) <= total <= 0x0800_0000,
        exp.last() + 1 <= 0x0800_0000,
        k <= (total - exp_sum(exp)) as nat / (exp.last() + 1) as nat,
        fill(exp, total).take(exp.len() as int) == sizes_of(exp),
        fill(exp, total).len() >= exp.len() + (total - exp_sum(exp)) as nat / (exp.last() + 1) as nat,
    ensures
        size_sum(fill(exp, total).take((exp.len() + k) as int)) == exp_sum(exp) + k * (exp.last() + 1),
    decreases k,
{
    let v = fill(exp, total);
    law_exp_sum(exp);
    if k > 0 {
        lemma_fill_sum(exp, total, (k - 1) as nat);
        let w = v.take((exp.len() + k) as int);
        assert(w.drop_last() =~= v.take(exp.len() + k - 1));
        assert(w.last() == exp.last() + 1);
        let m = exp.last() + 1;
        assert(k * m == ((k - 1) as nat) * m + m) by (nonlinear_arith)
            requires
                k > 0,
        ;
        assert(size_sum(w) == size_sum(w.drop_last()) + w.last());
    } else {
        assert(k * (exp.last() + 1) == 0) by (nonlinear_arith)
            requires
                k == 0,
        ;
    }
}

/// The tiles of a picture are those that the explicit column widths and row heights
/// fill it with, at most 30 columns, and at most 990 tiles.
#[verifier::rlimit(60)]
#[verifier::spinoff_prover]
pub proof fn law_tile_grid(cols: Seq<u32>, rows: Seq<u32>, w: nat, h: nat)
    ensures
        grid_ok(cols, rows, w, h) <==> ({
            &&& cols.len() >= 1 && rows.len() >= 1
            &&& exp_sum(cols) <= w
            &&& exp_sum(rows) <= h
            &&& fill(cols, w).len() <= 30
            &&& fill(cols, w).len() * fill(rows, h).len() <= 990
        }),
        grid_ok(cols, rows, w, h) ==> {
            let g = grid_of(cols, rows, w, h);
            &&& g.cols == fill(cols, w).len()
            &&& g.rows == fill(rows, h).len()
            &&& g.row_heights == fill(rows, h)
        },
{
    reveal(grid_ok);
    reveal(grid_of);
    if cols.len() >= 1 && rows.len() >= 1 && exp_sum(cols) <= w && exp_sum(rows) <= h {
        lemma_fill_count_pos(cols, w);
        lemma_fill_count_pos(rows, h);
        let c = fill_count(cols, w);
        let r = fill_count(rows, h);
        assert(r <= 990nat / c <==> c * r <= 990) by (nonlinear_arith)
            requires
                c >= 1,
        ;
        if c * r <= 990 {
            assert(r <= 990) by (nonlinear_arith)
                requires
                    c >= 1,
                    c * r <= 990,
            ;
        }
    }
}

/// How many slices an entry stands for: one, or those that the explicit heights fill
/// the tile's row with.
pub proof fn law_slices_of_entry(g: TileGridModel, st: SliceWalk, exp: Option<Seq<u32>>)
    ensures
        last_slice(g, st, exp) == match exp {
            Some(v) => if v.len() == 0 {
                st.i
            } else {
                let h = g.row_heights[(st.tile / g.cols as nat) as int] as nat;
                (st.i + fill(v, h).len() - 1) as nat
            },
            None => st.i,
        },
{
}

/// What an entry of the slice loop is made of. The width is left out in the last
/// tile column, the height in the last tile row, and, without tile deltas, outside
/// the first tile column. Explicit heights come with a slice of one tile that is
/// taller than one CTU, and a tile delta with every slice before the last one.
#[verifier::rlimit(60)]
#[verifier::spinoff_prover]
pub proof fn law_layout_rect_slice(
    s: Seq<bool>,
    p: nat,
    st: SliceWalk,
    g: TileGridModel,
    delta_present: bool,
    num: u32,
    e: VvcPpsRectSliceModel,
    q: nat,
)
    requires
        grid_wf(g),
        st.tile < g.cols * g.rows,
    ensures
        rect_slice_at(s, p, st, g, delta_present, num) == Ok::<(VvcPpsRectSliceModel, nat), Fault>((e, q)) <==> ({
            let x = st.tile % g.cols as nat;
            let y = st.tile / g.cols as nat;
            let w = e.pps_slice_width_in_tiles_minus1;
            let h = e.pps_slice_height_in_tiles_minus1;
            let tall = g.row_heights[y as int] as nat;
            let last = last_slice(g, st, e.exp_slice_heights_in_ctus_minus1);
            let next = st.tile + w + 1;
            let c = cursor(s, p)
                .ue_if(x + 1 < g.cols, w, 0)
                .ue_if(
                    y + 1 < g.rows && (delta_present || x == 0),
                    h,
                    if y + 1 == g.rows {
                        0
                    } else {
                        st.prev_height
                    },
                );
            let c = match e.exp_slice_heights_in_ctus_minus1 {
                Some(v) => c.ue(v.len() as u32).part(|p: nat| ues_at(s, p, v.len()), v),
                None => c,
            };
            &&& match e.pps_tile_idx_delta_val {
                Some(delta) => c.se(delta).ends(q),
                None => c.ends(q),
            }
            &&& x + w < g.cols
            &&& y + h < g.rows
            &&& match e.exp_slice_heights_in_ctus_minus1 {
                Some(v) => {
                    &&& w == 0 && h == 0 && tall > 1
                    &&& v.len() < tall && v.len() <= 0xffff_ffff
                    &&& forall|j: int| 0 <= j < v.len() ==> #[trigger] v[j] < tall
                    &&& v.len() > 0 ==> exp_sum(v) <= tall
                    &&& last <= num
                },
                None => !(w == 0 && h == 0 && tall > 1),
            }
            &&& match e.pps_tile_idx_delta_val {
                Some(delta) => delta_present
                    && last < num
                    && delta != 0
                    && 0 <= st.tile + delta < g.cols * g.rows,
                None => {
                    &&& !(delta_present && last < num)
                    &&& last < num ==> (if next % (g.cols as int) == 0 {
                        next + h * g.cols
                    } else {
                        next
                    }) < g.cols * g.rows
                },
            }
        }),
{
    broadcast use crate::bits::group_write_read_lists;

    reveal(rect_slice_at);
    reveal(exp_heights_at);
    reveal(ue_if);
    lemma_tile_place(g, st.tile);
}

/// Where the walk over the slices goes: behind the last slice of an entry, to the
/// tile that the delta names, or else to the right of the slice and, at the end of a
/// row of tiles, below it.
pub proof fn law_walk_next(g: TileGridModel, num: u32, st: SliceWalk, e: VvcPpsRectSliceModel)
    ensures
        ({
            let next = walk_next(g, num, st, e);
            let last = last_slice(g, st, e.exp_slice_heights_in_ctus_minus1);
            let right = st.tile + e.pps_slice_width_in_tiles_minus1 + 1;
            &&& next.i == last + 1
            &&& next.prev_height == e.pps_slice_height_in_tiles_minus1
            &&& last >= num ==> next.tile == st.tile
            &&& last < num ==> match e.pps_tile_idx_delta_val {
                Some(delta) => 0 <= st.tile + delta ==> next.tile == st.tile + delta,
                None => next.tile == right + if right % (g.cols as int) == 0 {
                    e.pps_slice_height_in_tiles_minus1 * g.cols
                } else {
                    0
                },
            }
        }),
{
}

/// The slice loop runs from the first slice in the first tile until it has come to
/// the last slice, each entry standing where the one before it ends.
#[verifier::rlimit(60)]
#[verifier::spinoff_prover]
pub proof fn law_layout_slice_loop(
    s: Seq<bool>,
    p: nat,
    st: SliceWalk,
    g: TileGridModel,
    delta_present: bool,
    num: u32,
    es: Seq<VvcPpsRectSliceModel>,
    q: nat,
)
    ensures
        slice_loop_at(
            s,
            p,
            st,
            g,
            delta_present,
            num,
        ) == Ok::<(Seq<VvcPpsRectSliceModel>, nat), Fault>((es, q))
            <==> if st.i >= num {
            es.len() == 0 && q == p
        } else {
            let next = walk_next(g, num, st, es[0]);
            &&& es.len() > 0
            &&& next.i > st.i
            &&& cursor(s, p)
                .part(|p: nat| rect_slice_at(s, p, st, g, delta_present, num), es[0])
                .part(|p: nat| slice_loop_at(s, p, next, g, delta_present, num), es.skip(1))
                .ends(q)
        },
        rect_slices_at(s, p, true, g, delta_present, num) == slice_loop_at(
            s,
            p,
            (SliceWalk { i: 0, tile: 0, prev_height: 0 }),
            g,
            delta_present,
            num,
        ),
        rect_slices_at(s, p, false, g, delta_present, num) == Ok::<(Seq<VvcPpsRectSliceModel>, nat), Fault>(
            (Seq::empty(), p),
        ),
{
    reveal(rect_slices_at);
    if es.len() > 0 {
        assert(es =~= seq![es[0]] + es.skip(1));
    } else {
        assert(es =~= Seq::empty());
    }
    if st.i < num {
        if let Ok((e, r)) = rect_slice_at(s, p, st, g, delta_present, num) {
            let next = walk_next(g, num, st, e);
            if let Ok((rest, z)) = slice_loop_at(s, r, next, g, delta_present, num) {
                assert((seq![e] + rest).skip(1) =~= rest);
            }
        }
    }
}

/// What the writer accepts as an entry of the slice loop reads back, where what is
/// not coded has the value that is taken for it.
pub proof fn law_reads_rect_slice(
    a: Seq<bool>,
    e: VvcPpsRectSliceModel,
    st: SliceWalk,
    g: TileGridModel,
    delta_present: bool,
    num: u32,
    s: Seq<bool>,
)
    requires
        walk_wf(st, g, num),
        rect_slice_can(e, st, g, delta_present, num),
        st.tile % g.cols as nat + 1 == g.cols ==> e.pps_slice_width_in_tiles_minus1 == 0,
        !(st.tile / g.cols as nat + 1 < g.rows && (delta_present || st.tile % g.cols as nat == 0))
            ==> e.pps_slice_height_in_tiles_minus1 == if st.tile / g.cols as nat + 1 == g.rows {
            0
        } else {
            st.prev_height
        },
        pre(put_rect_slice(a, e, st, g, delta_present, num), s),
    ensures
        rect_slice_at(s, a.len(), st, g, delta_present, num) == Ok::<(VvcPpsRectSliceModel, nat), Fault>(
            (e, put_rect_slice(a, e, st, g, delta_present, num).len()),
        ),
{
    lemma_tile_place(g, st.tile);
    assert(rect_slice_ok(e, st, g, delta_present, num)) by {
        reveal(rect_slice_ok);
        reveal(rect_slice_can);
    }
    law_pre_put_rect_slice(a, e, st, g, delta_present, num, s);
}

/// The picture width is the first Exp-Golomb code of a PPS, behind the eleven bits of
/// the two ids and the flag on mixed NAL unit types, and the picture height is the
/// second one.
pub proof fn law_pps_picture_size(b: Seq<u8>)
    ensures
        pps_of_nal(b) matches Ok(x) ==> {
            let s = bits_of(unescape(b.skip(2)));
            &&& ue_at(s, 11) matches Ok((w, q)) && w == x.front.head.pps_pic_width_in_luma_samples && (
            ue_at(s, q) matches Ok((h, _)) && h == x.front.head.pps_pic_height_in_luma_samples)
        },
{
    reveal(pps_at);
    reveal(pps_front_at);
    reveal(pps_head_at);
    reveal(adv);
}

/// Reading the slices fails only as invalid.
pub broadcast proof fn law_faults_rect_slices(
    s: Seq<bool>,
    p: nat,
    explicit: bool,
    g: TileGridModel,
    delta_present: bool,
    num: u32,
)
    ensures
        #[trigger] rect_slices_at(s, p, explicit, g, delta_present, num) matches Err(f)
            ==> f == Fault::Invalid,
{
    reveal(rect_slices_at);
    lemma_loop_faults(s, p, walk_start(), g, delta_present, num);
}

proof fn lemma_loop_faults(
    s: Seq<bool>,
    p: nat,
    st: SliceWalk,
    g: TileGridModel,
    delta_present: bool,
    num: u32,
)
    ensures
        slice_loop_at(s, p, st, g, delta_present, num) matches Err(f) ==> f == Fault::Invalid,
    decreases slices_left(st, num),
{
    broadcast use {crate::bits::law_faults_ue, crate::bits::law_faults_ues, crate::bits::law_faults_se};

    reveal(rect_slice_at);
    reveal(exp_heights_at);
    reveal(ue_if);
    if st.i < num {
        if let Ok((e, r)) = rect_slice_at(s, p, st, g, delta_present, num) {
            let next = walk_next(g, num, st, e);
            if next.i > st.i {
                lemma_loop_faults(s, r, next, g, delta_present, num);
            }
        }
    }
}

/// Each field of the model of a [`TileGrid`] is the field of that name.
pub proof fn law_fields_of_tile_grid(x: TileGrid)
    ensures
        x@.cols == x.cols,
        x@.rows == x.rows,
        x@.row_heights == x.row_heights@,
{
}

/// Each field of the model of a [`VvcPpsRectSlice`] is the field of that name.
pub proof fn law_fields_of_pps_rect_slice(x: VvcPpsRectSlice)
    ensures
        x@.pps_slice_width_in_tiles_minus1 == x.pps_slice_width_in_tiles_minus1,
        x@.pps_slice_height_in_tiles_minus1 == x.pps_slice_height_in_tiles_minus1,
        x@.exp_slice_heights_in_ctus_minus1 == opt_view(x.exp_slice_heights_in_ctus_minus1),
        x@.pps_tile_idx_delta_val == x.pps_tile_idx_delta_val,
{
}

/// In every PPS that is parsed, the first Exp-Golomb code behind eleven bits is the
/// picture width, and the second one the picture height.
pub proof fn law_parsed_picture_size(nal: &[u8], res: Result<VvcPps, BitstreamError>)
    requires
        call_ensures(parse_pps, (nal,), res),
    ensures
        res matches Ok(v) ==> {
            let c = cursor(bits_of(unescape(nal@.skip(2))), 11);
            let d = c.ue(v.pps_pic_width_in_luma_samples);
            d.good && d.ue(v.pps_pic_height_in_luma_samples).good
        },
{
    law_pps_picture_size(nal@);
}

} // verus!
