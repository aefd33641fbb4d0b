//! H.266 / VVC shared parameter sub-structures, parse and byte-exact write.
//!
//! These syntax structures are embedded inside the SPS (and, for the
//! DPB / HRD family, also the VPS) rather than carried in their own
//! NAL units:
//!
//! - `dpb_parameters()` (§7.3.4): per-sublayer decoded-picture-buffer
//!   sizing triples,
//! - `general_timing_hrd_parameters()` (§7.3.5.1): clock tick and
//!   CPB-schedule scales shared by every OLS HRD,
//! - `ols_timing_hrd_parameters()` (§7.3.5.2): per-sublayer fixed
//!   picture-rate / low-delay signalling plus the NAL and VCL
//!   `sublayer_hrd_parameters()` (§7.3.5.3) CPB schedule lists,
//! - `ref_pic_list_struct()` (§7.3.10): short-term / long-term /
//!   inter-layer reference-picture list templates.
//!
//! Each `parse_*` takes a positioned [`BitReader`] plus the syntax
//! context (loop bounds, presence flags, `u(v)` bit widths); each
//! `write_*` is its byte-exact inverse on the same context. For each
//! structure `x` there are `x_at` (what is read), `put_x` (what is
//! written), `x_ok` (the values that reading can give) and `x_can` (the
//! values that the writer accepts), and two laws that tie them together.
use crate::bit_reader::{BitReader, read_is, read_seq_is, read_vec_is, read_view_is};
use crate::bit_writer::{BitWriter, fits_bits, write_is};
use crate::bits::{
    Read, adv, adv_if, fits, flag_if, group_read_written, group_write_read, law_faults_ue,
    law_fits_small, law_put_rep_at, law_rep_at_put, lemma_log2, lemma_pow2_le, lemma_rep_err,
    lemma_rep_faults, lemma_rep_step, lemma_seq_view_push, log2, opt_view, pre, put_bit,
    put_bit_if, put_flag_if, put_rep, put_u, put_u_if, put_ue, put_ue_if, read_some, rep_at,
    seq_view, u32_at, u8_at, u8_if, ue_at, ue_fits, ue_if, upto, within,
};
use crate::layout::cursor;
use crate::message::Message;
use crate::{BitstreamError, Fault};
use vstd::arithmetic::power2::{lemma2_to64, pow2};
use vstd::prelude::*;

verus! {

/// `Ceil(Log2(x))` for `x >= 1`; 0 for `x <= 1`.
pub open spec fn ceil_log2(x: nat) -> nat {
    if x <= 1 {
        0
    } else {
        log2((x - 1) as nat) + 1
    }
}

/// `Ceil(Log2(x))` for `x >= 1`; 0 for `x <= 1`. Bit width of the
/// SPS/PPS `u(v)` fields whose range is `0..x-1`.
pub fn ceil_log2_u64(x: u64) -> (n: u32)
    ensures
        n == ceil_log2(x as nat),
        n <= 64,
        x <= pow2(n as nat),
        n > 0 ==> pow2((n - 1) as nat) < x,
        x <= 0x1_0000_0000 ==> n <= 32,
{
    proof {
        lemma2_to64();
    }
    if x <= 1 {
        return 0;
    }
    let mut t: u64 = x - 1;
    let mut n: u32 = 1;
    proof {
        lemma_log2((x - 1) as nat);
        if log2((x - 1) as nat) >= 64 {
            lemma_pow2_le(64, log2((x - 1) as nat));
            vstd::arithmetic::power2::lemma2_to64_rest();
        }
        if x <= 0x1_0000_0000 && log2((x - 1) as nat) >= 32 {
            lemma_pow2_le(32, log2((x - 1) as nat));
        }
    }
    while t > 1
        invariant
            1 <= t,
            n + log2(t as nat) == ceil_log2(x as nat),
            n + log2(t as nat) <= 64,
        decreases t,
    {
        t = t / 2;
        n = n + 1;
    }
    n
}

// ─────────────────────────── dpb_parameters (7.3.4) ──────────────────────────

/// One sublayer's DPB sizing triple (§7.3.4 / §7.4.5).
#[derive(Debug, Clone, Copy, PartialEq, Eq)]
pub struct VvcDpbEntry {
    /// `dpb_max_dec_pic_buffering_minus1[i]` ue(v) — 0..=15
    /// (`MaxDpbSize` caps at 16 per §A.4.2).
    pub dpb_max_dec_pic_buffering_minus1: u32,
    /// `dpb_max_num_reorder_pics[i]` ue(v) — must not exceed
    /// `dpb_max_dec_pic_buffering_minus1[i]`.
    pub dpb_max_num_reorder_pics: u32,
    /// `dpb_max_latency_increase_plus1[i]` ue(v).
    pub dpb_max_latency_increase_plus1: u32,
}

/// `dpb_parameters(MaxSubLayersMinus1, subLayerInfoFlag)` (§7.3.4).
///
/// `entries` holds exactly the walked sublayers: all
/// `MaxSubLayersMinus1 + 1` of them when `subLayerInfoFlag = 1`, only
/// the highest sublayer's triple otherwise.
#[derive(Debug, Clone, PartialEq, Eq, Default)]
pub struct VvcDpbParameters {
    /// Walked `(buffering, reorder, latency)` triples, lowest walked
    /// sublayer first.
    pub entries: Vec<VvcDpbEntry>,
}

/// One sublayer of dpb_parameters() at position `p`.
#[verifier::opaque]
pub open spec fn dpb_entry_at(s: Seq<bool>, p: nat) -> Read<VvcDpbEntry> {
    match ue_at(s, p) { Err(f) => Err(f), Ok((dpb_max_dec_pic_buffering_minus1, p)) => {
    if dpb_max_dec_pic_buffering_minus1 > 15 { Err(Fault::Invalid) } else {
    match ue_at(s, p) { Err(f) => Err(f), Ok((dpb_max_num_reorder_pics, p)) => {
    if dpb_max_num_reorder_pics > dpb_max_dec_pic_buffering_minus1 { Err(Fault::Invalid) } else {
    match ue_at(s, p) { Err(f) => Err(f), Ok((dpb_max_latency_increase_plus1, p)) => {
    Ok((
        VvcDpbEntry {
            dpb_max_dec_pic_buffering_minus1,
            dpb_max_num_reorder_pics,
            dpb_max_latency_increase_plus1,
        },
        p,
    ))
    }}}}}}}}
}

/// The bits `a` followed by one sublayer of dpb_parameters().
#[verifier::opaque]
pub open spec fn put_dpb_entry(a: Seq<bool>, x: VvcDpbEntry) -> Seq<bool> {
    let a = put_ue(a, x.dpb_max_dec_pic_buffering_minus1 as nat);
    let a = put_ue(a, x.dpb_max_num_reorder_pics as nat);
    let a = put_ue(a, x.dpb_max_latency_increase_plus1 as nat);
    a
}

/// The values of one sublayer of dpb_parameters() that reading can give.
#[verifier::opaque]
pub open spec fn dpb_entry_ok(x: VvcDpbEntry) -> bool {
    &&& x.dpb_max_dec_pic_buffering_minus1 <= 15
    &&& ue_fits(x.dpb_max_num_reorder_pics as nat)
    &&& x.dpb_max_num_reorder_pics <= x.dpb_max_dec_pic_buffering_minus1
    &&& ue_fits(x.dpb_max_latency_increase_plus1 as nat)
}

/// The values of one sublayer of dpb_parameters() that the writer accepts.
#[verifier::opaque]
pub open spec fn dpb_entry_can(x: VvcDpbEntry) -> bool {
    &&& ue_fits(x.dpb_max_dec_pic_buffering_minus1 as nat)
    &&& ue_fits(x.dpb_max_num_reorder_pics as nat)
    &&& ue_fits(x.dpb_max_latency_increase_plus1 as nat)
}

/// Parses one sublayer of dpb_parameters().
fn parse_dpb_entry(r: &mut BitReader<'_>) -> (res: Result<VvcDpbEntry, BitstreamError>)
    ensures
        read_is(dpb_entry_at(old(r).bits(), old(r).pos()), res, *old(r), *final(r)),
{
    proof {
        reveal(dpb_entry_at);
    }
    let dpb_max_dec_pic_buffering_minus1: u32 = r.ue()?;
    if dpb_max_dec_pic_buffering_minus1 > 15 {
        return Err(
            Message::new("dpb_max_dec_pic_buffering_minus1 = ")
                .num(dpb_max_dec_pic_buffering_minus1 as i128)
                .with(" > 15 (MaxDpbSize ≤ 16, A.4.2)")
                .invalid(),
        );
    }
    let dpb_max_num_reorder_pics: u32 = r.ue()?;
    if dpb_max_num_reorder_pics > dpb_max_dec_pic_buffering_minus1 {
        return Err(
            Message::new("dpb_max_num_reorder_pics = ")
                .num(dpb_max_num_reorder_pics as i128)
                .with(" > dpb_max_dec_pic_buffering_minus1 = ")
                .num(dpb_max_dec_pic_buffering_minus1 as i128)
                .invalid(),
        );
    }
    let dpb_max_latency_increase_plus1: u32 = r.ue()?;
    Ok(
        VvcDpbEntry {
            dpb_max_dec_pic_buffering_minus1,
            dpb_max_num_reorder_pics,
            dpb_max_latency_increase_plus1,
        },
    )
}

/// Emits one sublayer of dpb_parameters(), the inverse of [`parse_dpb_entry`].
fn write_dpb_entry(w: &mut BitWriter, x: &VvcDpbEntry) -> (res: Result<(), BitstreamError>)
    ensures
        write_is(dpb_entry_can(*x), put_dpb_entry(old(w)@, *x), res, final(w)@),
{
    proof {
        reveal(put_dpb_entry);
        reveal(dpb_entry_can);
    }
    w.write_ue(x.dpb_max_dec_pic_buffering_minus1)?;
    w.write_ue(x.dpb_max_num_reorder_pics)?;
    w.write_ue(x.dpb_max_latency_increase_plus1)?;
    Ok(())
}

/// Writing one sublayer of dpb_parameters() gives back the bits it was read
/// from.
pub broadcast proof fn law_put_dpb_entry_at(s: Seq<bool>, p: nat)
    ensures
        #[trigger] dpb_entry_at(s, p) matches Ok((x, q)) ==> {
            &&& dpb_entry_ok(x)
            &&& dpb_entry_can(x)
            &&& within(s, q) ==> within(s, p) && put_dpb_entry(upto(s, p), x) == upto(s, q)
        },
{
    broadcast use crate::bits::group_write_read;

    reveal(dpb_entry_at);
    reveal(put_dpb_entry);
    reveal(dpb_entry_ok);
    reveal(dpb_entry_can);
}

/// Reading gives back one sublayer of dpb_parameters() as it was written.
pub broadcast proof fn law_pre_put_dpb_entry(a: Seq<bool>, x: VvcDpbEntry, s: Seq<bool>)
    requires
        #[trigger] pre(put_dpb_entry(a, x), s),
        dpb_entry_ok(x),
    ensures
        pre(a, s),
        dpb_entry_can(x),
        dpb_entry_at(s, a.len()) == Ok::<(VvcDpbEntry, nat), Fault>((x, put_dpb_entry(a, x).len())),
{
    broadcast use crate::bits::group_read_written;

    reveal(dpb_entry_at);
    reveal(put_dpb_entry);
    reveal(dpb_entry_ok);
    reveal(dpb_entry_can);
}

/// The layout of one sublayer of dpb_parameters(): reading at `p` gives `x` and
/// ends at `q` if and only if these elements stand there in this order, and the
/// values are allowed.
pub proof fn law_layout_dpb_entry(s: Seq<bool>, p: nat, x: VvcDpbEntry, q: nat)
    ensures
        dpb_entry_at(s, p) == Ok::<(VvcDpbEntry, nat), Fault>((x, q)) <==> ({
            &&& cursor(s, p)
                .ue(x.dpb_max_dec_pic_buffering_minus1)
                .ue(x.dpb_max_num_reorder_pics)
                .ue(x.dpb_max_latency_increase_plus1)
                .ends(q)
            &&& x.dpb_max_dec_pic_buffering_minus1 <= 15
            &&& x.dpb_max_num_reorder_pics <= x.dpb_max_dec_pic_buffering_minus1
        }),
{
    reveal(dpb_entry_at);
}

/// Reading one sublayer of dpb_parameters() fails only with an error of this
/// class.
pub broadcast proof fn law_faults_dpb_entry(s: Seq<bool>, p: nat)
    ensures
        #[trigger] dpb_entry_at(s, p) matches Err(f) ==> f == Fault::Invalid,
{
    broadcast use crate::bits::law_faults_ue;

    reveal(dpb_entry_at);
}

/// What the writer accepts reads back: one sublayer of dpb_parameters(), where
/// each field fits its width and what is not coded has the value that is taken
/// for it.
pub proof fn law_reads_dpb_entry(a: Seq<bool>, x: VvcDpbEntry, s: Seq<bool>)
    requires
        dpb_entry_can(x),
        x.dpb_max_num_reorder_pics <= x.dpb_max_dec_pic_buffering_minus1 <= 15,
        pre(put_dpb_entry(a, x), s),
    ensures
        dpb_entry_at(s, a.len()) == Ok::<(VvcDpbEntry, nat), Fault>((x, put_dpb_entry(a, x).len())),
{
    assert(dpb_entry_ok(x)) by {
        broadcast use crate::bits::law_fits_small;

        reveal(dpb_entry_ok);
        reveal(dpb_entry_can);
    }
    law_pre_put_dpb_entry(a, x, s);
}

/// Reads one sublayer of dpb_parameters(), behind the items before it.
pub open spec fn dpb_entries_item(s: Seq<bool>) -> spec_fn(Seq<VvcDpbEntry>, nat) -> Read<VvcDpbEntry> {
    |done: Seq<VvcDpbEntry>, q: nat| dpb_entry_at(s, q)
}

/// Writes one sublayer of dpb_parameters(), behind the items before it.
pub open spec fn put_dpb_entries_item() -> spec_fn(Seq<bool>, Seq<VvcDpbEntry>, VvcDpbEntry) -> Seq<bool> {
    |a: Seq<bool>, done: Seq<VvcDpbEntry>, x: VvcDpbEntry| put_dpb_entry(a, x)
}

/// Whether one sublayer of dpb_parameters() may follow the items before it.
pub open spec fn dpb_entries_item_ok() -> spec_fn(Seq<VvcDpbEntry>, VvcDpbEntry) -> bool {
    |done: Seq<VvcDpbEntry>, x: VvcDpbEntry| dpb_entry_ok(x) && dpb_entry_can(x)
}

/// `n` items at position `p`, each one sublayer of dpb_parameters().
#[verifier::opaque]
pub open spec fn dpb_entries_at(s: Seq<bool>, p: nat, n: u64) -> Read<Seq<VvcDpbEntry>> {
    rep_at(dpb_entries_item(s), p, n as nat)
}

/// The bits `a` followed by the items.
#[verifier::opaque]
pub open spec fn put_dpb_entries(a: Seq<bool>, xs: Seq<VvcDpbEntry>, n: u64) -> Seq<bool> {
    put_rep(put_dpb_entries_item(), a, xs)
}

/// `n` items that reading can give.
#[verifier::opaque]
pub open spec fn dpb_entries_ok(xs: Seq<VvcDpbEntry>, n: u64) -> bool {
    xs.len() == n
        && forall|i: int| 0 <= i < xs.len()
        ==> dpb_entry_ok(#[trigger] xs[i])
        && dpb_entry_can(xs[i])
}

/// `n` items that the writer accepts.
#[verifier::opaque]
pub open spec fn dpb_entries_can(xs: Seq<VvcDpbEntry>, n: u64) -> bool {
    xs.len() == n && forall|i: int| 0 <= i < xs.len() ==> dpb_entry_can(#[trigger] xs[i])
}

/// Parses `n` items, each one sublayer of dpb_parameters().
fn parse_dpb_entries(r: &mut BitReader<'_>, n: u64) -> (res: Result<Vec<VvcDpbEntry>, BitstreamError>)
    ensures
        read_vec_is(dpb_entries_at(old(r).bits(), old(r).pos(), n), res, *old(r), *final(r)),
        res matches Ok(v) ==> v@.len() == n,
{
    let ghost s = r.bits();
    let ghost p = r.pos();
    let ghost reads = dpb_entries_item(s);
    let mut xs: Vec<VvcDpbEntry> = Vec::new();
    let mut i: u64 = 0;
    proof {
        reveal(dpb_entries_at);
    }
    while i < n
        invariant
            i <= n,
            xs@.len() == i,
            reads == dpb_entries_item(s),
            s == r.bits(),
            s == old(r).bits(),
            p == old(r).pos(),
            r.bytes() == old(r).bytes(),
            rep_at(reads, p, i as nat) == Ok::<(Seq<VvcDpbEntry>, nat), Fault>((xs@, r.pos())),
        decreases n - i,
    {
        match parse_dpb_entry(r) {
            Ok(x) => {
                xs.push(x);
            },
            Err(e) => {
                proof {
                    reveal(dpb_entries_at);
                    lemma_rep_err(reads, p, (i + 1) as nat, n as nat);
                }
                return Err(e);
            },
        }
        i = i + 1;
    }
    Ok(xs)
}

/// Emits `n` items, each one sublayer of dpb_parameters().
fn write_dpb_entries(w: &mut BitWriter, xs: &Vec<VvcDpbEntry>, n: u64) -> (res: Result<(), BitstreamError>)
    ensures
        write_is(dpb_entries_can(xs@, n), put_dpb_entries(old(w)@, xs@, n), res, final(w)@),
        res is Ok ==> xs@.len() == n,
{
    let ghost before = w@;
    let ghost puts = put_dpb_entries_item();
    let ghost ys = xs@;
    proof {
        reveal(put_dpb_entries);
        reveal(dpb_entries_can);
        assert(ys.take(0) =~= Seq::empty());
    }
    if xs.len() as u64 != n {
        return Err(
            Message::new("dpb_parameters entry count ")
                .num(xs.len() as i128)
                .with(" != walked sublayer count ")
                .num(n as i128)
                .invalid(),
        );
    }
    let mut i: usize = 0;
    while i < xs.len()
        invariant
            i <= xs@.len(),
            xs@.len() == n,
            ys == xs@,
            ys.len() == xs@.len(),
            before == old(w)@,
            puts == put_dpb_entries_item(),
            w@ == put_rep(puts, before, ys.take(i as int)),
            forall|j: int| 0 <= j < i ==> dpb_entry_can(#[trigger] ys[j]),
        ensures
            i == xs@.len(),
        decreases xs@.len() - i,
    {
        proof {
            assert(ys.take(i + 1).drop_last() =~= ys.take(i as int));
            assert(ys[i as int] == xs@[i as int]);
        }
        match write_dpb_entry(w, &xs[i]) {
            Ok(()) => {},
            Err(e) => {
                proof {
                    reveal(dpb_entries_can);
                }
                return Err(e);
            },
        }
        i = i + 1;
    }
    proof {
        assert(ys.take(i as int) =~= ys);
    }
    Ok(())
}

/// Writing what was read gives back the bits that were read.
pub broadcast proof fn law_put_dpb_entries_at(s: Seq<bool>, p: nat, n: u64)
    ensures
        #[trigger] dpb_entries_at(s, p, n) matches Ok((xs, q)) ==> {
            &&& xs.len() == n
            &&& dpb_entries_ok(xs, n)
            &&& dpb_entries_can(xs, n)
            &&& within(s, q) ==> within(s, p) && put_dpb_entries(upto(s, p), xs, n) == upto(s, q)
        },
{
    broadcast use law_put_dpb_entry_at;

    reveal(dpb_entries_at);
    reveal(put_dpb_entries);
    reveal(dpb_entries_ok);
    reveal(dpb_entries_can);
    let ok = dpb_entries_item_ok();
    law_put_rep_at(s, dpb_entries_item(s), put_dpb_entries_item(), ok, p, n as nat);
    if let Ok((xs, q)) = dpb_entries_at(s, p, n) {
        assert forall|i: int| 0 <= i < xs.len() implies ok(xs.take(i), #[trigger] xs[i]) by {}
    }
}

/// What was written reads back as the items that were written.
pub broadcast proof fn law_pre_put_dpb_entries(a: Seq<bool>, xs: Seq<VvcDpbEntry>, n: u64, s: Seq<bool>)
    requires
        #[trigger] pre(put_dpb_entries(a, xs, n), s),
        dpb_entries_ok(xs, n),
    ensures
        pre(a, s),
        dpb_entries_can(xs, n),
        dpb_entries_at(s, a.len(), n) == Ok::<(Seq<VvcDpbEntry>, nat), Fault>(
            (xs, put_dpb_entries(a, xs, n).len()),
        ),
{
    broadcast use law_pre_put_dpb_entry;

    reveal(dpb_entries_at);
    reveal(put_dpb_entries);
    reveal(dpb_entries_ok);
    reveal(dpb_entries_can);
    law_rep_at_put(s, dpb_entries_item(s), put_dpb_entries_item(), dpb_entries_item_ok(), a, xs);
}

/// `n` items stand one behind the other: `n - 1` items, and then one sublayer
/// of dpb_parameters().
pub proof fn law_layout_dpb_entries(s: Seq<bool>, p: nat, n: u64, xs: Seq<VvcDpbEntry>, q: nat)
    ensures
        dpb_entries_at(s, p, n) == Ok::<(Seq<VvcDpbEntry>, nat), Fault>((xs, q)) <==> if n == 0 {
            xs.len() == 0 && q == p
        } else {
            &&& xs.len() == n
            &&& cursor(s, p)
                .part(|p: nat| dpb_entries_at(s, p, (n - 1) as u64), xs.drop_last())
                .part(|p: nat| dpb_entry_at(s, p), xs.last())
                .ends(q)
        },
{
    reveal(dpb_entries_at);
    lemma_rep_step(dpb_entries_item(s), p, n as nat);
    if xs.len() == 0 {
        assert(xs =~= Seq::empty());
    } else {
        assert(xs =~= xs.drop_last().push(xs.last()));
    }
    if n > 0 {
        if let Ok((done, r)) = rep_at(dpb_entries_item(s), p, (n - 1) as nat) {
            if let Ok((y, z)) = dpb_entries_item(s)(done, r) {
                assert(done.push(y).drop_last() =~= done);
            }
        }
    }
}

/// What the writer accepts as `n` items reads back, where each of them is one that
/// reading can give.
pub proof fn law_reads_dpb_entries(a: Seq<bool>, xs: Seq<VvcDpbEntry>, n: u64, s: Seq<bool>)
    requires
        dpb_entries_can(xs, n),
        forall|i: int| 0 <= i < xs.len() ==> dpb_entry_ok(#[trigger] xs[i]),
        pre(put_dpb_entries(a, xs, n), s),
    ensures
        xs.len() == n,
        dpb_entries_at(s, a.len(), n) == Ok::<(Seq<VvcDpbEntry>, nat), Fault>(
            (xs, put_dpb_entries(a, xs, n).len()),
        ),
{
    reveal(dpb_entries_can);
    assert(dpb_entries_ok(xs, n)) by {
        reveal(dpb_entries_ok);
    }
    law_pre_put_dpb_entries(a, xs, n, s);
}

/// Reading the items fails only with an error of this class.
pub broadcast proof fn law_faults_dpb_entries(s: Seq<bool>, p: nat, n: u64)
    ensures
        #[trigger] dpb_entries_at(s, p, n) matches Err(f) ==> f == Fault::Invalid,
{
    broadcast use law_faults_dpb_entry;

    reveal(dpb_entries_at);
    let f = dpb_entries_item(s);
    assert forall|done: Seq<VvcDpbEntry>, q: nat| (#[trigger] f(done, q)) matches Err(e)
        ==> e == Fault::Invalid by {}
    lemma_rep_faults(f, p, n as nat, |f: Fault| f == Fault::Invalid);
}

/// The mathematical model of a [`VvcDpbParameters`].
pub struct VvcDpbParametersModel {
    pub entries: Seq<VvcDpbEntry>,
}

impl View for VvcDpbParameters {
    type V = VvcDpbParametersModel;

    open spec fn view(&self) -> VvcDpbParametersModel {
        VvcDpbParametersModel {
            entries: self.entries@,
        }
    }
}

/// dpb_parameters() at position `p`.
#[verifier::opaque]
pub open spec fn dpb_parameters_at(
    s: Seq<bool>,
    p: nat,
    max_sublayers_minus1: u32,
    sublayer_info_flag: bool,
) -> Read<VvcDpbParametersModel> {
    let n = if sublayer_info_flag { (max_sublayers_minus1 as u64 + 1) as u64 } else { 1 };
    match dpb_entries_at(s, p, n) { Err(f) => Err(f), Ok((entries, p)) => {
    Ok((VvcDpbParametersModel { entries }, p))
    }}
}

/// The bits `a` followed by dpb_parameters().
#[verifier::opaque]
pub open spec fn put_dpb_parameters(
    a: Seq<bool>,
    x: VvcDpbParametersModel,
    max_sublayers_minus1: u32,
    sublayer_info_flag: bool,
) -> Seq<bool> {
    let n = if sublayer_info_flag { (max_sublayers_minus1 as u64 + 1) as u64 } else { 1 };
    let a = put_dpb_entries(a, x.entries, n);
    a
}

/// The values of dpb_parameters() that reading can give.
#[verifier::opaque]
pub open spec fn dpb_parameters_ok(
    x: VvcDpbParametersModel,
    max_sublayers_minus1: u32,
    sublayer_info_flag: bool,
) -> bool {
    let n = if sublayer_info_flag { (max_sublayers_minus1 as u64 + 1) as u64 } else { 1 };
    &&& dpb_entries_ok(x.entries, n)
}

/// The values of dpb_parameters() that the writer accepts.
#[verifier::opaque]
pub open spec fn dpb_parameters_can(
    x: VvcDpbParametersModel,
    max_sublayers_minus1: u32,
    sublayer_info_flag: bool,
) -> bool {
    let n = if sublayer_info_flag { (max_sublayers_minus1 as u64 + 1) as u64 } else { 1 };
    &&& dpb_entries_can(x.entries, n)
}

/// Parse a `dpb_parameters()` structure at the reader's position.
pub fn parse_dpb_parameters(
    r: &mut BitReader<'_>,
    max_sublayers_minus1: u32,
    sublayer_info_flag: bool,
) -> (res: Result<VvcDpbParameters, BitstreamError>)
    ensures
        read_view_is(
            dpb_parameters_at(old(r).bits(), old(r).pos(), max_sublayers_minus1, sublayer_info_flag),
            res,
            *old(r),
            *final(r),
        ),
{
    proof {
        reveal(dpb_parameters_at);
    }
    let n: u64 = if sublayer_info_flag { max_sublayers_minus1 as u64 + 1 } else { 1 };
    let entries = parse_dpb_entries(r, n)?;
    Ok(VvcDpbParameters { entries })
}

/// Emit a `dpb_parameters()` structure, the byte-exact inverse of
/// [`parse_dpb_parameters`] on the same context.
pub fn write_dpb_parameters(
    w: &mut BitWriter,
    x: &VvcDpbParameters,
    max_sublayers_minus1: u32,
    sublayer_info_flag: bool,
) -> (res: Result<(), BitstreamError>)
    ensures
        write_is(
            dpb_parameters_can(x@, max_sublayers_minus1, sublayer_info_flag),
            put_dpb_parameters(old(w)@, x@, max_sublayers_minus1, sublayer_info_flag),
            res,
            final(w)@,
        ),
{
    proof {
        reveal(put_dpb_parameters);
        reveal(dpb_parameters_can);
    }
    let n: u64 = if sublayer_info_flag { max_sublayers_minus1 as u64 + 1 } else { 1 };
    write_dpb_entries(w, &x.entries, n)?;
    Ok(())
}

/// Writing dpb_parameters() gives back the bits it was read from.
pub broadcast proof fn law_put_dpb_parameters_at(
    s: Seq<bool>,
    p: nat,
    max_sublayers_minus1: u32,
    sublayer_info_flag: bool,
)
    ensures
        #[trigger] dpb_parameters_at(s, p, max_sublayers_minus1, sublayer_info_flag) matches Ok((x, q)) ==> {
            &&& dpb_parameters_ok(x, max_sublayers_minus1, sublayer_info_flag)
            &&& dpb_parameters_can(x, max_sublayers_minus1, sublayer_info_flag)
            &&& within(s, q)
                ==> within(s, p)
                && put_dpb_parameters(upto(s, p), x, max_sublayers_minus1, sublayer_info_flag) == upto(s, q)
        },
{
    broadcast use {crate::bits::group_write_read, law_put_dpb_entries_at};

    reveal(dpb_parameters_at);
    reveal(put_dpb_parameters);
    reveal(dpb_parameters_ok);
    reveal(dpb_parameters_can);
}

/// Reading gives back dpb_parameters() as it was written.
pub broadcast proof fn law_pre_put_dpb_parameters(
    a: Seq<bool>,
    x: VvcDpbParametersModel,
    max_sublayers_minus1: u32,
    sublayer_info_flag: bool,
    s: Seq<bool>,
)
    requires
        #[trigger] pre(put_dpb_parameters(a, x, max_sublayers_minus1, sublayer_info_flag), s),
        dpb_parameters_ok(x, max_sublayers_minus1, sublayer_info_flag),
    ensures
        pre(a, s),
        dpb_parameters_can(x, max_sublayers_minus1, sublayer_info_flag),
        dpb_parameters_at(s, a.len(), max_sublayers_minus1, sublayer_info_flag) == Ok::<(VvcDpbParametersModel, nat), Fault>(
            (x, put_dpb_parameters(a, x, max_sublayers_minus1, sublayer_info_flag).len()),
        ),
{
    broadcast use {crate::bits::group_read_written, law_pre_put_dpb_entries};

    reveal(dpb_parameters_at);
    reveal(put_dpb_parameters);
    reveal(dpb_parameters_ok);
    reveal(dpb_parameters_can);
}

/// The layout of dpb_parameters(): reading at `p` gives `x` and ends at `q` if
/// and only if these elements stand there in this order.
pub proof fn law_layout_dpb_parameters(
    s: Seq<bool>,
    p: nat,
    max_sublayers_minus1: u32,
    sublayer_info_flag: bool,
    x: VvcDpbParametersModel,
    q: nat,
)
    ensures
        dpb_parameters_at(s, p, max_sublayers_minus1, sublayer_info_flag) == Ok::<(VvcDpbParametersModel, nat), Fault>((x, q)) <==> ({
            let n = if sublayer_info_flag { (max_sublayers_minus1 as u64 + 1) as u64 } else { 1 };
            &&& cursor(s, p).part(|p: nat| dpb_entries_at(s, p, n), x.entries).ends(q)
        }),
{
    reveal(dpb_parameters_at);
}

/// Reading dpb_parameters() fails only with an error of this class.
pub broadcast proof fn law_faults_dpb_parameters(
    s: Seq<bool>,
    p: nat,
    max_sublayers_minus1: u32,
    sublayer_info_flag: bool,
)
    ensures
        #[trigger] dpb_parameters_at(s, p, max_sublayers_minus1, sublayer_info_flag) matches Err(f)
            ==> f == Fault::Invalid,
{
    broadcast use law_faults_dpb_entries;

    reveal(dpb_parameters_at);
}

/// What the writer accepts reads back: dpb_parameters(), where each field fits
/// its width and what is not coded has the value that is taken for it.
pub proof fn law_reads_dpb_parameters(
    a: Seq<bool>,
    x: VvcDpbParametersModel,
    max_sublayers_minus1: u32,
    sublayer_info_flag: bool,
    s: Seq<bool>,
)
    requires
        dpb_parameters_can(x, max_sublayers_minus1, sublayer_info_flag),
        ({
            let n = if sublayer_info_flag { (max_sublayers_minus1 as u64 + 1) as u64 } else { 1 };
            &&& dpb_entries_ok(x.entries, n)
        }),
        pre(put_dpb_parameters(a, x, max_sublayers_minus1, sublayer_info_flag), s),
    ensures
        dpb_parameters_at(s, a.len(), max_sublayers_minus1, sublayer_info_flag) == Ok::<(VvcDpbParametersModel, nat), Fault>(
            (x, put_dpb_parameters(a, x, max_sublayers_minus1, sublayer_info_flag).len()),
        ),
{
    assert(dpb_parameters_ok(x, max_sublayers_minus1, sublayer_info_flag)) by {
        broadcast use crate::bits::law_fits_small;

        reveal(dpb_parameters_ok);
        reveal(dpb_parameters_can);
    }
    law_pre_put_dpb_parameters(a, x, max_sublayers_minus1, sublayer_info_flag, s);
}

/// Each field of the model of a [`VvcDpbParameters`] is the field of that name.
pub proof fn law_view_dpb_parameters(x: VvcDpbParameters)
    ensures
        x@.entries == x.entries@,
{
}

// ──────────────── general_timing_hrd_parameters (7.3.5.1) ────────────────────

/// `general_timing_hrd_parameters()` (§7.3.5.1 / §7.4.6.1).
///
/// The fields after `general_vcl_hrd_params_present_flag` are only
/// coded when at least one of the NAL / VCL presence flags is set;
/// when absent they carry their inferred defaults
/// (`general_du_hrd_params_present_flag = 0`, `hrd_cpb_cnt_minus1 =
/// 0`, scales 0).
#[derive(Debug, Clone, PartialEq, Eq, Default)]
pub struct VvcGeneralTimingHrd {
    /// `num_units_in_tick` u(32) — must be > 0.
    pub num_units_in_tick: u32,
    /// `time_scale` u(32) — must be > 0.
    pub time_scale: u32,
    /// `general_nal_hrd_params_present_flag` u(1).
    pub general_nal_hrd_params_present_flag: u8,
    /// `general_vcl_hrd_params_present_flag` u(1).
    pub general_vcl_hrd_params_present_flag: u8,
    /// `general_same_pic_timing_in_all_ols_flag` u(1) — coded only
    /// when a NAL or VCL HRD is present.
    pub general_same_pic_timing_in_all_ols_flag: u8,
    /// `general_du_hrd_params_present_flag` u(1) — coded only when a
    /// NAL or VCL HRD is present; inferred 0 otherwise.
    pub general_du_hrd_params_present_flag: u8,
    /// `tick_divisor_minus2` u(8) — coded only when DU HRD present.
    pub tick_divisor_minus2: u8,
    /// `bit_rate_scale` u(4).
    pub bit_rate_scale: u8,
    /// `cpb_size_scale` u(4).
    pub cpb_size_scale: u8,
    /// `cpb_size_du_scale` u(4) — coded only when DU HRD present.
    pub cpb_size_du_scale: u8,
    /// `hrd_cpb_cnt_minus1` ue(v) — 0..=31 (§7.4.6.1); inferred 0
    /// when the NAL/VCL block is absent.
    pub hrd_cpb_cnt_minus1: u32,
}

impl VvcGeneralTimingHrd {
    /// True when either the NAL or the VCL HRD schedule block is
    /// present (the condition for the second half of §7.3.5.1 and for the
    /// `sublayer_hrd_parameters()` lists in §7.3.5.2).
    pub fn any_hrd_present(&self) -> (b: bool)
        ensures
            b == (self.general_nal_hrd_params_present_flag != 0
                || self.general_vcl_hrd_params_present_flag != 0),
    {
        self.general_nal_hrd_params_present_flag != 0
            || self.general_vcl_hrd_params_present_flag != 0
    }
}

/// general_timing_hrd_parameters() at position `p`.
#[verifier::opaque]
pub open spec fn general_timing_hrd_at(s: Seq<bool>, p: nat) -> Read<VvcGeneralTimingHrd> {
    let num_units_in_tick = u32_at(s, p, 32);
    let p = adv(p, 32);
    let time_scale = u32_at(s, p, 32);
    let p = adv(p, 32);
    let general_nal_hrd_params_present_flag = u8_at(s, p, 1);
    let p = adv(p, 1);
    let general_vcl_hrd_params_present_flag = u8_at(s, p, 1);
    let p = adv(p, 1);
    if !(num_units_in_tick != 0 && time_scale != 0) { Err(Fault::Invalid) } else {
    let any = general_nal_hrd_params_present_flag != 0 || general_vcl_hrd_params_present_flag != 0;
    let general_same_pic_timing_in_all_ols_flag = u8_if(s, p, 1, any, 0);
    let p = adv_if(p, 1, any);
    let general_du_hrd_params_present_flag = u8_if(s, p, 1, any, 0);
    let p = adv_if(p, 1, any);
    let tick_divisor_minus2 = u8_if(s, p, 8, any && general_du_hrd_params_present_flag != 0, 0);
    let p = adv_if(p, 8, any && general_du_hrd_params_present_flag != 0);
    let bit_rate_scale = u8_if(s, p, 4, any, 0);
    let p = adv_if(p, 4, any);
    let cpb_size_scale = u8_if(s, p, 4, any, 0);
    let p = adv_if(p, 4, any);
    let cpb_size_du_scale = u8_if(s, p, 4, any && general_du_hrd_params_present_flag != 0, 0);
    let p = adv_if(p, 4, any && general_du_hrd_params_present_flag != 0);
    match ue_if(s, p, any, 0) { Err(f) => Err(f), Ok((hrd_cpb_cnt_minus1, p)) => {
    if hrd_cpb_cnt_minus1 > 31 { Err(Fault::Invalid) } else {
    Ok((
        VvcGeneralTimingHrd {
            num_units_in_tick,
            time_scale,
            general_nal_hrd_params_present_flag,
            general_vcl_hrd_params_present_flag,
            general_same_pic_timing_in_all_ols_flag,
            general_du_hrd_params_present_flag,
            tick_divisor_minus2,
            bit_rate_scale,
            cpb_size_scale,
            cpb_size_du_scale,
            hrd_cpb_cnt_minus1,
        },
        p,
    ))
    }}}}
}

/// The bits `a` followed by general_timing_hrd_parameters().
#[verifier::opaque]
pub open spec fn put_general_timing_hrd(a: Seq<bool>, x: VvcGeneralTimingHrd) -> Seq<bool> {
    let a = put_u(a, x.num_units_in_tick as nat, 32);
    let a = put_u(a, x.time_scale as nat, 32);
    let a = put_bit(a, x.general_nal_hrd_params_present_flag as nat);
    let a = put_bit(a, x.general_vcl_hrd_params_present_flag as nat);
    let any = x.general_nal_hrd_params_present_flag != 0 || x.general_vcl_hrd_params_present_flag != 0;
    let a = put_bit_if(a, x.general_same_pic_timing_in_all_ols_flag as nat, any);
    let a = put_bit_if(a, x.general_du_hrd_params_present_flag as nat, any);
    let a = put_u_if(a, x.tick_divisor_minus2 as nat, 8, any && x.general_du_hrd_params_present_flag != 0);
    let a = put_u_if(a, x.bit_rate_scale as nat, 4, any);
    let a = put_u_if(a, x.cpb_size_scale as nat, 4, any);
    let a = put_u_if(a, x.cpb_size_du_scale as nat, 4, any && x.general_du_hrd_params_present_flag != 0);
    let a = put_ue_if(a, x.hrd_cpb_cnt_minus1 as nat, any);
    a
}

/// The values of general_timing_hrd_parameters() that reading can give.
#[verifier::opaque]
pub open spec fn general_timing_hrd_ok(x: VvcGeneralTimingHrd) -> bool {
    &&& fits(x.num_units_in_tick as nat, 32)
    &&& fits(x.time_scale as nat, 32)
    &&& fits(x.general_nal_hrd_params_present_flag as nat, 1)
    &&& fits(x.general_vcl_hrd_params_present_flag as nat, 1)
    &&& x.num_units_in_tick != 0 && x.time_scale != 0
    &&& {
        let any = x.general_nal_hrd_params_present_flag != 0 || x.general_vcl_hrd_params_present_flag != 0;
        &&& if any {
            fits(x.general_same_pic_timing_in_all_ols_flag as nat, 1)
        } else {
            x.general_same_pic_timing_in_all_ols_flag == 0
        }
        &&& if any {
            fits(x.general_du_hrd_params_present_flag as nat, 1)
        } else {
            x.general_du_hrd_params_present_flag == 0
        }
        &&& if any
            && x.general_du_hrd_params_present_flag != 0 {
                fits(x.tick_divisor_minus2 as nat, 8)
            } else {
                x.tick_divisor_minus2 == 0
            }
        &&& if any { fits(x.bit_rate_scale as nat, 4) } else { x.bit_rate_scale == 0 }
        &&& if any { fits(x.cpb_size_scale as nat, 4) } else { x.cpb_size_scale == 0 }
        &&& if any
            && x.general_du_hrd_params_present_flag != 0 {
                fits(x.cpb_size_du_scale as nat, 4)
            } else {
                x.cpb_size_du_scale == 0
            }
        &&& !any || x.hrd_cpb_cnt_minus1 <= 31
        &&& if any { ue_fits(x.hrd_cpb_cnt_minus1 as nat) } else { x.hrd_cpb_cnt_minus1 == 0 }
        &&& x.hrd_cpb_cnt_minus1 <= 31
    }
}

/// The values of general_timing_hrd_parameters() that the writer accepts.
#[verifier::opaque]
pub open spec fn general_timing_hrd_can(x: VvcGeneralTimingHrd) -> bool {
    &&& x.num_units_in_tick != 0 && x.time_scale != 0
    &&& {
        let any = x.general_nal_hrd_params_present_flag != 0 || x.general_vcl_hrd_params_present_flag != 0;
        &&& !any || x.hrd_cpb_cnt_minus1 <= 31
        &&& any ==> ue_fits(x.hrd_cpb_cnt_minus1 as nat)
    }
}

/// Parse a `general_timing_hrd_parameters()` structure.
pub fn parse_general_timing_hrd(r: &mut BitReader<'_>) -> (res: Result<VvcGeneralTimingHrd, BitstreamError>)
    ensures
        read_is(general_timing_hrd_at(old(r).bits(), old(r).pos()), res, *old(r), *final(r)),
{
    proof {
        reveal(general_timing_hrd_at);
    }
    let num_units_in_tick: u32 = r.u(32);
    let time_scale: u32 = r.u(32);
    let general_nal_hrd_params_present_flag: u8 = r.bit();
    let general_vcl_hrd_params_present_flag: u8 = r.bit();
    if !(num_units_in_tick != 0 && time_scale != 0) {
        return Err(
            BitstreamError::invalid(
                "general_timing_hrd_parameters: num_units_in_tick and time_scale must be > 0 (7.4.6.1)",
            ),
        );
    }
    let any: bool = general_nal_hrd_params_present_flag != 0 || general_vcl_hrd_params_present_flag != 0;
    let general_same_pic_timing_in_all_ols_flag: u8 = r.bit_if(any, 0);
    let general_du_hrd_params_present_flag: u8 = r.bit_if(any, 0);
    let tick_divisor_minus2: u8 = r.u8_if(8, any && general_du_hrd_params_present_flag != 0, 0);
    let bit_rate_scale: u8 = r.u8_if(4, any, 0);
    let cpb_size_scale: u8 = r.u8_if(4, any, 0);
    let cpb_size_du_scale: u8 = r.u8_if(4, any && general_du_hrd_params_present_flag != 0, 0);
    let hrd_cpb_cnt_minus1: u32 = r.ue_if(any, 0)?;
    if hrd_cpb_cnt_minus1 > 31 {
        return Err(
            Message::new("hrd_cpb_cnt_minus1 = ")
                .num(hrd_cpb_cnt_minus1 as i128)
                .with(" > 31 (7.4.6.1)")
                .invalid(),
        );
    }
    Ok(
        VvcGeneralTimingHrd {
            num_units_in_tick,
            time_scale,
            general_nal_hrd_params_present_flag,
            general_vcl_hrd_params_present_flag,
            general_same_pic_timing_in_all_ols_flag,
            general_du_hrd_params_present_flag,
            tick_divisor_minus2,
            bit_rate_scale,
            cpb_size_scale,
            cpb_size_du_scale,
            hrd_cpb_cnt_minus1,
        },
    )
}

/// Emit a `general_timing_hrd_parameters()` structure, the byte-exact
/// inverse of [`parse_general_timing_hrd`].
pub fn write_general_timing_hrd(
    w: &mut BitWriter,
    x: &VvcGeneralTimingHrd,
) -> (res: Result<(), BitstreamError>)
    ensures
        write_is(general_timing_hrd_can(*x), put_general_timing_hrd(old(w)@, *x), res, final(w)@),
{
    proof {
        reveal(put_general_timing_hrd);
        reveal(general_timing_hrd_can);
    }
    w.write_bits(x.num_units_in_tick, 32);
    w.write_bits(x.time_scale, 32);
    w.write_bit(x.general_nal_hrd_params_present_flag as u32);
    w.write_bit(x.general_vcl_hrd_params_present_flag as u32);
    if !(x.num_units_in_tick != 0 && x.time_scale != 0) {
        return Err(
            BitstreamError::invalid(
                "general_timing_hrd_parameters: num_units_in_tick and time_scale must be > 0 (7.4.6.1)",
            ),
        );
    }
    let any: bool = x.general_nal_hrd_params_present_flag != 0 || x.general_vcl_hrd_params_present_flag != 0;
    w.write_bit_if(x.general_same_pic_timing_in_all_ols_flag as u32, any);
    w.write_bit_if(x.general_du_hrd_params_present_flag as u32, any);
    w.write_bits_if(x.tick_divisor_minus2 as u32, 8, any && x.general_du_hrd_params_present_flag != 0);
    w.write_bits_if(x.bit_rate_scale as u32, 4, any);
    w.write_bits_if(x.cpb_size_scale as u32, 4, any);
    w.write_bits_if(x.cpb_size_du_scale as u32, 4, any && x.general_du_hrd_params_present_flag != 0);
    if !(!any || x.hrd_cpb_cnt_minus1 <= 31) {
        return Err(
            Message::new("hrd_cpb_cnt_minus1 = ")
                .num(x.hrd_cpb_cnt_minus1 as i128)
                .with(" > 31 (7.4.6.1)")
                .invalid(),
        );
    }
    w.write_ue_if(x.hrd_cpb_cnt_minus1, any)?;
    Ok(())
}

/// Writing general_timing_hrd_parameters() gives back the bits it was read
/// from.
pub broadcast proof fn law_put_general_timing_hrd_at(s: Seq<bool>, p: nat)
    ensures
        #[trigger] general_timing_hrd_at(s, p) matches Ok((x, q)) ==> {
            &&& general_timing_hrd_ok(x)
            &&& general_timing_hrd_can(x)
            &&& within(s, q) ==> within(s, p) && put_general_timing_hrd(upto(s, p), x) == upto(s, q)
        },
{
    broadcast use crate::bits::group_write_read;

    reveal(general_timing_hrd_at);
    reveal(put_general_timing_hrd);
    reveal(general_timing_hrd_ok);
    reveal(general_timing_hrd_can);
}

/// Reading gives back general_timing_hrd_parameters() as it was written.
pub broadcast proof fn law_pre_put_general_timing_hrd(a: Seq<bool>, x: VvcGeneralTimingHrd, s: Seq<bool>)
    requires
        #[trigger] pre(put_general_timing_hrd(a, x), s),
        general_timing_hrd_ok(x),
    ensures
        pre(a, s),
        general_timing_hrd_can(x),
        general_timing_hrd_at(s, a.len()) == Ok::<(VvcGeneralTimingHrd, nat), Fault>(
            (x, put_general_timing_hrd(a, x).len()),
        ),
{
    broadcast use crate::bits::group_read_written;

    reveal(general_timing_hrd_at);
    reveal(put_general_timing_hrd);
    reveal(general_timing_hrd_ok);
    reveal(general_timing_hrd_can);
}

/// The layout of general_timing_hrd_parameters(): reading at `p` gives `x` and
/// ends at `q` if and only if these elements stand there in this order, and the
/// values are allowed.
pub proof fn law_layout_general_timing_hrd(s: Seq<bool>, p: nat, x: VvcGeneralTimingHrd, q: nat)
    ensures
        general_timing_hrd_at(s, p) == Ok::<(VvcGeneralTimingHrd, nat), Fault>((x, q)) <==> ({
            let any = x.general_nal_hrd_params_present_flag != 0
                || x.general_vcl_hrd_params_present_flag != 0;
            &&& cursor(s, p)
                .u32(32, x.num_units_in_tick)
                .u32(32, x.time_scale)
                .u8(1, x.general_nal_hrd_params_present_flag)
                .u8(1, x.general_vcl_hrd_params_present_flag)
                .u8_if(any, 1, x.general_same_pic_timing_in_all_ols_flag, 0)
                .u8_if(any, 1, x.general_du_hrd_params_present_flag, 0)
                .u8_if(any && x.general_du_hrd_params_present_flag != 0, 8, x.tick_divisor_minus2, 0)
                .u8_if(any, 4, x.bit_rate_scale, 0)
                .u8_if(any, 4, x.cpb_size_scale, 0)
                .u8_if(any && x.general_du_hrd_params_present_flag != 0, 4, x.cpb_size_du_scale, 0)
                .ue_if(any, x.hrd_cpb_cnt_minus1, 0)
                .ends(q)
            &&& x.num_units_in_tick != 0 && x.time_scale != 0
            &&& x.hrd_cpb_cnt_minus1 <= 31
        }),
{
    reveal(general_timing_hrd_at);
    reveal(adv_if);
    reveal(u8_if);
    reveal(ue_if);
}

/// Reading general_timing_hrd_parameters() fails only with an error of this
/// class.
pub broadcast proof fn law_faults_general_timing_hrd(s: Seq<bool>, p: nat)
    ensures
        #[trigger] general_timing_hrd_at(s, p) matches Err(f) ==> f == Fault::Invalid,
{
    broadcast use crate::bits::law_faults_ue;

    reveal(general_timing_hrd_at);
    reveal(ue_if);
}

/// What the writer accepts reads back: general_timing_hrd_parameters(), where
/// each field fits its width and what is not coded has the value that is taken
/// for it.
pub proof fn law_reads_general_timing_hrd(a: Seq<bool>, x: VvcGeneralTimingHrd, s: Seq<bool>)
    requires
        general_timing_hrd_can(x),
        ({
            &&& fits(x.num_units_in_tick as nat, 32)
            &&& fits(x.time_scale as nat, 32)
            &&& fits(x.general_nal_hrd_params_present_flag as nat, 1)
            &&& fits(x.general_vcl_hrd_params_present_flag as nat, 1)
            &&& {
                let any = x.general_nal_hrd_params_present_flag != 0
                    || x.general_vcl_hrd_params_present_flag != 0;
                &&& if any {
                    fits(x.general_same_pic_timing_in_all_ols_flag as nat, 1)
                } else {
                    x.general_same_pic_timing_in_all_ols_flag == 0
                }
                &&& if any {
                    fits(x.general_du_hrd_params_present_flag as nat, 1)
                } else {
                    x.general_du_hrd_params_present_flag == 0
                }
                &&& if any
                    && x.general_du_hrd_params_present_flag != 0 {
                        fits(x.tick_divisor_minus2 as nat, 8)
                    } else {
                        x.tick_divisor_minus2 == 0
                    }
                &&& if any { fits(x.bit_rate_scale as nat, 4) } else { x.bit_rate_scale == 0 }
                &&& if any { fits(x.cpb_size_scale as nat, 4) } else { x.cpb_size_scale == 0 }
                &&& if any
                    && x.general_du_hrd_params_present_flag != 0 {
                        fits(x.cpb_size_du_scale as nat, 4)
                    } else {
                        x.cpb_size_du_scale == 0
                    }
                &&& (!any ==> x.hrd_cpb_cnt_minus1 == 0)
            }
        }),
        pre(put_general_timing_hrd(a, x), s),
    ensures
        general_timing_hrd_at(s, a.len()) == Ok::<(VvcGeneralTimingHrd, nat), Fault>(
            (x, put_general_timing_hrd(a, x).len()),
        ),
{
    assert(general_timing_hrd_ok(x)) by {
        broadcast use crate::bits::law_fits_small;

        reveal(general_timing_hrd_ok);
        reveal(general_timing_hrd_can);
    }
    law_pre_put_general_timing_hrd(a, x, s);
}

// ──────────────── sublayer_hrd_parameters (7.3.5.3) ─────────────────────────

/// One CPB delivery schedule inside `sublayer_hrd_parameters()`
/// (§7.3.5.3 / §7.4.6.3).
#[derive(Debug, Clone, Copy, PartialEq, Eq)]
pub struct VvcCpbSchedule {
    /// `bit_rate_value_minus1[i][j]` ue(v).
    pub bit_rate_value_minus1: u32,
    /// `cpb_size_value_minus1[i][j]` ue(v).
    pub cpb_size_value_minus1: u32,
    /// `(cpb_size_du_value_minus1, bit_rate_du_value_minus1)` — coded
    /// (in that order) only when `general_du_hrd_params_present_flag`.
    pub du_values_minus1: Option<(u32, u32)>,
    /// `cbr_flag[i][j]` u(1).
    pub cbr_flag: u8,
}

/// `sublayer_hrd_parameters(subLayerId)` — `hrd_cpb_cnt_minus1 + 1`
/// CPB schedules (§7.3.5.3).
#[derive(Debug, Clone, PartialEq, Eq, Default)]
pub struct VvcSublayerHrd {
    /// Exactly `hrd_cpb_cnt_minus1 + 1` schedules.
    pub schedules: Vec<VvcCpbSchedule>,
}

/// The decoding-unit values of a CPB schedule at position `p`.
#[verifier::opaque]
pub open spec fn du_values_at(s: Seq<bool>, p: nat) -> Read<(u32, u32)> {
    match ue_at(s, p) { Err(f) => Err(f), Ok((cpb_du, p)) => {
    match ue_at(s, p) { Err(f) => Err(f), Ok((br_du, p)) => {
    Ok(((cpb_du, br_du), p)) }}}}
}

/// The bits `a` followed by the decoding-unit values of a CPB schedule.
#[verifier::opaque]
pub open spec fn put_du_values(a: Seq<bool>, x: (u32, u32)) -> Seq<bool> {
    let a = put_ue(a, x.0 as nat);
    let a = put_ue(a, x.1 as nat);
    a
}

/// The values of the decoding-unit values of a CPB schedule that reading can
/// give.
#[verifier::opaque]
pub open spec fn du_values_ok(x: (u32, u32)) -> bool {
    &&& ue_fits(x.0 as nat)
    &&& ue_fits(x.1 as nat)
}

/// The values of the decoding-unit values of a CPB schedule that the writer
/// accepts.
#[verifier::opaque]
pub open spec fn du_values_can(x: (u32, u32)) -> bool {
    &&& ue_fits(x.0 as nat)
    &&& ue_fits(x.1 as nat)
}

/// Parses the decoding-unit values of a CPB schedule.
fn parse_du_values(r: &mut BitReader<'_>) -> (res: Result<(u32, u32), BitstreamError>)
    ensures
        read_is(du_values_at(old(r).bits(), old(r).pos()), res, *old(r), *final(r)),
{
    proof {
        reveal(du_values_at);
    }
    let cpb_du: u32 = r.ue()?;
    let br_du: u32 = r.ue()?;
    Ok((cpb_du, br_du))
}

/// Emits the decoding-unit values of a CPB schedule, the inverse of [`parse_du_values`].
fn write_du_values(w: &mut BitWriter, x: &(u32, u32)) -> (res: Result<(), BitstreamError>)
    ensures
        write_is(du_values_can(*x), put_du_values(old(w)@, *x), res, final(w)@),
{
    proof {
        reveal(put_du_values);
        reveal(du_values_can);
    }
    w.write_ue(x.0)?;
    w.write_ue(x.1)?;
    Ok(())
}

/// Writing the decoding-unit values of a CPB schedule gives back the bits it
/// was read from.
pub broadcast proof fn law_put_du_values_at(s: Seq<bool>, p: nat)
    ensures
        #[trigger] du_values_at(s, p) matches Ok((x, q)) ==> {
            &&& du_values_ok(x)
            &&& du_values_can(x)
            &&& within(s, q) ==> within(s, p) && put_du_values(upto(s, p), x) == upto(s, q)
        },
{
    broadcast use crate::bits::group_write_read;

    reveal(du_values_at);
    reveal(put_du_values);
    reveal(du_values_ok);
    reveal(du_values_can);
}

/// Reading gives back the decoding-unit values of a CPB schedule as it was
/// written.
pub broadcast proof fn law_pre_put_du_values(a: Seq<bool>, x: (u32, u32), s: Seq<bool>)
    requires
        #[trigger] pre(put_du_values(a, x), s),
        du_values_ok(x),
    ensures
        pre(a, s),
        du_values_can(x),
        du_values_at(s, a.len()) == Ok::<((u32, u32), nat), Fault>((x, put_du_values(a, x).len())),
{
    broadcast use crate::bits::group_read_written;

    reveal(du_values_at);
    reveal(put_du_values);
    reveal(du_values_ok);
    reveal(du_values_can);
}

/// The layout of the decoding-unit values of a CPB schedule: reading at `p`
/// gives `x` and ends at `q` if and only if these elements stand there in this
/// order.
pub proof fn law_layout_du_values(s: Seq<bool>, p: nat, x: (u32, u32), q: nat)
    ensures
        du_values_at(s, p) == Ok::<((u32, u32), nat), Fault>((x, q)) <==> cursor(s, p)
            .ue(x.0)
            .ue(x.1)
            .ends(q),
{
    reveal(du_values_at);
}

/// Reading the decoding-unit values of a CPB schedule fails only with an error
/// of this class.
pub broadcast proof fn law_faults_du_values(s: Seq<bool>, p: nat)
    ensures
        #[trigger] du_values_at(s, p) matches Err(f) ==> f == Fault::Invalid,
{
    broadcast use crate::bits::law_faults_ue;

    reveal(du_values_at);
}

/// What the writer accepts reads back: the decoding-unit values of a CPB
/// schedule, where each field fits its width and what is not coded has the
/// value that is taken for it.
pub proof fn law_reads_du_values(a: Seq<bool>, x: (u32, u32), s: Seq<bool>)
    requires
        du_values_can(x),
        pre(put_du_values(a, x), s),
    ensures
        du_values_at(s, a.len()) == Ok::<((u32, u32), nat), Fault>((x, put_du_values(a, x).len())),
{
    assert(du_values_ok(x)) by {
        broadcast use crate::bits::law_fits_small;

        reveal(du_values_ok);
        reveal(du_values_can);
    }
    law_pre_put_du_values(a, x, s);
}

/// One CPB delivery schedule at position `p`.
#[verifier::opaque]
pub open spec fn cpb_schedule_at(s: Seq<bool>, p: nat, g: VvcGeneralTimingHrd) -> Read<VvcCpbSchedule> {
    match ue_at(s, p) { Err(f) => Err(f), Ok((bit_rate_value_minus1, p)) => {
    match ue_at(s, p) { Err(f) => Err(f), Ok((cpb_size_value_minus1, p)) => {
    match (if g.general_du_hrd_params_present_flag != 0 {
        read_some(du_values_at(s, p))
    } else {
        Ok((None, p))
    })
    { Err(f) => Err(f), Ok((du_values_minus1, p)) => {
    let cbr_flag = u8_at(s, p, 1);
    let p = adv(p, 1);
    Ok((VvcCpbSchedule { bit_rate_value_minus1, cpb_size_value_minus1, du_values_minus1, cbr_flag }, p))
    }}}}}}
}

/// The bits `a` followed by one CPB delivery schedule.
#[verifier::opaque]
pub open spec fn put_cpb_schedule(a: Seq<bool>, x: VvcCpbSchedule, g: VvcGeneralTimingHrd) -> Seq<bool> {
    let a = put_ue(a, x.bit_rate_value_minus1 as nat);
    let a = put_ue(a, x.cpb_size_value_minus1 as nat);
    let a = match x.du_values_minus1 { Some(y) => put_du_values(a, y), None => a };
    let a = put_bit(a, x.cbr_flag as nat);
    a
}

/// The values of one CPB delivery schedule that reading can give.
#[verifier::opaque]
pub open spec fn cpb_schedule_ok(x: VvcCpbSchedule, g: VvcGeneralTimingHrd) -> bool {
    &&& ue_fits(x.bit_rate_value_minus1 as nat)
    &&& ue_fits(x.cpb_size_value_minus1 as nat)
    &&& x.du_values_minus1 is Some <==> (g.general_du_hrd_params_present_flag != 0)
    &&& x.du_values_minus1 matches Some(y) ==> du_values_ok(y)
    &&& fits(x.cbr_flag as nat, 1)
}

/// The values of one CPB delivery schedule that the writer accepts.
#[verifier::opaque]
pub open spec fn cpb_schedule_can(x: VvcCpbSchedule, g: VvcGeneralTimingHrd) -> bool {
    &&& ue_fits(x.bit_rate_value_minus1 as nat)
    &&& ue_fits(x.cpb_size_value_minus1 as nat)
    &&& x.du_values_minus1 is Some <==> (g.general_du_hrd_params_present_flag != 0)
    &&& x.du_values_minus1 matches Some(y) ==> du_values_can(y)
}

/// Parses one CPB delivery schedule.
fn parse_cpb_schedule(
    r: &mut BitReader<'_>,
    g: &VvcGeneralTimingHrd,
) -> (res: Result<VvcCpbSchedule, BitstreamError>)
    ensures
        read_is(cpb_schedule_at(old(r).bits(), old(r).pos(), *g), res, *old(r), *final(r)),
{
    proof {
        reveal(cpb_schedule_at);
    }
    let bit_rate_value_minus1: u32 = r.ue()?;
    let cpb_size_value_minus1: u32 = r.ue()?;
    let du_values_minus1 = if g.general_du_hrd_params_present_flag != 0 {
        Some(parse_du_values(r)?)
    } else {
        None
    };
    let cbr_flag: u8 = r.bit();
    Ok(VvcCpbSchedule { bit_rate_value_minus1, cpb_size_value_minus1, du_values_minus1, cbr_flag })
}

/// Emits one CPB delivery schedule, the inverse of [`parse_cpb_schedule`].
fn write_cpb_schedule(
    w: &mut BitWriter,
    x: &VvcCpbSchedule,
    g: &VvcGeneralTimingHrd,
) -> (res: Result<(), BitstreamError>)
    ensures
        write_is(cpb_schedule_can(*x, *g), put_cpb_schedule(old(w)@, *x, *g), res, final(w)@),
{
    proof {
        reveal(put_cpb_schedule);
        reveal(cpb_schedule_can);
    }
    w.write_ue(x.bit_rate_value_minus1)?;
    w.write_ue(x.cpb_size_value_minus1)?;
    if x.du_values_minus1.is_some() != (g.general_du_hrd_params_present_flag != 0) {
        return Err(
            BitstreamError::invalid(
                "CPB schedule DU values must be present iff general_du_hrd_params_present_flag",
            ),
        );
    }
    if let Some(y) = &x.du_values_minus1 {
        write_du_values(w, y)?;
    }
    w.write_bit(x.cbr_flag as u32);
    Ok(())
}

/// Writing one CPB delivery schedule gives back the bits it was read from.
pub broadcast proof fn law_put_cpb_schedule_at(s: Seq<bool>, p: nat, g: VvcGeneralTimingHrd)
    ensures
        #[trigger] cpb_schedule_at(s, p, g) matches Ok((x, q)) ==> {
            &&& cpb_schedule_ok(x, g)
            &&& cpb_schedule_can(x, g)
            &&& within(s, q) ==> within(s, p) && put_cpb_schedule(upto(s, p), x, g) == upto(s, q)
        },
{
    broadcast use {crate::bits::group_write_read, law_put_du_values_at};

    reveal(cpb_schedule_at);
    reveal(put_cpb_schedule);
    reveal(cpb_schedule_ok);
    reveal(cpb_schedule_can);
}

/// Reading gives back one CPB delivery schedule as it was written.
pub broadcast proof fn law_pre_put_cpb_schedule(
    a: Seq<bool>,
    x: VvcCpbSchedule,
    g: VvcGeneralTimingHrd,
    s: Seq<bool>,
)
    requires
        #[trigger] pre(put_cpb_schedule(a, x, g), s),
        cpb_schedule_ok(x, g),
    ensures
        pre(a, s),
        cpb_schedule_can(x, g),
        cpb_schedule_at(s, a.len(), g) == Ok::<(VvcCpbSchedule, nat), Fault>(
            (x, put_cpb_schedule(a, x, g).len()),
        ),
{
    broadcast use {crate::bits::group_read_written, law_pre_put_du_values};

    reveal(cpb_schedule_at);
    reveal(put_cpb_schedule);
    reveal(cpb_schedule_ok);
    reveal(cpb_schedule_can);
}

/// The layout of one CPB delivery schedule: reading at `p` gives `x` and ends
/// at `q` if and only if these elements stand there in this order.
pub proof fn law_layout_cpb_schedule(s: Seq<bool>, p: nat, g: VvcGeneralTimingHrd, x: VvcCpbSchedule, q: nat)
    ensures
        cpb_schedule_at(s, p, g) == Ok::<(VvcCpbSchedule, nat), Fault>((x, q)) <==> cursor(s, p)
            .ue(x.bit_rate_value_minus1)
            .ue(x.cpb_size_value_minus1)
            .part_if(
                g.general_du_hrd_params_present_flag != 0,
                |p: nat| du_values_at(s, p),
                x.du_values_minus1,
            )
            .u8(1, x.cbr_flag)
            .ends(q),
{
    reveal(cpb_schedule_at);
}

/// Reading one CPB delivery schedule fails only with an error of this class.
pub broadcast proof fn law_faults_cpb_schedule(s: Seq<bool>, p: nat, g: VvcGeneralTimingHrd)
    ensures
        #[trigger] cpb_schedule_at(s, p, g) matches Err(f) ==> f == Fault::Invalid,
{
    broadcast use {crate::bits::law_faults_ue, law_faults_du_values};

    reveal(cpb_schedule_at);
}

/// What the writer accepts reads back: one CPB delivery schedule, where each
/// field fits its width and what is not coded has the value that is taken for
/// it.
pub proof fn law_reads_cpb_schedule(a: Seq<bool>, x: VvcCpbSchedule, g: VvcGeneralTimingHrd, s: Seq<bool>)
    requires
        cpb_schedule_can(x, g),
        x.du_values_minus1 matches Some(y) ==> du_values_ok(y),
        fits(x.cbr_flag as nat, 1),
        pre(put_cpb_schedule(a, x, g), s),
    ensures
        cpb_schedule_at(s, a.len(), g) == Ok::<(VvcCpbSchedule, nat), Fault>(
            (x, put_cpb_schedule(a, x, g).len()),
        ),
{
    assert(cpb_schedule_ok(x, g)) by {
        broadcast use crate::bits::law_fits_small;

        reveal(cpb_schedule_ok);
        reveal(cpb_schedule_can);
    }
    law_pre_put_cpb_schedule(a, x, g, s);
}

/// Reads one CPB delivery schedule, behind the items before it.
pub open spec fn cpb_schedules_item(
    s: Seq<bool>,
    g: VvcGeneralTimingHrd,
) -> spec_fn(Seq<VvcCpbSchedule>, nat) -> Read<VvcCpbSchedule> {
    |done: Seq<VvcCpbSchedule>, q: nat| cpb_schedule_at(s, q, g)
}

/// Writes one CPB delivery schedule, behind the items before it.
pub open spec fn put_cpb_schedules_item(
    g: VvcGeneralTimingHrd,
) -> spec_fn(Seq<bool>, Seq<VvcCpbSchedule>, VvcCpbSchedule) -> Seq<bool> {
    |a: Seq<bool>, done: Seq<VvcCpbSchedule>, x: VvcCpbSchedule| put_cpb_schedule(a, x, g)
}

/// Whether one CPB delivery schedule may follow the items before it.
pub open spec fn cpb_schedules_item_ok(
    g: VvcGeneralTimingHrd,
) -> spec_fn(Seq<VvcCpbSchedule>, VvcCpbSchedule) -> bool {
    |done: Seq<VvcCpbSchedule>, x: VvcCpbSchedule| cpb_schedule_ok(x, g) && cpb_schedule_can(x, g)
}

/// `n` items at position `p`, each one CPB delivery schedule.
#[verifier::opaque]
pub open spec fn cpb_schedules_at(
    s: Seq<bool>,
    p: nat,
    g: VvcGeneralTimingHrd,
    n: u64,
) -> Read<Seq<VvcCpbSchedule>> {
    rep_at(cpb_schedules_item(s, g), p, n as nat)
}

/// The bits `a` followed by the items.
#[verifier::opaque]
pub open spec fn put_cpb_schedules(
    a: Seq<bool>,
    xs: Seq<VvcCpbSchedule>,
    g: VvcGeneralTimingHrd,
    n: u64,
) -> Seq<bool> {
    put_rep(put_cpb_schedules_item(g), a, xs)
}

/// `n` items that reading can give.
#[verifier::opaque]
pub open spec fn cpb_schedules_ok(xs: Seq<VvcCpbSchedule>, g: VvcGeneralTimingHrd, n: u64) -> bool {
    xs.len() == n
        && forall|i: int| 0 <= i < xs.len()
        ==> cpb_schedule_ok(#[trigger] xs[i], g)
        && cpb_schedule_can(xs[i], g)
}

/// `n` items that the writer accepts.
#[verifier::opaque]
pub open spec fn cpb_schedules_can(xs: Seq<VvcCpbSchedule>, g: VvcGeneralTimingHrd, n: u64) -> bool {
    xs.len() == n && forall|i: int| 0 <= i < xs.len() ==> cpb_schedule_can(#[trigger] xs[i], g)
}

/// Parses `n` items, each one CPB delivery schedule.
fn parse_cpb_schedules(
    r: &mut BitReader<'_>,
    g: &VvcGeneralTimingHrd,
    n: u64,
) -> (res: Result<Vec<VvcCpbSchedule>, BitstreamError>)
    ensures
        read_vec_is(cpb_schedules_at(old(r).bits(), old(r).pos(), *g, n), res, *old(r), *final(r)),
        res matches Ok(v) ==> v@.len() == n,
{
    let ghost s = r.bits();
    let ghost p = r.pos();
    let ghost reads = cpb_schedules_item(s, *g);
    let mut xs: Vec<VvcCpbSchedule> = Vec::new();
    let mut i: u64 = 0;
    proof {
        reveal(cpb_schedules_at);
    }
    while i < n
        invariant
            i <= n,
            xs@.len() == i,
            reads == cpb_schedules_item(s, *g),
            s == r.bits(),
            s == old(r).bits(),
            p == old(r).pos(),
            r.bytes() == old(r).bytes(),
            rep_at(reads, p, i as nat) == Ok::<(Seq<VvcCpbSchedule>, nat), Fault>((xs@, r.pos())),
        decreases n - i,
    {
        match parse_cpb_schedule(r, g) {
            Ok(x) => {
                xs.push(x);
            },
            Err(e) => {
                proof {
                    reveal(cpb_schedules_at);
                    lemma_rep_err(reads, p, (i + 1) as nat, n as nat);
                }
                return Err(e);
            },
        }
        i = i + 1;
    }
    Ok(xs)
}

/// Emits `n` items, each one CPB delivery schedule.
fn write_cpb_schedules(
    w: &mut BitWriter,
    xs: &Vec<VvcCpbSchedule>,
    g: &VvcGeneralTimingHrd,
    n: u64,
) -> (res: Result<(), BitstreamError>)
    ensures
        write_is(cpb_schedules_can(xs@, *g, n), put_cpb_schedules(old(w)@, xs@, *g, n), res, final(w)@),
        res is Ok ==> xs@.len() == n,
{
    let ghost before = w@;
    let ghost puts = put_cpb_schedules_item(*g);
    let ghost ys = xs@;
    proof {
        reveal(put_cpb_schedules);
        reveal(cpb_schedules_can);
        assert(ys.take(0) =~= Seq::empty());
    }
    if xs.len() as u64 != n {
        return Err(
            Message::new("sublayer_hrd_parameters schedule count ")
                .num(xs.len() as i128)
                .with(" != hrd_cpb_cnt_minus1 + 1 = ")
                .num(n as i128)
                .invalid(),
        );
    }
    let mut i: usize = 0;
    while i < xs.len()
        invariant
            i <= xs@.len(),
            xs@.len() == n,
            ys == xs@,
            ys.len() == xs@.len(),
            before == old(w)@,
            puts == put_cpb_schedules_item(*g),
            w@ == put_rep(puts, before, ys.take(i as int)),
            forall|j: int| 0 <= j < i ==> cpb_schedule_can(#[trigger] ys[j], *g),
        ensures
            i == xs@.len(),
        decreases xs@.len() - i,
    {
        proof {
            assert(ys.take(i + 1).drop_last() =~= ys.take(i as int));
            assert(ys[i as int] == xs@[i as int]);
        }
        match write_cpb_schedule(w, &xs[i], g) {
            Ok(()) => {},
            Err(e) => {
                proof {
                    reveal(cpb_schedules_can);
                }
                return Err(e);
            },
        }
        i = i + 1;
    }
    proof {
        assert(ys.take(i as int) =~= ys);
    }
    Ok(())
}

/// Writing what was read gives back the bits that were read.
pub broadcast proof fn law_put_cpb_schedules_at(s: Seq<bool>, p: nat, g: VvcGeneralTimingHrd, n: u64)
    ensures
        #[trigger] cpb_schedules_at(s, p, g, n) matches Ok((xs, q)) ==> {
            &&& xs.len() == n
            &&& cpb_schedules_ok(xs, g, n)
            &&& cpb_schedules_can(xs, g, n)
            &&& within(s, q) ==> within(s, p) && put_cpb_schedules(upto(s, p), xs, g, n) == upto(s, q)
        },
{
    broadcast use law_put_cpb_schedule_at;

    reveal(cpb_schedules_at);
    reveal(put_cpb_schedules);
    reveal(cpb_schedules_ok);
    reveal(cpb_schedules_can);
    let ok = cpb_schedules_item_ok(g);
    law_put_rep_at(s, cpb_schedules_item(s, g), put_cpb_schedules_item(g), ok, p, n as nat);
    if let Ok((xs, q)) = cpb_schedules_at(s, p, g, n) {
        assert forall|i: int| 0 <= i < xs.len() implies ok(xs.take(i), #[trigger] xs[i]) by {}
    }
}

/// What was written reads back as the items that were written.
pub broadcast proof fn law_pre_put_cpb_schedules(
    a: Seq<bool>,
    xs: Seq<VvcCpbSchedule>,
    g: VvcGeneralTimingHrd,
    n: u64,
    s: Seq<bool>,
)
    requires
        #[trigger] pre(put_cpb_schedules(a, xs, g, n), s),
        cpb_schedules_ok(xs, g, n),
    ensures
        pre(a, s),
        cpb_schedules_can(xs, g, n),
        cpb_schedules_at(s, a.len(), g, n) == Ok::<(Seq<VvcCpbSchedule>, nat), Fault>(
            (xs, put_cpb_schedules(a, xs, g, n).len()),
        ),
{
    broadcast use law_pre_put_cpb_schedule;

    reveal(cpb_schedules_at);
    reveal(put_cpb_schedules);
    reveal(cpb_schedules_ok);
    reveal(cpb_schedules_can);
    law_rep_at_put(s, cpb_schedules_item(s, g), put_cpb_schedules_item(g), cpb_schedules_item_ok(g), a, xs);
}

/// `n` items stand one behind the other: `n - 1` items, and then one CPB
/// delivery schedule.
pub proof fn law_layout_cpb_schedules(
    s: Seq<bool>,
    p: nat,
    g: VvcGeneralTimingHrd,
    n: u64,
    xs: Seq<VvcCpbSchedule>,
    q: nat,
)
    ensures
        cpb_schedules_at(s, p, g, n) == Ok::<(Seq<VvcCpbSchedule>, nat), Fault>((xs, q)) <==> if n == 0 {
            xs.len() == 0 && q == p
        } else {
            &&& xs.len() == n
            &&& cursor(s, p)
                .part(|p: nat| cpb_schedules_at(s, p, g, (n - 1) as u64), xs.drop_last())
                .part(|p: nat| cpb_schedule_at(s, p, g), xs.last())
                .ends(q)
        },
{
    reveal(cpb_schedules_at);
    lemma_rep_step(cpb_schedules_item(s, g), p, n as nat);
    if xs.len() == 0 {
        assert(xs =~= Seq::empty());
    } else {
        assert(xs =~= xs.drop_last().push(xs.last()));
    }
    if n > 0 {
        if let Ok((done, r)) = rep_at(cpb_schedules_item(s, g), p, (n - 1) as nat) {
            if let Ok((y, z)) = cpb_schedules_item(s, g)(done, r) {
                assert(done.push(y).drop_last() =~= done);
            }
        }
    }
}

/// What the writer accepts as `n` items reads back, where each of them is one that
/// reading can give.
pub proof fn law_reads_cpb_schedules(
    a: Seq<bool>,
    xs: Seq<VvcCpbSchedule>,
    g: VvcGeneralTimingHrd,
    n: u64,
    s: Seq<bool>,
)
    requires
        cpb_schedules_can(xs, g, n),
        forall|i: int| 0 <= i < xs.len() ==> cpb_schedule_ok(#[trigger] xs[i], g),
        pre(put_cpb_schedules(a, xs, g, n), s),
    ensures
        xs.len() == n,
        cpb_schedules_at(s, a.len(), g, n) == Ok::<(Seq<VvcCpbSchedule>, nat), Fault>(
            (xs, put_cpb_schedules(a, xs, g, n).len()),
        ),
{
    reveal(cpb_schedules_can);
    assert(cpb_schedules_ok(xs, g, n)) by {
        reveal(cpb_schedules_ok);
    }
    law_pre_put_cpb_schedules(a, xs, g, n, s);
}

/// Reading the items fails only with an error of this class.
pub broadcast proof fn law_faults_cpb_schedules(s: Seq<bool>, p: nat, g: VvcGeneralTimingHrd, n: u64)
    ensures
        #[trigger] cpb_schedules_at(s, p, g, n) matches Err(f) ==> f == Fault::Invalid,
{
    broadcast use law_faults_cpb_schedule;

    reveal(cpb_schedules_at);
    let f = cpb_schedules_item(s, g);
    assert forall|done: Seq<VvcCpbSchedule>, q: nat| (#[trigger] f(done, q)) matches Err(e)
        ==> e == Fault::Invalid by {}
    lemma_rep_faults(f, p, n as nat, |f: Fault| f == Fault::Invalid);
}

/// The mathematical model of a [`VvcSublayerHrd`].
pub struct VvcSublayerHrdModel {
    pub schedules: Seq<VvcCpbSchedule>,
}

impl View for VvcSublayerHrd {
    type V = VvcSublayerHrdModel;

    open spec fn view(&self) -> VvcSublayerHrdModel {
        VvcSublayerHrdModel {
            schedules: self.schedules@,
        }
    }
}

/// sublayer_hrd_parameters() at position `p`.
#[verifier::opaque]
pub open spec fn sublayer_hrd_at(s: Seq<bool>, p: nat, g: VvcGeneralTimingHrd) -> Read<VvcSublayerHrdModel> {
    let n = (g.hrd_cpb_cnt_minus1 as u64 + 1) as u64;
    match cpb_schedules_at(s, p, g, n) { Err(f) => Err(f), Ok((schedules, p)) => {
    Ok((VvcSublayerHrdModel { schedules }, p))
    }}
}

/// The bits `a` followed by sublayer_hrd_parameters().
#[verifier::opaque]
pub open spec fn put_sublayer_hrd(a: Seq<bool>, x: VvcSublayerHrdModel, g: VvcGeneralTimingHrd) -> Seq<bool> {
    let n = (g.hrd_cpb_cnt_minus1 as u64 + 1) as u64;
    let a = put_cpb_schedules(a, x.schedules, g, n);
    a
}

/// The values of sublayer_hrd_parameters() that reading can give.
#[verifier::opaque]
pub open spec fn sublayer_hrd_ok(x: VvcSublayerHrdModel, g: VvcGeneralTimingHrd) -> bool {
    let n = (g.hrd_cpb_cnt_minus1 as u64 + 1) as u64;
    &&& cpb_schedules_ok(x.schedules, g, n)
}

/// The values of sublayer_hrd_parameters() that the writer accepts.
#[verifier::opaque]
pub open spec fn sublayer_hrd_can(x: VvcSublayerHrdModel, g: VvcGeneralTimingHrd) -> bool {
    let n = (g.hrd_cpb_cnt_minus1 as u64 + 1) as u64;
    &&& cpb_schedules_can(x.schedules, g, n)
}

/// Parses sublayer_hrd_parameters().
fn parse_sublayer_hrd(
    r: &mut BitReader<'_>,
    g: &VvcGeneralTimingHrd,
) -> (res: Result<VvcSublayerHrd, BitstreamError>)
    ensures
        read_view_is(sublayer_hrd_at(old(r).bits(), old(r).pos(), *g), res, *old(r), *final(r)),
{
    proof {
        reveal(sublayer_hrd_at);
    }
    let n: u64 = g.hrd_cpb_cnt_minus1 as u64 + 1;
    let schedules = parse_cpb_schedules(r, g, n)?;
    Ok(VvcSublayerHrd { schedules })
}

/// Emits sublayer_hrd_parameters(), the inverse of [`parse_sublayer_hrd`].
fn write_sublayer_hrd(
    w: &mut BitWriter,
    x: &VvcSublayerHrd,
    g: &VvcGeneralTimingHrd,
) -> (res: Result<(), BitstreamError>)
    ensures
        write_is(sublayer_hrd_can(x@, *g), put_sublayer_hrd(old(w)@, x@, *g), res, final(w)@),
{
    proof {
        reveal(put_sublayer_hrd);
        reveal(sublayer_hrd_can);
    }
    let n: u64 = g.hrd_cpb_cnt_minus1 as u64 + 1;
    write_cpb_schedules(w, &x.schedules, g, n)?;
    Ok(())
}

/// Writing sublayer_hrd_parameters() gives back the bits it was read from.
pub broadcast proof fn law_put_sublayer_hrd_at(s: Seq<bool>, p: nat, g: VvcGeneralTimingHrd)
    ensures
        #[trigger] sublayer_hrd_at(s, p, g) matches Ok((x, q)) ==> {
            &&& sublayer_hrd_ok(x, g)
            &&& sublayer_hrd_can(x, g)
            &&& within(s, q) ==> within(s, p) && put_sublayer_hrd(upto(s, p), x, g) == upto(s, q)
        },
{
    broadcast use {crate::bits::group_write_read, law_put_cpb_schedules_at};

    reveal(sublayer_hrd_at);
    reveal(put_sublayer_hrd);
    reveal(sublayer_hrd_ok);
    reveal(sublayer_hrd_can);
}

/// Reading gives back sublayer_hrd_parameters() as it was written.
pub broadcast proof fn law_pre_put_sublayer_hrd(
    a: Seq<bool>,
    x: VvcSublayerHrdModel,
    g: VvcGeneralTimingHrd,
    s: Seq<bool>,
)
    requires
        #[trigger] pre(put_sublayer_hrd(a, x, g), s),
        sublayer_hrd_ok(x, g),
    ensures
        pre(a, s),
        sublayer_hrd_can(x, g),
        sublayer_hrd_at(s, a.len(), g) == Ok::<(VvcSublayerHrdModel, nat), Fault>(
            (x, put_sublayer_hrd(a, x, g).len()),
        ),
{
    broadcast use {crate::bits::group_read_written, law_pre_put_cpb_schedules};

    reveal(sublayer_hrd_at);
    reveal(put_sublayer_hrd);
    reveal(sublayer_hrd_ok);
    reveal(sublayer_hrd_can);
}

/// The layout of sublayer_hrd_parameters(): reading at `p` gives `x` and ends
/// at `q` if and only if these elements stand there in this order.
pub proof fn law_layout_sublayer_hrd(
    s: Seq<bool>,
    p: nat,
    g: VvcGeneralTimingHrd,
    x: VvcSublayerHrdModel,
    q: nat,
)
    ensures
        sublayer_hrd_at(s, p, g) == Ok::<(VvcSublayerHrdModel, nat), Fault>((x, q)) <==> ({
            let n = (g.hrd_cpb_cnt_minus1 as u64 + 1) as u64;
            &&& cursor(s, p).part(|p: nat| cpb_schedules_at(s, p, g, n), x.schedules).ends(q)
        }),
{
    reveal(sublayer_hrd_at);
}

/// Reading sublayer_hrd_parameters() fails only with an error of this class.
pub broadcast proof fn law_faults_sublayer_hrd(s: Seq<bool>, p: nat, g: VvcGeneralTimingHrd)
    ensures
        #[trigger] sublayer_hrd_at(s, p, g) matches Err(f) ==> f == Fault::Invalid,
{
    broadcast use law_faults_cpb_schedules;

    reveal(sublayer_hrd_at);
}

/// What the writer accepts reads back: sublayer_hrd_parameters(), where each
/// field fits its width and what is not coded has the value that is taken for
/// it.
pub proof fn law_reads_sublayer_hrd(
    a: Seq<bool>,
    x: VvcSublayerHrdModel,
    g: VvcGeneralTimingHrd,
    s: Seq<bool>,
)
    requires
        sublayer_hrd_can(x, g),
        ({
            let n = (g.hrd_cpb_cnt_minus1 as u64 + 1) as u64;
            &&& cpb_schedules_ok(x.schedules, g, n)
        }),
        pre(put_sublayer_hrd(a, x, g), s),
    ensures
        sublayer_hrd_at(s, a.len(), g) == Ok::<(VvcSublayerHrdModel, nat), Fault>(
            (x, put_sublayer_hrd(a, x, g).len()),
        ),
{
    assert(sublayer_hrd_ok(x, g)) by {
        broadcast use crate::bits::law_fits_small;

        reveal(sublayer_hrd_ok);
        reveal(sublayer_hrd_can);
    }
    law_pre_put_sublayer_hrd(a, x, g, s);
}

/// Each field of the model of a [`VvcSublayerHrd`] is the field of that name.
pub proof fn law_view_sublayer_hrd(x: VvcSublayerHrd)
    ensures
        x@.schedules == x.schedules@,
{
}

// ──────────────── ols_timing_hrd_parameters (7.3.5.2) ───────────────────────

/// One sublayer's entry in `ols_timing_hrd_parameters()` (§7.3.5.2 /
/// §7.4.6.2).
#[derive(Debug, Clone, PartialEq, Eq, Default)]
pub struct VvcOlsTimingHrdSublayer {
    /// `fixed_pic_rate_general_flag[i]` u(1).
    pub fixed_pic_rate_general_flag: u8,
    /// `fixed_pic_rate_within_cvs_flag[i]` u(1) — coded only when the
    /// general flag is 0; inferred 1 when it is 1 (§7.4.6.2).
    pub fixed_pic_rate_within_cvs_flag: u8,
    /// `elemental_duration_in_tc_minus1[i]` ue(v) 0..=2047 — coded
    /// only when `fixed_pic_rate_within_cvs_flag`.
    pub elemental_duration_in_tc_minus1: u32,
    /// `low_delay_hrd_flag[i]` u(1) — coded only when no fixed pic
    /// rate, an HRD is present and `hrd_cpb_cnt_minus1 == 0`;
    /// inferred 0 otherwise.
    pub low_delay_hrd_flag: u8,
    /// NAL `sublayer_hrd_parameters(i)` — present iff
    /// `general_nal_hrd_params_present_flag`.
    pub nal_hrd: Option<VvcSublayerHrd>,
    /// VCL `sublayer_hrd_parameters(i)` — present iff
    /// `general_vcl_hrd_params_present_flag`.
    pub vcl_hrd: Option<VvcSublayerHrd>,
}

/// `ols_timing_hrd_parameters(firstSubLayer, MaxSubLayersVal)`
/// (§7.3.5.2) — one entry per sublayer in
/// `firstSubLayer..=MaxSubLayersVal`, lowest first.
#[derive(Debug, Clone, PartialEq, Eq, Default)]
pub struct VvcOlsTimingHrd {
    /// Walked sublayer entries (`MaxSubLayersVal - firstSubLayer + 1`
    /// of them).
    pub sublayers: Vec<VvcOlsTimingHrdSublayer>,
}

/// The mathematical model of a [`VvcOlsTimingHrdSublayer`].
pub struct VvcOlsTimingHrdSublayerModel {
    pub fixed_pic_rate_general_flag: u8,
    pub fixed_pic_rate_within_cvs_flag: u8,
    pub elemental_duration_in_tc_minus1: u32,
    pub low_delay_hrd_flag: u8,
    pub nal_hrd: Option<VvcSublayerHrdModel>,
    pub vcl_hrd: Option<VvcSublayerHrdModel>,
}

impl View for VvcOlsTimingHrdSublayer {
    type V = VvcOlsTimingHrdSublayerModel;

    open spec fn view(&self) -> VvcOlsTimingHrdSublayerModel {
        VvcOlsTimingHrdSublayerModel {
            fixed_pic_rate_general_flag: self.fixed_pic_rate_general_flag,
            fixed_pic_rate_within_cvs_flag: self.fixed_pic_rate_within_cvs_flag,
            elemental_duration_in_tc_minus1: self.elemental_duration_in_tc_minus1,
            low_delay_hrd_flag: self.low_delay_hrd_flag,
            nal_hrd: opt_view(self.nal_hrd),
            vcl_hrd: opt_view(self.vcl_hrd),
        }
    }
}

/// One sublayer of ols_timing_hrd_parameters() at position `p`.
#[verifier::opaque]
pub open spec fn ols_sublayer_at(
    s: Seq<bool>,
    p: nat,
    g: VvcGeneralTimingHrd,
) -> Read<VvcOlsTimingHrdSublayerModel> {
    let fixed_pic_rate_general_flag = u8_at(s, p, 1);
    let p = adv(p, 1);
    let fixed_pic_rate_within_cvs_flag = u8_if(s, p, 1, fixed_pic_rate_general_flag == 0, 1);
    let p = adv_if(p, 1, fixed_pic_rate_general_flag == 0);
    match ue_if(s, p, fixed_pic_rate_within_cvs_flag != 0, 0)
    { Err(f) => Err(f), Ok((elemental_duration_in_tc_minus1, p)) => {
    if elemental_duration_in_tc_minus1 > 2047 { Err(Fault::Invalid) } else {
    let low_delay_hrd_flag = u8_if(
        s,
        p,
        1,
        fixed_pic_rate_within_cvs_flag == 0
            && (g.general_nal_hrd_params_present_flag != 0 || g.general_vcl_hrd_params_present_flag != 0)
            && g.hrd_cpb_cnt_minus1 == 0,
        0,
    );
    let p = adv_if(
        p,
        1,
        fixed_pic_rate_within_cvs_flag == 0
            && (g.general_nal_hrd_params_present_flag != 0 || g.general_vcl_hrd_params_present_flag != 0)
            && g.hrd_cpb_cnt_minus1 == 0,
    );
    match (if g.general_nal_hrd_params_present_flag != 0 {
        read_some(sublayer_hrd_at(s, p, g))
    } else {
        Ok((None, p))
    })
    { Err(f) => Err(f), Ok((nal_hrd, p)) => {
    match (if g.general_vcl_hrd_params_present_flag != 0 {
        read_some(sublayer_hrd_at(s, p, g))
    } else {
        Ok((None, p))
    })
    { Err(f) => Err(f), Ok((vcl_hrd, p)) => {
    Ok((
        VvcOlsTimingHrdSublayerModel {
            fixed_pic_rate_general_flag,
            fixed_pic_rate_within_cvs_flag,
            elemental_duration_in_tc_minus1,
            low_delay_hrd_flag,
            nal_hrd,
            vcl_hrd,
        },
        p,
    ))
    }}}}}}}
}

/// The bits `a` followed by one sublayer of ols_timing_hrd_parameters().
#[verifier::opaque]
pub open spec fn put_ols_sublayer(
    a: Seq<bool>,
    x: VvcOlsTimingHrdSublayerModel,
    g: VvcGeneralTimingHrd,
) -> Seq<bool> {
    let a = put_bit(a, x.fixed_pic_rate_general_flag as nat);
    let a = put_bit_if(a, x.fixed_pic_rate_within_cvs_flag as nat, x.fixed_pic_rate_general_flag == 0);
    let a = put_ue_if(a, x.elemental_duration_in_tc_minus1 as nat, x.fixed_pic_rate_within_cvs_flag != 0);
    let a = put_bit_if(
        a,
        x.low_delay_hrd_flag as nat,
        x.fixed_pic_rate_within_cvs_flag == 0
            && (g.general_nal_hrd_params_present_flag != 0 || g.general_vcl_hrd_params_present_flag != 0)
            && g.hrd_cpb_cnt_minus1 == 0,
    );
    let a = match x.nal_hrd { Some(y) => put_sublayer_hrd(a, y, g), None => a };
    let a = match x.vcl_hrd { Some(y) => put_sublayer_hrd(a, y, g), None => a };
    a
}

/// The values of one sublayer of ols_timing_hrd_parameters() that reading can
/// give.
#[verifier::opaque]
pub open spec fn ols_sublayer_ok(x: VvcOlsTimingHrdSublayerModel, g: VvcGeneralTimingHrd) -> bool {
    &&& fits(x.fixed_pic_rate_general_flag as nat, 1)
    &&& if x.fixed_pic_rate_general_flag == 0 {
        fits(x.fixed_pic_rate_within_cvs_flag as nat, 1)
    } else {
        x.fixed_pic_rate_within_cvs_flag == 1
    }
    &&& if x.fixed_pic_rate_within_cvs_flag != 0 {
        ue_fits(x.elemental_duration_in_tc_minus1 as nat)
    } else {
        x.elemental_duration_in_tc_minus1 == 0
    }
    &&& x.elemental_duration_in_tc_minus1 <= 2047
    &&& x.fixed_pic_rate_within_cvs_flag == 0 || x.elemental_duration_in_tc_minus1 <= 2047
    &&& if x.fixed_pic_rate_within_cvs_flag == 0
        && (g.general_nal_hrd_params_present_flag != 0 || g.general_vcl_hrd_params_present_flag != 0)
        && g.hrd_cpb_cnt_minus1 == 0 {
            fits(x.low_delay_hrd_flag as nat, 1)
        } else {
            x.low_delay_hrd_flag == 0
        }
    &&& x.nal_hrd is Some <==> (g.general_nal_hrd_params_present_flag != 0)
    &&& x.nal_hrd matches Some(y) ==> sublayer_hrd_ok(y, g)
    &&& x.vcl_hrd is Some <==> (g.general_vcl_hrd_params_present_flag != 0)
    &&& x.vcl_hrd matches Some(y) ==> sublayer_hrd_ok(y, g)
}

/// The values of one sublayer of ols_timing_hrd_parameters() that the writer
/// accepts.
#[verifier::opaque]
pub open spec fn ols_sublayer_can(x: VvcOlsTimingHrdSublayerModel, g: VvcGeneralTimingHrd) -> bool {
    &&& x.fixed_pic_rate_within_cvs_flag != 0 ==> ue_fits(x.elemental_duration_in_tc_minus1 as nat)
    &&& x.fixed_pic_rate_within_cvs_flag == 0 || x.elemental_duration_in_tc_minus1 <= 2047
    &&& x.nal_hrd is Some <==> (g.general_nal_hrd_params_present_flag != 0)
    &&& x.nal_hrd matches Some(y) ==> sublayer_hrd_can(y, g)
    &&& x.vcl_hrd is Some <==> (g.general_vcl_hrd_params_present_flag != 0)
    &&& x.vcl_hrd matches Some(y) ==> sublayer_hrd_can(y, g)
}

/// Parses one sublayer of ols_timing_hrd_parameters().
fn parse_ols_sublayer(
    r: &mut BitReader<'_>,
    g: &VvcGeneralTimingHrd,
) -> (res: Result<VvcOlsTimingHrdSublayer, BitstreamError>)
    ensures
        read_view_is(ols_sublayer_at(old(r).bits(), old(r).pos(), *g), res, *old(r), *final(r)),
{
    proof {
        reveal(ols_sublayer_at);
    }
    let fixed_pic_rate_general_flag: u8 = r.bit();
    let fixed_pic_rate_within_cvs_flag: u8 = r.bit_if(fixed_pic_rate_general_flag == 0, 1);
    let elemental_duration_in_tc_minus1: u32 = r.ue_if(fixed_pic_rate_within_cvs_flag != 0, 0)?;
    if elemental_duration_in_tc_minus1 > 2047 {
        return Err(
            Message::new("elemental_duration_in_tc_minus1 = ")
                .num(elemental_duration_in_tc_minus1 as i128)
                .with(" > 2047 (7.4.6.2)")
                .invalid(),
        );
    }
    let low_delay_hrd_flag: u8 = r.bit_if(
        fixed_pic_rate_within_cvs_flag == 0
            && (g.general_nal_hrd_params_present_flag != 0 || g.general_vcl_hrd_params_present_flag != 0)
            && g.hrd_cpb_cnt_minus1 == 0,
        0,
    );
    let nal_hrd = if g.general_nal_hrd_params_present_flag != 0 {
        Some(parse_sublayer_hrd(r, g)?)
    } else {
        None
    };
    let vcl_hrd = if g.general_vcl_hrd_params_present_flag != 0 {
        Some(parse_sublayer_hrd(r, g)?)
    } else {
        None
    };
    Ok(
        VvcOlsTimingHrdSublayer {
            fixed_pic_rate_general_flag,
            fixed_pic_rate_within_cvs_flag,
            elemental_duration_in_tc_minus1,
            low_delay_hrd_flag,
            nal_hrd,
            vcl_hrd,
        },
    )
}

/// Emits one sublayer of ols_timing_hrd_parameters(), the inverse of [`parse_ols_sublayer`].
fn write_ols_sublayer(
    w: &mut BitWriter,
    x: &VvcOlsTimingHrdSublayer,
    g: &VvcGeneralTimingHrd,
) -> (res: Result<(), BitstreamError>)
    ensures
        write_is(ols_sublayer_can(x@, *g), put_ols_sublayer(old(w)@, x@, *g), res, final(w)@),
{
    proof {
        reveal(put_ols_sublayer);
        reveal(ols_sublayer_can);
    }
    w.write_bit(x.fixed_pic_rate_general_flag as u32);
    w.write_bit_if(x.fixed_pic_rate_within_cvs_flag as u32, x.fixed_pic_rate_general_flag == 0);
    w.write_ue_if(x.elemental_duration_in_tc_minus1, x.fixed_pic_rate_within_cvs_flag != 0)?;
    if !(x.fixed_pic_rate_within_cvs_flag == 0 || x.elemental_duration_in_tc_minus1 <= 2047) {
        return Err(
            Message::new("elemental_duration_in_tc_minus1 = ")
                .num(x.elemental_duration_in_tc_minus1 as i128)
                .with(" > 2047 (7.4.6.2)")
                .invalid(),
        );
    }
    w.write_bit_if(
        x.low_delay_hrd_flag as u32,
        x.fixed_pic_rate_within_cvs_flag == 0
            && (g.general_nal_hrd_params_present_flag != 0 || g.general_vcl_hrd_params_present_flag != 0)
            && g.hrd_cpb_cnt_minus1 == 0,
    );
    if x.nal_hrd.is_some() != (g.general_nal_hrd_params_present_flag != 0) {
        return Err(
            BitstreamError::invalid(
                "NAL sublayer_hrd must be present iff general_nal_hrd_params_present_flag",
            ),
        );
    }
    if let Some(y) = &x.nal_hrd {
        write_sublayer_hrd(w, y, g)?;
    }
    if x.vcl_hrd.is_some() != (g.general_vcl_hrd_params_present_flag != 0) {
        return Err(
            BitstreamError::invalid(
                "VCL sublayer_hrd must be present iff general_vcl_hrd_params_present_flag",
            ),
        );
    }
    if let Some(y) = &x.vcl_hrd {
        write_sublayer_hrd(w, y, g)?;
    }
    Ok(())
}

/// Writing one sublayer of ols_timing_hrd_parameters() gives back the bits it
/// was read from.
pub broadcast proof fn law_put_ols_sublayer_at(s: Seq<bool>, p: nat, g: VvcGeneralTimingHrd)
    ensures
        #[trigger] ols_sublayer_at(s, p, g) matches Ok((x, q)) ==> {
            &&& ols_sublayer_ok(x, g)
            &&& ols_sublayer_can(x, g)
            &&& within(s, q) ==> within(s, p) && put_ols_sublayer(upto(s, p), x, g) == upto(s, q)
        },
{
    broadcast use {crate::bits::group_write_read, law_put_sublayer_hrd_at};

    reveal(ols_sublayer_at);
    reveal(put_ols_sublayer);
    reveal(ols_sublayer_ok);
    reveal(ols_sublayer_can);
}

/// Reading gives back one sublayer of ols_timing_hrd_parameters() as it was
/// written.
pub broadcast proof fn law_pre_put_ols_sublayer(
    a: Seq<bool>,
    x: VvcOlsTimingHrdSublayerModel,
    g: VvcGeneralTimingHrd,
    s: Seq<bool>,
)
    requires
        #[trigger] pre(put_ols_sublayer(a, x, g), s),
        ols_sublayer_ok(x, g),
    ensures
        pre(a, s),
        ols_sublayer_can(x, g),
        ols_sublayer_at(s, a.len(), g) == Ok::<(VvcOlsTimingHrdSublayerModel, nat), Fault>(
            (x, put_ols_sublayer(a, x, g).len()),
        ),
{
    broadcast use {crate::bits::group_read_written, law_pre_put_sublayer_hrd};

    reveal(ols_sublayer_at);
    reveal(put_ols_sublayer);
    reveal(ols_sublayer_ok);
    reveal(ols_sublayer_can);
}

/// The layout of one sublayer of ols_timing_hrd_parameters(): reading at `p`
/// gives `x` and ends at `q` if and only if these elements stand there in this
/// order, and the values are allowed.
pub proof fn law_layout_ols_sublayer(
    s: Seq<bool>,
    p: nat,
    g: VvcGeneralTimingHrd,
    x: VvcOlsTimingHrdSublayerModel,
    q: nat,
)
    ensures
        ols_sublayer_at(s, p, g) == Ok::<(VvcOlsTimingHrdSublayerModel, nat), Fault>((x, q)) <==> ({
            &&& cursor(s, p)
                .u8(1, x.fixed_pic_rate_general_flag)
                .u8_if(x.fixed_pic_rate_general_flag == 0, 1, x.fixed_pic_rate_within_cvs_flag, 1)
                .ue_if(x.fixed_pic_rate_within_cvs_flag != 0, x.elemental_duration_in_tc_minus1, 0)
                .u8_if(
                    x.fixed_pic_rate_within_cvs_flag == 0
                        && (
                            g.general_nal_hrd_params_present_flag != 0
                                || g.general_vcl_hrd_params_present_flag != 0
                        )
                        && g.hrd_cpb_cnt_minus1 == 0,
                    1,
                    x.low_delay_hrd_flag,
                    0,
                )
                .part_if(
                    g.general_nal_hrd_params_present_flag != 0,
                    |p: nat| sublayer_hrd_at(s, p, g),
                    x.nal_hrd,
                )
                .part_if(
                    g.general_vcl_hrd_params_present_flag != 0,
                    |p: nat| sublayer_hrd_at(s, p, g),
                    x.vcl_hrd,
                )
                .ends(q)
            &&& x.elemental_duration_in_tc_minus1 <= 2047
        }),
{
    reveal(ols_sublayer_at);
    reveal(adv_if);
    reveal(u8_if);
    reveal(ue_if);
}

/// Reading one sublayer of ols_timing_hrd_parameters() fails only with an error
/// of this class.
pub broadcast proof fn law_faults_ols_sublayer(s: Seq<bool>, p: nat, g: VvcGeneralTimingHrd)
    ensures
        #[trigger] ols_sublayer_at(s, p, g) matches Err(f) ==> f == Fault::Invalid,
{
    broadcast use {crate::bits::law_faults_ue, law_faults_sublayer_hrd};

    reveal(ols_sublayer_at);
    reveal(ue_if);
}

/// What the writer accepts reads back: one sublayer of
/// ols_timing_hrd_parameters(), where each field fits its width and what is not
/// coded has the value that is taken for it.
pub proof fn law_reads_ols_sublayer(
    a: Seq<bool>,
    x: VvcOlsTimingHrdSublayerModel,
    g: VvcGeneralTimingHrd,
    s: Seq<bool>,
)
    requires
        ols_sublayer_can(x, g),
        fits(x.fixed_pic_rate_general_flag as nat, 1),
        if x.fixed_pic_rate_general_flag == 0 {
            fits(x.fixed_pic_rate_within_cvs_flag as nat, 1)
        } else {
            x.fixed_pic_rate_within_cvs_flag == 1
        },
        !(x.fixed_pic_rate_within_cvs_flag != 0) ==> x.elemental_duration_in_tc_minus1 == 0,
        if x.fixed_pic_rate_within_cvs_flag == 0 && (g.general_nal_hrd_params_present_flag != 0 || g.general_vcl_hrd_params_present_flag != 0) && g.hrd_cpb_cnt_minus1 == 0 {
            fits(x.low_delay_hrd_flag as nat, 1)
        } else {
            x.low_delay_hrd_flag == 0
        },
        x.nal_hrd matches Some(y) ==> sublayer_hrd_ok(y, g),
        x.vcl_hrd matches Some(y) ==> sublayer_hrd_ok(y, g),
        pre(put_ols_sublayer(a, x, g), s),
    ensures
        ols_sublayer_at(s, a.len(), g) == Ok::<(VvcOlsTimingHrdSublayerModel, nat), Fault>(
            (x, put_ols_sublayer(a, x, g).len()),
        ),
{
    assert(ols_sublayer_ok(x, g)) by {
        broadcast use crate::bits::law_fits_small;

        reveal(ols_sublayer_ok);
        reveal(ols_sublayer_can);
    }
    law_pre_put_ols_sublayer(a, x, g, s);
}

/// Each field of the model of a [`VvcOlsTimingHrdSublayer`] is the field of that name.
pub proof fn law_view_ols_sublayer(x: VvcOlsTimingHrdSublayer)
    ensures
        x@.fixed_pic_rate_general_flag == x.fixed_pic_rate_general_flag,
        x@.fixed_pic_rate_within_cvs_flag == x.fixed_pic_rate_within_cvs_flag,
        x@.elemental_duration_in_tc_minus1 == x.elemental_duration_in_tc_minus1,
        x@.low_delay_hrd_flag == x.low_delay_hrd_flag,
        x@.nal_hrd == opt_view(x.nal_hrd),
        x@.vcl_hrd == opt_view(x.vcl_hrd),
{
}

/// Reads one sublayer of ols_timing_hrd_parameters(), behind the items before
/// it.
pub open spec fn ols_sublayers_item(
    s: Seq<bool>,
    g: VvcGeneralTimingHrd,
) -> spec_fn(Seq<VvcOlsTimingHrdSublayerModel>, nat) -> Read<VvcOlsTimingHrdSublayerModel> {
    |done: Seq<VvcOlsTimingHrdSublayerModel>, q: nat| ols_sublayer_at(s, q, g)
}

/// Writes one sublayer of ols_timing_hrd_parameters(), behind the items before
/// it.
pub open spec fn put_ols_sublayers_item(
    g: VvcGeneralTimingHrd,
) -> spec_fn(Seq<bool>, Seq<VvcOlsTimingHrdSublayerModel>, VvcOlsTimingHrdSublayerModel) -> Seq<bool> {
    |a: Seq<bool>, done: Seq<VvcOlsTimingHrdSublayerModel>, x: VvcOlsTimingHrdSublayerModel| put_ols_sublayer(a, x, g)
}

/// Whether one sublayer of ols_timing_hrd_parameters() may follow the items
/// before it.
pub open spec fn ols_sublayers_item_ok(
    g: VvcGeneralTimingHrd,
) -> spec_fn(Seq<VvcOlsTimingHrdSublayerModel>, VvcOlsTimingHrdSublayerModel) -> bool {
    |done: Seq<VvcOlsTimingHrdSublayerModel>, x: VvcOlsTimingHrdSublayerModel| ols_sublayer_ok(x, g)
        && ols_sublayer_can(x, g)
}

/// `n` items at position `p`, each one sublayer of ols_timing_hrd_parameters().
#[verifier::opaque]
pub open spec fn ols_sublayers_at(
    s: Seq<bool>,
    p: nat,
    g: VvcGeneralTimingHrd,
    n: u64,
) -> Read<Seq<VvcOlsTimingHrdSublayerModel>> {
    rep_at(ols_sublayers_item(s, g), p, n as nat)
}

/// The bits `a` followed by the items.
#[verifier::opaque]
pub open spec fn put_ols_sublayers(
    a: Seq<bool>,
    xs: Seq<VvcOlsTimingHrdSublayerModel>,
    g: VvcGeneralTimingHrd,
    n: u64,
) -> Seq<bool> {
    put_rep(put_ols_sublayers_item(g), a, xs)
}

/// `n` items that reading can give.
#[verifier::opaque]
pub open spec fn ols_sublayers_ok(
    xs: Seq<VvcOlsTimingHrdSublayerModel>,
    g: VvcGeneralTimingHrd,
    n: u64,
) -> bool {
    xs.len() == n
        && forall|i: int| 0 <= i < xs.len()
        ==> ols_sublayer_ok(#[trigger] xs[i], g)
        && ols_sublayer_can(xs[i], g)
}

/// `n` items that the writer accepts.
#[verifier::opaque]
pub open spec fn ols_sublayers_can(
    xs: Seq<VvcOlsTimingHrdSublayerModel>,
    g: VvcGeneralTimingHrd,
    n: u64,
) -> bool {
    xs.len() == n && forall|i: int| 0 <= i < xs.len() ==> ols_sublayer_can(#[trigger] xs[i], g)
}

/// Parses `n` items, each one sublayer of ols_timing_hrd_parameters().
fn parse_ols_sublayers(
    r: &mut BitReader<'_>,
    g: &VvcGeneralTimingHrd,
    n: u64,
) -> (res: Result<Vec<VvcOlsTimingHrdSublayer>, BitstreamError>)
    ensures
        read_seq_is(ols_sublayers_at(old(r).bits(), old(r).pos(), *g, n), res, *old(r), *final(r)),
        res matches Ok(v) ==> v@.len() == n,
{
    let ghost s = r.bits();
    let ghost p = r.pos();
    let ghost reads = ols_sublayers_item(s, *g);
    let mut xs: Vec<VvcOlsTimingHrdSublayer> = Vec::new();
    let mut i: u64 = 0;
    proof {
        reveal(ols_sublayers_at);
        assert(seq_view(xs@) =~= Seq::empty());
    }
    while i < n
        invariant
            i <= n,
            xs@.len() == i,
            reads == ols_sublayers_item(s, *g),
            s == r.bits(),
            s == old(r).bits(),
            p == old(r).pos(),
            r.bytes() == old(r).bytes(),
            rep_at(reads, p, i as nat) == Ok::<(
                Seq<VvcOlsTimingHrdSublayerModel>,
                nat,
            ), Fault>((seq_view(xs@), r.pos())),
        decreases n - i,
    {
        match parse_ols_sublayer(r, g) {
            Ok(x) => {
                proof {
                lemma_seq_view_push(xs@, x);
            }
            xs.push(x);
            },
            Err(e) => {
                proof {
                    reveal(ols_sublayers_at);
                    lemma_rep_err(reads, p, (i + 1) as nat, n as nat);
                }
                return Err(e);
            },
        }
        i = i + 1;
    }
    Ok(xs)
}

/// Emits `n` items, each one sublayer of ols_timing_hrd_parameters().
fn write_ols_sublayers(
    w: &mut BitWriter,
    xs: &Vec<VvcOlsTimingHrdSublayer>,
    g: &VvcGeneralTimingHrd,
    n: u64,
) -> (res: Result<(), BitstreamError>)
    ensures
        write_is(
            ols_sublayers_can(seq_view(xs@), *g, n),
            put_ols_sublayers(old(w)@, seq_view(xs@), *g, n),
            res,
            final(w)@,
        ),
        res is Ok ==> xs@.len() == n,
{
    let ghost before = w@;
    let ghost puts = put_ols_sublayers_item(*g);
    let ghost ys = seq_view(xs@);
    proof {
        reveal(put_ols_sublayers);
        reveal(ols_sublayers_can);
        assert(ys.take(0) =~= Seq::empty());
    }
    if xs.len() as u64 != n {
        return Err(
            Message::new("ols_timing_hrd_parameters sublayer count ")
                .num(xs.len() as i128)
                .with(" != walked count ")
                .num(n as i128)
                .invalid(),
        );
    }
    let mut i: usize = 0;
    while i < xs.len()
        invariant
            i <= xs@.len(),
            xs@.len() == n,
            ys == seq_view(xs@),
            ys.len() == xs@.len(),
            before == old(w)@,
            puts == put_ols_sublayers_item(*g),
            w@ == put_rep(puts, before, ys.take(i as int)),
            forall|j: int| 0 <= j < i ==> ols_sublayer_can(#[trigger] ys[j], *g),
        ensures
            i == xs@.len(),
        decreases xs@.len() - i,
    {
        proof {
            assert(ys.take(i + 1).drop_last() =~= ys.take(i as int));
            assert(ys[i as int] == xs@[i as int]@);
        }
        match write_ols_sublayer(w, &xs[i], g) {
            Ok(()) => {},
            Err(e) => {
                proof {
                    reveal(ols_sublayers_can);
                }
                return Err(e);
            },
        }
        i = i + 1;
    }
    proof {
        assert(ys.take(i as int) =~= ys);
    }
    Ok(())
}

/// Writing what was read gives back the bits that were read.
pub broadcast proof fn law_put_ols_sublayers_at(s: Seq<bool>, p: nat, g: VvcGeneralTimingHrd, n: u64)
    ensures
        #[trigger] ols_sublayers_at(s, p, g, n) matches Ok((xs, q)) ==> {
            &&& xs.len() == n
            &&& ols_sublayers_ok(xs, g, n)
            &&& ols_sublayers_can(xs, g, n)
            &&& within(s, q) ==> within(s, p) && put_ols_sublayers(upto(s, p), xs, g, n) == upto(s, q)
        },
{
    broadcast use law_put_ols_sublayer_at;

    reveal(ols_sublayers_at);
    reveal(put_ols_sublayers);
    reveal(ols_sublayers_ok);
    reveal(ols_sublayers_can);
    let ok = ols_sublayers_item_ok(g);
    law_put_rep_at(s, ols_sublayers_item(s, g), put_ols_sublayers_item(g), ok, p, n as nat);
    if let Ok((xs, q)) = ols_sublayers_at(s, p, g, n) {
        assert forall|i: int| 0 <= i < xs.len() implies ok(xs.take(i), #[trigger] xs[i]) by {}
    }
}

/// What was written reads back as the items that were written.
pub broadcast proof fn law_pre_put_ols_sublayers(
    a: Seq<bool>,
    xs: Seq<VvcOlsTimingHrdSublayerModel>,
    g: VvcGeneralTimingHrd,
    n: u64,
    s: Seq<bool>,
)
    requires
        #[trigger] pre(put_ols_sublayers(a, xs, g, n), s),
        ols_sublayers_ok(xs, g, n),
    ensures
        pre(a, s),
        ols_sublayers_can(xs, g, n),
        ols_sublayers_at(s, a.len(), g, n) == Ok::<(Seq<VvcOlsTimingHrdSublayerModel>, nat), Fault>(
            (xs, put_ols_sublayers(a, xs, g, n).len()),
        ),
{
    broadcast use law_pre_put_ols_sublayer;

    reveal(ols_sublayers_at);
    reveal(put_ols_sublayers);
    reveal(ols_sublayers_ok);
    reveal(ols_sublayers_can);
    law_rep_at_put(s, ols_sublayers_item(s, g), put_ols_sublayers_item(g), ols_sublayers_item_ok(g), a, xs);
}

/// `n` items stand one behind the other: `n - 1` items, and then one sublayer
/// of ols_timing_hrd_parameters().
pub proof fn law_layout_ols_sublayers(
    s: Seq<bool>,
    p: nat,
    g: VvcGeneralTimingHrd,
    n: u64,
    xs: Seq<VvcOlsTimingHrdSublayerModel>,
    q: nat,
)
    ensures
        ols_sublayers_at(s, p, g, n) == Ok::<(Seq<VvcOlsTimingHrdSublayerModel>, nat), Fault>((xs, q)) <==> if n == 0 {
            xs.len() == 0 && q == p
        } else {
            &&& xs.len() == n
            &&& cursor(s, p)
                .part(|p: nat| ols_sublayers_at(s, p, g, (n - 1) as u64), xs.drop_last())
                .part(|p: nat| ols_sublayer_at(s, p, g), xs.last())
                .ends(q)
        },
{
    reveal(ols_sublayers_at);
    lemma_rep_step(ols_sublayers_item(s, g), p, n as nat);
    if xs.len() == 0 {
        assert(xs =~= Seq::empty());
    } else {
        assert(xs =~= xs.drop_last().push(xs.last()));
    }
    if n > 0 {
        if let Ok((done, r)) = rep_at(ols_sublayers_item(s, g), p, (n - 1) as nat) {
            if let Ok((y, z)) = ols_sublayers_item(s, g)(done, r) {
                assert(done.push(y).drop_last() =~= done);
            }
        }
    }
}

/// What the writer accepts as `n` items reads back, where each of them is one that
/// reading can give.
pub proof fn law_reads_ols_sublayers(
    a: Seq<bool>,
    xs: Seq<VvcOlsTimingHrdSublayerModel>,
    g: VvcGeneralTimingHrd,
    n: u64,
    s: Seq<bool>,
)
    requires
        ols_sublayers_can(xs, g, n),
        forall|i: int| 0 <= i < xs.len() ==> ols_sublayer_ok(#[trigger] xs[i], g),
        pre(put_ols_sublayers(a, xs, g, n), s),
    ensures
        xs.len() == n,
        ols_sublayers_at(s, a.len(), g, n) == Ok::<(Seq<VvcOlsTimingHrdSublayerModel>, nat), Fault>(
            (xs, put_ols_sublayers(a, xs, g, n).len()),
        ),
{
    reveal(ols_sublayers_can);
    assert(ols_sublayers_ok(xs, g, n)) by {
        reveal(ols_sublayers_ok);
    }
    law_pre_put_ols_sublayers(a, xs, g, n, s);
}

/// Reading the items fails only with an error of this class.
pub broadcast proof fn law_faults_ols_sublayers(s: Seq<bool>, p: nat, g: VvcGeneralTimingHrd, n: u64)
    ensures
        #[trigger] ols_sublayers_at(s, p, g, n) matches Err(f) ==> f == Fault::Invalid,
{
    broadcast use law_faults_ols_sublayer;

    reveal(ols_sublayers_at);
    let f = ols_sublayers_item(s, g);
    assert forall|done: Seq<VvcOlsTimingHrdSublayerModel>, q: nat| (#[trigger] f(done, q)) matches Err(e)
        ==> e == Fault::Invalid by {}
    lemma_rep_faults(f, p, n as nat, |f: Fault| f == Fault::Invalid);
}

/// The mathematical model of a [`VvcOlsTimingHrd`].
pub struct VvcOlsTimingHrdModel {
    pub sublayers: Seq<VvcOlsTimingHrdSublayerModel>,
}

impl View for VvcOlsTimingHrd {
    type V = VvcOlsTimingHrdModel;

    open spec fn view(&self) -> VvcOlsTimingHrdModel {
        VvcOlsTimingHrdModel {
            sublayers: seq_view(self.sublayers@),
        }
    }
}

/// ols_timing_hrd_parameters() at position `p`.
#[verifier::opaque]
pub open spec fn ols_timing_hrd_at(
    s: Seq<bool>,
    p: nat,
    first_sublayer: u32,
    max_sublayers_val: u32,
    g: VvcGeneralTimingHrd,
) -> Read<VvcOlsTimingHrdModel> {
    let n = (max_sublayers_val - first_sublayer + 1) as u64;
    match ols_sublayers_at(s, p, g, n) { Err(f) => Err(f), Ok((sublayers, p)) => {
    Ok((VvcOlsTimingHrdModel { sublayers }, p))
    }}
}

/// The bits `a` followed by ols_timing_hrd_parameters().
#[verifier::opaque]
pub open spec fn put_ols_timing_hrd(
    a: Seq<bool>,
    x: VvcOlsTimingHrdModel,
    first_sublayer: u32,
    max_sublayers_val: u32,
    g: VvcGeneralTimingHrd,
) -> Seq<bool> {
    let n = (max_sublayers_val - first_sublayer + 1) as u64;
    let a = put_ols_sublayers(a, x.sublayers, g, n);
    a
}

/// The values of ols_timing_hrd_parameters() that reading can give.
#[verifier::opaque]
pub open spec fn ols_timing_hrd_ok(
    x: VvcOlsTimingHrdModel,
    first_sublayer: u32,
    max_sublayers_val: u32,
    g: VvcGeneralTimingHrd,
) -> bool {
    let n = (max_sublayers_val - first_sublayer + 1) as u64;
    &&& ols_sublayers_ok(x.sublayers, g, n)
}

/// The values of ols_timing_hrd_parameters() that the writer accepts.
#[verifier::opaque]
pub open spec fn ols_timing_hrd_can(
    x: VvcOlsTimingHrdModel,
    first_sublayer: u32,
    max_sublayers_val: u32,
    g: VvcGeneralTimingHrd,
) -> bool {
    let n = (max_sublayers_val - first_sublayer + 1) as u64;
    &&& ols_sublayers_can(x.sublayers, g, n)
}

/// Parse an `ols_timing_hrd_parameters()` structure. `g` must be the
/// `general_timing_hrd_parameters()` that precedes it in the SPS/VPS.
pub fn parse_ols_timing_hrd(
    r: &mut BitReader<'_>,
    first_sublayer: u32,
    max_sublayers_val: u32,
    g: &VvcGeneralTimingHrd,
) -> (res: Result<VvcOlsTimingHrd, BitstreamError>)
    requires
        first_sublayer <= max_sublayers_val,
    ensures
        read_view_is(
            ols_timing_hrd_at(old(r).bits(), old(r).pos(), first_sublayer, max_sublayers_val, *g),
            res,
            *old(r),
            *final(r),
        ),
{
    proof {
        reveal(ols_timing_hrd_at);
    }
    let n: u64 = (max_sublayers_val - first_sublayer) as u64 + 1;
    let sublayers = parse_ols_sublayers(r, g, n)?;
    Ok(VvcOlsTimingHrd { sublayers })
}

/// Emit an `ols_timing_hrd_parameters()` structure, the byte-exact
/// inverse of [`parse_ols_timing_hrd`] on the same context.
pub fn write_ols_timing_hrd(
    w: &mut BitWriter,
    x: &VvcOlsTimingHrd,
    first_sublayer: u32,
    max_sublayers_val: u32,
    g: &VvcGeneralTimingHrd,
) -> (res: Result<(), BitstreamError>)
    requires
        first_sublayer <= max_sublayers_val,
    ensures
        write_is(
            ols_timing_hrd_can(x@, first_sublayer, max_sublayers_val, *g),
            put_ols_timing_hrd(old(w)@, x@, first_sublayer, max_sublayers_val, *g),
            res,
            final(w)@,
        ),
{
    proof {
        reveal(put_ols_timing_hrd);
        reveal(ols_timing_hrd_can);
    }
    let n: u64 = (max_sublayers_val - first_sublayer) as u64 + 1;
    write_ols_sublayers(w, &x.sublayers, g, n)?;
    Ok(())
}

/// Writing ols_timing_hrd_parameters() gives back the bits it was read from.
pub broadcast proof fn law_put_ols_timing_hrd_at(
    s: Seq<bool>,
    p: nat,
    first_sublayer: u32,
    max_sublayers_val: u32,
    g: VvcGeneralTimingHrd,
)
    ensures
        #[trigger] ols_timing_hrd_at(s, p, first_sublayer, max_sublayers_val, g) matches Ok((x, q)) ==> {
            &&& ols_timing_hrd_ok(x, first_sublayer, max_sublayers_val, g)
            &&& ols_timing_hrd_can(x, first_sublayer, max_sublayers_val, g)
            &&& within(s, q)
                ==> within(s, p)
                && put_ols_timing_hrd(upto(s, p), x, first_sublayer, max_sublayers_val, g) == upto(s, q)
        },
{
    broadcast use {crate::bits::group_write_read, law_put_ols_sublayers_at};

    reveal(ols_timing_hrd_at);
    reveal(put_ols_timing_hrd);
    reveal(ols_timing_hrd_ok);
    reveal(ols_timing_hrd_can);
}

/// Reading gives back ols_timing_hrd_parameters() as it was written.
pub broadcast proof fn law_pre_put_ols_timing_hrd(
    a: Seq<bool>,
    x: VvcOlsTimingHrdModel,
    first_sublayer: u32,
    max_sublayers_val: u32,
    g: VvcGeneralTimingHrd,
    s: Seq<bool>,
)
    requires
        #[trigger] pre(put_ols_timing_hrd(a, x, first_sublayer, max_sublayers_val, g), s),
        ols_timing_hrd_ok(x, first_sublayer, max_sublayers_val, g),
    ensures
        pre(a, s),
        ols_timing_hrd_can(x, first_sublayer, max_sublayers_val, g),
        ols_timing_hrd_at(s, a.len(), first_sublayer, max_sublayers_val, g) == Ok::<(VvcOlsTimingHrdModel, nat), Fault>(
            (x, put_ols_timing_hrd(a, x, first_sublayer, max_sublayers_val, g).len()),
        ),
{
    broadcast use {crate::bits::group_read_written, law_pre_put_ols_sublayers};

    reveal(ols_timing_hrd_at);
    reveal(put_ols_timing_hrd);
    reveal(ols_timing_hrd_ok);
    reveal(ols_timing_hrd_can);
}

/// The layout of ols_timing_hrd_parameters(): reading at `p` gives `x` and ends
/// at `q` if and only if these elements stand there in this order.
pub proof fn law_layout_ols_timing_hrd(
    s: Seq<bool>,
    p: nat,
    first_sublayer: u32,
    max_sublayers_val: u32,
    g: VvcGeneralTimingHrd,
    x: VvcOlsTimingHrdModel,
    q: nat,
)
    ensures
        ols_timing_hrd_at(s, p, first_sublayer, max_sublayers_val, g) == Ok::<(VvcOlsTimingHrdModel, nat), Fault>((x, q)) <==> ({
            let n = (max_sublayers_val - first_sublayer + 1) as u64;
            &&& cursor(s, p).part(|p: nat| ols_sublayers_at(s, p, g, n), x.sublayers).ends(q)
        }),
{
    reveal(ols_timing_hrd_at);
}

/// Reading ols_timing_hrd_parameters() fails only with an error of this class.
pub broadcast proof fn law_faults_ols_timing_hrd(
    s: Seq<bool>,
    p: nat,
    first_sublayer: u32,
    max_sublayers_val: u32,
    g: VvcGeneralTimingHrd,
)
    ensures
        #[trigger] ols_timing_hrd_at(s, p, first_sublayer, max_sublayers_val, g) matches Err(f)
            ==> f == Fault::Invalid,
{
    broadcast use law_faults_ols_sublayers;

    reveal(ols_timing_hrd_at);
}

/// What the writer accepts reads back: ols_timing_hrd_parameters(), where each
/// field fits its width and what is not coded has the value that is taken for
/// it.
pub proof fn law_reads_ols_timing_hrd(
    a: Seq<bool>,
    x: VvcOlsTimingHrdModel,
    first_sublayer: u32,
    max_sublayers_val: u32,
    g: VvcGeneralTimingHrd,
    s: Seq<bool>,
)
    requires
        ols_timing_hrd_can(x, first_sublayer, max_sublayers_val, g),
        ({
            let n = (max_sublayers_val - first_sublayer + 1) as u64;
            &&& ols_sublayers_ok(x.sublayers, g, n)
        }),
        pre(put_ols_timing_hrd(a, x, first_sublayer, max_sublayers_val, g), s),
    ensures
        ols_timing_hrd_at(s, a.len(), first_sublayer, max_sublayers_val, g) == Ok::<(VvcOlsTimingHrdModel, nat), Fault>(
            (x, put_ols_timing_hrd(a, x, first_sublayer, max_sublayers_val, g).len()),
        ),
{
    assert(ols_timing_hrd_ok(x, first_sublayer, max_sublayers_val, g)) by {
        broadcast use crate::bits::law_fits_small;

        reveal(ols_timing_hrd_ok);
        reveal(ols_timing_hrd_can);
    }
    law_pre_put_ols_timing_hrd(a, x, first_sublayer, max_sublayers_val, g, s);
}

/// Each field of the model of a [`VvcOlsTimingHrd`] is the field of that name.
pub proof fn law_view_ols_timing_hrd(x: VvcOlsTimingHrd)
    ensures
        x@.sublayers == seq_view(x.sublayers@),
{
}

// ──────────────── ref_pic_list_struct (7.3.10) ──────────────────────────────

/// One entry of a `ref_pic_list_struct()` (§7.3.10 / §7.4.11).
#[derive(Debug, Clone, Copy, PartialEq, Eq)]
pub enum VvcRplsEntry {
    /// Short-term reference picture: `abs_delta_poc_st` ue(v) 0..=2¹⁵−1
    /// plus `strp_entry_sign_flag` (coded only when the derived
    /// `AbsDeltaPocSt > 0`; inferred 0 otherwise).
    ShortTerm {
        abs_delta_poc_st: u32,
        strp_entry_sign_flag: u8,
    },
    /// Long-term reference picture. `rpls_poc_lsb_lt` (u(v),
    /// `sps_log2_max_pic_order_cnt_lsb_minus4 + 4` bits) is `None`
    /// when `ltrp_in_header_flag = 1` (the POC LSBs then travel in the
    /// PH / slice header instead).
    LongTerm { rpls_poc_lsb_lt: Option<u32> },
    /// Inter-layer reference picture: `ilrp_idx` ue(v).
    InterLayer { ilrp_idx: u32 },
}

/// A parsed `ref_pic_list_struct(listIdx, rplsIdx)` (§7.3.10).
#[derive(Debug, Clone, PartialEq, Eq, Default)]
pub struct VvcRefPicListStruct {
    /// `ltrp_in_header_flag` — coded only when
    /// `sps_long_term_ref_pics_flag`, `rplsIdx <
    /// sps_num_ref_pic_lists[listIdx]` and `num_ref_entries > 0`;
    /// inferred 1 for the PH/SH-coded extra structure (§7.4.11).
    pub ltrp_in_header_flag: u8,
    /// The `num_ref_entries` entries in coded order.
    pub entries: Vec<VvcRplsEntry>,
}

/// Context the syntax threads into `ref_pic_list_struct()` from the SPS.
#[derive(Debug, Clone, Copy)]
pub struct VvcRplsContext {
    /// `sps_long_term_ref_pics_flag`.
    pub long_term_ref_pics: bool,
    /// `sps_inter_layer_prediction_enabled_flag`.
    pub inter_layer_prediction: bool,
    /// True when `rplsIdx < sps_num_ref_pic_lists[listIdx]` (always
    /// the case for the SPS-coded template lists; false only for the
    /// extra PH/SH-coded structure).
    pub in_sps_list: bool,
}

/// Bound on `num_ref_entries` (§7.4.11): `MaxDpbSize + 13` with
/// `MaxDpbSize ≤ 16` (§A.4.2).
pub const VVC_NUM_REF_ENTRIES_MAX: u32 = 29;

/// One entry of a ref_pic_list_struct() at position `p`.
#[verifier::opaque]
pub open spec fn rpls_entry_at(
    s: Seq<bool>,
    p: nat,
    ctx: VvcRplsContext,
    ltrp_in_header_flag: u8,
    poc_lsb_bits: u32,
) -> Read<VvcRplsEntry> {
    let inter_layer = flag_if(s, p, ctx.inter_layer_prediction, false);
    let p = adv_if(p, 1, ctx.inter_layer_prediction);
    if inter_layer {
        match ue_at(s, p) {
            Err(f) => Err(f),
            Ok((ilrp_idx, p)) => Ok((VvcRplsEntry::InterLayer { ilrp_idx }, p)),
        }
    } else {
        let st = flag_if(s, p, ctx.long_term_ref_pics, true);
        let p = adv_if(p, 1, ctx.long_term_ref_pics);
        if st {
            match ue_at(s, p) {
                Err(f) => Err(f),
                Ok((abs_delta_poc_st, p)) => if abs_delta_poc_st > 32767 {
                    Err(Fault::Invalid)
                } else {
                    let sign = u8_if(s, p, 1, abs_delta_poc_st > 0, 0);
                    let p = adv_if(p, 1, abs_delta_poc_st > 0);
                    Ok((VvcRplsEntry::ShortTerm { abs_delta_poc_st, strp_entry_sign_flag: sign }, p))
                },
            }
        } else if ltrp_in_header_flag == 0 && poc_lsb_bits > 32 {
            Err(Fault::Invalid)
        } else if ltrp_in_header_flag == 0 {
            let lsb = u32_at(s, p, poc_lsb_bits as nat);
            Ok(
                (
                    VvcRplsEntry::LongTerm { rpls_poc_lsb_lt: Some(lsb) },
                    adv(p, poc_lsb_bits as nat),
                ),
            )
        } else {
            Ok((VvcRplsEntry::LongTerm { rpls_poc_lsb_lt: None }, p))
        }
    }
}

/// Writes the entry.
#[verifier::opaque]
pub open spec fn put_rpls_entry(
    a: Seq<bool>,
    x: VvcRplsEntry,
    ctx: VvcRplsContext,
    ltrp_in_header_flag: u8,
    poc_lsb_bits: u32,
) -> Seq<bool> {
    let a = put_flag_if(a, x is InterLayer, ctx.inter_layer_prediction);
    match x {
        VvcRplsEntry::InterLayer { ilrp_idx } => put_ue(a, ilrp_idx as nat),
        VvcRplsEntry::ShortTerm { abs_delta_poc_st, strp_entry_sign_flag } => {
            let a = put_flag_if(a, true, ctx.long_term_ref_pics);
            let a = put_ue(a, abs_delta_poc_st as nat);
            put_bit_if(a, strp_entry_sign_flag as nat, abs_delta_poc_st > 0)
        },
        VvcRplsEntry::LongTerm { rpls_poc_lsb_lt } => {
            let a = put_flag_if(a, false, ctx.long_term_ref_pics);
            match rpls_poc_lsb_lt {
                Some(v) => put_u(a, v as nat, poc_lsb_bits as nat),
                None => a,
            }
        },
    }
}

/// A value that reading can give.
#[verifier::opaque]
pub open spec fn rpls_entry_ok(
    x: VvcRplsEntry,
    ctx: VvcRplsContext,
    ltrp_in_header_flag: u8,
    poc_lsb_bits: u32,
) -> bool {
    match x {
        VvcRplsEntry::InterLayer { ilrp_idx } => ctx.inter_layer_prediction && ue_fits(
            ilrp_idx as nat,
        ),
        VvcRplsEntry::ShortTerm { abs_delta_poc_st, strp_entry_sign_flag } => abs_delta_poc_st
            <= 32767 && if abs_delta_poc_st > 0 {
            fits(strp_entry_sign_flag as nat, 1)
        } else {
            strp_entry_sign_flag == 0
        },
        VvcRplsEntry::LongTerm { rpls_poc_lsb_lt } => ctx.long_term_ref_pics && (
        rpls_poc_lsb_lt is Some <==> ltrp_in_header_flag == 0) && (rpls_poc_lsb_lt matches Some(v)
            ==> poc_lsb_bits <= 32 && fits(v as nat, poc_lsb_bits as nat)),
    }
}

/// A value that the writer accepts.
#[verifier::opaque]
pub open spec fn rpls_entry_can(
    x: VvcRplsEntry,
    ctx: VvcRplsContext,
    ltrp_in_header_flag: u8,
    poc_lsb_bits: u32,
) -> bool {
    match x {
        VvcRplsEntry::InterLayer { ilrp_idx } => ctx.inter_layer_prediction && ue_fits(
            ilrp_idx as nat,
        ),
        VvcRplsEntry::ShortTerm { abs_delta_poc_st, strp_entry_sign_flag } => abs_delta_poc_st
            <= 32767,
        VvcRplsEntry::LongTerm { rpls_poc_lsb_lt } => ctx.long_term_ref_pics && (
        rpls_poc_lsb_lt is Some <==> ltrp_in_header_flag == 0) && (rpls_poc_lsb_lt matches Some(v)
            ==> poc_lsb_bits <= 32 && fits(v as nat, poc_lsb_bits as nat)),
    }
}

/// Parses one entry.
fn parse_rpls_entry(
    r: &mut BitReader<'_>,
    ctx: &VvcRplsContext,
    ltrp_in_header_flag: u8,
    poc_lsb_bits: u32,
) -> (res: Result<VvcRplsEntry, BitstreamError>)
    ensures
        read_is(
            rpls_entry_at(old(r).bits(), old(r).pos(), *ctx, ltrp_in_header_flag, poc_lsb_bits),
            res,
            *old(r),
            *final(r),
        ),
{
    proof {
        reveal(rpls_entry_at);
    }
    let inter_layer: bool = r.flag_if(ctx.inter_layer_prediction, false);
    if inter_layer {
        let ilrp_idx: u32 = r.ue()?;
        return Ok(VvcRplsEntry::InterLayer { ilrp_idx });
    }
    let st: bool = r.flag_if(ctx.long_term_ref_pics, true);
    if st {
        let abs_delta_poc_st: u32 = r.ue()?;
        if abs_delta_poc_st > 32767 {
            return Err(
                Message::new("abs_delta_poc_st = ")
                    .num(abs_delta_poc_st as i128)
                    .with(" > 2^15 - 1 (7.4.11)")
                    .invalid(),
            );
        }
        let strp_entry_sign_flag: u8 = r.bit_if(abs_delta_poc_st > 0, 0);
        Ok(VvcRplsEntry::ShortTerm { abs_delta_poc_st, strp_entry_sign_flag })
    } else if ltrp_in_header_flag == 0 {
        if poc_lsb_bits > 32 {
            return Err(
                Message::new("rpls_poc_lsb_lt cannot be u(").num(poc_lsb_bits as i128).with(")").invalid(),
            );
        }
        Ok(VvcRplsEntry::LongTerm { rpls_poc_lsb_lt: Some(r.u(poc_lsb_bits)) })
    } else {
        Ok(VvcRplsEntry::LongTerm { rpls_poc_lsb_lt: None })
    }
}

/// Emits one entry.
fn write_rpls_entry(
    w: &mut BitWriter,
    x: &VvcRplsEntry,
    ctx: &VvcRplsContext,
    ltrp_in_header_flag: u8,
    poc_lsb_bits: u32,
) -> (res: Result<(), BitstreamError>)
    ensures
        write_is(
            rpls_entry_can(*x, *ctx, ltrp_in_header_flag, poc_lsb_bits),
            put_rpls_entry(old(w)@, *x, *ctx, ltrp_in_header_flag, poc_lsb_bits),
            res,
            final(w)@,
        ),
{
    proof {
        reveal(put_rpls_entry);
        reveal(rpls_entry_can);
    }
    match x {
        VvcRplsEntry::InterLayer { ilrp_idx } => {
            if !ctx.inter_layer_prediction {
                return Err(
                    BitstreamError::invalid(
                        "inter-layer RPLS entry without sps_inter_layer_prediction_enabled_flag",
                    ),
                );
            }
            w.write_flag_if(true, ctx.inter_layer_prediction);
            w.write_ue(*ilrp_idx)
        },
        VvcRplsEntry::ShortTerm { abs_delta_poc_st, strp_entry_sign_flag } => {
            w.write_flag_if(false, ctx.inter_layer_prediction);
            w.write_flag_if(true, ctx.long_term_ref_pics);
            if *abs_delta_poc_st > 32767 {
                return Err(
                    Message::new("abs_delta_poc_st = ")
                        .num((*abs_delta_poc_st) as i128)
                        .with(" > 2^15 - 1 (7.4.11)")
                        .invalid(),
                );
            }
            w.write_ue(*abs_delta_poc_st)?;
            w.write_bit_if(*strp_entry_sign_flag as u32, *abs_delta_poc_st > 0);
            Ok(())
        },
        VvcRplsEntry::LongTerm { rpls_poc_lsb_lt } => {
            w.write_flag_if(false, ctx.inter_layer_prediction);
            if !ctx.long_term_ref_pics {
                return Err(
                    BitstreamError::invalid(
                        "long-term RPLS entry without sps_long_term_ref_pics_flag",
                    ),
                );
            }
            w.write_flag_if(false, ctx.long_term_ref_pics);
            if rpls_poc_lsb_lt.is_some() != (ltrp_in_header_flag == 0) {
                return Err(
                    BitstreamError::invalid(
                        "rpls_poc_lsb_lt must be present iff ltrp_in_header_flag == 0",
                    ),
                );
            }
            if let Some(v) = rpls_poc_lsb_lt {
                if poc_lsb_bits > 32 {
                    return Err(
                        Message::new("rpls_poc_lsb_lt cannot be u(")
                            .num(poc_lsb_bits as i128)
                            .with(")")
                            .invalid(),
                    );
                }
                if !fits_bits(*v, poc_lsb_bits) {
                    return Err(
                        Message::new("rpls_poc_lsb_lt = ")
                            .num((*v) as i128)
                            .with(" does not fit u(")
                            .num(poc_lsb_bits as i128)
                            .with(")")
                            .invalid(),
                    );
                }
                w.write_bits(*v, poc_lsb_bits);
            }
            Ok(())
        },
    }
}

/// Writing what was read gives back the bits that were read.
pub broadcast proof fn law_put_rpls_entry_at(
    s: Seq<bool>,
    p: nat,
    ctx: VvcRplsContext,
    ltrp_in_header_flag: u8,
    poc_lsb_bits: u32,
)
    ensures
        #[trigger] rpls_entry_at(s, p, ctx, ltrp_in_header_flag, poc_lsb_bits) matches Ok((x, q))
            ==> {
            &&& rpls_entry_ok(x, ctx, ltrp_in_header_flag, poc_lsb_bits)
            &&& rpls_entry_can(x, ctx, ltrp_in_header_flag, poc_lsb_bits)
            &&& within(s, q) ==> within(s, p) && put_rpls_entry(
                upto(s, p),
                x,
                ctx,
                ltrp_in_header_flag,
                poc_lsb_bits,
            ) == upto(s, q)
        },
{
    broadcast use crate::bits::group_write_read;

    reveal(rpls_entry_at);
    reveal(put_rpls_entry);
    reveal(rpls_entry_ok);
    reveal(rpls_entry_can);
}

/// What was written reads back as the value that was written.
pub broadcast proof fn law_pre_put_rpls_entry(
    a: Seq<bool>,
    x: VvcRplsEntry,
    ctx: VvcRplsContext,
    ltrp_in_header_flag: u8,
    poc_lsb_bits: u32,
    s: Seq<bool>,
)
    requires
        #[trigger] pre(put_rpls_entry(a, x, ctx, ltrp_in_header_flag, poc_lsb_bits), s),
        rpls_entry_ok(x, ctx, ltrp_in_header_flag, poc_lsb_bits),
    ensures
        pre(a, s),
        rpls_entry_can(x, ctx, ltrp_in_header_flag, poc_lsb_bits),
        rpls_entry_at(s, a.len(), ctx, ltrp_in_header_flag, poc_lsb_bits) == Ok::<
            (VvcRplsEntry, nat),
            Fault,
        >((x, put_rpls_entry(a, x, ctx, ltrp_in_header_flag, poc_lsb_bits).len())),
{
    broadcast use crate::bits::group_read_written;

    reveal(rpls_entry_at);
    reveal(put_rpls_entry);
    reveal(rpls_entry_ok);
    reveal(rpls_entry_can);
}

/// Reads an item, behind the items before it.
pub open spec fn rpls_entries_item(
    s: Seq<bool>,
    ctx: VvcRplsContext,
    ltrp_in_header_flag: u8,
    poc_lsb_bits: u32,
) -> spec_fn(Seq<VvcRplsEntry>, nat) -> Read<VvcRplsEntry> {
    |done: Seq<VvcRplsEntry>, q: nat| rpls_entry_at(s, q, ctx, ltrp_in_header_flag, poc_lsb_bits)
}

/// Writes an item, behind the items before it.
pub open spec fn put_rpls_entries_item(
    ctx: VvcRplsContext,
    ltrp_in_header_flag: u8,
    poc_lsb_bits: u32,
) -> spec_fn(Seq<bool>, Seq<VvcRplsEntry>, VvcRplsEntry) -> Seq<bool> {
    |a: Seq<bool>, done: Seq<VvcRplsEntry>, x: VvcRplsEntry| put_rpls_entry(
        a,
        x,
        ctx,
        ltrp_in_header_flag,
        poc_lsb_bits,
    )
}

/// Whether an item may follow the items before it.
pub open spec fn rpls_entries_item_ok(
    ctx: VvcRplsContext,
    ltrp_in_header_flag: u8,
    poc_lsb_bits: u32,
) -> spec_fn(Seq<VvcRplsEntry>, VvcRplsEntry) -> bool {
    |done: Seq<VvcRplsEntry>, x: VvcRplsEntry| rpls_entry_ok(x, ctx, ltrp_in_header_flag, poc_lsb_bits)
        && rpls_entry_can(x, ctx, ltrp_in_header_flag, poc_lsb_bits)
}

/// `n` items at position `p`, each an item.
#[verifier::opaque]
pub open spec fn rpls_entries_at(
    s: Seq<bool>,
    p: nat,
    ctx: VvcRplsContext,
    ltrp_in_header_flag: u8,
    poc_lsb_bits: u32,
    n: u64,
) -> Read<Seq<VvcRplsEntry>> {
    rep_at(rpls_entries_item(s, ctx, ltrp_in_header_flag, poc_lsb_bits), p, n as nat)
}

/// The bits `a` followed by the items.
#[verifier::opaque]
pub open spec fn put_rpls_entries(
    a: Seq<bool>,
    xs: Seq<VvcRplsEntry>,
    ctx: VvcRplsContext,
    ltrp_in_header_flag: u8,
    poc_lsb_bits: u32,
    n: u64,
) -> Seq<bool> {
    put_rep(put_rpls_entries_item(ctx, ltrp_in_header_flag, poc_lsb_bits), a, xs)
}

/// `n` items that reading can give.
#[verifier::opaque]
pub open spec fn rpls_entries_ok(
    xs: Seq<VvcRplsEntry>,
    ctx: VvcRplsContext,
    ltrp_in_header_flag: u8,
    poc_lsb_bits: u32,
    n: u64,
) -> bool {
    xs.len() == n
        && forall|i: int| 0 <= i < xs.len()
        ==> rpls_entry_ok(#[trigger] xs[i], ctx, ltrp_in_header_flag, poc_lsb_bits)
        && rpls_entry_can(xs[i], ctx, ltrp_in_header_flag, poc_lsb_bits)
}

/// `n` items that the writer accepts.
#[verifier::opaque]
pub open spec fn rpls_entries_can(
    xs: Seq<VvcRplsEntry>,
    ctx: VvcRplsContext,
    ltrp_in_header_flag: u8,
    poc_lsb_bits: u32,
    n: u64,
) -> bool {
    xs.len() == n
        && forall|i: int| 0 <= i < xs.len()
        ==> rpls_entry_can(#[trigger] xs[i], ctx, ltrp_in_header_flag, poc_lsb_bits)
}

/// Parses `n` items, each an item.
fn parse_rpls_entries(
    r: &mut BitReader<'_>,
    ctx: &VvcRplsContext,
    ltrp_in_header_flag: u8,
    poc_lsb_bits: u32,
    n: u64,
) -> (res: Result<Vec<VvcRplsEntry>, BitstreamError>)
    ensures
        read_vec_is(
            rpls_entries_at(old(r).bits(), old(r).pos(), *ctx, ltrp_in_header_flag, poc_lsb_bits, n),
            res,
            *old(r),
            *final(r),
        ),
        res matches Ok(v) ==> v@.len() == n,
{
    let ghost s = r.bits();
    let ghost p = r.pos();
    let ghost reads = rpls_entries_item(s, *ctx, ltrp_in_header_flag, poc_lsb_bits);
    let mut xs: Vec<VvcRplsEntry> = Vec::new();
    let mut i: u64 = 0;
    proof {
        reveal(rpls_entries_at);
    }
    while i < n
        invariant
            i <= n,
            xs@.len() == i,
            reads == rpls_entries_item(s, *ctx, ltrp_in_header_flag, poc_lsb_bits),
            s == r.bits(),
            s == old(r).bits(),
            p == old(r).pos(),
            r.bytes() == old(r).bytes(),
            rep_at(reads, p, i as nat) == Ok::<(Seq<VvcRplsEntry>, nat), Fault>((xs@, r.pos())),
        decreases n - i,
    {
        match parse_rpls_entry(r, ctx, ltrp_in_header_flag, poc_lsb_bits) {
            Ok(x) => {
                xs.push(x);
            },
            Err(e) => {
                proof {
                    reveal(rpls_entries_at);
                    lemma_rep_err(reads, p, (i + 1) as nat, n as nat);
                }
                return Err(e);
            },
        }
        i = i + 1;
    }
    Ok(xs)
}

/// Emits `n` items, each an item.
fn write_rpls_entries(
    w: &mut BitWriter,
    xs: &Vec<VvcRplsEntry>,
    ctx: &VvcRplsContext,
    ltrp_in_header_flag: u8,
    poc_lsb_bits: u32,
    n: u64,
) -> (res: Result<(), BitstreamError>)
    ensures
        write_is(
            rpls_entries_can(xs@, *ctx, ltrp_in_header_flag, poc_lsb_bits, n),
            put_rpls_entries(old(w)@, xs@, *ctx, ltrp_in_header_flag, poc_lsb_bits, n),
            res,
            final(w)@,
        ),
        res is Ok ==> xs@.len() == n,
{
    let ghost before = w@;
    let ghost puts = put_rpls_entries_item(*ctx, ltrp_in_header_flag, poc_lsb_bits);
    let ghost ys = xs@;
    proof {
        reveal(put_rpls_entries);
        reveal(rpls_entries_can);
        assert(ys.take(0) =~= Seq::empty());
    }
    if xs.len() as u64 != n {
        return Err(BitstreamError::invalid("unexpected number of entries"));
    }
    let mut i: usize = 0;
    while i < xs.len()
        invariant
            i <= xs@.len(),
            xs@.len() == n,
            ys == xs@,
            ys.len() == xs@.len(),
            before == old(w)@,
            puts == put_rpls_entries_item(*ctx, ltrp_in_header_flag, poc_lsb_bits),
            w@ == put_rep(puts, before, ys.take(i as int)),
            forall|j: int| 0 <= j < i
                ==> rpls_entry_can(#[trigger] ys[j], *ctx, ltrp_in_header_flag, poc_lsb_bits),
        ensures
            i == xs@.len(),
        decreases xs@.len() - i,
    {
        proof {
            assert(ys.take(i + 1).drop_last() =~= ys.take(i as int));
            assert(ys[i as int] == xs@[i as int]);
        }
        match write_rpls_entry(w, &xs[i], ctx, ltrp_in_header_flag, poc_lsb_bits) {
            Ok(()) => {},
            Err(e) => {
                proof {
                    reveal(rpls_entries_can);
                }
                return Err(e);
            },
        }
        i = i + 1;
    }
    proof {
        assert(ys.take(i as int) =~= ys);
    }
    Ok(())
}

/// Writing what was read gives back the bits that were read.
pub broadcast proof fn law_put_rpls_entries_at(
    s: Seq<bool>,
    p: nat,
    ctx: VvcRplsContext,
    ltrp_in_header_flag: u8,
    poc_lsb_bits: u32,
    n: u64,
)
    ensures
        #[trigger] rpls_entries_at(s, p, ctx, ltrp_in_header_flag, poc_lsb_bits, n) matches Ok((xs, q)) ==> {
            &&& xs.len() == n
            &&& rpls_entries_ok(xs, ctx, ltrp_in_header_flag, poc_lsb_bits, n)
            &&& rpls_entries_can(xs, ctx, ltrp_in_header_flag, poc_lsb_bits, n)
            &&& within(s, q)
                ==> within(s, p)
                && put_rpls_entries(upto(s, p), xs, ctx, ltrp_in_header_flag, poc_lsb_bits, n) == upto(s, q)
        },
{
    broadcast use law_put_rpls_entry_at;

    reveal(rpls_entries_at);
    reveal(put_rpls_entries);
    reveal(rpls_entries_ok);
    reveal(rpls_entries_can);
    let ok = rpls_entries_item_ok(ctx, ltrp_in_header_flag, poc_lsb_bits);
    law_put_rep_at(
        s,
        rpls_entries_item(s, ctx, ltrp_in_header_flag, poc_lsb_bits),
        put_rpls_entries_item(ctx, ltrp_in_header_flag, poc_lsb_bits),
        ok,
        p,
        n as nat,
    );
    if let Ok((xs, q)) = rpls_entries_at(s, p, ctx, ltrp_in_header_flag, poc_lsb_bits, n) {
        assert forall|i: int| 0 <= i < xs.len() implies ok(xs.take(i), #[trigger] xs[i]) by {}
    }
}

/// What was written reads back as the items that were written.
pub broadcast proof fn law_pre_put_rpls_entries(
    a: Seq<bool>,
    xs: Seq<VvcRplsEntry>,
    ctx: VvcRplsContext,
    ltrp_in_header_flag: u8,
    poc_lsb_bits: u32,
    n: u64,
    s: Seq<bool>,
)
    requires
        #[trigger] pre(put_rpls_entries(a, xs, ctx, ltrp_in_header_flag, poc_lsb_bits, n), s),
        rpls_entries_ok(xs, ctx, ltrp_in_header_flag, poc_lsb_bits, n),
    ensures
        pre(a, s),
        rpls_entries_can(xs, ctx, ltrp_in_header_flag, poc_lsb_bits, n),
        rpls_entries_at(s, a.len(), ctx, ltrp_in_header_flag, poc_lsb_bits, n) == Ok::<(Seq<VvcRplsEntry>, nat), Fault>(
            (xs, put_rpls_entries(a, xs, ctx, ltrp_in_header_flag, poc_lsb_bits, n).len()),
        ),
{
    broadcast use law_pre_put_rpls_entry;

    reveal(rpls_entries_at);
    reveal(put_rpls_entries);
    reveal(rpls_entries_ok);
    reveal(rpls_entries_can);
    law_rep_at_put(
        s,
        rpls_entries_item(s, ctx, ltrp_in_header_flag, poc_lsb_bits),
        put_rpls_entries_item(ctx, ltrp_in_header_flag, poc_lsb_bits),
        rpls_entries_item_ok(ctx, ltrp_in_header_flag, poc_lsb_bits),
        a,
        xs,
    );
}

/// `n` items stand one behind the other: `n - 1` items, and then an item.
pub proof fn law_layout_rpls_entries(
    s: Seq<bool>,
    p: nat,
    ctx: VvcRplsContext,
    ltrp_in_header_flag: u8,
    poc_lsb_bits: u32,
    n: u64,
    xs: Seq<VvcRplsEntry>,
    q: nat,
)
    ensures
        rpls_entries_at(s, p, ctx, ltrp_in_header_flag, poc_lsb_bits, n) == Ok::<(Seq<VvcRplsEntry>, nat), Fault>((xs, q)) <==> if n == 0 {
            xs.len() == 0 && q == p
        } else {
            &&& xs.len() == n
            &&& cursor(s, p)
                .part(
                    |p: nat| rpls_entries_at(s, p, ctx, ltrp_in_header_flag, poc_lsb_bits, (n - 1) as u64),
                    xs.drop_last(),
                )
                .part(|p: nat| rpls_entry_at(s, p, ctx, ltrp_in_header_flag, poc_lsb_bits), xs.last())
                .ends(q)
        },
{
    reveal(rpls_entries_at);
    lemma_rep_step(rpls_entries_item(s, ctx, ltrp_in_header_flag, poc_lsb_bits), p, n as nat);
    if xs.len() == 0 {
        assert(xs =~= Seq::empty());
    } else {
        assert(xs =~= xs.drop_last().push(xs.last()));
    }
    if n > 0 {
        if let Ok((done, r)) = rep_at(rpls_entries_item(s, ctx, ltrp_in_header_flag, poc_lsb_bits), p, (n - 1) as nat) {
            if let Ok((y, z)) = rpls_entries_item(s, ctx, ltrp_in_header_flag, poc_lsb_bits)(done, r) {
                assert(done.push(y).drop_last() =~= done);
            }
        }
    }
}

/// What the writer accepts as `n` items reads back, where each of them is one that
/// reading can give.
pub proof fn law_reads_rpls_entries(
    a: Seq<bool>,
    xs: Seq<VvcRplsEntry>,
    ctx: VvcRplsContext,
    ltrp_in_header_flag: u8,
    poc_lsb_bits: u32,
    n: u64,
    s: Seq<bool>,
)
    requires
        rpls_entries_can(xs, ctx, ltrp_in_header_flag, poc_lsb_bits, n),
        forall|i: int| 0 <= i < xs.len()
            ==> rpls_entry_ok(#[trigger] xs[i], ctx, ltrp_in_header_flag, poc_lsb_bits),
        pre(put_rpls_entries(a, xs, ctx, ltrp_in_header_flag, poc_lsb_bits, n), s),
    ensures
        xs.len() == n,
        rpls_entries_at(s, a.len(), ctx, ltrp_in_header_flag, poc_lsb_bits, n) == Ok::<(Seq<VvcRplsEntry>, nat), Fault>(
            (xs, put_rpls_entries(a, xs, ctx, ltrp_in_header_flag, poc_lsb_bits, n).len()),
        ),
{
    reveal(rpls_entries_can);
    assert(rpls_entries_ok(xs, ctx, ltrp_in_header_flag, poc_lsb_bits, n)) by {
        reveal(rpls_entries_ok);
    }
    law_pre_put_rpls_entries(a, xs, ctx, ltrp_in_header_flag, poc_lsb_bits, n, s);
}

/// Reading the items fails only with an error of this class.
pub broadcast proof fn law_faults_rpls_entries(
    s: Seq<bool>,
    p: nat,
    ctx: VvcRplsContext,
    ltrp_in_header_flag: u8,
    poc_lsb_bits: u32,
    n: u64,
)
    ensures
        #[trigger] rpls_entries_at(s, p, ctx, ltrp_in_header_flag, poc_lsb_bits, n) matches Err(f)
            ==> f == Fault::Invalid,
{
    broadcast use law_faults_rpls_entry;

    reveal(rpls_entries_at);
    let f = rpls_entries_item(s, ctx, ltrp_in_header_flag, poc_lsb_bits);
    assert forall|done: Seq<VvcRplsEntry>, q: nat| (#[trigger] f(done, q)) matches Err(e)
        ==> e == Fault::Invalid by {}
    lemma_rep_faults(f, p, n as nat, |f: Fault| f == Fault::Invalid);
}

/// The mathematical model of a [`VvcRefPicListStruct`].
pub struct VvcRefPicListStructModel {
    pub ltrp_in_header_flag: u8,
    pub entries: Seq<VvcRplsEntry>,
}

impl View for VvcRefPicListStruct {
    type V = VvcRefPicListStructModel;

    open spec fn view(&self) -> VvcRefPicListStructModel {
        VvcRefPicListStructModel {
            ltrp_in_header_flag: self.ltrp_in_header_flag,
            entries: self.entries@,
        }
    }
}

/// ref_pic_list_struct() at position `p`.
#[verifier::opaque]
pub open spec fn ref_pic_list_at(
    s: Seq<bool>,
    p: nat,
    ctx: VvcRplsContext,
    poc_lsb_bits: u32,
) -> Read<VvcRefPicListStructModel> {
    match ue_at(s, p) { Err(f) => Err(f), Ok((num_ref_entries, p)) => {
    if num_ref_entries > VVC_NUM_REF_ENTRIES_MAX { Err(Fault::Invalid) } else {
    let ltrp_in_header_flag = u8_if(
        s,
        p,
        1,
        ctx.long_term_ref_pics && ctx.in_sps_list && num_ref_entries > 0,
        1,
    );
    let p = adv_if(p, 1, ctx.long_term_ref_pics && ctx.in_sps_list && num_ref_entries > 0);
    match rpls_entries_at(s, p, ctx, ltrp_in_header_flag, poc_lsb_bits, num_ref_entries as u64)
    { Err(f) => Err(f), Ok((entries, p)) => {
    Ok((VvcRefPicListStructModel { ltrp_in_header_flag, entries }, p))
    }}}}}
}

/// The bits `a` followed by ref_pic_list_struct().
#[verifier::opaque]
pub open spec fn put_ref_pic_list(
    a: Seq<bool>,
    x: VvcRefPicListStructModel,
    ctx: VvcRplsContext,
    poc_lsb_bits: u32,
) -> Seq<bool> {
    let num_ref_entries = x.entries.len();
    let a = put_ue(a, num_ref_entries as nat);
    let a = put_bit_if(
        a,
        x.ltrp_in_header_flag as nat,
        ctx.long_term_ref_pics && ctx.in_sps_list && num_ref_entries > 0,
    );
    let a = put_rpls_entries(a, x.entries, ctx, x.ltrp_in_header_flag, poc_lsb_bits, num_ref_entries as u64);
    a
}

/// The values of ref_pic_list_struct() that reading can give.
#[verifier::opaque]
pub open spec fn ref_pic_list_ok(
    x: VvcRefPicListStructModel,
    ctx: VvcRplsContext,
    poc_lsb_bits: u32,
) -> bool {
    &&& x.entries.len() <= 29
    &&& {
        let num_ref_entries = x.entries.len();
        &&& num_ref_entries <= VVC_NUM_REF_ENTRIES_MAX
        &&& if ctx.long_term_ref_pics
            && ctx.in_sps_list
            && num_ref_entries > 0 {
                fits(x.ltrp_in_header_flag as nat, 1)
            } else {
                x.ltrp_in_header_flag == 1
            }
        &&& rpls_entries_ok(x.entries, ctx, x.ltrp_in_header_flag, poc_lsb_bits, num_ref_entries as u64)
    }
}

/// The values of ref_pic_list_struct() that the writer accepts.
#[verifier::opaque]
pub open spec fn ref_pic_list_can(
    x: VvcRefPicListStructModel,
    ctx: VvcRplsContext,
    poc_lsb_bits: u32,
) -> bool {
    &&& x.entries.len() <= 29
    &&& {
        let num_ref_entries = x.entries.len();
        &&& ue_fits(num_ref_entries as nat)
        &&& rpls_entries_can(x.entries, ctx, x.ltrp_in_header_flag, poc_lsb_bits, num_ref_entries as u64)
    }
}

/// Parse a `ref_pic_list_struct(listIdx, rplsIdx)` at the reader's
/// position. `poc_lsb_bits` is the `rpls_poc_lsb_lt` field width,
/// `sps_log2_max_pic_order_cnt_lsb_minus4 + 4` (7.4.11).
pub fn parse_ref_pic_list_struct(
    r: &mut BitReader<'_>,
    ctx: &VvcRplsContext,
    poc_lsb_bits: u32,
) -> (res: Result<VvcRefPicListStruct, BitstreamError>)
    ensures
        read_view_is(
            ref_pic_list_at(old(r).bits(), old(r).pos(), *ctx, poc_lsb_bits),
            res,
            *old(r),
            *final(r),
        ),
{
    proof {
        reveal(ref_pic_list_at);
    }
    let num_ref_entries: u32 = r.ue()?;
    if num_ref_entries > VVC_NUM_REF_ENTRIES_MAX {
        return Err(
            Message::new("num_ref_entries = ")
                .num(num_ref_entries as i128)
                .with(" > ")
                .num(VVC_NUM_REF_ENTRIES_MAX as i128)
                .with(" (MaxDpbSize + 13, 7.4.11)")
                .invalid(),
        );
    }
    let ltrp_in_header_flag: u8 = r.bit_if(
        ctx.long_term_ref_pics && ctx.in_sps_list && num_ref_entries > 0,
        1,
    );
    let entries = parse_rpls_entries(r, ctx, ltrp_in_header_flag, poc_lsb_bits, num_ref_entries as u64)?;
    Ok(VvcRefPicListStruct { ltrp_in_header_flag, entries })
}

/// Emit a `ref_pic_list_struct()`, the byte-exact inverse of the parse on
/// the same context.
pub fn write_ref_pic_list_struct(
    w: &mut BitWriter,
    x: &VvcRefPicListStruct,
    ctx: &VvcRplsContext,
    poc_lsb_bits: u32,
) -> (res: Result<(), BitstreamError>)
    ensures
        write_is(
            ref_pic_list_can(x@, *ctx, poc_lsb_bits),
            put_ref_pic_list(old(w)@, x@, *ctx, poc_lsb_bits),
            res,
            final(w)@,
        ),
{
    proof {
        reveal(put_ref_pic_list);
        reveal(ref_pic_list_can);
    }
    if !(x.entries.len() <= 29) {
        return Err(
            Message::new("num_ref_entries = ")
                .num(x.entries.len() as i128)
                .with(" > ")
                .num(VVC_NUM_REF_ENTRIES_MAX as i128)
                .with(" (MaxDpbSize + 13, 7.4.11)")
                .invalid(),
        );
    }
    let num_ref_entries: u32 = x.entries.len() as u32;
    w.write_ue(num_ref_entries)?;
    w.write_bit_if(
        x.ltrp_in_header_flag as u32,
        ctx.long_term_ref_pics && ctx.in_sps_list && num_ref_entries > 0,
    );
    write_rpls_entries(w, &x.entries, ctx, x.ltrp_in_header_flag, poc_lsb_bits, num_ref_entries as u64)?;
    Ok(())
}

/// Writing ref_pic_list_struct() gives back the bits it was read from.
pub broadcast proof fn law_put_ref_pic_list_at(s: Seq<bool>, p: nat, ctx: VvcRplsContext, poc_lsb_bits: u32)
    ensures
        #[trigger] ref_pic_list_at(s, p, ctx, poc_lsb_bits) matches Ok((x, q)) ==> {
            &&& ref_pic_list_ok(x, ctx, poc_lsb_bits)
            &&& ref_pic_list_can(x, ctx, poc_lsb_bits)
            &&& within(s, q)
                ==> within(s, p)
                && put_ref_pic_list(upto(s, p), x, ctx, poc_lsb_bits) == upto(s, q)
        },
{
    broadcast use {crate::bits::group_write_read, law_put_rpls_entries_at};

    reveal(ref_pic_list_at);
    reveal(put_ref_pic_list);
    reveal(ref_pic_list_ok);
    reveal(ref_pic_list_can);
}

/// Reading gives back ref_pic_list_struct() as it was written.
pub broadcast proof fn law_pre_put_ref_pic_list(
    a: Seq<bool>,
    x: VvcRefPicListStructModel,
    ctx: VvcRplsContext,
    poc_lsb_bits: u32,
    s: Seq<bool>,
)
    requires
        #[trigger] pre(put_ref_pic_list(a, x, ctx, poc_lsb_bits), s),
        ref_pic_list_ok(x, ctx, poc_lsb_bits),
    ensures
        pre(a, s),
        ref_pic_list_can(x, ctx, poc_lsb_bits),
        ref_pic_list_at(s, a.len(), ctx, poc_lsb_bits) == Ok::<(VvcRefPicListStructModel, nat), Fault>(
            (x, put_ref_pic_list(a, x, ctx, poc_lsb_bits).len()),
        ),
{
    broadcast use {crate::bits::group_read_written, law_pre_put_rpls_entries};

    reveal(ref_pic_list_at);
    reveal(put_ref_pic_list);
    reveal(ref_pic_list_ok);
    reveal(ref_pic_list_can);
}

/// The layout of ref_pic_list_struct(): reading at `p` gives `x` and ends at
/// `q` if and only if these elements stand there in this order, and the values
/// are allowed.
pub proof fn law_layout_ref_pic_list(
    s: Seq<bool>,
    p: nat,
    ctx: VvcRplsContext,
    poc_lsb_bits: u32,
    x: VvcRefPicListStructModel,
    q: nat,
)
    ensures
        ref_pic_list_at(s, p, ctx, poc_lsb_bits) == Ok::<(VvcRefPicListStructModel, nat), Fault>((x, q)) <==> ({
            let c = cursor(s, p);
            let num_ref_entries = c.next_ue();
            &&& c
                .ue(num_ref_entries)
                .u8_if(
                    ctx.long_term_ref_pics && ctx.in_sps_list && num_ref_entries > 0,
                    1,
                    x.ltrp_in_header_flag,
                    1,
                )
                .part(
                    |p: nat| rpls_entries_at(
                        s,
                        p,
                        ctx,
                        x.ltrp_in_header_flag,
                        poc_lsb_bits,
                        num_ref_entries as u64,
                    ),
                    x.entries,
                )
                .ends(q)
            &&& num_ref_entries <= 29
        }),
{
    reveal(ref_pic_list_at);
    reveal(adv_if);
    reveal(u8_if);
}

/// Reading ref_pic_list_struct() fails only with an error of this class.
pub broadcast proof fn law_faults_ref_pic_list(s: Seq<bool>, p: nat, ctx: VvcRplsContext, poc_lsb_bits: u32)
    ensures
        #[trigger] ref_pic_list_at(s, p, ctx, poc_lsb_bits) matches Err(f) ==> f == Fault::Invalid,
{
    broadcast use {crate::bits::law_faults_ue, law_faults_rpls_entries};

    reveal(ref_pic_list_at);
}

/// What the writer accepts reads back: ref_pic_list_struct(), where each field
/// fits its width and what is not coded has the value that is taken for it.
pub proof fn law_reads_ref_pic_list(
    a: Seq<bool>,
    x: VvcRefPicListStructModel,
    ctx: VvcRplsContext,
    poc_lsb_bits: u32,
    s: Seq<bool>,
)
    requires
        ref_pic_list_can(x, ctx, poc_lsb_bits),
        ({
            let num_ref_entries = x.entries.len();
            &&& if ctx.long_term_ref_pics
                && ctx.in_sps_list
                && num_ref_entries > 0 {
                    fits(x.ltrp_in_header_flag as nat, 1)
                } else {
                    x.ltrp_in_header_flag == 1
                }
            &&& rpls_entries_ok(x.entries, ctx, x.ltrp_in_header_flag, poc_lsb_bits, num_ref_entries as u64)
        }),
        pre(put_ref_pic_list(a, x, ctx, poc_lsb_bits), s),
    ensures
        ref_pic_list_at(s, a.len(), ctx, poc_lsb_bits) == Ok::<(VvcRefPicListStructModel, nat), Fault>(
            (x, put_ref_pic_list(a, x, ctx, poc_lsb_bits).len()),
        ),
{
    assert(ref_pic_list_ok(x, ctx, poc_lsb_bits)) by {
        broadcast use crate::bits::law_fits_small;

        reveal(ref_pic_list_ok);
        reveal(ref_pic_list_can);
    }
    law_pre_put_ref_pic_list(a, x, ctx, poc_lsb_bits, s);
}

/// Each field of the model of a [`VvcRefPicListStruct`] is the field of that name.
pub proof fn law_view_ref_pic_list(x: VvcRefPicListStruct)
    ensures
        x@.ltrp_in_header_flag == x.ltrp_in_header_flag,
        x@.entries == x.entries@,
{
}

/// `ceil_log2(x)` is the smallest number of bits that can number `x` things.
pub proof fn law_ceil_log2(x: nat)
    requires
        x >= 1,
    ensures
        x <= pow2(ceil_log2(x)),
        ceil_log2(x) > 0 ==> pow2((ceil_log2(x) - 1) as nat) < x,
{
    lemma2_to64();
    if x > 1 {
        lemma_log2((x - 1) as nat);
    }
}

/// What an entry of a reference picture list is made of. A flag tells an inter-layer
/// entry, where there are any, and another one tells a short-term entry from a
/// long-term one, where there are any.
pub proof fn law_layout_rpls_entry(
    s: Seq<bool>,
    p: nat,
    ctx: VvcRplsContext,
    ltrp_in_header_flag: u8,
    poc_lsb_bits: u32,
    x: VvcRplsEntry,
    q: nat,
)
    ensures
        rpls_entry_at(s, p, ctx, ltrp_in_header_flag, poc_lsb_bits) == Ok::<(VvcRplsEntry, nat), Fault>(
            (x, q),
        ) <==> match x {
            VvcRplsEntry::InterLayer { ilrp_idx } => {
                &&& ctx.inter_layer_prediction
                &&& cursor(s, p).flag(true).ue(ilrp_idx).ends(q)
            },
            VvcRplsEntry::ShortTerm { abs_delta_poc_st, strp_entry_sign_flag } => {
                &&& cursor(s, p)
                    .flag_if(ctx.inter_layer_prediction, false, false)
                    .flag_if(ctx.long_term_ref_pics, true, true)
                    .ue(abs_delta_poc_st)
                    .u8_if(abs_delta_poc_st > 0, 1, strp_entry_sign_flag, 0)
                    .ends(q)
                &&& abs_delta_poc_st <= 32767
            },
            VvcRplsEntry::LongTerm { rpls_poc_lsb_lt } => {
                let c = cursor(s, p).flag_if(ctx.inter_layer_prediction, false, false).flag(false);
                &&& ctx.long_term_ref_pics
                &&& match rpls_poc_lsb_lt {
                    Some(lsb) => {
                        &&& ltrp_in_header_flag == 0
                        &&& poc_lsb_bits <= 32
                        &&& c.u32(poc_lsb_bits as nat, lsb).ends(q)
                    },
                    None => ltrp_in_header_flag != 0 && c.ends(q),
                }
            },
        },
{
    reveal(rpls_entry_at);
    reveal(flag_if);
    reveal(u8_if);
    reveal(adv_if);
}

/// What the writer accepts as an entry reads back, where its sign is a bit that is
/// zero with a zero delta.
pub proof fn law_reads_rpls_entry(
    a: Seq<bool>,
    x: VvcRplsEntry,
    ctx: VvcRplsContext,
    ltrp_in_header_flag: u8,
    poc_lsb_bits: u32,
    s: Seq<bool>,
)
    requires
        rpls_entry_can(x, ctx, ltrp_in_header_flag, poc_lsb_bits),
        x matches VvcRplsEntry::ShortTerm { abs_delta_poc_st, strp_entry_sign_flag } ==> strp_entry_sign_flag
            == 0 || strp_entry_sign_flag == 1 && abs_delta_poc_st > 0,
        pre(put_rpls_entry(a, x, ctx, ltrp_in_header_flag, poc_lsb_bits), s),
    ensures
        rpls_entry_at(s, a.len(), ctx, ltrp_in_header_flag, poc_lsb_bits) == Ok::<(VvcRplsEntry, nat), Fault>(
            (x, put_rpls_entry(a, x, ctx, ltrp_in_header_flag, poc_lsb_bits).len()),
        ),
{
    assert(rpls_entry_ok(x, ctx, ltrp_in_header_flag, poc_lsb_bits)) by {
        broadcast use crate::bits::law_fits_small;

        reveal(rpls_entry_ok);
        reveal(rpls_entry_can);
    }
    law_pre_put_rpls_entry(a, x, ctx, ltrp_in_header_flag, poc_lsb_bits, s);
}

/// Reading an entry fails only as invalid.
pub broadcast proof fn law_faults_rpls_entry(
    s: Seq<bool>,
    p: nat,
    ctx: VvcRplsContext,
    ltrp_in_header_flag: u8,
    poc_lsb_bits: u32,
)
    ensures
        #[trigger] rpls_entry_at(s, p, ctx, ltrp_in_header_flag, poc_lsb_bits) matches Err(f)
            ==> f == Fault::Invalid,
{
    broadcast use crate::bits::law_faults_ue;

    reveal(rpls_entry_at);
}

/// An HRD is there if it is there for NAL or for VCL.
pub proof fn law_any_hrd_present(x: VvcGeneralTimingHrd, b: bool)
    requires
        call_ensures(VvcGeneralTimingHrd::any_hrd_present, (&x,), b),
    ensures
        !b <==> x.general_nal_hrd_params_present_flag == 0 && x.general_vcl_hrd_params_present_flag == 0,
{
}

/// [`ceil_log2_u64`] gives the smallest number of bits that can number `x` things.
pub proof fn law_ceil_log2_u64(x: u64, n: u32)
    requires
        call_ensures(ceil_log2_u64, (x,), n),
    ensures
        x <= pow2(n as nat),
        n > 0 ==> pow2((n - 1) as nat) < x,
        n == ceil_log2(x as nat),
{
}

} // verus!
