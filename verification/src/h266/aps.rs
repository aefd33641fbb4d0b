//! H.266 / VVC adaptation parameter set (§7.3.2.6): parse and byte-exact
//! write.
//!
//! An APS carries one of three payloads: adaptive loop filter parameters
//! (`alf_data()`, §7.3.2.18), luma mapping with chroma scaling parameters
//! (`lmcs_data()`, §7.3.2.19) or scaling lists (`scaling_list_data()`,
//! §7.3.2.20). [`write_aps`] is the byte-exact inverse of
//! [`parse_aps_rbsp`] (see [`law_write_parsed_aps`]).
use crate::bit_reader::{BitReader, read_is, read_seq_is, read_vec_is, read_view_is};
use crate::bit_writer::{BitWriter, fits_bits, write_is};
use crate::bits::{
    Read, adv, adv_if, all_ok, bits_of, fits, flag_at, flag_if, group_read_written,
    group_read_written_lists, group_write_read, group_write_read_lists, law_faults_se,
    law_faults_u8s, law_faults_ue, law_fits_small, law_put_rep_at, law_rep_at_put,
    lemma_bits_of_injective, lemma_bits_of_len, lemma_log2, lemma_pad_aligned, lemma_pow2_le,
    lemma_rep_err, lemma_rep_faults, lemma_rep_faults_none, lemma_rep_places, lemma_rep_step,
    lemma_seq_view_push, lemma_trailing_aligned, lemma_trailing_shape, log2, opt_view, pre,
    put_flag, put_flag_if, put_rep, put_se, put_se_if, put_trailing, put_u, put_u8s, put_u_if,
    put_ue, put_ue_if, read_some, rep_at, se_at, se_fits, se_if, seq_view, tail_at, trailing_at,
    u32_at, u8_at, u8_if, u8s_at, u8s_item, u8s_ok, ue_at, ue_fits, ue_if, upto, within,
};
use crate::layout::cursor;
use crate::h266::params::{ceil_log2, ceil_log2_u64};
use crate::h266::{
    NAL_TYPE_PREFIX_APS, NAL_TYPE_SUFFIX_APS, canonical_nal, frame_nal, law_framed_rbsp_of_nal,
    law_rbsp_of_framed_nal, nal_header_of, nal_of_rbsp, nal_read_is, parse_nal_header,
};
use crate::nal::{ebsp_to_rbsp, escape, lemma_unescape_len, unescape};
use crate::scan::{lemma_scan_inside, scan_at};
use crate::message::Message;
use crate::{BitstreamError, Fault};
use vstd::slice::slice_subrange;
use vstd::arithmetic::power2::lemma2_to64;
use vstd::prelude::*;

verus! {

// ─────────────────────────── Constants ───────────────────────────────────────

/// Table 6 — `aps_params_type == 0`: ALF parameters.
pub const APS_PARAMS_TYPE_ALF: u8 = 0;

/// Table 6 — `aps_params_type == 1`: LMCS parameters.
pub const APS_PARAMS_TYPE_LMCS: u8 = 1;

/// Table 6 — `aps_params_type == 2`: scaling list parameters.
pub const APS_PARAMS_TYPE_SCALING: u8 = 2;

/// §7.4.3.18 — `NumAlfFilters`, the fixed number of luma filter
/// classes.
pub const NUM_ALF_FILTERS: usize = 25;

/// §7.3.2.20 — number of scaling-list matrix ids.
pub const NUM_SCALING_LIST_IDS: usize = 28;

// ─────────────────────────── Diagonal scan (§6.5.2) ─────────────────────────

/// The 8×8 up-right diagonal scan order `DiagScanOrder[3][3]`
/// (§6.5.2), as `(x, y)` pairs. `scaling_list_data()` indexes this
/// scan for every matrix size (only the first
/// `matrixSize * matrixSize` positions are used) and skips the
/// bottom-right 4×4 quadrant for the two 64×64 ids.
pub fn diag_scan_8x8() -> (out: [(u8, u8); 64])
    ensures
        forall|i: int| 0 <= i < 64 ==> #[trigger] out@[i] == scan_at(i as nat),
{
    let mut out: [(u8, u8); 64] = [(0, 0); 64];
    let mut x: u8 = 0;
    let mut y: u8 = 0;
    let mut i: usize = 1;
    while i < 64
        invariant
            1 <= i <= 64,
            x <= 7,
            y <= 7,
            (x, y) == scan_at((i - 1) as nat),
            forall|j: int| 0 <= j < i ==> #[trigger] out@[j] == scan_at(j as nat),
        decreases 64 - i,
    {
        proof {
            lemma_scan_inside((i - 1) as nat);
            lemma_scan_inside(i as nat);
        }
        if x < 7 && y > 0 {
            x = x + 1;
            y = y - 1;
        } else if x + y < 7 {
            y = x + y + 1;
            x = 0;
        } else {
            x = x + y - 6;
            y = 7;
        }
        out[i] = (x, y);
        i = i + 1;
    }
    out
}

// ─────────────────────────── ALF (§7.3.2.18) ─────────────────────────────────

/// Signalled luma ALF block — present iff
/// `alf_luma_filter_signal_flag`.
#[derive(Debug, Clone, Default, PartialEq, Eq)]
pub struct VvcAlfLuma {
    pub alf_luma_clip_flag: bool,
    /// 0..=`NumAlfFilters − 1` (§7.4.3.18).
    pub alf_luma_num_filters_signalled_minus1: u32,
    /// `alf_luma_coeff_delta_idx[filtIdx]` — coded as
    /// `u(Ceil(Log2(alf_luma_num_filters_signalled_minus1 + 1)))`
    /// only when `alf_luma_num_filters_signalled_minus1 > 0`;
    /// inferred all-zero otherwise. Each value is bounded by
    /// `alf_luma_num_filters_signalled_minus1`.
    pub alf_luma_coeff_delta_idx: [u8; 25],
    /// `alf_luma_coeff_abs[sfIdx][j]` — one row per signalled filter,
    /// each value 0..=128 (§7.4.3.18).
    pub coeff_abs: Vec<[u32; 12]>,
    /// `alf_luma_coeff_sign[sfIdx][j]` — coded iff the matching
    /// `coeff_abs` is non-zero; inferred `false` otherwise.
    pub coeff_sign: Vec<[bool; 12]>,
    /// `alf_luma_clip_idx[sfIdx][j]` u(2) — one row per signalled
    /// filter iff `alf_luma_clip_flag`; empty otherwise.
    pub clip_idx: Vec<[u8; 12]>,
}

/// Signalled chroma ALF block — present iff
/// `alf_chroma_filter_signal_flag`.
#[derive(Debug, Clone, Default, PartialEq, Eq)]
pub struct VvcAlfChroma {
    pub alf_chroma_clip_flag: bool,
    /// 0..=7 (§7.4.3.18).
    pub alf_chroma_num_alt_filters_minus1: u32,
    /// One row per alternative filter, each value 0..=128.
    pub coeff_abs: Vec<[u32; 6]>,
    pub coeff_sign: Vec<[bool; 6]>,
    /// One row per alternative filter iff `alf_chroma_clip_flag`.
    pub clip_idx: Vec<[u8; 6]>,
}

/// One cross-component ALF filter bank (Cb or Cr) — present iff the
/// matching `alf_cc_c{b,r}_filter_signal_flag`.
#[derive(Debug, Clone, Default, PartialEq, Eq)]
pub struct VvcAlfCcFilters {
    /// 0..=3 (§7.4.3.18).
    pub filters_signalled_minus1: u32,
    /// `alf_cc_*_mapped_coeff_abs[k][j]` u(3).
    pub mapped_coeff_abs: Vec<[u8; 7]>,
    /// Coded iff the matching mapped coefficient is non-zero.
    pub coeff_sign: Vec<[bool; 7]>,
}

/// `alf_data()` (§7.3.2.18).
#[derive(Debug, Clone, Default, PartialEq, Eq)]
pub struct VvcAlfData {
    pub alf_luma_filter_signal_flag: bool,
    /// Only coded when `aps_chroma_present_flag`; inferred `false`
    /// otherwise.
    pub alf_chroma_filter_signal_flag: bool,
    pub alf_cc_cb_filter_signal_flag: bool,
    pub alf_cc_cr_filter_signal_flag: bool,
    pub luma: Option<VvcAlfLuma>,
    pub chroma: Option<VvcAlfChroma>,
    pub cc_cb: Option<VvcAlfCcFilters>,
    pub cc_cr: Option<VvcAlfCcFilters>,
}

/// Every item is at most `max`.
pub open spec fn all_at_most(v: Seq<u8>, max: u32) -> bool {
    forall|i: int| 0 <= i < v.len() ==> #[trigger] v[i] <= max
}

/// Whether every item is at most `max`.
pub(crate) fn are_at_most(v: &[u8], max: u32) -> (b: bool)
    ensures
        b == all_at_most(v@, max),
{
    let mut i: usize = 0;
    while i < v.len()
        invariant
            i <= v@.len(),
            forall|j: int| 0 <= j < i ==> #[trigger] v@[j] <= max,
        decreases v@.len() - i,
    {
        if v[i] as u32 > max {
            return false;
        }
        i = i + 1;
    }
    true
}

/// The error about the first filter index above `max`.
fn delta_idx_error(v: &[u8], max: u32, with_value: bool) -> (e: BitstreamError)
    ensures
        e.fault() == Fault::Invalid,
{
    let mut i: usize = 0;
    while i < v.len() && v[i] as u32 <= max
        invariant
            i <= v@.len(),
        decreases v@.len() - i,
    {
        i = i + 1;
    }
    let start = Message::new("alf_luma_coeff_delta_idx[").num(i as i128).with("]");
    let start = if with_value && i < v.len() {
        start.with("=").num(v[i] as i128)
    } else {
        start
    };
    start.with(" exceeds alf_luma_num_filters_signalled_minus1 (§7.4.3.18)").invalid()
}

/// The first components of pairs.
pub open spec fn firsts_of<A>(v: Seq<(A, bool)>) -> Seq<A> {
    Seq::new(v.len(), |j: int| v[j].0)
}

/// The second components of pairs.
pub open spec fn seconds_of<A>(v: Seq<(A, bool)>) -> Seq<bool> {
    Seq::new(v.len(), |j: int| v[j].1)
}

/// Pairs from their components.
pub open spec fn zip<A>(a: Seq<A>, b: Seq<bool>) -> Seq<(A, bool)> {
    Seq::new(a.len(), |j: int| (a[j], b[j]))
}

/// The first components, row by row.
pub open spec fn rows_fst<A>(v: Seq<Seq<(A, bool)>>) -> Seq<Seq<A>> {
    Seq::new(v.len(), |i: int| firsts_of(v[i]))
}

/// The second components, row by row.
pub open spec fn rows_snd<A>(v: Seq<Seq<(A, bool)>>) -> Seq<Seq<bool>> {
    Seq::new(v.len(), |i: int| seconds_of(v[i]))
}

/// Rows of pairs from rows of their components.
pub open spec fn zip_rows<A>(a: Seq<Seq<A>>, b: Seq<Seq<bool>>) -> Seq<Seq<(A, bool)>> {
    Seq::new(a.len(), |i: int| zip(a[i], b[i]))
}

/// `n` rows of `width` items.
pub open spec fn rows_of<A>(v: Seq<Seq<A>>, n: nat, width: nat) -> bool {
    v.len() == n && forall|i: int| 0 <= i < v.len() ==> (#[trigger] v[i]).len() == width
}

proof fn lemma_zip_rows<A>(v: Seq<Seq<(A, bool)>>)
    ensures
        zip_rows(rows_fst(v), rows_snd(v)) == v,
{
    let w = zip_rows(rows_fst(v), rows_snd(v));
    assert forall|i: int| 0 <= i < v.len() implies #[trigger] w[i] == v[i] by {
        assert(w[i] =~= v[i]);
    }
    assert(w =~= v);
}

/// A coefficient at position `p`: its magnitude, and its sign unless it is
/// zero.
#[verifier::opaque]
pub open spec fn alf_coef_at(s: Seq<bool>, p: nat) -> Read<(u32, bool)> {
    match ue_at(s, p) { Err(f) => Err(f), Ok((abs, p)) => {
    if abs > 128 { Err(Fault::Invalid) } else {
    let sign = flag_if(s, p, abs != 0, false);
    let p = adv_if(p, 1, abs != 0);
    Ok(((abs, sign), p)) }}}
}

/// The bits `a` followed by a coefficient.
#[verifier::opaque]
pub open spec fn put_alf_coef(a: Seq<bool>, x: (u32, bool)) -> Seq<bool> {
    let a = put_ue(a, x.0 as nat);
    let a = put_flag_if(a, x.1, x.0 != 0);
    a
}

/// The values of a coefficient that reading can give.
#[verifier::opaque]
pub open spec fn alf_coef_ok(x: (u32, bool)) -> bool {
    &&& x.0 <= 128
    &&& x.0 != 0 || !x.1
}

/// The values of a coefficient that the writer accepts.
#[verifier::opaque]
pub open spec fn alf_coef_can(x: (u32, bool)) -> bool {
    &&& x.0 <= 128
    &&& x.0 != 0 || !x.1
}

/// Parses a coefficient.
fn parse_alf_coef(r: &mut BitReader<'_>, name: &str) -> (res: Result<(u32, bool), BitstreamError>)
    ensures
        read_is(alf_coef_at(old(r).bits(), old(r).pos()), res, *old(r), *final(r)),
{
    proof {
        reveal(alf_coef_at);
    }
    let abs: u32 = r.ue()?;
    if abs > 128 {
        return Err(
            Message::new("")
                .with(name)
                .with("_abs=")
                .num(abs as i128)
                .with(" (must be 0..=128, §7.4.3.18)")
                .invalid(),
        );
    }
    let sign: bool = r.flag_if(abs != 0, false);
    Ok((abs, sign))
}

/// Emits a coefficient, the inverse of [`parse_alf_coef`].
fn write_alf_coef(w: &mut BitWriter, x: &(u32, bool), name: &str) -> (res: Result<(), BitstreamError>)
    ensures
        write_is(alf_coef_can(*x), put_alf_coef(old(w)@, *x), res, final(w)@),
{
    proof {
        reveal(put_alf_coef);
        reveal(alf_coef_can);
    }
    if x.0 > 128 {
        return Err(Message::new("").with(name).with("_abs must be 0..=128 (§7.4.3.18)").invalid());
    }
    w.write_ue(x.0)?;
    w.write_flag_if(x.1, x.0 != 0);
    if !(x.0 != 0 || !x.1) {
        return Err(
            Message::new("")
                .with(name)
                .with("_sign is inferred 0 for a zero coefficient (§7.4.3.18)")
                .invalid(),
        );
    }
    Ok(())
}

/// Writing a coefficient gives back the bits it was read from.
pub broadcast proof fn law_put_alf_coef_at(s: Seq<bool>, p: nat)
    ensures
        #[trigger] alf_coef_at(s, p) matches Ok((x, q)) ==> {
            &&& alf_coef_ok(x)
            &&& alf_coef_can(x)
            &&& within(s, q) ==> within(s, p) && put_alf_coef(upto(s, p), x) == upto(s, q)
        },
{
    broadcast use crate::bits::group_write_read;

    reveal(alf_coef_at);
    reveal(put_alf_coef);
    reveal(alf_coef_ok);
    reveal(alf_coef_can);
}

/// Reading gives back a coefficient as it was written.
pub broadcast proof fn law_pre_put_alf_coef(a: Seq<bool>, x: (u32, bool), s: Seq<bool>)
    requires
        #[trigger] pre(put_alf_coef(a, x), s),
        alf_coef_ok(x),
    ensures
        pre(a, s),
        alf_coef_can(x),
        alf_coef_at(s, a.len()) == Ok::<((u32, bool), nat), Fault>((x, put_alf_coef(a, x).len())),
{
    broadcast use crate::bits::group_read_written;

    reveal(alf_coef_at);
    reveal(put_alf_coef);
    reveal(alf_coef_ok);
    reveal(alf_coef_can);
}

/// The layout of a coefficient: reading at `p` gives `x` and ends at `q` if and
/// only if these elements stand there in this order, and the values are
/// allowed.
pub proof fn law_layout_alf_coef(s: Seq<bool>, p: nat, x: (u32, bool), q: nat)
    ensures
        alf_coef_at(s, p) == Ok::<((u32, bool), nat), Fault>((x, q)) <==> ({
            &&& cursor(s, p)
                .ue(x.0)
                .flag_if(x.0 != 0, x.1, false)
                .ends(q)
            &&& x.0 <= 128
        }),
{
    reveal(alf_coef_at);
    reveal(adv_if);
    reveal(flag_if);
}

/// Reading a coefficient fails only with an error of this class.
pub broadcast proof fn law_faults_alf_coef(s: Seq<bool>, p: nat)
    ensures
        #[trigger] alf_coef_at(s, p) matches Err(f) ==> f == Fault::Invalid,
{
    broadcast use crate::bits::law_faults_ue;

    reveal(alf_coef_at);
}

/// What the writer accepts reads back: a coefficient, where each field fits its
/// width and what is not coded has the value that is taken for it.
pub proof fn law_reads_alf_coef(a: Seq<bool>, x: (u32, bool), s: Seq<bool>)
    requires
        alf_coef_can(x),
        !(x.0 != 0) ==> x.1 == false,
        pre(put_alf_coef(a, x), s),
    ensures
        alf_coef_at(s, a.len()) == Ok::<((u32, bool), nat), Fault>((x, put_alf_coef(a, x).len())),
{
    assert(alf_coef_ok(x)) by {
        broadcast use crate::bits::law_fits_small;

        reveal(alf_coef_ok);
        reveal(alf_coef_can);
    }
    law_pre_put_alf_coef(a, x, s);
}

/// Reads a coefficient, behind the items before it.
pub open spec fn alf_coefs_item(s: Seq<bool>) -> spec_fn(Seq<(u32, bool)>, nat) -> Read<(u32, bool)> {
    |done: Seq<(u32, bool)>, q: nat| alf_coef_at(s, q)
}

/// Writes a coefficient, behind the items before it.
pub open spec fn put_alf_coefs_item() -> spec_fn(Seq<bool>, Seq<(u32, bool)>, (u32, bool)) -> Seq<bool> {
    |a: Seq<bool>, done: Seq<(u32, bool)>, x: (u32, bool)| put_alf_coef(a, x)
}

/// Whether a coefficient may follow the items before it.
pub open spec fn alf_coefs_item_ok() -> spec_fn(Seq<(u32, bool)>, (u32, bool)) -> bool {
    |done: Seq<(u32, bool)>, x: (u32, bool)| alf_coef_ok(x) && alf_coef_can(x)
}

/// `n` items at position `p`, each a coefficient.
#[verifier::opaque]
pub open spec fn alf_coefs_at(s: Seq<bool>, p: nat, n: u64) -> Read<Seq<(u32, bool)>> {
    rep_at(alf_coefs_item(s), p, n as nat)
}

/// The bits `a` followed by the items.
#[verifier::opaque]
pub open spec fn put_alf_coefs(a: Seq<bool>, xs: Seq<(u32, bool)>, n: u64) -> Seq<bool> {
    put_rep(put_alf_coefs_item(), a, xs)
}

/// `n` items that reading can give.
#[verifier::opaque]
pub open spec fn alf_coefs_ok(xs: Seq<(u32, bool)>, n: u64) -> bool {
    xs.len() == n && forall|i: int| 0 <= i < xs.len() ==> alf_coef_ok(#[trigger] xs[i]) && alf_coef_can(xs[i])
}

/// `n` items that the writer accepts.
#[verifier::opaque]
pub open spec fn alf_coefs_can(xs: Seq<(u32, bool)>, n: u64) -> bool {
    xs.len() == n && forall|i: int| 0 <= i < xs.len() ==> alf_coef_can(#[trigger] xs[i])
}

/// Parses `n` items, each a coefficient.
fn parse_alf_coefs(
    r: &mut BitReader<'_>,
    n: u64,
    name: &str,
) -> (res: Result<Vec<(u32, bool)>, BitstreamError>)
    ensures
        read_vec_is(alf_coefs_at(old(r).bits(), old(r).pos(), n), res, *old(r), *final(r)),
        res matches Ok(v) ==> v@.len() == n,
{
    let ghost s = r.bits();
    let ghost p = r.pos();
    let ghost reads = alf_coefs_item(s);
    let mut xs: Vec<(u32, bool)> = Vec::new();
    let mut i: u64 = 0;
    proof {
        reveal(alf_coefs_at);
    }
    while i < n
        invariant
            i <= n,
            xs@.len() == i,
            reads == alf_coefs_item(s),
            s == r.bits(),
            s == old(r).bits(),
            p == old(r).pos(),
            r.bytes() == old(r).bytes(),
            rep_at(reads, p, i as nat) == Ok::<(Seq<(u32, bool)>, nat), Fault>((xs@, r.pos())),
        decreases n - i,
    {
        match parse_alf_coef(r, name) {
            Ok(x) => {
                xs.push(x);
            },
            Err(e) => {
                proof {
                    reveal(alf_coefs_at);
                    lemma_rep_err(reads, p, (i + 1) as nat, n as nat);
                }
                return Err(e);
            },
        }
        i = i + 1;
    }
    Ok(xs)
}

/// Emits `n` items, each a coefficient.
fn write_alf_coefs(
    w: &mut BitWriter,
    xs: &Vec<(u32, bool)>,
    n: u64,
    name: &str,
) -> (res: Result<(), BitstreamError>)
    ensures
        write_is(alf_coefs_can(xs@, n), put_alf_coefs(old(w)@, xs@, n), res, final(w)@),
        res is Ok ==> xs@.len() == n,
{
    let ghost before = w@;
    let ghost puts = put_alf_coefs_item();
    let ghost ys = xs@;
    proof {
        reveal(put_alf_coefs);
        reveal(alf_coefs_can);
        assert(ys.take(0) =~= Seq::empty());
    }
    if xs.len() as u64 != n {
        return Err(BitstreamError::invalid("unexpected number of entries"));
    }
    let mut i: usize = 0;
    while i < xs.len()
        invariant
            i <= xs@.len(),
            xs@.len() == n,
            ys == xs@,
            ys.len() == xs@.len(),
            before == old(w)@,
            puts == put_alf_coefs_item(),
            w@ == put_rep(puts, before, ys.take(i as int)),
            forall|j: int| 0 <= j < i ==> alf_coef_can(#[trigger] ys[j]),
        ensures
            i == xs@.len(),
        decreases xs@.len() - i,
    {
        proof {
            assert(ys.take(i + 1).drop_last() =~= ys.take(i as int));
            assert(ys[i as int] == xs@[i as int]);
        }
        match write_alf_coef(w, &xs[i], name) {
            Ok(()) => {},
            Err(e) => {
                proof {
                    reveal(alf_coefs_can);
                }
                return Err(e);
            },
        }
        i = i + 1;
    }
    proof {
        assert(ys.take(i as int) =~= ys);
    }
    Ok(())
}

/// Writing what was read gives back the bits that were read.
pub broadcast proof fn law_put_alf_coefs_at(s: Seq<bool>, p: nat, n: u64)
    ensures
        #[trigger] alf_coefs_at(s, p, n) matches Ok((xs, q)) ==> {
            &&& xs.len() == n
            &&& alf_coefs_ok(xs, n)
            &&& alf_coefs_can(xs, n)
            &&& within(s, q) ==> within(s, p) && put_alf_coefs(upto(s, p), xs, n) == upto(s, q)
        },
{
    broadcast use law_put_alf_coef_at;

    reveal(alf_coefs_at);
    reveal(put_alf_coefs);
    reveal(alf_coefs_ok);
    reveal(alf_coefs_can);
    let ok = alf_coefs_item_ok();
    law_put_rep_at(s, alf_coefs_item(s), put_alf_coefs_item(), ok, p, n as nat);
    if let Ok((xs, q)) = alf_coefs_at(s, p, n) {
        assert forall|i: int| 0 <= i < xs.len() implies ok(xs.take(i), #[trigger] xs[i]) by {}
    }
}

/// What was written reads back as the items that were written.
pub broadcast proof fn law_pre_put_alf_coefs(a: Seq<bool>, xs: Seq<(u32, bool)>, n: u64, s: Seq<bool>)
    requires
        #[trigger] pre(put_alf_coefs(a, xs, n), s),
        alf_coefs_ok(xs, n),
    ensures
        pre(a, s),
        alf_coefs_can(xs, n),
        alf_coefs_at(s, a.len(), n) == Ok::<(Seq<(u32, bool)>, nat), Fault>(
            (xs, put_alf_coefs(a, xs, n).len()),
        ),
{
    broadcast use law_pre_put_alf_coef;

    reveal(alf_coefs_at);
    reveal(put_alf_coefs);
    reveal(alf_coefs_ok);
    reveal(alf_coefs_can);
    law_rep_at_put(s, alf_coefs_item(s), put_alf_coefs_item(), alf_coefs_item_ok(), a, xs);
}

/// `n` items stand one behind the other: `n - 1` items, and then a coefficient.
pub proof fn law_layout_alf_coefs(s: Seq<bool>, p: nat, n: u64, xs: Seq<(u32, bool)>, q: nat)
    ensures
        alf_coefs_at(s, p, n) == Ok::<(Seq<(u32, bool)>, nat), Fault>((xs, q)) <==> if n == 0 {
            xs.len() == 0 && q == p
        } else {
            &&& xs.len() == n
            &&& cursor(s, p)
                .part(|p: nat| alf_coefs_at(s, p, (n - 1) as u64), xs.drop_last())
                .part(|p: nat| alf_coef_at(s, p), xs.last())
                .ends(q)
        },
{
    reveal(alf_coefs_at);
    lemma_rep_step(alf_coefs_item(s), p, n as nat);
    if xs.len() == 0 {
        assert(xs =~= Seq::empty());
    } else {
        assert(xs =~= xs.drop_last().push(xs.last()));
    }
    if n > 0 {
        if let Ok((done, r)) = rep_at(alf_coefs_item(s), p, (n - 1) as nat) {
            if let Ok((y, z)) = alf_coefs_item(s)(done, r) {
                assert(done.push(y).drop_last() =~= done);
            }
        }
    }
}

/// What the writer accepts as `n` items reads back, where each of them is one that
/// reading can give.
pub proof fn law_reads_alf_coefs(a: Seq<bool>, xs: Seq<(u32, bool)>, n: u64, s: Seq<bool>)
    requires
        alf_coefs_can(xs, n),
        forall|i: int| 0 <= i < xs.len() ==> alf_coef_ok(#[trigger] xs[i]),
        pre(put_alf_coefs(a, xs, n), s),
    ensures
        xs.len() == n,
        alf_coefs_at(s, a.len(), n) == Ok::<(Seq<(u32, bool)>, nat), Fault>(
            (xs, put_alf_coefs(a, xs, n).len()),
        ),
{
    reveal(alf_coefs_can);
    assert(alf_coefs_ok(xs, n)) by {
        reveal(alf_coefs_ok);
    }
    law_pre_put_alf_coefs(a, xs, n, s);
}

/// Reading the items fails only with an error of this class.
pub broadcast proof fn law_faults_alf_coefs(s: Seq<bool>, p: nat, n: u64)
    ensures
        #[trigger] alf_coefs_at(s, p, n) matches Err(f) ==> f == Fault::Invalid,
{
    broadcast use law_faults_alf_coef;

    reveal(alf_coefs_at);
    let f = alf_coefs_item(s);
    assert forall|done: Seq<(u32, bool)>, q: nat| (#[trigger] f(done, q)) matches Err(e)
        ==> e == Fault::Invalid by {}
    lemma_rep_faults(f, p, n as nat, |f: Fault| f == Fault::Invalid);
}

/// A row of `width` coefficients at position `p`.
#[verifier::opaque]
pub open spec fn alf_row_at(s: Seq<bool>, p: nat, width: u64) -> Read<Seq<(u32, bool)>> {
    match alf_coefs_at(s, p, width) { Err(f) => Err(f), Ok((cs, p)) => {
    Ok((cs, p)) }}
}

/// The bits `a` followed by a row of `width` coefficients.
#[verifier::opaque]
pub open spec fn put_alf_row(a: Seq<bool>, x: Seq<(u32, bool)>, width: u64) -> Seq<bool> {
    let a = put_alf_coefs(a, x, width);
    a
}

/// The values of a row of `width` coefficients that reading can give.
#[verifier::opaque]
pub open spec fn alf_row_ok(x: Seq<(u32, bool)>, width: u64) -> bool {
    &&& alf_coefs_ok(x, width)
}

/// The values of a row of `width` coefficients that the writer accepts.
#[verifier::opaque]
pub open spec fn alf_row_can(x: Seq<(u32, bool)>, width: u64) -> bool {
    &&& alf_coefs_can(x, width)
}

/// Parses a row of `width` coefficients.
fn parse_alf_row(r: &mut BitReader<'_>, width: u64) -> (res: Result<Vec<(u32, bool)>, BitstreamError>)
    ensures
        read_view_is(alf_row_at(old(r).bits(), old(r).pos(), width), res, *old(r), *final(r)),
{
    proof {
        reveal(alf_row_at);
    }
    let cs = parse_alf_coefs(r, width, "alf_luma_coeff")?;
    Ok(cs)
}

/// Emits a row of `width` coefficients, the inverse of [`parse_alf_row`].
fn write_alf_row(w: &mut BitWriter, x: &Vec<(u32, bool)>, width: u64) -> (res: Result<(), BitstreamError>)
    ensures
        write_is(alf_row_can(x@, width), put_alf_row(old(w)@, x@, width), res, final(w)@),
{
    proof {
        reveal(put_alf_row);
        reveal(alf_row_can);
    }
    write_alf_coefs(w, &(*x), width, "alf_luma_coeff")?;
    Ok(())
}

/// Writing a row of `width` coefficients gives back the bits it was read from.
pub broadcast proof fn law_put_alf_row_at(s: Seq<bool>, p: nat, width: u64)
    ensures
        #[trigger] alf_row_at(s, p, width) matches Ok((x, q)) ==> {
            &&& alf_row_ok(x, width)
            &&& alf_row_can(x, width)
            &&& within(s, q) ==> within(s, p) && put_alf_row(upto(s, p), x, width) == upto(s, q)
        },
{
    broadcast use {crate::bits::group_write_read, law_put_alf_coefs_at};

    reveal(alf_row_at);
    reveal(put_alf_row);
    reveal(alf_row_ok);
    reveal(alf_row_can);
}

/// Reading gives back a row of `width` coefficients as it was written.
pub broadcast proof fn law_pre_put_alf_row(a: Seq<bool>, x: Seq<(u32, bool)>, width: u64, s: Seq<bool>)
    requires
        #[trigger] pre(put_alf_row(a, x, width), s),
        alf_row_ok(x, width),
    ensures
        pre(a, s),
        alf_row_can(x, width),
        alf_row_at(s, a.len(), width) == Ok::<(Seq<(u32, bool)>, nat), Fault>(
            (x, put_alf_row(a, x, width).len()),
        ),
{
    broadcast use {crate::bits::group_read_written, law_pre_put_alf_coefs};

    reveal(alf_row_at);
    reveal(put_alf_row);
    reveal(alf_row_ok);
    reveal(alf_row_can);
}

/// The layout of a row of `width` coefficients: reading at `p` gives `x` and
/// ends at `q` if and only if these elements stand there in this order.
pub proof fn law_layout_alf_row(s: Seq<bool>, p: nat, width: u64, x: Seq<(u32, bool)>, q: nat)
    ensures
        alf_row_at(s, p, width) == Ok::<(Seq<(u32, bool)>, nat), Fault>((x, q))
            <==> cursor(s, p).part(|p: nat| alf_coefs_at(s, p, width), x).ends(q),
{
    reveal(alf_row_at);
}

/// Reading a row of `width` coefficients fails only with an error of this
/// class.
pub broadcast proof fn law_faults_alf_row(s: Seq<bool>, p: nat, width: u64)
    ensures
        #[trigger] alf_row_at(s, p, width) matches Err(f) ==> f == Fault::Invalid,
{
    broadcast use law_faults_alf_coefs;

    reveal(alf_row_at);
}

/// What the writer accepts reads back: a row of `width` coefficients, where
/// each field fits its width and what is not coded has the value that is taken
/// for it.
pub proof fn law_reads_alf_row(a: Seq<bool>, x: Seq<(u32, bool)>, width: u64, s: Seq<bool>)
    requires
        alf_row_can(x, width),
        alf_coefs_ok(x, width),
        pre(put_alf_row(a, x, width), s),
    ensures
        alf_row_at(s, a.len(), width) == Ok::<(Seq<(u32, bool)>, nat), Fault>(
            (x, put_alf_row(a, x, width).len()),
        ),
{
    assert(alf_row_ok(x, width)) by {
        broadcast use crate::bits::law_fits_small;

        reveal(alf_row_ok);
        reveal(alf_row_can);
    }
    law_pre_put_alf_row(a, x, width, s);
}

/// Reads a row of `width` coefficients, behind the items before it.
pub open spec fn alf_rows_item(
    s: Seq<bool>,
    width: u64,
) -> spec_fn(Seq<Seq<(u32, bool)>>, nat) -> Read<Seq<(u32, bool)>> {
    |done: Seq<Seq<(u32, bool)>>, q: nat| alf_row_at(s, q, width)
}

/// Writes a row of `width` coefficients, behind the items before it.
pub open spec fn put_alf_rows_item(
    width: u64,
) -> spec_fn(Seq<bool>, Seq<Seq<(u32, bool)>>, Seq<(u32, bool)>) -> Seq<bool> {
    |a: Seq<bool>, done: Seq<Seq<(u32, bool)>>, x: Seq<(u32, bool)>| put_alf_row(a, x, width)
}

/// Whether a row of `width` coefficients may follow the items before it.
pub open spec fn alf_rows_item_ok(width: u64) -> spec_fn(Seq<Seq<(u32, bool)>>, Seq<(u32, bool)>) -> bool {
    |done: Seq<Seq<(u32, bool)>>, x: Seq<(u32, bool)>| alf_row_ok(x, width) && alf_row_can(x, width)
}

/// `n` items at position `p`, each a row of `width` coefficients.
#[verifier::opaque]
pub open spec fn alf_rows_at(s: Seq<bool>, p: nat, width: u64, n: u64) -> Read<Seq<Seq<(u32, bool)>>> {
    rep_at(alf_rows_item(s, width), p, n as nat)
}

/// The bits `a` followed by the items.
#[verifier::opaque]
pub open spec fn put_alf_rows(a: Seq<bool>, xs: Seq<Seq<(u32, bool)>>, width: u64, n: u64) -> Seq<bool> {
    put_rep(put_alf_rows_item(width), a, xs)
}

/// `n` items that reading can give.
#[verifier::opaque]
pub open spec fn alf_rows_ok(xs: Seq<Seq<(u32, bool)>>, width: u64, n: u64) -> bool {
    xs.len() == n
        && forall|i: int| 0 <= i < xs.len()
        ==> alf_row_ok(#[trigger] xs[i], width)
        && alf_row_can(xs[i], width)
}

/// `n` items that the writer accepts.
#[verifier::opaque]
pub open spec fn alf_rows_can(xs: Seq<Seq<(u32, bool)>>, width: u64, n: u64) -> bool {
    xs.len() == n && forall|i: int| 0 <= i < xs.len() ==> alf_row_can(#[trigger] xs[i], width)
}

/// Parses `n` items, each a row of `width` coefficients.
fn parse_alf_rows(
    r: &mut BitReader<'_>,
    width: u64,
    n: u64,
) -> (res: Result<Vec<Vec<(u32, bool)>>, BitstreamError>)
    ensures
        read_seq_is(alf_rows_at(old(r).bits(), old(r).pos(), width, n), res, *old(r), *final(r)),
        res matches Ok(v) ==> v@.len() == n,
{
    let ghost s = r.bits();
    let ghost p = r.pos();
    let ghost reads = alf_rows_item(s, width);
    let mut xs: Vec<Vec<(u32, bool)>> = Vec::new();
    let mut i: u64 = 0;
    proof {
        reveal(alf_rows_at);
        assert(seq_view(xs@) =~= Seq::empty());
    }
    while i < n
        invariant
            i <= n,
            xs@.len() == i,
            reads == alf_rows_item(s, width),
            s == r.bits(),
            s == old(r).bits(),
            p == old(r).pos(),
            r.bytes() == old(r).bytes(),
            rep_at(reads, p, i as nat) == Ok::<(Seq<Seq<(u32, bool)>>, nat), Fault>((seq_view(xs@), r.pos())),
        decreases n - i,
    {
        match parse_alf_row(r, width) {
            Ok(x) => {
                proof {
                lemma_seq_view_push(xs@, x);
            }
            xs.push(x);
            },
            Err(e) => {
                proof {
                    reveal(alf_rows_at);
                    lemma_rep_err(reads, p, (i + 1) as nat, n as nat);
                }
                return Err(e);
            },
        }
        i = i + 1;
    }
    Ok(xs)
}

/// Emits `n` items, each a row of `width` coefficients.
fn write_alf_rows(
    w: &mut BitWriter,
    xs: &Vec<Vec<(u32, bool)>>,
    width: u64,
    n: u64,
) -> (res: Result<(), BitstreamError>)
    ensures
        write_is(
            alf_rows_can(seq_view(xs@), width, n),
            put_alf_rows(old(w)@, seq_view(xs@), width, n),
            res,
            final(w)@,
        ),
        res is Ok ==> xs@.len() == n,
{
    let ghost before = w@;
    let ghost puts = put_alf_rows_item(width);
    let ghost ys = seq_view(xs@);
    proof {
        reveal(put_alf_rows);
        reveal(alf_rows_can);
        assert(ys.take(0) =~= Seq::empty());
    }
    if xs.len() as u64 != n {
        return Err(BitstreamError::invalid("unexpected number of entries"));
    }
    let mut i: usize = 0;
    while i < xs.len()
        invariant
            i <= xs@.len(),
            xs@.len() == n,
            ys == seq_view(xs@),
            ys.len() == xs@.len(),
            before == old(w)@,
            puts == put_alf_rows_item(width),
            w@ == put_rep(puts, before, ys.take(i as int)),
            forall|j: int| 0 <= j < i ==> alf_row_can(#[trigger] ys[j], width),
        ensures
            i == xs@.len(),
        decreases xs@.len() - i,
    {
        proof {
            assert(ys.take(i + 1).drop_last() =~= ys.take(i as int));
            assert(ys[i as int] == xs@[i as int]@);
        }
        match write_alf_row(w, &xs[i], width) {
            Ok(()) => {},
            Err(e) => {
                proof {
                    reveal(alf_rows_can);
                }
                return Err(e);
            },
        }
        i = i + 1;
    }
    proof {
        assert(ys.take(i as int) =~= ys);
    }
    Ok(())
}

/// Writing what was read gives back the bits that were read.
pub broadcast proof fn law_put_alf_rows_at(s: Seq<bool>, p: nat, width: u64, n: u64)
    ensures
        #[trigger] alf_rows_at(s, p, width, n) matches Ok((xs, q)) ==> {
            &&& xs.len() == n
            &&& alf_rows_ok(xs, width, n)
            &&& alf_rows_can(xs, width, n)
            &&& within(s, q) ==> within(s, p) && put_alf_rows(upto(s, p), xs, width, n) == upto(s, q)
        },
{
    broadcast use law_put_alf_row_at;

    reveal(alf_rows_at);
    reveal(put_alf_rows);
    reveal(alf_rows_ok);
    reveal(alf_rows_can);
    let ok = alf_rows_item_ok(width);
    law_put_rep_at(s, alf_rows_item(s, width), put_alf_rows_item(width), ok, p, n as nat);
    if let Ok((xs, q)) = alf_rows_at(s, p, width, n) {
        assert forall|i: int| 0 <= i < xs.len() implies ok(xs.take(i), #[trigger] xs[i]) by {}
    }
}

/// What was written reads back as the items that were written.
pub broadcast proof fn law_pre_put_alf_rows(
    a: Seq<bool>,
    xs: Seq<Seq<(u32, bool)>>,
    width: u64,
    n: u64,
    s: Seq<bool>,
)
    requires
        #[trigger] pre(put_alf_rows(a, xs, width, n), s),
        alf_rows_ok(xs, width, n),
    ensures
        pre(a, s),
        alf_rows_can(xs, width, n),
        alf_rows_at(s, a.len(), width, n) == Ok::<(Seq<Seq<(u32, bool)>>, nat), Fault>(
            (xs, put_alf_rows(a, xs, width, n).len()),
        ),
{
    broadcast use law_pre_put_alf_row;

    reveal(alf_rows_at);
    reveal(put_alf_rows);
    reveal(alf_rows_ok);
    reveal(alf_rows_can);
    law_rep_at_put(s, alf_rows_item(s, width), put_alf_rows_item(width), alf_rows_item_ok(width), a, xs);
}

/// `n` items stand one behind the other: `n - 1` items, and then a row of
/// `width` coefficients.
pub proof fn law_layout_alf_rows(s: Seq<bool>, p: nat, width: u64, n: u64, xs: Seq<Seq<(u32, bool)>>, q: nat)
    ensures
        alf_rows_at(s, p, width, n) == Ok::<(Seq<Seq<(u32, bool)>>, nat), Fault>((xs, q)) <==> if n == 0 {
            xs.len() == 0 && q == p
        } else {
            &&& xs.len() == n
            &&& cursor(s, p)
                .part(|p: nat| alf_rows_at(s, p, width, (n - 1) as u64), xs.drop_last())
                .part(|p: nat| alf_row_at(s, p, width), xs.last())
                .ends(q)
        },
{
    reveal(alf_rows_at);
    lemma_rep_step(alf_rows_item(s, width), p, n as nat);
    if xs.len() == 0 {
        assert(xs =~= Seq::empty());
    } else {
        assert(xs =~= xs.drop_last().push(xs.last()));
    }
    if n > 0 {
        if let Ok((done, r)) = rep_at(alf_rows_item(s, width), p, (n - 1) as nat) {
            if let Ok((y, z)) = alf_rows_item(s, width)(done, r) {
                assert(done.push(y).drop_last() =~= done);
            }
        }
    }
}

/// What the writer accepts as `n` items reads back, where each of them is one that
/// reading can give.
pub proof fn law_reads_alf_rows(a: Seq<bool>, xs: Seq<Seq<(u32, bool)>>, width: u64, n: u64, s: Seq<bool>)
    requires
        alf_rows_can(xs, width, n),
        forall|i: int| 0 <= i < xs.len() ==> alf_row_ok(#[trigger] xs[i], width),
        pre(put_alf_rows(a, xs, width, n), s),
    ensures
        xs.len() == n,
        alf_rows_at(s, a.len(), width, n) == Ok::<(Seq<Seq<(u32, bool)>>, nat), Fault>(
            (xs, put_alf_rows(a, xs, width, n).len()),
        ),
{
    reveal(alf_rows_can);
    assert(alf_rows_ok(xs, width, n)) by {
        reveal(alf_rows_ok);
    }
    law_pre_put_alf_rows(a, xs, width, n, s);
}

/// Reading the items fails only with an error of this class.
pub broadcast proof fn law_faults_alf_rows(s: Seq<bool>, p: nat, width: u64, n: u64)
    ensures
        #[trigger] alf_rows_at(s, p, width, n) matches Err(f) ==> f == Fault::Invalid,
{
    broadcast use law_faults_alf_row;

    reveal(alf_rows_at);
    let f = alf_rows_item(s, width);
    assert forall|done: Seq<Seq<(u32, bool)>>, q: nat| (#[trigger] f(done, q)) matches Err(e)
        ==> e == Fault::Invalid by {}
    lemma_rep_faults(f, p, n as nat, |f: Fault| f == Fault::Invalid);
}

/// A cross-component coefficient at position `p`.
#[verifier::opaque]
pub open spec fn cc_coef_at(s: Seq<bool>, p: nat) -> Read<(u8, bool)> {
    let abs = u8_at(s, p, 3);
    let p = adv(p, 3);
    let sign = flag_if(s, p, abs != 0, false);
    let p = adv_if(p, 1, abs != 0);
    Ok(((abs, sign), p))
}

/// The bits `a` followed by a cross-component coefficient.
#[verifier::opaque]
pub open spec fn put_cc_coef(a: Seq<bool>, x: (u8, bool)) -> Seq<bool> {
    let a = put_u(a, x.0 as nat, 3);
    let a = put_flag_if(a, x.1, x.0 != 0);
    a
}

/// The values of a cross-component coefficient that reading can give.
#[verifier::opaque]
pub open spec fn cc_coef_ok(x: (u8, bool)) -> bool {
    &&& fits(x.0 as nat, 3)
    &&& x.0 != 0 || !x.1
}

/// The values of a cross-component coefficient that the writer accepts.
#[verifier::opaque]
pub open spec fn cc_coef_can(x: (u8, bool)) -> bool {
    &&& x.0 <= 7
    &&& x.0 != 0 || !x.1
}

/// Parses a cross-component coefficient.
fn parse_cc_coef(r: &mut BitReader<'_>) -> (res: Result<(u8, bool), BitstreamError>)
    ensures
        read_is(cc_coef_at(old(r).bits(), old(r).pos()), res, *old(r), *final(r)),
{
    proof {
        reveal(cc_coef_at);
    }
    let abs: u8 = r.u8(3);
    let sign: bool = r.flag_if(abs != 0, false);
    Ok((abs, sign))
}

/// Emits a cross-component coefficient, the inverse of [`parse_cc_coef`].
fn write_cc_coef(w: &mut BitWriter, x: &(u8, bool)) -> (res: Result<(), BitstreamError>)
    ensures
        write_is(cc_coef_can(*x), put_cc_coef(old(w)@, *x), res, final(w)@),
{
    proof {
        reveal(put_cc_coef);
        reveal(cc_coef_can);
    }
    if x.0 > 7 {
        return Err(BitstreamError::invalid("alf_cc_*_mapped_coeff_abs does not fit u(3)"));
    }
    w.write_bits(x.0 as u32, 3);
    w.write_flag_if(x.1, x.0 != 0);
    if !(x.0 != 0 || !x.1) {
        return Err(
            BitstreamError::invalid("alf_cc_*_coeff_sign is inferred 0 for a zero coefficient (§7.4.3.18)"),
        );
    }
    Ok(())
}

/// Writing a cross-component coefficient gives back the bits it was read from.
pub broadcast proof fn law_put_cc_coef_at(s: Seq<bool>, p: nat)
    ensures
        #[trigger] cc_coef_at(s, p) matches Ok((x, q)) ==> {
            &&& cc_coef_ok(x)
            &&& cc_coef_can(x)
            &&& within(s, q) ==> within(s, p) && put_cc_coef(upto(s, p), x) == upto(s, q)
        },
{
    broadcast use crate::bits::group_write_read;

    reveal(cc_coef_at);
    reveal(put_cc_coef);
    reveal(cc_coef_ok);
    reveal(cc_coef_can);
}

/// Reading gives back a cross-component coefficient as it was written.
pub broadcast proof fn law_pre_put_cc_coef(a: Seq<bool>, x: (u8, bool), s: Seq<bool>)
    requires
        #[trigger] pre(put_cc_coef(a, x), s),
        cc_coef_ok(x),
    ensures
        pre(a, s),
        cc_coef_can(x),
        cc_coef_at(s, a.len()) == Ok::<((u8, bool), nat), Fault>((x, put_cc_coef(a, x).len())),
{
    broadcast use crate::bits::group_read_written;

    reveal(cc_coef_at);
    reveal(put_cc_coef);
    reveal(cc_coef_ok);
    reveal(cc_coef_can);
}

/// The layout of a cross-component coefficient: reading at `p` gives `x` and
/// ends at `q` if and only if these elements stand there in this order.
pub proof fn law_layout_cc_coef(s: Seq<bool>, p: nat, x: (u8, bool), q: nat)
    ensures
        cc_coef_at(s, p) == Ok::<((u8, bool), nat), Fault>((x, q)) <==> cursor(s, p)
            .u8(3, x.0)
            .flag_if(x.0 != 0, x.1, false)
            .ends(q),
{
    reveal(cc_coef_at);
    reveal(adv_if);
    reveal(flag_if);
}

/// Reading a cross-component coefficient never fails.
pub broadcast proof fn law_faults_cc_coef(s: Seq<bool>, p: nat)
    ensures
        #[trigger] cc_coef_at(s, p) is Ok,
{
    reveal(cc_coef_at);
}

/// What the writer accepts reads back: a cross-component coefficient, where
/// each field fits its width and what is not coded has the value that is taken
/// for it.
pub proof fn law_reads_cc_coef(a: Seq<bool>, x: (u8, bool), s: Seq<bool>)
    requires
        cc_coef_can(x),
        !(x.0 != 0) ==> x.1 == false,
        pre(put_cc_coef(a, x), s),
    ensures
        cc_coef_at(s, a.len()) == Ok::<((u8, bool), nat), Fault>((x, put_cc_coef(a, x).len())),
{
    assert(cc_coef_ok(x)) by {
        broadcast use crate::bits::law_fits_small;

        reveal(cc_coef_ok);
        reveal(cc_coef_can);
    }
    law_pre_put_cc_coef(a, x, s);
}

/// Reads a cross-component coefficient, behind the items before it.
pub open spec fn cc_coefs_item(s: Seq<bool>) -> spec_fn(Seq<(u8, bool)>, nat) -> Read<(u8, bool)> {
    |done: Seq<(u8, bool)>, q: nat| cc_coef_at(s, q)
}

/// Writes a cross-component coefficient, behind the items before it.
pub open spec fn put_cc_coefs_item() -> spec_fn(Seq<bool>, Seq<(u8, bool)>, (u8, bool)) -> Seq<bool> {
    |a: Seq<bool>, done: Seq<(u8, bool)>, x: (u8, bool)| put_cc_coef(a, x)
}

/// Whether a cross-component coefficient may follow the items before it.
pub open spec fn cc_coefs_item_ok() -> spec_fn(Seq<(u8, bool)>, (u8, bool)) -> bool {
    |done: Seq<(u8, bool)>, x: (u8, bool)| cc_coef_ok(x) && cc_coef_can(x)
}

/// `n` items at position `p`, each a cross-component coefficient.
#[verifier::opaque]
pub open spec fn cc_coefs_at(s: Seq<bool>, p: nat, n: u64) -> Read<Seq<(u8, bool)>> {
    rep_at(cc_coefs_item(s), p, n as nat)
}

/// The bits `a` followed by the items.
#[verifier::opaque]
pub open spec fn put_cc_coefs(a: Seq<bool>, xs: Seq<(u8, bool)>, n: u64) -> Seq<bool> {
    put_rep(put_cc_coefs_item(), a, xs)
}

/// `n` items that reading can give.
#[verifier::opaque]
pub open spec fn cc_coefs_ok(xs: Seq<(u8, bool)>, n: u64) -> bool {
    xs.len() == n && forall|i: int| 0 <= i < xs.len() ==> cc_coef_ok(#[trigger] xs[i]) && cc_coef_can(xs[i])
}

/// `n` items that the writer accepts.
#[verifier::opaque]
pub open spec fn cc_coefs_can(xs: Seq<(u8, bool)>, n: u64) -> bool {
    xs.len() == n && forall|i: int| 0 <= i < xs.len() ==> cc_coef_can(#[trigger] xs[i])
}

/// Parses `n` items, each a cross-component coefficient.
fn parse_cc_coefs(r: &mut BitReader<'_>, n: u64) -> (res: Result<Vec<(u8, bool)>, BitstreamError>)
    ensures
        read_vec_is(cc_coefs_at(old(r).bits(), old(r).pos(), n), res, *old(r), *final(r)),
        res matches Ok(v) ==> v@.len() == n,
{
    let ghost s = r.bits();
    let ghost p = r.pos();
    let ghost reads = cc_coefs_item(s);
    let mut xs: Vec<(u8, bool)> = Vec::new();
    let mut i: u64 = 0;
    proof {
        reveal(cc_coefs_at);
    }
    while i < n
        invariant
            i <= n,
            xs@.len() == i,
            reads == cc_coefs_item(s),
            s == r.bits(),
            s == old(r).bits(),
            p == old(r).pos(),
            r.bytes() == old(r).bytes(),
            rep_at(reads, p, i as nat) == Ok::<(Seq<(u8, bool)>, nat), Fault>((xs@, r.pos())),
        decreases n - i,
    {
        match parse_cc_coef(r) {
            Ok(x) => {
                xs.push(x);
            },
            Err(e) => {
                proof {
                    reveal(cc_coefs_at);
                    lemma_rep_err(reads, p, (i + 1) as nat, n as nat);
                }
                return Err(e);
            },
        }
        i = i + 1;
    }
    Ok(xs)
}

/// Emits `n` items, each a cross-component coefficient.
fn write_cc_coefs(w: &mut BitWriter, xs: &Vec<(u8, bool)>, n: u64) -> (res: Result<(), BitstreamError>)
    ensures
        write_is(cc_coefs_can(xs@, n), put_cc_coefs(old(w)@, xs@, n), res, final(w)@),
        res is Ok ==> xs@.len() == n,
{
    let ghost before = w@;
    let ghost puts = put_cc_coefs_item();
    let ghost ys = xs@;
    proof {
        reveal(put_cc_coefs);
        reveal(cc_coefs_can);
        assert(ys.take(0) =~= Seq::empty());
    }
    if xs.len() as u64 != n {
        return Err(BitstreamError::invalid("unexpected number of entries"));
    }
    let mut i: usize = 0;
    while i < xs.len()
        invariant
            i <= xs@.len(),
            xs@.len() == n,
            ys == xs@,
            ys.len() == xs@.len(),
            before == old(w)@,
            puts == put_cc_coefs_item(),
            w@ == put_rep(puts, before, ys.take(i as int)),
            forall|j: int| 0 <= j < i ==> cc_coef_can(#[trigger] ys[j]),
        ensures
            i == xs@.len(),
        decreases xs@.len() - i,
    {
        proof {
            assert(ys.take(i + 1).drop_last() =~= ys.take(i as int));
            assert(ys[i as int] == xs@[i as int]);
        }
        match write_cc_coef(w, &xs[i]) {
            Ok(()) => {},
            Err(e) => {
                proof {
                    reveal(cc_coefs_can);
                }
                return Err(e);
            },
        }
        i = i + 1;
    }
    proof {
        assert(ys.take(i as int) =~= ys);
    }
    Ok(())
}

/// Writing what was read gives back the bits that were read.
pub broadcast proof fn law_put_cc_coefs_at(s: Seq<bool>, p: nat, n: u64)
    ensures
        #[trigger] cc_coefs_at(s, p, n) matches Ok((xs, q)) ==> {
            &&& xs.len() == n
            &&& cc_coefs_ok(xs, n)
            &&& cc_coefs_can(xs, n)
            &&& within(s, q) ==> within(s, p) && put_cc_coefs(upto(s, p), xs, n) == upto(s, q)
        },
{
    broadcast use law_put_cc_coef_at;

    reveal(cc_coefs_at);
    reveal(put_cc_coefs);
    reveal(cc_coefs_ok);
    reveal(cc_coefs_can);
    let ok = cc_coefs_item_ok();
    law_put_rep_at(s, cc_coefs_item(s), put_cc_coefs_item(), ok, p, n as nat);
    if let Ok((xs, q)) = cc_coefs_at(s, p, n) {
        assert forall|i: int| 0 <= i < xs.len() implies ok(xs.take(i), #[trigger] xs[i]) by {}
    }
}

/// What was written reads back as the items that were written.
pub broadcast proof fn law_pre_put_cc_coefs(a: Seq<bool>, xs: Seq<(u8, bool)>, n: u64, s: Seq<bool>)
    requires
        #[trigger] pre(put_cc_coefs(a, xs, n), s),
        cc_coefs_ok(xs, n),
    ensures
        pre(a, s),
        cc_coefs_can(xs, n),
        cc_coefs_at(s, a.len(), n) == Ok::<(Seq<(u8, bool)>, nat), Fault>((xs, put_cc_coefs(a, xs, n).len())),
{
    broadcast use law_pre_put_cc_coef;

    reveal(cc_coefs_at);
    reveal(put_cc_coefs);
    reveal(cc_coefs_ok);
    reveal(cc_coefs_can);
    law_rep_at_put(s, cc_coefs_item(s), put_cc_coefs_item(), cc_coefs_item_ok(), a, xs);
}

/// `n` items stand one behind the other: `n - 1` items, and then a
/// cross-component coefficient.
pub proof fn law_layout_cc_coefs(s: Seq<bool>, p: nat, n: u64, xs: Seq<(u8, bool)>, q: nat)
    ensures
        cc_coefs_at(s, p, n) == Ok::<(Seq<(u8, bool)>, nat), Fault>((xs, q)) <==> if n == 0 {
            xs.len() == 0 && q == p
        } else {
            &&& xs.len() == n
            &&& cursor(s, p)
                .part(|p: nat| cc_coefs_at(s, p, (n - 1) as u64), xs.drop_last())
                .part(|p: nat| cc_coef_at(s, p), xs.last())
                .ends(q)
        },
{
    reveal(cc_coefs_at);
    lemma_rep_step(cc_coefs_item(s), p, n as nat);
    if xs.len() == 0 {
        assert(xs =~= Seq::empty());
    } else {
        assert(xs =~= xs.drop_last().push(xs.last()));
    }
    if n > 0 {
        if let Ok((done, r)) = rep_at(cc_coefs_item(s), p, (n - 1) as nat) {
            if let Ok((y, z)) = cc_coefs_item(s)(done, r) {
                assert(done.push(y).drop_last() =~= done);
            }
        }
    }
}

/// What the writer accepts as `n` items reads back, where each of them is one that
/// reading can give.
pub proof fn law_reads_cc_coefs(a: Seq<bool>, xs: Seq<(u8, bool)>, n: u64, s: Seq<bool>)
    requires
        cc_coefs_can(xs, n),
        forall|i: int| 0 <= i < xs.len() ==> cc_coef_ok(#[trigger] xs[i]),
        pre(put_cc_coefs(a, xs, n), s),
    ensures
        xs.len() == n,
        cc_coefs_at(s, a.len(), n) == Ok::<(Seq<(u8, bool)>, nat), Fault>((xs, put_cc_coefs(a, xs, n).len())),
{
    reveal(cc_coefs_can);
    assert(cc_coefs_ok(xs, n)) by {
        reveal(cc_coefs_ok);
    }
    law_pre_put_cc_coefs(a, xs, n, s);
}

/// Reading the items never fails.
pub broadcast proof fn law_faults_cc_coefs(s: Seq<bool>, p: nat, n: u64)
    ensures
        #[trigger] cc_coefs_at(s, p, n) is Ok,
{
    broadcast use law_faults_cc_coef;

    reveal(cc_coefs_at);
    let f = cc_coefs_item(s);
    assert forall|done: Seq<(u8, bool)>, q: nat| (#[trigger] f(done, q)) is Ok by {}
    lemma_rep_faults_none(f, p, n as nat);
}

/// The seven coefficients of a cross-component filter at position `p`.
#[verifier::opaque]
pub open spec fn cc_row_at(s: Seq<bool>, p: nat) -> Read<Seq<(u8, bool)>> {
    match cc_coefs_at(s, p, 7) { Err(f) => Err(f), Ok((cs, p)) => {
    Ok((cs, p)) }}
}

/// The bits `a` followed by the seven coefficients of a cross-component filter.
#[verifier::opaque]
pub open spec fn put_cc_row(a: Seq<bool>, x: Seq<(u8, bool)>) -> Seq<bool> {
    let a = put_cc_coefs(a, x, 7);
    a
}

/// The values of the seven coefficients of a cross-component filter that
/// reading can give.
#[verifier::opaque]
pub open spec fn cc_row_ok(x: Seq<(u8, bool)>) -> bool {
    &&& cc_coefs_ok(x, 7)
}

/// The values of the seven coefficients of a cross-component filter that the
/// writer accepts.
#[verifier::opaque]
pub open spec fn cc_row_can(x: Seq<(u8, bool)>) -> bool {
    &&& cc_coefs_can(x, 7)
}

/// Parses the seven coefficients of a cross-component filter.
fn parse_cc_row(r: &mut BitReader<'_>) -> (res: Result<Vec<(u8, bool)>, BitstreamError>)
    ensures
        read_view_is(cc_row_at(old(r).bits(), old(r).pos()), res, *old(r), *final(r)),
{
    proof {
        reveal(cc_row_at);
    }
    let cs = parse_cc_coefs(r, 7)?;
    Ok(cs)
}

/// Emits the seven coefficients of a cross-component filter, the inverse of [`parse_cc_row`].
fn write_cc_row(w: &mut BitWriter, x: &Vec<(u8, bool)>) -> (res: Result<(), BitstreamError>)
    ensures
        write_is(cc_row_can(x@), put_cc_row(old(w)@, x@), res, final(w)@),
{
    proof {
        reveal(put_cc_row);
        reveal(cc_row_can);
    }
    write_cc_coefs(w, &(*x), 7)?;
    Ok(())
}

/// Writing the seven coefficients of a cross-component filter gives back the
/// bits it was read from.
pub broadcast proof fn law_put_cc_row_at(s: Seq<bool>, p: nat)
    ensures
        #[trigger] cc_row_at(s, p) matches Ok((x, q)) ==> {
            &&& cc_row_ok(x)
            &&& cc_row_can(x)
            &&& within(s, q) ==> within(s, p) && put_cc_row(upto(s, p), x) == upto(s, q)
        },
{
    broadcast use {crate::bits::group_write_read, law_put_cc_coefs_at};

    reveal(cc_row_at);
    reveal(put_cc_row);
    reveal(cc_row_ok);
    reveal(cc_row_can);
}

/// Reading gives back the seven coefficients of a cross-component filter as it
/// was written.
pub broadcast proof fn law_pre_put_cc_row(a: Seq<bool>, x: Seq<(u8, bool)>, s: Seq<bool>)
    requires
        #[trigger] pre(put_cc_row(a, x), s),
        cc_row_ok(x),
    ensures
        pre(a, s),
        cc_row_can(x),
        cc_row_at(s, a.len()) == Ok::<(Seq<(u8, bool)>, nat), Fault>((x, put_cc_row(a, x).len())),
{
    broadcast use {crate::bits::group_read_written, law_pre_put_cc_coefs};

    reveal(cc_row_at);
    reveal(put_cc_row);
    reveal(cc_row_ok);
    reveal(cc_row_can);
}

/// The layout of the seven coefficients of a cross-component filter: reading at
/// `p` gives `x` and ends at `q` if and only if these elements stand there in
/// this order.
pub proof fn law_layout_cc_row(s: Seq<bool>, p: nat, x: Seq<(u8, bool)>, q: nat)
    ensures
        cc_row_at(s, p) == Ok::<(Seq<(u8, bool)>, nat), Fault>((x, q))
            <==> cursor(s, p).part(|p: nat| cc_coefs_at(s, p, 7), x).ends(q),
{
    reveal(cc_row_at);
}

/// Reading the seven coefficients of a cross-component filter never fails.
pub broadcast proof fn law_faults_cc_row(s: Seq<bool>, p: nat)
    ensures
        #[trigger] cc_row_at(s, p) is Ok,
{
    broadcast use law_faults_cc_coefs;

    reveal(cc_row_at);
}

/// What the writer accepts reads back: the seven coefficients of a
/// cross-component filter, where each field fits its width and what is not
/// coded has the value that is taken for it.
pub proof fn law_reads_cc_row(a: Seq<bool>, x: Seq<(u8, bool)>, s: Seq<bool>)
    requires
        cc_row_can(x),
        cc_coefs_ok(x, 7),
        pre(put_cc_row(a, x), s),
    ensures
        cc_row_at(s, a.len()) == Ok::<(Seq<(u8, bool)>, nat), Fault>((x, put_cc_row(a, x).len())),
{
    assert(cc_row_ok(x)) by {
        broadcast use crate::bits::law_fits_small;

        reveal(cc_row_ok);
        reveal(cc_row_can);
    }
    law_pre_put_cc_row(a, x, s);
}

/// Reads the seven coefficients of a cross-component filter, behind the items
/// before it.
pub open spec fn cc_rows_item(s: Seq<bool>) -> spec_fn(Seq<Seq<(u8, bool)>>, nat) -> Read<Seq<(u8, bool)>> {
    |done: Seq<Seq<(u8, bool)>>, q: nat| cc_row_at(s, q)
}

/// Writes the seven coefficients of a cross-component filter, behind the items
/// before it.
pub open spec fn put_cc_rows_item() -> spec_fn(Seq<bool>, Seq<Seq<(u8, bool)>>, Seq<(u8, bool)>) -> Seq<bool> {
    |a: Seq<bool>, done: Seq<Seq<(u8, bool)>>, x: Seq<(u8, bool)>| put_cc_row(a, x)
}

/// Whether the seven coefficients of a cross-component filter may follow the
/// items before it.
pub open spec fn cc_rows_item_ok() -> spec_fn(Seq<Seq<(u8, bool)>>, Seq<(u8, bool)>) -> bool {
    |done: Seq<Seq<(u8, bool)>>, x: Seq<(u8, bool)>| cc_row_ok(x) && cc_row_can(x)
}

/// `n` items at position `p`, each the seven coefficients of a cross-component
/// filter.
#[verifier::opaque]
pub open spec fn cc_rows_at(s: Seq<bool>, p: nat, n: u64) -> Read<Seq<Seq<(u8, bool)>>> {
    rep_at(cc_rows_item(s), p, n as nat)
}

/// The bits `a` followed by the items.
#[verifier::opaque]
pub open spec fn put_cc_rows(a: Seq<bool>, xs: Seq<Seq<(u8, bool)>>, n: u64) -> Seq<bool> {
    put_rep(put_cc_rows_item(), a, xs)
}

/// `n` items that reading can give.
#[verifier::opaque]
pub open spec fn cc_rows_ok(xs: Seq<Seq<(u8, bool)>>, n: u64) -> bool {
    xs.len() == n && forall|i: int| 0 <= i < xs.len() ==> cc_row_ok(#[trigger] xs[i]) && cc_row_can(xs[i])
}

/// `n` items that the writer accepts.
#[verifier::opaque]
pub open spec fn cc_rows_can(xs: Seq<Seq<(u8, bool)>>, n: u64) -> bool {
    xs.len() == n && forall|i: int| 0 <= i < xs.len() ==> cc_row_can(#[trigger] xs[i])
}

/// Parses `n` items, each the seven coefficients of a cross-component filter.
fn parse_cc_rows(r: &mut BitReader<'_>, n: u64) -> (res: Result<Vec<Vec<(u8, bool)>>, BitstreamError>)
    ensures
        read_seq_is(cc_rows_at(old(r).bits(), old(r).pos(), n), res, *old(r), *final(r)),
        res matches Ok(v) ==> v@.len() == n,
{
    let ghost s = r.bits();
    let ghost p = r.pos();
    let ghost reads = cc_rows_item(s);
    let mut xs: Vec<Vec<(u8, bool)>> = Vec::new();
    let mut i: u64 = 0;
    proof {
        reveal(cc_rows_at);
        assert(seq_view(xs@) =~= Seq::empty());
    }
    while i < n
        invariant
            i <= n,
            xs@.len() == i,
            reads == cc_rows_item(s),
            s == r.bits(),
            s == old(r).bits(),
            p == old(r).pos(),
            r.bytes() == old(r).bytes(),
            rep_at(reads, p, i as nat) == Ok::<(Seq<Seq<(u8, bool)>>, nat), Fault>((seq_view(xs@), r.pos())),
        decreases n - i,
    {
        match parse_cc_row(r) {
            Ok(x) => {
                proof {
                lemma_seq_view_push(xs@, x);
            }
            xs.push(x);
            },
            Err(e) => {
                proof {
                    reveal(cc_rows_at);
                    lemma_rep_err(reads, p, (i + 1) as nat, n as nat);
                }
                return Err(e);
            },
        }
        i = i + 1;
    }
    Ok(xs)
}

/// Emits `n` items, each the seven coefficients of a cross-component filter.
fn write_cc_rows(w: &mut BitWriter, xs: &Vec<Vec<(u8, bool)>>, n: u64) -> (res: Result<(), BitstreamError>)
    ensures
        write_is(cc_rows_can(seq_view(xs@), n), put_cc_rows(old(w)@, seq_view(xs@), n), res, final(w)@),
        res is Ok ==> xs@.len() == n,
{
    let ghost before = w@;
    let ghost puts = put_cc_rows_item();
    let ghost ys = seq_view(xs@);
    proof {
        reveal(put_cc_rows);
        reveal(cc_rows_can);
        assert(ys.take(0) =~= Seq::empty());
    }
    if xs.len() as u64 != n {
        return Err(BitstreamError::invalid("unexpected number of entries"));
    }
    let mut i: usize = 0;
    while i < xs.len()
        invariant
            i <= xs@.len(),
            xs@.len() == n,
            ys == seq_view(xs@),
            ys.len() == xs@.len(),
            before == old(w)@,
            puts == put_cc_rows_item(),
            w@ == put_rep(puts, before, ys.take(i as int)),
            forall|j: int| 0 <= j < i ==> cc_row_can(#[trigger] ys[j]),
        ensures
            i == xs@.len(),
        decreases xs@.len() - i,
    {
        proof {
            assert(ys.take(i + 1).drop_last() =~= ys.take(i as int));
            assert(ys[i as int] == xs@[i as int]@);
        }
        match write_cc_row(w, &xs[i]) {
            Ok(()) => {},
            Err(e) => {
                proof {
                    reveal(cc_rows_can);
                }
                return Err(e);
            },
        }
        i = i + 1;
    }
    proof {
        assert(ys.take(i as int) =~= ys);
    }
    Ok(())
}

/// Writing what was read gives back the bits that were read.
pub broadcast proof fn law_put_cc_rows_at(s: Seq<bool>, p: nat, n: u64)
    ensures
        #[trigger] cc_rows_at(s, p, n) matches Ok((xs, q)) ==> {
            &&& xs.len() == n
            &&& cc_rows_ok(xs, n)
            &&& cc_rows_can(xs, n)
            &&& within(s, q) ==> within(s, p) && put_cc_rows(upto(s, p), xs, n) == upto(s, q)
        },
{
    broadcast use law_put_cc_row_at;

    reveal(cc_rows_at);
    reveal(put_cc_rows);
    reveal(cc_rows_ok);
    reveal(cc_rows_can);
    let ok = cc_rows_item_ok();
    law_put_rep_at(s, cc_rows_item(s), put_cc_rows_item(), ok, p, n as nat);
    if let Ok((xs, q)) = cc_rows_at(s, p, n) {
        assert forall|i: int| 0 <= i < xs.len() implies ok(xs.take(i), #[trigger] xs[i]) by {}
    }
}

/// What was written reads back as the items that were written.
pub broadcast proof fn law_pre_put_cc_rows(a: Seq<bool>, xs: Seq<Seq<(u8, bool)>>, n: u64, s: Seq<bool>)
    requires
        #[trigger] pre(put_cc_rows(a, xs, n), s),
        cc_rows_ok(xs, n),
    ensures
        pre(a, s),
        cc_rows_can(xs, n),
        cc_rows_at(s, a.len(), n) == Ok::<(Seq<Seq<(u8, bool)>>, nat), Fault>(
            (xs, put_cc_rows(a, xs, n).len()),
        ),
{
    broadcast use law_pre_put_cc_row;

    reveal(cc_rows_at);
    reveal(put_cc_rows);
    reveal(cc_rows_ok);
    reveal(cc_rows_can);
    law_rep_at_put(s, cc_rows_item(s), put_cc_rows_item(), cc_rows_item_ok(), a, xs);
}

/// `n` items stand one behind the other: `n - 1` items, and then the seven
/// coefficients of a cross-component filter.
pub proof fn law_layout_cc_rows(s: Seq<bool>, p: nat, n: u64, xs: Seq<Seq<(u8, bool)>>, q: nat)
    ensures
        cc_rows_at(s, p, n) == Ok::<(Seq<Seq<(u8, bool)>>, nat), Fault>((xs, q)) <==> if n == 0 {
            xs.len() == 0 && q == p
        } else {
            &&& xs.len() == n
            &&& cursor(s, p)
                .part(|p: nat| cc_rows_at(s, p, (n - 1) as u64), xs.drop_last())
                .part(|p: nat| cc_row_at(s, p), xs.last())
                .ends(q)
        },
{
    reveal(cc_rows_at);
    lemma_rep_step(cc_rows_item(s), p, n as nat);
    if xs.len() == 0 {
        assert(xs =~= Seq::empty());
    } else {
        assert(xs =~= xs.drop_last().push(xs.last()));
    }
    if n > 0 {
        if let Ok((done, r)) = rep_at(cc_rows_item(s), p, (n - 1) as nat) {
            if let Ok((y, z)) = cc_rows_item(s)(done, r) {
                assert(done.push(y).drop_last() =~= done);
            }
        }
    }
}

/// What the writer accepts as `n` items reads back, where each of them is one that
/// reading can give.
pub proof fn law_reads_cc_rows(a: Seq<bool>, xs: Seq<Seq<(u8, bool)>>, n: u64, s: Seq<bool>)
    requires
        cc_rows_can(xs, n),
        forall|i: int| 0 <= i < xs.len() ==> cc_row_ok(#[trigger] xs[i]),
        pre(put_cc_rows(a, xs, n), s),
    ensures
        xs.len() == n,
        cc_rows_at(s, a.len(), n) == Ok::<(Seq<Seq<(u8, bool)>>, nat), Fault>(
            (xs, put_cc_rows(a, xs, n).len()),
        ),
{
    reveal(cc_rows_can);
    assert(cc_rows_ok(xs, n)) by {
        reveal(cc_rows_ok);
    }
    law_pre_put_cc_rows(a, xs, n, s);
}

/// Reading the items never fails.
pub broadcast proof fn law_faults_cc_rows(s: Seq<bool>, p: nat, n: u64)
    ensures
        #[trigger] cc_rows_at(s, p, n) is Ok,
{
    broadcast use law_faults_cc_row;

    reveal(cc_rows_at);
    let f = cc_rows_item(s);
    assert forall|done: Seq<Seq<(u8, bool)>>, q: nat| (#[trigger] f(done, q)) is Ok by {}
    lemma_rep_faults_none(f, p, n as nat);
}

/// A row of `width` clip indices at position `p`.
#[verifier::opaque]
pub open spec fn clip_row_at(s: Seq<bool>, p: nat, width: u64) -> Read<Seq<u8>> {
    match u8s_at(s, p, 2, width as nat) { Err(f) => Err(f), Ok((clips, p)) => {
    Ok((clips, p)) }}
}

/// The bits `a` followed by a row of `width` clip indices.
#[verifier::opaque]
pub open spec fn put_clip_row(a: Seq<bool>, x: Seq<u8>, width: u64) -> Seq<bool> {
    let a = put_u8s(a, x, 2);
    a
}

/// The values of a row of `width` clip indices that reading can give.
#[verifier::opaque]
pub open spec fn clip_row_ok(x: Seq<u8>, width: u64) -> bool {
    &&& all_at_most(x, 3)
    &&& x.len() == width
    &&& u8s_ok(x, 2)
}

/// The values of a row of `width` clip indices that the writer accepts.
#[verifier::opaque]
pub open spec fn clip_row_can(x: Seq<u8>, width: u64) -> bool {
    &&& x.len() as u64 == width
    &&& all_at_most(x, 3)
}

/// Parses a row of `width` clip indices.
fn parse_clip_row(r: &mut BitReader<'_>, width: u64) -> (res: Result<Vec<u8>, BitstreamError>)
    ensures
        read_view_is(clip_row_at(old(r).bits(), old(r).pos(), width), res, *old(r), *final(r)),
{
    proof {
        reveal(clip_row_at);
    }
    let clips = r.read_u8s(width, 2);
    Ok(clips)
}

/// Emits a row of `width` clip indices, the inverse of [`parse_clip_row`].
fn write_clip_row(w: &mut BitWriter, x: &Vec<u8>, width: u64, name: &str) -> (res: Result<(), BitstreamError>)
    ensures
        write_is(clip_row_can(x@, width), put_clip_row(old(w)@, x@, width), res, final(w)@),
{
    proof {
        reveal(put_clip_row);
        reveal(clip_row_can);
    }
    if !((*x).len() as u64 == width) {
        return Err(Message::new("").with(name).with(" row has the wrong length").invalid());
    }
    if !are_at_most((*x).as_slice(), 3) {
        return Err(Message::new("").with(name).with(" does not fit u(2)").invalid());
    }
    w.write_u8s(x.as_slice(), 2);
    Ok(())
}

/// Writing a row of `width` clip indices gives back the bits it was read from.
pub broadcast proof fn law_put_clip_row_at(s: Seq<bool>, p: nat, width: u64)
    ensures
        #[trigger] clip_row_at(s, p, width) matches Ok((x, q)) ==> {
            &&& clip_row_ok(x, width)
            &&& clip_row_can(x, width)
            &&& within(s, q) ==> within(s, p) && put_clip_row(upto(s, p), x, width) == upto(s, q)
        },
{
    broadcast use {crate::bits::group_write_read, crate::bits::group_write_read_lists};

    reveal(clip_row_at);
    reveal(put_clip_row);
    reveal(clip_row_ok);
    reveal(clip_row_can);
}

/// Reading gives back a row of `width` clip indices as it was written.
pub broadcast proof fn law_pre_put_clip_row(a: Seq<bool>, x: Seq<u8>, width: u64, s: Seq<bool>)
    requires
        #[trigger] pre(put_clip_row(a, x, width), s),
        clip_row_ok(x, width),
    ensures
        pre(a, s),
        clip_row_can(x, width),
        clip_row_at(s, a.len(), width) == Ok::<(Seq<u8>, nat), Fault>((x, put_clip_row(a, x, width).len())),
{
    broadcast use {crate::bits::group_read_written, crate::bits::group_read_written_lists};

    reveal(clip_row_at);
    reveal(put_clip_row);
    reveal(clip_row_ok);
    reveal(clip_row_can);
}

/// The layout of a row of `width` clip indices: reading at `p` gives `x` and
/// ends at `q` if and only if these elements stand there in this order.
pub proof fn law_layout_clip_row(s: Seq<bool>, p: nat, width: u64, x: Seq<u8>, q: nat)
    ensures
        clip_row_at(s, p, width) == Ok::<(Seq<u8>, nat), Fault>((x, q))
            <==> cursor(s, p).part(|p: nat| u8s_at(s, p, 2, width as nat), x).ends(q),
{
    reveal(clip_row_at);
}

/// Reading a row of `width` clip indices never fails.
pub broadcast proof fn law_faults_clip_row(s: Seq<bool>, p: nat, width: u64)
    ensures
        #[trigger] clip_row_at(s, p, width) is Ok,
{
    broadcast use crate::bits::law_faults_u8s;

    reveal(clip_row_at);
}

/// What the writer accepts reads back: a row of `width` clip indices, where
/// each field fits its width and what is not coded has the value that is taken
/// for it.
pub proof fn law_reads_clip_row(a: Seq<bool>, x: Seq<u8>, width: u64, s: Seq<bool>)
    requires
        clip_row_can(x, width),
        x.len() <= usize::MAX,
        pre(put_clip_row(a, x, width), s),
    ensures
        clip_row_at(s, a.len(), width) == Ok::<(Seq<u8>, nat), Fault>((x, put_clip_row(a, x, width).len())),
{
    assert(clip_row_ok(x, width)) by {
        broadcast use crate::bits::law_fits_small;

        reveal(clip_row_ok);
        reveal(clip_row_can);
    }
    law_pre_put_clip_row(a, x, width, s);
}

/// Reads a row of `width` clip indices, behind the items before it.
pub open spec fn clip_rows_item(s: Seq<bool>, width: u64) -> spec_fn(Seq<Seq<u8>>, nat) -> Read<Seq<u8>> {
    |done: Seq<Seq<u8>>, q: nat| clip_row_at(s, q, width)
}

/// Writes a row of `width` clip indices, behind the items before it.
pub open spec fn put_clip_rows_item(width: u64) -> spec_fn(Seq<bool>, Seq<Seq<u8>>, Seq<u8>) -> Seq<bool> {
    |a: Seq<bool>, done: Seq<Seq<u8>>, x: Seq<u8>| put_clip_row(a, x, width)
}

/// Whether a row of `width` clip indices may follow the items before it.
pub open spec fn clip_rows_item_ok(width: u64) -> spec_fn(Seq<Seq<u8>>, Seq<u8>) -> bool {
    |done: Seq<Seq<u8>>, x: Seq<u8>| clip_row_ok(x, width) && clip_row_can(x, width)
}

/// `n` items at position `p`, each a row of `width` clip indices.
#[verifier::opaque]
pub open spec fn clip_rows_at(s: Seq<bool>, p: nat, width: u64, n: u64) -> Read<Seq<Seq<u8>>> {
    rep_at(clip_rows_item(s, width), p, n as nat)
}

/// The bits `a` followed by the items.
#[verifier::opaque]
pub open spec fn put_clip_rows(a: Seq<bool>, xs: Seq<Seq<u8>>, width: u64, n: u64) -> Seq<bool> {
    put_rep(put_clip_rows_item(width), a, xs)
}

/// `n` items that reading can give.
#[verifier::opaque]
pub open spec fn clip_rows_ok(xs: Seq<Seq<u8>>, width: u64, n: u64) -> bool {
    xs.len() == n
        && forall|i: int| 0 <= i < xs.len()
        ==> clip_row_ok(#[trigger] xs[i], width)
        && clip_row_can(xs[i], width)
}

/// `n` items that the writer accepts.
#[verifier::opaque]
pub open spec fn clip_rows_can(xs: Seq<Seq<u8>>, width: u64, n: u64) -> bool {
    xs.len() == n && forall|i: int| 0 <= i < xs.len() ==> clip_row_can(#[trigger] xs[i], width)
}

/// Parses `n` items, each a row of `width` clip indices.
fn parse_clip_rows(r: &mut BitReader<'_>, width: u64, n: u64) -> (res: Result<Vec<Vec<u8>>, BitstreamError>)
    ensures
        read_seq_is(clip_rows_at(old(r).bits(), old(r).pos(), width, n), res, *old(r), *final(r)),
        res matches Ok(v) ==> v@.len() == n,
{
    let ghost s = r.bits();
    let ghost p = r.pos();
    let ghost reads = clip_rows_item(s, width);
    let mut xs: Vec<Vec<u8>> = Vec::new();
    let mut i: u64 = 0;
    proof {
        reveal(clip_rows_at);
        assert(seq_view(xs@) =~= Seq::empty());
    }
    while i < n
        invariant
            i <= n,
            xs@.len() == i,
            reads == clip_rows_item(s, width),
            s == r.bits(),
            s == old(r).bits(),
            p == old(r).pos(),
            r.bytes() == old(r).bytes(),
            rep_at(reads, p, i as nat) == Ok::<(Seq<Seq<u8>>, nat), Fault>((seq_view(xs@), r.pos())),
        decreases n - i,
    {
        match parse_clip_row(r, width) {
            Ok(x) => {
                proof {
                lemma_seq_view_push(xs@, x);
            }
            xs.push(x);
            },
            Err(e) => {
                proof {
                    reveal(clip_rows_at);
                    lemma_rep_err(reads, p, (i + 1) as nat, n as nat);
                }
                return Err(e);
            },
        }
        i = i + 1;
    }
    Ok(xs)
}

/// Emits `n` items, each a row of `width` clip indices.
fn write_clip_rows(
    w: &mut BitWriter,
    xs: &Vec<Vec<u8>>,
    width: u64,
    n: u64,
    name: &str,
) -> (res: Result<(), BitstreamError>)
    ensures
        write_is(
            clip_rows_can(seq_view(xs@), width, n),
            put_clip_rows(old(w)@, seq_view(xs@), width, n),
            res,
            final(w)@,
        ),
        res is Ok ==> xs@.len() == n,
{
    let ghost before = w@;
    let ghost puts = put_clip_rows_item(width);
    let ghost ys = seq_view(xs@);
    proof {
        reveal(put_clip_rows);
        reveal(clip_rows_can);
        assert(ys.take(0) =~= Seq::empty());
    }
    if xs.len() as u64 != n {
        return Err(BitstreamError::invalid("unexpected number of entries"));
    }
    let mut i: usize = 0;
    while i < xs.len()
        invariant
            i <= xs@.len(),
            xs@.len() == n,
            ys == seq_view(xs@),
            ys.len() == xs@.len(),
            before == old(w)@,
            puts == put_clip_rows_item(width),
            w@ == put_rep(puts, before, ys.take(i as int)),
            forall|j: int| 0 <= j < i ==> clip_row_can(#[trigger] ys[j], width),
        ensures
            i == xs@.len(),
        decreases xs@.len() - i,
    {
        proof {
            assert(ys.take(i + 1).drop_last() =~= ys.take(i as int));
            assert(ys[i as int] == xs@[i as int]@);
        }
        match write_clip_row(w, &xs[i], width, name) {
            Ok(()) => {},
            Err(e) => {
                proof {
                    reveal(clip_rows_can);
                }
                return Err(e);
            },
        }
        i = i + 1;
    }
    proof {
        assert(ys.take(i as int) =~= ys);
    }
    Ok(())
}

/// Writing what was read gives back the bits that were read.
pub broadcast proof fn law_put_clip_rows_at(s: Seq<bool>, p: nat, width: u64, n: u64)
    ensures
        #[trigger] clip_rows_at(s, p, width, n) matches Ok((xs, q)) ==> {
            &&& xs.len() == n
            &&& clip_rows_ok(xs, width, n)
            &&& clip_rows_can(xs, width, n)
            &&& within(s, q) ==> within(s, p) && put_clip_rows(upto(s, p), xs, width, n) == upto(s, q)
        },
{
    broadcast use law_put_clip_row_at;

    reveal(clip_rows_at);
    reveal(put_clip_rows);
    reveal(clip_rows_ok);
    reveal(clip_rows_can);
    let ok = clip_rows_item_ok(width);
    law_put_rep_at(s, clip_rows_item(s, width), put_clip_rows_item(width), ok, p, n as nat);
    if let Ok((xs, q)) = clip_rows_at(s, p, width, n) {
        assert forall|i: int| 0 <= i < xs.len() implies ok(xs.take(i), #[trigger] xs[i]) by {}
    }
}

/// What was written reads back as the items that were written.
pub broadcast proof fn law_pre_put_clip_rows(a: Seq<bool>, xs: Seq<Seq<u8>>, width: u64, n: u64, s: Seq<bool>)
    requires
        #[trigger] pre(put_clip_rows(a, xs, width, n), s),
        clip_rows_ok(xs, width, n),
    ensures
        pre(a, s),
        clip_rows_can(xs, width, n),
        clip_rows_at(s, a.len(), width, n) == Ok::<(Seq<Seq<u8>>, nat), Fault>(
            (xs, put_clip_rows(a, xs, width, n).len()),
        ),
{
    broadcast use law_pre_put_clip_row;

    reveal(clip_rows_at);
    reveal(put_clip_rows);
    reveal(clip_rows_ok);
    reveal(clip_rows_can);
    law_rep_at_put(s, clip_rows_item(s, width), put_clip_rows_item(width), clip_rows_item_ok(width), a, xs);
}

/// `n` items stand one behind the other: `n - 1` items, and then a row of
/// `width` clip indices.
pub proof fn law_layout_clip_rows(s: Seq<bool>, p: nat, width: u64, n: u64, xs: Seq<Seq<u8>>, q: nat)
    ensures
        clip_rows_at(s, p, width, n) == Ok::<(Seq<Seq<u8>>, nat), Fault>((xs, q)) <==> if n == 0 {
            xs.len() == 0 && q == p
        } else {
            &&& xs.len() == n
            &&& cursor(s, p)
                .part(|p: nat| clip_rows_at(s, p, width, (n - 1) as u64), xs.drop_last())
                .part(|p: nat| clip_row_at(s, p, width), xs.last())
                .ends(q)
        },
{
    reveal(clip_rows_at);
    lemma_rep_step(clip_rows_item(s, width), p, n as nat);
    if xs.len() == 0 {
        assert(xs =~= Seq::empty());
    } else {
        assert(xs =~= xs.drop_last().push(xs.last()));
    }
    if n > 0 {
        if let Ok((done, r)) = rep_at(clip_rows_item(s, width), p, (n - 1) as nat) {
            if let Ok((y, z)) = clip_rows_item(s, width)(done, r) {
                assert(done.push(y).drop_last() =~= done);
            }
        }
    }
}

/// What the writer accepts as `n` items reads back, where each of them is one that
/// reading can give.
pub proof fn law_reads_clip_rows(a: Seq<bool>, xs: Seq<Seq<u8>>, width: u64, n: u64, s: Seq<bool>)
    requires
        clip_rows_can(xs, width, n),
        forall|i: int| 0 <= i < xs.len() ==> clip_row_ok(#[trigger] xs[i], width),
        pre(put_clip_rows(a, xs, width, n), s),
    ensures
        xs.len() == n,
        clip_rows_at(s, a.len(), width, n) == Ok::<(Seq<Seq<u8>>, nat), Fault>(
            (xs, put_clip_rows(a, xs, width, n).len()),
        ),
{
    reveal(clip_rows_can);
    assert(clip_rows_ok(xs, width, n)) by {
        reveal(clip_rows_ok);
    }
    law_pre_put_clip_rows(a, xs, width, n, s);
}

/// Reading the items never fails.
pub broadcast proof fn law_faults_clip_rows(s: Seq<bool>, p: nat, width: u64, n: u64)
    ensures
        #[trigger] clip_rows_at(s, p, width, n) is Ok,
{
    broadcast use law_faults_clip_row;

    reveal(clip_rows_at);
    let f = clip_rows_item(s, width);
    assert forall|done: Seq<Seq<u8>>, q: nat| (#[trigger] f(done, q)) is Ok by {}
    lemma_rep_faults_none(f, p, n as nat);
}

/// An alternative chroma filter at position `p`: its coefficients and clip
/// indices.
#[verifier::opaque]
pub open spec fn alt_row_at(s: Seq<bool>, p: nat, clip: bool) -> Read<(Seq<(u32, bool)>, Seq<u8>)> {
    match alf_coefs_at(s, p, 6) { Err(f) => Err(f), Ok((cs, p)) => {
    match clip_row_at(s, p, (if clip { 6u64 } else { 0u64 })) { Err(f) => Err(f), Ok((clips, p)) => {
    Ok(((cs, clips), p)) }}}}
}

/// The bits `a` followed by an alternative chroma filter.
#[verifier::opaque]
pub open spec fn put_alt_row(a: Seq<bool>, x: (Seq<(u32, bool)>, Seq<u8>), clip: bool) -> Seq<bool> {
    let a = put_alf_coefs(a, x.0, 6);
    let a = put_clip_row(a, x.1, (if clip { 6u64 } else { 0u64 }));
    a
}

/// The values of an alternative chroma filter that reading can give.
#[verifier::opaque]
pub open spec fn alt_row_ok(x: (Seq<(u32, bool)>, Seq<u8>), clip: bool) -> bool {
    &&& alf_coefs_ok(x.0, 6)
    &&& clip_row_ok(x.1, (if clip { 6u64 } else { 0u64 }))
}

/// The values of an alternative chroma filter that the writer accepts.
#[verifier::opaque]
pub open spec fn alt_row_can(x: (Seq<(u32, bool)>, Seq<u8>), clip: bool) -> bool {
    &&& alf_coefs_can(x.0, 6)
    &&& clip_row_can(x.1, (if clip { 6u64 } else { 0u64 }))
}

/// Parses an alternative chroma filter.
fn parse_alt_row(
    r: &mut BitReader<'_>,
    clip: bool,
) -> (res: Result<(Vec<(u32, bool)>, Vec<u8>), BitstreamError>)
    ensures
        read_view_is(alt_row_at(old(r).bits(), old(r).pos(), clip), res, *old(r), *final(r)),
{
    proof {
        reveal(alt_row_at);
    }
    let cs = parse_alf_coefs(r, 6, "alf_chroma_coeff")?;
    let clips = parse_clip_row(r, (if clip { 6u64 } else { 0u64 }))?;
    Ok((cs, clips))
}

/// Emits an alternative chroma filter, the inverse of [`parse_alt_row`].
fn write_alt_row(
    w: &mut BitWriter,
    x: &(Vec<(u32, bool)>, Vec<u8>),
    clip: bool,
) -> (res: Result<(), BitstreamError>)
    ensures
        write_is(alt_row_can(x@, clip), put_alt_row(old(w)@, x@, clip), res, final(w)@),
{
    proof {
        reveal(put_alt_row);
        reveal(alt_row_can);
    }
    write_alf_coefs(w, &x.0, 6, "alf_chroma_coeff")?;
    write_clip_row(w, &x.1, (if clip { 6u64 } else { 0u64 }), "alf_chroma_clip_idx")?;
    Ok(())
}

/// Writing an alternative chroma filter gives back the bits it was read from.
pub broadcast proof fn law_put_alt_row_at(s: Seq<bool>, p: nat, clip: bool)
    ensures
        #[trigger] alt_row_at(s, p, clip) matches Ok((x, q)) ==> {
            &&& alt_row_ok(x, clip)
            &&& alt_row_can(x, clip)
            &&& within(s, q) ==> within(s, p) && put_alt_row(upto(s, p), x, clip) == upto(s, q)
        },
{
    broadcast use {crate::bits::group_write_read, law_put_alf_coefs_at, law_put_clip_row_at};

    reveal(alt_row_at);
    reveal(put_alt_row);
    reveal(alt_row_ok);
    reveal(alt_row_can);
}

/// Reading gives back an alternative chroma filter as it was written.
pub broadcast proof fn law_pre_put_alt_row(
    a: Seq<bool>,
    x: (Seq<(u32, bool)>, Seq<u8>),
    clip: bool,
    s: Seq<bool>,
)
    requires
        #[trigger] pre(put_alt_row(a, x, clip), s),
        alt_row_ok(x, clip),
    ensures
        pre(a, s),
        alt_row_can(x, clip),
        alt_row_at(s, a.len(), clip) == Ok::<((Seq<(u32, bool)>, Seq<u8>), nat), Fault>(
            (x, put_alt_row(a, x, clip).len()),
        ),
{
    broadcast use {crate::bits::group_read_written, law_pre_put_alf_coefs, law_pre_put_clip_row};

    reveal(alt_row_at);
    reveal(put_alt_row);
    reveal(alt_row_ok);
    reveal(alt_row_can);
}

/// The layout of an alternative chroma filter: reading at `p` gives `x` and
/// ends at `q` if and only if these elements stand there in this order.
pub proof fn law_layout_alt_row(s: Seq<bool>, p: nat, clip: bool, x: (Seq<(u32, bool)>, Seq<u8>), q: nat)
    ensures
        alt_row_at(s, p, clip) == Ok::<((Seq<(u32, bool)>, Seq<u8>), nat), Fault>((x, q)) <==> cursor(s, p)
            .part(|p: nat| alf_coefs_at(s, p, 6), x.0)
            .part(|p: nat| clip_row_at(s, p, (if clip { 6u64 } else { 0u64 })), x.1)
            .ends(q),
{
    reveal(alt_row_at);
}

/// Reading an alternative chroma filter fails only with an error of this class.
pub broadcast proof fn law_faults_alt_row(s: Seq<bool>, p: nat, clip: bool)
    ensures
        #[trigger] alt_row_at(s, p, clip) matches Err(f) ==> f == Fault::Invalid,
{
    broadcast use {law_faults_alf_coefs, law_faults_clip_row};

    reveal(alt_row_at);
}

/// What the writer accepts reads back: an alternative chroma filter, where each
/// field fits its width and what is not coded has the value that is taken for
/// it.
pub proof fn law_reads_alt_row(a: Seq<bool>, x: (Seq<(u32, bool)>, Seq<u8>), clip: bool, s: Seq<bool>)
    requires
        alt_row_can(x, clip),
        alf_coefs_ok(x.0, 6),
        clip_row_ok(x.1, (if clip { 6u64 } else { 0u64 })),
        pre(put_alt_row(a, x, clip), s),
    ensures
        alt_row_at(s, a.len(), clip) == Ok::<((Seq<(u32, bool)>, Seq<u8>), nat), Fault>(
            (x, put_alt_row(a, x, clip).len()),
        ),
{
    assert(alt_row_ok(x, clip)) by {
        broadcast use crate::bits::law_fits_small;

        reveal(alt_row_ok);
        reveal(alt_row_can);
    }
    law_pre_put_alt_row(a, x, clip, s);
}

/// Reads an alternative chroma filter, behind the items before it.
pub open spec fn alt_rows_item(
    s: Seq<bool>,
    clip: bool,
) -> spec_fn(Seq<(Seq<(u32, bool)>, Seq<u8>)>, nat) -> Read<(Seq<(u32, bool)>, Seq<u8>)> {
    |done: Seq<(Seq<(u32, bool)>, Seq<u8>)>, q: nat| alt_row_at(s, q, clip)
}

/// Writes an alternative chroma filter, behind the items before it.
pub open spec fn put_alt_rows_item(
    clip: bool,
) -> spec_fn(Seq<bool>, Seq<(Seq<(u32, bool)>, Seq<u8>)>, (Seq<(u32, bool)>, Seq<u8>)) -> Seq<bool> {
    |a: Seq<bool>, done: Seq<(
        Seq<(u32, bool)>,
        Seq<u8>,
    )>, x: (Seq<(u32, bool)>, Seq<u8>)| put_alt_row(a, x, clip)
}

/// Whether an alternative chroma filter may follow the items before it.
pub open spec fn alt_rows_item_ok(
    clip: bool,
) -> spec_fn(Seq<(Seq<(u32, bool)>, Seq<u8>)>, (Seq<(u32, bool)>, Seq<u8>)) -> bool {
    |done: Seq<(Seq<(u32, bool)>, Seq<u8>)>, x: (Seq<(u32, bool)>, Seq<u8>)| alt_row_ok(x, clip)
        && alt_row_can(x, clip)
}

/// `n` items at position `p`, each an alternative chroma filter.
#[verifier::opaque]
pub open spec fn alt_rows_at(
    s: Seq<bool>,
    p: nat,
    clip: bool,
    n: u64,
) -> Read<Seq<(Seq<(u32, bool)>, Seq<u8>)>> {
    rep_at(alt_rows_item(s, clip), p, n as nat)
}

/// The bits `a` followed by the items.
#[verifier::opaque]
pub open spec fn put_alt_rows(
    a: Seq<bool>,
    xs: Seq<(Seq<(u32, bool)>, Seq<u8>)>,
    clip: bool,
    n: u64,
) -> Seq<bool> {
    put_rep(put_alt_rows_item(clip), a, xs)
}

/// `n` items that reading can give.
#[verifier::opaque]
pub open spec fn alt_rows_ok(xs: Seq<(Seq<(u32, bool)>, Seq<u8>)>, clip: bool, n: u64) -> bool {
    xs.len() == n
        && forall|i: int| 0 <= i < xs.len()
        ==> alt_row_ok(#[trigger] xs[i], clip)
        && alt_row_can(xs[i], clip)
}

/// `n` items that the writer accepts.
#[verifier::opaque]
pub open spec fn alt_rows_can(xs: Seq<(Seq<(u32, bool)>, Seq<u8>)>, clip: bool, n: u64) -> bool {
    xs.len() == n && forall|i: int| 0 <= i < xs.len() ==> alt_row_can(#[trigger] xs[i], clip)
}

/// Parses `n` items, each an alternative chroma filter.
fn parse_alt_rows(
    r: &mut BitReader<'_>,
    clip: bool,
    n: u64,
) -> (res: Result<Vec<(Vec<(u32, bool)>, Vec<u8>)>, BitstreamError>)
    ensures
        read_seq_is(alt_rows_at(old(r).bits(), old(r).pos(), clip, n), res, *old(r), *final(r)),
        res matches Ok(v) ==> v@.len() == n,
{
    let ghost s = r.bits();
    let ghost p = r.pos();
    let ghost reads = alt_rows_item(s, clip);
    let mut xs: Vec<(Vec<(u32, bool)>, Vec<u8>)> = Vec::new();
    let mut i: u64 = 0;
    proof {
        reveal(alt_rows_at);
        assert(seq_view(xs@) =~= Seq::empty());
    }
    while i < n
        invariant
            i <= n,
            xs@.len() == i,
            reads == alt_rows_item(s, clip),
            s == r.bits(),
            s == old(r).bits(),
            p == old(r).pos(),
            r.bytes() == old(r).bytes(),
            rep_at(reads, p, i as nat) == Ok::<(
                Seq<(Seq<(u32, bool)>, Seq<u8>)>,
                nat,
            ), Fault>((seq_view(xs@), r.pos())),
        decreases n - i,
    {
        match parse_alt_row(r, clip) {
            Ok(x) => {
                proof {
                lemma_seq_view_push(xs@, x);
            }
            xs.push(x);
            },
            Err(e) => {
                proof {
                    reveal(alt_rows_at);
                    lemma_rep_err(reads, p, (i + 1) as nat, n as nat);
                }
                return Err(e);
            },
        }
        i = i + 1;
    }
    Ok(xs)
}

/// Emits `n` items, each an alternative chroma filter.
fn write_alt_rows(
    w: &mut BitWriter,
    xs: &Vec<(Vec<(u32, bool)>, Vec<u8>)>,
    clip: bool,
    n: u64,
) -> (res: Result<(), BitstreamError>)
    ensures
        write_is(
            alt_rows_can(seq_view(xs@), clip, n),
            put_alt_rows(old(w)@, seq_view(xs@), clip, n),
            res,
            final(w)@,
        ),
        res is Ok ==> xs@.len() == n,
{
    let ghost before = w@;
    let ghost puts = put_alt_rows_item(clip);
    let ghost ys = seq_view(xs@);
    proof {
        reveal(put_alt_rows);
        reveal(alt_rows_can);
        assert(ys.take(0) =~= Seq::empty());
    }
    if xs.len() as u64 != n {
        return Err(BitstreamError::invalid("unexpected number of entries"));
    }
    let mut i: usize = 0;
    while i < xs.len()
        invariant
            i <= xs@.len(),
            xs@.len() == n,
            ys == seq_view(xs@),
            ys.len() == xs@.len(),
            before == old(w)@,
            puts == put_alt_rows_item(clip),
            w@ == put_rep(puts, before, ys.take(i as int)),
            forall|j: int| 0 <= j < i ==> alt_row_can(#[trigger] ys[j], clip),
        ensures
            i == xs@.len(),
        decreases xs@.len() - i,
    {
        proof {
            assert(ys.take(i + 1).drop_last() =~= ys.take(i as int));
            assert(ys[i as int] == xs@[i as int]@);
        }
        match write_alt_row(w, &xs[i], clip) {
            Ok(()) => {},
            Err(e) => {
                proof {
                    reveal(alt_rows_can);
                }
                return Err(e);
            },
        }
        i = i + 1;
    }
    proof {
        assert(ys.take(i as int) =~= ys);
    }
    Ok(())
}

/// Writing what was read gives back the bits that were read.
pub broadcast proof fn law_put_alt_rows_at(s: Seq<bool>, p: nat, clip: bool, n: u64)
    ensures
        #[trigger] alt_rows_at(s, p, clip, n) matches Ok((xs, q)) ==> {
            &&& xs.len() == n
            &&& alt_rows_ok(xs, clip, n)
            &&& alt_rows_can(xs, clip, n)
            &&& within(s, q) ==> within(s, p) && put_alt_rows(upto(s, p), xs, clip, n) == upto(s, q)
        },
{
    broadcast use law_put_alt_row_at;

    reveal(alt_rows_at);
    reveal(put_alt_rows);
    reveal(alt_rows_ok);
    reveal(alt_rows_can);
    let ok = alt_rows_item_ok(clip);
    law_put_rep_at(s, alt_rows_item(s, clip), put_alt_rows_item(clip), ok, p, n as nat);
    if let Ok((xs, q)) = alt_rows_at(s, p, clip, n) {
        assert forall|i: int| 0 <= i < xs.len() implies ok(xs.take(i), #[trigger] xs[i]) by {}
    }
}

/// What was written reads back as the items that were written.
pub broadcast proof fn law_pre_put_alt_rows(
    a: Seq<bool>,
    xs: Seq<(Seq<(u32, bool)>, Seq<u8>)>,
    clip: bool,
    n: u64,
    s: Seq<bool>,
)
    requires
        #[trigger] pre(put_alt_rows(a, xs, clip, n), s),
        alt_rows_ok(xs, clip, n),
    ensures
        pre(a, s),
        alt_rows_can(xs, clip, n),
        alt_rows_at(s, a.len(), clip, n) == Ok::<(Seq<(Seq<(u32, bool)>, Seq<u8>)>, nat), Fault>(
            (xs, put_alt_rows(a, xs, clip, n).len()),
        ),
{
    broadcast use law_pre_put_alt_row;

    reveal(alt_rows_at);
    reveal(put_alt_rows);
    reveal(alt_rows_ok);
    reveal(alt_rows_can);
    law_rep_at_put(s, alt_rows_item(s, clip), put_alt_rows_item(clip), alt_rows_item_ok(clip), a, xs);
}

/// `n` items stand one behind the other: `n - 1` items, and then an alternative
/// chroma filter.
pub proof fn law_layout_alt_rows(
    s: Seq<bool>,
    p: nat,
    clip: bool,
    n: u64,
    xs: Seq<(Seq<(u32, bool)>, Seq<u8>)>,
    q: nat,
)
    ensures
        alt_rows_at(s, p, clip, n) == Ok::<(Seq<(Seq<(u32, bool)>, Seq<u8>)>, nat), Fault>((xs, q)) <==> if n == 0 {
            xs.len() == 0 && q == p
        } else {
            &&& xs.len() == n
            &&& cursor(s, p)
                .part(|p: nat| alt_rows_at(s, p, clip, (n - 1) as u64), xs.drop_last())
                .part(|p: nat| alt_row_at(s, p, clip), xs.last())
                .ends(q)
        },
{
    reveal(alt_rows_at);
    lemma_rep_step(alt_rows_item(s, clip), p, n as nat);
    if xs.len() == 0 {
        assert(xs =~= Seq::empty());
    } else {
        assert(xs =~= xs.drop_last().push(xs.last()));
    }
    if n > 0 {
        if let Ok((done, r)) = rep_at(alt_rows_item(s, clip), p, (n - 1) as nat) {
            if let Ok((y, z)) = alt_rows_item(s, clip)(done, r) {
                assert(done.push(y).drop_last() =~= done);
            }
        }
    }
}

/// What the writer accepts as `n` items reads back, where each of them is one that
/// reading can give.
pub proof fn law_reads_alt_rows(
    a: Seq<bool>,
    xs: Seq<(Seq<(u32, bool)>, Seq<u8>)>,
    clip: bool,
    n: u64,
    s: Seq<bool>,
)
    requires
        alt_rows_can(xs, clip, n),
        forall|i: int| 0 <= i < xs.len() ==> alt_row_ok(#[trigger] xs[i], clip),
        pre(put_alt_rows(a, xs, clip, n), s),
    ensures
        xs.len() == n,
        alt_rows_at(s, a.len(), clip, n) == Ok::<(Seq<(Seq<(u32, bool)>, Seq<u8>)>, nat), Fault>(
            (xs, put_alt_rows(a, xs, clip, n).len()),
        ),
{
    reveal(alt_rows_can);
    assert(alt_rows_ok(xs, clip, n)) by {
        reveal(alt_rows_ok);
    }
    law_pre_put_alt_rows(a, xs, clip, n, s);
}

/// Reading the items fails only with an error of this class.
pub broadcast proof fn law_faults_alt_rows(s: Seq<bool>, p: nat, clip: bool, n: u64)
    ensures
        #[trigger] alt_rows_at(s, p, clip, n) matches Err(f) ==> f == Fault::Invalid,
{
    broadcast use law_faults_alt_row;

    reveal(alt_rows_at);
    let f = alt_rows_item(s, clip);
    assert forall|done: Seq<(Seq<(u32, bool)>, Seq<u8>)>, q: nat| (#[trigger] f(done, q)) matches Err(e)
        ==> e == Fault::Invalid by {}
    lemma_rep_faults(f, p, n as nat, |f: Fault| f == Fault::Invalid);
}

proof fn lemma_alf_rows_len(v: Seq<Seq<(u32, bool)>>, width: u64, n: u64)
    requires
        alf_rows_ok(v, width, n),
    ensures
        rows_of(v, n as nat, width as nat),
{
    reveal(alf_rows_ok);
    reveal(alf_row_ok);
    reveal(alf_coefs_ok);
}

proof fn lemma_cc_rows_len(v: Seq<Seq<(u8, bool)>>, n: u64)
    requires
        cc_rows_ok(v, n),
    ensures
        rows_of(v, n as nat, 7),
{
    reveal(cc_rows_ok);
    reveal(cc_row_ok);
    reveal(cc_coefs_ok);
}

proof fn lemma_clip_rows_len(v: Seq<Seq<u8>>, width: u64, n: u64)
    requires
        clip_rows_ok(v, width, n),
    ensures
        rows_of(v, n as nat, width as nat),
{
    reveal(clip_rows_ok);
    reveal(clip_row_ok);
}

proof fn lemma_luma_rows(b: Seq<Seq<(u32, bool)>>, n: u64)
    requires
        alf_rows_ok(b, 12, n),
    ensures
        zip_rows(rows_fst(b), rows_snd(b)) == b,
        rows_of(rows_fst(b), n as nat, 12),
        rows_of(rows_snd(b), n as nat, 12),
{
    lemma_alf_rows_len(b, 12, n);
    lemma_zip_rows(b);
}

proof fn lemma_cc_filters(b: Seq<Seq<(u8, bool)>>, n: u64)
    requires
        cc_rows_ok(b, n),
    ensures
        zip_rows(rows_fst(b), rows_snd(b)) == b,
        rows_of(rows_fst(b), n as nat, 7),
        rows_of(rows_snd(b), n as nat, 7),
{
    lemma_cc_rows_len(b, n);
    lemma_zip_rows(b);
}

proof fn lemma_luma_clips(b: Seq<Seq<u8>>, n: u64)
    requires
        clip_rows_ok(b, 12, n),
    ensures
        rows_of(b, n as nat, 12),
{
    lemma_clip_rows_len(b, 12, n);
}

/// The coefficients, signs and clip indices of alternative filters.
pub open spec fn alts_split(b: Seq<(Seq<(u32, bool)>, Seq<u8>)>, clip: bool) -> (
    Seq<Seq<u32>>,
    Seq<Seq<bool>>,
    Seq<Seq<u8>>,
) {
    (
        Seq::new(b.len(), |i: int| firsts_of(b[i].0)),
        Seq::new(b.len(), |i: int| seconds_of(b[i].0)),
        if clip {
            Seq::new(b.len(), |i: int| b[i].1)
        } else {
            Seq::empty()
        },
    )
}

/// Alternative filters from their coefficients, signs and clip indices.
pub open spec fn alts_joined(x: (Seq<Seq<u32>>, Seq<Seq<bool>>, Seq<Seq<u8>>), clip: bool) -> Seq<
    (Seq<(u32, bool)>, Seq<u8>),
> {
    Seq::new(
        x.0.len(),
        |i: int|
            (
                zip(x.0[i], x.1[i]),
                if clip {
                    x.2[i]
                } else {
                    Seq::empty()
                },
            ),
    )
}

/// `n` rows of 6 in each part; no clip indices unless `clip`.
pub open spec fn alts_fit(
    x: (Seq<Seq<u32>>, Seq<Seq<bool>>, Seq<Seq<u8>>),
    n: nat,
    clip: bool,
) -> bool {
    &&& rows_of(x.0, n, 6)
    &&& rows_of(x.1, n, 6)
    &&& rows_of(
        x.2,
        if clip {
            n
        } else {
            0
        },
        6,
    )
}

proof fn lemma_alt_rows_len(b: Seq<(Seq<(u32, bool)>, Seq<u8>)>, clip: bool, n: u64)
    requires
        alt_rows_ok(b, clip, n),
    ensures
        b.len() == n,
        forall|i: int|
            0 <= i < n ==> (#[trigger] b[i]).0.len() == 6 && b[i].1.len() == (if clip {
                6int
            } else {
                0int
            }),
{
    reveal(alt_rows_ok);
    reveal(alt_row_ok);
    reveal(alf_coefs_ok);
    reveal(clip_row_ok);
}

proof fn lemma_chroma_rows(b: Seq<(Seq<(u32, bool)>, Seq<u8>)>, n: u64, clip: bool)
    requires
        alt_rows_ok(b, clip, n),
    ensures
        alts_joined(alts_split(b, clip), clip) == b,
        alts_fit(alts_split(b, clip), n as nat, clip),
{
    lemma_alt_rows_len(b, clip, n);
    let x = alts_split(b, clip);
    let c = alts_joined(x, clip);
    assert forall|i: int| 0 <= i < b.len() implies #[trigger] c[i] == b[i] by {
        assert(c[i].0 =~= b[i].0);
        assert(c[i].1 =~= b[i].1);
    }
    assert(c =~= b);
}

proof fn lemma_delta_width(num: u32)
    requires
        num <= 24,
    ensures
        ceil_log2((num + 1) as nat) <= 5,
{
    if num > 0 {
        lemma_log2(num as nat);
        lemma2_to64();
        if log2(num as nat) >= 5 {
            lemma_pow2_le(5, log2(num as nat));
        }
    }
}

/// The filter indices at position `p`, coded only if there is more than one
/// filter.
#[verifier::opaque]
pub open spec fn delta_vec_at(s: Seq<bool>, p: nat, num: u32) -> Read<Seq<u8>> {
    let count = if num > 0 { 25u64 } else { 0u64 };
    let width = ceil_log2((num + 1) as nat) as u32;
    match u8s_at(s, p, width as nat, count as nat) { Err(f) => Err(f), Ok((v, p)) => {
    if !all_at_most(v, num) { Err(Fault::Invalid) } else {
    Ok((v, p)) }}}
}

/// The bits `a` followed by the filter indices.
#[verifier::opaque]
pub open spec fn put_delta_vec(a: Seq<bool>, x: Seq<u8>, num: u32) -> Seq<bool> {
    let width = ceil_log2((num + 1) as nat) as u32;
    let a = put_u8s(a, x, width as nat);
    a
}

/// The values of the filter indices that reading can give.
#[verifier::opaque]
pub open spec fn delta_vec_ok(x: Seq<u8>, num: u32) -> bool {
    let count = if num > 0 { 25u64 } else { 0u64 };
    let width = ceil_log2((num + 1) as nat) as u32;
    &&& all_at_most(x, num)
    &&& x.len() == count
    &&& u8s_ok(x, width as nat)
}

/// The values of the filter indices that the writer accepts.
#[verifier::opaque]
pub open spec fn delta_vec_can(x: Seq<u8>, num: u32) -> bool {
    let count = if num > 0 { 25u64 } else { 0u64 };
    &&& x.len() as u64 == count
    &&& all_at_most(x, num)
}

/// Parses the filter indices.
fn parse_delta_vec(r: &mut BitReader<'_>, num: u32) -> (res: Result<Vec<u8>, BitstreamError>)
    requires
        num <= 24,
    ensures
        read_view_is(delta_vec_at(old(r).bits(), old(r).pos(), num), res, *old(r), *final(r)),
{
    proof {
        reveal(delta_vec_at);
        lemma_delta_width(num);
    }
    let count: u64 = if num > 0 { 25u64 } else { 0u64 };
    let width: u32 = ceil_log2_u64(num as u64 + 1);
    let v = r.read_u8s(count, width);
    if !are_at_most(v.as_slice(), num) {
        return Err(delta_idx_error(v.as_slice(), num, true));
    }
    Ok(v)
}

/// Emits the filter indices, the inverse of [`parse_delta_vec`].
fn write_delta_vec(w: &mut BitWriter, x: &Vec<u8>, num: u32) -> (res: Result<(), BitstreamError>)
    requires
        num <= 24,
    ensures
        write_is(delta_vec_can(x@, num), put_delta_vec(old(w)@, x@, num), res, final(w)@),
{
    proof {
        reveal(put_delta_vec);
        reveal(delta_vec_can);
        lemma_delta_width(num);
    }
    let count: u64 = if num > 0 { 25u64 } else { 0u64 };
    let width: u32 = ceil_log2_u64(num as u64 + 1);
    if !((*x).len() as u64 == count) {
        return Err(BitstreamError::invalid("alf_luma_coeff_delta_idx has the wrong length"));
    }
    if !are_at_most((*x).as_slice(), num) {
        return Err(delta_idx_error((*x).as_slice(), num, false));
    }
    w.write_u8s(x.as_slice(), width);
    Ok(())
}

/// Writing the filter indices gives back the bits it was read from.
pub broadcast proof fn law_put_delta_vec_at(s: Seq<bool>, p: nat, num: u32)
    requires
        num <= 24,
    ensures
        #[trigger] delta_vec_at(s, p, num) matches Ok((x, q)) ==> {
            &&& delta_vec_ok(x, num)
            &&& delta_vec_can(x, num)
            &&& within(s, q) ==> within(s, p) && put_delta_vec(upto(s, p), x, num) == upto(s, q)
        },
{
    broadcast use {crate::bits::group_write_read, crate::bits::group_write_read_lists};

    reveal(delta_vec_at);
    reveal(put_delta_vec);
    reveal(delta_vec_ok);
    reveal(delta_vec_can);
    lemma_delta_width(num);
}

/// Reading gives back the filter indices as it was written.
pub broadcast proof fn law_pre_put_delta_vec(a: Seq<bool>, x: Seq<u8>, num: u32, s: Seq<bool>)
    requires
        #[trigger] pre(put_delta_vec(a, x, num), s),
        delta_vec_ok(x, num),
        num <= 24,
    ensures
        pre(a, s),
        delta_vec_can(x, num),
        delta_vec_at(s, a.len(), num) == Ok::<(Seq<u8>, nat), Fault>((x, put_delta_vec(a, x, num).len())),
{
    broadcast use {crate::bits::group_read_written, crate::bits::group_read_written_lists};

    reveal(delta_vec_at);
    reveal(put_delta_vec);
    reveal(delta_vec_ok);
    reveal(delta_vec_can);
    lemma_delta_width(num);
}

/// The layout of the filter indices: reading at `p` gives `x` and ends at `q`
/// if and only if these elements stand there in this order, and the values are
/// allowed.
pub proof fn law_layout_delta_vec(s: Seq<bool>, p: nat, num: u32, x: Seq<u8>, q: nat)
    ensures
        delta_vec_at(s, p, num) == Ok::<(Seq<u8>, nat), Fault>((x, q)) <==> ({
            let count = if num > 0 { 25u64 } else { 0u64 };
            let width = ceil_log2((num + 1) as nat) as u32;
            &&& cursor(s, p).part(|p: nat| u8s_at(s, p, width as nat, count as nat), x).ends(q)
            &&& all_at_most(x, num)
        }),
{
    reveal(delta_vec_at);
}

/// Reading the filter indices fails only with an error of this class.
pub broadcast proof fn law_faults_delta_vec(s: Seq<bool>, p: nat, num: u32)
    ensures
        #[trigger] delta_vec_at(s, p, num) matches Err(f) ==> f == Fault::Invalid,
{
    broadcast use crate::bits::law_faults_u8s;

    reveal(delta_vec_at);
}

/// What the writer accepts reads back: the filter indices, where each field
/// fits its width and what is not coded has the value that is taken for it.
pub proof fn law_reads_delta_vec(a: Seq<bool>, x: Seq<u8>, num: u32, s: Seq<bool>)
    requires
        delta_vec_can(x, num),
        ({
            let width = ceil_log2((num + 1) as nat) as u32;
            &&& u8s_ok(x, width as nat)
            &&& x.len() <= usize::MAX
        }),
        pre(put_delta_vec(a, x, num), s),
        num <= 24,
    ensures
        delta_vec_at(s, a.len(), num) == Ok::<(Seq<u8>, nat), Fault>((x, put_delta_vec(a, x, num).len())),
{
    assert(delta_vec_ok(x, num)) by {
        broadcast use crate::bits::law_fits_small;

        reveal(delta_vec_ok);
        reveal(delta_vec_can);
    }
    law_pre_put_delta_vec(a, x, num, s);
}

proof fn lemma_delta_idx(b: Seq<u8>, num: u32)
    requires
        delta_vec_ok(b, num),
    ensures
        ({
            let x = if num > 0 {
                b
            } else {
                Seq::new(25, |i: int| 0u8)
            };
            &&& x.len() == 25
            &&& num == 0 ==> all_at_most(x, 0) && b == Seq::<u8>::empty()
        }),
{
    reveal(delta_vec_ok);
    if num == 0 {
        assert(b =~= Seq::empty());
    }
}

/// alf_luma_coeff_delta_idx at position `p`: 25 indices, all zero if there is one filter only.
#[verifier::opaque]
pub open spec fn delta_idx_at(s: Seq<bool>, p: nat, num: u32) -> Read<Seq<u8>> {
    match delta_vec_at(s, p, num) {
        Err(f) => Err(f),
        Ok((b, p)) => Ok(((if num > 0 { b } else { Seq::new(25, |i: int| 0u8) }), p)),
    }
}

/// Writes the values.
#[verifier::opaque]
pub open spec fn put_delta_idx(a: Seq<bool>, x: Seq<u8>, num: u32) -> Seq<bool> {
    put_delta_vec(a, (if num > 0 { x } else { Seq::empty() }), num)
}

/// Values that reading can give.
#[verifier::opaque]
pub open spec fn delta_idx_ok(x: Seq<u8>, num: u32) -> bool {
    let b = (if num > 0 { x } else { Seq::empty() });
    (x.len() == 25 && (num == 0 ==> all_at_most(x, 0)))
        && delta_vec_ok(b, num)
        && x == (if num > 0 { b } else { Seq::new(25, |i: int| 0u8) })
}

/// Values that the writer accepts.
#[verifier::opaque]
pub open spec fn delta_idx_can(x: Seq<u8>, num: u32) -> bool {
    (x.len() == 25 && (num == 0 ==> all_at_most(x, 0)))
        && delta_vec_can((if num > 0 { x } else { Seq::empty() }), num)
}

/// Writing what was read gives back the bits that were read.
pub broadcast proof fn law_put_delta_idx_at(s: Seq<bool>, p: nat, num: u32)
    requires
        num <= 24,
    ensures
        #[trigger] delta_idx_at(s, p, num) matches Ok((x, q)) ==> {
            &&& delta_idx_ok(x, num)
            &&& delta_idx_can(x, num)
            &&& within(s, q) ==> within(s, p) && put_delta_idx(upto(s, p), x, num) == upto(s, q)
        },
{
    broadcast use law_put_delta_vec_at;

    reveal(delta_idx_at);
    reveal(put_delta_idx);
    reveal(delta_idx_ok);
    reveal(delta_idx_can);
    if let Ok((b, q)) = delta_vec_at(s, p, num) {
        lemma_delta_idx(b, num);
    }
}

/// What was written reads back as the values that were written.
pub broadcast proof fn law_pre_put_delta_idx(a: Seq<bool>, x: Seq<u8>, num: u32, s: Seq<bool>)
    requires
        #[trigger] pre(put_delta_idx(a, x, num), s),
        delta_idx_ok(x, num),
        num <= 24,
    ensures
        pre(a, s),
        delta_idx_can(x, num),
        delta_idx_at(s, a.len(), num) == Ok::<(Seq<u8>, nat), Fault>((x, put_delta_idx(a, x, num).len())),
{
    broadcast use law_pre_put_delta_vec;

    reveal(delta_idx_at);
    reveal(put_delta_idx);
    reveal(delta_idx_ok);
    reveal(delta_idx_can);
}

/// What the writer accepts reads back, where the coded values are ones that reading can
/// give and the others are those that stand for what is not coded.
pub proof fn law_reads_delta_idx(a: Seq<bool>, x: Seq<u8>, num: u32, s: Seq<bool>)
    requires
        delta_idx_can(x, num),
        ({
            let b = (if num > 0 { x } else { Seq::empty() });
            delta_vec_ok(b, num) && x == (if num > 0 { b } else { Seq::new(25, |i: int| 0u8) })
        }),
        pre(put_delta_idx(a, x, num), s),
        num <= 24,
    ensures
        delta_idx_at(s, a.len(), num) == Ok::<(Seq<u8>, nat), Fault>((x, put_delta_idx(a, x, num).len())),
{
    assert(delta_idx_ok(x, num)) by {
        reveal(delta_idx_ok);
        reveal(delta_idx_can);
    }
    law_pre_put_delta_idx(a, x, num, s);
}

/// Reading them fails only with an error of this class.
pub broadcast proof fn law_faults_delta_idx(s: Seq<bool>, p: nat, num: u32)
    ensures
        #[trigger] delta_idx_at(s, p, num) matches Err(f) ==> f == Fault::Invalid,
{
    broadcast use law_faults_delta_vec;

    reveal(delta_idx_at);
}

/// The luma coefficients and signs at position `p`, a row of 12 for each of `n` filters.
#[verifier::opaque]
pub open spec fn luma_rows_at(s: Seq<bool>, p: nat, n: u64) -> Read<(Seq<Seq<u32>>, Seq<Seq<bool>>)> {
    match alf_rows_at(s, p, 12, n) {
        Err(f) => Err(f),
        Ok((b, p)) => Ok(((rows_fst(b), rows_snd(b)), p)),
    }
}

/// Writes the values.
#[verifier::opaque]
pub open spec fn put_luma_rows(a: Seq<bool>, x: (Seq<Seq<u32>>, Seq<Seq<bool>>), n: u64) -> Seq<bool> {
    put_alf_rows(a, zip_rows(x.0, x.1), 12, n)
}

/// Values that reading can give.
#[verifier::opaque]
pub open spec fn luma_rows_ok(x: (Seq<Seq<u32>>, Seq<Seq<bool>>), n: u64) -> bool {
    let b = zip_rows(x.0, x.1);
    (rows_of(x.0, n as nat, 12) && rows_of(x.1, n as nat, 12))
        && alf_rows_ok(b, 12, n)
        && x == (rows_fst(b), rows_snd(b))
}

/// Values that the writer accepts.
#[verifier::opaque]
pub open spec fn luma_rows_can(x: (Seq<Seq<u32>>, Seq<Seq<bool>>), n: u64) -> bool {
    (rows_of(x.0, n as nat, 12) && rows_of(x.1, n as nat, 12)) && alf_rows_can(zip_rows(x.0, x.1), 12, n)
}

/// Writing what was read gives back the bits that were read.
pub broadcast proof fn law_put_luma_rows_at(s: Seq<bool>, p: nat, n: u64)
    ensures
        #[trigger] luma_rows_at(s, p, n) matches Ok((x, q)) ==> {
            &&& luma_rows_ok(x, n)
            &&& luma_rows_can(x, n)
            &&& within(s, q) ==> within(s, p) && put_luma_rows(upto(s, p), x, n) == upto(s, q)
        },
{
    broadcast use law_put_alf_rows_at;

    reveal(luma_rows_at);
    reveal(put_luma_rows);
    reveal(luma_rows_ok);
    reveal(luma_rows_can);
    if let Ok((b, q)) = alf_rows_at(s, p, 12, n) {
        lemma_luma_rows(b, n);
    }
}

/// What was written reads back as the values that were written.
pub broadcast proof fn law_pre_put_luma_rows(
    a: Seq<bool>,
    x: (Seq<Seq<u32>>, Seq<Seq<bool>>),
    n: u64,
    s: Seq<bool>,
)
    requires
        #[trigger] pre(put_luma_rows(a, x, n), s),
        luma_rows_ok(x, n),
    ensures
        pre(a, s),
        luma_rows_can(x, n),
        luma_rows_at(s, a.len(), n) == Ok::<(
            (Seq<Seq<u32>>, Seq<Seq<bool>>),
            nat,
        ), Fault>((x, put_luma_rows(a, x, n).len())),
{
    broadcast use law_pre_put_alf_rows;

    reveal(luma_rows_at);
    reveal(put_luma_rows);
    reveal(luma_rows_ok);
    reveal(luma_rows_can);
}

/// What the writer accepts reads back, where the coded values are ones that reading can
/// give and the others are those that stand for what is not coded.
pub proof fn law_reads_luma_rows(a: Seq<bool>, x: (Seq<Seq<u32>>, Seq<Seq<bool>>), n: u64, s: Seq<bool>)
    requires
        luma_rows_can(x, n),
        ({
            let b = zip_rows(x.0, x.1);
            alf_rows_ok(b, 12, n) && x == (rows_fst(b), rows_snd(b))
        }),
        pre(put_luma_rows(a, x, n), s),
    ensures
        luma_rows_at(s, a.len(), n) == Ok::<(
            (Seq<Seq<u32>>, Seq<Seq<bool>>),
            nat,
        ), Fault>((x, put_luma_rows(a, x, n).len())),
{
    assert(luma_rows_ok(x, n)) by {
        reveal(luma_rows_ok);
        reveal(luma_rows_can);
    }
    law_pre_put_luma_rows(a, x, n, s);
}

/// Reading them fails only with an error of this class.
pub broadcast proof fn law_faults_luma_rows(s: Seq<bool>, p: nat, n: u64)
    ensures
        #[trigger] luma_rows_at(s, p, n) matches Err(f) ==> f == Fault::Invalid,
{
    broadcast use law_faults_alf_rows;

    reveal(luma_rows_at);
}

/// The luma clip indices at position `p`, a row of 12 for each of `n` filters.
#[verifier::opaque]
pub open spec fn luma_clips_at(s: Seq<bool>, p: nat, n: u64) -> Read<Seq<Seq<u8>>> {
    match clip_rows_at(s, p, 12, n) {
        Err(f) => Err(f),
        Ok((b, p)) => Ok((b, p)),
    }
}

/// Writes the values.
#[verifier::opaque]
pub open spec fn put_luma_clips(a: Seq<bool>, x: Seq<Seq<u8>>, n: u64) -> Seq<bool> {
    put_clip_rows(a, x, 12, n)
}

/// Values that reading can give.
#[verifier::opaque]
pub open spec fn luma_clips_ok(x: Seq<Seq<u8>>, n: u64) -> bool {
    let b = x;
    rows_of(x, n as nat, 12) && clip_rows_ok(b, 12, n) && x == b
}

/// Values that the writer accepts.
#[verifier::opaque]
pub open spec fn luma_clips_can(x: Seq<Seq<u8>>, n: u64) -> bool {
    rows_of(x, n as nat, 12) && clip_rows_can(x, 12, n)
}

/// Writing what was read gives back the bits that were read.
pub broadcast proof fn law_put_luma_clips_at(s: Seq<bool>, p: nat, n: u64)
    ensures
        #[trigger] luma_clips_at(s, p, n) matches Ok((x, q)) ==> {
            &&& luma_clips_ok(x, n)
            &&& luma_clips_can(x, n)
            &&& within(s, q) ==> within(s, p) && put_luma_clips(upto(s, p), x, n) == upto(s, q)
        },
{
    broadcast use law_put_clip_rows_at;

    reveal(luma_clips_at);
    reveal(put_luma_clips);
    reveal(luma_clips_ok);
    reveal(luma_clips_can);
    if let Ok((b, q)) = clip_rows_at(s, p, 12, n) {
        lemma_luma_clips(b, n);
    }
}

/// What was written reads back as the values that were written.
pub broadcast proof fn law_pre_put_luma_clips(a: Seq<bool>, x: Seq<Seq<u8>>, n: u64, s: Seq<bool>)
    requires
        #[trigger] pre(put_luma_clips(a, x, n), s),
        luma_clips_ok(x, n),
    ensures
        pre(a, s),
        luma_clips_can(x, n),
        luma_clips_at(s, a.len(), n) == Ok::<(Seq<Seq<u8>>, nat), Fault>((x, put_luma_clips(a, x, n).len())),
{
    broadcast use law_pre_put_clip_rows;

    reveal(luma_clips_at);
    reveal(put_luma_clips);
    reveal(luma_clips_ok);
    reveal(luma_clips_can);
}

/// What the writer accepts reads back, where the coded values are ones that reading can
/// give and the others are those that stand for what is not coded.
pub proof fn law_reads_luma_clips(a: Seq<bool>, x: Seq<Seq<u8>>, n: u64, s: Seq<bool>)
    requires
        luma_clips_can(x, n),
        ({
            let b = x;
            clip_rows_ok(b, 12, n) && x == b
        }),
        pre(put_luma_clips(a, x, n), s),
    ensures
        luma_clips_at(s, a.len(), n) == Ok::<(Seq<Seq<u8>>, nat), Fault>((x, put_luma_clips(a, x, n).len())),
{
    assert(luma_clips_ok(x, n)) by {
        reveal(luma_clips_ok);
        reveal(luma_clips_can);
    }
    law_pre_put_luma_clips(a, x, n, s);
}

/// Reading them never fails.
pub broadcast proof fn law_faults_luma_clips(s: Seq<bool>, p: nat, n: u64)
    ensures
        #[trigger] luma_clips_at(s, p, n) is Ok,
{
    broadcast use law_faults_clip_rows;

    reveal(luma_clips_at);
}

/// The alternative chroma filters at position `p`: coefficients, signs and clip indices.
#[verifier::opaque]
pub open spec fn chroma_rows_at(
    s: Seq<bool>,
    p: nat,
    n: u64,
    clip: bool,
) -> Read<(Seq<Seq<u32>>, Seq<Seq<bool>>, Seq<Seq<u8>>)> {
    match alt_rows_at(s, p, clip, n) {
        Err(f) => Err(f),
        Ok((b, p)) => Ok((alts_split(b, clip), p)),
    }
}

/// Writes the values.
#[verifier::opaque]
pub open spec fn put_chroma_rows(
    a: Seq<bool>,
    x: (Seq<Seq<u32>>, Seq<Seq<bool>>, Seq<Seq<u8>>),
    n: u64,
    clip: bool,
) -> Seq<bool> {
    put_alt_rows(a, alts_joined(x, clip), clip, n)
}

/// Values that reading can give.
#[verifier::opaque]
pub open spec fn chroma_rows_ok(
    x: (Seq<Seq<u32>>, Seq<Seq<bool>>, Seq<Seq<u8>>),
    n: u64,
    clip: bool,
) -> bool {
    let b = alts_joined(x, clip);
    alts_fit(x, n as nat, clip) && alt_rows_ok(b, clip, n) && x == alts_split(b, clip)
}

/// Values that the writer accepts.
#[verifier::opaque]
pub open spec fn chroma_rows_can(
    x: (Seq<Seq<u32>>, Seq<Seq<bool>>, Seq<Seq<u8>>),
    n: u64,
    clip: bool,
) -> bool {
    alts_fit(x, n as nat, clip) && alt_rows_can(alts_joined(x, clip), clip, n)
}

/// Writing what was read gives back the bits that were read.
pub broadcast proof fn law_put_chroma_rows_at(s: Seq<bool>, p: nat, n: u64, clip: bool)
    ensures
        #[trigger] chroma_rows_at(s, p, n, clip) matches Ok((x, q)) ==> {
            &&& chroma_rows_ok(x, n, clip)
            &&& chroma_rows_can(x, n, clip)
            &&& within(s, q) ==> within(s, p) && put_chroma_rows(upto(s, p), x, n, clip) == upto(s, q)
        },
{
    broadcast use law_put_alt_rows_at;

    reveal(chroma_rows_at);
    reveal(put_chroma_rows);
    reveal(chroma_rows_ok);
    reveal(chroma_rows_can);
    if let Ok((b, q)) = alt_rows_at(s, p, clip, n) {
        lemma_chroma_rows(b, n, clip);
    }
}

/// What was written reads back as the values that were written.
pub broadcast proof fn law_pre_put_chroma_rows(
    a: Seq<bool>,
    x: (Seq<Seq<u32>>, Seq<Seq<bool>>, Seq<Seq<u8>>),
    n: u64,
    clip: bool,
    s: Seq<bool>,
)
    requires
        #[trigger] pre(put_chroma_rows(a, x, n, clip), s),
        chroma_rows_ok(x, n, clip),
    ensures
        pre(a, s),
        chroma_rows_can(x, n, clip),
        chroma_rows_at(s, a.len(), n, clip) == Ok::<(
            (Seq<Seq<u32>>, Seq<Seq<bool>>, Seq<Seq<u8>>),
            nat,
        ), Fault>((x, put_chroma_rows(a, x, n, clip).len())),
{
    broadcast use law_pre_put_alt_rows;

    reveal(chroma_rows_at);
    reveal(put_chroma_rows);
    reveal(chroma_rows_ok);
    reveal(chroma_rows_can);
}

/// What the writer accepts reads back, where the coded values are ones that reading can
/// give and the others are those that stand for what is not coded.
pub proof fn law_reads_chroma_rows(
    a: Seq<bool>,
    x: (Seq<Seq<u32>>, Seq<Seq<bool>>, Seq<Seq<u8>>),
    n: u64,
    clip: bool,
    s: Seq<bool>,
)
    requires
        chroma_rows_can(x, n, clip),
        ({
            let b = alts_joined(x, clip);
            alt_rows_ok(b, clip, n) && x == alts_split(b, clip)
        }),
        pre(put_chroma_rows(a, x, n, clip), s),
    ensures
        chroma_rows_at(s, a.len(), n, clip) == Ok::<(
            (Seq<Seq<u32>>, Seq<Seq<bool>>, Seq<Seq<u8>>),
            nat,
        ), Fault>((x, put_chroma_rows(a, x, n, clip).len())),
{
    assert(chroma_rows_ok(x, n, clip)) by {
        reveal(chroma_rows_ok);
        reveal(chroma_rows_can);
    }
    law_pre_put_chroma_rows(a, x, n, clip, s);
}

/// Reading them fails only with an error of this class.
pub broadcast proof fn law_faults_chroma_rows(s: Seq<bool>, p: nat, n: u64, clip: bool)
    ensures
        #[trigger] chroma_rows_at(s, p, n, clip) matches Err(f) ==> f == Fault::Invalid,
{
    broadcast use law_faults_alt_rows;

    reveal(chroma_rows_at);
}

/// The cross-component coefficients and signs at position `p`, a row of 7 for each of `n` filters.
#[verifier::opaque]
pub open spec fn cc_filters_at(s: Seq<bool>, p: nat, n: u64) -> Read<(Seq<Seq<u8>>, Seq<Seq<bool>>)> {
    match cc_rows_at(s, p, n) {
        Err(f) => Err(f),
        Ok((b, p)) => Ok(((rows_fst(b), rows_snd(b)), p)),
    }
}

/// Writes the values.
#[verifier::opaque]
pub open spec fn put_cc_filters(a: Seq<bool>, x: (Seq<Seq<u8>>, Seq<Seq<bool>>), n: u64) -> Seq<bool> {
    put_cc_rows(a, zip_rows(x.0, x.1), n)
}

/// Values that reading can give.
#[verifier::opaque]
pub open spec fn cc_filters_ok(x: (Seq<Seq<u8>>, Seq<Seq<bool>>), n: u64) -> bool {
    let b = zip_rows(x.0, x.1);
    (rows_of(x.0, n as nat, 7) && rows_of(x.1, n as nat, 7))
        && cc_rows_ok(b, n)
        && x == (rows_fst(b), rows_snd(b))
}

/// Values that the writer accepts.
#[verifier::opaque]
pub open spec fn cc_filters_can(x: (Seq<Seq<u8>>, Seq<Seq<bool>>), n: u64) -> bool {
    (rows_of(x.0, n as nat, 7) && rows_of(x.1, n as nat, 7)) && cc_rows_can(zip_rows(x.0, x.1), n)
}

/// Writing what was read gives back the bits that were read.
pub broadcast proof fn law_put_cc_filters_at(s: Seq<bool>, p: nat, n: u64)
    ensures
        #[trigger] cc_filters_at(s, p, n) matches Ok((x, q)) ==> {
            &&& cc_filters_ok(x, n)
            &&& cc_filters_can(x, n)
            &&& within(s, q) ==> within(s, p) && put_cc_filters(upto(s, p), x, n) == upto(s, q)
        },
{
    broadcast use law_put_cc_rows_at;

    reveal(cc_filters_at);
    reveal(put_cc_filters);
    reveal(cc_filters_ok);
    reveal(cc_filters_can);
    if let Ok((b, q)) = cc_rows_at(s, p, n) {
        lemma_cc_filters(b, n);
    }
}

/// What was written reads back as the values that were written.
pub broadcast proof fn law_pre_put_cc_filters(
    a: Seq<bool>,
    x: (Seq<Seq<u8>>, Seq<Seq<bool>>),
    n: u64,
    s: Seq<bool>,
)
    requires
        #[trigger] pre(put_cc_filters(a, x, n), s),
        cc_filters_ok(x, n),
    ensures
        pre(a, s),
        cc_filters_can(x, n),
        cc_filters_at(s, a.len(), n) == Ok::<(
            (Seq<Seq<u8>>, Seq<Seq<bool>>),
            nat,
        ), Fault>((x, put_cc_filters(a, x, n).len())),
{
    broadcast use law_pre_put_cc_rows;

    reveal(cc_filters_at);
    reveal(put_cc_filters);
    reveal(cc_filters_ok);
    reveal(cc_filters_can);
}

/// What the writer accepts reads back, where the coded values are ones that reading can
/// give and the others are those that stand for what is not coded.
pub proof fn law_reads_cc_filters(a: Seq<bool>, x: (Seq<Seq<u8>>, Seq<Seq<bool>>), n: u64, s: Seq<bool>)
    requires
        cc_filters_can(x, n),
        ({
            let b = zip_rows(x.0, x.1);
            cc_rows_ok(b, n) && x == (rows_fst(b), rows_snd(b))
        }),
        pre(put_cc_filters(a, x, n), s),
    ensures
        cc_filters_at(s, a.len(), n) == Ok::<(
            (Seq<Seq<u8>>, Seq<Seq<bool>>),
            nat,
        ), Fault>((x, put_cc_filters(a, x, n).len())),
{
    assert(cc_filters_ok(x, n)) by {
        reveal(cc_filters_ok);
        reveal(cc_filters_can);
    }
    law_pre_put_cc_filters(a, x, n, s);
}

/// Reading them never fails.
pub broadcast proof fn law_faults_cc_filters(s: Seq<bool>, p: nat, n: u64)
    ensures
        #[trigger] cc_filters_at(s, p, n) is Ok,
{
    broadcast use law_faults_cc_rows;

    reveal(cc_filters_at);
}

fn parse_delta_idx(r: &mut BitReader<'_>, num: u32) -> (res: Result<[u8; 25], BitstreamError>)
    requires
        num <= 24,
    ensures
        read_view_is(delta_idx_at(old(r).bits(), old(r).pos(), num), res, *old(r), *final(r)),
{
    proof {
        reveal(delta_idx_at);
    }
    let v = parse_delta_vec(r, num)?;
    proof {
        law_put_delta_vec_at(old(r).bits(), old(r).pos(), num);
        lemma_delta_idx(v@, num);
    }
    let mut idx: [u8; 25] = [0; 25];
    if num > 0 {
        let mut i: usize = 0;
        while i < 25
            invariant
                i <= 25,
                v@.len() == 25,
                forall|j: int| 0 <= j < i ==> #[trigger] idx@[j] == v@[j],
            decreases 25 - i,
        {
            idx[i] = v[i];
            i = i + 1;
        }
        proof {
            assert(idx@ =~= v@);
        }
    } else {
        proof {
            assert(idx@ =~= Seq::new(25, |i: int| 0u8));
        }
    }
    Ok(idx)
}

fn write_delta_idx(w: &mut BitWriter, x: &[u8; 25], num: u32) -> (res: Result<(), BitstreamError>)
    requires
        num <= 24,
    ensures
        write_is(delta_idx_can(x@, num), put_delta_idx(old(w)@, x@, num), res, final(w)@),
{
    proof {
        reveal(delta_idx_can);
        reveal(put_delta_idx);
    }
    let mut v: Vec<u8> = Vec::new();
    if num > 0 {
        let mut i: usize = 0;
        while i < 25
            invariant
                i <= 25,
                v@.len() == i,
                forall|j: int| 0 <= j < i ==> #[trigger] v@[j] == x@[j],
            decreases 25 - i,
        {
            v.push(x[i]);
            i = i + 1;
        }
        proof {
            assert(v@ =~= x@);
        }
    } else if !are_at_most(x.as_slice(), 0) {
        return Err(
            BitstreamError::invalid(
                "alf_luma_coeff_delta_idx entries are inferred 0 when only one filter is signalled (§7.4.3.18)",
            ),
        );
    }
    proof {
        if num == 0 {
            assert(v@ =~= Seq::empty());
        }
    }
    write_delta_vec(w, &v, num)
}

/// The magnitudes and signs of rows of 12 coefficients.
fn split_12(v: &Vec<Vec<(u32, bool)>>) -> (res: (Vec<[u32; 12]>, Vec<[bool; 12]>))
    requires
        forall|i: int| 0 <= i < v@.len() ==> (#[trigger] v@[i])@.len() == 12,
    ensures
        seq_view(res.0@) == rows_fst(seq_view(v@)),
        seq_view(res.1@) == rows_snd(seq_view(v@)),
{
    let mut abs: Vec<[u32; 12]> = Vec::new();
    let mut sign: Vec<[bool; 12]> = Vec::new();
    let mut i: usize = 0;
    while i < v.len()
        invariant
            i <= v@.len(),
            forall|i: int| 0 <= i < v@.len() ==> (#[trigger] v@[i])@.len() == 12,
            abs@.len() == i,
            sign@.len() == i,
            forall|k: int| 0 <= k < i ==> (#[trigger] abs@[k])@ == firsts_of(v@[k]@),
            forall|k: int| 0 <= k < i ==> (#[trigger] sign@[k])@ == seconds_of(v@[k]@),
        decreases v@.len() - i,
    {
        let row: &Vec<(u32, bool)> = &v[i];
        let mut a: [u32; 12] = [0; 12];
        let mut s: [bool; 12] = [false; 12];
        let mut j: usize = 0;
        while j < 12
            invariant
                j <= 12,
                row@.len() == 12,
                forall|k: int| 0 <= k < j ==> a@[k] == (#[trigger] row@[k]).0 && s@[k] == row@[k].1,
            decreases 12 - j,
        {
            a[j] = row[j].0;
            s[j] = row[j].1;
            j = j + 1;
        }
        proof {
            assert(a@ =~= firsts_of(row@));
            assert(s@ =~= seconds_of(row@));
        }
        abs.push(a);
        sign.push(s);
        i = i + 1;
    }
    proof {
        assert(seq_view(abs@) =~= rows_fst(seq_view(v@)));
        assert(seq_view(sign@) =~= rows_snd(seq_view(v@)));
    }
    (abs, sign)
}

/// Rows of 12 coefficients from their magnitudes and signs.
fn join_12(abs: &Vec<[u32; 12]>, sign: &Vec<[bool; 12]>) -> (v: Vec<Vec<(u32, bool)>>)
    requires
        abs@.len() == sign@.len(),
    ensures
        seq_view(v@) == zip_rows(seq_view(abs@), seq_view(sign@)),
{
    let mut v: Vec<Vec<(u32, bool)>> = Vec::new();
    let mut i: usize = 0;
    while i < abs.len()
        invariant
            i <= abs@.len(),
            abs@.len() == sign@.len(),
            v@.len() == i,
            forall|k: int| 0 <= k < i ==> (#[trigger] v@[k])@ == zip(abs@[k]@, sign@[k]@),
        decreases abs@.len() - i,
    {
        let mut row: Vec<(u32, bool)> = Vec::new();
        let mut j: usize = 0;
        while j < 12
            invariant
                j <= 12,
                i < abs@.len(),
                abs@.len() == sign@.len(),
                row@.len() == j,
                forall|k: int| 0 <= k < j ==> #[trigger] row@[k] == (abs@[i as int]@[k], sign@[i as int]@[k]),
            decreases 12 - j,
        {
            row.push((abs[i][j], sign[i][j]));
            j = j + 1;
        }
        proof {
            assert(row@ =~= zip(abs@[i as int]@, sign@[i as int]@));
        }
        v.push(row);
        i = i + 1;
    }
    proof {
        assert(seq_view(v@) =~= zip_rows(seq_view(abs@), seq_view(sign@)));
    }
    v
}

/// The magnitudes and signs of rows of 7 coefficients.
fn split_7(v: &Vec<Vec<(u8, bool)>>) -> (res: (Vec<[u8; 7]>, Vec<[bool; 7]>))
    requires
        forall|i: int| 0 <= i < v@.len() ==> (#[trigger] v@[i])@.len() == 7,
    ensures
        seq_view(res.0@) == rows_fst(seq_view(v@)),
        seq_view(res.1@) == rows_snd(seq_view(v@)),
{
    let mut abs: Vec<[u8; 7]> = Vec::new();
    let mut sign: Vec<[bool; 7]> = Vec::new();
    let mut i: usize = 0;
    while i < v.len()
        invariant
            i <= v@.len(),
            forall|i: int| 0 <= i < v@.len() ==> (#[trigger] v@[i])@.len() == 7,
            abs@.len() == i,
            sign@.len() == i,
            forall|k: int| 0 <= k < i ==> (#[trigger] abs@[k])@ == firsts_of(v@[k]@),
            forall|k: int| 0 <= k < i ==> (#[trigger] sign@[k])@ == seconds_of(v@[k]@),
        decreases v@.len() - i,
    {
        let row: &Vec<(u8, bool)> = &v[i];
        let mut a: [u8; 7] = [0; 7];
        let mut s: [bool; 7] = [false; 7];
        let mut j: usize = 0;
        while j < 7
            invariant
                j <= 7,
                row@.len() == 7,
                forall|k: int| 0 <= k < j ==> a@[k] == (#[trigger] row@[k]).0 && s@[k] == row@[k].1,
            decreases 7 - j,
        {
            a[j] = row[j].0;
            s[j] = row[j].1;
            j = j + 1;
        }
        proof {
            assert(a@ =~= firsts_of(row@));
            assert(s@ =~= seconds_of(row@));
        }
        abs.push(a);
        sign.push(s);
        i = i + 1;
    }
    proof {
        assert(seq_view(abs@) =~= rows_fst(seq_view(v@)));
        assert(seq_view(sign@) =~= rows_snd(seq_view(v@)));
    }
    (abs, sign)
}

/// Rows of 7 coefficients from their magnitudes and signs.
fn join_7(abs: &Vec<[u8; 7]>, sign: &Vec<[bool; 7]>) -> (v: Vec<Vec<(u8, bool)>>)
    requires
        abs@.len() == sign@.len(),
    ensures
        seq_view(v@) == zip_rows(seq_view(abs@), seq_view(sign@)),
{
    let mut v: Vec<Vec<(u8, bool)>> = Vec::new();
    let mut i: usize = 0;
    while i < abs.len()
        invariant
            i <= abs@.len(),
            abs@.len() == sign@.len(),
            v@.len() == i,
            forall|k: int| 0 <= k < i ==> (#[trigger] v@[k])@ == zip(abs@[k]@, sign@[k]@),
        decreases abs@.len() - i,
    {
        let mut row: Vec<(u8, bool)> = Vec::new();
        let mut j: usize = 0;
        while j < 7
            invariant
                j <= 7,
                i < abs@.len(),
                abs@.len() == sign@.len(),
                row@.len() == j,
                forall|k: int| 0 <= k < j ==> #[trigger] row@[k] == (abs@[i as int]@[k], sign@[i as int]@[k]),
            decreases 7 - j,
        {
            row.push((abs[i][j], sign[i][j]));
            j = j + 1;
        }
        proof {
            assert(row@ =~= zip(abs@[i as int]@, sign@[i as int]@));
        }
        v.push(row);
        i = i + 1;
    }
    proof {
        assert(seq_view(v@) =~= zip_rows(seq_view(abs@), seq_view(sign@)));
    }
    v
}

fn parse_luma_rows(
    r: &mut BitReader<'_>,
    n: u64,
) -> (res: Result<(Vec<[u32; 12]>, Vec<[bool; 12]>), BitstreamError>)
    ensures
        final(r).bits() == old(r).bits(),
        final(r).bytes() == old(r).bytes(),
        match luma_rows_at(old(r).bits(), old(r).pos(), n) {
            Ok((x, p)) => res matches Ok(v)
                && seq_view(v.0@) == x.0
                && seq_view(v.1@) == x.1
                && final(r).pos() == p,
            Err(f) => res matches Err(e) && e.fault() == f,
        },
{
    proof {
        reveal(luma_rows_at);
    }
    let v = parse_alf_rows(r, 12, n)?;
    proof {
        law_put_alf_rows_at(old(r).bits(), old(r).pos(), 12, n);
        lemma_alf_rows_len(seq_view(v@), 12, n);
        assert forall|i: int| 0 <= i < v@.len() implies (#[trigger] v@[i])@.len() == 12 by {
            assert(seq_view(v@)[i] == v@[i]@);
        }
    }
    Ok(split_12(&v))
}

fn write_luma_rows(w: &mut BitWriter, x: &VvcAlfLuma, n: u64) -> (res: Result<(), BitstreamError>)
    ensures
        write_is(
            luma_rows_can((seq_view(x.coeff_abs@), seq_view(x.coeff_sign@)), n),
            put_luma_rows(old(w)@, (seq_view(x.coeff_abs@), seq_view(x.coeff_sign@)), n),
            res,
            final(w)@,
        ),
{
    proof {
        reveal(luma_rows_can);
        reveal(put_luma_rows);
    }
    if x.coeff_abs.len() as u64 != n || x.coeff_sign.len() as u64 != n {
        return Err(
            BitstreamError::invalid("ALF luma coefficient rows must match the signalled filter count"),
        );
    }
    let v = join_12(&x.coeff_abs, &x.coeff_sign);
    write_alf_rows(w, &v, 12, n)
}

fn parse_cc_filters(
    r: &mut BitReader<'_>,
    n: u64,
) -> (res: Result<(Vec<[u8; 7]>, Vec<[bool; 7]>), BitstreamError>)
    ensures
        final(r).bits() == old(r).bits(),
        final(r).bytes() == old(r).bytes(),
        match cc_filters_at(old(r).bits(), old(r).pos(), n) {
            Ok((x, p)) => res matches Ok(v)
                && seq_view(v.0@) == x.0
                && seq_view(v.1@) == x.1
                && final(r).pos() == p,
            Err(f) => res matches Err(e) && e.fault() == f,
        },
{
    proof {
        reveal(cc_filters_at);
    }
    let v = parse_cc_rows(r, n)?;
    proof {
        law_put_cc_rows_at(old(r).bits(), old(r).pos(), n);
        lemma_cc_rows_len(seq_view(v@), n);
        assert forall|i: int| 0 <= i < v@.len() implies (#[trigger] v@[i])@.len() == 7 by {
            assert(seq_view(v@)[i] == v@[i]@);
        }
    }
    Ok(split_7(&v))
}

fn write_cc_filters(w: &mut BitWriter, x: &VvcAlfCcFilters, n: u64) -> (res: Result<(), BitstreamError>)
    ensures
        write_is(
            cc_filters_can((seq_view(x.mapped_coeff_abs@), seq_view(x.coeff_sign@)), n),
            put_cc_filters(old(w)@, (seq_view(x.mapped_coeff_abs@), seq_view(x.coeff_sign@)), n),
            res,
            final(w)@,
        ),
{
    proof {
        reveal(cc_filters_can);
        reveal(put_cc_filters);
    }
    if x.mapped_coeff_abs.len() as u64 != n || x.coeff_sign.len() as u64 != n {
        return Err(
            BitstreamError::invalid("ALF cross-component coefficient rows must match the signalled count"),
        );
    }
    let v = join_7(&x.mapped_coeff_abs, &x.coeff_sign);
    write_cc_rows(w, &v, n)
}

fn parse_luma_clips(r: &mut BitReader<'_>, n: u64) -> (res: Result<Vec<[u8; 12]>, BitstreamError>)
    ensures
        read_seq_is(luma_clips_at(old(r).bits(), old(r).pos(), n), res, *old(r), *final(r)),
{
    proof {
        reveal(luma_clips_at);
    }
    let v = parse_clip_rows(r, 12, n)?;
    proof {
        law_put_clip_rows_at(old(r).bits(), old(r).pos(), 12, n);
        lemma_clip_rows_len(seq_view(v@), 12, n);
        assert forall|i: int| 0 <= i < v@.len() implies (#[trigger] v@[i])@.len() == 12 by {
            assert(seq_view(v@)[i] == v@[i]@);
        }
    }
    let mut out: Vec<[u8; 12]> = Vec::new();
    let mut i: usize = 0;
    while i < v.len()
        invariant
            i <= v@.len(),
            out@.len() == i,
            forall|i: int| 0 <= i < v@.len() ==> (#[trigger] v@[i])@.len() == 12,
            forall|k: int| 0 <= k < i ==> (#[trigger] out@[k])@ == v@[k]@,
        decreases v@.len() - i,
    {
        let mut row: [u8; 12] = [0; 12];
        let mut j: usize = 0;
        while j < 12
            invariant
                j <= 12,
                i < v@.len(),
                v@[i as int]@.len() == 12,
                forall|k: int| 0 <= k < j ==> #[trigger] row@[k] == v@[i as int]@[k],
            decreases 12 - j,
        {
            row[j] = v[i][j];
            j = j + 1;
        }
        proof {
            assert(row@ =~= v@[i as int]@);
        }
        out.push(row);
        i = i + 1;
    }
    proof {
        assert(seq_view(out@) =~= seq_view(v@));
    }
    Ok(out)
}

fn write_luma_clips(w: &mut BitWriter, x: &Vec<[u8; 12]>, n: u64) -> (res: Result<(), BitstreamError>)
    ensures
        write_is(luma_clips_can(seq_view(x@), n), put_luma_clips(old(w)@, seq_view(x@), n), res, final(w)@),
{
    proof {
        reveal(luma_clips_can);
        reveal(put_luma_clips);
    }
    if x.len() as u64 != n {
        return Err(
            BitstreamError::invalid("ALF luma clip_idx rows must match the clip flag and filter count"),
        );
    }
    let mut v: Vec<Vec<u8>> = Vec::new();
    let mut i: usize = 0;
    while i < x.len()
        invariant
            i <= x@.len(),
            v@.len() == i,
            forall|k: int| 0 <= k < i ==> (#[trigger] v@[k])@ == x@[k]@,
        decreases x@.len() - i,
    {
        let mut row: Vec<u8> = Vec::new();
        let mut j: usize = 0;
        while j < 12
            invariant
                j <= 12,
                i < x@.len(),
                row@.len() == j,
                forall|k: int| 0 <= k < j ==> #[trigger] row@[k] == x@[i as int]@[k],
            decreases 12 - j,
        {
            row.push(x[i][j]);
            j = j + 1;
        }
        proof {
            assert(row@ =~= x@[i as int]@);
        }
        v.push(row);
        i = i + 1;
    }
    proof {
        assert(seq_view(v@) =~= seq_view(x@));
    }
    write_clip_rows(w, &v, 12, n, "alf_luma_clip_idx")
}

fn parse_chroma_rows(r: &mut BitReader<'_>, n: u64, clip: bool) -> (res: Result<
    (Vec<[u32; 6]>, Vec<[bool; 6]>, Vec<[u8; 6]>),
    BitstreamError,
>)
    ensures
        final(r).bits() == old(r).bits(),
        final(r).bytes() == old(r).bytes(),
        match chroma_rows_at(old(r).bits(), old(r).pos(), n, clip) {
            Ok((x, p)) => {
                &&& res matches Ok(v)
                &&& seq_view(v.0@) == x.0
                &&& seq_view(v.1@) == x.1
                &&& seq_view(v.2@) == x.2
                &&& final(r).pos() == p
            },
            Err(f) => res matches Err(e) && e.fault() == f,
        },
{
    proof {
        reveal(chroma_rows_at);
    }
    let v = parse_alt_rows(r, clip, n)?;
    let ghost b = seq_view(v@);
    proof {
        law_put_alt_rows_at(old(r).bits(), old(r).pos(), clip, n);
        lemma_alt_rows_len(b, clip, n);
        assert forall|i: int| 0 <= i < v@.len() implies (#[trigger] v@[i]).0@.len() == 6 && (clip ==> v@[i].1@.len()
            == 6) by {
            assert(b[i] == v@[i]@);
        }
    }
    let mut abs: Vec<[u32; 6]> = Vec::new();
    let mut sign: Vec<[bool; 6]> = Vec::new();
    let mut clips: Vec<[u8; 6]> = Vec::new();
    let mut i: usize = 0;
    while i < v.len()
        invariant
            i <= v@.len(),
            forall|i: int|
                0 <= i < v@.len() ==> (#[trigger] v@[i]).0@.len() == 6 && (clip ==> v@[i].1@.len() == 6),
            abs@.len() == i,
            sign@.len() == i,
            clips@.len() == (if clip {
                i as int
            } else {
                0int
            }),
            forall|k: int| 0 <= k < i ==> (#[trigger] abs@[k])@ == firsts_of(v@[k].0@),
            forall|k: int| 0 <= k < i ==> (#[trigger] sign@[k])@ == seconds_of(v@[k].0@),
            forall|k: int| 0 <= k < clips@.len() ==> (#[trigger] clips@[k])@ == v@[k].1@,
        decreases v@.len() - i,
    {
        let row: &(Vec<(u32, bool)>, Vec<u8>) = &v[i];
        let mut a: [u32; 6] = [0; 6];
        let mut s: [bool; 6] = [false; 6];
        let mut c: [u8; 6] = [0; 6];
        let mut j: usize = 0;
        while j < 6
            invariant
                j <= 6,
                row.0@.len() == 6,
                clip ==> row.1@.len() == 6,
                forall|k: int| 0 <= k < j ==> a@[k] == (#[trigger] row.0@[k]).0 && s@[k] == row.0@[k].1,
                forall|k: int| 0 <= k < j && clip ==> #[trigger] c@[k] == row.1@[k],
            decreases 6 - j,
        {
            a[j] = row.0[j].0;
            s[j] = row.0[j].1;
            if clip {
                c[j] = row.1[j];
            }
            j = j + 1;
        }
        proof {
            assert(a@ =~= firsts_of(row.0@));
            assert(s@ =~= seconds_of(row.0@));
            if clip {
                assert(c@ =~= row.1@);
            }
        }
        abs.push(a);
        sign.push(s);
        if clip {
            clips.push(c);
        }
        i = i + 1;
    }
    proof {
        let x = alts_split(b, clip);
        assert(seq_view(abs@) =~= x.0);
        assert(seq_view(sign@) =~= x.1);
        assert(seq_view(clips@) =~= x.2);
    }
    Ok((abs, sign, clips))
}

fn write_chroma_rows(w: &mut BitWriter, x: &VvcAlfChroma, n: u64, clip: bool) -> (res: Result<
    (),
    BitstreamError,
>)
    ensures
        ({
            let m = (seq_view(x.coeff_abs@), seq_view(x.coeff_sign@), seq_view(x.clip_idx@));
            write_is(chroma_rows_can(m, n, clip), put_chroma_rows(old(w)@, m, n, clip), res, final(w)@)
        }),
{
    let ghost m = (seq_view(x.coeff_abs@), seq_view(x.coeff_sign@), seq_view(x.clip_idx@));
    proof {
        reveal(chroma_rows_can);
        reveal(put_chroma_rows);
    }
    if x.coeff_abs.len() as u64 != n || x.coeff_sign.len() as u64 != n {
        return Err(
            BitstreamError::invalid("ALF chroma coefficient rows must match the alternative-filter count"),
        );
    }
    if x.clip_idx.len() as u64 != if clip {
        n
    } else {
        0
    } {
        return Err(
            BitstreamError::invalid("ALF chroma clip_idx rows must match the clip flag and filter count"),
        );
    }
    let mut v: Vec<(Vec<(u32, bool)>, Vec<u8>)> = Vec::new();
    let mut i: usize = 0;
    while i < x.coeff_abs.len()
        invariant
            i <= x.coeff_abs@.len(),
            x.coeff_sign@.len() == x.coeff_abs@.len(),
            clip ==> x.clip_idx@.len() == x.coeff_abs@.len(),
            m == (seq_view(x.coeff_abs@), seq_view(x.coeff_sign@), seq_view(x.clip_idx@)),
            v@.len() == i,
            forall|k: int| 0 <= k < i ==> (#[trigger] v@[k])@ == alts_joined(m, clip)[k],
        decreases x.coeff_abs@.len() - i,
    {
        let mut cs: Vec<(u32, bool)> = Vec::new();
        let mut clips: Vec<u8> = Vec::new();
        let mut j: usize = 0;
        while j < 6
            invariant
                j <= 6,
                i < x.coeff_abs@.len(),
                x.coeff_sign@.len() == x.coeff_abs@.len(),
                clip ==> x.clip_idx@.len() == x.coeff_abs@.len(),
                cs@.len() == j,
                clips@.len() == (if clip {
                    j as int
                } else {
                    0int
                }),
                forall|k: int|
                    0 <= k < j
                        ==> #[trigger] cs@[k] == (x.coeff_abs@[i as int]@[k], x.coeff_sign@[i as int]@[k]),
                forall|k: int| 0 <= k < clips@.len() ==> #[trigger] clips@[k] == x.clip_idx@[i as int]@[k],
            decreases 6 - j,
        {
            cs.push((x.coeff_abs[i][j], x.coeff_sign[i][j]));
            if clip {
                clips.push(x.clip_idx[i][j]);
            }
            j = j + 1;
        }
        proof {
            let want = alts_joined(m, clip)[i as int];
            assert(cs@ =~= want.0);
            assert(clips@ =~= want.1);
        }
        v.push((cs, clips));
        i = i + 1;
    }
    proof {
        assert(seq_view(v@) =~= alts_joined(m, clip));
    }
    write_alt_rows(w, &v, clip, n)
}

/// The mathematical model of a [`VvcAlfLuma`].
pub struct VvcAlfLumaModel {
    pub alf_luma_clip_flag: bool,
    pub alf_luma_num_filters_signalled_minus1: u32,
    pub alf_luma_coeff_delta_idx: Seq<u8>,
    pub rows: (Seq<Seq<u32>>, Seq<Seq<bool>>),
    pub clip_idx: Seq<Seq<u8>>,
}

impl View for VvcAlfLuma {
    type V = VvcAlfLumaModel;

    open spec fn view(&self) -> VvcAlfLumaModel {
        VvcAlfLumaModel {
            alf_luma_clip_flag: self.alf_luma_clip_flag,
            alf_luma_num_filters_signalled_minus1: self.alf_luma_num_filters_signalled_minus1,
            alf_luma_coeff_delta_idx: self.alf_luma_coeff_delta_idx@,
            rows: (seq_view(self.coeff_abs@), seq_view(self.coeff_sign@)),
            clip_idx: seq_view(self.clip_idx@),
        }
    }
}

/// The luma part of `alf_data()` at position `p`.
#[verifier::opaque]
pub open spec fn alf_luma_at(s: Seq<bool>, p: nat) -> Read<VvcAlfLumaModel> {
    let alf_luma_clip_flag = flag_at(s, p);
    let p = adv(p, 1);
    match ue_at(s, p) { Err(f) => Err(f), Ok((alf_luma_num_filters_signalled_minus1, p)) => {
    if alf_luma_num_filters_signalled_minus1 > 24 { Err(Fault::Invalid) } else {
    match delta_idx_at(s, p, alf_luma_num_filters_signalled_minus1)
    { Err(f) => Err(f), Ok((alf_luma_coeff_delta_idx, p)) => {
    let signalled = (alf_luma_num_filters_signalled_minus1 as u64 + 1) as u64;
    match luma_rows_at(s, p, signalled) { Err(f) => Err(f), Ok((rows, p)) => {
    match luma_clips_at(s, p, (if alf_luma_clip_flag { signalled } else { 0u64 }))
    { Err(f) => Err(f), Ok((clip_idx, p)) => {
    Ok((
        VvcAlfLumaModel {
            alf_luma_clip_flag,
            alf_luma_num_filters_signalled_minus1,
            alf_luma_coeff_delta_idx,
            rows,
            clip_idx,
        },
        p,
    ))
    }}}}}}}}}
}

/// The bits `a` followed by the luma part of `alf_data()`.
#[verifier::opaque]
pub open spec fn put_alf_luma(a: Seq<bool>, x: VvcAlfLumaModel) -> Seq<bool> {
    let a = put_flag(a, x.alf_luma_clip_flag);
    let a = put_ue(a, x.alf_luma_num_filters_signalled_minus1 as nat);
    let a = put_delta_idx(a, x.alf_luma_coeff_delta_idx, x.alf_luma_num_filters_signalled_minus1);
    let signalled = (x.alf_luma_num_filters_signalled_minus1 as u64 + 1) as u64;
    let a = put_luma_rows(a, x.rows, signalled);
    let a = put_luma_clips(a, x.clip_idx, (if x.alf_luma_clip_flag { signalled } else { 0u64 }));
    a
}

/// The values of the luma part of `alf_data()` that reading can give.
#[verifier::opaque]
pub open spec fn alf_luma_ok(x: VvcAlfLumaModel) -> bool {
    &&& x.alf_luma_num_filters_signalled_minus1 <= 24
    &&& delta_idx_ok(x.alf_luma_coeff_delta_idx, x.alf_luma_num_filters_signalled_minus1)
    &&& {
        let signalled = (x.alf_luma_num_filters_signalled_minus1 as u64 + 1) as u64;
        &&& luma_rows_ok(x.rows, signalled)
        &&& luma_clips_ok(x.clip_idx, (if x.alf_luma_clip_flag { signalled } else { 0u64 }))
    }
}

/// The values of the luma part of `alf_data()` that the writer accepts.
#[verifier::opaque]
pub open spec fn alf_luma_can(x: VvcAlfLumaModel) -> bool {
    &&& x.alf_luma_num_filters_signalled_minus1 <= 24
    &&& delta_idx_can(x.alf_luma_coeff_delta_idx, x.alf_luma_num_filters_signalled_minus1)
    &&& {
        let signalled = (x.alf_luma_num_filters_signalled_minus1 as u64 + 1) as u64;
        &&& luma_rows_can(x.rows, signalled)
        &&& luma_clips_can(x.clip_idx, (if x.alf_luma_clip_flag { signalled } else { 0u64 }))
    }
}

/// Parses the luma part of `alf_data()`.
fn parse_alf_luma(r: &mut BitReader<'_>) -> (res: Result<VvcAlfLuma, BitstreamError>)
    ensures
        read_view_is(alf_luma_at(old(r).bits(), old(r).pos()), res, *old(r), *final(r)),
{
    proof {
        reveal(alf_luma_at);
    }
    let alf_luma_clip_flag: bool = r.flag();
    let alf_luma_num_filters_signalled_minus1: u32 = r.ue()?;
    if alf_luma_num_filters_signalled_minus1 > 24 {
        return Err(
            Message::new("alf_luma_num_filters_signalled_minus1=")
                .num(alf_luma_num_filters_signalled_minus1 as i128)
                .with(" (must be 0..=24, §7.4.3.18)")
                .invalid(),
        );
    }
    let alf_luma_coeff_delta_idx = parse_delta_idx(r, alf_luma_num_filters_signalled_minus1)?;
    let signalled: u64 = alf_luma_num_filters_signalled_minus1 as u64 + 1;
    let rows = parse_luma_rows(r, signalled)?;
    let clip_idx = parse_luma_clips(r, (if alf_luma_clip_flag { signalled } else { 0u64 }))?;
    Ok(VvcAlfLuma {
        alf_luma_clip_flag,
        alf_luma_num_filters_signalled_minus1,
        alf_luma_coeff_delta_idx,
        coeff_abs: rows.0,
        coeff_sign: rows.1,
        clip_idx,
    })
}

/// Emits the luma part of `alf_data()`, the inverse of [`parse_alf_luma`].
fn write_alf_luma(w: &mut BitWriter, x: &VvcAlfLuma) -> (res: Result<(), BitstreamError>)
    ensures
        write_is(alf_luma_can(x@), put_alf_luma(old(w)@, x@), res, final(w)@),
{
    proof {
        reveal(put_alf_luma);
        reveal(alf_luma_can);
    }
    w.write_flag(x.alf_luma_clip_flag);
    if x.alf_luma_num_filters_signalled_minus1 > 24 {
        return Err(
            BitstreamError::invalid("alf_luma_num_filters_signalled_minus1 must be 0..=24 (§7.4.3.18)"),
        );
    }
    w.write_ue(x.alf_luma_num_filters_signalled_minus1)?;
    write_delta_idx(w, &x.alf_luma_coeff_delta_idx, x.alf_luma_num_filters_signalled_minus1)?;
    let signalled: u64 = x.alf_luma_num_filters_signalled_minus1 as u64 + 1;
    write_luma_rows(w, &(*x), signalled)?;
    write_luma_clips(w, &x.clip_idx, (if x.alf_luma_clip_flag { signalled } else { 0u64 }))?;
    Ok(())
}

/// Writing the luma part of `alf_data()` gives back the bits it was read from.
pub broadcast proof fn law_put_alf_luma_at(s: Seq<bool>, p: nat)
    ensures
        #[trigger] alf_luma_at(s, p) matches Ok((x, q)) ==> {
            &&& alf_luma_ok(x)
            &&& alf_luma_can(x)
            &&& within(s, q) ==> within(s, p) && put_alf_luma(upto(s, p), x) == upto(s, q)
        },
{
    broadcast use {
        crate::bits::group_write_read,
        law_put_delta_idx_at,
        law_put_luma_rows_at,
        law_put_luma_clips_at,
    };

    reveal(alf_luma_at);
    reveal(put_alf_luma);
    reveal(alf_luma_ok);
    reveal(alf_luma_can);
}

/// Reading gives back the luma part of `alf_data()` as it was written.
pub broadcast proof fn law_pre_put_alf_luma(a: Seq<bool>, x: VvcAlfLumaModel, s: Seq<bool>)
    requires
        #[trigger] pre(put_alf_luma(a, x), s),
        alf_luma_ok(x),
    ensures
        pre(a, s),
        alf_luma_can(x),
        alf_luma_at(s, a.len()) == Ok::<(VvcAlfLumaModel, nat), Fault>((x, put_alf_luma(a, x).len())),
{
    broadcast use {
        crate::bits::group_read_written,
        law_pre_put_delta_idx,
        law_pre_put_luma_rows,
        law_pre_put_luma_clips,
    };

    reveal(alf_luma_at);
    reveal(put_alf_luma);
    reveal(alf_luma_ok);
    reveal(alf_luma_can);
}

/// The layout of the luma part of `alf_data()`: reading at `p` gives `x` and
/// ends at `q` if and only if these elements stand there in this order, and the
/// values are allowed.
pub proof fn law_layout_alf_luma(s: Seq<bool>, p: nat, x: VvcAlfLumaModel, q: nat)
    ensures
        alf_luma_at(s, p) == Ok::<(VvcAlfLumaModel, nat), Fault>((x, q)) <==> ({
            let signalled = (x.alf_luma_num_filters_signalled_minus1 as u64 + 1) as u64;
            &&& cursor(s, p)
                .flag(x.alf_luma_clip_flag)
                .ue(x.alf_luma_num_filters_signalled_minus1)
                .part(
                    |p: nat| delta_idx_at(s, p, x.alf_luma_num_filters_signalled_minus1),
                    x.alf_luma_coeff_delta_idx,
                )
                .part(|p: nat| luma_rows_at(s, p, signalled), x.rows)
                .part(
                    |p: nat| luma_clips_at(s, p, (if x.alf_luma_clip_flag { signalled } else { 0u64 })),
                    x.clip_idx,
                )
                .ends(q)
            &&& x.alf_luma_num_filters_signalled_minus1 <= 24
        }),
{
    reveal(alf_luma_at);
}

/// Reading the luma part of `alf_data()` fails only with an error of this
/// class.
pub broadcast proof fn law_faults_alf_luma(s: Seq<bool>, p: nat)
    ensures
        #[trigger] alf_luma_at(s, p) matches Err(f) ==> f == Fault::Invalid,
{
    broadcast use {
        crate::bits::law_faults_ue,
        law_faults_delta_idx,
        law_faults_luma_rows,
        law_faults_luma_clips,
    };

    reveal(alf_luma_at);
}

/// What the writer accepts reads back: the luma part of `alf_data()`, where
/// each field fits its width and what is not coded has the value that is taken
/// for it.
pub proof fn law_reads_alf_luma(a: Seq<bool>, x: VvcAlfLumaModel, s: Seq<bool>)
    requires
        alf_luma_can(x),
        ({
            &&& delta_idx_ok(x.alf_luma_coeff_delta_idx, x.alf_luma_num_filters_signalled_minus1)
            &&& {
                let signalled = (x.alf_luma_num_filters_signalled_minus1 as u64 + 1) as u64;
                &&& luma_rows_ok(x.rows, signalled)
                &&& luma_clips_ok(x.clip_idx, (if x.alf_luma_clip_flag { signalled } else { 0u64 }))
            }
        }),
        pre(put_alf_luma(a, x), s),
    ensures
        alf_luma_at(s, a.len()) == Ok::<(VvcAlfLumaModel, nat), Fault>((x, put_alf_luma(a, x).len())),
{
    assert(alf_luma_ok(x)) by {
        broadcast use crate::bits::law_fits_small;

        reveal(alf_luma_ok);
        reveal(alf_luma_can);
    }
    law_pre_put_alf_luma(a, x, s);
}

/// Each field of the model of a [`VvcAlfLuma`] is the field of that name.
pub proof fn law_view_alf_luma(x: VvcAlfLuma)
    ensures
        x@.alf_luma_clip_flag == x.alf_luma_clip_flag,
        x@.alf_luma_num_filters_signalled_minus1 == x.alf_luma_num_filters_signalled_minus1,
        x@.alf_luma_coeff_delta_idx == x.alf_luma_coeff_delta_idx@,
        x@.rows == (seq_view(x.coeff_abs@), seq_view(x.coeff_sign@)),
        x@.clip_idx == seq_view(x.clip_idx@),
{
}

/// The mathematical model of a [`VvcAlfChroma`].
pub struct VvcAlfChromaModel {
    pub alf_chroma_clip_flag: bool,
    pub alf_chroma_num_alt_filters_minus1: u32,
    pub rows: (Seq<Seq<u32>>, Seq<Seq<bool>>, Seq<Seq<u8>>),
}

impl View for VvcAlfChroma {
    type V = VvcAlfChromaModel;

    open spec fn view(&self) -> VvcAlfChromaModel {
        VvcAlfChromaModel {
            alf_chroma_clip_flag: self.alf_chroma_clip_flag,
            alf_chroma_num_alt_filters_minus1: self.alf_chroma_num_alt_filters_minus1,
            rows: (seq_view(self.coeff_abs@), seq_view(self.coeff_sign@), seq_view(self.clip_idx@)),
        }
    }
}

/// The chroma part of `alf_data()` at position `p`.
#[verifier::opaque]
pub open spec fn alf_chroma_at(s: Seq<bool>, p: nat) -> Read<VvcAlfChromaModel> {
    let alf_chroma_clip_flag = flag_at(s, p);
    let p = adv(p, 1);
    match ue_at(s, p) { Err(f) => Err(f), Ok((alf_chroma_num_alt_filters_minus1, p)) => {
    if alf_chroma_num_alt_filters_minus1 > 7 { Err(Fault::Invalid) } else {
    match chroma_rows_at(s, p, (alf_chroma_num_alt_filters_minus1 as u64 + 1) as u64, alf_chroma_clip_flag)
    { Err(f) => Err(f), Ok((rows, p)) => {
    Ok((VvcAlfChromaModel { alf_chroma_clip_flag, alf_chroma_num_alt_filters_minus1, rows }, p))
    }}}}}
}

/// The bits `a` followed by the chroma part of `alf_data()`.
#[verifier::opaque]
pub open spec fn put_alf_chroma(a: Seq<bool>, x: VvcAlfChromaModel) -> Seq<bool> {
    let a = put_flag(a, x.alf_chroma_clip_flag);
    let a = put_ue(a, x.alf_chroma_num_alt_filters_minus1 as nat);
    let a = put_chroma_rows(
        a,
        x.rows,
        (x.alf_chroma_num_alt_filters_minus1 as u64 + 1) as u64,
        x.alf_chroma_clip_flag,
    );
    a
}

/// The values of the chroma part of `alf_data()` that reading can give.
#[verifier::opaque]
pub open spec fn alf_chroma_ok(x: VvcAlfChromaModel) -> bool {
    &&& x.alf_chroma_num_alt_filters_minus1 <= 7
    &&& chroma_rows_ok(
        x.rows,
        (x.alf_chroma_num_alt_filters_minus1 as u64 + 1) as u64,
        x.alf_chroma_clip_flag,
    )
}

/// The values of the chroma part of `alf_data()` that the writer accepts.
#[verifier::opaque]
pub open spec fn alf_chroma_can(x: VvcAlfChromaModel) -> bool {
    &&& x.alf_chroma_num_alt_filters_minus1 <= 7
    &&& chroma_rows_can(
        x.rows,
        (x.alf_chroma_num_alt_filters_minus1 as u64 + 1) as u64,
        x.alf_chroma_clip_flag,
    )
}

/// Parses the chroma part of `alf_data()`.
fn parse_alf_chroma(r: &mut BitReader<'_>) -> (res: Result<VvcAlfChroma, BitstreamError>)
    ensures
        read_view_is(alf_chroma_at(old(r).bits(), old(r).pos()), res, *old(r), *final(r)),
{
    proof {
        reveal(alf_chroma_at);
    }
    let alf_chroma_clip_flag: bool = r.flag();
    let alf_chroma_num_alt_filters_minus1: u32 = r.ue()?;
    if alf_chroma_num_alt_filters_minus1 > 7 {
        return Err(
            Message::new("alf_chroma_num_alt_filters_minus1=")
                .num(alf_chroma_num_alt_filters_minus1 as i128)
                .with(" (must be 0..=7, §7.4.3.18)")
                .invalid(),
        );
    }
    let rows = parse_chroma_rows(r, alf_chroma_num_alt_filters_minus1 as u64 + 1, alf_chroma_clip_flag)?;
    Ok(VvcAlfChroma {
        alf_chroma_clip_flag,
        alf_chroma_num_alt_filters_minus1,
        coeff_abs: rows.0,
        coeff_sign: rows.1,
        clip_idx: rows.2,
    })
}

/// Emits the chroma part of `alf_data()`, the inverse of [`parse_alf_chroma`].
fn write_alf_chroma(w: &mut BitWriter, x: &VvcAlfChroma) -> (res: Result<(), BitstreamError>)
    ensures
        write_is(alf_chroma_can(x@), put_alf_chroma(old(w)@, x@), res, final(w)@),
{
    proof {
        reveal(put_alf_chroma);
        reveal(alf_chroma_can);
    }
    w.write_flag(x.alf_chroma_clip_flag);
    if x.alf_chroma_num_alt_filters_minus1 > 7 {
        return Err(BitstreamError::invalid("alf_chroma_num_alt_filters_minus1 must be 0..=7 (§7.4.3.18)"));
    }
    w.write_ue(x.alf_chroma_num_alt_filters_minus1)?;
    write_chroma_rows(w, &(*x), x.alf_chroma_num_alt_filters_minus1 as u64 + 1, x.alf_chroma_clip_flag)?;
    Ok(())
}

/// Writing the chroma part of `alf_data()` gives back the bits it was read
/// from.
pub broadcast proof fn law_put_alf_chroma_at(s: Seq<bool>, p: nat)
    ensures
        #[trigger] alf_chroma_at(s, p) matches Ok((x, q)) ==> {
            &&& alf_chroma_ok(x)
            &&& alf_chroma_can(x)
            &&& within(s, q) ==> within(s, p) && put_alf_chroma(upto(s, p), x) == upto(s, q)
        },
{
    broadcast use {crate::bits::group_write_read, law_put_chroma_rows_at};

    reveal(alf_chroma_at);
    reveal(put_alf_chroma);
    reveal(alf_chroma_ok);
    reveal(alf_chroma_can);
}

/// Reading gives back the chroma part of `alf_data()` as it was written.
pub broadcast proof fn law_pre_put_alf_chroma(a: Seq<bool>, x: VvcAlfChromaModel, s: Seq<bool>)
    requires
        #[trigger] pre(put_alf_chroma(a, x), s),
        alf_chroma_ok(x),
    ensures
        pre(a, s),
        alf_chroma_can(x),
        alf_chroma_at(s, a.len()) == Ok::<(VvcAlfChromaModel, nat), Fault>((x, put_alf_chroma(a, x).len())),
{
    broadcast use {crate::bits::group_read_written, law_pre_put_chroma_rows};

    reveal(alf_chroma_at);
    reveal(put_alf_chroma);
    reveal(alf_chroma_ok);
    reveal(alf_chroma_can);
}

/// The layout of the chroma part of `alf_data()`: reading at `p` gives `x` and
/// ends at `q` if and only if these elements stand there in this order, and the
/// values are allowed.
pub proof fn law_layout_alf_chroma(s: Seq<bool>, p: nat, x: VvcAlfChromaModel, q: nat)
    ensures
        alf_chroma_at(s, p) == Ok::<(VvcAlfChromaModel, nat), Fault>((x, q)) <==> ({
            &&& cursor(s, p)
                .flag(x.alf_chroma_clip_flag)
                .ue(x.alf_chroma_num_alt_filters_minus1)
                .part(
                    |p: nat| chroma_rows_at(
                        s,
                        p,
                        (x.alf_chroma_num_alt_filters_minus1 as u64 + 1) as u64,
                        x.alf_chroma_clip_flag,
                    ),
                    x.rows,
                )
                .ends(q)
            &&& x.alf_chroma_num_alt_filters_minus1 <= 7
        }),
{
    reveal(alf_chroma_at);
}

/// Reading the chroma part of `alf_data()` fails only with an error of this
/// class.
pub broadcast proof fn law_faults_alf_chroma(s: Seq<bool>, p: nat)
    ensures
        #[trigger] alf_chroma_at(s, p) matches Err(f) ==> f == Fault::Invalid,
{
    broadcast use {crate::bits::law_faults_ue, law_faults_chroma_rows};

    reveal(alf_chroma_at);
}

/// What the writer accepts reads back: the chroma part of `alf_data()`, where
/// each field fits its width and what is not coded has the value that is taken
/// for it.
pub proof fn law_reads_alf_chroma(a: Seq<bool>, x: VvcAlfChromaModel, s: Seq<bool>)
    requires
        alf_chroma_can(x),
        chroma_rows_ok(
            x.rows,
            (x.alf_chroma_num_alt_filters_minus1 as u64 + 1) as u64,
            x.alf_chroma_clip_flag,
        ),
        pre(put_alf_chroma(a, x), s),
    ensures
        alf_chroma_at(s, a.len()) == Ok::<(VvcAlfChromaModel, nat), Fault>((x, put_alf_chroma(a, x).len())),
{
    assert(alf_chroma_ok(x)) by {
        broadcast use crate::bits::law_fits_small;

        reveal(alf_chroma_ok);
        reveal(alf_chroma_can);
    }
    law_pre_put_alf_chroma(a, x, s);
}

/// Each field of the model of a [`VvcAlfChroma`] is the field of that name.
pub proof fn law_view_alf_chroma(x: VvcAlfChroma)
    ensures
        x@.alf_chroma_clip_flag == x.alf_chroma_clip_flag,
        x@.alf_chroma_num_alt_filters_minus1 == x.alf_chroma_num_alt_filters_minus1,
        x@.rows == (seq_view(x.coeff_abs@), seq_view(x.coeff_sign@), seq_view(x.clip_idx@)),
{
}

/// The mathematical model of a [`VvcAlfCcFilters`].
pub struct VvcAlfCcFiltersModel {
    pub filters_signalled_minus1: u32,
    pub rows: (Seq<Seq<u8>>, Seq<Seq<bool>>),
}

impl View for VvcAlfCcFilters {
    type V = VvcAlfCcFiltersModel;

    open spec fn view(&self) -> VvcAlfCcFiltersModel {
        VvcAlfCcFiltersModel {
            filters_signalled_minus1: self.filters_signalled_minus1,
            rows: (seq_view(self.mapped_coeff_abs@), seq_view(self.coeff_sign@)),
        }
    }
}

/// A cross-component filter bank of `alf_data()` at position `p`.
#[verifier::opaque]
pub open spec fn alf_cc_at(s: Seq<bool>, p: nat) -> Read<VvcAlfCcFiltersModel> {
    match ue_at(s, p) { Err(f) => Err(f), Ok((filters_signalled_minus1, p)) => {
    if filters_signalled_minus1 > 3 { Err(Fault::Invalid) } else {
    match cc_filters_at(s, p, (filters_signalled_minus1 as u64 + 1) as u64)
    { Err(f) => Err(f), Ok((rows, p)) => {
    Ok((VvcAlfCcFiltersModel { filters_signalled_minus1, rows }, p))
    }}}}}
}

/// The bits `a` followed by a cross-component filter bank of `alf_data()`.
#[verifier::opaque]
pub open spec fn put_alf_cc(a: Seq<bool>, x: VvcAlfCcFiltersModel) -> Seq<bool> {
    let a = put_ue(a, x.filters_signalled_minus1 as nat);
    let a = put_cc_filters(a, x.rows, (x.filters_signalled_minus1 as u64 + 1) as u64);
    a
}

/// The values of a cross-component filter bank of `alf_data()` that reading can
/// give.
#[verifier::opaque]
pub open spec fn alf_cc_ok(x: VvcAlfCcFiltersModel) -> bool {
    &&& x.filters_signalled_minus1 <= 3
    &&& cc_filters_ok(x.rows, (x.filters_signalled_minus1 as u64 + 1) as u64)
}

/// The values of a cross-component filter bank of `alf_data()` that the writer
/// accepts.
#[verifier::opaque]
pub open spec fn alf_cc_can(x: VvcAlfCcFiltersModel) -> bool {
    &&& x.filters_signalled_minus1 <= 3
    &&& cc_filters_can(x.rows, (x.filters_signalled_minus1 as u64 + 1) as u64)
}

/// Parses a cross-component filter bank of `alf_data()`.
fn parse_alf_cc(r: &mut BitReader<'_>) -> (res: Result<VvcAlfCcFilters, BitstreamError>)
    ensures
        read_view_is(alf_cc_at(old(r).bits(), old(r).pos()), res, *old(r), *final(r)),
{
    proof {
        reveal(alf_cc_at);
    }
    let filters_signalled_minus1: u32 = r.ue()?;
    if filters_signalled_minus1 > 3 {
        return Err(
            Message::new("alf_cc_*_filters_signalled_minus1=")
                .num(filters_signalled_minus1 as i128)
                .with(" (must be 0..=3, §7.4.3.18)")
                .invalid(),
        );
    }
    let rows = parse_cc_filters(r, filters_signalled_minus1 as u64 + 1)?;
    Ok(VvcAlfCcFilters {
        filters_signalled_minus1,
        mapped_coeff_abs: rows.0,
        coeff_sign: rows.1,
    })
}

/// Emits a cross-component filter bank of `alf_data()`, the inverse of [`parse_alf_cc`].
fn write_alf_cc(w: &mut BitWriter, x: &VvcAlfCcFilters) -> (res: Result<(), BitstreamError>)
    ensures
        write_is(alf_cc_can(x@), put_alf_cc(old(w)@, x@), res, final(w)@),
{
    proof {
        reveal(put_alf_cc);
        reveal(alf_cc_can);
    }
    if x.filters_signalled_minus1 > 3 {
        return Err(BitstreamError::invalid("alf_cc_*_filters_signalled_minus1 must be 0..=3 (§7.4.3.18)"));
    }
    w.write_ue(x.filters_signalled_minus1)?;
    write_cc_filters(w, &(*x), x.filters_signalled_minus1 as u64 + 1)?;
    Ok(())
}

/// Writing a cross-component filter bank of `alf_data()` gives back the bits it
/// was read from.
pub broadcast proof fn law_put_alf_cc_at(s: Seq<bool>, p: nat)
    ensures
        #[trigger] alf_cc_at(s, p) matches Ok((x, q)) ==> {
            &&& alf_cc_ok(x)
            &&& alf_cc_can(x)
            &&& within(s, q) ==> within(s, p) && put_alf_cc(upto(s, p), x) == upto(s, q)
        },
{
    broadcast use {crate::bits::group_write_read, law_put_cc_filters_at};

    reveal(alf_cc_at);
    reveal(put_alf_cc);
    reveal(alf_cc_ok);
    reveal(alf_cc_can);
}

/// Reading gives back a cross-component filter bank of `alf_data()` as it was
/// written.
pub broadcast proof fn law_pre_put_alf_cc(a: Seq<bool>, x: VvcAlfCcFiltersModel, s: Seq<bool>)
    requires
        #[trigger] pre(put_alf_cc(a, x), s),
        alf_cc_ok(x),
    ensures
        pre(a, s),
        alf_cc_can(x),
        alf_cc_at(s, a.len()) == Ok::<(VvcAlfCcFiltersModel, nat), Fault>((x, put_alf_cc(a, x).len())),
{
    broadcast use {crate::bits::group_read_written, law_pre_put_cc_filters};

    reveal(alf_cc_at);
    reveal(put_alf_cc);
    reveal(alf_cc_ok);
    reveal(alf_cc_can);
}

/// The layout of a cross-component filter bank of `alf_data()`: reading at `p`
/// gives `x` and ends at `q` if and only if these elements stand there in this
/// order, and the values are allowed.
pub proof fn law_layout_alf_cc(s: Seq<bool>, p: nat, x: VvcAlfCcFiltersModel, q: nat)
    ensures
        alf_cc_at(s, p) == Ok::<(VvcAlfCcFiltersModel, nat), Fault>((x, q)) <==> ({
            &&& cursor(s, p)
                .ue(x.filters_signalled_minus1)
                .part(|p: nat| cc_filters_at(s, p, (x.filters_signalled_minus1 as u64 + 1) as u64), x.rows)
                .ends(q)
            &&& x.filters_signalled_minus1 <= 3
        }),
{
    reveal(alf_cc_at);
}

/// Reading a cross-component filter bank of `alf_data()` fails only with an
/// error of this class.
pub broadcast proof fn law_faults_alf_cc(s: Seq<bool>, p: nat)
    ensures
        #[trigger] alf_cc_at(s, p) matches Err(f) ==> f == Fault::Invalid,
{
    broadcast use {crate::bits::law_faults_ue, law_faults_cc_filters};

    reveal(alf_cc_at);
}

/// What the writer accepts reads back: a cross-component filter bank of
/// `alf_data()`, where each field fits its width and what is not coded has the
/// value that is taken for it.
pub proof fn law_reads_alf_cc(a: Seq<bool>, x: VvcAlfCcFiltersModel, s: Seq<bool>)
    requires
        alf_cc_can(x),
        cc_filters_ok(x.rows, (x.filters_signalled_minus1 as u64 + 1) as u64),
        pre(put_alf_cc(a, x), s),
    ensures
        alf_cc_at(s, a.len()) == Ok::<(VvcAlfCcFiltersModel, nat), Fault>((x, put_alf_cc(a, x).len())),
{
    assert(alf_cc_ok(x)) by {
        broadcast use crate::bits::law_fits_small;

        reveal(alf_cc_ok);
        reveal(alf_cc_can);
    }
    law_pre_put_alf_cc(a, x, s);
}

/// Each field of the model of a [`VvcAlfCcFilters`] is the field of that name.
pub proof fn law_view_alf_cc(x: VvcAlfCcFilters)
    ensures
        x@.filters_signalled_minus1 == x.filters_signalled_minus1,
        x@.rows == (seq_view(x.mapped_coeff_abs@), seq_view(x.coeff_sign@)),
{
}

/// The mathematical model of a [`VvcAlfData`].
pub struct VvcAlfDataModel {
    pub alf_luma_filter_signal_flag: bool,
    pub alf_chroma_filter_signal_flag: bool,
    pub alf_cc_cb_filter_signal_flag: bool,
    pub alf_cc_cr_filter_signal_flag: bool,
    pub luma: Option<VvcAlfLumaModel>,
    pub chroma: Option<VvcAlfChromaModel>,
    pub cc_cb: Option<VvcAlfCcFiltersModel>,
    pub cc_cr: Option<VvcAlfCcFiltersModel>,
}

impl View for VvcAlfData {
    type V = VvcAlfDataModel;

    open spec fn view(&self) -> VvcAlfDataModel {
        VvcAlfDataModel {
            alf_luma_filter_signal_flag: self.alf_luma_filter_signal_flag,
            alf_chroma_filter_signal_flag: self.alf_chroma_filter_signal_flag,
            alf_cc_cb_filter_signal_flag: self.alf_cc_cb_filter_signal_flag,
            alf_cc_cr_filter_signal_flag: self.alf_cc_cr_filter_signal_flag,
            luma: opt_view(self.luma),
            chroma: opt_view(self.chroma),
            cc_cb: opt_view(self.cc_cb),
            cc_cr: opt_view(self.cc_cr),
        }
    }
}

/// `alf_data()` (§7.3.2.18) at position `p`.
#[verifier::opaque]
pub open spec fn alf_data_at(s: Seq<bool>, p: nat, chroma_present: bool) -> Read<VvcAlfDataModel> {
    let alf_luma_filter_signal_flag = flag_at(s, p);
    let p = adv(p, 1);
    let alf_chroma_filter_signal_flag = flag_if(s, p, chroma_present, false);
    let p = adv_if(p, 1, chroma_present);
    let alf_cc_cb_filter_signal_flag = flag_if(s, p, chroma_present, false);
    let p = adv_if(p, 1, chroma_present);
    let alf_cc_cr_filter_signal_flag = flag_if(s, p, chroma_present, false);
    let p = adv_if(p, 1, chroma_present);
    match (if alf_luma_filter_signal_flag { read_some(alf_luma_at(s, p)) } else { Ok((None, p)) })
    { Err(f) => Err(f), Ok((luma, p)) => {
    match (if alf_chroma_filter_signal_flag { read_some(alf_chroma_at(s, p)) } else { Ok((None, p)) })
    { Err(f) => Err(f), Ok((chroma, p)) => {
    match (if alf_cc_cb_filter_signal_flag { read_some(alf_cc_at(s, p)) } else { Ok((None, p)) })
    { Err(f) => Err(f), Ok((cc_cb, p)) => {
    match (if alf_cc_cr_filter_signal_flag { read_some(alf_cc_at(s, p)) } else { Ok((None, p)) })
    { Err(f) => Err(f), Ok((cc_cr, p)) => {
    Ok((
        VvcAlfDataModel {
            alf_luma_filter_signal_flag,
            alf_chroma_filter_signal_flag,
            alf_cc_cb_filter_signal_flag,
            alf_cc_cr_filter_signal_flag,
            luma,
            chroma,
            cc_cb,
            cc_cr,
        },
        p,
    ))
    }}}}}}}}
}

/// The bits `a` followed by `alf_data()` (§7.3.2.18).
#[verifier::opaque]
pub open spec fn put_alf_data(a: Seq<bool>, x: VvcAlfDataModel, chroma_present: bool) -> Seq<bool> {
    let a = put_flag(a, x.alf_luma_filter_signal_flag);
    let a = put_flag_if(a, x.alf_chroma_filter_signal_flag, chroma_present);
    let a = put_flag_if(a, x.alf_cc_cb_filter_signal_flag, chroma_present);
    let a = put_flag_if(a, x.alf_cc_cr_filter_signal_flag, chroma_present);
    let a = match x.luma { Some(y) => put_alf_luma(a, y), None => a };
    let a = match x.chroma { Some(y) => put_alf_chroma(a, y), None => a };
    let a = match x.cc_cb { Some(y) => put_alf_cc(a, y), None => a };
    let a = match x.cc_cr { Some(y) => put_alf_cc(a, y), None => a };
    a
}

/// The values of `alf_data()` (§7.3.2.18) that reading can give.
#[verifier::opaque]
pub open spec fn alf_data_ok(x: VvcAlfDataModel, chroma_present: bool) -> bool {
    &&& chroma_present || !x.alf_chroma_filter_signal_flag
    &&& chroma_present || !x.alf_cc_cb_filter_signal_flag
    &&& chroma_present || !x.alf_cc_cr_filter_signal_flag
    &&& chroma_present
        || !(
            x.alf_chroma_filter_signal_flag
                || x.alf_cc_cb_filter_signal_flag
                || x.alf_cc_cr_filter_signal_flag
        )
    &&& x.luma is Some <==> x.alf_luma_filter_signal_flag
    &&& x.luma matches Some(y) ==> alf_luma_ok(y)
    &&& x.chroma is Some <==> x.alf_chroma_filter_signal_flag
    &&& x.chroma matches Some(y) ==> alf_chroma_ok(y)
    &&& x.cc_cb is Some <==> x.alf_cc_cb_filter_signal_flag
    &&& x.cc_cb matches Some(y) ==> alf_cc_ok(y)
    &&& x.cc_cr is Some <==> x.alf_cc_cr_filter_signal_flag
    &&& x.cc_cr matches Some(y) ==> alf_cc_ok(y)
}

/// The values of `alf_data()` (§7.3.2.18) that the writer accepts.
#[verifier::opaque]
pub open spec fn alf_data_can(x: VvcAlfDataModel, chroma_present: bool) -> bool {
    &&& chroma_present
        || !(
            x.alf_chroma_filter_signal_flag
                || x.alf_cc_cb_filter_signal_flag
                || x.alf_cc_cr_filter_signal_flag
        )
    &&& x.luma is Some <==> x.alf_luma_filter_signal_flag
    &&& x.luma matches Some(y) ==> alf_luma_can(y)
    &&& x.chroma is Some <==> x.alf_chroma_filter_signal_flag
    &&& x.chroma matches Some(y) ==> alf_chroma_can(y)
    &&& x.cc_cb is Some <==> x.alf_cc_cb_filter_signal_flag
    &&& x.cc_cb matches Some(y) ==> alf_cc_can(y)
    &&& x.cc_cr is Some <==> x.alf_cc_cr_filter_signal_flag
    &&& x.cc_cr matches Some(y) ==> alf_cc_can(y)
}

/// Parses `alf_data()` (§7.3.2.18).
fn parse_alf_data(r: &mut BitReader<'_>, chroma_present: bool) -> (res: Result<VvcAlfData, BitstreamError>)
    ensures
        read_view_is(alf_data_at(old(r).bits(), old(r).pos(), chroma_present), res, *old(r), *final(r)),
{
    proof {
        reveal(alf_data_at);
    }
    let alf_luma_filter_signal_flag: bool = r.flag();
    let alf_chroma_filter_signal_flag: bool = r.flag_if(chroma_present, false);
    let alf_cc_cb_filter_signal_flag: bool = r.flag_if(chroma_present, false);
    let alf_cc_cr_filter_signal_flag: bool = r.flag_if(chroma_present, false);
    let luma = if alf_luma_filter_signal_flag { Some(parse_alf_luma(r)?) } else { None };
    let chroma = if alf_chroma_filter_signal_flag { Some(parse_alf_chroma(r)?) } else { None };
    let cc_cb = if alf_cc_cb_filter_signal_flag { Some(parse_alf_cc(r)?) } else { None };
    let cc_cr = if alf_cc_cr_filter_signal_flag { Some(parse_alf_cc(r)?) } else { None };
    Ok(
        VvcAlfData {
            alf_luma_filter_signal_flag,
            alf_chroma_filter_signal_flag,
            alf_cc_cb_filter_signal_flag,
            alf_cc_cr_filter_signal_flag,
            luma,
            chroma,
            cc_cb,
            cc_cr,
        },
    )
}

/// Emits `alf_data()` (§7.3.2.18), the inverse of [`parse_alf_data`].
fn write_alf_data(
    w: &mut BitWriter,
    x: &VvcAlfData,
    chroma_present: bool,
) -> (res: Result<(), BitstreamError>)
    ensures
        write_is(alf_data_can(x@, chroma_present), put_alf_data(old(w)@, x@, chroma_present), res, final(w)@),
{
    proof {
        reveal(put_alf_data);
        reveal(alf_data_can);
    }
    w.write_flag(x.alf_luma_filter_signal_flag);
    w.write_flag_if(x.alf_chroma_filter_signal_flag, chroma_present);
    w.write_flag_if(x.alf_cc_cb_filter_signal_flag, chroma_present);
    w.write_flag_if(x.alf_cc_cr_filter_signal_flag, chroma_present);
    if !(
        chroma_present
        || !(x.alf_chroma_filter_signal_flag || x.alf_cc_cb_filter_signal_flag || x.alf_cc_cr_filter_signal_flag)
    ) {
        return Err(
            BitstreamError::invalid(
                "ALF chroma / cross-component signal flags require aps_chroma_present_flag (§7.3.2.18)",
            ),
        );
    }
    if x.luma.is_some() != x.alf_luma_filter_signal_flag {
        return Err(
            if x.alf_luma_filter_signal_flag {
                BitstreamError::invalid("alf_luma_filter_signal_flag set without luma content")
            } else {
                BitstreamError::invalid("ALF luma content without alf_luma_filter_signal_flag")
            },
        );
    }
    if let Some(y) = &x.luma {
        write_alf_luma(w, y)?;
    }
    if x.chroma.is_some() != x.alf_chroma_filter_signal_flag {
        return Err(
            if x.alf_chroma_filter_signal_flag {
                BitstreamError::invalid("alf_chroma_filter_signal_flag set without chroma content")
            } else {
                BitstreamError::invalid("ALF chroma content without alf_chroma_filter_signal_flag")
            },
        );
    }
    if let Some(y) = &x.chroma {
        write_alf_chroma(w, y)?;
    }
    if x.cc_cb.is_some() != x.alf_cc_cb_filter_signal_flag {
        return Err(
            if x.alf_cc_cb_filter_signal_flag {
                BitstreamError::invalid("ALF cross-component Cb signal flag set without content")
            } else {
                BitstreamError::invalid("ALF cross-component Cb content without its signal flag")
            },
        );
    }
    if let Some(y) = &x.cc_cb {
        write_alf_cc(w, y)?;
    }
    if x.cc_cr.is_some() != x.alf_cc_cr_filter_signal_flag {
        return Err(
            if x.alf_cc_cr_filter_signal_flag {
                BitstreamError::invalid("ALF cross-component Cr signal flag set without content")
            } else {
                BitstreamError::invalid("ALF cross-component Cr content without its signal flag")
            },
        );
    }
    if let Some(y) = &x.cc_cr {
        write_alf_cc(w, y)?;
    }
    Ok(())
}

/// Writing `alf_data()` (§7.3.2.18) gives back the bits it was read from.
pub broadcast proof fn law_put_alf_data_at(s: Seq<bool>, p: nat, chroma_present: bool)
    ensures
        #[trigger] alf_data_at(s, p, chroma_present) matches Ok((x, q)) ==> {
            &&& alf_data_ok(x, chroma_present)
            &&& alf_data_can(x, chroma_present)
            &&& within(s, q) ==> within(s, p) && put_alf_data(upto(s, p), x, chroma_present) == upto(s, q)
        },
{
    broadcast use {
        crate::bits::group_write_read,
        law_put_alf_luma_at,
        law_put_alf_chroma_at,
        law_put_alf_cc_at,
    };

    reveal(alf_data_at);
    reveal(put_alf_data);
    reveal(alf_data_ok);
    reveal(alf_data_can);
}

/// Reading gives back `alf_data()` (§7.3.2.18) as it was written.
pub broadcast proof fn law_pre_put_alf_data(
    a: Seq<bool>,
    x: VvcAlfDataModel,
    chroma_present: bool,
    s: Seq<bool>,
)
    requires
        #[trigger] pre(put_alf_data(a, x, chroma_present), s),
        alf_data_ok(x, chroma_present),
    ensures
        pre(a, s),
        alf_data_can(x, chroma_present),
        alf_data_at(s, a.len(), chroma_present) == Ok::<(VvcAlfDataModel, nat), Fault>(
            (x, put_alf_data(a, x, chroma_present).len()),
        ),
{
    broadcast use {
        crate::bits::group_read_written,
        law_pre_put_alf_luma,
        law_pre_put_alf_chroma,
        law_pre_put_alf_cc,
    };

    reveal(alf_data_at);
    reveal(put_alf_data);
    reveal(alf_data_ok);
    reveal(alf_data_can);
}

/// The layout of `alf_data()` (§7.3.2.18): reading at `p` gives `x` and ends at
/// `q` if and only if these elements stand there in this order.
pub proof fn law_layout_alf_data(s: Seq<bool>, p: nat, chroma_present: bool, x: VvcAlfDataModel, q: nat)
    ensures
        alf_data_at(s, p, chroma_present) == Ok::<(VvcAlfDataModel, nat), Fault>((x, q)) <==> cursor(s, p)
            .flag(x.alf_luma_filter_signal_flag)
            .flag_if(chroma_present, x.alf_chroma_filter_signal_flag, false)
            .flag_if(chroma_present, x.alf_cc_cb_filter_signal_flag, false)
            .flag_if(chroma_present, x.alf_cc_cr_filter_signal_flag, false)
            .part_if(x.alf_luma_filter_signal_flag, |p: nat| alf_luma_at(s, p), x.luma)
            .part_if(x.alf_chroma_filter_signal_flag, |p: nat| alf_chroma_at(s, p), x.chroma)
            .part_if(x.alf_cc_cb_filter_signal_flag, |p: nat| alf_cc_at(s, p), x.cc_cb)
            .part_if(x.alf_cc_cr_filter_signal_flag, |p: nat| alf_cc_at(s, p), x.cc_cr)
            .ends(q),
{
    reveal(alf_data_at);
    reveal(adv_if);
    reveal(flag_if);
}

/// Reading `alf_data()` (§7.3.2.18) fails only with an error of this class.
pub broadcast proof fn law_faults_alf_data(s: Seq<bool>, p: nat, chroma_present: bool)
    ensures
        #[trigger] alf_data_at(s, p, chroma_present) matches Err(f) ==> f == Fault::Invalid,
{
    broadcast use {law_faults_alf_luma, law_faults_alf_chroma, law_faults_alf_cc};

    reveal(alf_data_at);
}

/// What the writer accepts reads back: `alf_data()` (§7.3.2.18), where each
/// field fits its width and what is not coded has the value that is taken for
/// it.
pub proof fn law_reads_alf_data(a: Seq<bool>, x: VvcAlfDataModel, chroma_present: bool, s: Seq<bool>)
    requires
        alf_data_can(x, chroma_present),
        !chroma_present ==> x.alf_chroma_filter_signal_flag == false,
        !chroma_present ==> x.alf_cc_cb_filter_signal_flag == false,
        !chroma_present ==> x.alf_cc_cr_filter_signal_flag == false,
        x.luma matches Some(y) ==> alf_luma_ok(y),
        x.chroma matches Some(y) ==> alf_chroma_ok(y),
        x.cc_cb matches Some(y) ==> alf_cc_ok(y),
        x.cc_cr matches Some(y) ==> alf_cc_ok(y),
        pre(put_alf_data(a, x, chroma_present), s),
    ensures
        alf_data_at(s, a.len(), chroma_present) == Ok::<(VvcAlfDataModel, nat), Fault>(
            (x, put_alf_data(a, x, chroma_present).len()),
        ),
{
    assert(alf_data_ok(x, chroma_present)) by {
        broadcast use crate::bits::law_fits_small;

        reveal(alf_data_ok);
        reveal(alf_data_can);
    }
    law_pre_put_alf_data(a, x, chroma_present, s);
}

/// Each field of the model of a [`VvcAlfData`] is the field of that name.
pub proof fn law_view_alf_data(x: VvcAlfData)
    ensures
        x@.alf_luma_filter_signal_flag == x.alf_luma_filter_signal_flag,
        x@.alf_chroma_filter_signal_flag == x.alf_chroma_filter_signal_flag,
        x@.alf_cc_cb_filter_signal_flag == x.alf_cc_cb_filter_signal_flag,
        x@.alf_cc_cr_filter_signal_flag == x.alf_cc_cr_filter_signal_flag,
        x@.luma == opt_view(x.luma),
        x@.chroma == opt_view(x.chroma),
        x@.cc_cb == opt_view(x.cc_cb),
        x@.cc_cr == opt_view(x.cc_cr),
{
}

// ─────────────────────────── LMCS (§7.3.2.19) ────────────────────────────────

/// `lmcs_data()` (§7.3.2.19). The 16-entry codeword arrays hold
/// coded values at indices `lmcs_min_bin_idx..=LmcsMaxBinIdx` and the
/// inferred zeros elsewhere.
#[derive(Debug, Clone, Default, PartialEq, Eq)]
pub struct VvcLmcsData {
    /// 0..=15 (§7.4.3.19).
    pub lmcs_min_bin_idx: u32,
    /// 0..=15; `LmcsMaxBinIdx = 15 − lmcs_delta_max_bin_idx` must be
    /// ≥ `lmcs_min_bin_idx` (§7.4.3.19).
    pub lmcs_delta_max_bin_idx: u32,
    /// 0..=14 — `lmcs_delta_abs_cw` entries are coded as
    /// `u(lmcs_delta_cw_prec_minus1 + 1)`.
    pub lmcs_delta_cw_prec_minus1: u32,
    pub lmcs_delta_abs_cw: [u32; 16],
    pub lmcs_delta_sign_cw_flag: [bool; 16],
    /// u(3) — coded only when `aps_chroma_present_flag`.
    pub lmcs_delta_abs_crs: u8,
    /// Coded iff `lmcs_delta_abs_crs > 0`.
    pub lmcs_delta_sign_crs_flag: bool,
}

impl VvcLmcsData {
    /// `LmcsMaxBinIdx` (§7.4.3.19).
    pub fn lmcs_max_bin_idx(&self) -> (n: u32)
        ensures
            n == if self.lmcs_delta_max_bin_idx >= 15 {
                0
            } else {
                15 - self.lmcs_delta_max_bin_idx
            },
    {
        if self.lmcs_delta_max_bin_idx >= 15 {
            0
        } else {
            15 - self.lmcs_delta_max_bin_idx
        }
    }
}

/// The 16 deltas and signs: the coded ones from bin `lo` on, zero elsewhere.
pub open spec fn codewords_of(b: Seq<(u32, bool)>, lo: u32) -> (Seq<u32>, Seq<bool>) {
    (
        Seq::new(
            16,
            |i: int|
                if lo <= i < lo + b.len() {
                    b[i - lo].0
                } else {
                    0u32
                },
        ),
        Seq::new(16, |i: int| lo <= i < lo + b.len() && b[i - lo].1),
    )
}

/// The deltas and signs of the bins `lo..=hi`.
pub open spec fn coded_codewords(x: (Seq<u32>, Seq<bool>), lo: u32, hi: u32) -> Seq<(u32, bool)> {
    Seq::new((hi - lo + 1) as nat, |k: int| (x.0[lo + k], x.1[lo + k]))
}

/// The delta and the sign of bin `i` are zero.
pub open spec fn no_codeword(x: (Seq<u32>, Seq<bool>), i: int) -> bool {
    x.0[i] == 0 && !x.1[i]
}

/// 16 deltas and signs that are zero outside `lo..=hi`.
pub open spec fn codewords_fit(x: (Seq<u32>, Seq<bool>), lo: u32, hi: u32) -> bool {
    &&& x.0.len() == 16
    &&& x.1.len() == 16
    &&& forall|i: int| 0 <= i < 16 && !(lo <= i <= hi) ==> #[trigger] no_codeword(x, i)
}

proof fn lemma_codewords(b: Seq<(u32, bool)>, lo: u32, hi: u32, width: u32)
    requires
        lo <= hi <= 15,
        cw_pairs_ok(b, width, (hi - lo + 1) as u64),
    ensures
        coded_codewords(codewords_of(b, lo), lo, hi) == b,
        codewords_fit(codewords_of(b, lo), lo, hi),
{
    reveal(cw_pairs_ok);
    assert(coded_codewords(codewords_of(b, lo), lo, hi) =~= b);
}

/// A codeword delta at position `p`: its magnitude, and its sign unless it is
/// zero.
#[verifier::opaque]
pub open spec fn cw_pair_at(s: Seq<bool>, p: nat, width: u32) -> Read<(u32, bool)> {
    let abs = u32_at(s, p, width as nat);
    let p = adv(p, width as nat);
    let sign = flag_if(s, p, abs > 0, false);
    let p = adv_if(p, 1, abs > 0);
    Ok(((abs, sign), p))
}

/// The bits `a` followed by a codeword delta.
#[verifier::opaque]
pub open spec fn put_cw_pair(a: Seq<bool>, x: (u32, bool), width: u32) -> Seq<bool> {
    let a = put_u(a, x.0 as nat, width as nat);
    let a = put_flag_if(a, x.1, x.0 > 0);
    a
}

/// The values of a codeword delta that reading can give.
#[verifier::opaque]
pub open spec fn cw_pair_ok(x: (u32, bool), width: u32) -> bool {
    &&& fits(x.0 as nat, width as nat)
    &&& x.0 > 0 || !x.1
}

/// The values of a codeword delta that the writer accepts.
#[verifier::opaque]
pub open spec fn cw_pair_can(x: (u32, bool), width: u32) -> bool {
    &&& fits(x.0 as nat, width as nat)
    &&& x.0 > 0 || !x.1
}

/// Parses a codeword delta.
fn parse_cw_pair(r: &mut BitReader<'_>, width: u32) -> (res: Result<(u32, bool), BitstreamError>)
    requires
        width <= 32,
    ensures
        read_is(cw_pair_at(old(r).bits(), old(r).pos(), width), res, *old(r), *final(r)),
{
    proof {
        reveal(cw_pair_at);
    }
    let abs: u32 = r.u(width);
    let sign: bool = r.flag_if(abs > 0, false);
    Ok((abs, sign))
}

/// Emits a codeword delta, the inverse of [`parse_cw_pair`].
fn write_cw_pair(
    w: &mut BitWriter,
    x: &(u32, bool),
    width: u32,
    at: i128,
) -> (res: Result<(), BitstreamError>)
    requires
        width <= 32,
    ensures
        write_is(cw_pair_can(*x, width), put_cw_pair(old(w)@, *x, width), res, final(w)@),
{
    proof {
        reveal(put_cw_pair);
        reveal(cw_pair_can);
    }
    if !fits_bits(x.0, width) {
        return Err(
            Message::new("lmcs_delta_abs_cw[")
                .num(at)
                .with("] does not fit u(")
                .num(width as i128)
                .with(")")
                .invalid(),
        );
    }
    w.write_bits(x.0, width);
    w.write_flag_if(x.1, x.0 > 0);
    if !(x.0 > 0 || !x.1) {
        return Err(
            BitstreamError::invalid("lmcs_delta_sign_cw_flag is inferred 0 for a zero codeword (§7.4.3.19)"),
        );
    }
    Ok(())
}

/// Writing a codeword delta gives back the bits it was read from.
pub broadcast proof fn law_put_cw_pair_at(s: Seq<bool>, p: nat, width: u32)
    requires
        width <= 32,
    ensures
        #[trigger] cw_pair_at(s, p, width) matches Ok((x, q)) ==> {
            &&& cw_pair_ok(x, width)
            &&& cw_pair_can(x, width)
            &&& within(s, q) ==> within(s, p) && put_cw_pair(upto(s, p), x, width) == upto(s, q)
        },
{
    broadcast use crate::bits::group_write_read;

    reveal(cw_pair_at);
    reveal(put_cw_pair);
    reveal(cw_pair_ok);
    reveal(cw_pair_can);
}

/// Reading gives back a codeword delta as it was written.
pub broadcast proof fn law_pre_put_cw_pair(a: Seq<bool>, x: (u32, bool), width: u32, s: Seq<bool>)
    requires
        #[trigger] pre(put_cw_pair(a, x, width), s),
        cw_pair_ok(x, width),
        width <= 32,
    ensures
        pre(a, s),
        cw_pair_can(x, width),
        cw_pair_at(s, a.len(), width) == Ok::<((u32, bool), nat), Fault>((x, put_cw_pair(a, x, width).len())),
{
    broadcast use crate::bits::group_read_written;

    reveal(cw_pair_at);
    reveal(put_cw_pair);
    reveal(cw_pair_ok);
    reveal(cw_pair_can);
}

/// The layout of a codeword delta: reading at `p` gives `x` and ends at `q` if
/// and only if these elements stand there in this order.
pub proof fn law_layout_cw_pair(s: Seq<bool>, p: nat, width: u32, x: (u32, bool), q: nat)
    ensures
        cw_pair_at(s, p, width) == Ok::<((u32, bool), nat), Fault>((x, q)) <==> cursor(s, p)
            .u32(width as nat, x.0)
            .flag_if(x.0 > 0, x.1, false)
            .ends(q),
{
    reveal(cw_pair_at);
    reveal(adv_if);
    reveal(flag_if);
}

/// Reading a codeword delta never fails.
pub broadcast proof fn law_faults_cw_pair(s: Seq<bool>, p: nat, width: u32)
    ensures
        #[trigger] cw_pair_at(s, p, width) is Ok,
{
    reveal(cw_pair_at);
}

/// What the writer accepts reads back: a codeword delta, where each field fits
/// its width and what is not coded has the value that is taken for it.
pub proof fn law_reads_cw_pair(a: Seq<bool>, x: (u32, bool), width: u32, s: Seq<bool>)
    requires
        cw_pair_can(x, width),
        !(x.0 > 0) ==> x.1 == false,
        pre(put_cw_pair(a, x, width), s),
        width <= 32,
    ensures
        cw_pair_at(s, a.len(), width) == Ok::<((u32, bool), nat), Fault>((x, put_cw_pair(a, x, width).len())),
{
    assert(cw_pair_ok(x, width)) by {
        broadcast use crate::bits::law_fits_small;

        reveal(cw_pair_ok);
        reveal(cw_pair_can);
    }
    law_pre_put_cw_pair(a, x, width, s);
}

/// Reads a codeword delta, behind the items before it.
pub open spec fn cw_pairs_item(
    s: Seq<bool>,
    width: u32,
) -> spec_fn(Seq<(u32, bool)>, nat) -> Read<(u32, bool)> {
    |done: Seq<(u32, bool)>, q: nat| cw_pair_at(s, q, width)
}

/// Writes a codeword delta, behind the items before it.
pub open spec fn put_cw_pairs_item(
    width: u32,
) -> spec_fn(Seq<bool>, Seq<(u32, bool)>, (u32, bool)) -> Seq<bool> {
    |a: Seq<bool>, done: Seq<(u32, bool)>, x: (u32, bool)| put_cw_pair(a, x, width)
}

/// Whether a codeword delta may follow the items before it.
pub open spec fn cw_pairs_item_ok(width: u32) -> spec_fn(Seq<(u32, bool)>, (u32, bool)) -> bool {
    |done: Seq<(u32, bool)>, x: (u32, bool)| cw_pair_ok(x, width) && cw_pair_can(x, width)
}

/// `n` items at position `p`, each a codeword delta.
#[verifier::opaque]
pub open spec fn cw_pairs_at(s: Seq<bool>, p: nat, width: u32, n: u64) -> Read<Seq<(u32, bool)>> {
    rep_at(cw_pairs_item(s, width), p, n as nat)
}

/// The bits `a` followed by the items.
#[verifier::opaque]
pub open spec fn put_cw_pairs(a: Seq<bool>, xs: Seq<(u32, bool)>, width: u32, n: u64) -> Seq<bool> {
    put_rep(put_cw_pairs_item(width), a, xs)
}

/// `n` items that reading can give.
#[verifier::opaque]
pub open spec fn cw_pairs_ok(xs: Seq<(u32, bool)>, width: u32, n: u64) -> bool {
    xs.len() == n
        && forall|i: int| 0 <= i < xs.len()
        ==> cw_pair_ok(#[trigger] xs[i], width)
        && cw_pair_can(xs[i], width)
}

/// `n` items that the writer accepts.
#[verifier::opaque]
pub open spec fn cw_pairs_can(xs: Seq<(u32, bool)>, width: u32, n: u64) -> bool {
    xs.len() == n && forall|i: int| 0 <= i < xs.len() ==> cw_pair_can(#[trigger] xs[i], width)
}

/// Parses `n` items, each a codeword delta.
fn parse_cw_pairs(
    r: &mut BitReader<'_>,
    width: u32,
    n: u64,
) -> (res: Result<Vec<(u32, bool)>, BitstreamError>)
    requires
        width <= 32,
    ensures
        read_vec_is(cw_pairs_at(old(r).bits(), old(r).pos(), width, n), res, *old(r), *final(r)),
        res matches Ok(v) ==> v@.len() == n,
{
    let ghost s = r.bits();
    let ghost p = r.pos();
    let ghost reads = cw_pairs_item(s, width);
    let mut xs: Vec<(u32, bool)> = Vec::new();
    let mut i: u64 = 0;
    proof {
        reveal(cw_pairs_at);
    }
    while i < n
        invariant
            i <= n,
            xs@.len() == i,
                width <= 32,
            reads == cw_pairs_item(s, width),
            s == r.bits(),
            s == old(r).bits(),
            p == old(r).pos(),
            r.bytes() == old(r).bytes(),
            rep_at(reads, p, i as nat) == Ok::<(Seq<(u32, bool)>, nat), Fault>((xs@, r.pos())),
        decreases n - i,
    {
        match parse_cw_pair(r, width) {
            Ok(x) => {
                xs.push(x);
            },
            Err(e) => {
                proof {
                    reveal(cw_pairs_at);
                    lemma_rep_err(reads, p, (i + 1) as nat, n as nat);
                }
                return Err(e);
            },
        }
        i = i + 1;
    }
    Ok(xs)
}

/// Emits `n` items, each a codeword delta.
fn write_cw_pairs(
    w: &mut BitWriter,
    xs: &Vec<(u32, bool)>,
    width: u32,
    n: u64,
    base: u32,
) -> (res: Result<(), BitstreamError>)
    requires
        width <= 32,
    ensures
        write_is(cw_pairs_can(xs@, width, n), put_cw_pairs(old(w)@, xs@, width, n), res, final(w)@),
        res is Ok ==> xs@.len() == n,
{
    let ghost before = w@;
    let ghost puts = put_cw_pairs_item(width);
    let ghost ys = xs@;
    proof {
        reveal(put_cw_pairs);
        reveal(cw_pairs_can);
        assert(ys.take(0) =~= Seq::empty());
    }
    if xs.len() as u64 != n {
        return Err(BitstreamError::invalid("unexpected number of entries"));
    }
    let mut i: usize = 0;
    while i < xs.len()
        invariant
            i <= xs@.len(),
            xs@.len() == n,
            ys == xs@,
            ys.len() == xs@.len(),
                width <= 32,
            before == old(w)@,
            puts == put_cw_pairs_item(width),
            w@ == put_rep(puts, before, ys.take(i as int)),
            forall|j: int| 0 <= j < i ==> cw_pair_can(#[trigger] ys[j], width),
        ensures
            i == xs@.len(),
        decreases xs@.len() - i,
    {
        proof {
            assert(ys.take(i + 1).drop_last() =~= ys.take(i as int));
            assert(ys[i as int] == xs@[i as int]);
        }
        match write_cw_pair(w, &xs[i], width, base as i128 + i as i128) {
            Ok(()) => {},
            Err(e) => {
                proof {
                    reveal(cw_pairs_can);
                }
                return Err(e);
            },
        }
        i = i + 1;
    }
    proof {
        assert(ys.take(i as int) =~= ys);
    }
    Ok(())
}

/// Writing what was read gives back the bits that were read.
pub broadcast proof fn law_put_cw_pairs_at(s: Seq<bool>, p: nat, width: u32, n: u64)
    requires
        width <= 32,
    ensures
        #[trigger] cw_pairs_at(s, p, width, n) matches Ok((xs, q)) ==> {
            &&& xs.len() == n
            &&& cw_pairs_ok(xs, width, n)
            &&& cw_pairs_can(xs, width, n)
            &&& within(s, q) ==> within(s, p) && put_cw_pairs(upto(s, p), xs, width, n) == upto(s, q)
        },
{
    broadcast use law_put_cw_pair_at;

    reveal(cw_pairs_at);
    reveal(put_cw_pairs);
    reveal(cw_pairs_ok);
    reveal(cw_pairs_can);
    let ok = cw_pairs_item_ok(width);
    law_put_rep_at(s, cw_pairs_item(s, width), put_cw_pairs_item(width), ok, p, n as nat);
    if let Ok((xs, q)) = cw_pairs_at(s, p, width, n) {
        assert forall|i: int| 0 <= i < xs.len() implies ok(xs.take(i), #[trigger] xs[i]) by {}
    }
}

/// What was written reads back as the items that were written.
pub broadcast proof fn law_pre_put_cw_pairs(
    a: Seq<bool>,
    xs: Seq<(u32, bool)>,
    width: u32,
    n: u64,
    s: Seq<bool>,
)
    requires
        #[trigger] pre(put_cw_pairs(a, xs, width, n), s),
        cw_pairs_ok(xs, width, n),
        width <= 32,
    ensures
        pre(a, s),
        cw_pairs_can(xs, width, n),
        cw_pairs_at(s, a.len(), width, n) == Ok::<(Seq<(u32, bool)>, nat), Fault>(
            (xs, put_cw_pairs(a, xs, width, n).len()),
        ),
{
    broadcast use law_pre_put_cw_pair;

    reveal(cw_pairs_at);
    reveal(put_cw_pairs);
    reveal(cw_pairs_ok);
    reveal(cw_pairs_can);
    law_rep_at_put(s, cw_pairs_item(s, width), put_cw_pairs_item(width), cw_pairs_item_ok(width), a, xs);
}

/// `n` items stand one behind the other: `n - 1` items, and then a codeword
/// delta.
pub proof fn law_layout_cw_pairs(s: Seq<bool>, p: nat, width: u32, n: u64, xs: Seq<(u32, bool)>, q: nat)
    ensures
        cw_pairs_at(s, p, width, n) == Ok::<(Seq<(u32, bool)>, nat), Fault>((xs, q)) <==> if n == 0 {
            xs.len() == 0 && q == p
        } else {
            &&& xs.len() == n
            &&& cursor(s, p)
                .part(|p: nat| cw_pairs_at(s, p, width, (n - 1) as u64), xs.drop_last())
                .part(|p: nat| cw_pair_at(s, p, width), xs.last())
                .ends(q)
        },
{
    reveal(cw_pairs_at);
    lemma_rep_step(cw_pairs_item(s, width), p, n as nat);
    if xs.len() == 0 {
        assert(xs =~= Seq::empty());
    } else {
        assert(xs =~= xs.drop_last().push(xs.last()));
    }
    if n > 0 {
        if let Ok((done, r)) = rep_at(cw_pairs_item(s, width), p, (n - 1) as nat) {
            if let Ok((y, z)) = cw_pairs_item(s, width)(done, r) {
                assert(done.push(y).drop_last() =~= done);
            }
        }
    }
}

/// What the writer accepts as `n` items reads back, where each of them is one that
/// reading can give.
pub proof fn law_reads_cw_pairs(a: Seq<bool>, xs: Seq<(u32, bool)>, width: u32, n: u64, s: Seq<bool>)
    requires
        cw_pairs_can(xs, width, n),
        forall|i: int| 0 <= i < xs.len() ==> cw_pair_ok(#[trigger] xs[i], width),
        pre(put_cw_pairs(a, xs, width, n), s),
        width <= 32,
    ensures
        xs.len() == n,
        cw_pairs_at(s, a.len(), width, n) == Ok::<(Seq<(u32, bool)>, nat), Fault>(
            (xs, put_cw_pairs(a, xs, width, n).len()),
        ),
{
    reveal(cw_pairs_can);
    assert(cw_pairs_ok(xs, width, n)) by {
        reveal(cw_pairs_ok);
    }
    law_pre_put_cw_pairs(a, xs, width, n, s);
}

/// Reading the items never fails.
pub broadcast proof fn law_faults_cw_pairs(s: Seq<bool>, p: nat, width: u32, n: u64)
    ensures
        #[trigger] cw_pairs_at(s, p, width, n) is Ok,
{
    broadcast use law_faults_cw_pair;

    reveal(cw_pairs_at);
    let f = cw_pairs_item(s, width);
    assert forall|done: Seq<(u32, bool)>, q: nat| (#[trigger] f(done, q)) is Ok by {}
    lemma_rep_faults_none(f, p, n as nat);
}

/// The 16 codeword deltas and signs at position `p`; those outside `lo..=hi` are not coded.
#[verifier::opaque]
pub open spec fn codewords_at(
    s: Seq<bool>,
    p: nat,
    lo: u32,
    hi: u32,
    width: u32,
) -> Read<(Seq<u32>, Seq<bool>)> {
    match cw_pairs_at(s, p, width, (hi - lo + 1) as u64) {
        Err(f) => Err(f),
        Ok((b, p)) => Ok((codewords_of(b, lo), p)),
    }
}

/// Writes the values.
#[verifier::opaque]
pub open spec fn put_codewords(
    a: Seq<bool>,
    x: (Seq<u32>, Seq<bool>),
    lo: u32,
    hi: u32,
    width: u32,
) -> Seq<bool> {
    put_cw_pairs(a, coded_codewords(x, lo, hi), width, (hi - lo + 1) as u64)
}

/// Values that reading can give.
#[verifier::opaque]
pub open spec fn codewords_ok(x: (Seq<u32>, Seq<bool>), lo: u32, hi: u32, width: u32) -> bool {
    let b = coded_codewords(x, lo, hi);
    codewords_fit(x, lo, hi) && cw_pairs_ok(b, width, (hi - lo + 1) as u64) && x == codewords_of(b, lo)
}

/// Values that the writer accepts.
#[verifier::opaque]
pub open spec fn codewords_can(x: (Seq<u32>, Seq<bool>), lo: u32, hi: u32, width: u32) -> bool {
    codewords_fit(x, lo, hi) && cw_pairs_can(coded_codewords(x, lo, hi), width, (hi - lo + 1) as u64)
}

/// Writing what was read gives back the bits that were read.
pub broadcast proof fn law_put_codewords_at(s: Seq<bool>, p: nat, lo: u32, hi: u32, width: u32)
    requires
        lo <= hi <= 15,
        width <= 32,
    ensures
        #[trigger] codewords_at(s, p, lo, hi, width) matches Ok((x, q)) ==> {
            &&& codewords_ok(x, lo, hi, width)
            &&& codewords_can(x, lo, hi, width)
            &&& within(s, q) ==> within(s, p) && put_codewords(upto(s, p), x, lo, hi, width) == upto(s, q)
        },
{
    broadcast use law_put_cw_pairs_at;

    reveal(codewords_at);
    reveal(put_codewords);
    reveal(codewords_ok);
    reveal(codewords_can);
    if let Ok((b, q)) = cw_pairs_at(s, p, width, (hi - lo + 1) as u64) {
        lemma_codewords(b, lo, hi, width);
    }
}

/// What was written reads back as the values that were written.
pub broadcast proof fn law_pre_put_codewords(
    a: Seq<bool>,
    x: (Seq<u32>, Seq<bool>),
    lo: u32,
    hi: u32,
    width: u32,
    s: Seq<bool>,
)
    requires
        #[trigger] pre(put_codewords(a, x, lo, hi, width), s),
        codewords_ok(x, lo, hi, width),
        lo <= hi <= 15,
        width <= 32,
    ensures
        pre(a, s),
        codewords_can(x, lo, hi, width),
        codewords_at(s, a.len(), lo, hi, width) == Ok::<((Seq<u32>, Seq<bool>), nat), Fault>(
            (x, put_codewords(a, x, lo, hi, width).len()),
        ),
{
    broadcast use law_pre_put_cw_pairs;

    reveal(codewords_at);
    reveal(put_codewords);
    reveal(codewords_ok);
    reveal(codewords_can);
}

/// What the writer accepts reads back, where the coded values are ones that reading can
/// give and the others are those that stand for what is not coded.
pub proof fn law_reads_codewords(
    a: Seq<bool>,
    x: (Seq<u32>, Seq<bool>),
    lo: u32,
    hi: u32,
    width: u32,
    s: Seq<bool>,
)
    requires
        codewords_can(x, lo, hi, width),
        ({
            let b = coded_codewords(x, lo, hi);
            cw_pairs_ok(b, width, (hi - lo + 1) as u64) && x == codewords_of(b, lo)
        }),
        pre(put_codewords(a, x, lo, hi, width), s),
        lo <= hi <= 15,
        width <= 32,
    ensures
        codewords_at(s, a.len(), lo, hi, width) == Ok::<((Seq<u32>, Seq<bool>), nat), Fault>(
            (x, put_codewords(a, x, lo, hi, width).len()),
        ),
{
    assert(codewords_ok(x, lo, hi, width)) by {
        reveal(codewords_ok);
        reveal(codewords_can);
    }
    law_pre_put_codewords(a, x, lo, hi, width, s);
}

/// Reading them never fails.
pub broadcast proof fn law_faults_codewords(s: Seq<bool>, p: nat, lo: u32, hi: u32, width: u32)
    ensures
        #[trigger] codewords_at(s, p, lo, hi, width) is Ok,
{
    broadcast use law_faults_cw_pairs;

    reveal(codewords_at);
}

fn parse_codewords(r: &mut BitReader<'_>, lo: u32, hi: u32, width: u32) -> (res: Result<
    ([u32; 16], [bool; 16]),
    BitstreamError,
>)
    requires
        lo <= hi <= 15,
        width <= 32,
    ensures
        read_view_is(codewords_at(old(r).bits(), old(r).pos(), lo, hi, width), res, *old(r), *final(r)),
{
    proof {
        reveal(codewords_at);
    }
    let v = parse_cw_pairs(r, width, (hi - lo + 1) as u64)?;
    let mut abs: [u32; 16] = [0; 16];
    let mut sign: [bool; 16] = [false; 16];
    let mut i: usize = 0;
    while i < v.len()
        invariant
            i <= v@.len(),
            lo + v@.len() <= 16,
            forall|k: int|
                0 <= k < 16 ==> #[trigger] abs@[k] == (if lo <= k < lo + i {
                    v@[k - lo].0
                } else {
                    0u32
                }),
            forall|k: int| 0 <= k < 16 ==> #[trigger] sign@[k] == (lo <= k < lo + i && v@[k - lo].1),
        decreases v@.len() - i,
    {
        abs[lo as usize + i] = v[i].0;
        sign[lo as usize + i] = v[i].1;
        i = i + 1;
    }
    proof {
        let want = codewords_of(v@, lo);
        assert(abs@ =~= want.0);
        assert(sign@ =~= want.1);
    }
    Ok((abs, sign))
}

fn write_codewords(w: &mut BitWriter, x: &VvcLmcsData, lo: u32, hi: u32, width: u32) -> (res: Result<
    (),
    BitstreamError,
>)
    requires
        lo <= hi <= 15,
        width <= 32,
    ensures
        ({
            let m = (x.lmcs_delta_abs_cw@, x.lmcs_delta_sign_cw_flag@);
            write_is(
                codewords_can(m, lo, hi, width),
                put_codewords(old(w)@, m, lo, hi, width),
                res,
                final(w)@,
            )
        }),
{
    let ghost m = (x.lmcs_delta_abs_cw@, x.lmcs_delta_sign_cw_flag@);
    proof {
        reveal(codewords_can);
        reveal(put_codewords);
    }
    let mut v: Vec<(u32, bool)> = Vec::new();
    let mut i: usize = 0;
    while i < 16
        invariant
            i <= 16,
            lo <= hi <= 15,
            m == (x.lmcs_delta_abs_cw@, x.lmcs_delta_sign_cw_flag@),
            v@.len() == (if i < lo {
                0int
            } else if i <= hi {
                i - lo
            } else {
                hi - lo + 1
            }),
            forall|k: int| 0 <= k < v@.len() ==> #[trigger] v@[k] == (m.0[lo + k], m.1[lo + k]),
            forall|k: int| 0 <= k < i && !(lo <= k <= hi) ==> #[trigger] no_codeword(m, k),
        decreases 16 - i,
    {
        let abs = x.lmcs_delta_abs_cw[i];
        let sign = x.lmcs_delta_sign_cw_flag[i];
        assert(m.0[i as int] == abs && m.1[i as int] == sign);
        let coded: bool = lo as usize <= i && i <= hi as usize;
        if coded {
            v.push((abs, sign));
        } else if abs != 0 || sign {
            proof {
                reveal(codewords_can);
                assert(!no_codeword(m, i as int));
            }
            return Err(
                BitstreamError::invalid(
                    "LMCS codeword entries outside lmcs_min_bin_idx..=LmcsMaxBinIdx are inferred 0 (§7.4.3.19)",
                ),
            );
        }
        i = i + 1;
    }
    proof {
        assert(v@ =~= coded_codewords(m, lo, hi));
    }
    write_cw_pairs(w, &v, width, (hi - lo + 1) as u64, lo)
}

/// The mathematical model of a [`VvcLmcsData`].
pub struct VvcLmcsDataModel {
    pub lmcs_min_bin_idx: u32,
    pub lmcs_delta_max_bin_idx: u32,
    pub lmcs_delta_cw_prec_minus1: u32,
    pub cw: (Seq<u32>, Seq<bool>),
    pub lmcs_delta_abs_crs: u8,
    pub lmcs_delta_sign_crs_flag: bool,
}

impl View for VvcLmcsData {
    type V = VvcLmcsDataModel;

    open spec fn view(&self) -> VvcLmcsDataModel {
        VvcLmcsDataModel {
            lmcs_min_bin_idx: self.lmcs_min_bin_idx,
            lmcs_delta_max_bin_idx: self.lmcs_delta_max_bin_idx,
            lmcs_delta_cw_prec_minus1: self.lmcs_delta_cw_prec_minus1,
            cw: (self.lmcs_delta_abs_cw@, self.lmcs_delta_sign_cw_flag@),
            lmcs_delta_abs_crs: self.lmcs_delta_abs_crs,
            lmcs_delta_sign_crs_flag: self.lmcs_delta_sign_crs_flag,
        }
    }
}

/// `lmcs_data()` (§7.3.2.19) at position `p`.
#[verifier::opaque]
pub open spec fn lmcs_data_at(s: Seq<bool>, p: nat, chroma_present: bool) -> Read<VvcLmcsDataModel> {
    match ue_at(s, p) { Err(f) => Err(f), Ok((lmcs_min_bin_idx, p)) => {
    match ue_at(s, p) { Err(f) => Err(f), Ok((lmcs_delta_max_bin_idx, p)) => {
    match ue_at(s, p) { Err(f) => Err(f), Ok((lmcs_delta_cw_prec_minus1, p)) => {
    if !(lmcs_min_bin_idx <= 15 && lmcs_delta_max_bin_idx <= 15 && lmcs_min_bin_idx <= 15 - lmcs_delta_max_bin_idx) {
        Err(Fault::Invalid)
    } else {
    if lmcs_delta_cw_prec_minus1 > 14 { Err(Fault::Invalid) } else {
    match codewords_at(
        s,
        p,
        lmcs_min_bin_idx,
        (15 - lmcs_delta_max_bin_idx) as u32,
        (lmcs_delta_cw_prec_minus1 + 1) as u32,
    )
    { Err(f) => Err(f), Ok((cw, p)) => {
    let lmcs_delta_abs_crs = u8_if(s, p, 3, chroma_present, 0);
    let p = adv_if(p, 3, chroma_present);
    let lmcs_delta_sign_crs_flag = flag_if(s, p, chroma_present && lmcs_delta_abs_crs > 0, false);
    let p = adv_if(p, 1, chroma_present && lmcs_delta_abs_crs > 0);
    Ok((
        VvcLmcsDataModel {
            lmcs_min_bin_idx,
            lmcs_delta_max_bin_idx,
            lmcs_delta_cw_prec_minus1,
            cw,
            lmcs_delta_abs_crs,
            lmcs_delta_sign_crs_flag,
        },
        p,
    ))
    }}}}}}}}}}
}

/// The bits `a` followed by `lmcs_data()` (§7.3.2.19).
#[verifier::opaque]
pub open spec fn put_lmcs_data(a: Seq<bool>, x: VvcLmcsDataModel, chroma_present: bool) -> Seq<bool> {
    let a = put_ue(a, x.lmcs_min_bin_idx as nat);
    let a = put_ue(a, x.lmcs_delta_max_bin_idx as nat);
    let a = put_ue(a, x.lmcs_delta_cw_prec_minus1 as nat);
    let a = put_codewords(
        a,
        x.cw,
        x.lmcs_min_bin_idx,
        (15 - x.lmcs_delta_max_bin_idx) as u32,
        (x.lmcs_delta_cw_prec_minus1 + 1) as u32,
    );
    let a = put_u_if(a, x.lmcs_delta_abs_crs as nat, 3, chroma_present);
    let a = put_flag_if(a, x.lmcs_delta_sign_crs_flag, chroma_present && x.lmcs_delta_abs_crs > 0);
    a
}

/// The values of `lmcs_data()` (§7.3.2.19) that reading can give.
#[verifier::opaque]
pub open spec fn lmcs_data_ok(x: VvcLmcsDataModel, chroma_present: bool) -> bool {
    &&& x.lmcs_min_bin_idx <= 15
        && x.lmcs_delta_max_bin_idx <= 15
        && x.lmcs_min_bin_idx <= 15 - x.lmcs_delta_max_bin_idx
    &&& x.lmcs_delta_cw_prec_minus1 <= 14
    &&& codewords_ok(
        x.cw,
        x.lmcs_min_bin_idx,
        (15 - x.lmcs_delta_max_bin_idx) as u32,
        (x.lmcs_delta_cw_prec_minus1 + 1) as u32,
    )
    &&& x.lmcs_delta_abs_crs <= (if chroma_present { 7u8 } else { 0u8 })
    &&& if chroma_present { fits(x.lmcs_delta_abs_crs as nat, 3) } else { x.lmcs_delta_abs_crs == 0 }
    &&& x.lmcs_delta_abs_crs > 0 || !x.lmcs_delta_sign_crs_flag
    &&& chroma_present && x.lmcs_delta_abs_crs > 0 || !x.lmcs_delta_sign_crs_flag
}

/// The values of `lmcs_data()` (§7.3.2.19) that the writer accepts.
#[verifier::opaque]
pub open spec fn lmcs_data_can(x: VvcLmcsDataModel, chroma_present: bool) -> bool {
    &&& x.lmcs_min_bin_idx <= 15
        && x.lmcs_delta_max_bin_idx <= 15
        && x.lmcs_min_bin_idx <= 15 - x.lmcs_delta_max_bin_idx
    &&& x.lmcs_delta_cw_prec_minus1 <= 14
    &&& codewords_can(
        x.cw,
        x.lmcs_min_bin_idx,
        (15 - x.lmcs_delta_max_bin_idx) as u32,
        (x.lmcs_delta_cw_prec_minus1 + 1) as u32,
    )
    &&& x.lmcs_delta_abs_crs <= (if chroma_present { 7u8 } else { 0u8 })
    &&& x.lmcs_delta_abs_crs > 0 || !x.lmcs_delta_sign_crs_flag
}

/// Parses `lmcs_data()` (§7.3.2.19).
fn parse_lmcs_data(r: &mut BitReader<'_>, chroma_present: bool) -> (res: Result<VvcLmcsData, BitstreamError>)
    ensures
        read_view_is(lmcs_data_at(old(r).bits(), old(r).pos(), chroma_present), res, *old(r), *final(r)),
{
    proof {
        reveal(lmcs_data_at);
    }
    let lmcs_min_bin_idx: u32 = r.ue()?;
    let lmcs_delta_max_bin_idx: u32 = r.ue()?;
    let lmcs_delta_cw_prec_minus1: u32 = r.ue()?;
    if !(
        lmcs_min_bin_idx <= 15
        && lmcs_delta_max_bin_idx <= 15
        && lmcs_min_bin_idx <= 15 - lmcs_delta_max_bin_idx
    ) {
        return Err(
            if lmcs_min_bin_idx > 15 {
                Message::new("lmcs_min_bin_idx=")
                    .num(lmcs_min_bin_idx as i128)
                    .with(" (must be 0..=15, §7.4.3.19)")
                    .invalid()
            } else {
                Message::new("lmcs_delta_max_bin_idx=")
                    .num(lmcs_delta_max_bin_idx as i128)
                    .with(" (LmcsMaxBinIdx must be lmcs_min_bin_idx..=15, §7.4.3.19)")
                    .invalid()
            },
        );
    }
    if lmcs_delta_cw_prec_minus1 > 14 {
        return Err(
            Message::new("lmcs_delta_cw_prec_minus1=")
                .num(lmcs_delta_cw_prec_minus1 as i128)
                .with(" (must be 0..=14, §7.4.3.19)")
                .invalid(),
        );
    }
    let cw = parse_codewords(
        r,
        lmcs_min_bin_idx,
        (15 - lmcs_delta_max_bin_idx) as u32,
        (lmcs_delta_cw_prec_minus1 + 1) as u32,
    )?;
    let lmcs_delta_abs_crs: u8 = r.u8_if(3, chroma_present, 0);
    let lmcs_delta_sign_crs_flag: bool = r.flag_if(chroma_present && lmcs_delta_abs_crs > 0, false);
    Ok(VvcLmcsData {
        lmcs_min_bin_idx,
        lmcs_delta_max_bin_idx,
        lmcs_delta_cw_prec_minus1,
        lmcs_delta_abs_cw: cw.0,
        lmcs_delta_sign_cw_flag: cw.1,
        lmcs_delta_abs_crs,
        lmcs_delta_sign_crs_flag,
    })
}

/// Emits `lmcs_data()` (§7.3.2.19), the inverse of [`parse_lmcs_data`].
fn write_lmcs_data(
    w: &mut BitWriter,
    x: &VvcLmcsData,
    chroma_present: bool,
) -> (res: Result<(), BitstreamError>)
    ensures
        write_is(
            lmcs_data_can(x@, chroma_present),
            put_lmcs_data(old(w)@, x@, chroma_present),
            res,
            final(w)@,
        ),
{
    proof {
        reveal(put_lmcs_data);
        reveal(lmcs_data_can);
    }
    if !(
        x.lmcs_min_bin_idx <= 15
        && x.lmcs_delta_max_bin_idx <= 15
        && x.lmcs_min_bin_idx <= 15 - x.lmcs_delta_max_bin_idx
    ) {
        return Err(BitstreamError::invalid("LMCS bin indices out of range (§7.4.3.19)"));
    }
    if x.lmcs_delta_cw_prec_minus1 > 14 {
        return Err(BitstreamError::invalid("lmcs_delta_cw_prec_minus1 must be 0..=14 (§7.4.3.19)"));
    }
    w.write_ue(x.lmcs_min_bin_idx)?;
    w.write_ue(x.lmcs_delta_max_bin_idx)?;
    w.write_ue(x.lmcs_delta_cw_prec_minus1)?;
    write_codewords(
        w,
        &(*x),
        x.lmcs_min_bin_idx,
        (15 - x.lmcs_delta_max_bin_idx) as u32,
        (x.lmcs_delta_cw_prec_minus1 + 1) as u32,
    )?;
    if !(x.lmcs_delta_abs_crs <= (if chroma_present { 7u8 } else { 0u8 })) {
        return Err(
            if chroma_present {
                BitstreamError::invalid("lmcs_delta_abs_crs does not fit u(3)")
            } else {
                BitstreamError::invalid(
                    "LMCS chroma residual scaling fields require aps_chroma_present_flag (§7.3.2.19)",
                )
            },
        );
    }
    w.write_bits_if(x.lmcs_delta_abs_crs as u32, 3, chroma_present);
    if !(x.lmcs_delta_abs_crs > 0 || !x.lmcs_delta_sign_crs_flag) {
        return Err(
            if chroma_present {
                BitstreamError::invalid(
                    "lmcs_delta_sign_crs_flag is inferred 0 for a zero crs delta (§7.4.3.19)",
                )
            } else {
                BitstreamError::invalid(
                    "LMCS chroma residual scaling fields require aps_chroma_present_flag (§7.3.2.19)",
                )
            },
        );
    }
    w.write_flag_if(x.lmcs_delta_sign_crs_flag, chroma_present && x.lmcs_delta_abs_crs > 0);
    Ok(())
}

/// Writing `lmcs_data()` (§7.3.2.19) gives back the bits it was read from.
pub broadcast proof fn law_put_lmcs_data_at(s: Seq<bool>, p: nat, chroma_present: bool)
    ensures
        #[trigger] lmcs_data_at(s, p, chroma_present) matches Ok((x, q)) ==> {
            &&& lmcs_data_ok(x, chroma_present)
            &&& lmcs_data_can(x, chroma_present)
            &&& within(s, q) ==> within(s, p) && put_lmcs_data(upto(s, p), x, chroma_present) == upto(s, q)
        },
{
    broadcast use {crate::bits::group_write_read, law_put_codewords_at};

    reveal(lmcs_data_at);
    reveal(put_lmcs_data);
    reveal(lmcs_data_ok);
    reveal(lmcs_data_can);
}

/// Reading gives back `lmcs_data()` (§7.3.2.19) as it was written.
pub broadcast proof fn law_pre_put_lmcs_data(
    a: Seq<bool>,
    x: VvcLmcsDataModel,
    chroma_present: bool,
    s: Seq<bool>,
)
    requires
        #[trigger] pre(put_lmcs_data(a, x, chroma_present), s),
        lmcs_data_ok(x, chroma_present),
    ensures
        pre(a, s),
        lmcs_data_can(x, chroma_present),
        lmcs_data_at(s, a.len(), chroma_present) == Ok::<(VvcLmcsDataModel, nat), Fault>(
            (x, put_lmcs_data(a, x, chroma_present).len()),
        ),
{
    broadcast use {crate::bits::group_read_written, law_pre_put_codewords};

    reveal(lmcs_data_at);
    reveal(put_lmcs_data);
    reveal(lmcs_data_ok);
    reveal(lmcs_data_can);
}

/// The layout of `lmcs_data()` (§7.3.2.19): reading at `p` gives `x` and ends
/// at `q` if and only if these elements stand there in this order, and the
/// values are allowed.
pub proof fn law_layout_lmcs_data(s: Seq<bool>, p: nat, chroma_present: bool, x: VvcLmcsDataModel, q: nat)
    ensures
        lmcs_data_at(s, p, chroma_present) == Ok::<(VvcLmcsDataModel, nat), Fault>((x, q)) <==> ({
            &&& cursor(s, p)
                .ue(x.lmcs_min_bin_idx)
                .ue(x.lmcs_delta_max_bin_idx)
                .ue(x.lmcs_delta_cw_prec_minus1)
                .part(
                    |p: nat| codewords_at(
                        s,
                        p,
                        x.lmcs_min_bin_idx,
                        (15 - x.lmcs_delta_max_bin_idx) as u32,
                        (x.lmcs_delta_cw_prec_minus1 + 1) as u32,
                    ),
                    x.cw,
                )
                .u8_if(chroma_present, 3, x.lmcs_delta_abs_crs, 0)
                .flag_if(chroma_present && x.lmcs_delta_abs_crs > 0, x.lmcs_delta_sign_crs_flag, false)
                .ends(q)
            &&& x.lmcs_min_bin_idx <= 15
                && x.lmcs_delta_max_bin_idx <= 15
                && x.lmcs_min_bin_idx <= 15 - x.lmcs_delta_max_bin_idx
            &&& x.lmcs_delta_cw_prec_minus1 <= 14
        }),
{
    reveal(lmcs_data_at);
    reveal(adv_if);
    reveal(flag_if);
    reveal(u8_if);
}

/// Reading `lmcs_data()` (§7.3.2.19) fails only with an error of this class.
pub broadcast proof fn law_faults_lmcs_data(s: Seq<bool>, p: nat, chroma_present: bool)
    ensures
        #[trigger] lmcs_data_at(s, p, chroma_present) matches Err(f) ==> f == Fault::Invalid,
{
    broadcast use {crate::bits::law_faults_ue, law_faults_codewords};

    reveal(lmcs_data_at);
}

/// What the writer accepts reads back: `lmcs_data()` (§7.3.2.19), where each
/// field fits its width and what is not coded has the value that is taken for
/// it.
pub proof fn law_reads_lmcs_data(a: Seq<bool>, x: VvcLmcsDataModel, chroma_present: bool, s: Seq<bool>)
    requires
        lmcs_data_can(x, chroma_present),
        codewords_ok(
            x.cw,
            x.lmcs_min_bin_idx,
            (15 - x.lmcs_delta_max_bin_idx) as u32,
            (x.lmcs_delta_cw_prec_minus1 + 1) as u32,
        ),
        !chroma_present ==> x.lmcs_delta_abs_crs == 0,
        !(chroma_present && x.lmcs_delta_abs_crs > 0) ==> x.lmcs_delta_sign_crs_flag == false,
        pre(put_lmcs_data(a, x, chroma_present), s),
    ensures
        lmcs_data_at(s, a.len(), chroma_present) == Ok::<(VvcLmcsDataModel, nat), Fault>(
            (x, put_lmcs_data(a, x, chroma_present).len()),
        ),
{
    assert(lmcs_data_ok(x, chroma_present)) by {
        broadcast use crate::bits::law_fits_small;

        reveal(lmcs_data_ok);
        reveal(lmcs_data_can);
    }
    law_pre_put_lmcs_data(a, x, chroma_present, s);
}

/// Each field of the model of a [`VvcLmcsData`] is the field of that name.
pub proof fn law_view_lmcs_data(x: VvcLmcsData)
    ensures
        x@.lmcs_min_bin_idx == x.lmcs_min_bin_idx,
        x@.lmcs_delta_max_bin_idx == x.lmcs_delta_max_bin_idx,
        x@.lmcs_delta_cw_prec_minus1 == x.lmcs_delta_cw_prec_minus1,
        x@.cw == (x.lmcs_delta_abs_cw@, x.lmcs_delta_sign_cw_flag@),
        x@.lmcs_delta_abs_crs == x.lmcs_delta_abs_crs,
        x@.lmcs_delta_sign_crs_flag == x.lmcs_delta_sign_crs_flag,
{
}

// ─────────────────────────── Scaling lists (§7.3.2.20) ──────────────────────

/// `scaling_list_data()` (§7.3.2.20). For each of the 28 matrix ids
/// the resolved `ScalingList[id][i]` delta-accumulator values are
/// stored (only the first `matrixSize²` entries of each row are
/// meaningful; the byte-exact writer re-derives the coded
/// `scaling_list_delta_coef` differences from them). Ids that are not
/// coded (chroma ids without `aps_chroma_present_flag`) keep
/// `scaling_list_copy_mode_flag == true` per the §7.4.3.20 inference.
#[derive(Debug, Clone, PartialEq, Eq)]
pub struct VvcScalingListData {
    pub copy_mode_flag: [bool; 28],
    pub pred_mode_flag: [bool; 28],
    /// Bounded by `maxIdDelta` (101): `id`, `id − 2` or `id − 8`
    /// depending on the size class.
    pub pred_id_delta: [u32; 28],
    /// `scaling_list_dc_coef[id − 14]` for ids 14..=27, −128..=127.
    pub dc_coef: [i32; 14],
    /// `ScalingList[id][i]` accumulator values (105).
    pub scaling_list: [[i32; 64]; 28],
}

/// The mathematical model of a [`VvcScalingListData`].
pub struct VvcScalingListDataModel {
    pub copy_mode_flag: Seq<bool>,
    pub pred_mode_flag: Seq<bool>,
    pub pred_id_delta: Seq<u32>,
    pub dc_coef: Seq<i32>,
    pub scaling_list: Seq<Seq<i32>>,
}

impl View for VvcScalingListData {
    type V = VvcScalingListDataModel;

    open spec fn view(&self) -> VvcScalingListDataModel {
        VvcScalingListDataModel {
            copy_mode_flag: self.copy_mode_flag@,
            pred_mode_flag: self.pred_mode_flag@,
            pred_id_delta: self.pred_id_delta@,
            dc_coef: self.dc_coef@,
            scaling_list: seq_view(self.scaling_list@),
        }
    }
}

impl Default for VvcScalingListData {
    fn default() -> (d: Self)
        ensures
            forall|i: int| 0 <= i < 28 ==> !#[trigger] d.copy_mode_flag@[i],
            forall|i: int| 0 <= i < 28 ==> !#[trigger] d.pred_mode_flag@[i],
            forall|i: int| 0 <= i < 28 ==> #[trigger] d.pred_id_delta@[i] == 0,
            forall|i: int| 0 <= i < 14 ==> #[trigger] d.dc_coef@[i] == 0,
            forall|i: int, j: int|
                0 <= i < 28 && 0 <= j < 64 ==> #[trigger] d.scaling_list@[i]@[j] == 0,
    {
        VvcScalingListData {
            copy_mode_flag: [false; 28],
            pred_mode_flag: [false; 28],
            pred_id_delta: [0; 28],
            dc_coef: [0; 14],
            scaling_list: [[0; 64]; 28],
        }
    }
}

/// The syntax elements of one scaling list.
pub struct ScalingEntry {
    /// scaling_list_copy_mode_flag.
    pub copy: bool,
    /// scaling_list_pred_mode_flag.
    pub pred: bool,
    /// scaling_list_pred_id_delta.
    pub delta: u32,
    /// scaling_list_dc_coef.
    pub dc: i32,
    /// The accumulated coefficients, none in copy mode.
    pub coefs: Vec<i32>,
}

/// The number of coefficients of matrix `id`.
pub open spec fn matrix_len(id: u64) -> nat {
    if id < 2 {
        4
    } else if id < 8 {
        16
    } else {
        64
    }
}

/// `matrixSize * matrixSize` for a scaling-list id (§7.3.2.20).
fn matrix_entries(id: u64) -> (n: usize)
    ensures
        n == matrix_len(id),
        n <= 64,
{
    if id < 2 {
        4
    } else if id < 8 {
        16
    } else {
        64
    }
}

/// The accumulator before the next coefficient: the last coefficient, or at the
/// start the DC coefficient.
pub open spec fn accumulated(done: Seq<i32>, dc: i32) -> i32 {
    if done.len() == 0 {
        dc
    } else {
        done.last()
    }
}

/// Coefficient `i` of matrix `id` is not coded: the bottom-right quadrant of
/// the 64×64 ids.
pub open spec fn coef_skipped(id: u64, i: nat) -> bool {
    id > 25 && scan_at(i).0 >= 4 && scan_at(i).1 >= 4
}

/// Reads one coefficient: a coded one adds its difference to the accumulator,
/// one that is not coded repeats it.
pub open spec fn coef_item(s: Seq<bool>, id: u64, dc: i32) -> spec_fn(Seq<i32>, nat) -> Read<i32> {
    |done: Seq<i32>, q: nat|
        if coef_skipped(id, done.len()) {
            Ok((accumulated(done, dc), q))
        } else {
            match se_at(s, q) {
                Err(f) => Err(f),
                Ok((delta, q)) => if !(-128 <= delta <= 127) {
                    Err(Fault::Invalid)
                } else {
                    Ok(((accumulated(done, dc) + delta) as i32, q))
                },
            }
        }
}

/// Writes one coefficient.
pub open spec fn put_coef_item(id: u64, dc: i32) -> spec_fn(Seq<bool>, Seq<i32>, i32) -> Seq<bool> {
    |a: Seq<bool>, done: Seq<i32>, x: i32|
        if coef_skipped(id, done.len()) {
            a
        } else {
            put_se(a, x - accumulated(done, dc))
        }
}

/// `x` can follow the coefficients `done`.
pub open spec fn coef_step(id: u64, dc: i32, done: Seq<i32>, x: i32) -> bool {
    if coef_skipped(id, done.len()) {
        x == accumulated(done, dc)
    } else {
        -128 <= x - accumulated(done, dc) <= 127
    }
}

/// A coefficient that reading can give, with its bound.
pub open spec fn coef_item_ok(id: u64, dc: i32) -> spec_fn(Seq<i32>, i32) -> bool {
    |done: Seq<i32>, x: i32|
        coef_step(id, dc, done, x) && -128 * (done.len() + 2) <= x <= 128 * (done.len() + 2)
}

/// A coefficient that the writer accepts.
pub open spec fn coef_item_can(id: u64, dc: i32) -> spec_fn(Seq<i32>, i32) -> bool {
    |done: Seq<i32>, x: i32| coef_step(id, dc, done, x)
}

/// The number of coefficients that follow.
pub open spec fn coef_count(id: u64, explicit: bool) -> nat {
    if explicit {
        matrix_len(id)
    } else {
        0
    }
}

/// The coefficients of matrix `id` at position `p`, none unless `explicit`.
#[verifier::opaque]
pub open spec fn coefs_at(s: Seq<bool>, p: nat, id: u64, explicit: bool, dc: i32) -> Read<Seq<i32>> {
    rep_at(coef_item(s, id, dc), p, coef_count(id, explicit))
}

/// Writes the coefficients.
#[verifier::opaque]
pub open spec fn put_coefs(a: Seq<bool>, x: Seq<i32>, id: u64, explicit: bool, dc: i32) -> Seq<bool> {
    put_rep(put_coef_item(id, dc), a, x)
}

/// Coefficients that the writer accepts.
#[verifier::opaque]
pub open spec fn coefs_can(x: Seq<i32>, id: u64, explicit: bool, dc: i32) -> bool {
    x.len() == coef_count(id, explicit) && all_ok(coef_item_can(id, dc), x)
}

/// Coefficients that reading can give.
pub open spec fn coefs_ok(x: Seq<i32>, id: u64, explicit: bool, dc: i32) -> bool {
    coefs_can(x, id, explicit, dc)
}

/// Writing what was read gives back the bits that were read.
pub broadcast proof fn law_put_coefs_at(s: Seq<bool>, p: nat, id: u64, explicit: bool, dc: i32)
    requires
        -128 <= dc <= 127,
    ensures
        #[trigger] coefs_at(s, p, id, explicit, dc) matches Ok((x, q)) ==> {
            &&& coefs_ok(x, id, explicit, dc)
            &&& coefs_can(x, id, explicit, dc)
            &&& within(s, q) ==> within(s, p) && put_coefs(upto(s, p), x, id, explicit, dc) == upto(s, q)
        },
{
    reveal(coefs_at);
    reveal(put_coefs);
    reveal(coefs_can);
    let f = coef_item(s, id, dc);
    let g = put_coef_item(id, dc);
    let ok = coef_item_ok(id, dc);
    let n = coef_count(id, explicit);
    assert forall|d: Seq<i32>, q: nat|
        #![trigger f(d, q)]
        d.len() < n && all_ok(ok, d) implies (f(d, q) matches Ok((x, r)) ==> ok(d, x) && (within(s, r) ==> within(s, q) && g(
        upto(s, q),
        d,
        x,
    ) == upto(s, r))) by {
        broadcast use crate::bits::group_write_read;

        if d.len() > 0 {
            assert(ok(d.take(d.len() - 1), d[d.len() - 1]));
        }
    }
    law_put_rep_at(s, f, g, ok, p, n);
    if let Ok((x, q)) = coefs_at(s, p, id, explicit, dc) {
        assert forall|i: int| 0 <= i < x.len() implies coef_item_can(id, dc)(#[trigger] x.take(i), x[i]) by {
            assert(ok(x.take(i), x[i]));
        }
    }
}

/// What was written reads back as the coefficients that were written.
pub broadcast proof fn law_pre_put_coefs(
    a: Seq<bool>,
    x: Seq<i32>,
    id: u64,
    explicit: bool,
    dc: i32,
    s: Seq<bool>,
)
    requires
        #[trigger] pre(put_coefs(a, x, id, explicit, dc), s),
        coefs_ok(x, id, explicit, dc),
    ensures
        pre(a, s),
        coefs_can(x, id, explicit, dc),
        coefs_at(s, a.len(), id, explicit, dc) == Ok::<(Seq<i32>, nat), Fault>(
            (x, put_coefs(a, x, id, explicit, dc).len()),
        ),
{
    broadcast use crate::bits::group_read_written;

    reveal(coefs_at);
    reveal(put_coefs);
    reveal(coefs_can);
    law_rep_at_put(s, coef_item(s, id, dc), put_coef_item(id, dc), coef_item_can(id, dc), a, x);
}

fn parse_coefs(r: &mut BitReader<'_>, id: u64, explicit: bool, dc: i32) -> (res: Result<
    Vec<i32>,
    BitstreamError,
>)
    requires
        -128 <= dc <= 127,
    ensures
        read_vec_is(coefs_at(old(r).bits(), old(r).pos(), id, explicit, dc), res, *old(r), *final(r)),
{
    let ghost s = r.bits();
    let ghost p = r.pos();
    let ghost reads = coef_item(s, id, dc);
    proof {
        reveal(coefs_at);
    }
    let n: usize = if explicit {
        matrix_entries(id)
    } else {
        0
    };
    let scan = diag_scan_8x8();
    let mut next_coef: i32 = dc;
    let mut coefs: Vec<i32> = Vec::new();
    let mut i: usize = 0;
    while i < n
        invariant
            i <= n <= 64,
            n == coef_count(id, explicit),
            coefs@.len() == i,
            next_coef == accumulated(coefs@, dc),
            -128 * (i + 1) <= next_coef <= 128 * (i + 1),
            forall|j: int| 0 <= j < 64 ==> #[trigger] scan@[j] == scan_at(j as nat),
            reads == coef_item(s, id, dc),
            s == r.bits(),
            s == old(r).bits(),
            p == old(r).pos(),
            r.bytes() == old(r).bytes(),
            rep_at(reads, p, i as nat) == Ok::<(Seq<i32>, nat), Fault>((coefs@, r.pos())),
        decreases n - i,
    {
        let (x, y) = scan[i];
        proof {
            assert(scan@[i as int] == scan_at(i as nat));
        }
        if !(id > 25 && x >= 4 && y >= 4) {
            match r.se() {
                Ok(delta) => {
                    if !(-128 <= delta && delta <= 127) {
                        proof {
                            reveal(coefs_at);
                            lemma_rep_err(reads, p, (i + 1) as nat, n as nat);
                        }
                        return Err(
                            Message::new("scaling_list_delta_coef[")
                                .num(id as i128)
                                .with("][")
                                .num(i as i128)
                                .with("]=")
                                .num(delta as i128)
                                .with(" out of -128..=127 (§7.4.3.20)")
                                .invalid(),
                        );
                    }
                    next_coef = next_coef + delta;
                },
                Err(e) => {
                    proof {
                        reveal(coefs_at);
                        lemma_rep_err(reads, p, (i + 1) as nat, n as nat);
                    }
                    return Err(e);
                },
            }
        }
        coefs.push(next_coef);
        i = i + 1;
    }
    Ok(coefs)
}

fn write_coefs(w: &mut BitWriter, x: &Vec<i32>, id: u64, explicit: bool, dc: i32) -> (res: Result<
    (),
    BitstreamError,
>)
    ensures
        write_is(
            coefs_can(x@, id, explicit, dc),
            put_coefs(old(w)@, x@, id, explicit, dc),
            res,
            final(w)@,
        ),
{
    let ghost puts = put_coef_item(id, dc);
    let ghost can = coef_item_can(id, dc);
    let n: usize = if explicit {
        matrix_entries(id)
    } else {
        0
    };
    proof {
        reveal(put_coefs);
        reveal(coefs_can);
        assert(x@.take(0) =~= Seq::empty());
    }
    if x.len() != n {
        return Err(BitstreamError::invalid("unexpected number of scaling list coefficients"));
    }
    let scan = diag_scan_8x8();
    let mut prev: i32 = dc;
    let mut i: usize = 0;
    while i < n
        invariant
            i <= n <= 64,
            x@.len() == n,
            prev == accumulated(x@.take(i as int), dc),
            forall|j: int| 0 <= j < 64 ==> #[trigger] scan@[j] == scan_at(j as nat),
            puts == put_coef_item(id, dc),
            can == coef_item_can(id, dc),
            w@ == put_rep(puts, old(w)@, x@.take(i as int)),
            forall|j: int| 0 <= j < i ==> can(#[trigger] x@.take(j), x@[j]),
        decreases n - i,
    {
        let (sx, sy) = scan[i];
        proof {
            assert(scan@[i as int] == scan_at(i as nat));
            assert(x@.take(i + 1).drop_last() =~= x@.take(i as int));
        }
        if !(id > 25 && sx >= 4 && sy >= 4) {
            let delta: i64 = x[i] as i64 - prev as i64;
            if !(-128 <= delta && delta <= 127) {
                proof {
                    reveal(coefs_can);
                    assert(!can(x@.take(i as int), x@[i as int]));
                }
                return Err(
                    Message::new("ScalingList[")
                        .num(id as i128)
                        .with("][")
                        .num(i as i128)
                        .with("] step out of the -128..=127 scaling_list_delta_coef range (§7.4.3.20)")
                        .invalid(),
                );
            }
            w.write_se(delta as i32)?;
            prev = x[i];
        } else if x[i] != prev {
            proof {
                reveal(coefs_can);
                assert(!can(x@.take(i as int), x@[i as int]));
            }
            return Err(
                Message::new("ScalingList[")
                    .num(id as i128)
                    .with("][")
                    .num(i as i128)
                    .with("] must repeat the accumulator in the skipped 64×64 quadrant (§7.3.2.20)")
                    .invalid(),
            );
        }
        i = i + 1;
    }
    proof {
        assert(x@.take(i as int) =~= x@);
    }
    Ok(())
}

/// The mathematical model of a [`ScalingEntry`].
pub struct ScalingEntryModel {
    pub copy: bool,
    pub pred: bool,
    pub delta: u32,
    pub dc: i32,
    pub coefs: Seq<i32>,
}

impl View for ScalingEntry {
    type V = ScalingEntryModel;

    open spec fn view(&self) -> ScalingEntryModel {
        ScalingEntryModel {
            copy: self.copy,
            pred: self.pred,
            delta: self.delta,
            dc: self.dc,
            coefs: self.coefs@,
        }
    }
}

/// Scaling list `id` at position `p`; without chroma only some are coded.
#[verifier::opaque]
pub open spec fn scaling_entry_at(
    s: Seq<bool>,
    p: nat,
    id: u64,
    chroma_present: bool,
) -> Read<ScalingEntryModel> {
    let coded = chroma_present || id % 3 == 2 || id == 27;
    let copy = flag_if(s, p, coded, true);
    let p = adv_if(p, 1, coded);
    let pred = flag_if(s, p, coded && !copy, false);
    let p = adv_if(p, 1, coded && !copy);
    let refers = coded && (copy || pred) && id != 0 && id != 2 && id != 8;
    let max_delta = if id < 2 { id } else if id < 8 { (id - 2) as u64 } else { (id - 8) as u64 };
    match ue_if(s, p, refers, 0) { Err(f) => Err(f), Ok((delta, p)) => {
    if !(!refers || delta as u64 <= max_delta) { Err(Fault::Invalid) } else {
    let explicit = coded && !copy;
    match se_if(s, p, explicit && id > 13, 0) { Err(f) => Err(f), Ok((dc, p)) => {
    if !(!(explicit && id > 13) || (-128 <= dc && dc <= 127)) { Err(Fault::Invalid) } else {
    match coefs_at(s, p, id, explicit, (if explicit && id > 13 { dc } else { 0i32 }))
    { Err(f) => Err(f), Ok((coefs, p)) => {
    Ok((ScalingEntryModel { copy, pred, delta, dc, coefs }, p))
    }}}}}}}}
}

/// The bits `a` followed by scaling list `id`.
#[verifier::opaque]
pub open spec fn put_scaling_entry(
    a: Seq<bool>,
    x: ScalingEntryModel,
    id: u64,
    chroma_present: bool,
) -> Seq<bool> {
    let coded = chroma_present || id % 3 == 2 || id == 27;
    let a = put_flag_if(a, x.copy, coded);
    let a = put_flag_if(a, x.pred, coded && !x.copy);
    let refers = coded && (x.copy || x.pred) && id != 0 && id != 2 && id != 8;
    let a = put_ue_if(a, x.delta as nat, refers);
    let explicit = coded && !x.copy;
    let a = put_se_if(a, x.dc as int, explicit && id > 13);
    let a = put_coefs(a, x.coefs, id, explicit, (if explicit && id > 13 { x.dc } else { 0i32 }));
    a
}

/// The values of scaling list `id` that reading can give.
#[verifier::opaque]
pub open spec fn scaling_entry_ok(x: ScalingEntryModel, id: u64, chroma_present: bool) -> bool {
    let coded = chroma_present || id % 3 == 2 || id == 27;
    &&& coded || x.copy
    &&& coded && !x.copy || !x.pred
    &&& !coded || !x.copy || !x.pred
    &&& {
        let refers = coded && (x.copy || x.pred) && id != 0 && id != 2 && id != 8;
        let max_delta = if id < 2 { id } else if id < 8 { (id - 2) as u64 } else { (id - 8) as u64 };
        &&& !coded || (if refers { x.delta as u64 <= max_delta } else { x.delta == 0 })
        &&& if refers { ue_fits(x.delta as nat) } else { x.delta == 0 }
        &&& !refers || x.delta as u64 <= max_delta
        &&& {
            let explicit = coded && !x.copy;
            &&& !explicit || id <= 13 || (-128 <= x.dc && x.dc <= 127)
            &&& if explicit && id > 13 { se_fits(x.dc as int) } else { x.dc == 0 }
            &&& !(explicit && id > 13) || (-128 <= x.dc && x.dc <= 127)
            &&& coefs_ok(x.coefs, id, explicit, (if explicit && id > 13 { x.dc } else { 0i32 }))
        }
    }
}

/// The values of scaling list `id` that the writer accepts.
#[verifier::opaque]
pub open spec fn scaling_entry_can(x: ScalingEntryModel, id: u64, chroma_present: bool) -> bool {
    let coded = chroma_present || id % 3 == 2 || id == 27;
    &&& !coded || !x.copy || !x.pred
    &&& {
        let refers = coded && (x.copy || x.pred) && id != 0 && id != 2 && id != 8;
        let max_delta = if id < 2 { id } else if id < 8 { (id - 2) as u64 } else { (id - 8) as u64 };
        &&& !coded || (if refers { x.delta as u64 <= max_delta } else { x.delta == 0 })
        &&& refers ==> ue_fits(x.delta as nat)
        &&& {
            let explicit = coded && !x.copy;
            &&& !explicit || id <= 13 || (-128 <= x.dc && x.dc <= 127)
            &&& explicit && id > 13 ==> se_fits(x.dc as int)
            &&& coefs_can(x.coefs, id, explicit, (if explicit && id > 13 { x.dc } else { 0i32 }))
        }
    }
}

/// Parses scaling list `id`.
fn parse_scaling_entry(
    r: &mut BitReader<'_>,
    id: u64,
    chroma_present: bool,
) -> (res: Result<ScalingEntry, BitstreamError>)
    ensures
        read_view_is(
            scaling_entry_at(old(r).bits(), old(r).pos(), id, chroma_present),
            res,
            *old(r),
            *final(r),
        ),
{
    proof {
        reveal(scaling_entry_at);
    }
    let coded: bool = chroma_present || id % 3 == 2 || id == 27;
    let copy: bool = r.flag_if(coded, true);
    let pred: bool = r.flag_if(coded && !copy, false);
    let refers: bool = coded && (copy || pred) && id != 0 && id != 2 && id != 8;
    let max_delta: u64 = if id < 2 { id } else if id < 8 { (id - 2) as u64 } else { (id - 8) as u64 };
    let delta: u32 = r.ue_if(refers, 0)?;
    if !(!refers || delta as u64 <= max_delta) {
        return Err(
            Message::new("scaling_list_pred_id_delta[")
                .num(id as i128)
                .with("]=")
                .num(delta as i128)
                .with(" exceeds maxIdDelta=")
                .num(max_delta as i128)
                .with(" (§7.4.3.20)")
                .invalid(),
        );
    }
    let explicit: bool = coded && !copy;
    let dc: i32 = r.se_if(explicit && id > 13, 0)?;
    if !(!(explicit && id > 13) || (-128 <= dc && dc <= 127)) {
        return Err(
            Message::new("scaling_list_dc_coef[")
                .num((id - 14) as i128)
                .with("]=")
                .num(dc as i128)
                .with(" out of -128..=127 (§7.4.3.20)")
                .invalid(),
        );
    }
    let coefs = parse_coefs(r, id, explicit, (if explicit && id > 13 { dc } else { 0i32 }))?;
    Ok(ScalingEntry { copy, pred, delta, dc, coefs })
}

/// Emits scaling list `id`, the inverse of [`parse_scaling_entry`].
fn write_scaling_entry(
    w: &mut BitWriter,
    x: &ScalingEntry,
    id: u64,
    chroma_present: bool,
) -> (res: Result<(), BitstreamError>)
    ensures
        write_is(
            scaling_entry_can(x@, id, chroma_present),
            put_scaling_entry(old(w)@, x@, id, chroma_present),
            res,
            final(w)@,
        ),
{
    proof {
        reveal(put_scaling_entry);
        reveal(scaling_entry_can);
    }
    let coded: bool = chroma_present || id % 3 == 2 || id == 27;
    w.write_flag_if(x.copy, coded);
    w.write_flag_if(x.pred, coded && !x.copy);
    if !(!coded || !x.copy || !x.pred) {
        return Err(
            BitstreamError::invalid(
                "scaling_list_pred_mode_flag is only coded when copy mode is off (§7.3.2.20)",
            ),
        );
    }
    let refers: bool = coded && (x.copy || x.pred) && id != 0 && id != 2 && id != 8;
    let max_delta: u64 = if id < 2 { id } else if id < 8 { (id - 2) as u64 } else { (id - 8) as u64 };
    if !(!coded || (if refers { x.delta as u64 <= max_delta } else { x.delta == 0 })) {
        return Err(
            if refers {
                Message::new("scaling_list_pred_id_delta[")
                    .num(id as i128)
                    .with("] exceeds maxIdDelta (§7.4.3.20)")
                    .invalid()
            } else {
                Message::new("scaling_list_pred_id_delta[")
                    .num(id as i128)
                    .with("] is inferred 0 and cannot be coded here (§7.4.3.20)")
                    .invalid()
            },
        );
    }
    w.write_ue_if(x.delta, refers)?;
    let explicit: bool = coded && !x.copy;
    if !(!explicit || id <= 13 || (-128 <= x.dc && x.dc <= 127)) {
        return Err(BitstreamError::invalid("scaling_list_dc_coef out of -128..=127 (§7.4.3.20)"));
    }
    w.write_se_if(x.dc, explicit && id > 13)?;
    write_coefs(w, &x.coefs, id, explicit, (if explicit && id > 13 { x.dc } else { 0i32 }))?;
    Ok(())
}

/// Writing scaling list `id` gives back the bits it was read from.
pub broadcast proof fn law_put_scaling_entry_at(s: Seq<bool>, p: nat, id: u64, chroma_present: bool)
    ensures
        #[trigger] scaling_entry_at(s, p, id, chroma_present) matches Ok((x, q)) ==> {
            &&& scaling_entry_ok(x, id, chroma_present)
            &&& scaling_entry_can(x, id, chroma_present)
            &&& within(s, q)
                ==> within(s, p)
                && put_scaling_entry(upto(s, p), x, id, chroma_present) == upto(s, q)
        },
{
    broadcast use {crate::bits::group_write_read, law_put_coefs_at};

    reveal(scaling_entry_at);
    reveal(put_scaling_entry);
    reveal(scaling_entry_ok);
    reveal(scaling_entry_can);
}

/// Reading gives back scaling list `id` as it was written.
pub broadcast proof fn law_pre_put_scaling_entry(
    a: Seq<bool>,
    x: ScalingEntryModel,
    id: u64,
    chroma_present: bool,
    s: Seq<bool>,
)
    requires
        #[trigger] pre(put_scaling_entry(a, x, id, chroma_present), s),
        scaling_entry_ok(x, id, chroma_present),
    ensures
        pre(a, s),
        scaling_entry_can(x, id, chroma_present),
        scaling_entry_at(s, a.len(), id, chroma_present) == Ok::<(ScalingEntryModel, nat), Fault>(
            (x, put_scaling_entry(a, x, id, chroma_present).len()),
        ),
{
    broadcast use {crate::bits::group_read_written, law_pre_put_coefs};

    reveal(scaling_entry_at);
    reveal(put_scaling_entry);
    reveal(scaling_entry_ok);
    reveal(scaling_entry_can);
}

/// The layout of scaling list `id`: reading at `p` gives `x` and ends at `q` if
/// and only if these elements stand there in this order, and the values are
/// allowed.
pub proof fn law_layout_scaling_entry(
    s: Seq<bool>,
    p: nat,
    id: u64,
    chroma_present: bool,
    x: ScalingEntryModel,
    q: nat,
)
    ensures
        scaling_entry_at(s, p, id, chroma_present) == Ok::<(ScalingEntryModel, nat), Fault>((x, q)) <==> ({
            let coded = chroma_present || id % 3 == 2 || id == 27;
            let refers = coded && (x.copy || x.pred) && id != 0 && id != 2 && id != 8;
            let max_delta = if id < 2 { id } else if id < 8 { (id - 2) as u64 } else { (id - 8) as u64 };
            let explicit = coded && !x.copy;
            &&& cursor(s, p)
                .flag_if(coded, x.copy, true)
                .flag_if(coded && !x.copy, x.pred, false)
                .ue_if(refers, x.delta, 0)
                .se_if(explicit && id > 13, x.dc, 0)
                .part(
                    |p: nat| coefs_at(s, p, id, explicit, (if explicit && id > 13 { x.dc } else { 0i32 })),
                    x.coefs,
                )
                .ends(q)
            &&& (!refers || x.delta as u64 <= max_delta)
            &&& (!(explicit && id > 13) || (-128 <= x.dc && x.dc <= 127))
        }),
{
    reveal(scaling_entry_at);
    reveal(adv_if);
    reveal(flag_if);
    reveal(se_if);
    reveal(ue_if);
}

/// Reading scaling list `id` fails only with an error of this class.
pub broadcast proof fn law_faults_scaling_entry(s: Seq<bool>, p: nat, id: u64, chroma_present: bool)
    ensures
        #[trigger] scaling_entry_at(s, p, id, chroma_present) matches Err(f) ==> f == Fault::Invalid,
{
    broadcast use {crate::bits::law_faults_ue, crate::bits::law_faults_se, law_faults_coefs};

    reveal(scaling_entry_at);
    reveal(se_if);
    reveal(ue_if);
}

/// What the writer accepts reads back: scaling list `id`, where each field fits
/// its width and what is not coded has the value that is taken for it.
pub proof fn law_reads_scaling_entry(
    a: Seq<bool>,
    x: ScalingEntryModel,
    id: u64,
    chroma_present: bool,
    s: Seq<bool>,
)
    requires
        scaling_entry_can(x, id, chroma_present),
        ({
            let coded = chroma_present || id % 3 == 2 || id == 27;
            &&& (!coded ==> x.copy == true)
            &&& (!(coded && !x.copy) ==> x.pred == false)
            &&& {
                let refers = coded && (x.copy || x.pred) && id != 0 && id != 2 && id != 8;
                &&& (!refers ==> x.delta == 0)
                &&& {
                    let explicit = coded && !x.copy;
                    &&& (!(explicit && id > 13) ==> x.dc == 0)
                    &&& coefs_ok(x.coefs, id, explicit, (if explicit && id > 13 { x.dc } else { 0i32 }))
                }
            }
        }),
        pre(put_scaling_entry(a, x, id, chroma_present), s),
    ensures
        scaling_entry_at(s, a.len(), id, chroma_present) == Ok::<(ScalingEntryModel, nat), Fault>(
            (x, put_scaling_entry(a, x, id, chroma_present).len()),
        ),
{
    assert(scaling_entry_ok(x, id, chroma_present)) by {
        broadcast use crate::bits::law_fits_small;

        reveal(scaling_entry_ok);
        reveal(scaling_entry_can);
    }
    law_pre_put_scaling_entry(a, x, id, chroma_present, s);
}

/// Each field of the model of a [`ScalingEntry`] is the field of that name.
pub proof fn law_view_scaling_entry(x: ScalingEntry)
    ensures
        x@.copy == x.copy,
        x@.pred == x.pred,
        x@.delta == x.delta,
        x@.dc == x.dc,
        x@.coefs == x.coefs@,
{
}

/// Reads scaling list `id`, behind the items before it.
pub open spec fn scaling_entries_item(
    s: Seq<bool>,
    chroma_present: bool,
) -> spec_fn(Seq<ScalingEntryModel>, nat) -> Read<ScalingEntryModel> {
    |done: Seq<ScalingEntryModel>, q: nat| scaling_entry_at(s, q, done.len() as u64, chroma_present)
}

/// Writes scaling list `id`, behind the items before it.
pub open spec fn put_scaling_entries_item(
    chroma_present: bool,
) -> spec_fn(Seq<bool>, Seq<ScalingEntryModel>, ScalingEntryModel) -> Seq<bool> {
    |a: Seq<bool>, done: Seq<ScalingEntryModel>, x: ScalingEntryModel| put_scaling_entry(
        a,
        x,
        done.len() as u64,
        chroma_present,
    )
}

/// Whether scaling list `id` may follow the items before it.
pub open spec fn scaling_entries_item_ok(
    chroma_present: bool,
) -> spec_fn(Seq<ScalingEntryModel>, ScalingEntryModel) -> bool {
    |done: Seq<ScalingEntryModel>, x: ScalingEntryModel| scaling_entry_ok(
        x,
        done.len() as u64,
        chroma_present,
    )
        && scaling_entry_can(x, done.len() as u64, chroma_present)
}

/// `n` items at position `p`, each scaling list `id`.
#[verifier::opaque]
pub open spec fn scaling_entries_at(
    s: Seq<bool>,
    p: nat,
    chroma_present: bool,
    n: u64,
) -> Read<Seq<ScalingEntryModel>> {
    rep_at(scaling_entries_item(s, chroma_present), p, n as nat)
}

/// The bits `a` followed by the items.
#[verifier::opaque]
pub open spec fn put_scaling_entries(
    a: Seq<bool>,
    xs: Seq<ScalingEntryModel>,
    chroma_present: bool,
    n: u64,
) -> Seq<bool> {
    put_rep(put_scaling_entries_item(chroma_present), a, xs)
}

/// `n` items that reading can give.
#[verifier::opaque]
pub open spec fn scaling_entries_ok(xs: Seq<ScalingEntryModel>, chroma_present: bool, n: u64) -> bool {
    xs.len() == n
        && forall|i: int| 0 <= i < xs.len()
        ==> scaling_entry_ok(#[trigger] xs[i], i as u64, chroma_present)
        && scaling_entry_can(xs[i], i as u64, chroma_present)
}

/// `n` items that the writer accepts.
#[verifier::opaque]
pub open spec fn scaling_entries_can(xs: Seq<ScalingEntryModel>, chroma_present: bool, n: u64) -> bool {
    xs.len() == n
        && forall|i: int| 0 <= i < xs.len()
        ==> scaling_entry_can(#[trigger] xs[i], i as u64, chroma_present)
}

/// Parses `n` items, each scaling list `id`.
fn parse_scaling_entries(
    r: &mut BitReader<'_>,
    chroma_present: bool,
    n: u64,
) -> (res: Result<Vec<ScalingEntry>, BitstreamError>)
    ensures
        read_seq_is(
            scaling_entries_at(old(r).bits(), old(r).pos(), chroma_present, n),
            res,
            *old(r),
            *final(r),
        ),
        res matches Ok(v) ==> v@.len() == n,
{
    let ghost s = r.bits();
    let ghost p = r.pos();
    let ghost reads = scaling_entries_item(s, chroma_present);
    let mut xs: Vec<ScalingEntry> = Vec::new();
    let mut i: u64 = 0;
    proof {
        reveal(scaling_entries_at);
        assert(seq_view(xs@) =~= Seq::empty());
    }
    while i < n
        invariant
            i <= n,
            xs@.len() == i,
            reads == scaling_entries_item(s, chroma_present),
            s == r.bits(),
            s == old(r).bits(),
            p == old(r).pos(),
            r.bytes() == old(r).bytes(),
            rep_at(reads, p, i as nat) == Ok::<(
                Seq<ScalingEntryModel>,
                nat,
            ), Fault>((seq_view(xs@), r.pos())),
        decreases n - i,
    {
        match parse_scaling_entry(r, i, chroma_present) {
            Ok(x) => {
                proof {
                lemma_seq_view_push(xs@, x);
            }
            xs.push(x);
            },
            Err(e) => {
                proof {
                    reveal(scaling_entries_at);
                    lemma_rep_err(reads, p, (i + 1) as nat, n as nat);
                }
                return Err(e);
            },
        }
        i = i + 1;
    }
    Ok(xs)
}

/// Emits `n` items, each scaling list `id`.
fn write_scaling_entries(
    w: &mut BitWriter,
    xs: &Vec<ScalingEntry>,
    chroma_present: bool,
    n: u64,
) -> (res: Result<(), BitstreamError>)
    ensures
        write_is(
            scaling_entries_can(seq_view(xs@), chroma_present, n),
            put_scaling_entries(old(w)@, seq_view(xs@), chroma_present, n),
            res,
            final(w)@,
        ),
        res is Ok ==> xs@.len() == n,
{
    let ghost before = w@;
    let ghost puts = put_scaling_entries_item(chroma_present);
    let ghost ys = seq_view(xs@);
    proof {
        reveal(put_scaling_entries);
        reveal(scaling_entries_can);
        assert(ys.take(0) =~= Seq::empty());
    }
    if xs.len() as u64 != n {
        return Err(BitstreamError::invalid("unexpected number of entries"));
    }
    let mut i: usize = 0;
    while i < xs.len()
        invariant
            i <= xs@.len(),
            xs@.len() == n,
            ys == seq_view(xs@),
            ys.len() == xs@.len(),
            before == old(w)@,
            puts == put_scaling_entries_item(chroma_present),
            w@ == put_rep(puts, before, ys.take(i as int)),
            forall|j: int| 0 <= j < i ==> scaling_entry_can(#[trigger] ys[j], j as u64, chroma_present),
        ensures
            i == xs@.len(),
        decreases xs@.len() - i,
    {
        proof {
            assert(ys.take(i + 1).drop_last() =~= ys.take(i as int));
            assert(ys[i as int] == xs@[i as int]@);
        }
        match write_scaling_entry(w, &xs[i], i as u64, chroma_present) {
            Ok(()) => {},
            Err(e) => {
                proof {
                    reveal(scaling_entries_can);
                }
                return Err(e);
            },
        }
        i = i + 1;
    }
    proof {
        assert(ys.take(i as int) =~= ys);
    }
    Ok(())
}

/// Writing what was read gives back the bits that were read.
pub broadcast proof fn law_put_scaling_entries_at(s: Seq<bool>, p: nat, chroma_present: bool, n: u64)
    ensures
        #[trigger] scaling_entries_at(s, p, chroma_present, n) matches Ok((xs, q)) ==> {
            &&& xs.len() == n
            &&& scaling_entries_ok(xs, chroma_present, n)
            &&& scaling_entries_can(xs, chroma_present, n)
            &&& within(s, q)
                ==> within(s, p)
                && put_scaling_entries(upto(s, p), xs, chroma_present, n) == upto(s, q)
        },
{
    broadcast use law_put_scaling_entry_at;

    reveal(scaling_entries_at);
    reveal(put_scaling_entries);
    reveal(scaling_entries_ok);
    reveal(scaling_entries_can);
    let ok = scaling_entries_item_ok(chroma_present);
    law_put_rep_at(
        s,
        scaling_entries_item(s, chroma_present),
        put_scaling_entries_item(chroma_present),
        ok,
        p,
        n as nat,
    );
    if let Ok((xs, q)) = scaling_entries_at(s, p, chroma_present, n) {
        assert forall|i: int| 0 <= i < xs.len() implies ok(xs.take(i), #[trigger] xs[i]) by {}
    }
}

/// What was written reads back as the items that were written.
pub broadcast proof fn law_pre_put_scaling_entries(
    a: Seq<bool>,
    xs: Seq<ScalingEntryModel>,
    chroma_present: bool,
    n: u64,
    s: Seq<bool>,
)
    requires
        #[trigger] pre(put_scaling_entries(a, xs, chroma_present, n), s),
        scaling_entries_ok(xs, chroma_present, n),
    ensures
        pre(a, s),
        scaling_entries_can(xs, chroma_present, n),
        scaling_entries_at(s, a.len(), chroma_present, n) == Ok::<(Seq<ScalingEntryModel>, nat), Fault>(
            (xs, put_scaling_entries(a, xs, chroma_present, n).len()),
        ),
{
    broadcast use law_pre_put_scaling_entry;

    reveal(scaling_entries_at);
    reveal(put_scaling_entries);
    reveal(scaling_entries_ok);
    reveal(scaling_entries_can);
    law_rep_at_put(
        s,
        scaling_entries_item(s, chroma_present),
        put_scaling_entries_item(chroma_present),
        scaling_entries_item_ok(chroma_present),
        a,
        xs,
    );
}

/// `n` items stand one behind the other: `n - 1` items, and then scaling list
/// `id`.
pub proof fn law_layout_scaling_entries(
    s: Seq<bool>,
    p: nat,
    chroma_present: bool,
    n: u64,
    xs: Seq<ScalingEntryModel>,
    q: nat,
)
    ensures
        scaling_entries_at(s, p, chroma_present, n) == Ok::<(Seq<ScalingEntryModel>, nat), Fault>((xs, q)) <==> if n == 0 {
            xs.len() == 0 && q == p
        } else {
            &&& xs.len() == n
            &&& cursor(s, p)
                .part(|p: nat| scaling_entries_at(s, p, chroma_present, (n - 1) as u64), xs.drop_last())
                .part(|p: nat| scaling_entry_at(s, p, (n - 1) as u64, chroma_present), xs.last())
                .ends(q)
        },
{
    reveal(scaling_entries_at);
    lemma_rep_step(scaling_entries_item(s, chroma_present), p, n as nat);
    if xs.len() == 0 {
        assert(xs =~= Seq::empty());
    } else {
        assert(xs =~= xs.drop_last().push(xs.last()));
    }
    if n > 0 {
        if let Ok((done, r)) = rep_at(scaling_entries_item(s, chroma_present), p, (n - 1) as nat) {
            if let Ok((y, z)) = scaling_entries_item(s, chroma_present)(done, r) {
                assert(done.push(y).drop_last() =~= done);
            }
        }
    }
}

/// What the writer accepts as `n` items reads back, where each of them is one that
/// reading can give.
pub proof fn law_reads_scaling_entries(
    a: Seq<bool>,
    xs: Seq<ScalingEntryModel>,
    chroma_present: bool,
    n: u64,
    s: Seq<bool>,
)
    requires
        scaling_entries_can(xs, chroma_present, n),
        forall|i: int| 0 <= i < xs.len() ==> scaling_entry_ok(#[trigger] xs[i], i as u64, chroma_present),
        pre(put_scaling_entries(a, xs, chroma_present, n), s),
    ensures
        xs.len() == n,
        scaling_entries_at(s, a.len(), chroma_present, n) == Ok::<(Seq<ScalingEntryModel>, nat), Fault>(
            (xs, put_scaling_entries(a, xs, chroma_present, n).len()),
        ),
{
    reveal(scaling_entries_can);
    assert(scaling_entries_ok(xs, chroma_present, n)) by {
        reveal(scaling_entries_ok);
    }
    law_pre_put_scaling_entries(a, xs, chroma_present, n, s);
}

/// Reading the items fails only with an error of this class.
pub broadcast proof fn law_faults_scaling_entries(s: Seq<bool>, p: nat, chroma_present: bool, n: u64)
    ensures
        #[trigger] scaling_entries_at(s, p, chroma_present, n) matches Err(f) ==> f == Fault::Invalid,
{
    broadcast use law_faults_scaling_entry;

    reveal(scaling_entries_at);
    let f = scaling_entries_item(s, chroma_present);
    assert forall|done: Seq<ScalingEntryModel>, q: nat| (#[trigger] f(done, q)) matches Err(e)
        ==> e == Fault::Invalid by {}
    lemma_rep_faults(f, p, n as nat, |f: Fault| f == Fault::Invalid);
}

/// The 64 entries of a matrix: its coefficients, and zeros behind them.
pub open spec fn padded(v: Seq<i32>) -> Seq<i32> {
    Seq::new(
        64,
        |j: int|
            if j < v.len() {
                v[j]
            } else {
                0i32
            },
    )
}

/// The lists as arrays.
pub open spec fn scaling_of(b: Seq<ScalingEntryModel>) -> VvcScalingListDataModel {
    VvcScalingListDataModel {
        copy_mode_flag: Seq::new(28, |i: int| b[i].copy),
        pred_mode_flag: Seq::new(28, |i: int| b[i].pred),
        pred_id_delta: Seq::new(28, |i: int| b[i].delta),
        dc_coef: Seq::new(14, |k: int| b[k + 14].dc),
        scaling_list: Seq::new(28, |i: int| padded(b[i].coefs)),
    }
}

/// True when the syntax codes matrix `id` (§7.3.2.20).
pub open spec fn id_coded(id: int, chroma_present: bool) -> bool {
    chroma_present || id % 3 == 2 || id == 27
}

/// The syntax elements of list `i`.
pub open spec fn entry_of(x: VvcScalingListDataModel, chroma_present: bool, i: int) -> ScalingEntryModel {
    ScalingEntryModel {
        copy: x.copy_mode_flag[i],
        pred: x.pred_mode_flag[i],
        delta: x.pred_id_delta[i],
        dc: if i > 13 {
            x.dc_coef[i - 14]
        } else {
            0
        },
        coefs: if id_coded(i, chroma_present) && !x.copy_mode_flag[i] {
            x.scaling_list[i].take(matrix_len(i as u64) as int)
        } else {
            Seq::empty()
        },
    }
}

/// The syntax elements of the lists.
pub open spec fn entries_of(x: VvcScalingListDataModel, chroma_present: bool) -> Seq<ScalingEntryModel> {
    Seq::new(28, |i: int| entry_of(x, chroma_present, i))
}

/// 28 lists of 64 entries, and a DC coefficient for each of the last 14.
pub open spec fn scaling_fit(x: VvcScalingListDataModel) -> bool {
    &&& x.copy_mode_flag.len() == 28
    &&& x.pred_mode_flag.len() == 28
    &&& x.pred_id_delta.len() == 28
    &&& x.dc_coef.len() == 14
    &&& rows_of(x.scaling_list, 28, 64)
}

proof fn lemma_scaling_data(b: Seq<ScalingEntryModel>, chroma_present: bool)
    requires
        scaling_entries_ok(b, chroma_present, 28),
    ensures
        entries_of(scaling_of(b), chroma_present) == b,
        scaling_fit(scaling_of(b)),
{
    lemma_scaling_entries_shape(b, chroma_present);
    let x = scaling_of(b);
    let c = entries_of(x, chroma_present);
    assert forall|i: int| 0 <= i < 28 implies #[trigger] c[i] == b[i] by {
        assert(c[i].coefs =~= b[i].coefs);
    }
    assert(c =~= b);
}

proof fn lemma_scaling_entries_shape(b: Seq<ScalingEntryModel>, chroma_present: bool)
    requires
        scaling_entries_ok(b, chroma_present, 28),
    ensures
        b.len() == 28,
        forall|i: int|
            0 <= i < 28 ==> (#[trigger] b[i]).coefs.len() == coef_count(
                i as u64,
                id_coded(i, chroma_present) && !b[i].copy,
            ),
        forall|i: int| 0 <= i <= 13 ==> (#[trigger] b[i]).dc == 0,
{
    reveal(scaling_entries_ok);
    reveal(scaling_entry_ok);
    reveal(coefs_can);
}

/// `scaling_list_data()` (§7.3.2.20) at position `p`.
#[verifier::opaque]
pub open spec fn scaling_data_at(
    s: Seq<bool>,
    p: nat,
    chroma_present: bool,
) -> Read<VvcScalingListDataModel> {
    match scaling_entries_at(s, p, chroma_present, 28) {
        Err(f) => Err(f),
        Ok((b, p)) => Ok((scaling_of(b), p)),
    }
}

/// Writes the values.
#[verifier::opaque]
pub open spec fn put_scaling_data(
    a: Seq<bool>,
    x: VvcScalingListDataModel,
    chroma_present: bool,
) -> Seq<bool> {
    put_scaling_entries(a, entries_of(x, chroma_present), chroma_present, 28)
}

/// Values that reading can give.
#[verifier::opaque]
pub open spec fn scaling_data_ok(x: VvcScalingListDataModel, chroma_present: bool) -> bool {
    let b = entries_of(x, chroma_present);
    scaling_fit(x) && scaling_entries_ok(b, chroma_present, 28) && x == scaling_of(b)
}

/// Values that the writer accepts.
#[verifier::opaque]
pub open spec fn scaling_data_can(x: VvcScalingListDataModel, chroma_present: bool) -> bool {
    scaling_fit(x) && scaling_entries_can(entries_of(x, chroma_present), chroma_present, 28)
}

/// Writing what was read gives back the bits that were read.
pub broadcast proof fn law_put_scaling_data_at(s: Seq<bool>, p: nat, chroma_present: bool)
    ensures
        #[trigger] scaling_data_at(s, p, chroma_present) matches Ok((x, q)) ==> {
            &&& scaling_data_ok(x, chroma_present)
            &&& scaling_data_can(x, chroma_present)
            &&& within(s, q) ==> within(s, p) && put_scaling_data(upto(s, p), x, chroma_present) == upto(s, q)
        },
{
    broadcast use law_put_scaling_entries_at;

    reveal(scaling_data_at);
    reveal(put_scaling_data);
    reveal(scaling_data_ok);
    reveal(scaling_data_can);
    if let Ok((b, q)) = scaling_entries_at(s, p, chroma_present, 28) {
        lemma_scaling_data(b, chroma_present);
    }
}

/// What was written reads back as the values that were written.
pub broadcast proof fn law_pre_put_scaling_data(
    a: Seq<bool>,
    x: VvcScalingListDataModel,
    chroma_present: bool,
    s: Seq<bool>,
)
    requires
        #[trigger] pre(put_scaling_data(a, x, chroma_present), s),
        scaling_data_ok(x, chroma_present),
    ensures
        pre(a, s),
        scaling_data_can(x, chroma_present),
        scaling_data_at(s, a.len(), chroma_present) == Ok::<(VvcScalingListDataModel, nat), Fault>(
            (x, put_scaling_data(a, x, chroma_present).len()),
        ),
{
    broadcast use law_pre_put_scaling_entries;

    reveal(scaling_data_at);
    reveal(put_scaling_data);
    reveal(scaling_data_ok);
    reveal(scaling_data_can);
}

/// What the writer accepts reads back, where the coded values are ones that reading can
/// give and the others are those that stand for what is not coded.
pub proof fn law_reads_scaling_data(
    a: Seq<bool>,
    x: VvcScalingListDataModel,
    chroma_present: bool,
    s: Seq<bool>,
)
    requires
        scaling_data_can(x, chroma_present),
        ({
            let b = entries_of(x, chroma_present);
            scaling_entries_ok(b, chroma_present, 28) && x == scaling_of(b)
        }),
        pre(put_scaling_data(a, x, chroma_present), s),
    ensures
        scaling_data_at(s, a.len(), chroma_present) == Ok::<(VvcScalingListDataModel, nat), Fault>(
            (x, put_scaling_data(a, x, chroma_present).len()),
        ),
{
    assert(scaling_data_ok(x, chroma_present)) by {
        reveal(scaling_data_ok);
        reveal(scaling_data_can);
    }
    law_pre_put_scaling_data(a, x, chroma_present, s);
}

/// Reading them fails only with an error of this class.
pub broadcast proof fn law_faults_scaling_data(s: Seq<bool>, p: nat, chroma_present: bool)
    ensures
        #[trigger] scaling_data_at(s, p, chroma_present) matches Err(f) ==> f == Fault::Invalid,
{
    broadcast use law_faults_scaling_entries;

    reveal(scaling_data_at);
}

fn parse_scaling_list_data(r: &mut BitReader<'_>, chroma_present: bool) -> (res: Result<
    VvcScalingListData,
    BitstreamError,
>)
    ensures
        read_view_is(scaling_data_at(old(r).bits(), old(r).pos(), chroma_present), res, *old(r), *final(r)),
{
    proof {
        reveal(scaling_data_at);
    }
    let v = parse_scaling_entries(r, chroma_present, 28)?;
    let ghost b = seq_view(v@);
    proof {
        law_put_scaling_entries_at(old(r).bits(), old(r).pos(), chroma_present, 28);
        lemma_scaling_entries_shape(b, chroma_present);
    }
    let mut d = VvcScalingListData::default();
    let mut id: usize = 0;
    while id < 28
        invariant
            id <= 28,
            b == seq_view(v@),
            v@.len() == 28,
            forall|i: int| 0 <= i < 28 ==> (#[trigger] b[i]).coefs.len() <= 64,
            forall|i: int| 0 <= i < id ==> #[trigger] d.copy_mode_flag@[i] == b[i].copy,
            forall|i: int| 0 <= i < id ==> #[trigger] d.pred_mode_flag@[i] == b[i].pred,
            forall|i: int| 0 <= i < id ==> #[trigger] d.pred_id_delta@[i] == b[i].delta,
            forall|k: int| 0 <= k < 14 && k + 14 < id ==> #[trigger] d.dc_coef@[k] == b[k + 14].dc,
            forall|i: int| 0 <= i < id ==> (#[trigger] d.scaling_list@[i])@ == padded(b[i].coefs),
        decreases 28 - id,
    {
        let e: &ScalingEntry = &v[id];
        assert(b[id as int] == e@);
        let mut row: [i32; 64] = [0; 64];
        let mut j: usize = 0;
        while j < e.coefs.len()
            invariant
                j <= e.coefs@.len() <= 64,
                forall|k: int| 0 <= k < j ==> #[trigger] row@[k] == e.coefs@[k],
                forall|k: int| j <= k < 64 ==> #[trigger] row@[k] == 0,
            decreases e.coefs@.len() - j,
        {
            row[j] = e.coefs[j];
            j = j + 1;
        }
        proof {
            assert(row@ =~= padded(e.coefs@));
        }
        d.copy_mode_flag[id] = e.copy;
        d.pred_mode_flag[id] = e.pred;
        d.pred_id_delta[id] = e.delta;
        if id > 13 {
            d.dc_coef[id - 14] = e.dc;
        }
        d.scaling_list[id] = row;
        id = id + 1;
    }
    proof {
        let want = scaling_of(b);
        assert(d@.copy_mode_flag =~= want.copy_mode_flag);
        assert(d@.pred_mode_flag =~= want.pred_mode_flag);
        assert(d@.pred_id_delta =~= want.pred_id_delta);
        assert(d@.dc_coef =~= want.dc_coef);
        assert(d@.scaling_list =~= want.scaling_list);
    }
    Ok(d)
}

fn write_scaling_list_data(w: &mut BitWriter, x: &VvcScalingListData, chroma_present: bool) -> (res: Result<
    (),
    BitstreamError,
>)
    ensures
        write_is(
            scaling_data_can(x@, chroma_present),
            put_scaling_data(old(w)@, x@, chroma_present),
            res,
            final(w)@,
        ),
{
    proof {
        reveal(scaling_data_can);
        reveal(put_scaling_data);
    }
    let mut v: Vec<ScalingEntry> = Vec::new();
    let mut id: usize = 0;
    while id < 28
        invariant
            id <= 28,
            v@.len() == id,
            forall|i: int| 0 <= i < id ==> (#[trigger] v@[i])@ == entry_of(x@, chroma_present, i),
        decreases 28 - id,
    {
        let mut coefs: Vec<i32> = Vec::new();
        if (chroma_present || id % 3 == 2 || id == 27) && !x.copy_mode_flag[id] {
            let n: usize = matrix_entries(id as u64);
            let mut j: usize = 0;
            while j < n
                invariant
                    id < 28,
                    j <= n <= 64,
                    coefs@.len() == j,
                    forall|k: int| 0 <= k < j ==> #[trigger] coefs@[k] == x.scaling_list@[id as int]@[k],
                decreases n - j,
            {
                coefs.push(x.scaling_list[id][j]);
                j = j + 1;
            }
        }
        let dc: i32 = if id > 13 {
            x.dc_coef[id - 14]
        } else {
            0
        };
        proof {
            assert(coefs@ =~= entry_of(x@, chroma_present, id as int).coefs);
        }
        v.push(
            ScalingEntry {
                copy: x.copy_mode_flag[id],
                pred: x.pred_mode_flag[id],
                delta: x.pred_id_delta[id],
                dc,
                coefs,
            },
        );
        id = id + 1;
    }
    proof {
        assert(seq_view(v@) =~= entries_of(x@, chroma_present));
    }
    write_scaling_entries(w, &v, chroma_present, 28)
}

// ─────────────────────────── APS wrapper (§7.3.2.6) ─────────────────────────

/// Decoded `adaptation_parameter_set_rbsp()` (§7.3.2.6).
#[derive(Debug, Clone, PartialEq, Eq)]
pub struct VvcAps {
    /// One of [`APS_PARAMS_TYPE_ALF`] / [`APS_PARAMS_TYPE_LMCS`] /
    /// [`APS_PARAMS_TYPE_SCALING`]. Reserved values are refused at
    /// parse time (their payload syntax is undefined).
    pub aps_params_type: u8,
    /// u(5); 0..=7 for ALF/scaling APSs, 0..=3 for LMCS (§7.4.3.6).
    pub aps_adaptation_parameter_set_id: u8,
    pub aps_chroma_present_flag: bool,
    pub payload: VvcApsPayload,
    /// Retained; the extension payload itself is not, so the writer
    /// refuses `true`.
    pub aps_extension_flag: bool,
}

/// The type-discriminated APS payload.
#[derive(Debug, Clone, PartialEq, Eq)]
pub enum VvcApsPayload {
    Alf(Box<VvcAlfData>),
    Lmcs(VvcLmcsData),
    ScalingList(Box<VvcScalingListData>),
}

/// The mathematical model of a [`VvcApsPayload`].
pub enum VvcApsPayloadModel {
    Alf(VvcAlfDataModel),
    Lmcs(VvcLmcsDataModel),
    ScalingList(VvcScalingListDataModel),
}

impl View for VvcApsPayload {
    type V = VvcApsPayloadModel;

    open spec fn view(&self) -> VvcApsPayloadModel {
        match self {
            VvcApsPayload::Alf(d) => VvcApsPayloadModel::Alf(d@),
            VvcApsPayload::Lmcs(d) => VvcApsPayloadModel::Lmcs(d@),
            VvcApsPayload::ScalingList(d) => VvcApsPayloadModel::ScalingList(d@),
        }
    }
}

/// The mathematical model of a [`VvcAps`].
pub struct VvcApsModel {
    pub aps_params_type: u8,
    pub aps_adaptation_parameter_set_id: u8,
    pub aps_chroma_present_flag: bool,
    pub payload: VvcApsPayloadModel,
    pub aps_extension_flag: bool,
}

impl View for VvcAps {
    type V = VvcApsModel;

    open spec fn view(&self) -> VvcApsModel {
        VvcApsModel {
            aps_params_type: self.aps_params_type,
            aps_adaptation_parameter_set_id: self.aps_adaptation_parameter_set_id,
            aps_chroma_present_flag: self.aps_chroma_present_flag,
            payload: self.payload@,
            aps_extension_flag: self.aps_extension_flag,
        }
    }
}

/// The payload of an APS of type `t` with id `id` at position `p`. The payload
/// syntax of the other types is not defined.
#[verifier::opaque]
pub open spec fn aps_payload_at(s: Seq<bool>, p: nat, t: u8, id: u8, chroma_present: bool) -> Read<
    VvcApsPayloadModel,
> {
    if t == APS_PARAMS_TYPE_ALF {
        match alf_data_at(s, p, chroma_present) {
            Err(f) => Err(f),
            Ok((d, p)) => if id > 7 {
                Err(Fault::Invalid)
            } else {
                Ok((VvcApsPayloadModel::Alf(d), p))
            },
        }
    } else if t == APS_PARAMS_TYPE_LMCS {
        if id > 3 {
            Err(Fault::Invalid)
        } else {
            match lmcs_data_at(s, p, chroma_present) {
                Err(f) => Err(f),
                Ok((d, p)) => Ok((VvcApsPayloadModel::Lmcs(d), p)),
            }
        }
    } else if t == APS_PARAMS_TYPE_SCALING {
        match scaling_data_at(s, p, chroma_present) {
            Err(f) => Err(f),
            Ok((d, p)) => if id > 7 {
                Err(Fault::Invalid)
            } else {
                Ok((VvcApsPayloadModel::ScalingList(d), p))
            },
        }
    } else {
        Err(Fault::Unsupported)
    }
}

/// Writes the payload.
#[verifier::opaque]
pub open spec fn put_aps_payload(a: Seq<bool>, x: VvcApsPayloadModel, chroma_present: bool) -> Seq<bool> {
    match x {
        VvcApsPayloadModel::Alf(d) => put_alf_data(a, d, chroma_present),
        VvcApsPayloadModel::Lmcs(d) => put_lmcs_data(a, d, chroma_present),
        VvcApsPayloadModel::ScalingList(d) => put_scaling_data(a, d, chroma_present),
    }
}

/// The `aps_params_type` of a payload.
pub open spec fn aps_type_of(x: VvcApsPayloadModel) -> u8 {
    match x {
        VvcApsPayloadModel::Alf(_) => APS_PARAMS_TYPE_ALF,
        VvcApsPayloadModel::Lmcs(_) => APS_PARAMS_TYPE_LMCS,
        VvcApsPayloadModel::ScalingList(_) => APS_PARAMS_TYPE_SCALING,
    }
}

/// The largest id of an APS with this payload (§7.4.3.6).
pub open spec fn aps_max_id(x: VvcApsPayloadModel) -> u8 {
    match x {
        VvcApsPayloadModel::Lmcs(_) => 3,
        _ => 7,
    }
}

/// A payload that reading can give.
#[verifier::opaque]
pub open spec fn aps_payload_ok(x: VvcApsPayloadModel, chroma_present: bool) -> bool {
    match x {
        VvcApsPayloadModel::Alf(d) => alf_data_ok(d, chroma_present),
        VvcApsPayloadModel::Lmcs(d) => lmcs_data_ok(d, chroma_present),
        VvcApsPayloadModel::ScalingList(d) => scaling_data_ok(d, chroma_present),
    }
}

/// A payload that the writer accepts.
#[verifier::opaque]
pub open spec fn aps_payload_can(x: VvcApsPayloadModel, chroma_present: bool) -> bool {
    match x {
        VvcApsPayloadModel::Alf(d) => alf_data_can(d, chroma_present),
        VvcApsPayloadModel::Lmcs(d) => lmcs_data_can(d, chroma_present),
        VvcApsPayloadModel::ScalingList(d) => scaling_data_can(d, chroma_present),
    }
}

/// The APS at position `p`. Extension data is not looked at.
#[verifier::opaque]
pub open spec fn aps_at(s: Seq<bool>, p: nat) -> Read<VvcApsModel> {
    let aps_params_type = u8_at(s, p, 3);
    let p = adv(p, 3);
    let aps_adaptation_parameter_set_id = u8_at(s, p, 5);
    let p = adv(p, 5);
    let aps_chroma_present_flag = flag_at(s, p);
    let p = adv(p, 1);
    match aps_payload_at(s, p, aps_params_type, aps_adaptation_parameter_set_id, aps_chroma_present_flag) {
        Err(f) => Err(f),
        Ok((payload, p)) => {
            let aps_extension_flag = flag_at(s, p);
            let p = adv(p, 1);
            match (if aps_extension_flag {
                Ok(p)
            } else {
                trailing_at(s, p)
            }) {
                Err(f) => Err(f),
                Ok(p) => Ok(
                    (
                        VvcApsModel {
                            aps_params_type,
                            aps_adaptation_parameter_set_id,
                            aps_chroma_present_flag,
                            payload,
                            aps_extension_flag,
                        },
                        p,
                    ),
                ),
            }
        },
    }
}

/// Writes the APS without extension data, through `rbsp_trailing_bits()`.
#[verifier::opaque]
pub open spec fn put_aps(a: Seq<bool>, x: VvcApsModel) -> Seq<bool> {
    let a = put_u(a, x.aps_params_type as nat, 3);
    let a = put_u(a, x.aps_adaptation_parameter_set_id as nat, 5);
    let a = put_flag(a, x.aps_chroma_present_flag);
    let a = put_aps_payload(a, x.payload, x.aps_chroma_present_flag);
    let a = put_flag(a, false);
    put_trailing(a)
}

/// An APS without extension data that reading can give.
#[verifier::opaque]
pub open spec fn aps_ok(x: VvcApsModel) -> bool {
    &&& !x.aps_extension_flag
    &&& x.aps_params_type == aps_type_of(x.payload)
    &&& x.aps_adaptation_parameter_set_id <= aps_max_id(x.payload)
    &&& aps_payload_ok(x.payload, x.aps_chroma_present_flag)
}

/// An APS that the writer accepts.
#[verifier::opaque]
pub open spec fn aps_can(x: VvcApsModel) -> bool {
    &&& !x.aps_extension_flag
    &&& x.aps_params_type == aps_type_of(x.payload)
    &&& x.aps_adaptation_parameter_set_id <= aps_max_id(x.payload)
    &&& aps_payload_can(x.payload, x.aps_chroma_present_flag)
}

/// The APS that the RBSP `r` holds.
pub open spec fn aps_of_rbsp(r: Seq<u8>) -> Result<VvcApsModel, Fault> {
    match aps_at(bits_of(r), 0) {
        Ok((x, _)) => Ok(x),
        Err(f) => Err(f),
    }
}

/// The APS that the NAL unit `b` holds, of either APS type.
pub open spec fn aps_of_nal(b: Seq<u8>) -> Result<VvcApsModel, Fault> {
    match nal_header_of(b) {
        Err(f) => Err(f),
        Ok(h) => if h.nal_unit_type != NAL_TYPE_PREFIX_APS && h.nal_unit_type != NAL_TYPE_SUFFIX_APS {
            Err(Fault::Invalid)
        } else {
            aps_of_rbsp(unescape(b.skip(2)))
        },
    }
}

/// The bits of the RBSP that holds `x`.
pub open spec fn aps_bits(x: VvcApsModel) -> Seq<bool> {
    put_aps(Seq::empty(), x)
}

fn parse_aps_payload(r: &mut BitReader<'_>, t: u8, id: u8, chroma_present: bool) -> (res: Result<
    VvcApsPayload,
    BitstreamError,
>)
    ensures
        read_view_is(
            aps_payload_at(old(r).bits(), old(r).pos(), t, id, chroma_present),
            res,
            *old(r),
            *final(r),
        ),
{
    proof {
        reveal(aps_payload_at);
    }
    if t == APS_PARAMS_TYPE_ALF {
        let d = parse_alf_data(r, chroma_present)?;
        if id > 7 {
            return Err(
                Message::new("aps_adaptation_parameter_set_id=")
                    .num(id as i128)
                    .with(" (must be 0..=7, §7.4.3.6)")
                    .invalid(),
            );
        }
        Ok(VvcApsPayload::Alf(Box::new(d)))
    } else if t == APS_PARAMS_TYPE_LMCS {
        if id > 3 {
            return Err(
                Message::new("LMCS aps_adaptation_parameter_set_id=")
                    .num(id as i128)
                    .with(" (must be 0..=3, §7.4.3.6)")
                    .invalid(),
            );
        }
        let d = parse_lmcs_data(r, chroma_present)?;
        Ok(VvcApsPayload::Lmcs(d))
    } else if t == APS_PARAMS_TYPE_SCALING {
        let d = parse_scaling_list_data(r, chroma_present)?;
        if id > 7 {
            return Err(
                Message::new("aps_adaptation_parameter_set_id=")
                    .num(id as i128)
                    .with(" (must be 0..=7, §7.4.3.6)")
                    .invalid(),
            );
        }
        Ok(VvcApsPayload::ScalingList(Box::new(d)))
    } else {
        Err(
            Message::new("reserved aps_params_type=")
                .num(t as i128)
                .with(" (Table 6; decoders shall ignore such APSs)")
                .unsupported(),
        )
    }
}

/// Parse an `adaptation_parameter_set_rbsp()` from an RBSP (already
/// emulation-prevention-stripped, no NAL header).
pub fn parse_aps_rbsp(rbsp: &[u8]) -> (res: Result<VvcAps, BitstreamError>)
    ensures
        nal_read_is(aps_of_rbsp(rbsp@), res),
{
    proof {
        reveal(aps_at);
    }
    let mut r = BitReader::new(rbsp);
    let aps_params_type: u8 = r.u8(3);
    let aps_adaptation_parameter_set_id: u8 = r.u8(5);
    let aps_chroma_present_flag: bool = r.flag();
    let payload = parse_aps_payload(
        &mut r,
        aps_params_type,
        aps_adaptation_parameter_set_id,
        aps_chroma_present_flag,
    )?;
    let aps_extension_flag: bool = r.flag();
    if !aps_extension_flag {
        r.read_rbsp_trailing_bits()?;
    }
    Ok(
        VvcAps {
            aps_params_type,
            aps_adaptation_parameter_set_id,
            aps_chroma_present_flag,
            payload,
            aps_extension_flag,
        },
    )
}

/// Parse an APS NAL: two-byte NAL header (type 17 PREFIX_APS or 18
/// SUFFIX_APS) followed by the EBSP body.
pub fn parse_aps(nal_body: &[u8]) -> (res: Result<VvcAps, BitstreamError>)
    ensures
        nal_read_is(aps_of_nal(nal_body@), res),
{
    if nal_body.len() < 2 {
        return Err(BitstreamError::unexpected_end("H.266 APS NAL needs at least the 2-byte header"));
    }
    let header = parse_nal_header(nal_body)?;
    if header.nal_unit_type != NAL_TYPE_PREFIX_APS && header.nal_unit_type != NAL_TYPE_SUFFIX_APS {
        return Err(
            Message::new("expected APS NAL (type ")
                .num(NAL_TYPE_PREFIX_APS as i128)
                .with(" or ")
                .num(NAL_TYPE_SUFFIX_APS as i128)
                .with("), got ")
                .num(header.nal_unit_type as i128)
                .invalid(),
        );
    }
    proof {
        assert(nal_body@.subrange(2, nal_body@.len() as int) =~= nal_body@.skip(2));
    }
    let rbsp = ebsp_to_rbsp(slice_subrange(nal_body, 2, nal_body.len()));
    parse_aps_rbsp(rbsp.as_slice())
}

/// What the APS writers promise of their errors: an APS with extension data is
/// not supported, any other that cannot be written is invalid.
pub open spec fn aps_fault(x: VvcApsModel) -> Fault {
    if x.aps_extension_flag {
        Fault::Unsupported
    } else {
        Fault::Invalid
    }
}

/// Emit an `adaptation_parameter_set_rbsp()` (§7.3.2.6 including
/// `rbsp_trailing_bits()`), the byte-exact inverse of
/// [`parse_aps_rbsp`] for every input that parser accepts, except
/// `aps_extension_flag == 1` (unretained extension payload), which is
/// refused as [`BitstreamError::Unsupported`].
pub fn write_aps(aps: &VvcAps) -> (res: Result<Vec<u8>, BitstreamError>)
    ensures
        match res {
            Ok(v) => aps_can(aps@) && bits_of(v@) == aps_bits(aps@),
            Err(e) => !aps_can(aps@) && e.fault() == aps_fault(aps@),
        },
{
    proof {
        reveal(aps_can);
        reveal(put_aps);
        reveal(put_aps_payload);
        reveal(aps_payload_can);
    }
    if aps.aps_extension_flag {
        return Err(
            BitstreamError::unsupported(
                "H.266 APS aps_extension_flag == 1 (unretained aps_extension_data_flag bits)",
            ),
        );
    }
    let (expected_type, id_max): (u8, u8) = match &aps.payload {
        VvcApsPayload::Alf(_) => (APS_PARAMS_TYPE_ALF, 7),
        VvcApsPayload::Lmcs(_) => (APS_PARAMS_TYPE_LMCS, 3),
        VvcApsPayload::ScalingList(_) => (APS_PARAMS_TYPE_SCALING, 7),
    };
    if aps.aps_params_type != expected_type {
        return Err(
            Message::new("aps_params_type=")
                .num(aps.aps_params_type as i128)
                .with(" does not match the payload variant (expected ")
                .num(expected_type as i128)
                .with(")")
                .invalid(),
        );
    }
    if aps.aps_adaptation_parameter_set_id > id_max {
        return Err(
            Message::new("aps_adaptation_parameter_set_id=")
                .num(aps.aps_adaptation_parameter_set_id as i128)
                .with(" (must be 0..=")
                .num(id_max as i128)
                .with(", §7.4.3.6)")
                .invalid(),
        );
    }
    let mut w = BitWriter::new();
    w.write_bits(aps.aps_params_type as u32, 3);
    w.write_bits(aps.aps_adaptation_parameter_set_id as u32, 5);
    w.write_flag(aps.aps_chroma_present_flag);
    match &aps.payload {
        VvcApsPayload::Alf(d) => write_alf_data(&mut w, d, aps.aps_chroma_present_flag)?,
        VvcApsPayload::Lmcs(d) => write_lmcs_data(&mut w, d, aps.aps_chroma_present_flag)?,
        VvcApsPayload::ScalingList(d) => write_scaling_list_data(&mut w, d, aps.aps_chroma_present_flag)?,
    }
    w.write_flag(false);
    w.write_rbsp_trailing_bits();
    proof {
        broadcast use lemma_trailing_aligned;

        lemma_pad_aligned(w@);
    }
    Ok(w.finish())
}

/// Emit a complete APS NAL: two-byte NAL header (`nal_unit_type` must
/// be [`NAL_TYPE_PREFIX_APS`] or [`NAL_TYPE_SUFFIX_APS`]; layer 0,
/// TID 0) + emulation-prevention-encoded RBSP.
pub fn write_aps_nal(aps: &VvcAps, nal_unit_type: u8) -> (res: Result<Vec<u8>, BitstreamError>)
    ensures
        ({
            let aps_type = nal_unit_type == NAL_TYPE_PREFIX_APS || nal_unit_type == NAL_TYPE_SUFFIX_APS;
            match res {
                Ok(v) => {
                    &&& aps_type
                    &&& aps_can(aps@)
                    &&& exists|rbsp: Seq<u8>|
                        #[trigger] bits_of(rbsp) == aps_bits(aps@) && v@ == nal_of_rbsp(nal_unit_type, rbsp)
                },
                Err(e) => {
                    &&& !(aps_type && aps_can(aps@))
                    &&& e.fault() == if aps_type {
                        aps_fault(aps@)
                    } else {
                        Fault::Invalid
                    }
                },
            }
        }),
{
    if nal_unit_type != NAL_TYPE_PREFIX_APS && nal_unit_type != NAL_TYPE_SUFFIX_APS {
        return Err(
            Message::new("APS NAL type must be ")
                .num(NAL_TYPE_PREFIX_APS as i128)
                .with(" (prefix) or ")
                .num(NAL_TYPE_SUFFIX_APS as i128)
                .with(" (suffix), got ")
                .num(nal_unit_type as i128)
                .invalid(),
        );
    }
    let rbsp = write_aps(aps)?;
    proof {
        assert(bits_of(rbsp@) == aps_bits(aps@));
    }
    Ok(frame_nal(nal_unit_type, &rbsp))
}

proof fn law_put_aps_payload_at(s: Seq<bool>, p: nat, t: u8, id: u8, chroma_present: bool)
    ensures
        aps_payload_at(s, p, t, id, chroma_present) matches Ok((x, q)) ==> {
            &&& aps_payload_ok(x, chroma_present)
            &&& aps_payload_can(x, chroma_present)
            &&& t == aps_type_of(x)
            &&& id <= aps_max_id(x)
            &&& within(s, q) ==> within(s, p) && put_aps_payload(upto(s, p), x, chroma_present) == upto(s, q)
        },
{
    broadcast use {law_put_alf_data_at, law_put_lmcs_data_at, law_put_scaling_data_at};

    reveal(aps_payload_at);
    reveal(put_aps_payload);
    reveal(aps_payload_ok);
    reveal(aps_payload_can);
}

proof fn law_pre_put_aps_payload(
    a: Seq<bool>,
    x: VvcApsPayloadModel,
    id: u8,
    chroma_present: bool,
    s: Seq<bool>,
)
    requires
        pre(put_aps_payload(a, x, chroma_present), s),
        aps_payload_ok(x, chroma_present),
        id <= aps_max_id(x),
    ensures
        pre(a, s),
        aps_payload_can(x, chroma_present),
        aps_payload_at(s, a.len(), aps_type_of(x), id, chroma_present) == Ok::<(VvcApsPayloadModel, nat), Fault>(
            (x, put_aps_payload(a, x, chroma_present).len()),
        ),
{
    broadcast use {law_pre_put_alf_data, law_pre_put_lmcs_data, law_pre_put_scaling_data};

    reveal(aps_payload_at);
    reveal(put_aps_payload);
    reveal(aps_payload_ok);
    reveal(aps_payload_can);
}

/// Writing what was parsed gives back the RBSP: the writer accepts every APS
/// that the parser gives, other than one with extension data, and emits the
/// bits of the RBSP it came from.
pub proof fn law_write_parsed_aps(r: Seq<u8>)
    requires
        r.len() <= usize::MAX,
    ensures
        aps_of_rbsp(r) matches Ok(x) ==> !x.aps_extension_flag ==> {
            &&& aps_ok(x)
            &&& aps_can(x)
            &&& aps_bits(x) == bits_of(r)
            &&& forall|out: Seq<u8>| bits_of(out) == aps_bits(x) ==> out == r
        },
{
    let s = bits_of(r);
    lemma_bits_of_len(r);
    if let Ok((x, q)) = aps_at(s, 0) {
        if !x.aps_extension_flag {
            broadcast use crate::bits::group_write_read;

            reveal(aps_at);
            reveal(put_aps);
            reveal(aps_ok);
            reveal(aps_can);
            let p3 = adv(adv(adv(0, 3), 5), 1);
            law_put_aps_payload_at(
                s,
                p3,
                x.aps_params_type,
                x.aps_adaptation_parameter_set_id,
                x.aps_chroma_present_flag,
            );
            let q = aps_payload_at(
                s,
                p3,
                x.aps_params_type,
                x.aps_adaptation_parameter_set_id,
                x.aps_chroma_present_flag,
            )->Ok_0.1;
            assert(within(s, adv(q, 1))) by {
                reveal(within);
            }
            assert(upto(s, 0) =~= Seq::empty()) by {
                reveal(upto);
            }
            assert forall|out: Seq<u8>| bits_of(out) == aps_bits(x) implies out == r by {
                lemma_bits_of_injective(out, r);
            }
        }
    }
}

/// Writing what was parsed gives back the NAL unit, where that is in canonical
/// form and the APS has no extension data: every NAL unit of its type that holds
/// the bits of the parsed APS is the one that was parsed.
pub proof fn law_write_parsed_aps_nal(t: u8, b: Seq<u8>)
    requires
        t == NAL_TYPE_PREFIX_APS || t == NAL_TYPE_SUFFIX_APS,
        b.len() <= usize::MAX,
        canonical_nal(t, b),
    ensures
        aps_of_nal(b) matches Ok(x) ==> !x.aps_extension_flag ==> {
            &&& aps_can(x)
            &&& forall|r: Seq<u8>| #[trigger] bits_of(r) == aps_bits(x) ==> nal_of_rbsp(t, r) == b
        },
{
    law_framed_rbsp_of_nal(t, b);
    lemma_unescape_len(b.skip(2));
    law_write_parsed_aps(unescape(b.skip(2)));
}

/// What was written parses back: an APS without extension data that reading
/// can give comes back from its RBSP and from its NAL unit of either type.
pub proof fn law_parse_written_aps(x: VvcApsModel, r: Seq<u8>, t: u8)
    requires
        aps_ok(x),
        bits_of(r) == aps_bits(x),
        r.len() <= usize::MAX,
        t == NAL_TYPE_PREFIX_APS || t == NAL_TYPE_SUFFIX_APS,
    ensures
        aps_can(x),
        aps_of_rbsp(r) == Ok::<VvcApsModel, Fault>(x),
        aps_of_nal(nal_of_rbsp(t, r)) == Ok::<VvcApsModel, Fault>(x),
{
    broadcast use crate::bits::group_read_written;

    let s = bits_of(r);
    lemma_bits_of_len(r);
    reveal(aps_at);
    reveal(put_aps);
    reveal(aps_ok);
    reveal(aps_can);
    let a0 = Seq::<bool>::empty();
    let a1 = put_u(a0, x.aps_params_type as nat, 3);
    let a2 = put_u(a1, x.aps_adaptation_parameter_set_id as nat, 5);
    let a3 = put_flag(a2, x.aps_chroma_present_flag);
    let a4 = put_aps_payload(a3, x.payload, x.aps_chroma_present_flag);
    let a5 = put_flag(a4, false);
    lemma_trailing_shape(a5);
    assert(pre(a5, s) && upto(s, a5.len()) =~= a5) by {
        reveal(pre);
        reveal(upto);
    }
    law_pre_put_aps_payload(a3, x.payload, x.aps_adaptation_parameter_set_id, x.aps_chroma_present_flag, s);
    law_rbsp_of_framed_nal(t, r);
}

/// The filter index of each of the 25 classes: coded for all of them, or zero for
/// all of them where there is one filter only.
pub proof fn law_layout_delta_idx(s: Seq<bool>, p: nat, num: u32, x: Seq<u8>, q: nat)
    ensures
        delta_idx_at(s, p, num) == Ok::<(Seq<u8>, nat), Fault>((x, q)) <==> if num == 0 {
            q == p && x.len() == 25 && forall|i: int| 0 <= i < 25 ==> #[trigger] x[i] == 0
        } else {
            cursor(s, p).part(|p: nat| delta_vec_at(s, p, num), x).ends(q)
        },
{
    reveal(delta_idx_at);
    if num == 0 {
        reveal(delta_vec_at);
        reveal(u8s_at);
        lemma_rep_step(u8s_item(s, ceil_log2(1)), p, 0);
        if x.len() == 25 && forall|i: int| 0 <= i < 25 ==> #[trigger] x[i] == 0 {
            assert(x =~= Seq::new(25, |i: int| 0u8));
        }
    }
}

/// The luma filters are rows of 12 coefficients, each a magnitude with its sign.
pub proof fn law_layout_luma_rows(s: Seq<bool>, p: nat, n: u64, x: (Seq<Seq<u32>>, Seq<Seq<bool>>), q: nat)
    ensures
        luma_rows_at(s, p, n) is Ok <==> alf_rows_at(s, p, 12, n) is Ok,
        luma_rows_at(s, p, n) == Ok::<((Seq<Seq<u32>>, Seq<Seq<bool>>), nat), Fault>((x, q)) ==> ({
            let b = cursor(s, p).next(|p: nat| alf_rows_at(s, p, 12, n));
            &&& cursor(s, p).part(|p: nat| alf_rows_at(s, p, 12, n), b).ends(q)
            &&& x.0.len() == b.len() && x.1.len() == b.len()
            &&& forall|i: int|
                0 <= i < b.len() ==> (#[trigger] x.0[i]).len() == b[i].len() && x.1[i].len() == b[i].len()
            &&& forall|i: int, j: int|
                0 <= i < b.len() && 0 <= j < b[i].len() ==> (#[trigger] x.0[i][j], x.1[i][j]) == b[i][j]
        }),
{
    reveal(luma_rows_at);
}

/// The cross-component filters are rows of 7 coefficients, each a magnitude with its
/// sign.
pub proof fn law_layout_cc_filters(s: Seq<bool>, p: nat, n: u64, x: (Seq<Seq<u8>>, Seq<Seq<bool>>), q: nat)
    ensures
        cc_filters_at(s, p, n) is Ok <==> cc_rows_at(s, p, n) is Ok,
        cc_filters_at(s, p, n) == Ok::<((Seq<Seq<u8>>, Seq<Seq<bool>>), nat), Fault>((x, q)) ==> ({
            let b = cursor(s, p).next(|p: nat| cc_rows_at(s, p, n));
            &&& cursor(s, p).part(|p: nat| cc_rows_at(s, p, n), b).ends(q)
            &&& x.0.len() == b.len() && x.1.len() == b.len()
            &&& forall|i: int|
                0 <= i < b.len() ==> (#[trigger] x.0[i]).len() == b[i].len() && x.1[i].len() == b[i].len()
            &&& forall|i: int, j: int|
                0 <= i < b.len() && 0 <= j < b[i].len() ==> (#[trigger] x.0[i][j], x.1[i][j]) == b[i][j]
        }),
{
    reveal(cc_filters_at);
}

/// The luma clip indices are rows of 12.
pub proof fn law_layout_luma_clips(s: Seq<bool>, p: nat, n: u64)
    ensures
        luma_clips_at(s, p, n) == clip_rows_at(s, p, 12, n),
{
    reveal(luma_clips_at);
}

/// The chroma filters are coefficients with their signs and, if `clip`, clip indices.
pub proof fn law_layout_chroma_rows(
    s: Seq<bool>,
    p: nat,
    n: u64,
    clip: bool,
    x: (Seq<Seq<u32>>, Seq<Seq<bool>>, Seq<Seq<u8>>),
    q: nat,
)
    ensures
        chroma_rows_at(s, p, n, clip) is Ok <==> alt_rows_at(s, p, clip, n) is Ok,
        chroma_rows_at(s, p, n, clip) == Ok::<((Seq<Seq<u32>>, Seq<Seq<bool>>, Seq<Seq<u8>>), nat), Fault>(
            (x, q),
        ) ==> ({
            let b = cursor(s, p).next(|p: nat| alt_rows_at(s, p, clip, n));
            &&& cursor(s, p).part(|p: nat| alt_rows_at(s, p, clip, n), b).ends(q)
            &&& x.0.len() == b.len() && x.1.len() == b.len()
            &&& x.2.len() == if clip {
                b.len()
            } else {
                0
            }
            &&& forall|i: int|
                0 <= i < b.len() ==> (#[trigger] x.0[i]).len() == b[i].0.len() && x.1[i].len() == b[i].0.len()
            &&& forall|i: int, j: int|
                0 <= i < b.len() && 0 <= j < b[i].0.len() ==> (#[trigger] x.0[i][j], x.1[i][j]) == b[i].0[j]
            &&& clip ==> forall|i: int| 0 <= i < b.len() ==> #[trigger] x.2[i] == b[i].1
        }),
{
    reveal(chroma_rows_at);
}

/// The codeword deltas are coded for the bins `lo..=hi`, each a magnitude with its
/// sign, and are zero for the others.
pub proof fn law_layout_codewords(
    s: Seq<bool>,
    p: nat,
    lo: u32,
    hi: u32,
    width: u32,
    x: (Seq<u32>, Seq<bool>),
    q: nat,
)
    requires
        lo <= hi <= 15,
    ensures
        codewords_at(s, p, lo, hi, width) is Ok <==> cw_pairs_at(s, p, width, (hi - lo + 1) as u64) is Ok,
        codewords_at(s, p, lo, hi, width) == Ok::<((Seq<u32>, Seq<bool>), nat), Fault>((x, q)) ==> ({
            let b = cursor(s, p).next(|p: nat| cw_pairs_at(s, p, width, (hi - lo + 1) as u64));
            &&& cursor(s, p).part(|p: nat| cw_pairs_at(s, p, width, (hi - lo + 1) as u64), b).ends(q)
            &&& x.0.len() == 16 && x.1.len() == 16 && b.len() == hi - lo + 1
            &&& forall|i: int|
                0 <= i < 16 ==> (#[trigger] x.0[i], x.1[i]) == if lo <= i <= hi {
                    b[i - lo]
                } else {
                    (0u32, false)
                }
        }),
{
    reveal(codewords_at);
    reveal(cw_pairs_at);
    lemma_rep_step(cw_pairs_item(s, width), p, (hi - lo + 1) as nat);
}

/// The coefficients of a matrix are 4 for ids 0 and 1, 16 for ids 2 to 7, and 64 for
/// the others. Each is the one before it, the first one `dc`, plus the coded
/// difference. From id 26 on those in the last quarter are not coded and repeat the
/// one before them.
#[verifier::rlimit(60)]
#[verifier::spinoff_prover]
pub proof fn law_layout_coefs(
    s: Seq<bool>,
    p: nat,
    id: u64,
    explicit: bool,
    dc: i32,
    xs: Seq<i32>,
    q: nat,
)
    ensures
        coefs_at(s, p, id, explicit, dc) == Ok::<(Seq<i32>, nat), Fault>((xs, q)) ==> {
            &&& xs.len() == if !explicit {
                0
            } else if id < 2 {
                4
            } else if id < 8 {
                16
            } else {
                64nat
            }
            &&& exists|at: Seq<nat>|
                {
                    &&& at.len() == xs.len() + 1 && at[0] == p && at[xs.len() as int] == q
                    &&& forall|i: int|
                        0 <= i < xs.len() ==> {
                            let c = cursor(s, #[trigger] at[i]);
                            let d = c.next_se();
                            let prev = if i == 0 {
                                dc
                            } else {
                                xs[i - 1]
                            };
                            if id > 25 && scan_at(i as nat).0 >= 4 && scan_at(i as nat).1 >= 4 {
                                xs[i] == prev && c.ends(at[i + 1])
                            } else {
                                xs[i] == (prev + d) as i32 && -128 <= d <= 127 && c.se(d).ends(at[i + 1])
                            }
                        }
                }
        },
{
    reveal(coefs_at);
    let f = coef_item(s, id, dc);
    let n = coef_count(id, explicit);
    if let Ok((ys, r)) = rep_at(f, p, n) {
        let at = lemma_rep_places(f, p, n);
        assert(at.len() == ys.len() + 1 && at[0] == p && at[ys.len() as int] == r);
        assert forall|i: int| 0 <= i < ys.len() implies ({
            let c = cursor(s, #[trigger] at[i]);
            let d = c.next_se();
            let prev = if i == 0 {
                dc
            } else {
                ys[i - 1]
            };
            if id > 25 && scan_at(i as nat).0 >= 4 && scan_at(i as nat).1 >= 4 {
                ys[i] == prev && c.ends(at[i + 1])
            } else {
                ys[i] == (prev + d) as i32 && -128 <= d <= 127 && c.se(d).ends(at[i + 1])
            }
        }) by {
            assert(f(ys.take(i), at[i]) == Ok::<(i32, nat), Fault>((ys[i], at[i + 1])));
        }
    }
}

/// The scaling lists are 28 coded lists, in the order of their ids. The last 14 have
/// a DC coefficient, and a list of less than 64 coefficients has zeros behind them.
#[verifier::rlimit(60)]
#[verifier::spinoff_prover]
pub proof fn law_layout_scaling_data(
    s: Seq<bool>,
    p: nat,
    chroma_present: bool,
    x: VvcScalingListDataModel,
    q: nat,
)
    ensures
        scaling_data_at(s, p, chroma_present) is Ok <==> scaling_entries_at(s, p, chroma_present, 28) is Ok,
        scaling_data_at(s, p, chroma_present) == Ok::<(VvcScalingListDataModel, nat), Fault>((x, q)) ==> ({
            let b = cursor(s, p).next(|p: nat| scaling_entries_at(s, p, chroma_present, 28));
            &&& cursor(s, p).part(|p: nat| scaling_entries_at(s, p, chroma_present, 28), b).ends(q)
            &&& x.copy_mode_flag.len() == 28 && x.pred_mode_flag.len() == 28 && x.pred_id_delta.len() == 28
            &&& x.dc_coef.len() == 14 && x.scaling_list.len() == 28
            &&& forall|i: int| 0 <= i < 28 ==> #[trigger] x.copy_mode_flag[i] == b[i].copy
            &&& forall|i: int| 0 <= i < 28 ==> #[trigger] x.pred_mode_flag[i] == b[i].pred
            &&& forall|i: int| 0 <= i < 28 ==> #[trigger] x.pred_id_delta[i] == b[i].delta
            &&& forall|i: int| 0 <= i < 14 ==> #[trigger] x.dc_coef[i] == b[14 + i].dc
            &&& forall|i: int, j: int|
                0 <= i < 28 && 0 <= j < 64 ==> #[trigger] x.scaling_list[i][j] == if j < b[i].coefs.len() {
                    b[i].coefs[j]
                } else {
                    0
                }
        }),
{
    reveal(scaling_data_at);
}

/// The matrices of luma are coded always, those of chroma where there is chroma: every
/// third one, and the last one, is of luma.
pub proof fn law_id_coded(id: int)
    requires
        0 <= id < 28,
    ensures
        id_coded(id, true),
        id_coded(id, false)
            <==> id == 2
            || id == 5
            || id == 8
            || id == 11
            || id == 14
            || id == 17
            || id == 20
            || id == 23
            || id == 26 || id == 27,
        matrix_len(id as u64) == if id < 2 {
            4nat
        } else if id < 8 {
            16
        } else {
            64
        },
{
}

/// The payload of an APS goes by its type: 0 for ALF, 1 for LMCS and 2 for scaling
/// lists, with ids up to 7, 3 and 7. Other types are not supported.
pub proof fn law_layout_aps_payload(
    s: Seq<bool>,
    p: nat,
    t: u8,
    id: u8,
    chroma_present: bool,
    x: VvcApsPayloadModel,
    q: nat,
)
    ensures
        aps_payload_at(s, p, t, id, chroma_present) == Ok::<(VvcApsPayloadModel, nat), Fault>((x, q)) <==> match x {
            VvcApsPayloadModel::Alf(d) => {
                &&& t == 0 && id <= 7
                &&& cursor(s, p).part(|p: nat| alf_data_at(s, p, chroma_present), d).ends(q)
            },
            VvcApsPayloadModel::Lmcs(d) => {
                &&& t == 1 && id <= 3
                &&& cursor(s, p).part(|p: nat| lmcs_data_at(s, p, chroma_present), d).ends(q)
            },
            VvcApsPayloadModel::ScalingList(d) => {
                &&& t == 2 && id <= 7
                &&& cursor(s, p).part(|p: nat| scaling_data_at(s, p, chroma_present), d).ends(q)
            },
        },
        t > 2 ==> aps_payload_at(s, p, t, id, chroma_present) == Err::<(VvcApsPayloadModel, nat), Fault>(
            Fault::Unsupported,
        ),
{
    reveal(aps_payload_at);
}

/// What an APS is made of: three bits of type, five of id, the chroma flag, the
/// payload, the extension flag and, unless there is extension data, the trailing bits.
pub proof fn law_layout_aps(s: Seq<bool>, p: nat, x: VvcApsModel, q: nat)
    ensures
        aps_at(s, p) == Ok::<(VvcApsModel, nat), Fault>((x, q)) <==> ({
            let c = cursor(s, p)
                .u8(3, x.aps_params_type)
                .u8(5, x.aps_adaptation_parameter_set_id)
                .flag(x.aps_chroma_present_flag)
                .part(
                    |p: nat|
                        aps_payload_at(
                            s,
                            p,
                            x.aps_params_type,
                            x.aps_adaptation_parameter_set_id,
                            x.aps_chroma_present_flag,
                        ),
                    x.payload,
                )
                .flag(x.aps_extension_flag);
            if x.aps_extension_flag {
                c.ends(q)
            } else {
                c.part(|p: nat| tail_at(s, p, false), Seq::empty()).ends(q)
            }
        }),
{
    reveal(aps_at);
    reveal(tail_at);
}

/// An APS is what stands behind the two header bytes of a NAL unit of type 17 or 18.
pub proof fn law_aps_nal(b: Seq<u8>)
    ensures
        aps_of_nal(b) == if b.len() < 2 {
            Err(Fault::End)
        } else if b[0] >= 128 || (b[1] / 8 != 17 && b[1] / 8 != 18) {
            Err(Fault::Invalid)
        } else {
            match aps_at(bits_of(unescape(b.skip(2))), 0) {
                Ok((x, _)) => Ok(x),
                Err(f) => Err(f),
            }
        },
{
}

/// What the writer accepts as an APS reads back, and one with extension data is
/// refused as not supported.
pub proof fn law_reads_aps(x: VvcApsModel, r: Seq<u8>, t: u8)
    requires
        aps_can(x),
        match x.payload {
            VvcApsPayloadModel::Alf(d) => alf_data_ok(d, x.aps_chroma_present_flag),
            VvcApsPayloadModel::Lmcs(d) => lmcs_data_ok(d, x.aps_chroma_present_flag),
            VvcApsPayloadModel::ScalingList(d) => scaling_data_ok(d, x.aps_chroma_present_flag),
        },
        bits_of(r) == aps_bits(x),
        r.len() <= usize::MAX,
        t == 17 || t == 18,
    ensures
        !x.aps_extension_flag,
        aps_of_rbsp(r) == Ok::<VvcApsModel, Fault>(x),
        aps_of_nal(nal_of_rbsp(t, r)) == Ok::<VvcApsModel, Fault>(x),
        forall|y: VvcApsModel| #[trigger] aps_fault(y) == if y.aps_extension_flag {
            Fault::Unsupported
        } else {
            Fault::Invalid
        },
{
    reveal(aps_can);
    assert(aps_ok(x)) by {
        reveal(aps_ok);
        reveal(aps_payload_ok);
    }
    law_parse_written_aps(x, r, t);
}

/// Reading the coefficients fails only as invalid.
pub broadcast proof fn law_faults_coefs(s: Seq<bool>, p: nat, id: u64, explicit: bool, dc: i32)
    ensures
        #[trigger] coefs_at(s, p, id, explicit, dc) matches Err(f) ==> f == Fault::Invalid,
{
    broadcast use crate::bits::law_faults_se;

    reveal(coefs_at);
    lemma_rep_faults(coef_item(s, id, dc), p, coef_count(id, explicit), |f: Fault| f == Fault::Invalid);
}

/// Each field of the model of a [`VvcScalingListData`] is the field of that name.
pub proof fn law_fields_of_scaling_list_data(x: VvcScalingListData)
    ensures
        x@.copy_mode_flag == x.copy_mode_flag@,
        x@.pred_mode_flag == x.pred_mode_flag@,
        x@.pred_id_delta == x.pred_id_delta@,
        x@.dc_coef == x.dc_coef@,
        x@.scaling_list == seq_view(x.scaling_list@),
{
}

/// Each kind of [`VvcApsPayload`] has the model of that kind, with the same contents.
pub proof fn law_fields_of_aps_payload(x: VvcApsPayload)
    ensures
        match x {
            VvcApsPayload::Alf(d) => x@ == VvcApsPayloadModel::Alf(d@),
            VvcApsPayload::Lmcs(d) => x@ == VvcApsPayloadModel::Lmcs(d@),
            VvcApsPayload::ScalingList(d) => x@ == VvcApsPayloadModel::ScalingList(d@),
        },
{
}

/// Each field of the model of a [`VvcAps`] is the field of that name.
pub proof fn law_fields_of_aps(x: VvcAps)
    ensures
        x@.aps_params_type == x.aps_params_type,
        x@.aps_adaptation_parameter_set_id == x.aps_adaptation_parameter_set_id,
        x@.aps_chroma_present_flag == x.aps_chroma_present_flag,
        x@.payload == x.payload@,
        x@.aps_extension_flag == x.aps_extension_flag,
{
}

/// A bound on all items.
pub proof fn law_all_at_most(v: Seq<u8>, max: u32, i: int)
    ensures
        all_at_most(v, max) && 0 <= i < v.len() ==> v[i] <= max,
        (forall|k: int| 0 <= k < v.len() ==> #[trigger] v[k] <= max) ==> all_at_most(v, max),
{
}

/// The last bin of LMCS is 15 less the coded difference, and not below 0.
pub proof fn law_lmcs_max_bin_idx(x: VvcLmcsData, n: u32)
    requires
        call_ensures(VvcLmcsData::lmcs_max_bin_idx, (&x,), n),
    ensures
        x.lmcs_delta_max_bin_idx <= 15 ==> n + x.lmcs_delta_max_bin_idx == 15,
        x.lmcs_delta_max_bin_idx > 15 ==> n == 0,
{
}

/// An APS is written as its bits, or as a NAL unit of type 17 or 18. With extension data
/// it is refused as not supported.
pub proof fn law_write_aps(
    x: VvcAps,
    t: u8,
    rbsp: Result<Vec<u8>, BitstreamError>,
    nal: Result<Vec<u8>, BitstreamError>,
)
    requires
        call_ensures(write_aps, (&x,), rbsp),
        call_ensures(write_aps_nal, (&x, t), nal),
    ensures
        rbsp is Ok <==> aps_can(x@),
        nal is Ok <==> aps_can(x@) && (t == 17 || t == 18),
        rbsp matches Ok(b) ==> bits_of(b@) == put_aps(Seq::empty(), x@),
        rbsp matches Err(e) ==> e.fault() == if x.aps_extension_flag {
            Fault::Unsupported
        } else {
            Fault::Invalid
        },
        match (rbsp, nal) {
            (Ok(r), Ok(n)) => n@ == seq![0u8, (8 * t + 1) as u8] + escape(r@, 0),
            _ => true,
        },
{
    if let (Ok(r), Ok(n)) = (rbsp, nal) {
        let b = choose|b: Seq<u8>| #[trigger] bits_of(b) == aps_bits(x@) && n@ == nal_of_rbsp(t, b);
        lemma_bits_of_injective(b, r@);
    }
}

} // verus!
