//! HEVC / H.265 minimal IDR header parsing.
//!
//! This module parses just enough VPS / SPS / PPS / slice-segment
//! header to populate the slice-data HW backends' parameter buffers:
//! enough fields to drive the GPU decode of an IDR access unit, nothing
//! more.
//!
//! The VPS / SPS / PPS walks are complete through their extension
//! flags: scaling lists (§7.3.4), PCM (§7.3.2.2.1), short-term RPS
//! with full §7.4.8 inter-set-prediction derivation (7-59..7-71),
//! long-term RPS, VUI/HRD (§E.2.1/§E.2.2/§E.2.3), tiles, WPP and the
//! range extensions (§7.3.2.2.2/§7.3.2.3.2) all parse. Still refused
//! (returned as [`BitstreamError::Unsupported`]):
//!
//! - SCC / Scalable / Multiview / 3D extension payloads (the presence
//!   flags themselves parse).
//! - Dependent slice segments in the *slice-header* walk.
//!
//! For each structure `x` the function `x_at` says what is read at a
//! position of the bits; bits past the end read as zero.
use crate::bit_reader::{BitReader, read_is, read_seq_is, read_vec_is, read_view_is};
use crate::bit_writer::BitWriter;
use crate::bits::{
    Read, adv, adv_if, bits_left, bits_of, flag_at, flag_if, flags_at, law_faults_flags,
    law_faults_se, law_faults_ue, law_faults_ues, law_fits_small, law_pre_put_u, law_put_u_at,
    law_u8_fits, lemma_bits_of_injective, lemma_bits_of_len, lemma_log2, lemma_pad_aligned,
    lemma_pow2_le, lemma_put_u_shape, lemma_rep_err, lemma_rep_faults, lemma_rep_faults_none,
    lemma_rep_step, lemma_seq_view_push, lemma_trailing_shape, lemma_uval_bound, opt_view, pre,
    put_trailing, put_u, read_some, rep_at, se_at, se_if, seq_view, tail_at, trailing_at,
    u16_if, u32_at, u32_if, u8_at, u8_if, ue_at, ue_if, ues_at, upto, within,
};
use crate::layout::cursor;
use crate::h266::params::{ceil_log2, ceil_log2_u64};
pub use crate::nal::ebsp_to_rbsp;
use crate::nal::{
    annex_b_nals, bodies_from, find_start, law_next_start, lemma_next_start, next_start,
    start_code, start_code_at, unescape,
};
use crate::message::Message;
use crate::{BitstreamError, Fault};
use vstd::arithmetic::power2::{lemma2_to64, pow2};
use vstd::prelude::*;
use vstd::slice::slice_subrange;

pub mod sei;

verus! {

// ─────────────────────────── NAL unit types ──────────────────────────────────

/// 7.4.2.2 — IDR_W_RADL slice.
pub const NAL_TYPE_IDR_W_RADL: u8 = 19;

/// 7.4.2.2 — IDR_N_LP slice.
pub const NAL_TYPE_IDR_N_LP: u8 = 20;

/// 7.4.2.2 — CRA slice.
pub const NAL_TYPE_CRA: u8 = 21;

/// 7.4.2.2 — VPS_NUT.
pub const NAL_TYPE_VPS: u8 = 32;

/// 7.4.2.2 — SPS_NUT.
pub const NAL_TYPE_SPS: u8 = 33;

/// 7.4.2.2 — PPS_NUT.
pub const NAL_TYPE_PPS: u8 = 34;

/// 7.4.2.2 — AUD_NUT.
pub const NAL_TYPE_AUD: u8 = 35;

// ─────────────────────────── Annex-B framing ─────────────────────────────────

/// The NAL units of an Annex-B byte stream, none without a start code.
pub open spec fn nals_of(b: Seq<u8>) -> Seq<Seq<u8>> {
    match annex_b_nals(b) {
        Some(nals) => nals,
        None => Seq::empty(),
    }
}

/// A NAL unit of an Annex-B byte stream: where its start code starts, and where
/// its body starts and ends.
#[derive(Debug, Clone, Copy)]
pub struct NalLoc {
    pub start_code_start: usize,
    pub body_start: usize,
    pub body_end: usize,
}

/// The positions of the start codes from the one at `e` on.
pub open spec fn starts_from(b: Seq<u8>, e: int) -> Seq<int>
    decreases b.len() - e,
    when 0 <= e <= b.len()
    via starts_decreases
{
    if e >= b.len() || start_code(b, e) <= 0 {
        Seq::empty()
    } else {
        seq![e] + starts_from(b, next_start(b, e + start_code(b, e)))
    }
}

#[via_fn]
proof fn starts_decreases(b: Seq<u8>, e: int) {
    if start_code(b, e) > 0 {
        lemma_next_start(b, e + start_code(b, e));
    }
}

/// The body behind the start code at `e`.
pub open spec fn body_at(b: Seq<u8>, e: int) -> Seq<u8> {
    b.subrange(e + start_code(b, e), next_start(b, e + start_code(b, e)))
}

/// The positions of all start codes.
pub open spec fn starts_of(b: Seq<u8>) -> Seq<int> {
    starts_from(b, next_start(b, 0))
}

proof fn lemma_bodies_are(b: Seq<u8>, e: int)
    requires
        0 <= e < b.len(),
        start_code(b, e) > 0,
    ensures
        bodies_from(b, e + start_code(b, e)).len() == starts_from(b, e).len(),
        forall|k: int|
            0 <= k < starts_from(b, e).len() ==> #[trigger] bodies_from(b, e + start_code(b, e))[k] == body_at(
                b,
                starts_from(b, e)[k],
            ),
    decreases b.len() - e,
{
    let i = e + start_code(b, e);
    lemma_next_start(b, i);
    let n = next_start(b, i);
    if n < b.len() {
        lemma_bodies_are(b, n);
        assert forall|k: int| 0 <= k < starts_from(b, e).len() implies #[trigger] bodies_from(b, i)[k] == body_at(
            b,
            starts_from(b, e)[k],
        ) by {
            if k > 0 {
                assert(bodies_from(b, i)[k] == bodies_from(b, n + start_code(b, n))[k - 1]);
                assert(starts_from(b, e)[k] == starts_from(b, n)[k - 1]);
            }
        }
    } else {
        assert(starts_from(b, n) =~= Seq::empty());
        assert(b.skip(i) =~= b.subrange(i, n));
    }
}

/// The bodies behind the start codes are the NAL units of the stream.
pub proof fn law_nals_are_bodies(b: Seq<u8>)
    ensures
        nals_of(b).len() == starts_of(b).len(),
        forall|k: int| 0 <= k < starts_of(b).len()
            ==> #[trigger] nals_of(b)[k] == body_at(b, starts_of(b)[k]),
{
    lemma_next_start(b, 0);
    if next_start(b, 0) < b.len() {
        lemma_bodies_are(b, next_start(b, 0));
    }
}

/// The location `l` is that of the NAL unit whose start code stands at `e`.
pub open spec fn is_loc(b: Seq<u8>, l: NalLoc, e: int) -> bool {
    &&& l.start_code_start == e
    &&& l.body_start == e + start_code(b, e)
    &&& l.body_end == next_start(b, l.body_start as int)
    &&& l.start_code_start <= l.body_start <= l.body_end <= b.len()
}

fn locate_annex_b(buf: &[u8]) -> (out: Vec<NalLoc>)
    ensures
        out@.len() == starts_of(buf@).len(),
        forall|k: int| 0 <= k < out@.len() ==> is_loc(buf@, #[trigger] out@[k], starts_of(buf@)[k]),
{
    let mut out: Vec<NalLoc> = Vec::new();
    let ghost all = starts_of(buf@);
    let mut e: usize = find_start(buf, 0);
    proof {
        assert(all.skip(0) =~= all);
        lemma_next_start(buf@, 0);
    }
    while e < buf.len()
        invariant
            e <= buf@.len(),
            e < buf@.len() ==> start_code(buf@, e as int) > 0,
            all == starts_of(buf@),
            out@.len() <= all.len(),
            all.skip(out@.len() as int) == starts_from(buf@, e as int),
            forall|k: int| 0 <= k < out@.len() ==> is_loc(buf@, #[trigger] out@[k], all[k]),
        decreases buf@.len() - e,
    {
        let ghost n = out@.len() as int;
        let body_start: usize = e + start_code_at(buf, e);
        let body_end: usize = find_start(buf, body_start);
        proof {
            lemma_next_start(buf@, body_start as int);
            let rest = all.skip(n);
            assert(rest == seq![e as int] + starts_from(buf@, body_end as int));
            assert(rest.len() > 0);
            assert(rest[0] == all[n]);
            assert(all.skip(n + 1) =~= rest.skip(1));
            assert(rest.skip(1) =~= starts_from(buf@, body_end as int));
        }
        out.push(NalLoc { start_code_start: e, body_start, body_end });
        e = body_end;
    }
    proof {
        assert(all.skip(out@.len() as int).len() == 0);
    }
    out
}

/// Locate every NAL unit in an Annex-B HEVC bitstream and return
/// slices pointing at the NAL body (start code stripped, two-byte
/// NAL header at index 0..1, emulation bytes still in place; strip
/// those with [`ebsp_to_rbsp`] before bit-level parsing).
pub fn split_annex_b<'a>(buf: &'a [u8]) -> (out: Vec<&'a [u8]>)
    ensures
        seq_view(out@) == nals_of(buf@),
{
    let locs = locate_annex_b(buf);
    let mut out: Vec<&'a [u8]> = Vec::new();
    let mut i: usize = 0;
    while i < locs.len()
        invariant
            i <= locs@.len(),
            locs@.len() == starts_of(buf@).len(),
            forall|k: int| 0 <= k < locs@.len() ==> is_loc(buf@, #[trigger] locs@[k], starts_of(buf@)[k]),
            out@.len() == i,
            forall|k: int| 0 <= k < i ==> (#[trigger] out@[k])@ == body_at(buf@, starts_of(buf@)[k]),
        decreases locs@.len() - i,
    {
        let l: NalLoc = locs[i];
        assert(is_loc(buf@, locs@[i as int], starts_of(buf@)[i as int]));
        out.push(slice_subrange(buf, l.body_start, l.body_end));
        i = i + 1;
    }
    proof {
        law_nals_are_bodies(buf@);
        assert(seq_view(out@) =~= nals_of(buf@));
    }
    out
}

/// Inspect the two-byte HEVC NAL header. Returns
/// `(forbidden_zero_bit, nal_unit_type, layer_id, temporal_id_plus1)`.
pub fn nal_header(b0: u8, b1: u8) -> (h: (u8, u8, u8, u8))
    ensures
        h.0 == b0 / 128,
        h.1 == nal_type_of(b0),
        h.2 == b0 % 2 * 32 + b1 / 8,
        h.3 == b1 % 8,
{
    (b0 / 128, b0 / 2 % 64, b0 % 2 * 32 + b1 / 8, b1 % 8)
}

/// The NAL unit type in the first byte of a NAL unit.
pub open spec fn nal_type_of(b0: u8) -> u8 {
    b0 / 2 % 64
}

/// The NAL unit type `t` is that of an entry point.
pub open spec fn irap_type(t: u8) -> bool {
    t == NAL_TYPE_IDR_W_RADL || t == NAL_TYPE_IDR_N_LP || t == NAL_TYPE_CRA
}

/// True if `nal_unit_type` is one of the IRAP slice types that this
/// crate treats as a decode entry point (IDR_W_RADL / IDR_N_LP / CRA).
pub fn is_irap(nal_unit_type: u8) -> (b: bool)
    ensures
        b == irap_type(nal_unit_type),
{
    nal_unit_type == NAL_TYPE_IDR_W_RADL
        || nal_unit_type == NAL_TYPE_IDR_N_LP
        || nal_unit_type == NAL_TYPE_CRA
}

/// The RBSP that the NAL unit `b` carries, which must be of type `want`.
pub open spec fn hevc_rbsp_of_nal(b: Seq<u8>, want: u8) -> Result<Seq<u8>, Fault> {
    if b.len() < 2 {
        Err(Fault::End)
    } else if nal_type_of(b[0]) != want {
        Err(Fault::Invalid)
    } else {
        Ok(unescape(b.skip(2)))
    }
}

/// The RBSP of a NAL unit of type `want`, which an error calls by `name`.
fn hevc_nal_rbsp(nal: &[u8], want: u8, name: &str) -> (res: Result<Vec<u8>, BitstreamError>)
    ensures
        match hevc_rbsp_of_nal(nal@, want) {
            Ok(r) => res matches Ok(v) && v@ == r,
            Err(f) => res matches Err(e) && e.fault() == f,
        },
{
    if nal.len() < 2 {
        return Err(
            if want == NAL_TYPE_AUD {
                BitstreamError::unexpected_end("AUD NAL needs at least the 2-byte header")
            } else {
                Message::new("").with(name).with(" NAL shorter than 2 bytes").unexpected_end()
            },
        );
    }
    let (_, nal_type, _, _) = nal_header(nal[0], nal[1]);
    if nal_type != want {
        return Err(
            Message::new("expected ")
                .with(name)
                .with(" NAL (type=")
                .num(want as i128)
                .with("), got type=")
                .num(nal_type as i128)
                .invalid(),
        );
    }
    proof {
        assert(nal@.subrange(2, nal@.len() as int) =~= nal@.skip(2));
    }
    Ok(ebsp_to_rbsp(slice_subrange(nal, 2, nal.len())))
}

/// What the structure read at the start of the RBSP of a NAL unit is.
pub open spec fn rbsp_read<T>(
    rbsp: Result<Seq<u8>,
    Fault>,
    reads: spec_fn(Seq<bool>) -> Read<T>,
) -> Result<T, Fault> {
    match rbsp {
        Err(f) => Err(f),
        Ok(r) => match reads(bits_of(r)) {
            Err(f) => Err(f),
            Ok((x, _)) => Ok(x),
        },
    }
}

// ─────────────────────────── profile_tier_level() ───────────────────────────

/// Profile / tier / level info from `profile_tier_level()`. Just the
/// fields the HW backends look at; the 32 sub-layer profiles and
/// flags are intentionally skipped.
#[derive(Debug, Clone, Default, PartialEq, Eq)]
pub struct HevcProfileTierLevel {
    pub general_profile_space: u8,
    pub general_tier_flag: bool,
    pub general_profile_idc: u8,
    /// 32-bit packed `general_profile_compatibility_flag[0..32]`.
    pub general_profile_compatibility_flags: u32,
    pub general_level_idc: u8,
}

/// Conformance cropping rectangle, in units of the chroma sampling grid.
#[derive(Debug, Clone, Copy, Default, PartialEq, Eq)]
pub struct HevcConformanceWindow {
    pub left: u32,
    pub right: u32,
    pub top: u32,
    pub bottom: u32,
}

/// The profile and level of sub-layer `k` at position `p`, which are only
/// skipped.
#[verifier::opaque]
pub open spec fn h_ptl_sub_at(s: Seq<bool>, p: nat, k: u64, flags: Seq<bool>) -> Read<u8> {
    let profile = flags[2 * k];
    let level = flags[2 * k + 1];
    let _profile_top = u32_if(s, p, 32, profile, 0);
    let p = adv_if(p, 32, profile);
    let _profile_mid = u32_if(s, p, 32, profile, 0);
    let p = adv_if(p, 32, profile);
    let _profile_low = u32_if(s, p, 24, profile, 0);
    let p = adv_if(p, 24, profile);
    let _level_idc = u8_if(s, p, 8, level, 0);
    let p = adv_if(p, 8, level);
    Ok((0u8, p))
}

/// Parses the profile and level of sub-layer `k`.
fn parse_h_ptl_sub(r: &mut BitReader<'_>, k: u64, flags: &Vec<bool>) -> (res: Result<u8, BitstreamError>)
    requires
        k < 7,
        2 * k + 1 < flags@.len(),
    ensures
        read_is(h_ptl_sub_at(old(r).bits(), old(r).pos(), k, flags@), res, *old(r), *final(r)),
{
    proof {
        reveal(h_ptl_sub_at);
    }
    let profile: bool = flags[2 * k as usize];
    let level: bool = flags[2 * k as usize + 1];
    let _profile_top: u32 = r.u_if(32, profile, 0);
    let _profile_mid: u32 = r.u_if(32, profile, 0);
    let _profile_low: u32 = r.u_if(24, profile, 0);
    let _level_idc: u8 = r.u8_if(8, level, 0);
    Ok(0u8)
}

/// The layout of the profile and level of sub-layer `k`: reading at `p` gives
/// `x` and ends at `q` if and only if these elements stand there in this order,
/// and the values are allowed.
pub proof fn law_layout_h_ptl_sub(s: Seq<bool>, p: nat, k: u64, flags: Seq<bool>, x: u8, q: nat)
    ensures
        h_ptl_sub_at(s, p, k, flags) == Ok::<(u8, nat), Fault>((x, q)) <==> ({
            let profile = flags[2 * k];
            let level = flags[2 * k + 1];
            &&& cursor(s, p)
                .skip_if(profile, 32)
                .skip_if(profile, 32)
                .skip_if(profile, 24)
                .skip_if(level, 8)
                .ends(q)
            &&& x == 0u8
        }),
{
    reveal(h_ptl_sub_at);
    reveal(adv_if);
    reveal(u32_if);
    reveal(u8_if);
}

/// Reading the profile and level of sub-layer `k` never fails.
pub broadcast proof fn law_faults_h_ptl_sub(s: Seq<bool>, p: nat, k: u64, flags: Seq<bool>)
    ensures
        #[trigger] h_ptl_sub_at(s, p, k, flags) is Ok,
{
    reveal(h_ptl_sub_at);
}

/// Reads the profile and level of sub-layer `k`, behind the items before it.
pub open spec fn h_ptl_subs_item(s: Seq<bool>, flags: Seq<bool>) -> spec_fn(Seq<u8>, nat) -> Read<u8> {
    |done: Seq<u8>, q: nat| h_ptl_sub_at(s, q, done.len() as u64, flags)
}

/// `n` items at position `p`, each the profile and level of sub-layer `k`.
#[verifier::opaque]
pub open spec fn h_ptl_subs_at(s: Seq<bool>, p: nat, flags: Seq<bool>, n: u64) -> Read<Seq<u8>> {
    rep_at(h_ptl_subs_item(s, flags), p, n as nat)
}

/// Parses `n` items, each the profile and level of sub-layer `k`.
fn parse_h_ptl_subs(
    r: &mut BitReader<'_>,
    flags: &Vec<bool>,
    n: u64,
) -> (res: Result<Vec<u8>, BitstreamError>)
    requires
        n <= 7,
        2 * n <= flags@.len(),
    ensures
        read_vec_is(h_ptl_subs_at(old(r).bits(), old(r).pos(), flags@, n), res, *old(r), *final(r)),
        res matches Ok(v) ==> v@.len() == n,
{
    let ghost s = r.bits();
    let ghost p = r.pos();
    let ghost reads = h_ptl_subs_item(s, flags@);
    let mut xs: Vec<u8> = Vec::new();
    let mut i: u64 = 0;
    proof {
        reveal(h_ptl_subs_at);
    }
    while i < n
        invariant
            i <= n,
            xs@.len() == i,
                n <= 7,
                2 * n <= flags@.len(),
            reads == h_ptl_subs_item(s, flags@),
            s == r.bits(),
            s == old(r).bits(),
            p == old(r).pos(),
            r.bytes() == old(r).bytes(),
            rep_at(reads, p, i as nat) == Ok::<(Seq<u8>, nat), Fault>((xs@, r.pos())),
        decreases n - i,
    {
        match parse_h_ptl_sub(r, i, flags) {
            Ok(x) => {
                xs.push(x);
            },
            Err(e) => {
                proof {
                    reveal(h_ptl_subs_at);
                    lemma_rep_err(reads, p, (i + 1) as nat, n as nat);
                }
                return Err(e);
            },
        }
        i = i + 1;
    }
    Ok(xs)
}

/// `n` items stand one behind the other: `n - 1` items, and then the profile
/// and level of sub-layer `k`.
pub proof fn law_layout_h_ptl_subs(s: Seq<bool>, p: nat, flags: Seq<bool>, n: u64, xs: Seq<u8>, q: nat)
    ensures
        h_ptl_subs_at(s, p, flags, n) == Ok::<(Seq<u8>, nat), Fault>((xs, q)) <==> if n == 0 {
            xs.len() == 0 && q == p
        } else {
            &&& xs.len() == n
            &&& cursor(s, p)
                .part(|p: nat| h_ptl_subs_at(s, p, flags, (n - 1) as u64), xs.drop_last())
                .part(|p: nat| h_ptl_sub_at(s, p, (n - 1) as u64, flags), xs.last())
                .ends(q)
        },
{
    reveal(h_ptl_subs_at);
    lemma_rep_step(h_ptl_subs_item(s, flags), p, n as nat);
    if xs.len() == 0 {
        assert(xs =~= Seq::empty());
    } else {
        assert(xs =~= xs.drop_last().push(xs.last()));
    }
    if n > 0 {
        if let Ok((done, r)) = rep_at(h_ptl_subs_item(s, flags), p, (n - 1) as nat) {
            if let Ok((y, z)) = h_ptl_subs_item(s, flags)(done, r) {
                assert(done.push(y).drop_last() =~= done);
            }
        }
    }
}

/// Reading the items never fails.
pub broadcast proof fn law_faults_h_ptl_subs(s: Seq<bool>, p: nat, flags: Seq<bool>, n: u64)
    ensures
        #[trigger] h_ptl_subs_at(s, p, flags, n) is Ok,
{
    broadcast use law_faults_h_ptl_sub;

    reveal(h_ptl_subs_at);
    let f = h_ptl_subs_item(s, flags);
    assert forall|done: Seq<u8>, q: nat| (#[trigger] f(done, q)) is Ok by {}
    lemma_rep_faults_none(f, p, n as nat);
}

/// `profile_tier_level(1, max)` at position `p`. Constraint flags and
/// sub-layers are skipped.
#[verifier::opaque]
pub open spec fn h_ptl_at(s: Seq<bool>, p: nat, max: u8) -> Read<HevcProfileTierLevel> {
    let general_profile_space = u8_at(s, p, 2);
    let p = adv(p, 2);
    let general_tier_flag = flag_at(s, p);
    let p = adv(p, 1);
    let general_profile_idc = u8_at(s, p, 5);
    let p = adv(p, 5);
    let general_profile_compatibility_flags = u32_at(s, p, 32);
    let p = adv(p, 32);
    let _constraint_top = u32_at(s, p, 32);
    let p = adv(p, 32);
    let _constraint_low = u32_at(s, p, 16);
    let p = adv(p, 16);
    let general_level_idc = u8_at(s, p, 8);
    let p = adv(p, 8);
    match flags_at(s, p, ((2 * max) as u64) as nat) { Err(f) => Err(f), Ok((present, p)) => {
    let _reserved = u32_at(s, p, ((if max > 0 { (16 - 2 * max) as u32 } else { 0u32 })) as nat);
    let p = adv(p, ((if max > 0 { (16 - 2 * max) as u32 } else { 0u32 })) as nat);
    match h_ptl_subs_at(s, p, present, max as u64) { Err(f) => Err(f), Ok((_subs, p)) => {
    Ok((HevcProfileTierLevel {
        general_profile_space,
        general_tier_flag,
        general_profile_idc,
        general_profile_compatibility_flags,
        general_level_idc,
    }, p)) }}}}
}

/// Parses `profile_tier_level(1, max)`.
fn parse_h_ptl(r: &mut BitReader<'_>, max: u8) -> (res: Result<HevcProfileTierLevel, BitstreamError>)
    requires
        max <= 7,
    ensures
        read_is(h_ptl_at(old(r).bits(), old(r).pos(), max), res, *old(r), *final(r)),
{
    proof {
        reveal(h_ptl_at);
    }
    let general_profile_space: u8 = r.u8(2);
    let general_tier_flag: bool = r.flag();
    let general_profile_idc: u8 = r.u8(5);
    let general_profile_compatibility_flags: u32 = r.u(32);
    let _constraint_top: u32 = r.u(32);
    let _constraint_low: u32 = r.u(16);
    let general_level_idc: u8 = r.u8(8);
    let present = r.read_flags((2 * max) as u64);
    let _reserved: u32 = r.u((if max > 0 { (16 - 2 * max) as u32 } else { 0u32 }));
    let _subs = parse_h_ptl_subs(r, &present, max as u64)?;
    Ok(HevcProfileTierLevel {
        general_profile_space,
        general_tier_flag,
        general_profile_idc,
        general_profile_compatibility_flags,
        general_level_idc,
    })
}

/// The layout of `profile_tier_level(1, max)`: reading at `p` gives `x` and
/// ends at `q` if and only if these elements stand there in this order.
pub proof fn law_layout_h_ptl(s: Seq<bool>, p: nat, max: u8, x: HevcProfileTierLevel, q: nat)
    ensures
        h_ptl_at(s, p, max) == Ok::<(HevcProfileTierLevel, nat), Fault>((x, q)) <==> ({
            let c = cursor(s, p)
                .u8(2, x.general_profile_space)
                .flag(x.general_tier_flag)
                .u8(5, x.general_profile_idc)
                .u32(32, x.general_profile_compatibility_flags)
                .skip(32)
                .skip(16)
                .u8(8, x.general_level_idc);
            let present = c.next(|p: nat| flags_at(s, p, ((2 * max) as u64) as nat));
            &&& c
                .part(|p: nat| flags_at(s, p, ((2 * max) as u64) as nat), present)
                .skip(((if max > 0 { (16 - 2 * max) as u32 } else { 0u32 })) as nat)
                .any(|p: nat| h_ptl_subs_at(s, p, present, max as u64))
                .ends(q)
        }),
{
    reveal(h_ptl_at);
}

/// Reading `profile_tier_level(1, max)` never fails.
pub broadcast proof fn law_faults_h_ptl(s: Seq<bool>, p: nat, max: u8)
    ensures
        #[trigger] h_ptl_at(s, p, max) is Ok,
{
    broadcast use {crate::bits::law_faults_flags, law_faults_h_ptl_subs};

    reveal(h_ptl_at);
}

// ─────────────────────────── Scaling lists (§7.3.4) ─────────────────────────

/// Scaling list data (§7.3.4). Four size classes × six matrix ids
/// (for `sizeId == 3` only matrix ids 0 and 3 are coded — the loop
/// steps by 3).
///
/// * `pred_mode_flag[s][m] == false` — the list is predicted:
///   `pred_matrix_id_delta[s][m] == 0` selects the default matrix
///   (§7.4.5), otherwise it references matrix `m - delta` (for
///   `sizeId == 3`, `m - delta * 3`).
/// * `pred_mode_flag[s][m] == true` — explicit coefficients, in the
///   up-right diagonal coding order the §7.3.4 pseudo-code produces.
///   `coeffs` holds `Min(64, (1 << (4 + (sizeId << 1))))` entries
///   (16 for `sizeId == 0`, else 64); `dc_coef_minus8` is coded for
///   `sizeId > 1`.
#[derive(Debug, Clone, PartialEq, Eq)]
pub struct HevcScalingListData {
    pub pred_mode_flag: [[bool; 6]; 4],
    pub pred_matrix_id_delta: [[u32; 6]; 4],
    /// Indexed `[sizeId - 2][matrixId]`; only meaningful for
    /// `sizeId` 2 and 3.
    pub dc_coef_minus8: [[i32; 6]; 2],
    /// `[sizeId 0][matrixId]` — 16 coefficients.
    pub list_4x4: [[u8; 16]; 6],
    /// `[sizeId 1..=3][matrixId]` — 64 coefficients each.
    pub list_8x8: [[u8; 64]; 6],
    pub list_16x16: [[u8; 64]; 6],
    pub list_32x32: [[u8; 64]; 6],
}

/// The mathematical model of a [`HevcScalingListData`].
pub struct HevcScalingListDataModel {
    pub pred_mode_flag: Seq<Seq<bool>>,
    pub pred_matrix_id_delta: Seq<Seq<u32>>,
    pub dc_coef_minus8: Seq<Seq<i32>>,
    pub list_4x4: Seq<Seq<u8>>,
    pub list_8x8: Seq<Seq<u8>>,
    pub list_16x16: Seq<Seq<u8>>,
    pub list_32x32: Seq<Seq<u8>>,
}

impl View for HevcScalingListData {
    type V = HevcScalingListDataModel;

    open spec fn view(&self) -> HevcScalingListDataModel {
        HevcScalingListDataModel {
            pred_mode_flag: seq_view(self.pred_mode_flag@),
            pred_matrix_id_delta: seq_view(self.pred_matrix_id_delta@),
            dc_coef_minus8: seq_view(self.dc_coef_minus8@),
            list_4x4: seq_view(self.list_4x4@),
            list_8x8: seq_view(self.list_8x8@),
            list_16x16: seq_view(self.list_16x16@),
            list_32x32: seq_view(self.list_32x32@),
        }
    }
}

impl Default for HevcScalingListData {
    fn default() -> (d: Self)
        ensures
            d@ == scaling_lists_of(Seq::empty()),
    {
        let d = HevcScalingListData {
            pred_mode_flag: [[false; 6]; 4],
            pred_matrix_id_delta: [[0; 6]; 4],
            dc_coef_minus8: [[0; 6]; 2],
            list_4x4: [[0; 16]; 6],
            list_8x8: [[0; 64]; 6],
            list_16x16: [[0; 64]; 6],
            list_32x32: [[0; 64]; 6],
        };
        proof {
            let e = Seq::<HevcScalingEntryModel>::empty();
            lemma_rows_equal(d@.pred_mode_flag, scaling_lists_of(e).pred_mode_flag);
            lemma_rows_equal(d@.pred_matrix_id_delta, scaling_lists_of(e).pred_matrix_id_delta);
            lemma_rows_equal(d@.dc_coef_minus8, scaling_lists_of(e).dc_coef_minus8);
            lemma_rows_equal(d@.list_4x4, scaling_lists_of(e).list_4x4);
            lemma_rows_equal(d@.list_8x8, scaling_lists_of(e).list_8x8);
            lemma_rows_equal(d@.list_16x16, scaling_lists_of(e).list_16x16);
            lemma_rows_equal(d@.list_32x32, scaling_lists_of(e).list_32x32);
        }
        d
    }
}

proof fn lemma_rows_equal<T>(a: Seq<Seq<T>>, b: Seq<Seq<T>>)
    requires
        a.len() == b.len(),
        forall|i: int| 0 <= i < a.len() ==> (#[trigger] a[i]).len() == b[i].len(),
        forall|i: int, j: int| 0 <= i < a.len() && 0 <= j < a[i].len() ==> #[trigger] a[i][j] == b[i][j],
    ensures
        a == b,
{
    assert forall|i: int| 0 <= i < a.len() implies #[trigger] a[i] == b[i] by {
        assert(a[i] =~= b[i]);
    }
    assert(a =~= b);
}

/// The syntax elements of one scaling list.
pub struct HevcScalingEntry {
    /// scaling_list_pred_mode_flag.
    pub pred: bool,
    /// scaling_list_pred_matrix_id_delta.
    pub delta: u32,
    /// scaling_list_dc_coef_minus8.
    pub dc: i32,
    /// The coefficients, none if the list is predicted.
    pub coefs: Vec<u8>,
}

/// The coefficient before the next one: the last coefficient, at the start the
/// DC coefficient.
pub open spec fn prev_coef(done: Seq<u8>, start: i32) -> int {
    if done.len() == 0 {
        start as int
    } else {
        done.last() as int
    }
}

/// Reads one coefficient, as a difference modulo 256.
pub open spec fn h_coef_item(s: Seq<bool>, start: i32) -> spec_fn(Seq<u8>, nat) -> Read<u8> {
    |done: Seq<u8>, q: nat|
        match se_at(s, q) {
            Err(f) => Err(f),
            Ok((d, q)) => if !(-128 <= d <= 127) {
                Err(Fault::Invalid)
            } else {
                Ok((((prev_coef(done, start) + d + 256) % 256) as u8, q))
            },
        }
}

/// `n` coefficients at position `p`.
#[verifier::opaque]
pub open spec fn h_coefs_at(s: Seq<bool>, p: nat, n: u64, start: i32) -> Read<Seq<u8>> {
    rep_at(h_coef_item(s, start), p, n as nat)
}

fn parse_h_coefs(r: &mut BitReader<'_>, n: u64, start: i32) -> (res: Result<Vec<u8>, BitstreamError>)
    requires
        0 <= start <= 255,
    ensures
        read_vec_is(h_coefs_at(old(r).bits(), old(r).pos(), n, start), res, *old(r), *final(r)),
{
    let ghost s = r.bits();
    let ghost p = r.pos();
    let ghost reads = h_coef_item(s, start);
    proof {
        reveal(h_coefs_at);
    }
    let mut next_coef: i32 = start;
    let mut coefs: Vec<u8> = Vec::new();
    let mut i: u64 = 0;
    while i < n
        invariant
            i <= n,
            coefs@.len() == i,
            0 <= next_coef <= 255,
            next_coef == prev_coef(coefs@, start),
            reads == h_coef_item(s, start),
            s == r.bits(),
            s == old(r).bits(),
            p == old(r).pos(),
            r.bytes() == old(r).bytes(),
            rep_at(reads, p, i as nat) == Ok::<(Seq<u8>, nat), Fault>((coefs@, r.pos())),
        decreases n - i,
    {
        proof {
            if rep_at(reads, p, (i + 1) as nat) is Err {
                reveal(h_coefs_at);
                lemma_rep_err(reads, p, (i + 1) as nat, n as nat);
            }
        }
        let delta = r.se()?;
        if !(-128 <= delta && delta <= 127) {
            return Err(
                Message::new("scaling_list_delta_coef=")
                    .num(delta as i128)
                    .with(" out of -128..=127 (§7.4.5)")
                    .invalid(),
            );
        }
        next_coef = (next_coef + delta + 256) % 256;
        coefs.push(next_coef as u8);
        i = i + 1;
    }
    Ok(coefs)
}

/// The mathematical model of a [`HevcScalingEntry`].
pub struct HevcScalingEntryModel {
    pub pred: bool,
    pub delta: u32,
    pub dc: i32,
    pub coefs: Seq<u8>,
}

impl View for HevcScalingEntry {
    type V = HevcScalingEntryModel;

    open spec fn view(&self) -> HevcScalingEntryModel {
        HevcScalingEntryModel {
            pred: self.pred,
            delta: self.delta,
            dc: self.dc,
            coefs: self.coefs@,
        }
    }
}

/// List number `k` of the 20 lists of `scaling_list_data()` at position `p`.
#[verifier::opaque]
pub open spec fn h_entry_at(s: Seq<bool>, p: nat, k: u64) -> Read<HevcScalingEntryModel> {
    let size = if k < 18 { k / 6 } else { 3u64 };
    let matrix = if k < 18 { k % 6 } else { (3 * (k - 18)) as u64 };
    let pred = flag_at(s, p);
    let p = adv(p, 1);
    match ue_if(s, p, !pred, 0) { Err(f) => Err(f), Ok((delta, p)) => {
    if !(delta as u64 <= (if size == 3 { matrix / 3 } else { matrix })) { Err(Fault::Invalid) } else {
    match se_if(s, p, pred && size > 1, 0) { Err(f) => Err(f), Ok((dc, p)) => {
    if !(!(pred && size > 1) || (-7 <= dc && dc <= 247)) { Err(Fault::Invalid) } else {
    match h_coefs_at(
        s,
        p,
        (if !pred { 0u64 } else if size == 0 { 16u64 } else { 64u64 }),
        (if pred && size > 1 { (dc + 8) as i32 } else { 8i32 }),
    )
    { Err(f) => Err(f), Ok((coefs, p)) => {
    Ok((HevcScalingEntryModel { pred, delta, dc, coefs }, p))
    }}}}}}}}
}

/// Parses list number `k` of the 20 lists of `scaling_list_data()`.
fn parse_h_entry(r: &mut BitReader<'_>, k: u64) -> (res: Result<HevcScalingEntry, BitstreamError>)
    requires
        k < 20,
    ensures
        read_view_is(h_entry_at(old(r).bits(), old(r).pos(), k), res, *old(r), *final(r)),
{
    proof {
        reveal(h_entry_at);
    }
    let size: u64 = if k < 18 { k / 6 } else { 3u64 };
    let matrix: u64 = if k < 18 { k % 6 } else { (3 * (k - 18)) as u64 };
    let pred: bool = r.flag();
    let delta: u32 = r.ue_if(!pred, 0)?;
    if !(delta as u64 <= (if size == 3 { matrix / 3 } else { matrix })) {
        return Err(
            Message::new("scaling_list_pred_matrix_id_delta=")
                .num(delta as i128)
                .with(" > ")
                .num((if size == 3 { matrix / 3 } else { matrix }) as i128)
                .with(" (sizeId=")
                .num(size as i128)
                .with(", matrixId=")
                .num(matrix as i128)
                .with(", §7.4.5)")
                .invalid(),
        );
    }
    let dc: i32 = r.se_if(pred && size > 1, 0)?;
    if !(!(pred && size > 1) || (-7 <= dc && dc <= 247)) {
        return Err(
            Message::new("scaling_list_dc_coef_minus8=")
                .num(dc as i128)
                .with(" out of -7..=247 (§7.4.5)")
                .invalid(),
        );
    }
    let coefs = parse_h_coefs(
        r,
        (if !pred { 0u64 } else if size == 0 { 16u64 } else { 64u64 }),
        (if pred && size > 1 { (dc + 8) as i32 } else { 8i32 }),
    )?;
    Ok(HevcScalingEntry { pred, delta, dc, coefs })
}

/// The layout of list number `k` of the 20 lists of `scaling_list_data()`:
/// reading at `p` gives `x` and ends at `q` if and only if these elements stand
/// there in this order, and the values are allowed.
pub proof fn law_layout_h_entry(s: Seq<bool>, p: nat, k: u64, x: HevcScalingEntryModel, q: nat)
    ensures
        h_entry_at(s, p, k) == Ok::<(HevcScalingEntryModel, nat), Fault>((x, q)) <==> ({
            let size = if k < 18 { k / 6 } else { 3u64 };
            let matrix = if k < 18 { k % 6 } else { (3 * (k - 18)) as u64 };
            &&& cursor(s, p)
                .flag(x.pred)
                .ue_if(!x.pred, x.delta, 0)
                .se_if(x.pred && size > 1, x.dc, 0)
                .part(
                    |p: nat| h_coefs_at(
                        s,
                        p,
                        (if !x.pred { 0u64 } else if size == 0 { 16u64 } else { 64u64 }),
                        (if x.pred && size > 1 { (x.dc + 8) as i32 } else { 8i32 }),
                    ),
                    x.coefs,
                )
                .ends(q)
            &&& x.delta as u64 <= (if size == 3 { matrix / 3 } else { matrix })
            &&& (!(x.pred && size > 1) || (-7 <= x.dc && x.dc <= 247))
        }),
{
    reveal(h_entry_at);
    reveal(se_if);
    reveal(ue_if);
}

/// Reading list number `k` of the 20 lists of `scaling_list_data()` fails only
/// with an error of this class.
pub broadcast proof fn law_faults_h_entry(s: Seq<bool>, p: nat, k: u64)
    ensures
        #[trigger] h_entry_at(s, p, k) matches Err(f) ==> f == Fault::Invalid,
{
    broadcast use {crate::bits::law_faults_ue, crate::bits::law_faults_se, law_faults_h_coefs};

    reveal(h_entry_at);
    reveal(se_if);
    reveal(ue_if);
}

/// Each field of the model of a [`HevcScalingEntry`] is the field of that name.
pub proof fn law_view_h_entry(x: HevcScalingEntry)
    ensures
        x@.pred == x.pred,
        x@.delta == x.delta,
        x@.dc == x.dc,
        x@.coefs == x.coefs@,
{
}

/// Reads list number `k` of the 20 lists of `scaling_list_data()`, behind the
/// items before it.
pub open spec fn h_entries_item(
    s: Seq<bool>,
) -> spec_fn(Seq<HevcScalingEntryModel>, nat) -> Read<HevcScalingEntryModel> {
    |done: Seq<HevcScalingEntryModel>, q: nat| h_entry_at(s, q, done.len() as u64)
}

/// `n` items at position `p`, each list number `k` of the 20 lists of
/// `scaling_list_data()`.
#[verifier::opaque]
pub open spec fn h_entries_at(s: Seq<bool>, p: nat, n: u64) -> Read<Seq<HevcScalingEntryModel>> {
    rep_at(h_entries_item(s), p, n as nat)
}

/// Parses `n` items, each list number `k` of the 20 lists of
/// `scaling_list_data()`.
fn parse_h_entries(r: &mut BitReader<'_>, n: u64) -> (res: Result<Vec<HevcScalingEntry>, BitstreamError>)
    requires
        n <= 20,
    ensures
        read_seq_is(h_entries_at(old(r).bits(), old(r).pos(), n), res, *old(r), *final(r)),
        res matches Ok(v) ==> v@.len() == n,
{
    let ghost s = r.bits();
    let ghost p = r.pos();
    let ghost reads = h_entries_item(s);
    let mut xs: Vec<HevcScalingEntry> = Vec::new();
    let mut i: u64 = 0;
    proof {
        reveal(h_entries_at);
        assert(seq_view(xs@) =~= Seq::empty());
    }
    while i < n
        invariant
            i <= n,
            xs@.len() == i,
                n <= 20,
            reads == h_entries_item(s),
            s == r.bits(),
            s == old(r).bits(),
            p == old(r).pos(),
            r.bytes() == old(r).bytes(),
            rep_at(reads, p, i as nat) == Ok::<(
                Seq<HevcScalingEntryModel>,
                nat,
            ), Fault>((seq_view(xs@), r.pos())),
        decreases n - i,
    {
        match parse_h_entry(r, i) {
            Ok(x) => {
                proof {
                lemma_seq_view_push(xs@, x);
            }
            xs.push(x);
            },
            Err(e) => {
                proof {
                    reveal(h_entries_at);
                    lemma_rep_err(reads, p, (i + 1) as nat, n as nat);
                }
                return Err(e);
            },
        }
        i = i + 1;
    }
    Ok(xs)
}

/// `n` items stand one behind the other: `n - 1` items, and then list number
/// `k` of the 20 lists of `scaling_list_data()`.
pub proof fn law_layout_h_entries(s: Seq<bool>, p: nat, n: u64, xs: Seq<HevcScalingEntryModel>, q: nat)
    ensures
        h_entries_at(s, p, n) == Ok::<(Seq<HevcScalingEntryModel>, nat), Fault>((xs, q)) <==> if n == 0 {
            xs.len() == 0 && q == p
        } else {
            &&& xs.len() == n
            &&& cursor(s, p)
                .part(|p: nat| h_entries_at(s, p, (n - 1) as u64), xs.drop_last())
                .part(|p: nat| h_entry_at(s, p, (n - 1) as u64), xs.last())
                .ends(q)
        },
{
    reveal(h_entries_at);
    lemma_rep_step(h_entries_item(s), p, n as nat);
    if xs.len() == 0 {
        assert(xs =~= Seq::empty());
    } else {
        assert(xs =~= xs.drop_last().push(xs.last()));
    }
    if n > 0 {
        if let Ok((done, r)) = rep_at(h_entries_item(s), p, (n - 1) as nat) {
            if let Ok((y, z)) = h_entries_item(s)(done, r) {
                assert(done.push(y).drop_last() =~= done);
            }
        }
    }
}

/// Reading the items fails only with an error of this class.
pub broadcast proof fn law_faults_h_entries(s: Seq<bool>, p: nat, n: u64)
    ensures
        #[trigger] h_entries_at(s, p, n) matches Err(f) ==> f == Fault::Invalid,
{
    broadcast use law_faults_h_entry;

    reveal(h_entries_at);
    let f = h_entries_item(s);
    assert forall|done: Seq<HevcScalingEntryModel>, q: nat| (#[trigger] f(done, q)) matches Err(e)
        ==> e == Fault::Invalid by {}
    lemma_rep_faults(f, p, n as nat, |f: Fault| f == Fault::Invalid);
}

/// The number of the list of a size and a matrix id among the coded lists, -1
/// if it is not coded: of the largest size only matrix ids 0 and 3 are.
pub open spec fn list_index(size: int, m: int) -> int {
    if size < 3 {
        6 * size + m
    } else if m == 0 {
        18
    } else if m == 3 {
        19
    } else {
        -1
    }
}

/// The list is one of the coded lists `b`.
pub open spec fn is_coded(b: Seq<HevcScalingEntryModel>, size: int, m: int) -> bool {
    0 <= list_index(size, m) < b.len()
}

/// The prediction mode of a list.
pub open spec fn list_pred(b: Seq<HevcScalingEntryModel>, size: int, m: int) -> bool {
    is_coded(b, size, m) && b[list_index(size, m)].pred
}

/// The reference of a list.
pub open spec fn list_delta(b: Seq<HevcScalingEntryModel>, size: int, m: int) -> u32 {
    if is_coded(b, size, m) {
        b[list_index(size, m)].delta
    } else {
        0
    }
}

/// The DC coefficient of a list.
pub open spec fn list_dc(b: Seq<HevcScalingEntryModel>, size: int, m: int) -> i32 {
    if is_coded(b, size, m) {
        b[list_index(size, m)].dc
    } else {
        0
    }
}

/// Coefficient `i` of a list, zero if it is not coded.
pub open spec fn list_coef(b: Seq<HevcScalingEntryModel>, size: int, m: int, i: int) -> u8 {
    if is_coded(b, size, m) && i < b[list_index(size, m)].coefs.len() {
        b[list_index(size, m)].coefs[i]
    } else {
        0
    }
}

/// The six lists of a size, of `n` coefficients each.
pub open spec fn lists_of_size(b: Seq<HevcScalingEntryModel>, size: int, n: nat) -> Seq<Seq<u8>> {
    Seq::new(6, |m: int| Seq::new(n, |i: int| list_coef(b, size, m, i)))
}

/// The lists as arrays, zero where nothing is coded.
pub open spec fn scaling_lists_of(b: Seq<HevcScalingEntryModel>) -> HevcScalingListDataModel {
    HevcScalingListDataModel {
        pred_mode_flag: Seq::new(4, |s: int| Seq::new(6, |m: int| list_pred(b, s, m))),
        pred_matrix_id_delta: Seq::new(4, |s: int| Seq::new(6, |m: int| list_delta(b, s, m))),
        dc_coef_minus8: Seq::new(2, |s: int| Seq::new(6, |m: int| list_dc(b, s + 2, m))),
        list_4x4: lists_of_size(b, 0, 16),
        list_8x8: lists_of_size(b, 1, 64),
        list_16x16: lists_of_size(b, 2, 64),
        list_32x32: lists_of_size(b, 3, 64),
    }
}

/// `scaling_list_data()` (§7.3.4) at position `p`.
#[verifier::opaque]
pub open spec fn h_scaling_at(s: Seq<bool>, p: nat) -> Read<HevcScalingListDataModel> {
    match h_entries_at(s, p, 20) {
        Err(f) => Err(f),
        Ok((b, p)) => Ok((scaling_lists_of(b), p)),
    }
}

fn index_of_list(size: usize, m: usize) -> (k: usize)
    requires
        size < 4,
        m < 6,
    ensures
        k < 20 ==> k == list_index(size as int, m as int),
        k >= 20 ==> list_index(size as int, m as int) == -1,
{
    if size < 3 {
        6 * size + m
    } else if m == 0 {
        18
    } else if m == 3 {
        19
    } else {
        20
    }
}

fn pred_row(v: &Vec<HevcScalingEntry>, size: usize) -> (row: [bool; 6])
    requires
        v@.len() == 20,
        size < 4,
    ensures
        forall|m: int| 0 <= m < 6 ==> #[trigger] row@[m] == list_pred(seq_view(v@), size as int, m),
{
    let mut row: [bool; 6] = [false; 6];
    let mut m: usize = 0;
    while m < 6
        invariant
            m <= 6,
            size < 4,
            v@.len() == 20,
            forall|j: int| 0 <= j < m ==> #[trigger] row@[j] == list_pred(seq_view(v@), size as int, j),
        decreases 6 - m,
    {
        let k = index_of_list(size, m);
        row[m] = k < 20 && v[k].pred;
        m = m + 1;
    }
    row
}

fn delta_row(v: &Vec<HevcScalingEntry>, size: usize) -> (row: [u32; 6])
    requires
        v@.len() == 20,
        size < 4,
    ensures
        forall|m: int| 0 <= m < 6 ==> #[trigger] row@[m] == list_delta(seq_view(v@), size as int, m),
{
    let mut row: [u32; 6] = [0; 6];
    let mut m: usize = 0;
    while m < 6
        invariant
            m <= 6,
            size < 4,
            v@.len() == 20,
            forall|j: int| 0 <= j < m ==> #[trigger] row@[j] == list_delta(seq_view(v@), size as int, j),
        decreases 6 - m,
    {
        let k = index_of_list(size, m);
        row[m] = if k < 20 {
            v[k].delta
        } else {
            0
        };
        m = m + 1;
    }
    row
}

fn dc_row(v: &Vec<HevcScalingEntry>, size: usize) -> (row: [i32; 6])
    requires
        v@.len() == 20,
        size < 4,
    ensures
        forall|m: int| 0 <= m < 6 ==> #[trigger] row@[m] == list_dc(seq_view(v@), size as int, m),
{
    let mut row: [i32; 6] = [0; 6];
    let mut m: usize = 0;
    while m < 6
        invariant
            m <= 6,
            size < 4,
            v@.len() == 20,
            forall|j: int| 0 <= j < m ==> #[trigger] row@[j] == list_dc(seq_view(v@), size as int, j),
        decreases 6 - m,
    {
        let k = index_of_list(size, m);
        row[m] = if k < 20 {
            v[k].dc
        } else {
            0
        };
        m = m + 1;
    }
    row
}

fn coef_row16(v: &Vec<HevcScalingEntry>, size: usize, m: usize) -> (row: [u8; 16])
    requires
        v@.len() == 20,
        size < 4,
        m < 6,
    ensures
        forall|i: int| 0 <= i < 16
            ==> #[trigger] row@[i] == list_coef(seq_view(v@), size as int, m as int, i),
{
    let mut row: [u8; 16] = [0; 16];
    let k = index_of_list(size, m);
    let mut i: usize = 0;
    while i < 16
        invariant
            i <= 16,
            size < 4,
            m < 6,
            v@.len() == 20,
            k < 20 ==> k == list_index(size as int, m as int),
            k >= 20 ==> list_index(size as int, m as int) == -1,
            forall|j: int|
                0 <= j < i ==> #[trigger] row@[j] == list_coef(seq_view(v@), size as int, m as int, j),
        decreases 16 - i,
    {
        row[i] = if k < 20 && i < v[k].coefs.len() {
            v[k].coefs[i]
        } else {
            0
        };
        i = i + 1;
    }
    row
}

fn coef_row64(v: &Vec<HevcScalingEntry>, size: usize, m: usize) -> (row: [u8; 64])
    requires
        v@.len() == 20,
        size < 4,
        m < 6,
    ensures
        forall|i: int| 0 <= i < 64
            ==> #[trigger] row@[i] == list_coef(seq_view(v@), size as int, m as int, i),
{
    let mut row: [u8; 64] = [0; 64];
    let k = index_of_list(size, m);
    let mut i: usize = 0;
    while i < 64
        invariant
            i <= 64,
            size < 4,
            m < 6,
            v@.len() == 20,
            k < 20 ==> k == list_index(size as int, m as int),
            k >= 20 ==> list_index(size as int, m as int) == -1,
            forall|j: int|
                0 <= j < i ==> #[trigger] row@[j] == list_coef(seq_view(v@), size as int, m as int, j),
        decreases 64 - i,
    {
        row[i] = if k < 20 && i < v[k].coefs.len() {
            v[k].coefs[i]
        } else {
            0
        };
        i = i + 1;
    }
    row
}

fn coef_rows16(v: &Vec<HevcScalingEntry>) -> (rows: [[u8; 16]; 6])
    requires
        v@.len() == 20,
    ensures
        seq_view(rows@) == lists_of_size(seq_view(v@), 0, 16),
{
    let rows = [
        coef_row16(v, 0, 0),
        coef_row16(v, 0, 1),
        coef_row16(v, 0, 2),
        coef_row16(v, 0, 3),
        coef_row16(v, 0, 4),
        coef_row16(v, 0, 5),
    ];
    proof {
        lemma_rows_equal(seq_view(rows@), lists_of_size(seq_view(v@), 0, 16));
    }
    rows
}

fn coef_rows64(v: &Vec<HevcScalingEntry>, size: usize) -> (rows: [[u8; 64]; 6])
    requires
        v@.len() == 20,
        size < 4,
    ensures
        seq_view(rows@) == lists_of_size(seq_view(v@), size as int, 64),
{
    let rows = [
        coef_row64(v, size, 0),
        coef_row64(v, size, 1),
        coef_row64(v, size, 2),
        coef_row64(v, size, 3),
        coef_row64(v, size, 4),
        coef_row64(v, size, 5),
    ];
    proof {
        lemma_rows_equal(seq_view(rows@), lists_of_size(seq_view(v@), size as int, 64));
    }
    rows
}

/// Parse `scaling_list_data()` (§7.3.4).
fn parse_h_scaling(r: &mut BitReader<'_>) -> (res: Result<HevcScalingListData, BitstreamError>)
    ensures
        read_view_is(h_scaling_at(old(r).bits(), old(r).pos()), res, *old(r), *final(r)),
{
    proof {
        reveal(h_scaling_at);
    }
    let v = parse_h_entries(r, 20)?;
    let d = HevcScalingListData {
        pred_mode_flag: [pred_row(&v, 0), pred_row(&v, 1), pred_row(&v, 2), pred_row(&v, 3)],
        pred_matrix_id_delta: [delta_row(&v, 0), delta_row(&v, 1), delta_row(&v, 2), delta_row(&v, 3)],
        dc_coef_minus8: [dc_row(&v, 2), dc_row(&v, 3)],
        list_4x4: coef_rows16(&v),
        list_8x8: coef_rows64(&v, 1),
        list_16x16: coef_rows64(&v, 2),
        list_32x32: coef_rows64(&v, 3),
    };
    proof {
        let want = scaling_lists_of(seq_view(v@));
        lemma_rows_equal(d@.pred_mode_flag, want.pred_mode_flag);
        lemma_rows_equal(d@.pred_matrix_id_delta, want.pred_matrix_id_delta);
        lemma_rows_equal(d@.dc_coef_minus8, want.dc_coef_minus8);
    }
    Ok(d)
}

// ─────────────────────────── Short-term RPS (§7.3.7) ────────────────────────

/// One resolved candidate short-term RPS (§7.3.7 / §7.4.8). Both the
/// explicit and the inter-set-predicted codings resolve to the same
/// derived variables, stored here:
///
/// * `delta_poc_s0[i]` — `DeltaPocS0[stRpsIdx][i]` (negative,
///   decreasing).
/// * `delta_poc_s1[i]` — `DeltaPocS1[stRpsIdx][i]` (positive,
///   increasing).
/// * `used_by_curr_pic_s0/s1[i]` — the matching
///   `UsedByCurrPicS0/S1` flags.
#[derive(Debug, Clone, Default, PartialEq, Eq)]
pub struct HevcShortTermRps {
    pub delta_poc_s0: Vec<i32>,
    pub used_by_curr_pic_s0: Vec<bool>,
    pub delta_poc_s1: Vec<i32>,
    pub used_by_curr_pic_s1: Vec<bool>,
}

/// The mathematical model of a [`HevcShortTermRps`].
pub struct HevcShortTermRpsModel {
    pub delta_poc_s0: Seq<i32>,
    pub used_by_curr_pic_s0: Seq<bool>,
    pub delta_poc_s1: Seq<i32>,
    pub used_by_curr_pic_s1: Seq<bool>,
}

impl View for HevcShortTermRps {
    type V = HevcShortTermRpsModel;

    open spec fn view(&self) -> HevcShortTermRpsModel {
        HevcShortTermRpsModel {
            delta_poc_s0: self.delta_poc_s0@,
            used_by_curr_pic_s0: self.used_by_curr_pic_s0@,
            delta_poc_s1: self.delta_poc_s1@,
            used_by_curr_pic_s1: self.used_by_curr_pic_s1@,
        }
    }
}

impl HevcShortTermRps {
    /// `NumNegativePics` (7-63).
    pub fn num_negative_pics(&self) -> (n: usize)
        ensures
            n == self.delta_poc_s0@.len(),
    {
        self.delta_poc_s0.len()
    }

    /// `NumPositivePics` (7-64).
    pub fn num_positive_pics(&self) -> (n: usize)
        ensures
            n == self.delta_poc_s1@.len(),
    {
        self.delta_poc_s1.len()
    }

    /// `NumDeltaPocs` (7-71).
    pub fn num_delta_pocs(&self) -> (n: usize)
        requires
            self.delta_poc_s0@.len() + self.delta_poc_s1@.len() <= usize::MAX,
        ensures
            n == self.delta_poc_s0@.len() + self.delta_poc_s1@.len(),
    {
        self.num_negative_pics() + self.num_positive_pics()
    }
}

/// used_by_curr_pic_flag and use_delta_flag at position `p`.
#[verifier::opaque]
pub open spec fn h_flag_pair_at(s: Seq<bool>, p: nat) -> Read<(bool, bool)> {
    let used = flag_at(s, p);
    let p = adv(p, 1);
    let keep = flag_if(s, p, !used, true);
    let p = adv_if(p, 1, !used);
    Ok(((used, keep), p))
}

/// Parses used_by_curr_pic_flag and use_delta_flag.
fn parse_h_flag_pair(r: &mut BitReader<'_>) -> (res: Result<(bool, bool), BitstreamError>)
    ensures
        read_is(h_flag_pair_at(old(r).bits(), old(r).pos()), res, *old(r), *final(r)),
{
    proof {
        reveal(h_flag_pair_at);
    }
    let used: bool = r.flag();
    let keep: bool = r.flag_if(!used, true);
    Ok((used, keep))
}

/// The layout of used_by_curr_pic_flag and use_delta_flag: reading at `p` gives
/// `x` and ends at `q` if and only if these elements stand there in this order.
pub proof fn law_layout_h_flag_pair(s: Seq<bool>, p: nat, x: (bool, bool), q: nat)
    ensures
        h_flag_pair_at(s, p) == Ok::<((bool, bool), nat), Fault>((x, q)) <==> cursor(s, p)
            .flag(x.0)
            .flag_if(!x.0, x.1, true)
            .ends(q),
{
    reveal(h_flag_pair_at);
    reveal(adv_if);
    reveal(flag_if);
}

/// Reading used_by_curr_pic_flag and use_delta_flag never fails.
pub broadcast proof fn law_faults_h_flag_pair(s: Seq<bool>, p: nat)
    ensures
        #[trigger] h_flag_pair_at(s, p) is Ok,
{
    reveal(h_flag_pair_at);
}

/// Reads used_by_curr_pic_flag and use_delta_flag, behind the items before it.
pub open spec fn h_flag_pairs_item(s: Seq<bool>) -> spec_fn(Seq<(bool, bool)>, nat) -> Read<(bool, bool)> {
    |done: Seq<(bool, bool)>, q: nat| h_flag_pair_at(s, q)
}

/// `n` items at position `p`, each used_by_curr_pic_flag and use_delta_flag.
#[verifier::opaque]
pub open spec fn h_flag_pairs_at(s: Seq<bool>, p: nat, n: u64) -> Read<Seq<(bool, bool)>> {
    rep_at(h_flag_pairs_item(s), p, n as nat)
}

/// Parses `n` items, each used_by_curr_pic_flag and use_delta_flag.
fn parse_h_flag_pairs(r: &mut BitReader<'_>, n: u64) -> (res: Result<Vec<(bool, bool)>, BitstreamError>)
    ensures
        read_vec_is(h_flag_pairs_at(old(r).bits(), old(r).pos(), n), res, *old(r), *final(r)),
        res matches Ok(v) ==> v@.len() == n,
{
    let ghost s = r.bits();
    let ghost p = r.pos();
    let ghost reads = h_flag_pairs_item(s);
    let mut xs: Vec<(bool, bool)> = Vec::new();
    let mut i: u64 = 0;
    proof {
        reveal(h_flag_pairs_at);
    }
    while i < n
        invariant
            i <= n,
            xs@.len() == i,
            reads == h_flag_pairs_item(s),
            s == r.bits(),
            s == old(r).bits(),
            p == old(r).pos(),
            r.bytes() == old(r).bytes(),
            rep_at(reads, p, i as nat) == Ok::<(Seq<(bool, bool)>, nat), Fault>((xs@, r.pos())),
        decreases n - i,
    {
        match parse_h_flag_pair(r) {
            Ok(x) => {
                xs.push(x);
            },
            Err(e) => {
                proof {
                    reveal(h_flag_pairs_at);
                    lemma_rep_err(reads, p, (i + 1) as nat, n as nat);
                }
                return Err(e);
            },
        }
        i = i + 1;
    }
    Ok(xs)
}

/// `n` items stand one behind the other: `n - 1` items, and then
/// used_by_curr_pic_flag and use_delta_flag.
pub proof fn law_layout_h_flag_pairs(s: Seq<bool>, p: nat, n: u64, xs: Seq<(bool, bool)>, q: nat)
    ensures
        h_flag_pairs_at(s, p, n) == Ok::<(Seq<(bool, bool)>, nat), Fault>((xs, q)) <==> if n == 0 {
            xs.len() == 0 && q == p
        } else {
            &&& xs.len() == n
            &&& cursor(s, p)
                .part(|p: nat| h_flag_pairs_at(s, p, (n - 1) as u64), xs.drop_last())
                .part(|p: nat| h_flag_pair_at(s, p), xs.last())
                .ends(q)
        },
{
    reveal(h_flag_pairs_at);
    lemma_rep_step(h_flag_pairs_item(s), p, n as nat);
    if xs.len() == 0 {
        assert(xs =~= Seq::empty());
    } else {
        assert(xs =~= xs.drop_last().push(xs.last()));
    }
    if n > 0 {
        if let Ok((done, r)) = rep_at(h_flag_pairs_item(s), p, (n - 1) as nat) {
            if let Ok((y, z)) = h_flag_pairs_item(s)(done, r) {
                assert(done.push(y).drop_last() =~= done);
            }
        }
    }
}

/// Reading the items never fails.
pub broadcast proof fn law_faults_h_flag_pairs(s: Seq<bool>, p: nat, n: u64)
    ensures
        #[trigger] h_flag_pairs_at(s, p, n) is Ok,
{
    broadcast use law_faults_h_flag_pair;

    reveal(h_flag_pairs_at);
    let f = h_flag_pairs_item(s);
    assert forall|done: Seq<(bool, bool)>, q: nat| (#[trigger] f(done, q)) is Ok by {}
    lemma_rep_faults_none(f, p, n as nat);
}

/// A picture order count delta and its used flag at position `p`.
#[verifier::opaque]
pub open spec fn h_poc_at(s: Seq<bool>, p: nat) -> Read<(u32, bool)> {
    match ue_at(s, p) { Err(f) => Err(f), Ok((minus1, p)) => {
    if minus1 > 32767 { Err(Fault::Invalid) } else {
    let used = flag_at(s, p);
    let p = adv(p, 1);
    Ok(((minus1, used), p)) }}}
}

/// Parses a picture order count delta and its used flag.
fn parse_h_poc(r: &mut BitReader<'_>, name: &str) -> (res: Result<(u32, bool), BitstreamError>)
    ensures
        read_is(h_poc_at(old(r).bits(), old(r).pos()), res, *old(r), *final(r)),
{
    proof {
        reveal(h_poc_at);
    }
    let minus1: u32 = r.ue()?;
    if minus1 > 32767 {
        return Err(Message::new("").with(name).with(" out of 0..=32767 (§7.4.8)").invalid());
    }
    let used: bool = r.flag();
    Ok((minus1, used))
}

/// The layout of a picture order count delta and its used flag: reading at `p`
/// gives `x` and ends at `q` if and only if these elements stand there in this
/// order, and the values are allowed.
pub proof fn law_layout_h_poc(s: Seq<bool>, p: nat, x: (u32, bool), q: nat)
    ensures
        h_poc_at(s, p) == Ok::<((u32, bool), nat), Fault>((x, q)) <==> ({
            &&& cursor(s, p)
                .ue(x.0)
                .flag(x.1)
                .ends(q)
            &&& x.0 <= 32767
        }),
{
    reveal(h_poc_at);
}

/// Reading a picture order count delta and its used flag fails only with an
/// error of this class.
pub broadcast proof fn law_faults_h_poc(s: Seq<bool>, p: nat)
    ensures
        #[trigger] h_poc_at(s, p) matches Err(f) ==> f == Fault::Invalid,
{
    broadcast use crate::bits::law_faults_ue;

    reveal(h_poc_at);
}

/// Reads a picture order count delta and its used flag, behind the items before
/// it.
pub open spec fn h_pocs_item(s: Seq<bool>) -> spec_fn(Seq<(u32, bool)>, nat) -> Read<(u32, bool)> {
    |done: Seq<(u32, bool)>, q: nat| h_poc_at(s, q)
}

/// `n` items at position `p`, each a picture order count delta and its used
/// flag.
#[verifier::opaque]
pub open spec fn h_pocs_at(s: Seq<bool>, p: nat, n: u64) -> Read<Seq<(u32, bool)>> {
    rep_at(h_pocs_item(s), p, n as nat)
}

/// Parses `n` items, each a picture order count delta and its used flag.
fn parse_h_pocs(r: &mut BitReader<'_>, n: u64, name: &str) -> (res: Result<Vec<(u32, bool)>, BitstreamError>)
    ensures
        read_vec_is(h_pocs_at(old(r).bits(), old(r).pos(), n), res, *old(r), *final(r)),
        res matches Ok(v) ==> v@.len() == n,
{
    let ghost s = r.bits();
    let ghost p = r.pos();
    let ghost reads = h_pocs_item(s);
    let mut xs: Vec<(u32, bool)> = Vec::new();
    let mut i: u64 = 0;
    proof {
        reveal(h_pocs_at);
    }
    while i < n
        invariant
            i <= n,
            xs@.len() == i,
            reads == h_pocs_item(s),
            s == r.bits(),
            s == old(r).bits(),
            p == old(r).pos(),
            r.bytes() == old(r).bytes(),
            rep_at(reads, p, i as nat) == Ok::<(Seq<(u32, bool)>, nat), Fault>((xs@, r.pos())),
        decreases n - i,
    {
        match parse_h_poc(r, name) {
            Ok(x) => {
                xs.push(x);
            },
            Err(e) => {
                proof {
                    reveal(h_pocs_at);
                    lemma_rep_err(reads, p, (i + 1) as nat, n as nat);
                }
                return Err(e);
            },
        }
        i = i + 1;
    }
    Ok(xs)
}

/// `n` items stand one behind the other: `n - 1` items, and then a picture
/// order count delta and its used flag.
pub proof fn law_layout_h_pocs(s: Seq<bool>, p: nat, n: u64, xs: Seq<(u32, bool)>, q: nat)
    ensures
        h_pocs_at(s, p, n) == Ok::<(Seq<(u32, bool)>, nat), Fault>((xs, q)) <==> if n == 0 {
            xs.len() == 0 && q == p
        } else {
            &&& xs.len() == n
            &&& cursor(s, p)
                .part(|p: nat| h_pocs_at(s, p, (n - 1) as u64), xs.drop_last())
                .part(|p: nat| h_poc_at(s, p), xs.last())
                .ends(q)
        },
{
    reveal(h_pocs_at);
    lemma_rep_step(h_pocs_item(s), p, n as nat);
    if xs.len() == 0 {
        assert(xs =~= Seq::empty());
    } else {
        assert(xs =~= xs.drop_last().push(xs.last()));
    }
    if n > 0 {
        if let Ok((done, r)) = rep_at(h_pocs_item(s), p, (n - 1) as nat) {
            if let Ok((y, z)) = h_pocs_item(s)(done, r) {
                assert(done.push(y).drop_last() =~= done);
            }
        }
    }
}

/// Reading the items fails only with an error of this class.
pub broadcast proof fn law_faults_h_pocs(s: Seq<bool>, p: nat, n: u64)
    ensures
        #[trigger] h_pocs_at(s, p, n) matches Err(f) ==> f == Fault::Invalid,
{
    broadcast use law_faults_h_poc;

    reveal(h_pocs_at);
    let f = h_pocs_item(s);
    assert forall|done: Seq<(u32, bool)>, q: nat| (#[trigger] f(done, q)) matches Err(e)
        ==> e == Fault::Invalid by {}
    lemma_rep_faults(f, p, n as nat, |f: Fault| f == Fault::Invalid);
}

/// The sum of the first `n` deltas.
pub open spec fn poc_sum(v: Seq<(u32, bool)>, n: nat) -> int
    decreases n,
{
    if n == 0 {
        0
    } else {
        poc_sum(v, (n - 1) as nat) + v[n - 1].0 + 1
    }
}

/// The used flags of deltas.
pub open spec fn poc_used(v: Seq<(u32, bool)>) -> Seq<bool> {
    Seq::new(v.len(), |i: int| v[i].1)
}

/// A set in explicit coding: negative deltas going down, positive ones going up
/// (7-67..7-70).
pub open spec fn explicit_rps(neg: Seq<(u32, bool)>, pos: Seq<(u32, bool)>) -> HevcShortTermRpsModel {
    HevcShortTermRpsModel {
        delta_poc_s0: Seq::new(neg.len(), |i: int| (-poc_sum(neg, (i + 1) as nat)) as i32),
        used_by_curr_pic_s0: poc_used(neg),
        delta_poc_s1: Seq::new(pos.len(), |i: int| poc_sum(pos, (i + 1) as nat) as i32),
        used_by_curr_pic_s1: poc_used(pos),
    }
}

/// An explicitly coded set at position `p`.
pub open spec fn explicit_rps_at(s: Seq<bool>, p: nat, max_dec: u32) -> Read<HevcShortTermRpsModel> {
    match ue_at(s, p) {
        Err(f) => Err(f),
        Ok((num_neg, p)) => match ue_at(s, p) {
            Err(f) => Err(f),
            Ok((num_pos, p)) => if num_neg + num_pos > max_dec {
                Err(Fault::Invalid)
            } else {
                match h_pocs_at(s, p, num_neg as u64) {
                    Err(f) => Err(f),
                    Ok((neg, p)) => match h_pocs_at(s, p, num_pos as u64) {
                        Err(f) => Err(f),
                        Ok((pos, p)) => Ok((explicit_rps(neg, pos), p)),
                    },
                }
            },
        },
    }
}

/// A candidate picture of a predicted set.
pub struct RpsCandidate {
    pub delta: int,
    pub used: bool,
    pub keep: bool,
}

/// Candidate `j` of a set that is predicted from `prev` by `delta_rps`: the
/// pictures of `prev` in turn, and behind them `prev`'s own picture.
pub open spec fn rps_candidate(
    prev: HevcShortTermRpsModel,
    delta_rps: int,
    flags: Seq<(bool, bool)>,
    j: int,
) -> RpsCandidate {
    let neg = prev.delta_poc_s0.len();
    let num = neg + prev.delta_poc_s1.len();
    RpsCandidate {
        delta: delta_rps + if j < neg {
            prev.delta_poc_s0[j] as int
        } else if j < num {
            prev.delta_poc_s1[j - neg] as int
        } else {
            0
        },
        used: flags[j].0,
        keep: flags[j].1,
    }
}

/// The candidate that is looked at as number `k` for the negative side (7-61):
/// the positive pictures of `prev` from the last on, its own picture, and its
/// negative pictures.
pub open spec fn negative_order(prev: HevcShortTermRpsModel, k: int) -> int {
    let neg = prev.delta_poc_s0.len();
    let pos = prev.delta_poc_s1.len();
    if k < pos {
        neg + pos - 1 - k
    } else if k == pos {
        (neg + pos) as int
    } else {
        k - pos - 1
    }
}

/// The candidate that is looked at as number `k` for the positive side (7-62).
pub open spec fn positive_order(prev: HevcShortTermRpsModel, k: int) -> int {
    let neg = prev.delta_poc_s0.len();
    let pos = prev.delta_poc_s1.len();
    if k < neg {
        neg - 1 - k
    } else if k == neg {
        (neg + pos) as int
    } else {
        k - 1
    }
}

/// Candidates in the order of a side.
pub open spec fn rps_ordered(
    prev: HevcShortTermRpsModel,
    delta_rps: int,
    flags: Seq<(bool, bool)>,
    negative: bool,
) -> Seq<RpsCandidate> {
    Seq::new(
        (prev.delta_poc_s0.len() + prev.delta_poc_s1.len() + 1) as nat,
        |k: int|
            rps_candidate(
                prev,
                delta_rps,
                flags,
                if negative {
                    negative_order(prev, k)
                } else {
                    positive_order(prev, k)
                },
            ),
    )
}

/// The candidate belongs to the side.
pub open spec fn on_side(c: RpsCandidate, negative: bool) -> bool {
    c.keep && if negative {
        c.delta < 0
    } else {
        c.delta > 0
    }
}

/// The candidates of a side, with the order kept.
pub open spec fn picked(cs: Seq<RpsCandidate>, negative: bool) -> Seq<RpsCandidate>
    decreases cs.len(),
{
    if cs.len() == 0 {
        Seq::empty()
    } else if on_side(cs.last(), negative) {
        picked(cs.drop_last(), negative).push(cs.last())
    } else {
        picked(cs.drop_last(), negative)
    }
}

/// The deltas of candidates.
pub open spec fn deltas_of(cs: Seq<RpsCandidate>) -> Seq<i32> {
    Seq::new(cs.len(), |i: int| cs[i].delta as i32)
}

/// The used flags of candidates.
pub open spec fn used_of(cs: Seq<RpsCandidate>) -> Seq<bool> {
    Seq::new(cs.len(), |i: int| cs[i].used)
}

/// A set that is predicted from `prev` (7-61, 7-62).
pub open spec fn predicted_rps(
    prev: HevcShortTermRpsModel,
    delta_rps: int,
    flags: Seq<(bool, bool)>,
) -> HevcShortTermRpsModel {
    let neg = picked(rps_ordered(prev, delta_rps, flags, true), true);
    let pos = picked(rps_ordered(prev, delta_rps, flags, false), false);
    HevcShortTermRpsModel {
        delta_poc_s0: deltas_of(neg),
        used_by_curr_pic_s0: used_of(neg),
        delta_poc_s1: deltas_of(pos),
        used_by_curr_pic_s1: used_of(pos),
    }
}

/// deltaRps (7-60).
pub open spec fn delta_rps_of(sign: bool, abs_minus1: u32) -> int {
    if sign {
        -(abs_minus1 + 1)
    } else {
        abs_minus1 + 1
    }
}

/// A set at position `p` that is predicted from `prev`.
pub open spec fn predicted_rps_at(
    s: Seq<bool>,
    p: nat,
    prev: HevcShortTermRpsModel,
) -> Read<HevcShortTermRpsModel> {
    let sign = flag_at(s, p);
    match ue_at(s, adv(p, 1)) {
        Err(f) => Err(f),
        Ok((abs_minus1, p)) => if abs_minus1 > 32767 {
            Err(Fault::Invalid)
        } else {
            match h_flag_pairs_at(s, p, (prev.delta_poc_s0.len() + prev.delta_poc_s1.len() + 1) as u64) {
                Err(f) => Err(f),
                Ok((flags, p)) => Ok((predicted_rps(prev, delta_rps_of(sign, abs_minus1), flags), p)),
            }
        },
    }
}

/// `st_ref_pic_set()` (§7.3.7) at position `p` behind the sets `done`, resolved to
/// its deltas.
pub open spec fn h_rps_item(s: Seq<bool>, max_dec: u32) -> spec_fn(Seq<HevcShortTermRpsModel>, nat) -> Read<
    HevcShortTermRpsModel,
> {
    |done: Seq<HevcShortTermRpsModel>, q: nat|
        if flag_if(s, q, done.len() > 0, false) {
            predicted_rps_at(s, adv_if(q, 1, done.len() > 0), done.last())
        } else {
            explicit_rps_at(s, adv_if(q, 1, done.len() > 0), max_dec)
        }
}

/// `n` sets at position `p`.
#[verifier::opaque]
pub open spec fn h_rps_list_at(
    s: Seq<bool>,
    p: nat,
    max_dec: u32,
    n: u64,
) -> Read<Seq<HevcShortTermRpsModel>> {
    rep_at(h_rps_item(s, max_dec), p, n as nat)
}

/// The size of the deltas of set number `k`.
pub open spec fn delta_bound(k: int) -> int {
    32768 * (16 + k)
}

/// What holds of set number `k`: as many flags as deltas on either side, not too
/// many of them, and none too large.
pub open spec fn rps_fits(x: HevcShortTermRpsModel, k: int) -> bool {
    &&& x.used_by_curr_pic_s0.len() == x.delta_poc_s0.len()
    &&& x.used_by_curr_pic_s1.len() == x.delta_poc_s1.len()
    &&& x.delta_poc_s0.len() + x.delta_poc_s1.len() <= 16 + 2 * k
    &&& forall|i: int| 0 <= i < x.delta_poc_s0.len() ==> -delta_bound(k) <= #[trigger] x.delta_poc_s0[i] < 0
    &&& forall|i: int| 0 <= i < x.delta_poc_s1.len() ==> 0 < #[trigger] x.delta_poc_s1[i] <= delta_bound(k)
}

proof fn lemma_poc_sum(v: Seq<(u32, bool)>, n: nat)
    requires
        n <= v.len(),
        forall|i: int| 0 <= i < v.len() ==> (#[trigger] v[i]).0 <= 32767,
    ensures
        0 <= poc_sum(v, n) <= 32768 * n,
        n > 0 ==> poc_sum(v, n) > 0,
    decreases n,
{
    if n > 0 {
        lemma_poc_sum(v, (n - 1) as nat);
    }
}

fn parse_poc_list(
    r: &mut BitReader<'_>,
    n: u64,
    name: &str,
) -> (res: Result<Vec<(u32, bool)>, BitstreamError>)
    ensures
        read_vec_is(h_pocs_at(old(r).bits(), old(r).pos(), n), res, *old(r), *final(r)),
        res matches Ok(v)
            ==> v@.len() == n
            && forall|i: int| 0 <= i < v@.len()
            ==> (#[trigger] v@[i]).0 <= 32767,
{
    let v = parse_h_pocs(r, n, name)?;
    proof {
        lemma_pocs_range(old(r).bits(), old(r).pos(), n);
    }
    Ok(v)
}

proof fn lemma_pocs_range(s: Seq<bool>, p: nat, n: u64)
    ensures
        h_pocs_at(s, p, n) matches Ok((v, q))
            ==> forall|i: int| 0 <= i < v.len()
            ==> (#[trigger] v[i]).0 <= 32767,
{
    reveal(h_pocs_at);
    lemma_pocs_range_rep(s, p, n as nat);
}

proof fn lemma_pocs_range_rep(s: Seq<bool>, p: nat, n: nat)
    ensures
        rep_at(h_pocs_item(s), p, n) matches Ok((v, q)) ==> forall|i: int|
            0 <= i < v.len() ==> (#[trigger] v[i]).0 <= 32767,
    decreases n,
{
    if n > 0 {
        lemma_pocs_range_rep(s, p, (n - 1) as nat);
        reveal(h_poc_at);
    }
}

fn parse_explicit_rps(r: &mut BitReader<'_>, max_dec: u32) -> (res: Result<HevcShortTermRps, BitstreamError>)
    requires
        max_dec <= 15,
    ensures
        read_view_is(explicit_rps_at(old(r).bits(), old(r).pos(), max_dec), res, *old(r), *final(r)),
        res matches Ok(x) ==> rps_fits(x@, 0),
{
    let num_neg = r.ue()?;
    let num_pos = r.ue()?;
    if num_neg as u64 + num_pos as u64 > max_dec as u64 {
        return Err(
            Message::new("st_ref_pic_set num_negative_pics=")
                .num(num_neg as i128)
                .with(" / num_positive_pics=")
                .num(num_pos as i128)
                .with(" exceed sps_max_dec_pic_buffering_minus1=")
                .num(max_dec as i128)
                .with(" (§7.4.8)")
                .invalid(),
        );
    }
    let neg = parse_poc_list(r, num_neg as u64, "delta_poc_s0_minus1")?;
    let pos = parse_poc_list(r, num_pos as u64, "delta_poc_s1_minus1")?;
    let ghost want = explicit_rps(neg@, pos@);
    let mut out = HevcShortTermRps {
        delta_poc_s0: Vec::new(),
        used_by_curr_pic_s0: Vec::new(),
        delta_poc_s1: Vec::new(),
        used_by_curr_pic_s1: Vec::new(),
    };
    let mut prev: i32 = 0;
    let mut i: usize = 0;
    while i < neg.len()
        invariant
            i <= neg@.len() <= 15,
            forall|k: int| 0 <= k < neg@.len() ==> (#[trigger] neg@[k]).0 <= 32767,
            prev == -poc_sum(neg@, i as nat),
            out.delta_poc_s0@.len() == i,
            out.used_by_curr_pic_s0@.len() == i,
            out.delta_poc_s1@.len() == 0,
            out.used_by_curr_pic_s1@.len() == 0,
            forall|k: int| 0 <= k < i ==> #[trigger] out.delta_poc_s0@[k] == -poc_sum(neg@, (k + 1) as nat),
            forall|k: int| 0 <= k < i ==> #[trigger] out.used_by_curr_pic_s0@[k] == neg@[k].1,
        decreases neg@.len() - i,
    {
        proof {
            lemma_poc_sum(neg@, i as nat);
        }
        let (minus1, used) = neg[i];
        assert(minus1 == neg@[i as int].0);
        prev = prev - (minus1 as i32 + 1);
        out.delta_poc_s0.push(prev);
        out.used_by_curr_pic_s0.push(used);
        i = i + 1;
    }
    let mut prev: i32 = 0;
    let mut i: usize = 0;
    while i < pos.len()
        invariant
            i <= pos@.len() <= 15,
            forall|k: int| 0 <= k < pos@.len() ==> (#[trigger] pos@[k]).0 <= 32767,
            prev == poc_sum(pos@, i as nat),
            out.delta_poc_s0@.len() == neg@.len(),
            out.used_by_curr_pic_s0@.len() == neg@.len(),
            forall|k: int| 0 <= k < neg@.len()
                ==> #[trigger] out.delta_poc_s0@[k] == -poc_sum(neg@, (k + 1) as nat),
            forall|k: int| 0 <= k < neg@.len() ==> #[trigger] out.used_by_curr_pic_s0@[k] == neg@[k].1,
            out.delta_poc_s1@.len() == i,
            out.used_by_curr_pic_s1@.len() == i,
            forall|k: int| 0 <= k < i ==> #[trigger] out.delta_poc_s1@[k] == poc_sum(pos@, (k + 1) as nat),
            forall|k: int| 0 <= k < i ==> #[trigger] out.used_by_curr_pic_s1@[k] == pos@[k].1,
        decreases pos@.len() - i,
    {
        proof {
            lemma_poc_sum(pos@, i as nat);
        }
        let (minus1, used) = pos[i];
        assert(minus1 == pos@[i as int].0);
        prev = prev + (minus1 as i32 + 1);
        out.delta_poc_s1.push(prev);
        out.used_by_curr_pic_s1.push(used);
        i = i + 1;
    }
    proof {
        assert forall|k: int| 0 <= k < neg@.len() implies -delta_bound(0) <= #[trigger] out@.delta_poc_s0[k] < 0 by {
            lemma_poc_sum(neg@, (k + 1) as nat);
        }
        assert forall|k: int| 0 <= k < pos@.len() implies 0 < #[trigger] out@.delta_poc_s1[k] <= delta_bound(0) by {
            lemma_poc_sum(pos@, (k + 1) as nat);
        }
        assert(out@.delta_poc_s0 =~= want.delta_poc_s0);
        assert(out@.used_by_curr_pic_s0 =~= want.used_by_curr_pic_s0);
        assert(out@.delta_poc_s1 =~= want.delta_poc_s1);
        assert(out@.used_by_curr_pic_s1 =~= want.used_by_curr_pic_s1);
    }
    Ok(out)
}

/// The number of candidates `lo..hi` that belong to a side.
pub open spec fn side_count(
    prev: HevcShortTermRpsModel,
    delta_rps: int,
    flags: Seq<(bool, bool)>,
    negative: bool,
    lo: int,
    hi: int,
) -> int
    decreases hi - lo,
{
    if hi <= lo {
        0
    } else {
        side_count(prev, delta_rps, flags, negative, lo, hi - 1) + if on_side(
            rps_candidate(prev, delta_rps, flags, hi - 1),
            negative,
        ) {
            1int
        } else {
            0int
        }
    }
}

proof fn lemma_side_count_split(
    prev: HevcShortTermRpsModel,
    delta_rps: int,
    flags: Seq<(bool, bool)>,
    negative: bool,
    lo: int,
    mid: int,
    hi: int,
)
    requires
        lo <= mid <= hi,
    ensures
        side_count(prev, delta_rps, flags, negative, lo, hi) == side_count(
            prev,
            delta_rps,
            flags,
            negative,
            lo,
            mid,
        )
            + side_count(prev, delta_rps, flags, negative, mid, hi),
    decreases hi - mid,
{
    if mid < hi {
        lemma_side_count_split(prev, delta_rps, flags, negative, lo, mid, hi - 1);
    }
}

proof fn lemma_side_count_one(
    prev: HevcShortTermRpsModel,
    delta_rps: int,
    flags: Seq<(bool, bool)>,
    negative: bool,
    j: int,
)
    ensures
        side_count(prev, delta_rps, flags, negative, j, j) == 0,
        side_count(prev, delta_rps, flags, negative, j, j + 1) == (if on_side(
            rps_candidate(prev, delta_rps, flags, j),
            negative,
        ) {
            1int
        } else {
            0int
        }),
{
    reveal_with_fuel(side_count, 2);
}

proof fn lemma_side_counts(prev: HevcShortTermRpsModel, delta_rps: int, flags: Seq<(bool, bool)>, n: int)
    requires
        0 <= n,
    ensures
        0 <= side_count(prev, delta_rps, flags, true, 0, n),
        0 <= side_count(prev, delta_rps, flags, false, 0, n),
        side_count(prev, delta_rps, flags, true, 0, n) + side_count(prev, delta_rps, flags, false, 0, n) <= n,
    decreases n,
{
    if n > 0 {
        lemma_side_counts(prev, delta_rps, flags, n - 1);
    }
}

/// The deltas and used flags of one side of a predicted set.
#[verifier::rlimit(60)]
#[verifier::spinoff_prover]
fn predict_side(
    prev: &HevcShortTermRps,
    delta_rps: i32,
    flags: &Vec<(bool, bool)>,
    negative: bool,
    Ghost(k): Ghost<int>,
) -> (res: (Vec<i32>, Vec<bool>))
    requires
        rps_fits(prev@, k),
        0 <= k <= 64,
        -32768 <= delta_rps <= 32768,
        flags@.len() == prev@.delta_poc_s0.len() + prev@.delta_poc_s1.len() + 1,
    ensures
        ({
            let cs = picked(rps_ordered(prev@, delta_rps as int, flags@, negative), negative);
            res.0@ == deltas_of(cs) && res.1@ == used_of(cs)
        }),
        res.0@.len() == res.1@.len(),
        res.0@.len() == side_count(prev@, delta_rps as int, flags@, negative, 0, flags@.len() as int),
        forall|i: int|
            0 <= i < res.0@.len() ==> if negative {
                -delta_bound(k + 1) <= #[trigger] res.0@[i] < 0
            } else {
                0 < res.0@[i] <= delta_bound(k + 1)
            },
{
    let neg: usize = prev.num_negative_pics();
    let pos: usize = prev.num_positive_pics();
    let num: usize = neg + pos;
    let ghost all = rps_ordered(prev@, delta_rps as int, flags@, negative);
    let ghost seg = if negative {
        pos as int
    } else {
        neg as int
    };
    let ghost lo1 = if negative {
        neg as int
    } else {
        0
    };
    let ghost lo3 = if negative {
        0
    } else {
        neg as int
    };
    let mut deltas: Vec<i32> = Vec::new();
    let mut used: Vec<bool> = Vec::new();
    let mut i: usize = 0;
    proof {
        assert(all.take(0) =~= Seq::empty());
        assert(deltas@ =~= deltas_of(picked(all.take(0), negative)));
        assert(used@ =~= used_of(picked(all.take(0), negative)));
    }
    while i < num + 1
        invariant
            i <= num + 1,
            num == neg + pos,
            num <= 16 + 2 * 64,
            neg == prev@.delta_poc_s0.len(),
            pos == prev@.delta_poc_s1.len(),
            rps_fits(prev@, k),
            0 <= k <= 64,
            -32768 <= delta_rps <= 32768,
            flags@.len() == num + 1,
            all == rps_ordered(prev@, delta_rps as int, flags@, negative),
            deltas@ == deltas_of(picked(all.take(i as int), negative)),
            used@ == used_of(picked(all.take(i as int), negative)),
            seg == (if negative {
                pos as int
            } else {
                neg as int
            }),
            lo1 == (if negative {
                neg as int
            } else {
                0
            }),
            lo3 == (if negative {
                0
            } else {
                neg as int
            }),
            deltas@.len() == (if i <= seg {
                side_count(prev@, delta_rps as int, flags@, negative, lo1 + seg - i, lo1 + seg)
            } else {
                side_count(prev@, delta_rps as int, flags@, negative, lo1, lo1 + seg) + side_count(
                    prev@,
                    delta_rps as int,
                    flags@,
                    negative,
                    num as int,
                    num + 1,
                ) + side_count(prev@, delta_rps as int, flags@, negative, lo3, lo3 + i - seg - 1)
            }),
            forall|j: int|
                0 <= j < deltas@.len() ==> if negative {
                    -delta_bound(k + 1) <= #[trigger] deltas@[j] < 0
                } else {
                    0 < deltas@[j] <= delta_bound(k + 1)
                },
        decreases num + 1 - i,
    {
        let j: usize = if negative {
            if i < pos {
                num - 1 - i
            } else if i == pos {
                num
            } else {
                i - pos - 1
            }
        } else {
            if i < neg {
                neg - 1 - i
            } else if i == neg {
                num
            } else {
                i - 1
            }
        };
        let base: i32 = if j < neg {
            prev.delta_poc_s0[j]
        } else if j < num {
            prev.delta_poc_s1[j - neg]
        } else {
            0
        };
        proof {
            if j < neg {
                assert(prev@.delta_poc_s0[j as int] == base);
            } else if j < num {
                assert(prev@.delta_poc_s1[j - neg] == base);
            }
            assert(-delta_bound(k) <= base <= delta_bound(k));
            assert(all.take(i + 1).drop_last() =~= all.take(i as int));
            assert(all.take(i + 1).last() == all[i as int]);
            assert(all[i as int] == rps_candidate(prev@, delta_rps as int, flags@, j as int));
        }
        let d: i32 = base + delta_rps;
        proof {
            if i < seg {
                lemma_side_count_split(
                    prev@,
                    delta_rps as int,
                    flags@,
                    negative,
                    lo1 + seg - i - 1,
                    lo1 + seg - i,
                    lo1 + seg,
                );
                lemma_side_count_one(prev@, delta_rps as int, flags@, negative, j as int);
            } else if i == seg {
                lemma_side_count_one(prev@, delta_rps as int, flags@, negative, num as int);
            } else {
                lemma_side_count_one(prev@, delta_rps as int, flags@, negative, j as int);
            }
        }
        let (is_used, keep) = flags[j];
        let ghost before = picked(all.take(i as int), negative);
        if keep && ((negative && d < 0) || (!negative && d > 0)) {
            deltas.push(d);
            used.push(is_used);
            proof {
                let c = all[i as int];
                assert(deltas@ =~= deltas_of(before.push(c)));
                assert(used@ =~= used_of(before.push(c)));
            }
        }
        i = i + 1;
    }
    proof {
        assert(all.take(i as int) =~= all);
        lemma_side_count_split(prev@, delta_rps as int, flags@, negative, 0, neg as int, num as int);
        lemma_side_count_split(prev@, delta_rps as int, flags@, negative, 0, num as int, num + 1);
    }
    (deltas, used)
}

fn parse_predicted_rps(r: &mut BitReader<'_>, prev: &HevcShortTermRps, Ghost(k): Ghost<int>) -> (res: Result<
    HevcShortTermRps,
    BitstreamError,
>)
    requires
        rps_fits(prev@, k),
        0 <= k < 64,
    ensures
        read_view_is(predicted_rps_at(old(r).bits(), old(r).pos(), prev@), res, *old(r), *final(r)),
        res matches Ok(x) ==> x@.used_by_curr_pic_s0.len() == x@.delta_poc_s0.len(),
        res matches Ok(x) ==> x@.used_by_curr_pic_s1.len() == x@.delta_poc_s1.len(),
        res matches Ok(x) ==> rps_fits(x@, k + 1),
{
    let sign: bool = r.flag();
    let abs_minus1 = r.ue()?;
    if abs_minus1 > 32767 {
        return Err(BitstreamError::invalid("st_ref_pic_set abs_delta_rps_minus1 out of 0..=32767 (§7.4.8)"));
    }
    let delta_rps: i32 = if sign {
        -(abs_minus1 as i32 + 1)
    } else {
        abs_minus1 as i32 + 1
    };
    let num: usize = prev.num_delta_pocs();
    let flags = parse_h_flag_pairs(r, num as u64 + 1)?;
    let (delta_poc_s0, used_by_curr_pic_s0) = predict_side(prev, delta_rps, &flags, true, Ghost(k));
    let (delta_poc_s1, used_by_curr_pic_s1) = predict_side(prev, delta_rps, &flags, false, Ghost(k));
    proof {
        lemma_side_counts(prev@, delta_rps as int, flags@, flags@.len() as int);
    }
    Ok(HevcShortTermRps { delta_poc_s0, used_by_curr_pic_s0, delta_poc_s1, used_by_curr_pic_s1 })
}

/// A set as the derivation of §7.4.8 leaves it: as many flags as deltas on either
/// side, the deltas of the one negative and going down, those of the other positive
/// and going up.
pub open spec fn rps_sorted(x: HevcShortTermRpsModel) -> bool {
    &&& x.used_by_curr_pic_s0.len() == x.delta_poc_s0.len()
    &&& x.used_by_curr_pic_s1.len() == x.delta_poc_s1.len()
    &&& forall|i: int| 0 <= i < x.delta_poc_s0.len() ==> #[trigger] x.delta_poc_s0[i] < 0
    &&& forall|i: int| 0 <= i < x.delta_poc_s1.len() ==> #[trigger] x.delta_poc_s1[i] > 0
    &&& forall|i: int, j: int|
        0 <= i < j < x.delta_poc_s0.len() ==> #[trigger] x.delta_poc_s0[i] > #[trigger] x.delta_poc_s0[j]
    &&& forall|i: int, j: int|
        0 <= i < j < x.delta_poc_s1.len() ==> #[trigger] x.delta_poc_s1[i] < #[trigger] x.delta_poc_s1[j]
}

/// No delta of the set number `k` is too large.
spec fn deltas_bounded(x: HevcShortTermRpsModel, k: int) -> bool {
    &&& forall|i: int| 0 <= i < x.delta_poc_s0.len() ==> #[trigger] x.delta_poc_s0[i] >= -delta_bound(k)
    &&& forall|i: int| 0 <= i < x.delta_poc_s1.len() ==> #[trigger] x.delta_poc_s1[i] <= delta_bound(k)
}

proof fn lemma_poc_sum_grows(v: Seq<(u32, bool)>, m: nat, n: nat)
    requires
        m < n <= v.len(),
    ensures
        poc_sum(v, m) < poc_sum(v, n),
    decreases n - m,
{
    if m + 1 < n {
        lemma_poc_sum_grows(v, m, (n - 1) as nat);
    }
}

proof fn lemma_pocs_len(s: Seq<bool>, p: nat, n: nat)
    ensures
        rep_at(h_pocs_item(s), p, n) matches Ok((v, _)) ==> v.len() == n,
    decreases n,
{
    if n > 0 {
        lemma_pocs_len(s, p, (n - 1) as nat);
    }
}

proof fn lemma_explicit_sorted(s: Seq<bool>, p: nat, max_dec: u32)
    requires
        max_dec <= 15,
    ensures
        explicit_rps_at(s, p, max_dec) matches Ok((x, _)) ==> rps_sorted(x) && deltas_bounded(x, 0),
{
    if let Ok((num_neg, p1)) = ue_at(s, p) {
        if let Ok((num_pos, p2)) = ue_at(s, p1) {
            if num_neg + num_pos <= max_dec {
                lemma_pocs_range(s, p2, num_neg as u64);
                if let Ok((neg, p3)) = h_pocs_at(s, p2, num_neg as u64) {
                    lemma_pocs_range(s, p3, num_pos as u64);
                    assert(neg.len() == num_neg) by {
                        reveal(h_pocs_at);
                        lemma_pocs_len(s, p2, num_neg as nat);
                    }
                    if let Ok((pos, _)) = h_pocs_at(s, p3, num_pos as u64) {
                        assert(pos.len() == num_pos) by {
                            reveal(h_pocs_at);
                            lemma_pocs_len(s, p3, num_pos as nat);
                        }
                        lemma_explicit_sides(neg, pos);
                    }
                }
            }
        }
    }
}

proof fn lemma_explicit_sides(neg: Seq<(u32, bool)>, pos: Seq<(u32, bool)>)
    requires
        neg.len() <= 15,
        pos.len() <= 15,
        forall|i: int| 0 <= i < neg.len() ==> (#[trigger] neg[i]).0 <= 32767,
        forall|i: int| 0 <= i < pos.len() ==> (#[trigger] pos[i]).0 <= 32767,
    ensures
        rps_sorted(explicit_rps(neg, pos)),
        deltas_bounded(explicit_rps(neg, pos), 0),
{
    let x = explicit_rps(neg, pos);
    assert forall|i: int| 0 <= i < neg.len() implies -delta_bound(0) <= #[trigger] x.delta_poc_s0[i] < 0
        && x.delta_poc_s0[i] == -poc_sum(neg, (i + 1) as nat) by {
        lemma_poc_sum(neg, (i + 1) as nat);
    }
    assert forall|i: int| 0 <= i < pos.len() implies 0 < #[trigger] x.delta_poc_s1[i] <= delta_bound(0)
        && x.delta_poc_s1[i] == poc_sum(pos, (i + 1) as nat) by {
        lemma_poc_sum(pos, (i + 1) as nat);
    }
    assert forall|i: int, j: int| 0 <= i < j < neg.len() implies #[trigger] x.delta_poc_s0[i]
        > #[trigger] x.delta_poc_s0[j] by {
        lemma_poc_sum_grows(neg, (i + 1) as nat, (j + 1) as nat);
    }
    assert forall|i: int, j: int| 0 <= i < j < pos.len() implies #[trigger] x.delta_poc_s1[i]
        < #[trigger] x.delta_poc_s1[j] by {
        lemma_poc_sum_grows(pos, (i + 1) as nat, (j + 1) as nat);
    }
}

/// The deltas of candidates run down on the negative side, up on the positive one.
spec fn candidates_run(cs: Seq<RpsCandidate>, negative: bool) -> bool {
    forall|i: int, j: int|
        0 <= i < j < cs.len() ==> if negative {
            (#[trigger] cs[i]).delta > (#[trigger] cs[j]).delta
        } else {
            cs[i].delta < cs[j].delta
        }
}

proof fn lemma_picked_from(cs: Seq<RpsCandidate>, negative: bool, i: int) -> (k: int)
    requires
        0 <= i < picked(cs, negative).len(),
    ensures
        0 <= k < cs.len(),
        picked(cs, negative)[i] == cs[k],
        on_side(cs[k], negative),
    decreases cs.len(),
{
    let rest = cs.drop_last();
    if on_side(cs.last(), negative) && i == picked(rest, negative).len() {
        cs.len() - 1
    } else {
        let k = lemma_picked_from(rest, negative, i);
        assert(rest[k] == cs[k]);
        k
    }
}

proof fn lemma_picked_runs(cs: Seq<RpsCandidate>, negative: bool)
    requires
        candidates_run(cs, negative),
    ensures
        candidates_run(picked(cs, negative), negative),
    decreases cs.len(),
{
    if cs.len() > 0 {
        let rest = cs.drop_last();
        assert(candidates_run(rest, negative)) by {
            assert forall|i: int, j: int| 0 <= i < j < rest.len() implies if negative {
                (#[trigger] rest[i]).delta > (#[trigger] rest[j]).delta
            } else {
                rest[i].delta < rest[j].delta
            } by {
                assert(rest[i] == cs[i] && rest[j] == cs[j]);
            }
        }
        lemma_picked_runs(rest, negative);
        let front = picked(rest, negative);
        let all = picked(cs, negative);
        assert forall|i: int, j: int| 0 <= i < j < all.len() implies if negative {
            (#[trigger] all[i]).delta > (#[trigger] all[j]).delta
        } else {
            all[i].delta < all[j].delta
        } by {
            assert(all[i] == front[i]);
            if j < front.len() {
                assert(all[j] == front[j]);
            } else {
                let k = lemma_picked_from(rest, negative, i);
                assert(rest[k] == cs[k]);
                assert(all[j] == cs[cs.len() - 1]);
            }
        }
    }
}

proof fn lemma_ordered_runs(
    prev: HevcShortTermRpsModel,
    delta_rps: int,
    flags: Seq<(bool, bool)>,
    negative: bool,
)
    requires
        rps_sorted(prev),
    ensures
        candidates_run(rps_ordered(prev, delta_rps, flags, negative), negative),
{
    let cs = rps_ordered(prev, delta_rps, flags, negative);
    let neg = prev.delta_poc_s0.len();
    let num = neg + prev.delta_poc_s1.len();
    assert forall|i: int, j: int| 0 <= i < j < cs.len() implies if negative {
        (#[trigger] cs[i]).delta > (#[trigger] cs[j]).delta
    } else {
        cs[i].delta < cs[j].delta
    } by {
        let a = if negative {
            negative_order(prev, i)
        } else {
            positive_order(prev, i)
        };
        let b = if negative {
            negative_order(prev, j)
        } else {
            positive_order(prev, j)
        };
        assert(cs[i] == rps_candidate(prev, delta_rps, flags, a));
        assert(cs[j] == rps_candidate(prev, delta_rps, flags, b));
        assert(0 <= a <= num && 0 <= b <= num);
    }
}

#[verifier::rlimit(60)]
#[verifier::spinoff_prover]
proof fn lemma_predicted_sorted(
    prev: HevcShortTermRpsModel,
    delta_rps: int,
    flags: Seq<(bool, bool)>,
    k: int,
)
    requires
        rps_sorted(prev),
        deltas_bounded(prev, k),
        0 <= k < 64,
        -32768 <= delta_rps <= 32768,
    ensures
        rps_sorted(predicted_rps(prev, delta_rps, flags)),
        deltas_bounded(predicted_rps(prev, delta_rps, flags), k + 1),
{
    let x = predicted_rps(prev, delta_rps, flags);
    lemma_predicted_side(prev, delta_rps, flags, true, k);
    lemma_predicted_side(prev, delta_rps, flags, false, k);
    let neg = picked(rps_ordered(prev, delta_rps, flags, true), true);
    let pos = picked(rps_ordered(prev, delta_rps, flags, false), false);
    assert forall|i: int, j: int| 0 <= i < j < x.delta_poc_s0.len() implies #[trigger] x.delta_poc_s0[i]
        > #[trigger] x.delta_poc_s0[j] by {
        assert(neg[i].delta > neg[j].delta);
    }
    assert forall|i: int, j: int| 0 <= i < j < x.delta_poc_s1.len() implies #[trigger] x.delta_poc_s1[i]
        < #[trigger] x.delta_poc_s1[j] by {
        assert(pos[i].delta < pos[j].delta);
    }
}

#[verifier::rlimit(60)]
#[verifier::spinoff_prover]
proof fn lemma_predicted_side(
    prev: HevcShortTermRpsModel,
    delta_rps: int,
    flags: Seq<(bool, bool)>,
    negative: bool,
    k: int,
)
    requires
        rps_sorted(prev),
        deltas_bounded(prev, k),
        0 <= k < 64,
        -32768 <= delta_rps <= 32768,
    ensures
        ({
            let cs = picked(rps_ordered(prev, delta_rps, flags, negative), negative);
            &&& candidates_run(cs, negative)
            &&& forall|i: int|
                0 <= i < cs.len() ==> if negative {
                    -delta_bound(k + 1) <= (#[trigger] deltas_of(cs)[i]) < 0
                } else {
                    0 < deltas_of(cs)[i] <= delta_bound(k + 1)
                }
            &&& forall|i: int| 0 <= i < cs.len() ==> #[trigger] deltas_of(cs)[i] == cs[i].delta
        }),
{
    let all = rps_ordered(prev, delta_rps, flags, negative);
    let cs = picked(all, negative);
    lemma_ordered_runs(prev, delta_rps, flags, negative);
    lemma_picked_runs(all, negative);
    assert forall|i: int| 0 <= i < cs.len() implies (if negative {
        -delta_bound(k + 1) <= (#[trigger] deltas_of(cs)[i]) < 0
    } else {
        0 < deltas_of(cs)[i] <= delta_bound(k + 1)
    }) && deltas_of(cs)[i] == cs[i].delta by {
        let m = lemma_picked_from(all, negative, i);
        let a = if negative {
            negative_order(prev, m)
        } else {
            positive_order(prev, m)
        };
        assert(all[m] == rps_candidate(prev, delta_rps, flags, a));
    }
}

#[verifier::rlimit(60)]
#[verifier::spinoff_prover]
proof fn lemma_rps_list_sorted(s: Seq<bool>, p: nat, max_dec: u32, n: nat)
    requires
        max_dec <= 15,
        n <= 64,
    ensures
        rep_at(h_rps_item(s, max_dec), p, n) matches Ok((xs, _)) ==> xs.len() == n && forall|k: int|
            0 <= k < n ==> rps_sorted(#[trigger] xs[k]) && deltas_bounded(xs[k], k),
    decreases n,
{
    if n > 0 {
        lemma_rps_list_sorted(s, p, max_dec, (n - 1) as nat);
        if let Ok((done, q)) = rep_at(h_rps_item(s, max_dec), p, (n - 1) as nat) {
            let q1 = adv_if(q, 1, done.len() > 0);
            lemma_explicit_sorted(s, q1, max_dec);
            if done.len() > 0 {
                let prev = done.last();
                assert(prev == done[n - 2]);
                assert(rps_sorted(prev) && deltas_bounded(prev, n - 2));
                let sign = flag_at(s, q1);
                if let Ok((abs_minus1, q2)) = ue_at(s, adv(q1, 1)) {
                    if let Ok((flags, _)) = h_flag_pairs_at(
                        s,
                        q2,
                        (prev.delta_poc_s0.len() + prev.delta_poc_s1.len() + 1) as u64,
                    ) {
                        if abs_minus1 <= 32767 {
                            lemma_predicted_sorted(prev, delta_rps_of(sign, abs_minus1), flags, n - 2);
                        }
                    }
                }
            }
            reveal(flag_if);
            if let Ok((x, _)) = h_rps_item(s, max_dec)(done, q) {
                assert(rps_sorted(x) && deltas_bounded(x, n - 1));
                let xs = done.push(x);
                assert forall|k: int| 0 <= k < n implies rps_sorted(#[trigger] xs[k]) && deltas_bounded(xs[k], k) by {
                    if k < n - 1 {
                        assert(xs[k] == done[k]);
                    }
                }
            }
        }
    }
}

/// Every set that is read is sorted: the deltas before the picture are negative and
/// decreasing, those behind it positive and increasing.
pub proof fn law_rps_sorted(s: Seq<bool>, p: nat, max_dec: u32, n: u64)
    requires
        max_dec <= 15,
        n <= 64,
    ensures
        h_rps_list_at(s, p, max_dec, n) matches Ok((xs, _)) ==> xs.len() == n && forall|k: int|
            0 <= k < n ==> rps_sorted(#[trigger] xs[k]),
{
    reveal(h_rps_list_at);
    lemma_rps_list_sorted(s, p, max_dec, n as nat);
}

#[verifier::rlimit(60)]
#[verifier::spinoff_prover]
fn parse_h_rps_list(
    r: &mut BitReader<'_>,
    max_dec: u32,
    n: u64,
) -> (res: Result<Vec<HevcShortTermRps>, BitstreamError>)
    requires
        max_dec <= 15,
        n <= 64,
    ensures
        read_seq_is(h_rps_list_at(old(r).bits(), old(r).pos(), max_dec, n), res, *old(r), *final(r)),
{
    let ghost s = r.bits();
    let ghost p = r.pos();
    let ghost reads = h_rps_item(s, max_dec);
    let mut sets: Vec<HevcShortTermRps> = Vec::new();
    proof {
        reveal(h_rps_list_at);
        assert(seq_view(sets@) =~= Seq::empty());
    }
    let mut i: u64 = 0;
    while i < n
        invariant
            i <= n <= 64,
            max_dec <= 15,
            sets@.len() == i,
            forall|k: int| 0 <= k < i ==> rps_fits((#[trigger] sets@[k])@, k),
            reads == h_rps_item(s, max_dec),
            s == r.bits(),
            s == old(r).bits(),
            p == old(r).pos(),
            r.bytes() == old(r).bytes(),
            rep_at(reads, p, i as nat) == Ok::<(
                Seq<HevcShortTermRpsModel>,
                nat,
            ), Fault>((seq_view(sets@), r.pos())),
        decreases n - i,
    {
        proof {
            if rep_at(reads, p, (i + 1) as nat) is Err {
                reveal(h_rps_list_at);
                lemma_rep_err(reads, p, (i + 1) as nat, n as nat);
            }
            if i > 0 {
                assert(seq_view(sets@).last() == sets@[i - 1]@);
                assert(rps_fits(sets@[i - 1]@, i - 1));
            }
        }
        let inter: bool = r.flag_if(i > 0, false);
        let set = if inter {
            parse_predicted_rps(r, &sets[(i - 1) as usize], Ghost(i - 1))?
        } else {
            parse_explicit_rps(r, max_dec)?
        };
        proof {
            lemma_seq_view_push(sets@, set);
        }
        sets.push(set);
        i = i + 1;
    }
    Ok(sets)
}

// ─────────────────────────── VUI / HRD (Annex E) ────────────────────────────

/// `aspect_ratio_idc` value signalling an explicit
/// `sar_width : sar_height` pair (Table E.1).
pub const HEVC_EXTENDED_SAR: u8 = 255;

/// One CPB schedule entry from `sub_layer_hrd_parameters()` (§E.2.3).
#[derive(Debug, Clone, Copy, Default, PartialEq, Eq)]
pub struct HevcCpbEntry {
    pub bit_rate_value_minus1: u32,
    pub cpb_size_value_minus1: u32,
    /// Coded only when `sub_pic_hrd_params_present_flag` (§E.2.3).
    pub cpb_size_du_value_minus1: u32,
    pub bit_rate_du_value_minus1: u32,
    pub cbr_flag: bool,
}

/// Per-sub-layer HRD info (the §E.2.2 loop body plus its §E.2.3
/// schedule lists).
#[derive(Debug, Clone, Default, PartialEq, Eq)]
pub struct HevcHrdSubLayer {
    pub fixed_pic_rate_general_flag: bool,
    /// Inferred equal to `fixed_pic_rate_general_flag` when that flag
    /// is set (§E.3.2).
    pub fixed_pic_rate_within_cvs_flag: bool,
    /// Present iff `fixed_pic_rate_within_cvs_flag` (§E.2.2).
    pub elemental_duration_in_tc_minus1: Option<u32>,
    pub low_delay_hrd_flag: bool,
    /// §E.3.2: 0..=31; inferred 0 when absent.
    pub cpb_cnt_minus1: u32,
    /// `sub_layer_hrd_parameters(i)` for the NAL HRD, when signalled.
    pub nal_cpb: Vec<HevcCpbEntry>,
    /// Same for the VCL HRD.
    pub vcl_cpb: Vec<HevcCpbEntry>,
}

/// `hrd_parameters( commonInfPresentFlag, maxNumSubLayersMinus1 )`
/// (§E.2.2), as embedded in the SPS VUI (`commonInfPresentFlag == 1`).
#[derive(Debug, Clone, Default, PartialEq, Eq)]
pub struct HevcHrdParameters {
    pub nal_hrd_parameters_present_flag: bool,
    pub vcl_hrd_parameters_present_flag: bool,
    pub sub_pic_hrd_params_present_flag: bool,
    pub tick_divisor_minus2: u8,
    pub du_cpb_removal_delay_increment_length_minus1: u8,
    pub sub_pic_cpb_params_in_pic_timing_sei_flag: bool,
    pub dpb_output_delay_du_length_minus1: u8,
    pub bit_rate_scale: u8,
    pub cpb_size_scale: u8,
    pub cpb_size_du_scale: u8,
    pub initial_cpb_removal_delay_length_minus1: u8,
    pub au_cpb_removal_delay_length_minus1: u8,
    pub dpb_output_delay_length_minus1: u8,
    /// One entry per sub-layer `0..=maxNumSubLayersMinus1`.
    pub sub_layers: Vec<HevcHrdSubLayer>,
}

/// A CPB schedule entry (§E.2.3) at position `p`.
#[verifier::opaque]
pub open spec fn h_cpb_at(s: Seq<bool>, p: nat, sub_pic: bool) -> Read<HevcCpbEntry> {
    match ue_at(s, p) { Err(f) => Err(f), Ok((bit_rate_value_minus1, p)) => {
    match ue_at(s, p) { Err(f) => Err(f), Ok((cpb_size_value_minus1, p)) => {
    match ue_if(s, p, sub_pic, 0) { Err(f) => Err(f), Ok((cpb_size_du_value_minus1, p)) => {
    match ue_if(s, p, sub_pic, 0) { Err(f) => Err(f), Ok((bit_rate_du_value_minus1, p)) => {
    let cbr_flag = flag_at(s, p);
    let p = adv(p, 1);
    Ok((
        HevcCpbEntry {
            bit_rate_value_minus1,
            cpb_size_value_minus1,
            cpb_size_du_value_minus1,
            bit_rate_du_value_minus1,
            cbr_flag,
        },
        p,
    ))
    }}}}}}}}
}

/// Parses a CPB schedule entry (§E.2.3).
fn parse_h_cpb(r: &mut BitReader<'_>, sub_pic: bool) -> (res: Result<HevcCpbEntry, BitstreamError>)
    ensures
        read_is(h_cpb_at(old(r).bits(), old(r).pos(), sub_pic), res, *old(r), *final(r)),
{
    proof {
        reveal(h_cpb_at);
    }
    let bit_rate_value_minus1: u32 = r.ue()?;
    let cpb_size_value_minus1: u32 = r.ue()?;
    let cpb_size_du_value_minus1: u32 = r.ue_if(sub_pic, 0)?;
    let bit_rate_du_value_minus1: u32 = r.ue_if(sub_pic, 0)?;
    let cbr_flag: bool = r.flag();
    Ok(
        HevcCpbEntry {
            bit_rate_value_minus1,
            cpb_size_value_minus1,
            cpb_size_du_value_minus1,
            bit_rate_du_value_minus1,
            cbr_flag,
        },
    )
}

/// The layout of a CPB schedule entry (§E.2.3): reading at `p` gives `x` and
/// ends at `q` if and only if these elements stand there in this order.
pub proof fn law_layout_h_cpb(s: Seq<bool>, p: nat, sub_pic: bool, x: HevcCpbEntry, q: nat)
    ensures
        h_cpb_at(s, p, sub_pic) == Ok::<(HevcCpbEntry, nat), Fault>((x, q)) <==> cursor(s, p)
            .ue(x.bit_rate_value_minus1)
            .ue(x.cpb_size_value_minus1)
            .ue_if(sub_pic, x.cpb_size_du_value_minus1, 0)
            .ue_if(sub_pic, x.bit_rate_du_value_minus1, 0)
            .flag(x.cbr_flag)
            .ends(q),
{
    reveal(h_cpb_at);
    reveal(ue_if);
}

/// Reading a CPB schedule entry (§E.2.3) fails only with an error of this
/// class.
pub broadcast proof fn law_faults_h_cpb(s: Seq<bool>, p: nat, sub_pic: bool)
    ensures
        #[trigger] h_cpb_at(s, p, sub_pic) matches Err(f) ==> f == Fault::Invalid,
{
    broadcast use crate::bits::law_faults_ue;

    reveal(h_cpb_at);
    reveal(ue_if);
}

/// Reads a CPB schedule entry (§E.2.3), behind the items before it.
pub open spec fn h_cpbs_item(
    s: Seq<bool>,
    sub_pic: bool,
) -> spec_fn(Seq<HevcCpbEntry>, nat) -> Read<HevcCpbEntry> {
    |done: Seq<HevcCpbEntry>, q: nat| h_cpb_at(s, q, sub_pic)
}

/// `n` items at position `p`, each a CPB schedule entry (§E.2.3).
#[verifier::opaque]
pub open spec fn h_cpbs_at(s: Seq<bool>, p: nat, sub_pic: bool, n: u64) -> Read<Seq<HevcCpbEntry>> {
    rep_at(h_cpbs_item(s, sub_pic), p, n as nat)
}

/// Parses `n` items, each a CPB schedule entry (§E.2.3).
fn parse_h_cpbs(
    r: &mut BitReader<'_>,
    sub_pic: bool,
    n: u64,
) -> (res: Result<Vec<HevcCpbEntry>, BitstreamError>)
    ensures
        read_vec_is(h_cpbs_at(old(r).bits(), old(r).pos(), sub_pic, n), res, *old(r), *final(r)),
        res matches Ok(v) ==> v@.len() == n,
{
    let ghost s = r.bits();
    let ghost p = r.pos();
    let ghost reads = h_cpbs_item(s, sub_pic);
    let mut xs: Vec<HevcCpbEntry> = Vec::new();
    let mut i: u64 = 0;
    proof {
        reveal(h_cpbs_at);
    }
    while i < n
        invariant
            i <= n,
            xs@.len() == i,
            reads == h_cpbs_item(s, sub_pic),
            s == r.bits(),
            s == old(r).bits(),
            p == old(r).pos(),
            r.bytes() == old(r).bytes(),
            rep_at(reads, p, i as nat) == Ok::<(Seq<HevcCpbEntry>, nat), Fault>((xs@, r.pos())),
        decreases n - i,
    {
        match parse_h_cpb(r, sub_pic) {
            Ok(x) => {
                xs.push(x);
            },
            Err(e) => {
                proof {
                    reveal(h_cpbs_at);
                    lemma_rep_err(reads, p, (i + 1) as nat, n as nat);
                }
                return Err(e);
            },
        }
        i = i + 1;
    }
    Ok(xs)
}

/// `n` items stand one behind the other: `n - 1` items, and then a CPB schedule
/// entry (§E.2.3).
pub proof fn law_layout_h_cpbs(s: Seq<bool>, p: nat, sub_pic: bool, n: u64, xs: Seq<HevcCpbEntry>, q: nat)
    ensures
        h_cpbs_at(s, p, sub_pic, n) == Ok::<(Seq<HevcCpbEntry>, nat), Fault>((xs, q)) <==> if n == 0 {
            xs.len() == 0 && q == p
        } else {
            &&& xs.len() == n
            &&& cursor(s, p)
                .part(|p: nat| h_cpbs_at(s, p, sub_pic, (n - 1) as u64), xs.drop_last())
                .part(|p: nat| h_cpb_at(s, p, sub_pic), xs.last())
                .ends(q)
        },
{
    reveal(h_cpbs_at);
    lemma_rep_step(h_cpbs_item(s, sub_pic), p, n as nat);
    if xs.len() == 0 {
        assert(xs =~= Seq::empty());
    } else {
        assert(xs =~= xs.drop_last().push(xs.last()));
    }
    if n > 0 {
        if let Ok((done, r)) = rep_at(h_cpbs_item(s, sub_pic), p, (n - 1) as nat) {
            if let Ok((y, z)) = h_cpbs_item(s, sub_pic)(done, r) {
                assert(done.push(y).drop_last() =~= done);
            }
        }
    }
}

/// Reading the items fails only with an error of this class.
pub broadcast proof fn law_faults_h_cpbs(s: Seq<bool>, p: nat, sub_pic: bool, n: u64)
    ensures
        #[trigger] h_cpbs_at(s, p, sub_pic, n) matches Err(f) ==> f == Fault::Invalid,
{
    broadcast use law_faults_h_cpb;

    reveal(h_cpbs_at);
    let f = h_cpbs_item(s, sub_pic);
    assert forall|done: Seq<HevcCpbEntry>, q: nat| (#[trigger] f(done, q)) matches Err(e)
        ==> e == Fault::Invalid by {}
    lemma_rep_faults(f, p, n as nat, |f: Fault| f == Fault::Invalid);
}

/// A ue(v) value at position `p`.
#[verifier::opaque]
pub open spec fn h_ue_at(s: Seq<bool>, p: nat) -> Read<u32> {
    match ue_at(s, p) { Err(f) => Err(f), Ok((v, p)) => {
    Ok((v, p)) }}
}

/// Parses a ue(v) value.
fn parse_h_ue(r: &mut BitReader<'_>) -> (res: Result<u32, BitstreamError>)
    ensures
        read_is(h_ue_at(old(r).bits(), old(r).pos()), res, *old(r), *final(r)),
{
    proof {
        reveal(h_ue_at);
    }
    let v: u32 = r.ue()?;
    Ok(v)
}

/// The layout of a ue(v) value: reading at `p` gives `x` and ends at `q` if and
/// only if these elements stand there in this order.
pub proof fn law_layout_h_ue(s: Seq<bool>, p: nat, x: u32, q: nat)
    ensures
        h_ue_at(s, p) == Ok::<(u32, nat), Fault>((x, q)) <==> cursor(s, p).ue(x).ends(q),
{
    reveal(h_ue_at);
}

/// Reading a ue(v) value fails only with an error of this class.
pub broadcast proof fn law_faults_h_ue(s: Seq<bool>, p: nat)
    ensures
        #[trigger] h_ue_at(s, p) matches Err(f) ==> f == Fault::Invalid,
{
    broadcast use crate::bits::law_faults_ue;

    reveal(h_ue_at);
}

/// The mathematical model of a [`HevcHrdSubLayer`].
pub struct HevcHrdSubLayerModel {
    pub fixed_pic_rate_general_flag: bool,
    pub fixed_pic_rate_within_cvs_flag: bool,
    pub elemental_duration_in_tc_minus1: Option<u32>,
    pub low_delay_hrd_flag: bool,
    pub cpb_cnt_minus1: u32,
    pub nal_cpb: Seq<HevcCpbEntry>,
    pub vcl_cpb: Seq<HevcCpbEntry>,
}

impl View for HevcHrdSubLayer {
    type V = HevcHrdSubLayerModel;

    open spec fn view(&self) -> HevcHrdSubLayerModel {
        HevcHrdSubLayerModel {
            fixed_pic_rate_general_flag: self.fixed_pic_rate_general_flag,
            fixed_pic_rate_within_cvs_flag: self.fixed_pic_rate_within_cvs_flag,
            elemental_duration_in_tc_minus1: self.elemental_duration_in_tc_minus1,
            low_delay_hrd_flag: self.low_delay_hrd_flag,
            cpb_cnt_minus1: self.cpb_cnt_minus1,
            nal_cpb: self.nal_cpb@,
            vcl_cpb: self.vcl_cpb@,
        }
    }
}

/// The HRD information of a sub-layer (§E.2.2) at position `p`.
#[verifier::opaque]
pub open spec fn h_sub_layer_at(
    s: Seq<bool>,
    p: nat,
    nal: bool,
    vcl: bool,
    sub_pic: bool,
) -> Read<HevcHrdSubLayerModel> {
    let fixed_pic_rate_general_flag = flag_at(s, p);
    let p = adv(p, 1);
    let fixed_pic_rate_within_cvs_flag = flag_if(s, p, !fixed_pic_rate_general_flag, true);
    let p = adv_if(p, 1, !fixed_pic_rate_general_flag);
    match (if fixed_pic_rate_within_cvs_flag { read_some(h_ue_at(s, p)) } else { Ok((None, p)) })
    { Err(f) => Err(f), Ok((elemental_duration_in_tc_minus1, p)) => {
    let low_delay_hrd_flag = flag_if(s, p, !fixed_pic_rate_within_cvs_flag, false);
    let p = adv_if(p, 1, !fixed_pic_rate_within_cvs_flag);
    match ue_if(s, p, !low_delay_hrd_flag, 0) { Err(f) => Err(f), Ok((cpb_cnt_minus1, p)) => {
    if cpb_cnt_minus1 > 31 { Err(Fault::Invalid) } else {
    let cnt = (cpb_cnt_minus1 as u64 + 1) as u64;
    match h_cpbs_at(s, p, sub_pic, (if nal { cnt } else { 0u64 })) { Err(f) => Err(f), Ok((nal_cpb, p)) => {
    match h_cpbs_at(s, p, sub_pic, (if vcl { cnt } else { 0u64 })) { Err(f) => Err(f), Ok((vcl_cpb, p)) => {
    Ok((
        HevcHrdSubLayerModel {
            fixed_pic_rate_general_flag,
            fixed_pic_rate_within_cvs_flag,
            elemental_duration_in_tc_minus1,
            low_delay_hrd_flag,
            cpb_cnt_minus1,
            nal_cpb,
            vcl_cpb,
        },
        p,
    ))
    }}}}}}}}}
}

/// Parses the HRD information of a sub-layer (§E.2.2).
fn parse_h_sub_layer(
    r: &mut BitReader<'_>,
    nal: bool,
    vcl: bool,
    sub_pic: bool,
) -> (res: Result<HevcHrdSubLayer, BitstreamError>)
    ensures
        read_view_is(h_sub_layer_at(old(r).bits(), old(r).pos(), nal, vcl, sub_pic), res, *old(r), *final(r)),
{
    proof {
        reveal(h_sub_layer_at);
    }
    let fixed_pic_rate_general_flag: bool = r.flag();
    let fixed_pic_rate_within_cvs_flag: bool = r.flag_if(!fixed_pic_rate_general_flag, true);
    let elemental_duration_in_tc_minus1 = if fixed_pic_rate_within_cvs_flag {
        Some(parse_h_ue(r)?)
    } else {
        None
    };
    let low_delay_hrd_flag: bool = r.flag_if(!fixed_pic_rate_within_cvs_flag, false);
    let cpb_cnt_minus1: u32 = r.ue_if(!low_delay_hrd_flag, 0)?;
    if cpb_cnt_minus1 > 31 {
        return Err(
            Message::new("hrd_parameters cpb_cnt_minus1=")
                .num(cpb_cnt_minus1 as i128)
                .with(" (must be 0..=31, §E.3.2)")
                .invalid(),
        );
    }
    let cnt: u64 = cpb_cnt_minus1 as u64 + 1;
    let nal_cpb = parse_h_cpbs(r, sub_pic, (if nal { cnt } else { 0u64 }))?;
    let vcl_cpb = parse_h_cpbs(r, sub_pic, (if vcl { cnt } else { 0u64 }))?;
    Ok(
        HevcHrdSubLayer {
            fixed_pic_rate_general_flag,
            fixed_pic_rate_within_cvs_flag,
            elemental_duration_in_tc_minus1,
            low_delay_hrd_flag,
            cpb_cnt_minus1,
            nal_cpb,
            vcl_cpb,
        },
    )
}

/// The layout of the HRD information of a sub-layer (§E.2.2): reading at `p`
/// gives `x` and ends at `q` if and only if these elements stand there in this
/// order, and the values are allowed.
pub proof fn law_layout_h_sub_layer(
    s: Seq<bool>,
    p: nat,
    nal: bool,
    vcl: bool,
    sub_pic: bool,
    x: HevcHrdSubLayerModel,
    q: nat,
)
    ensures
        h_sub_layer_at(s, p, nal, vcl, sub_pic) == Ok::<(HevcHrdSubLayerModel, nat), Fault>((x, q)) <==> ({
            let cnt = (x.cpb_cnt_minus1 as u64 + 1) as u64;
            &&& cursor(s, p)
                .flag(x.fixed_pic_rate_general_flag)
                .flag_if(!x.fixed_pic_rate_general_flag, x.fixed_pic_rate_within_cvs_flag, true)
                .part_if(
                    x.fixed_pic_rate_within_cvs_flag,
                    |p: nat| h_ue_at(s, p),
                    x.elemental_duration_in_tc_minus1,
                )
                .flag_if(!x.fixed_pic_rate_within_cvs_flag, x.low_delay_hrd_flag, false)
                .ue_if(!x.low_delay_hrd_flag, x.cpb_cnt_minus1, 0)
                .part(|p: nat| h_cpbs_at(s, p, sub_pic, (if nal { cnt } else { 0u64 })), x.nal_cpb)
                .part(|p: nat| h_cpbs_at(s, p, sub_pic, (if vcl { cnt } else { 0u64 })), x.vcl_cpb)
                .ends(q)
            &&& x.cpb_cnt_minus1 <= 31
        }),
{
    reveal(h_sub_layer_at);
    reveal(adv_if);
    reveal(flag_if);
    reveal(ue_if);
}

/// Reading the HRD information of a sub-layer (§E.2.2) fails only with an error
/// of this class.
pub broadcast proof fn law_faults_h_sub_layer(s: Seq<bool>, p: nat, nal: bool, vcl: bool, sub_pic: bool)
    ensures
        #[trigger] h_sub_layer_at(s, p, nal, vcl, sub_pic) matches Err(f) ==> f == Fault::Invalid,
{
    broadcast use {law_faults_h_ue, crate::bits::law_faults_ue, law_faults_h_cpbs};

    reveal(h_sub_layer_at);
    reveal(ue_if);
}

/// Each field of the model of a [`HevcHrdSubLayer`] is the field of that name.
pub proof fn law_view_h_sub_layer(x: HevcHrdSubLayer)
    ensures
        x@.fixed_pic_rate_general_flag == x.fixed_pic_rate_general_flag,
        x@.fixed_pic_rate_within_cvs_flag == x.fixed_pic_rate_within_cvs_flag,
        x@.elemental_duration_in_tc_minus1 == x.elemental_duration_in_tc_minus1,
        x@.low_delay_hrd_flag == x.low_delay_hrd_flag,
        x@.cpb_cnt_minus1 == x.cpb_cnt_minus1,
        x@.nal_cpb == x.nal_cpb@,
        x@.vcl_cpb == x.vcl_cpb@,
{
}

/// Reads the HRD information of a sub-layer (§E.2.2), behind the items before
/// it.
pub open spec fn h_sub_layers_item(
    s: Seq<bool>,
    nal: bool,
    vcl: bool,
    sub_pic: bool,
) -> spec_fn(Seq<HevcHrdSubLayerModel>, nat) -> Read<HevcHrdSubLayerModel> {
    |done: Seq<HevcHrdSubLayerModel>, q: nat| h_sub_layer_at(s, q, nal, vcl, sub_pic)
}

/// `n` items at position `p`, each the HRD information of a sub-layer (§E.2.2).
#[verifier::opaque]
pub open spec fn h_sub_layers_at(
    s: Seq<bool>,
    p: nat,
    nal: bool,
    vcl: bool,
    sub_pic: bool,
    n: u64,
) -> Read<Seq<HevcHrdSubLayerModel>> {
    rep_at(h_sub_layers_item(s, nal, vcl, sub_pic), p, n as nat)
}

/// Parses `n` items, each the HRD information of a sub-layer (§E.2.2).
fn parse_h_sub_layers(
    r: &mut BitReader<'_>,
    nal: bool,
    vcl: bool,
    sub_pic: bool,
    n: u64,
) -> (res: Result<Vec<HevcHrdSubLayer>, BitstreamError>)
    ensures
        read_seq_is(
            h_sub_layers_at(old(r).bits(), old(r).pos(), nal, vcl, sub_pic, n),
            res,
            *old(r),
            *final(r),
        ),
        res matches Ok(v) ==> v@.len() == n,
{
    let ghost s = r.bits();
    let ghost p = r.pos();
    let ghost reads = h_sub_layers_item(s, nal, vcl, sub_pic);
    let mut xs: Vec<HevcHrdSubLayer> = Vec::new();
    let mut i: u64 = 0;
    proof {
        reveal(h_sub_layers_at);
        assert(seq_view(xs@) =~= Seq::empty());
    }
    while i < n
        invariant
            i <= n,
            xs@.len() == i,
            reads == h_sub_layers_item(s, nal, vcl, sub_pic),
            s == r.bits(),
            s == old(r).bits(),
            p == old(r).pos(),
            r.bytes() == old(r).bytes(),
            rep_at(reads, p, i as nat) == Ok::<(
                Seq<HevcHrdSubLayerModel>,
                nat,
            ), Fault>((seq_view(xs@), r.pos())),
        decreases n - i,
    {
        match parse_h_sub_layer(r, nal, vcl, sub_pic) {
            Ok(x) => {
                proof {
                lemma_seq_view_push(xs@, x);
            }
            xs.push(x);
            },
            Err(e) => {
                proof {
                    reveal(h_sub_layers_at);
                    lemma_rep_err(reads, p, (i + 1) as nat, n as nat);
                }
                return Err(e);
            },
        }
        i = i + 1;
    }
    Ok(xs)
}

/// `n` items stand one behind the other: `n - 1` items, and then the HRD
/// information of a sub-layer (§E.2.2).
pub proof fn law_layout_h_sub_layers(
    s: Seq<bool>,
    p: nat,
    nal: bool,
    vcl: bool,
    sub_pic: bool,
    n: u64,
    xs: Seq<HevcHrdSubLayerModel>,
    q: nat,
)
    ensures
        h_sub_layers_at(s, p, nal, vcl, sub_pic, n) == Ok::<(Seq<HevcHrdSubLayerModel>, nat), Fault>((xs, q)) <==> if n == 0 {
            xs.len() == 0 && q == p
        } else {
            &&& xs.len() == n
            &&& cursor(s, p)
                .part(|p: nat| h_sub_layers_at(s, p, nal, vcl, sub_pic, (n - 1) as u64), xs.drop_last())
                .part(|p: nat| h_sub_layer_at(s, p, nal, vcl, sub_pic), xs.last())
                .ends(q)
        },
{
    reveal(h_sub_layers_at);
    lemma_rep_step(h_sub_layers_item(s, nal, vcl, sub_pic), p, n as nat);
    if xs.len() == 0 {
        assert(xs =~= Seq::empty());
    } else {
        assert(xs =~= xs.drop_last().push(xs.last()));
    }
    if n > 0 {
        if let Ok((done, r)) = rep_at(h_sub_layers_item(s, nal, vcl, sub_pic), p, (n - 1) as nat) {
            if let Ok((y, z)) = h_sub_layers_item(s, nal, vcl, sub_pic)(done, r) {
                assert(done.push(y).drop_last() =~= done);
            }
        }
    }
}

/// Reading the items fails only with an error of this class.
pub broadcast proof fn law_faults_h_sub_layers(
    s: Seq<bool>,
    p: nat,
    nal: bool,
    vcl: bool,
    sub_pic: bool,
    n: u64,
)
    ensures
        #[trigger] h_sub_layers_at(s, p, nal, vcl, sub_pic, n) matches Err(f) ==> f == Fault::Invalid,
{
    broadcast use law_faults_h_sub_layer;

    reveal(h_sub_layers_at);
    let f = h_sub_layers_item(s, nal, vcl, sub_pic);
    assert forall|done: Seq<HevcHrdSubLayerModel>, q: nat| (#[trigger] f(done, q)) matches Err(e)
        ==> e == Fault::Invalid by {}
    lemma_rep_faults(f, p, n as nat, |f: Fault| f == Fault::Invalid);
}

/// The mathematical model of a [`HevcHrdParameters`].
pub struct HevcHrdParametersModel {
    pub nal_hrd_parameters_present_flag: bool,
    pub vcl_hrd_parameters_present_flag: bool,
    pub sub_pic_hrd_params_present_flag: bool,
    pub tick_divisor_minus2: u8,
    pub du_cpb_removal_delay_increment_length_minus1: u8,
    pub sub_pic_cpb_params_in_pic_timing_sei_flag: bool,
    pub dpb_output_delay_du_length_minus1: u8,
    pub bit_rate_scale: u8,
    pub cpb_size_scale: u8,
    pub cpb_size_du_scale: u8,
    pub initial_cpb_removal_delay_length_minus1: u8,
    pub au_cpb_removal_delay_length_minus1: u8,
    pub dpb_output_delay_length_minus1: u8,
    pub sub_layers: Seq<HevcHrdSubLayerModel>,
}

impl View for HevcHrdParameters {
    type V = HevcHrdParametersModel;

    open spec fn view(&self) -> HevcHrdParametersModel {
        HevcHrdParametersModel {
            nal_hrd_parameters_present_flag: self.nal_hrd_parameters_present_flag,
            vcl_hrd_parameters_present_flag: self.vcl_hrd_parameters_present_flag,
            sub_pic_hrd_params_present_flag: self.sub_pic_hrd_params_present_flag,
            tick_divisor_minus2: self.tick_divisor_minus2,
            du_cpb_removal_delay_increment_length_minus1: self.du_cpb_removal_delay_increment_length_minus1,
            sub_pic_cpb_params_in_pic_timing_sei_flag: self.sub_pic_cpb_params_in_pic_timing_sei_flag,
            dpb_output_delay_du_length_minus1: self.dpb_output_delay_du_length_minus1,
            bit_rate_scale: self.bit_rate_scale,
            cpb_size_scale: self.cpb_size_scale,
            cpb_size_du_scale: self.cpb_size_du_scale,
            initial_cpb_removal_delay_length_minus1: self.initial_cpb_removal_delay_length_minus1,
            au_cpb_removal_delay_length_minus1: self.au_cpb_removal_delay_length_minus1,
            dpb_output_delay_length_minus1: self.dpb_output_delay_length_minus1,
            sub_layers: seq_view(self.sub_layers@),
        }
    }
}

/// `hrd_parameters(1, max)` (§E.2.2) at position `p`.
#[verifier::opaque]
pub open spec fn h_hrd_at(s: Seq<bool>, p: nat, max: u8) -> Read<HevcHrdParametersModel> {
    let nal_hrd_parameters_present_flag = flag_at(s, p);
    let p = adv(p, 1);
    let vcl_hrd_parameters_present_flag = flag_at(s, p);
    let p = adv(p, 1);
    let any = nal_hrd_parameters_present_flag || vcl_hrd_parameters_present_flag;
    let sub_pic_hrd_params_present_flag = flag_if(s, p, any, false);
    let p = adv_if(p, 1, any);
    let tick_divisor_minus2 = u8_if(s, p, 8, sub_pic_hrd_params_present_flag, 0);
    let p = adv_if(p, 8, sub_pic_hrd_params_present_flag);
    let du_cpb_removal_delay_increment_length_minus1 = u8_if(s, p, 5, sub_pic_hrd_params_present_flag, 0);
    let p = adv_if(p, 5, sub_pic_hrd_params_present_flag);
    let sub_pic_cpb_params_in_pic_timing_sei_flag = flag_if(s, p, sub_pic_hrd_params_present_flag, false);
    let p = adv_if(p, 1, sub_pic_hrd_params_present_flag);
    let dpb_output_delay_du_length_minus1 = u8_if(s, p, 5, sub_pic_hrd_params_present_flag, 0);
    let p = adv_if(p, 5, sub_pic_hrd_params_present_flag);
    let bit_rate_scale = u8_if(s, p, 4, any, 0);
    let p = adv_if(p, 4, any);
    let cpb_size_scale = u8_if(s, p, 4, any, 0);
    let p = adv_if(p, 4, any);
    let cpb_size_du_scale = u8_if(s, p, 4, sub_pic_hrd_params_present_flag, 0);
    let p = adv_if(p, 4, sub_pic_hrd_params_present_flag);
    let initial_cpb_removal_delay_length_minus1 = u8_if(s, p, 5, any, 0);
    let p = adv_if(p, 5, any);
    let au_cpb_removal_delay_length_minus1 = u8_if(s, p, 5, any, 0);
    let p = adv_if(p, 5, any);
    let dpb_output_delay_length_minus1 = u8_if(s, p, 5, any, 0);
    let p = adv_if(p, 5, any);
    match h_sub_layers_at(
        s,
        p,
        nal_hrd_parameters_present_flag,
        vcl_hrd_parameters_present_flag,
        sub_pic_hrd_params_present_flag,
        (max as u64 + 1) as u64,
    )
    { Err(f) => Err(f), Ok((sub_layers, p)) => {
    Ok((
        HevcHrdParametersModel {
            nal_hrd_parameters_present_flag,
            vcl_hrd_parameters_present_flag,
            sub_pic_hrd_params_present_flag,
            tick_divisor_minus2,
            du_cpb_removal_delay_increment_length_minus1,
            sub_pic_cpb_params_in_pic_timing_sei_flag,
            dpb_output_delay_du_length_minus1,
            bit_rate_scale,
            cpb_size_scale,
            cpb_size_du_scale,
            initial_cpb_removal_delay_length_minus1,
            au_cpb_removal_delay_length_minus1,
            dpb_output_delay_length_minus1,
            sub_layers,
        },
        p,
    ))
    }}
}

/// Parses `hrd_parameters(1, max)` (§E.2.2).
fn parse_h_hrd(r: &mut BitReader<'_>, max: u8) -> (res: Result<HevcHrdParameters, BitstreamError>)
    ensures
        read_view_is(h_hrd_at(old(r).bits(), old(r).pos(), max), res, *old(r), *final(r)),
{
    proof {
        reveal(h_hrd_at);
    }
    let nal_hrd_parameters_present_flag: bool = r.flag();
    let vcl_hrd_parameters_present_flag: bool = r.flag();
    let any: bool = nal_hrd_parameters_present_flag || vcl_hrd_parameters_present_flag;
    let sub_pic_hrd_params_present_flag: bool = r.flag_if(any, false);
    let tick_divisor_minus2: u8 = r.u8_if(8, sub_pic_hrd_params_present_flag, 0);
    let du_cpb_removal_delay_increment_length_minus1: u8 = r.u8_if(5, sub_pic_hrd_params_present_flag, 0);
    let sub_pic_cpb_params_in_pic_timing_sei_flag: bool = r.flag_if(sub_pic_hrd_params_present_flag, false);
    let dpb_output_delay_du_length_minus1: u8 = r.u8_if(5, sub_pic_hrd_params_present_flag, 0);
    let bit_rate_scale: u8 = r.u8_if(4, any, 0);
    let cpb_size_scale: u8 = r.u8_if(4, any, 0);
    let cpb_size_du_scale: u8 = r.u8_if(4, sub_pic_hrd_params_present_flag, 0);
    let initial_cpb_removal_delay_length_minus1: u8 = r.u8_if(5, any, 0);
    let au_cpb_removal_delay_length_minus1: u8 = r.u8_if(5, any, 0);
    let dpb_output_delay_length_minus1: u8 = r.u8_if(5, any, 0);
    let sub_layers = parse_h_sub_layers(
        r,
        nal_hrd_parameters_present_flag,
        vcl_hrd_parameters_present_flag,
        sub_pic_hrd_params_present_flag,
        max as u64 + 1,
    )?;
    Ok(
        HevcHrdParameters {
            nal_hrd_parameters_present_flag,
            vcl_hrd_parameters_present_flag,
            sub_pic_hrd_params_present_flag,
            tick_divisor_minus2,
            du_cpb_removal_delay_increment_length_minus1,
            sub_pic_cpb_params_in_pic_timing_sei_flag,
            dpb_output_delay_du_length_minus1,
            bit_rate_scale,
            cpb_size_scale,
            cpb_size_du_scale,
            initial_cpb_removal_delay_length_minus1,
            au_cpb_removal_delay_length_minus1,
            dpb_output_delay_length_minus1,
            sub_layers,
        },
    )
}

/// The layout of `hrd_parameters(1, max)` (§E.2.2): reading at `p` gives `x`
/// and ends at `q` if and only if these elements stand there in this order.
pub proof fn law_layout_h_hrd(s: Seq<bool>, p: nat, max: u8, x: HevcHrdParametersModel, q: nat)
    ensures
        h_hrd_at(s, p, max) == Ok::<(HevcHrdParametersModel, nat), Fault>((x, q)) <==> ({
            let any = x.nal_hrd_parameters_present_flag || x.vcl_hrd_parameters_present_flag;
            &&& cursor(s, p)
                .flag(x.nal_hrd_parameters_present_flag)
                .flag(x.vcl_hrd_parameters_present_flag)
                .flag_if(any, x.sub_pic_hrd_params_present_flag, false)
                .u8_if(x.sub_pic_hrd_params_present_flag, 8, x.tick_divisor_minus2, 0)
                .u8_if(
                    x.sub_pic_hrd_params_present_flag,
                    5,
                    x.du_cpb_removal_delay_increment_length_minus1,
                    0,
                )
                .flag_if(
                    x.sub_pic_hrd_params_present_flag,
                    x.sub_pic_cpb_params_in_pic_timing_sei_flag,
                    false,
                )
                .u8_if(x.sub_pic_hrd_params_present_flag, 5, x.dpb_output_delay_du_length_minus1, 0)
                .u8_if(any, 4, x.bit_rate_scale, 0)
                .u8_if(any, 4, x.cpb_size_scale, 0)
                .u8_if(x.sub_pic_hrd_params_present_flag, 4, x.cpb_size_du_scale, 0)
                .u8_if(any, 5, x.initial_cpb_removal_delay_length_minus1, 0)
                .u8_if(any, 5, x.au_cpb_removal_delay_length_minus1, 0)
                .u8_if(any, 5, x.dpb_output_delay_length_minus1, 0)
                .part(
                    |p: nat| h_sub_layers_at(
                        s,
                        p,
                        x.nal_hrd_parameters_present_flag,
                        x.vcl_hrd_parameters_present_flag,
                        x.sub_pic_hrd_params_present_flag,
                        (max as u64 + 1) as u64,
                    ),
                    x.sub_layers,
                )
                .ends(q)
        }),
{
    reveal(h_hrd_at);
    reveal(adv_if);
    reveal(flag_if);
    reveal(u8_if);
}

/// Reading `hrd_parameters(1, max)` (§E.2.2) fails only with an error of this
/// class.
pub broadcast proof fn law_faults_h_hrd(s: Seq<bool>, p: nat, max: u8)
    ensures
        #[trigger] h_hrd_at(s, p, max) matches Err(f) ==> f == Fault::Invalid,
{
    broadcast use law_faults_h_sub_layers;

    reveal(h_hrd_at);
}

/// Each field of the model of a [`HevcHrdParameters`] is the field of that name.
pub proof fn law_view_h_hrd(x: HevcHrdParameters)
    ensures
        x@.nal_hrd_parameters_present_flag == x.nal_hrd_parameters_present_flag,
        x@.vcl_hrd_parameters_present_flag == x.vcl_hrd_parameters_present_flag,
        x@.sub_pic_hrd_params_present_flag == x.sub_pic_hrd_params_present_flag,
        x@.tick_divisor_minus2 == x.tick_divisor_minus2,
        x@.du_cpb_removal_delay_increment_length_minus1 == x.du_cpb_removal_delay_increment_length_minus1,
        x@.sub_pic_cpb_params_in_pic_timing_sei_flag == x.sub_pic_cpb_params_in_pic_timing_sei_flag,
        x@.dpb_output_delay_du_length_minus1 == x.dpb_output_delay_du_length_minus1,
        x@.bit_rate_scale == x.bit_rate_scale,
        x@.cpb_size_scale == x.cpb_size_scale,
        x@.cpb_size_du_scale == x.cpb_size_du_scale,
        x@.initial_cpb_removal_delay_length_minus1 == x.initial_cpb_removal_delay_length_minus1,
        x@.au_cpb_removal_delay_length_minus1 == x.au_cpb_removal_delay_length_minus1,
        x@.dpb_output_delay_length_minus1 == x.dpb_output_delay_length_minus1,
        x@.sub_layers == seq_view(x.sub_layers@),
{
}

/// Default display window offsets (§E.2.1), in units of the chroma
/// sampling grid like the conformance window.
#[derive(Debug, Clone, Copy, Default, PartialEq, Eq)]
pub struct HevcDefaultDisplayWindow {
    pub left: u32,
    pub right: u32,
    pub top: u32,
    pub bottom: u32,
}

/// VUI parameters (§E.2.1 / §E.3.1).
#[derive(Debug, Clone, Default, PartialEq, Eq)]
pub struct HevcVui {
    pub aspect_ratio_info_present_flag: bool,
    /// Table E.1; 255 = [`HEVC_EXTENDED_SAR`].
    pub aspect_ratio_idc: u8,
    pub sar_width: u16,
    pub sar_height: u16,

    pub overscan_info_present_flag: bool,
    pub overscan_appropriate_flag: bool,

    pub video_signal_type_present_flag: bool,
    pub video_format: u8,
    pub video_full_range_flag: bool,
    pub colour_description_present_flag: bool,
    pub colour_primaries: u8,
    pub transfer_characteristics: u8,
    pub matrix_coeffs: u8,

    pub chroma_loc_info_present_flag: bool,
    pub chroma_sample_loc_type_top_field: u32,
    pub chroma_sample_loc_type_bottom_field: u32,

    pub neutral_chroma_indication_flag: bool,
    pub field_seq_flag: bool,
    pub frame_field_info_present_flag: bool,
    pub default_display_window: Option<HevcDefaultDisplayWindow>,

    pub vui_timing_info_present_flag: bool,
    pub vui_num_units_in_tick: u32,
    pub vui_time_scale: u32,
    pub vui_poc_proportional_to_timing_flag: bool,
    pub vui_num_ticks_poc_diff_one_minus1: u32,
    pub hrd_parameters: Option<HevcHrdParameters>,

    pub bitstream_restriction_flag: bool,
    pub tiles_fixed_structure_flag: bool,
    pub motion_vectors_over_pic_boundaries_flag: bool,
    pub restricted_ref_pic_lists_flag: bool,
    pub min_spatial_segmentation_idc: u32,
    pub max_bytes_per_pic_denom: u32,
    pub max_bits_per_min_cu_denom: u32,
    pub log2_max_mv_length_horizontal: u32,
    pub log2_max_mv_length_vertical: u32,
}

/// The sample aspect ratio of Table E.1 for an `aspect_ratio_idc` of 1..=16.
pub open spec fn table_aspect_ratio(idc: u8) -> Option<(u16, u16)> {
    match idc {
        1 => Some((1u16, 1u16)),
        2 => Some((12, 11)),
        3 => Some((10, 11)),
        4 => Some((16, 11)),
        5 => Some((40, 33)),
        6 => Some((24, 11)),
        7 => Some((20, 11)),
        8 => Some((32, 11)),
        9 => Some((80, 33)),
        10 => Some((18, 11)),
        11 => Some((15, 11)),
        12 => Some((64, 33)),
        13 => Some((160, 99)),
        14 => Some((4, 3)),
        15 => Some((3, 2)),
        16 => Some((2, 1)),
        _ => None,
    }
}

impl HevcVui {
    /// Sample aspect ratio `(width, height)` per Table E.1 (fixed
    /// band identical to H.264's Table E-1). `None` for unspecified
    /// (0) and the reserved band 17..=254.
    pub fn sample_aspect_ratio(&self) -> (res: Option<(u16, u16)>)
        ensures
            res == if !self.aspect_ratio_info_present_flag {
                None
            } else if self.aspect_ratio_idc == HEVC_EXTENDED_SAR {
                Some((self.sar_width, self.sar_height))
            } else {
                table_aspect_ratio(self.aspect_ratio_idc)
            },
    {
        if !self.aspect_ratio_info_present_flag {
            return None;
        }
        if self.aspect_ratio_idc == HEVC_EXTENDED_SAR {
            return Some((self.sar_width, self.sar_height));
        }
        match self.aspect_ratio_idc {
            1 => Some((1, 1)),
            2 => Some((12, 11)),
            3 => Some((10, 11)),
            4 => Some((16, 11)),
            5 => Some((40, 33)),
            6 => Some((24, 11)),
            7 => Some((20, 11)),
            8 => Some((32, 11)),
            9 => Some((80, 33)),
            10 => Some((18, 11)),
            11 => Some((15, 11)),
            12 => Some((64, 33)),
            13 => Some((160, 99)),
            14 => Some((4, 3)),
            15 => Some((3, 2)),
            16 => Some((2, 1)),
            _ => None,
        }
    }

    /// Picture rate `vui_time_scale / vui_num_units_in_tick` as a
    /// rational `(num, den)` (§E.3.1: for HEVC the tick counts whole
    /// pictures, not fields). `None` without timing info or with a
    /// zero denominator.
    pub fn picture_rate(&self) -> (res: Option<(u32, u32)>)
        ensures
            res == if self.vui_timing_info_present_flag && self.vui_num_units_in_tick != 0 {
                Some((self.vui_time_scale, self.vui_num_units_in_tick))
            } else {
                None
            },
    {
        if !self.vui_timing_info_present_flag || self.vui_num_units_in_tick == 0 {
            return None;
        }
        Some((self.vui_time_scale, self.vui_num_units_in_tick))
    }
}

/// The default display window at position `p`.
#[verifier::opaque]
pub open spec fn h_window_at(s: Seq<bool>, p: nat) -> Read<HevcDefaultDisplayWindow> {
    match ue_at(s, p) { Err(f) => Err(f), Ok((left, p)) => {
    match ue_at(s, p) { Err(f) => Err(f), Ok((right, p)) => {
    match ue_at(s, p) { Err(f) => Err(f), Ok((top, p)) => {
    match ue_at(s, p) { Err(f) => Err(f), Ok((bottom, p)) => {
    Ok((HevcDefaultDisplayWindow { left, right, top, bottom }, p))
    }}}}}}}}
}

/// Parses the default display window.
fn parse_h_window(r: &mut BitReader<'_>) -> (res: Result<HevcDefaultDisplayWindow, BitstreamError>)
    ensures
        read_is(h_window_at(old(r).bits(), old(r).pos()), res, *old(r), *final(r)),
{
    proof {
        reveal(h_window_at);
    }
    let left: u32 = r.ue()?;
    let right: u32 = r.ue()?;
    let top: u32 = r.ue()?;
    let bottom: u32 = r.ue()?;
    Ok(HevcDefaultDisplayWindow { left, right, top, bottom })
}

/// The layout of the default display window: reading at `p` gives `x` and ends
/// at `q` if and only if these elements stand there in this order.
pub proof fn law_layout_h_window(s: Seq<bool>, p: nat, x: HevcDefaultDisplayWindow, q: nat)
    ensures
        h_window_at(s, p) == Ok::<(HevcDefaultDisplayWindow, nat), Fault>((x, q)) <==> cursor(s, p)
            .ue(x.left)
            .ue(x.right)
            .ue(x.top)
            .ue(x.bottom)
            .ends(q),
{
    reveal(h_window_at);
}

/// Reading the default display window fails only with an error of this class.
pub broadcast proof fn law_faults_h_window(s: Seq<bool>, p: nat)
    ensures
        #[trigger] h_window_at(s, p) matches Err(f) ==> f == Fault::Invalid,
{
    broadcast use crate::bits::law_faults_ue;

    reveal(h_window_at);
}

/// The video part of a [`HevcVui`].
pub struct HevcVuiVideo {
    pub aspect_ratio_info_present_flag: bool,
    pub aspect_ratio_idc: u8,
    pub sar_width: u16,
    pub sar_height: u16,
    pub overscan_info_present_flag: bool,
    pub overscan_appropriate_flag: bool,
    pub video_signal_type_present_flag: bool,
    pub video_format: u8,
    pub video_full_range_flag: bool,
    pub colour_description_present_flag: bool,
    pub colour_primaries: u8,
    pub transfer_characteristics: u8,
    pub matrix_coeffs: u8,
    pub chroma_loc_info_present_flag: bool,
    pub chroma_sample_loc_type_top_field: u32,
    pub chroma_sample_loc_type_bottom_field: u32,
    pub neutral_chroma_indication_flag: bool,
    pub field_seq_flag: bool,
    pub frame_field_info_present_flag: bool,
}

/// The mathematical model of a [`HevcVuiVideo`].
pub struct HevcVuiVideoModel {
    pub aspect_ratio_info_present_flag: bool,
    pub aspect_ratio_idc: u8,
    pub sar_width: u16,
    pub sar_height: u16,
    pub overscan_info_present_flag: bool,
    pub overscan_appropriate_flag: bool,
    pub video_signal_type_present_flag: bool,
    pub video_format: u8,
    pub video_full_range_flag: bool,
    pub colour_description_present_flag: bool,
    pub colour_primaries: u8,
    pub transfer_characteristics: u8,
    pub matrix_coeffs: u8,
    pub chroma_loc_info_present_flag: bool,
    pub chroma_sample_loc_type_top_field: u32,
    pub chroma_sample_loc_type_bottom_field: u32,
    pub neutral_chroma_indication_flag: bool,
    pub field_seq_flag: bool,
    pub frame_field_info_present_flag: bool,
}

impl View for HevcVuiVideo {
    type V = HevcVuiVideoModel;

    open spec fn view(&self) -> HevcVuiVideoModel {
        HevcVuiVideoModel {
            aspect_ratio_info_present_flag: self.aspect_ratio_info_present_flag,
            aspect_ratio_idc: self.aspect_ratio_idc,
            sar_width: self.sar_width,
            sar_height: self.sar_height,
            overscan_info_present_flag: self.overscan_info_present_flag,
            overscan_appropriate_flag: self.overscan_appropriate_flag,
            video_signal_type_present_flag: self.video_signal_type_present_flag,
            video_format: self.video_format,
            video_full_range_flag: self.video_full_range_flag,
            colour_description_present_flag: self.colour_description_present_flag,
            colour_primaries: self.colour_primaries,
            transfer_characteristics: self.transfer_characteristics,
            matrix_coeffs: self.matrix_coeffs,
            chroma_loc_info_present_flag: self.chroma_loc_info_present_flag,
            chroma_sample_loc_type_top_field: self.chroma_sample_loc_type_top_field,
            chroma_sample_loc_type_bottom_field: self.chroma_sample_loc_type_bottom_field,
            neutral_chroma_indication_flag: self.neutral_chroma_indication_flag,
            field_seq_flag: self.field_seq_flag,
            frame_field_info_present_flag: self.frame_field_info_present_flag,
        }
    }
}

/// The video part of `vui_parameters()` at position `p`.
#[verifier::opaque]
pub open spec fn h_vui_video_at(s: Seq<bool>, p: nat) -> Read<HevcVuiVideoModel> {
    let aspect_ratio_info_present_flag = flag_at(s, p);
    let p = adv(p, 1);
    let aspect_ratio_idc = u8_if(s, p, 8, aspect_ratio_info_present_flag, 0);
    let p = adv_if(p, 8, aspect_ratio_info_present_flag);
    let sar = aspect_ratio_info_present_flag && aspect_ratio_idc == HEVC_EXTENDED_SAR;
    let sar_width = u16_if(s, p, 16, sar, 0);
    let p = adv_if(p, 16, sar);
    let sar_height = u16_if(s, p, 16, sar, 0);
    let p = adv_if(p, 16, sar);
    let overscan_info_present_flag = flag_at(s, p);
    let p = adv(p, 1);
    let overscan_appropriate_flag = flag_if(s, p, overscan_info_present_flag, false);
    let p = adv_if(p, 1, overscan_info_present_flag);
    let video_signal_type_present_flag = flag_at(s, p);
    let p = adv(p, 1);
    let video_format = u8_if(s, p, 3, video_signal_type_present_flag, 0);
    let p = adv_if(p, 3, video_signal_type_present_flag);
    let video_full_range_flag = flag_if(s, p, video_signal_type_present_flag, false);
    let p = adv_if(p, 1, video_signal_type_present_flag);
    let colour_description_present_flag = flag_if(s, p, video_signal_type_present_flag, false);
    let p = adv_if(p, 1, video_signal_type_present_flag);
    let colour_primaries = u8_if(s, p, 8, colour_description_present_flag, 0);
    let p = adv_if(p, 8, colour_description_present_flag);
    let transfer_characteristics = u8_if(s, p, 8, colour_description_present_flag, 0);
    let p = adv_if(p, 8, colour_description_present_flag);
    let matrix_coeffs = u8_if(s, p, 8, colour_description_present_flag, 0);
    let p = adv_if(p, 8, colour_description_present_flag);
    let chroma_loc_info_present_flag = flag_at(s, p);
    let p = adv(p, 1);
    match ue_if(s, p, chroma_loc_info_present_flag, 0)
    { Err(f) => Err(f), Ok((chroma_sample_loc_type_top_field, p)) => {
    match ue_if(s, p, chroma_loc_info_present_flag, 0)
    { Err(f) => Err(f), Ok((chroma_sample_loc_type_bottom_field, p)) => {
    let neutral_chroma_indication_flag = flag_at(s, p);
    let p = adv(p, 1);
    let field_seq_flag = flag_at(s, p);
    let p = adv(p, 1);
    let frame_field_info_present_flag = flag_at(s, p);
    let p = adv(p, 1);
    Ok((
        HevcVuiVideoModel {
            aspect_ratio_info_present_flag,
            aspect_ratio_idc,
            sar_width,
            sar_height,
            overscan_info_present_flag,
            overscan_appropriate_flag,
            video_signal_type_present_flag,
            video_format,
            video_full_range_flag,
            colour_description_present_flag,
            colour_primaries,
            transfer_characteristics,
            matrix_coeffs,
            chroma_loc_info_present_flag,
            chroma_sample_loc_type_top_field,
            chroma_sample_loc_type_bottom_field,
            neutral_chroma_indication_flag,
            field_seq_flag,
            frame_field_info_present_flag,
        },
        p,
    ))
    }}}}
}

/// Parses the video part of `vui_parameters()`.
fn parse_h_vui_video(r: &mut BitReader<'_>) -> (res: Result<HevcVuiVideo, BitstreamError>)
    ensures
        read_view_is(h_vui_video_at(old(r).bits(), old(r).pos()), res, *old(r), *final(r)),
{
    proof {
        reveal(h_vui_video_at);
    }
    let aspect_ratio_info_present_flag: bool = r.flag();
    let aspect_ratio_idc: u8 = r.u8_if(8, aspect_ratio_info_present_flag, 0);
    let sar: bool = aspect_ratio_info_present_flag && aspect_ratio_idc == HEVC_EXTENDED_SAR;
    let sar_width: u16 = r.u16_if(16, sar, 0);
    let sar_height: u16 = r.u16_if(16, sar, 0);
    let overscan_info_present_flag: bool = r.flag();
    let overscan_appropriate_flag: bool = r.flag_if(overscan_info_present_flag, false);
    let video_signal_type_present_flag: bool = r.flag();
    let video_format: u8 = r.u8_if(3, video_signal_type_present_flag, 0);
    let video_full_range_flag: bool = r.flag_if(video_signal_type_present_flag, false);
    let colour_description_present_flag: bool = r.flag_if(video_signal_type_present_flag, false);
    let colour_primaries: u8 = r.u8_if(8, colour_description_present_flag, 0);
    let transfer_characteristics: u8 = r.u8_if(8, colour_description_present_flag, 0);
    let matrix_coeffs: u8 = r.u8_if(8, colour_description_present_flag, 0);
    let chroma_loc_info_present_flag: bool = r.flag();
    let chroma_sample_loc_type_top_field: u32 = r.ue_if(chroma_loc_info_present_flag, 0)?;
    let chroma_sample_loc_type_bottom_field: u32 = r.ue_if(chroma_loc_info_present_flag, 0)?;
    let neutral_chroma_indication_flag: bool = r.flag();
    let field_seq_flag: bool = r.flag();
    let frame_field_info_present_flag: bool = r.flag();
    Ok(
        HevcVuiVideo {
            aspect_ratio_info_present_flag,
            aspect_ratio_idc,
            sar_width,
            sar_height,
            overscan_info_present_flag,
            overscan_appropriate_flag,
            video_signal_type_present_flag,
            video_format,
            video_full_range_flag,
            colour_description_present_flag,
            colour_primaries,
            transfer_characteristics,
            matrix_coeffs,
            chroma_loc_info_present_flag,
            chroma_sample_loc_type_top_field,
            chroma_sample_loc_type_bottom_field,
            neutral_chroma_indication_flag,
            field_seq_flag,
            frame_field_info_present_flag,
        },
    )
}

/// The layout of the video part of `vui_parameters()`: reading at `p` gives `x`
/// and ends at `q` if and only if these elements stand there in this order.
pub proof fn law_layout_h_vui_video(s: Seq<bool>, p: nat, x: HevcVuiVideoModel, q: nat)
    ensures
        h_vui_video_at(s, p) == Ok::<(HevcVuiVideoModel, nat), Fault>((x, q)) <==> ({
            let sar = x.aspect_ratio_info_present_flag && x.aspect_ratio_idc == 255;
            &&& cursor(s, p)
                .flag(x.aspect_ratio_info_present_flag)
                .u8_if(x.aspect_ratio_info_present_flag, 8, x.aspect_ratio_idc, 0)
                .u16_if(sar, 16, x.sar_width, 0)
                .u16_if(sar, 16, x.sar_height, 0)
                .flag(x.overscan_info_present_flag)
                .flag_if(x.overscan_info_present_flag, x.overscan_appropriate_flag, false)
                .flag(x.video_signal_type_present_flag)
                .u8_if(x.video_signal_type_present_flag, 3, x.video_format, 0)
                .flag_if(x.video_signal_type_present_flag, x.video_full_range_flag, false)
                .flag_if(x.video_signal_type_present_flag, x.colour_description_present_flag, false)
                .u8_if(x.colour_description_present_flag, 8, x.colour_primaries, 0)
                .u8_if(x.colour_description_present_flag, 8, x.transfer_characteristics, 0)
                .u8_if(x.colour_description_present_flag, 8, x.matrix_coeffs, 0)
                .flag(x.chroma_loc_info_present_flag)
                .ue_if(x.chroma_loc_info_present_flag, x.chroma_sample_loc_type_top_field, 0)
                .ue_if(x.chroma_loc_info_present_flag, x.chroma_sample_loc_type_bottom_field, 0)
                .flag(x.neutral_chroma_indication_flag)
                .flag(x.field_seq_flag)
                .flag(x.frame_field_info_present_flag)
                .ends(q)
        }),
{
    reveal(h_vui_video_at);
    reveal(adv_if);
    reveal(flag_if);
    reveal(u16_if);
    reveal(u8_if);
    reveal(ue_if);
}

/// Reading the video part of `vui_parameters()` fails only with an error of
/// this class.
pub broadcast proof fn law_faults_h_vui_video(s: Seq<bool>, p: nat)
    ensures
        #[trigger] h_vui_video_at(s, p) matches Err(f) ==> f == Fault::Invalid,
{
    broadcast use crate::bits::law_faults_ue;

    reveal(h_vui_video_at);
    reveal(ue_if);
}

/// Each field of the model of a [`HevcVuiVideo`] is the field of that name.
pub proof fn law_view_h_vui_video(x: HevcVuiVideo)
    ensures
        x@.aspect_ratio_info_present_flag == x.aspect_ratio_info_present_flag,
        x@.aspect_ratio_idc == x.aspect_ratio_idc,
        x@.sar_width == x.sar_width,
        x@.sar_height == x.sar_height,
        x@.overscan_info_present_flag == x.overscan_info_present_flag,
        x@.overscan_appropriate_flag == x.overscan_appropriate_flag,
        x@.video_signal_type_present_flag == x.video_signal_type_present_flag,
        x@.video_format == x.video_format,
        x@.video_full_range_flag == x.video_full_range_flag,
        x@.colour_description_present_flag == x.colour_description_present_flag,
        x@.colour_primaries == x.colour_primaries,
        x@.transfer_characteristics == x.transfer_characteristics,
        x@.matrix_coeffs == x.matrix_coeffs,
        x@.chroma_loc_info_present_flag == x.chroma_loc_info_present_flag,
        x@.chroma_sample_loc_type_top_field == x.chroma_sample_loc_type_top_field,
        x@.chroma_sample_loc_type_bottom_field == x.chroma_sample_loc_type_bottom_field,
        x@.neutral_chroma_indication_flag == x.neutral_chroma_indication_flag,
        x@.field_seq_flag == x.field_seq_flag,
        x@.frame_field_info_present_flag == x.frame_field_info_present_flag,
{
}

/// The display window and timing part of a [`HevcVui`].
pub struct HevcVuiTiming {
    pub default_display_window: Option<HevcDefaultDisplayWindow>,
    pub vui_timing_info_present_flag: bool,
    pub vui_num_units_in_tick: u32,
    pub vui_time_scale: u32,
    pub vui_poc_proportional_to_timing_flag: bool,
    pub vui_num_ticks_poc_diff_one_minus1: u32,
    pub hrd_parameters: Option<HevcHrdParameters>,
}

/// The mathematical model of a [`HevcVuiTiming`].
pub struct HevcVuiTimingModel {
    pub default_display_window: Option<HevcDefaultDisplayWindow>,
    pub vui_timing_info_present_flag: bool,
    pub vui_num_units_in_tick: u32,
    pub vui_time_scale: u32,
    pub vui_poc_proportional_to_timing_flag: bool,
    pub vui_num_ticks_poc_diff_one_minus1: u32,
    pub hrd_parameters: Option<HevcHrdParametersModel>,
}

impl View for HevcVuiTiming {
    type V = HevcVuiTimingModel;

    open spec fn view(&self) -> HevcVuiTimingModel {
        HevcVuiTimingModel {
            default_display_window: self.default_display_window,
            vui_timing_info_present_flag: self.vui_timing_info_present_flag,
            vui_num_units_in_tick: self.vui_num_units_in_tick,
            vui_time_scale: self.vui_time_scale,
            vui_poc_proportional_to_timing_flag: self.vui_poc_proportional_to_timing_flag,
            vui_num_ticks_poc_diff_one_minus1: self.vui_num_ticks_poc_diff_one_minus1,
            hrd_parameters: opt_view(self.hrd_parameters),
        }
    }
}

/// The display window and timing part of `vui_parameters()` at position `p`.
#[verifier::opaque]
pub open spec fn h_vui_timing_at(s: Seq<bool>, p: nat, max: u8) -> Read<HevcVuiTimingModel> {
    let present = flag_at(s, p);
    let p = adv(p, 1);
    match (if present { read_some(h_window_at(s, p)) } else { Ok((None, p)) })
    { Err(f) => Err(f), Ok((default_display_window, p)) => {
    let vui_timing_info_present_flag = flag_at(s, p);
    let p = adv(p, 1);
    let vui_num_units_in_tick = u32_if(s, p, 32, vui_timing_info_present_flag, 0);
    let p = adv_if(p, 32, vui_timing_info_present_flag);
    let vui_time_scale = u32_if(s, p, 32, vui_timing_info_present_flag, 0);
    let p = adv_if(p, 32, vui_timing_info_present_flag);
    let vui_poc_proportional_to_timing_flag = flag_if(s, p, vui_timing_info_present_flag, false);
    let p = adv_if(p, 1, vui_timing_info_present_flag);
    match ue_if(s, p, vui_poc_proportional_to_timing_flag, 0)
    { Err(f) => Err(f), Ok((vui_num_ticks_poc_diff_one_minus1, p)) => {
    let present = flag_if(s, p, vui_timing_info_present_flag, false);
    let p = adv_if(p, 1, vui_timing_info_present_flag);
    match (if present { read_some(h_hrd_at(s, p, max)) } else { Ok((None, p)) })
    { Err(f) => Err(f), Ok((hrd_parameters, p)) => {
    Ok((
        HevcVuiTimingModel {
            default_display_window,
            vui_timing_info_present_flag,
            vui_num_units_in_tick,
            vui_time_scale,
            vui_poc_proportional_to_timing_flag,
            vui_num_ticks_poc_diff_one_minus1,
            hrd_parameters,
        },
        p,
    ))
    }}}}}}
}

/// Parses the display window and timing part of `vui_parameters()`.
fn parse_h_vui_timing(r: &mut BitReader<'_>, max: u8) -> (res: Result<HevcVuiTiming, BitstreamError>)
    ensures
        read_view_is(h_vui_timing_at(old(r).bits(), old(r).pos(), max), res, *old(r), *final(r)),
{
    proof {
        reveal(h_vui_timing_at);
    }
    let present: bool = r.flag();
    let default_display_window = if present { Some(parse_h_window(r)?) } else { None };
    let vui_timing_info_present_flag: bool = r.flag();
    let vui_num_units_in_tick: u32 = r.u_if(32, vui_timing_info_present_flag, 0);
    let vui_time_scale: u32 = r.u_if(32, vui_timing_info_present_flag, 0);
    let vui_poc_proportional_to_timing_flag: bool = r.flag_if(vui_timing_info_present_flag, false);
    let vui_num_ticks_poc_diff_one_minus1: u32 = r.ue_if(vui_poc_proportional_to_timing_flag, 0)?;
    let present: bool = r.flag_if(vui_timing_info_present_flag, false);
    let hrd_parameters = if present { Some(parse_h_hrd(r, max)?) } else { None };
    Ok(
        HevcVuiTiming {
            default_display_window,
            vui_timing_info_present_flag,
            vui_num_units_in_tick,
            vui_time_scale,
            vui_poc_proportional_to_timing_flag,
            vui_num_ticks_poc_diff_one_minus1,
            hrd_parameters,
        },
    )
}

/// The layout of the display window and timing part of `vui_parameters()`:
/// reading at `p` gives `x` and ends at `q` if and only if these elements stand
/// there in this order.
pub proof fn law_layout_h_vui_timing(s: Seq<bool>, p: nat, max: u8, x: HevcVuiTimingModel, q: nat)
    ensures
        h_vui_timing_at(s, p, max) == Ok::<(HevcVuiTimingModel, nat), Fault>((x, q)) <==> cursor(s, p)
            .flagged(|p: nat| h_window_at(s, p), x.default_display_window)
            .flag(x.vui_timing_info_present_flag)
            .u32_if(x.vui_timing_info_present_flag, 32, x.vui_num_units_in_tick, 0)
            .u32_if(x.vui_timing_info_present_flag, 32, x.vui_time_scale, 0)
            .flag_if(x.vui_timing_info_present_flag, x.vui_poc_proportional_to_timing_flag, false)
            .ue_if(x.vui_poc_proportional_to_timing_flag, x.vui_num_ticks_poc_diff_one_minus1, 0)
            .flagged_if(x.vui_timing_info_present_flag, |p: nat| h_hrd_at(s, p, max), x.hrd_parameters)
            .ends(q),
{
    reveal(h_vui_timing_at);
    reveal(adv_if);
    reveal(flag_if);
    reveal(u32_if);
    reveal(ue_if);
}

/// Reading the display window and timing part of `vui_parameters()` fails only
/// with an error of this class.
pub broadcast proof fn law_faults_h_vui_timing(s: Seq<bool>, p: nat, max: u8)
    ensures
        #[trigger] h_vui_timing_at(s, p, max) matches Err(f) ==> f == Fault::Invalid,
{
    broadcast use {law_faults_h_window, crate::bits::law_faults_ue, law_faults_h_hrd};

    reveal(h_vui_timing_at);
    reveal(ue_if);
}

/// Each field of the model of a [`HevcVuiTiming`] is the field of that name.
pub proof fn law_view_h_vui_timing(x: HevcVuiTiming)
    ensures
        x@.default_display_window == x.default_display_window,
        x@.vui_timing_info_present_flag == x.vui_timing_info_present_flag,
        x@.vui_num_units_in_tick == x.vui_num_units_in_tick,
        x@.vui_time_scale == x.vui_time_scale,
        x@.vui_poc_proportional_to_timing_flag == x.vui_poc_proportional_to_timing_flag,
        x@.vui_num_ticks_poc_diff_one_minus1 == x.vui_num_ticks_poc_diff_one_minus1,
        x@.hrd_parameters == opt_view(x.hrd_parameters),
{
}

/// The bitstream restrictions of a [`HevcVui`].
pub struct HevcVuiLimits {
    pub bitstream_restriction_flag: bool,
    pub tiles_fixed_structure_flag: bool,
    pub motion_vectors_over_pic_boundaries_flag: bool,
    pub restricted_ref_pic_lists_flag: bool,
    pub min_spatial_segmentation_idc: u32,
    pub max_bytes_per_pic_denom: u32,
    pub max_bits_per_min_cu_denom: u32,
    pub log2_max_mv_length_horizontal: u32,
    pub log2_max_mv_length_vertical: u32,
}

/// The mathematical model of a [`HevcVuiLimits`].
pub struct HevcVuiLimitsModel {
    pub bitstream_restriction_flag: bool,
    pub tiles_fixed_structure_flag: bool,
    pub motion_vectors_over_pic_boundaries_flag: bool,
    pub restricted_ref_pic_lists_flag: bool,
    pub min_spatial_segmentation_idc: u32,
    pub max_bytes_per_pic_denom: u32,
    pub max_bits_per_min_cu_denom: u32,
    pub log2_max_mv_length_horizontal: u32,
    pub log2_max_mv_length_vertical: u32,
}

impl View for HevcVuiLimits {
    type V = HevcVuiLimitsModel;

    open spec fn view(&self) -> HevcVuiLimitsModel {
        HevcVuiLimitsModel {
            bitstream_restriction_flag: self.bitstream_restriction_flag,
            tiles_fixed_structure_flag: self.tiles_fixed_structure_flag,
            motion_vectors_over_pic_boundaries_flag: self.motion_vectors_over_pic_boundaries_flag,
            restricted_ref_pic_lists_flag: self.restricted_ref_pic_lists_flag,
            min_spatial_segmentation_idc: self.min_spatial_segmentation_idc,
            max_bytes_per_pic_denom: self.max_bytes_per_pic_denom,
            max_bits_per_min_cu_denom: self.max_bits_per_min_cu_denom,
            log2_max_mv_length_horizontal: self.log2_max_mv_length_horizontal,
            log2_max_mv_length_vertical: self.log2_max_mv_length_vertical,
        }
    }
}

/// The bitstream restrictions of `vui_parameters()` at position `p`.
#[verifier::opaque]
pub open spec fn h_vui_limits_at(s: Seq<bool>, p: nat) -> Read<HevcVuiLimitsModel> {
    let bitstream_restriction_flag = flag_at(s, p);
    let p = adv(p, 1);
    let tiles_fixed_structure_flag = flag_if(s, p, bitstream_restriction_flag, false);
    let p = adv_if(p, 1, bitstream_restriction_flag);
    let motion_vectors_over_pic_boundaries_flag = flag_if(s, p, bitstream_restriction_flag, false);
    let p = adv_if(p, 1, bitstream_restriction_flag);
    let restricted_ref_pic_lists_flag = flag_if(s, p, bitstream_restriction_flag, false);
    let p = adv_if(p, 1, bitstream_restriction_flag);
    match ue_if(s, p, bitstream_restriction_flag, 0)
    { Err(f) => Err(f), Ok((min_spatial_segmentation_idc, p)) => {
    match ue_if(s, p, bitstream_restriction_flag, 0) { Err(f) => Err(f), Ok((max_bytes_per_pic_denom, p)) => {
    match ue_if(s, p, bitstream_restriction_flag, 0)
    { Err(f) => Err(f), Ok((max_bits_per_min_cu_denom, p)) => {
    match ue_if(s, p, bitstream_restriction_flag, 0)
    { Err(f) => Err(f), Ok((log2_max_mv_length_horizontal, p)) => {
    match ue_if(s, p, bitstream_restriction_flag, 0)
    { Err(f) => Err(f), Ok((log2_max_mv_length_vertical, p)) => {
    Ok((
        HevcVuiLimitsModel {
            bitstream_restriction_flag,
            tiles_fixed_structure_flag,
            motion_vectors_over_pic_boundaries_flag,
            restricted_ref_pic_lists_flag,
            min_spatial_segmentation_idc,
            max_bytes_per_pic_denom,
            max_bits_per_min_cu_denom,
            log2_max_mv_length_horizontal,
            log2_max_mv_length_vertical,
        },
        p,
    ))
    }}}}}}}}}}
}

/// Parses the bitstream restrictions of `vui_parameters()`.
fn parse_h_vui_limits(r: &mut BitReader<'_>) -> (res: Result<HevcVuiLimits, BitstreamError>)
    ensures
        read_view_is(h_vui_limits_at(old(r).bits(), old(r).pos()), res, *old(r), *final(r)),
{
    proof {
        reveal(h_vui_limits_at);
    }
    let bitstream_restriction_flag: bool = r.flag();
    let tiles_fixed_structure_flag: bool = r.flag_if(bitstream_restriction_flag, false);
    let motion_vectors_over_pic_boundaries_flag: bool = r.flag_if(bitstream_restriction_flag, false);
    let restricted_ref_pic_lists_flag: bool = r.flag_if(bitstream_restriction_flag, false);
    let min_spatial_segmentation_idc: u32 = r.ue_if(bitstream_restriction_flag, 0)?;
    let max_bytes_per_pic_denom: u32 = r.ue_if(bitstream_restriction_flag, 0)?;
    let max_bits_per_min_cu_denom: u32 = r.ue_if(bitstream_restriction_flag, 0)?;
    let log2_max_mv_length_horizontal: u32 = r.ue_if(bitstream_restriction_flag, 0)?;
    let log2_max_mv_length_vertical: u32 = r.ue_if(bitstream_restriction_flag, 0)?;
    Ok(
        HevcVuiLimits {
            bitstream_restriction_flag,
            tiles_fixed_structure_flag,
            motion_vectors_over_pic_boundaries_flag,
            restricted_ref_pic_lists_flag,
            min_spatial_segmentation_idc,
            max_bytes_per_pic_denom,
            max_bits_per_min_cu_denom,
            log2_max_mv_length_horizontal,
            log2_max_mv_length_vertical,
        },
    )
}

/// The layout of the bitstream restrictions of `vui_parameters()`: reading at
/// `p` gives `x` and ends at `q` if and only if these elements stand there in
/// this order.
pub proof fn law_layout_h_vui_limits(s: Seq<bool>, p: nat, x: HevcVuiLimitsModel, q: nat)
    ensures
        h_vui_limits_at(s, p) == Ok::<(HevcVuiLimitsModel, nat), Fault>((x, q)) <==> cursor(s, p)
            .flag(x.bitstream_restriction_flag)
            .flag_if(x.bitstream_restriction_flag, x.tiles_fixed_structure_flag, false)
            .flag_if(x.bitstream_restriction_flag, x.motion_vectors_over_pic_boundaries_flag, false)
            .flag_if(x.bitstream_restriction_flag, x.restricted_ref_pic_lists_flag, false)
            .ue_if(x.bitstream_restriction_flag, x.min_spatial_segmentation_idc, 0)
            .ue_if(x.bitstream_restriction_flag, x.max_bytes_per_pic_denom, 0)
            .ue_if(x.bitstream_restriction_flag, x.max_bits_per_min_cu_denom, 0)
            .ue_if(x.bitstream_restriction_flag, x.log2_max_mv_length_horizontal, 0)
            .ue_if(x.bitstream_restriction_flag, x.log2_max_mv_length_vertical, 0)
            .ends(q),
{
    reveal(h_vui_limits_at);
    reveal(adv_if);
    reveal(flag_if);
    reveal(ue_if);
}

/// Reading the bitstream restrictions of `vui_parameters()` fails only with an
/// error of this class.
pub broadcast proof fn law_faults_h_vui_limits(s: Seq<bool>, p: nat)
    ensures
        #[trigger] h_vui_limits_at(s, p) matches Err(f) ==> f == Fault::Invalid,
{
    broadcast use crate::bits::law_faults_ue;

    reveal(h_vui_limits_at);
    reveal(ue_if);
}

/// Each field of the model of a [`HevcVuiLimits`] is the field of that name.
pub proof fn law_view_h_vui_limits(x: HevcVuiLimits)
    ensures
        x@.bitstream_restriction_flag == x.bitstream_restriction_flag,
        x@.tiles_fixed_structure_flag == x.tiles_fixed_structure_flag,
        x@.motion_vectors_over_pic_boundaries_flag == x.motion_vectors_over_pic_boundaries_flag,
        x@.restricted_ref_pic_lists_flag == x.restricted_ref_pic_lists_flag,
        x@.min_spatial_segmentation_idc == x.min_spatial_segmentation_idc,
        x@.max_bytes_per_pic_denom == x.max_bytes_per_pic_denom,
        x@.max_bits_per_min_cu_denom == x.max_bits_per_min_cu_denom,
        x@.log2_max_mv_length_horizontal == x.log2_max_mv_length_horizontal,
        x@.log2_max_mv_length_vertical == x.log2_max_mv_length_vertical,
{
}

/// The mathematical model of a [`HevcVui`].
pub struct HevcVuiModel {
    pub video: HevcVuiVideoModel,
    pub timing: HevcVuiTimingModel,
    pub limits: HevcVuiLimitsModel,
}

impl View for HevcVui {
    type V = HevcVuiModel;

    open spec fn view(&self) -> HevcVuiModel {
        HevcVuiModel {
            video: HevcVuiVideoModel {
                aspect_ratio_info_present_flag: self.aspect_ratio_info_present_flag,
                aspect_ratio_idc: self.aspect_ratio_idc,
                sar_width: self.sar_width,
                sar_height: self.sar_height,
                overscan_info_present_flag: self.overscan_info_present_flag,
                overscan_appropriate_flag: self.overscan_appropriate_flag,
                video_signal_type_present_flag: self.video_signal_type_present_flag,
                video_format: self.video_format,
                video_full_range_flag: self.video_full_range_flag,
                colour_description_present_flag: self.colour_description_present_flag,
                colour_primaries: self.colour_primaries,
                transfer_characteristics: self.transfer_characteristics,
                matrix_coeffs: self.matrix_coeffs,
                chroma_loc_info_present_flag: self.chroma_loc_info_present_flag,
                chroma_sample_loc_type_top_field: self.chroma_sample_loc_type_top_field,
                chroma_sample_loc_type_bottom_field: self.chroma_sample_loc_type_bottom_field,
                neutral_chroma_indication_flag: self.neutral_chroma_indication_flag,
                field_seq_flag: self.field_seq_flag,
                frame_field_info_present_flag: self.frame_field_info_present_flag,
            },
            timing: HevcVuiTimingModel {
                default_display_window: self.default_display_window,
                vui_timing_info_present_flag: self.vui_timing_info_present_flag,
                vui_num_units_in_tick: self.vui_num_units_in_tick,
                vui_time_scale: self.vui_time_scale,
                vui_poc_proportional_to_timing_flag: self.vui_poc_proportional_to_timing_flag,
                vui_num_ticks_poc_diff_one_minus1: self.vui_num_ticks_poc_diff_one_minus1,
                hrd_parameters: opt_view(self.hrd_parameters),
            },
            limits: HevcVuiLimitsModel {
                bitstream_restriction_flag: self.bitstream_restriction_flag,
                tiles_fixed_structure_flag: self.tiles_fixed_structure_flag,
                motion_vectors_over_pic_boundaries_flag: self.motion_vectors_over_pic_boundaries_flag,
                restricted_ref_pic_lists_flag: self.restricted_ref_pic_lists_flag,
                min_spatial_segmentation_idc: self.min_spatial_segmentation_idc,
                max_bytes_per_pic_denom: self.max_bytes_per_pic_denom,
                max_bits_per_min_cu_denom: self.max_bits_per_min_cu_denom,
                log2_max_mv_length_horizontal: self.log2_max_mv_length_horizontal,
                log2_max_mv_length_vertical: self.log2_max_mv_length_vertical,
            },
        }
    }
}

/// `vui_parameters()` (§E.2.1) at position `p`.
#[verifier::opaque]
pub open spec fn h_vui_at(s: Seq<bool>, p: nat, max: u8) -> Read<HevcVuiModel> {
    match h_vui_video_at(s, p) { Err(f) => Err(f), Ok((video, p)) => {
    match h_vui_timing_at(s, p, max) { Err(f) => Err(f), Ok((timing, p)) => {
    match h_vui_limits_at(s, p) { Err(f) => Err(f), Ok((limits, p)) => {
    Ok((HevcVuiModel { video, timing, limits }, p))
    }}}}}}
}

/// Parses `vui_parameters()` (§E.2.1).
fn parse_h_vui(r: &mut BitReader<'_>, max: u8) -> (res: Result<HevcVui, BitstreamError>)
    ensures
        read_view_is(h_vui_at(old(r).bits(), old(r).pos(), max), res, *old(r), *final(r)),
{
    proof {
        reveal(h_vui_at);
    }
    let video = parse_h_vui_video(r)?;
    let timing = parse_h_vui_timing(r, max)?;
    let limits = parse_h_vui_limits(r)?;
    Ok(HevcVui {
        aspect_ratio_info_present_flag: video.aspect_ratio_info_present_flag,
        aspect_ratio_idc: video.aspect_ratio_idc,
        sar_width: video.sar_width,
        sar_height: video.sar_height,
        overscan_info_present_flag: video.overscan_info_present_flag,
        overscan_appropriate_flag: video.overscan_appropriate_flag,
        video_signal_type_present_flag: video.video_signal_type_present_flag,
        video_format: video.video_format,
        video_full_range_flag: video.video_full_range_flag,
        colour_description_present_flag: video.colour_description_present_flag,
        colour_primaries: video.colour_primaries,
        transfer_characteristics: video.transfer_characteristics,
        matrix_coeffs: video.matrix_coeffs,
        chroma_loc_info_present_flag: video.chroma_loc_info_present_flag,
        chroma_sample_loc_type_top_field: video.chroma_sample_loc_type_top_field,
        chroma_sample_loc_type_bottom_field: video.chroma_sample_loc_type_bottom_field,
        neutral_chroma_indication_flag: video.neutral_chroma_indication_flag,
        field_seq_flag: video.field_seq_flag,
        frame_field_info_present_flag: video.frame_field_info_present_flag,
        default_display_window: timing.default_display_window,
        vui_timing_info_present_flag: timing.vui_timing_info_present_flag,
        vui_num_units_in_tick: timing.vui_num_units_in_tick,
        vui_time_scale: timing.vui_time_scale,
        vui_poc_proportional_to_timing_flag: timing.vui_poc_proportional_to_timing_flag,
        vui_num_ticks_poc_diff_one_minus1: timing.vui_num_ticks_poc_diff_one_minus1,
        hrd_parameters: timing.hrd_parameters,
        bitstream_restriction_flag: limits.bitstream_restriction_flag,
        tiles_fixed_structure_flag: limits.tiles_fixed_structure_flag,
        motion_vectors_over_pic_boundaries_flag: limits.motion_vectors_over_pic_boundaries_flag,
        restricted_ref_pic_lists_flag: limits.restricted_ref_pic_lists_flag,
        min_spatial_segmentation_idc: limits.min_spatial_segmentation_idc,
        max_bytes_per_pic_denom: limits.max_bytes_per_pic_denom,
        max_bits_per_min_cu_denom: limits.max_bits_per_min_cu_denom,
        log2_max_mv_length_horizontal: limits.log2_max_mv_length_horizontal,
        log2_max_mv_length_vertical: limits.log2_max_mv_length_vertical,
    })
}

/// The layout of `vui_parameters()` (§E.2.1): reading at `p` gives `x` and ends
/// at `q` if and only if these elements stand there in this order.
pub proof fn law_layout_h_vui(s: Seq<bool>, p: nat, max: u8, x: HevcVuiModel, q: nat)
    ensures
        h_vui_at(s, p, max) == Ok::<(HevcVuiModel, nat), Fault>((x, q)) <==> cursor(s, p)
            .part(|p: nat| h_vui_video_at(s, p), x.video)
            .part(|p: nat| h_vui_timing_at(s, p, max), x.timing)
            .part(|p: nat| h_vui_limits_at(s, p), x.limits)
            .ends(q),
{
    reveal(h_vui_at);
}

/// Reading `vui_parameters()` (§E.2.1) fails only with an error of this class.
pub broadcast proof fn law_faults_h_vui(s: Seq<bool>, p: nat, max: u8)
    ensures
        #[trigger] h_vui_at(s, p, max) matches Err(f) ==> f == Fault::Invalid,
{
    broadcast use {law_faults_h_vui_video, law_faults_h_vui_timing, law_faults_h_vui_limits};

    reveal(h_vui_at);
}

/// Each field of the model of a [`HevcVui`] is the field of that name.
pub proof fn law_view_h_vui(x: HevcVui)
    ensures
        x@.video.aspect_ratio_info_present_flag == x.aspect_ratio_info_present_flag,
        x@.video.aspect_ratio_idc == x.aspect_ratio_idc,
        x@.video.sar_width == x.sar_width,
        x@.video.sar_height == x.sar_height,
        x@.video.overscan_info_present_flag == x.overscan_info_present_flag,
        x@.video.overscan_appropriate_flag == x.overscan_appropriate_flag,
        x@.video.video_signal_type_present_flag == x.video_signal_type_present_flag,
        x@.video.video_format == x.video_format,
        x@.video.video_full_range_flag == x.video_full_range_flag,
        x@.video.colour_description_present_flag == x.colour_description_present_flag,
        x@.video.colour_primaries == x.colour_primaries,
        x@.video.transfer_characteristics == x.transfer_characteristics,
        x@.video.matrix_coeffs == x.matrix_coeffs,
        x@.video.chroma_loc_info_present_flag == x.chroma_loc_info_present_flag,
        x@.video.chroma_sample_loc_type_top_field == x.chroma_sample_loc_type_top_field,
        x@.video.chroma_sample_loc_type_bottom_field == x.chroma_sample_loc_type_bottom_field,
        x@.video.neutral_chroma_indication_flag == x.neutral_chroma_indication_flag,
        x@.video.field_seq_flag == x.field_seq_flag,
        x@.video.frame_field_info_present_flag == x.frame_field_info_present_flag,
        x@.timing.default_display_window == x.default_display_window,
        x@.timing.vui_timing_info_present_flag == x.vui_timing_info_present_flag,
        x@.timing.vui_num_units_in_tick == x.vui_num_units_in_tick,
        x@.timing.vui_time_scale == x.vui_time_scale,
        x@.timing.vui_poc_proportional_to_timing_flag == x.vui_poc_proportional_to_timing_flag,
        x@.timing.vui_num_ticks_poc_diff_one_minus1 == x.vui_num_ticks_poc_diff_one_minus1,
        x@.timing.hrd_parameters == opt_view(x.hrd_parameters),
        x@.limits.bitstream_restriction_flag == x.bitstream_restriction_flag,
        x@.limits.tiles_fixed_structure_flag == x.tiles_fixed_structure_flag,
        x@.limits.motion_vectors_over_pic_boundaries_flag == x.motion_vectors_over_pic_boundaries_flag,
        x@.limits.restricted_ref_pic_lists_flag == x.restricted_ref_pic_lists_flag,
        x@.limits.min_spatial_segmentation_idc == x.min_spatial_segmentation_idc,
        x@.limits.max_bytes_per_pic_denom == x.max_bytes_per_pic_denom,
        x@.limits.max_bits_per_min_cu_denom == x.max_bits_per_min_cu_denom,
        x@.limits.log2_max_mv_length_horizontal == x.log2_max_mv_length_horizontal,
        x@.limits.log2_max_mv_length_vertical == x.log2_max_mv_length_vertical,
{
}

// ─────────────────────────── VPS ─────────────────────────────────────────────

/// Video parameter set (7.3.2.1). Reduced — most VPS contents are
/// not consumed by the slice-data HW APIs (they look at the SPS).
#[derive(Debug, Clone, Default, PartialEq, Eq)]
pub struct HevcVps {
    pub vps_video_parameter_set_id: u8,
    pub vps_max_layers_minus1: u8,
    pub vps_max_sub_layers_minus1: u8,
    pub vps_temporal_id_nesting_flag: bool,
    pub profile_tier_level: HevcProfileTierLevel,
}

/// The fields of a video parameter set (§7.3.2.1) through
/// `profile_tier_level()` at position `p`.
#[verifier::opaque]
pub open spec fn h_vps_at(s: Seq<bool>, p: nat) -> Read<HevcVps> {
    let vps_video_parameter_set_id = u8_at(s, p, 4);
    let p = adv(p, 4);
    let _base_layer_flags = u8_at(s, p, 2);
    let p = adv(p, 2);
    let vps_max_layers_minus1 = u8_at(s, p, 6);
    let p = adv(p, 6);
    let vps_max_sub_layers_minus1 = u8_at(s, p, 3);
    let p = adv(p, 3);
    let vps_temporal_id_nesting_flag = flag_at(s, p);
    let p = adv(p, 1);
    let _reserved = u32_at(s, p, 16);
    let p = adv(p, 16);
    match h_ptl_at(s, p, vps_max_sub_layers_minus1) { Err(f) => Err(f), Ok((profile_tier_level, p)) => {
    Ok((
        HevcVps {
            vps_video_parameter_set_id,
            vps_max_layers_minus1,
            vps_max_sub_layers_minus1,
            vps_temporal_id_nesting_flag,
            profile_tier_level,
        },
        p,
    ))
    }}
}

/// Parses the fields of a video parameter set (§7.3.2.1) through `profile_tier_level()`.
fn parse_h_vps(r: &mut BitReader<'_>) -> (res: Result<HevcVps, BitstreamError>)
    ensures
        read_is(h_vps_at(old(r).bits(), old(r).pos()), res, *old(r), *final(r)),
{
    proof {
        reveal(h_vps_at);
    }
    let vps_video_parameter_set_id: u8 = r.u8(4);
    let _base_layer_flags: u8 = r.u8(2);
    let vps_max_layers_minus1: u8 = r.u8(6);
    let vps_max_sub_layers_minus1: u8 = r.u8(3);
    proof { law_fits_small(vps_max_sub_layers_minus1 as nat, 3); }
    let vps_temporal_id_nesting_flag: bool = r.flag();
    let _reserved: u32 = r.u(16);
    let profile_tier_level = parse_h_ptl(r, vps_max_sub_layers_minus1)?;
    Ok(
        HevcVps {
            vps_video_parameter_set_id,
            vps_max_layers_minus1,
            vps_max_sub_layers_minus1,
            vps_temporal_id_nesting_flag,
            profile_tier_level,
        },
    )
}

/// The layout of the fields of a video parameter set (§7.3.2.1) through
/// `profile_tier_level()`: reading at `p` gives `x` and ends at `q` if and only
/// if these elements stand there in this order.
pub proof fn law_layout_h_vps(s: Seq<bool>, p: nat, x: HevcVps, q: nat)
    ensures
        h_vps_at(s, p) == Ok::<(HevcVps, nat), Fault>((x, q)) <==> cursor(s, p)
            .u8(4, x.vps_video_parameter_set_id)
            .skip(2)
            .u8(6, x.vps_max_layers_minus1)
            .u8(3, x.vps_max_sub_layers_minus1)
            .flag(x.vps_temporal_id_nesting_flag)
            .skip(16)
            .part(|p: nat| h_ptl_at(s, p, x.vps_max_sub_layers_minus1), x.profile_tier_level)
            .ends(q),
{
    reveal(h_vps_at);
}

/// Reading the fields of a video parameter set (§7.3.2.1) through
/// `profile_tier_level()` never fails.
pub broadcast proof fn law_faults_h_vps(s: Seq<bool>, p: nat)
    ensures
        #[trigger] h_vps_at(s, p) is Ok,
{
    broadcast use law_faults_h_ptl;

    reveal(h_vps_at);
}

/// Parse a VPS NAL (with two-byte NAL header at index 0..1).
pub fn parse_vps_nal(nal: &[u8]) -> (res: Result<HevcVps, BitstreamError>)
    ensures
        match vps_of_nal(nal@) {
            Ok(x) => res == Ok::<HevcVps, BitstreamError>(x),
            Err(f) => res matches Err(e) && e.fault() == f,
        },
{
    let rbsp = hevc_nal_rbsp(nal, NAL_TYPE_VPS, "VPS")?;
    let mut r = BitReader::new(rbsp.as_slice());
    parse_h_vps(&mut r)
}

/// The VPS that the NAL unit `b` holds.
pub open spec fn vps_of_nal(b: Seq<u8>) -> Result<HevcVps, Fault> {
    rbsp_read(hevc_rbsp_of_nal(b, NAL_TYPE_VPS), |s: Seq<bool>| h_vps_at(s, 0))
}

// ─────────────────────────── SPS ─────────────────────────────────────────────

/// Sequence parameter set (7.3.2.2).
#[derive(Debug, Clone, Default, PartialEq, Eq)]
pub struct HevcSps {
    pub sps_video_parameter_set_id: u8,
    pub sps_max_sub_layers_minus1: u8,
    pub sps_temporal_id_nesting_flag: bool,
    pub profile_tier_level: HevcProfileTierLevel,

    pub sps_seq_parameter_set_id: u8,
    pub chroma_format_idc: u8,
    pub separate_colour_plane_flag: bool,

    pub pic_width_in_luma_samples: u32,
    pub pic_height_in_luma_samples: u32,
    pub conformance_window: Option<HevcConformanceWindow>,

    pub bit_depth_luma_minus8: u8,
    pub bit_depth_chroma_minus8: u8,

    pub log2_max_pic_order_cnt_lsb_minus4: u8,
    /// `sps_max_dec_pic_buffering_minus1[sps_max_sub_layers_minus1]`.
    pub sps_max_dec_pic_buffering_minus1: u32,
    pub sps_max_num_reorder_pics: u32,
    pub sps_max_latency_increase_plus1: u32,

    pub log2_min_luma_coding_block_size_minus3: u8,
    pub log2_diff_max_min_luma_coding_block_size: u8,
    pub log2_min_luma_transform_block_size_minus2: u8,
    pub log2_diff_max_min_luma_transform_block_size: u8,
    pub max_transform_hierarchy_depth_inter: u8,
    pub max_transform_hierarchy_depth_intra: u8,

    pub scaling_list_enabled_flag: bool,
    /// `Some` when `sps_scaling_list_data_present_flag == 1`
    /// (§7.3.2.2.1). `scaling_list_enabled_flag == 1` with `None`
    /// means the default matrices of §7.4.5 apply.
    pub scaling_list_data: Option<HevcScalingListData>,
    pub amp_enabled_flag: bool,
    pub sample_adaptive_offset_enabled_flag: bool,
    pub pcm_enabled_flag: bool,
    /// PCM block fields (§7.3.2.2.1), present iff `pcm_enabled_flag`.
    pub pcm_sample_bit_depth_luma_minus1: u8,
    pub pcm_sample_bit_depth_chroma_minus1: u8,
    pub log2_min_pcm_luma_coding_block_size_minus3: u8,
    pub log2_diff_max_min_pcm_luma_coding_block_size: u8,
    pub pcm_loop_filter_disabled_flag: bool,
    pub num_short_term_ref_pic_sets: u32,
    /// The candidate sets, resolved to `DeltaPocS0/S1` form per
    /// §7.4.8 (inter-set prediction already applied).
    pub short_term_rps: Vec<HevcShortTermRps>,
    pub long_term_ref_pics_present_flag: bool,
    pub num_long_term_ref_pics_sps: u32,
    /// `(lt_ref_pic_poc_lsb_sps[i], used_by_curr_pic_lt_sps_flag[i])`
    /// (§7.3.2.2.1).
    pub long_term_ref_pics: Vec<(u32, bool)>,
    pub sps_temporal_mvp_enabled_flag: bool,
    pub strong_intra_smoothing_enabled_flag: bool,
    /// `Some` when `vui_parameters_present_flag == 1` (Annex E).
    pub vui: Option<HevcVui>,
    /// §7.3.2.2.1 extension flags (all parse; the range extension's
    /// *content* also parses, SCC/multilayer/3D content does not).
    pub sps_range_extension_flag: bool,
    pub sps_multilayer_extension_flag: bool,
    pub sps_3d_extension_flag: bool,
    pub sps_scc_extension_flag: bool,
    /// `Some` when `sps_range_extension_flag == 1` (§7.3.2.2.2).
    pub range_extension: Option<HevcSpsRangeExtension>,
}

/// SPS range extension (§7.3.2.2.2) — nine coding-tool flags.
#[derive(Debug, Clone, Copy, Default, PartialEq, Eq)]
pub struct HevcSpsRangeExtension {
    pub transform_skip_rotation_enabled_flag: bool,
    pub transform_skip_context_enabled_flag: bool,
    pub implicit_rdpcm_enabled_flag: bool,
    pub explicit_rdpcm_enabled_flag: bool,
    pub extended_precision_processing_flag: bool,
    pub intra_smoothing_disabled_flag: bool,
    pub high_precision_offsets_enabled_flag: bool,
    pub persistent_rice_adaptation_enabled_flag: bool,
    pub cabac_bypass_alignment_enabled_flag: bool,
}

/// The conformance window at position `p`.
#[verifier::opaque]
pub open spec fn h_conf_at(s: Seq<bool>, p: nat) -> Read<HevcConformanceWindow> {
    match ue_at(s, p) { Err(f) => Err(f), Ok((left, p)) => {
    match ue_at(s, p) { Err(f) => Err(f), Ok((right, p)) => {
    match ue_at(s, p) { Err(f) => Err(f), Ok((top, p)) => {
    match ue_at(s, p) { Err(f) => Err(f), Ok((bottom, p)) => {
    Ok((HevcConformanceWindow { left, right, top, bottom }, p))
    }}}}}}}}
}

/// Parses the conformance window.
fn parse_h_conf(r: &mut BitReader<'_>) -> (res: Result<HevcConformanceWindow, BitstreamError>)
    ensures
        read_is(h_conf_at(old(r).bits(), old(r).pos()), res, *old(r), *final(r)),
{
    proof {
        reveal(h_conf_at);
    }
    let left: u32 = r.ue()?;
    let right: u32 = r.ue()?;
    let top: u32 = r.ue()?;
    let bottom: u32 = r.ue()?;
    Ok(HevcConformanceWindow { left, right, top, bottom })
}

/// The layout of the conformance window: reading at `p` gives `x` and ends at
/// `q` if and only if these elements stand there in this order.
pub proof fn law_layout_h_conf(s: Seq<bool>, p: nat, x: HevcConformanceWindow, q: nat)
    ensures
        h_conf_at(s, p) == Ok::<(HevcConformanceWindow, nat), Fault>((x, q)) <==> cursor(s, p)
            .ue(x.left)
            .ue(x.right)
            .ue(x.top)
            .ue(x.bottom)
            .ends(q),
{
    reveal(h_conf_at);
}

/// Reading the conformance window fails only with an error of this class.
pub broadcast proof fn law_faults_h_conf(s: Seq<bool>, p: nat)
    ensures
        #[trigger] h_conf_at(s, p) matches Err(f) ==> f == Fault::Invalid,
{
    broadcast use crate::bits::law_faults_ue;

    reveal(h_conf_at);
}

/// The buffering of a sub-layer at position `p`.
#[verifier::opaque]
pub open spec fn h_order_at(s: Seq<bool>, p: nat) -> Read<(u32, u32, u32)> {
    match ue_at(s, p) { Err(f) => Err(f), Ok((dec, p)) => {
    match ue_at(s, p) { Err(f) => Err(f), Ok((reorder, p)) => {
    match ue_at(s, p) { Err(f) => Err(f), Ok((latency, p)) => {
    Ok(((dec, reorder, latency), p)) }}}}}}
}

/// Parses the buffering of a sub-layer.
fn parse_h_order(r: &mut BitReader<'_>) -> (res: Result<(u32, u32, u32), BitstreamError>)
    ensures
        read_is(h_order_at(old(r).bits(), old(r).pos()), res, *old(r), *final(r)),
{
    proof {
        reveal(h_order_at);
    }
    let dec: u32 = r.ue()?;
    let reorder: u32 = r.ue()?;
    let latency: u32 = r.ue()?;
    Ok((dec, reorder, latency))
}

/// The layout of the buffering of a sub-layer: reading at `p` gives `x` and
/// ends at `q` if and only if these elements stand there in this order.
pub proof fn law_layout_h_order(s: Seq<bool>, p: nat, x: (u32, u32, u32), q: nat)
    ensures
        h_order_at(s, p) == Ok::<((u32, u32, u32), nat), Fault>((x, q)) <==> cursor(s, p)
            .ue(x.0)
            .ue(x.1)
            .ue(x.2)
            .ends(q),
{
    reveal(h_order_at);
}

/// Reading the buffering of a sub-layer fails only with an error of this class.
pub broadcast proof fn law_faults_h_order(s: Seq<bool>, p: nat)
    ensures
        #[trigger] h_order_at(s, p) matches Err(f) ==> f == Fault::Invalid,
{
    broadcast use crate::bits::law_faults_ue;

    reveal(h_order_at);
}

/// Reads the buffering of a sub-layer, behind the items before it.
pub open spec fn h_orders_item(s: Seq<bool>) -> spec_fn(Seq<(u32, u32, u32)>, nat) -> Read<(u32, u32, u32)> {
    |done: Seq<(u32, u32, u32)>, q: nat| h_order_at(s, q)
}

/// `n` items at position `p`, each the buffering of a sub-layer.
#[verifier::opaque]
pub open spec fn h_orders_at(s: Seq<bool>, p: nat, n: u64) -> Read<Seq<(u32, u32, u32)>> {
    rep_at(h_orders_item(s), p, n as nat)
}

/// Parses `n` items, each the buffering of a sub-layer.
fn parse_h_orders(r: &mut BitReader<'_>, n: u64) -> (res: Result<Vec<(u32, u32, u32)>, BitstreamError>)
    ensures
        read_vec_is(h_orders_at(old(r).bits(), old(r).pos(), n), res, *old(r), *final(r)),
        res matches Ok(v) ==> v@.len() == n,
{
    let ghost s = r.bits();
    let ghost p = r.pos();
    let ghost reads = h_orders_item(s);
    let mut xs: Vec<(u32, u32, u32)> = Vec::new();
    let mut i: u64 = 0;
    proof {
        reveal(h_orders_at);
    }
    while i < n
        invariant
            i <= n,
            xs@.len() == i,
            reads == h_orders_item(s),
            s == r.bits(),
            s == old(r).bits(),
            p == old(r).pos(),
            r.bytes() == old(r).bytes(),
            rep_at(reads, p, i as nat) == Ok::<(Seq<(u32, u32, u32)>, nat), Fault>((xs@, r.pos())),
        decreases n - i,
    {
        match parse_h_order(r) {
            Ok(x) => {
                xs.push(x);
            },
            Err(e) => {
                proof {
                    reveal(h_orders_at);
                    lemma_rep_err(reads, p, (i + 1) as nat, n as nat);
                }
                return Err(e);
            },
        }
        i = i + 1;
    }
    Ok(xs)
}

/// `n` items stand one behind the other: `n - 1` items, and then the buffering
/// of a sub-layer.
pub proof fn law_layout_h_orders(s: Seq<bool>, p: nat, n: u64, xs: Seq<(u32, u32, u32)>, q: nat)
    ensures
        h_orders_at(s, p, n) == Ok::<(Seq<(u32, u32, u32)>, nat), Fault>((xs, q)) <==> if n == 0 {
            xs.len() == 0 && q == p
        } else {
            &&& xs.len() == n
            &&& cursor(s, p)
                .part(|p: nat| h_orders_at(s, p, (n - 1) as u64), xs.drop_last())
                .part(|p: nat| h_order_at(s, p), xs.last())
                .ends(q)
        },
{
    reveal(h_orders_at);
    lemma_rep_step(h_orders_item(s), p, n as nat);
    if xs.len() == 0 {
        assert(xs =~= Seq::empty());
    } else {
        assert(xs =~= xs.drop_last().push(xs.last()));
    }
    if n > 0 {
        if let Ok((done, r)) = rep_at(h_orders_item(s), p, (n - 1) as nat) {
            if let Ok((y, z)) = h_orders_item(s)(done, r) {
                assert(done.push(y).drop_last() =~= done);
            }
        }
    }
}

/// Reading the items fails only with an error of this class.
pub broadcast proof fn law_faults_h_orders(s: Seq<bool>, p: nat, n: u64)
    ensures
        #[trigger] h_orders_at(s, p, n) matches Err(f) ==> f == Fault::Invalid,
{
    broadcast use law_faults_h_order;

    reveal(h_orders_at);
    let f = h_orders_item(s);
    assert forall|done: Seq<(u32, u32, u32)>, q: nat| (#[trigger] f(done, q)) matches Err(e)
        ==> e == Fault::Invalid by {}
    lemma_rep_faults(f, p, n as nat, |f: Fault| f == Fault::Invalid);
}

/// A long-term reference picture at position `p`.
#[verifier::opaque]
pub open spec fn h_lt_at(s: Seq<bool>, p: nat, width: u32) -> Read<(u32, bool)> {
    let lsb = u32_at(s, p, width as nat);
    let p = adv(p, width as nat);
    let used = flag_at(s, p);
    let p = adv(p, 1);
    Ok(((lsb, used), p))
}

/// Parses a long-term reference picture.
fn parse_h_lt(r: &mut BitReader<'_>, width: u32) -> (res: Result<(u32, bool), BitstreamError>)
    requires
        width <= 32,
    ensures
        read_is(h_lt_at(old(r).bits(), old(r).pos(), width), res, *old(r), *final(r)),
{
    proof {
        reveal(h_lt_at);
    }
    let lsb: u32 = r.u(width);
    let used: bool = r.flag();
    Ok((lsb, used))
}

/// The layout of a long-term reference picture: reading at `p` gives `x` and
/// ends at `q` if and only if these elements stand there in this order.
pub proof fn law_layout_h_lt(s: Seq<bool>, p: nat, width: u32, x: (u32, bool), q: nat)
    ensures
        h_lt_at(s, p, width) == Ok::<((u32, bool), nat), Fault>((x, q)) <==> cursor(s, p)
            .u32(width as nat, x.0)
            .flag(x.1)
            .ends(q),
{
    reveal(h_lt_at);
}

/// Reading a long-term reference picture never fails.
pub broadcast proof fn law_faults_h_lt(s: Seq<bool>, p: nat, width: u32)
    ensures
        #[trigger] h_lt_at(s, p, width) is Ok,
{
    reveal(h_lt_at);
}

/// Reads a long-term reference picture, behind the items before it.
pub open spec fn h_lts_item(s: Seq<bool>, width: u32) -> spec_fn(Seq<(u32, bool)>, nat) -> Read<(u32, bool)> {
    |done: Seq<(u32, bool)>, q: nat| h_lt_at(s, q, width)
}

/// `n` items at position `p`, each a long-term reference picture.
#[verifier::opaque]
pub open spec fn h_lts_at(s: Seq<bool>, p: nat, width: u32, n: u64) -> Read<Seq<(u32, bool)>> {
    rep_at(h_lts_item(s, width), p, n as nat)
}

/// Parses `n` items, each a long-term reference picture.
fn parse_h_lts(r: &mut BitReader<'_>, width: u32, n: u64) -> (res: Result<Vec<(u32, bool)>, BitstreamError>)
    requires
        width <= 32,
    ensures
        read_vec_is(h_lts_at(old(r).bits(), old(r).pos(), width, n), res, *old(r), *final(r)),
        res matches Ok(v) ==> v@.len() == n,
{
    let ghost s = r.bits();
    let ghost p = r.pos();
    let ghost reads = h_lts_item(s, width);
    let mut xs: Vec<(u32, bool)> = Vec::new();
    let mut i: u64 = 0;
    proof {
        reveal(h_lts_at);
    }
    while i < n
        invariant
            i <= n,
            xs@.len() == i,
                width <= 32,
            reads == h_lts_item(s, width),
            s == r.bits(),
            s == old(r).bits(),
            p == old(r).pos(),
            r.bytes() == old(r).bytes(),
            rep_at(reads, p, i as nat) == Ok::<(Seq<(u32, bool)>, nat), Fault>((xs@, r.pos())),
        decreases n - i,
    {
        match parse_h_lt(r, width) {
            Ok(x) => {
                xs.push(x);
            },
            Err(e) => {
                proof {
                    reveal(h_lts_at);
                    lemma_rep_err(reads, p, (i + 1) as nat, n as nat);
                }
                return Err(e);
            },
        }
        i = i + 1;
    }
    Ok(xs)
}

/// `n` items stand one behind the other: `n - 1` items, and then a long-term
/// reference picture.
pub proof fn law_layout_h_lts(s: Seq<bool>, p: nat, width: u32, n: u64, xs: Seq<(u32, bool)>, q: nat)
    ensures
        h_lts_at(s, p, width, n) == Ok::<(Seq<(u32, bool)>, nat), Fault>((xs, q)) <==> if n == 0 {
            xs.len() == 0 && q == p
        } else {
            &&& xs.len() == n
            &&& cursor(s, p)
                .part(|p: nat| h_lts_at(s, p, width, (n - 1) as u64), xs.drop_last())
                .part(|p: nat| h_lt_at(s, p, width), xs.last())
                .ends(q)
        },
{
    reveal(h_lts_at);
    lemma_rep_step(h_lts_item(s, width), p, n as nat);
    if xs.len() == 0 {
        assert(xs =~= Seq::empty());
    } else {
        assert(xs =~= xs.drop_last().push(xs.last()));
    }
    if n > 0 {
        if let Ok((done, r)) = rep_at(h_lts_item(s, width), p, (n - 1) as nat) {
            if let Ok((y, z)) = h_lts_item(s, width)(done, r) {
                assert(done.push(y).drop_last() =~= done);
            }
        }
    }
}

/// Reading the items never fails.
pub broadcast proof fn law_faults_h_lts(s: Seq<bool>, p: nat, width: u32, n: u64)
    ensures
        #[trigger] h_lts_at(s, p, width, n) is Ok,
{
    broadcast use law_faults_h_lt;

    reveal(h_lts_at);
    let f = h_lts_item(s, width);
    assert forall|done: Seq<(u32, bool)>, q: nat| (#[trigger] f(done, q)) is Ok by {}
    lemma_rep_faults_none(f, p, n as nat);
}

/// The SPS range extension (§7.3.2.2.2) at position `p`.
#[verifier::opaque]
pub open spec fn h_sps_range_at(s: Seq<bool>, p: nat) -> Read<HevcSpsRangeExtension> {
    let transform_skip_rotation_enabled_flag = flag_at(s, p);
    let p = adv(p, 1);
    let transform_skip_context_enabled_flag = flag_at(s, p);
    let p = adv(p, 1);
    let implicit_rdpcm_enabled_flag = flag_at(s, p);
    let p = adv(p, 1);
    let explicit_rdpcm_enabled_flag = flag_at(s, p);
    let p = adv(p, 1);
    let extended_precision_processing_flag = flag_at(s, p);
    let p = adv(p, 1);
    let intra_smoothing_disabled_flag = flag_at(s, p);
    let p = adv(p, 1);
    let high_precision_offsets_enabled_flag = flag_at(s, p);
    let p = adv(p, 1);
    let persistent_rice_adaptation_enabled_flag = flag_at(s, p);
    let p = adv(p, 1);
    let cabac_bypass_alignment_enabled_flag = flag_at(s, p);
    let p = adv(p, 1);
    Ok(
        (
            HevcSpsRangeExtension {
                transform_skip_rotation_enabled_flag,
                transform_skip_context_enabled_flag,
                implicit_rdpcm_enabled_flag,
                explicit_rdpcm_enabled_flag,
                extended_precision_processing_flag,
                intra_smoothing_disabled_flag,
                high_precision_offsets_enabled_flag,
                persistent_rice_adaptation_enabled_flag,
                cabac_bypass_alignment_enabled_flag,
            },
            p,
        ),
    )
}

/// Parses the SPS range extension (§7.3.2.2.2).
fn parse_h_sps_range(r: &mut BitReader<'_>) -> (res: Result<HevcSpsRangeExtension, BitstreamError>)
    ensures
        read_is(h_sps_range_at(old(r).bits(), old(r).pos()), res, *old(r), *final(r)),
{
    proof {
        reveal(h_sps_range_at);
    }
    let transform_skip_rotation_enabled_flag: bool = r.flag();
    let transform_skip_context_enabled_flag: bool = r.flag();
    let implicit_rdpcm_enabled_flag: bool = r.flag();
    let explicit_rdpcm_enabled_flag: bool = r.flag();
    let extended_precision_processing_flag: bool = r.flag();
    let intra_smoothing_disabled_flag: bool = r.flag();
    let high_precision_offsets_enabled_flag: bool = r.flag();
    let persistent_rice_adaptation_enabled_flag: bool = r.flag();
    let cabac_bypass_alignment_enabled_flag: bool = r.flag();
    Ok(
        HevcSpsRangeExtension {
            transform_skip_rotation_enabled_flag,
            transform_skip_context_enabled_flag,
            implicit_rdpcm_enabled_flag,
            explicit_rdpcm_enabled_flag,
            extended_precision_processing_flag,
            intra_smoothing_disabled_flag,
            high_precision_offsets_enabled_flag,
            persistent_rice_adaptation_enabled_flag,
            cabac_bypass_alignment_enabled_flag,
        },
    )
}

/// The layout of the SPS range extension (§7.3.2.2.2): reading at `p` gives `x`
/// and ends at `q` if and only if these elements stand there in this order.
pub proof fn law_layout_h_sps_range(s: Seq<bool>, p: nat, x: HevcSpsRangeExtension, q: nat)
    ensures
        h_sps_range_at(s, p) == Ok::<(HevcSpsRangeExtension, nat), Fault>((x, q)) <==> cursor(s, p)
            .flag(x.transform_skip_rotation_enabled_flag)
            .flag(x.transform_skip_context_enabled_flag)
            .flag(x.implicit_rdpcm_enabled_flag)
            .flag(x.explicit_rdpcm_enabled_flag)
            .flag(x.extended_precision_processing_flag)
            .flag(x.intra_smoothing_disabled_flag)
            .flag(x.high_precision_offsets_enabled_flag)
            .flag(x.persistent_rice_adaptation_enabled_flag)
            .flag(x.cabac_bypass_alignment_enabled_flag)
            .ends(q),
{
    reveal(h_sps_range_at);
}

/// Reading the SPS range extension (§7.3.2.2.2) never fails.
pub broadcast proof fn law_faults_h_sps_range(s: Seq<bool>, p: nat)
    ensures
        #[trigger] h_sps_range_at(s, p) is Ok,
{
    reveal(h_sps_range_at);
}

/// The part of a [`HevcSps`] through the sub-layer ordering information.
pub struct HevcSpsFront {
    pub sps_video_parameter_set_id: u8,
    pub sps_max_sub_layers_minus1: u8,
    pub sps_temporal_id_nesting_flag: bool,
    pub profile_tier_level: HevcProfileTierLevel,
    pub sps_seq_parameter_set_id: u8,
    pub chroma_format_idc: u8,
    pub separate_colour_plane_flag: bool,
    pub pic_width_in_luma_samples: u32,
    pub pic_height_in_luma_samples: u32,
    pub conformance_window: Option<HevcConformanceWindow>,
    pub bit_depth_luma_minus8: u8,
    pub bit_depth_chroma_minus8: u8,
    pub log2_max_pic_order_cnt_lsb_minus4: u8,
    pub sps_max_dec_pic_buffering_minus1: u32,
    pub sps_max_num_reorder_pics: u32,
    pub sps_max_latency_increase_plus1: u32,
}

/// The mathematical model of a [`HevcSpsFront`].
pub struct HevcSpsFrontModel {
    pub sps_video_parameter_set_id: u8,
    pub sps_max_sub_layers_minus1: u8,
    pub sps_temporal_id_nesting_flag: bool,
    pub profile_tier_level: HevcProfileTierLevel,
    pub sps_seq_parameter_set_id: u8,
    pub chroma_format_idc: u8,
    pub separate_colour_plane_flag: bool,
    pub pic_width_in_luma_samples: u32,
    pub pic_height_in_luma_samples: u32,
    pub conformance_window: Option<HevcConformanceWindow>,
    pub bit_depth_luma_minus8: u8,
    pub bit_depth_chroma_minus8: u8,
    pub log2_max_pic_order_cnt_lsb_minus4: u8,
    pub sps_max_dec_pic_buffering_minus1: u32,
    pub sps_max_num_reorder_pics: u32,
    pub sps_max_latency_increase_plus1: u32,
}

impl View for HevcSpsFront {
    type V = HevcSpsFrontModel;

    open spec fn view(&self) -> HevcSpsFrontModel {
        HevcSpsFrontModel {
            sps_video_parameter_set_id: self.sps_video_parameter_set_id,
            sps_max_sub_layers_minus1: self.sps_max_sub_layers_minus1,
            sps_temporal_id_nesting_flag: self.sps_temporal_id_nesting_flag,
            profile_tier_level: self.profile_tier_level,
            sps_seq_parameter_set_id: self.sps_seq_parameter_set_id,
            chroma_format_idc: self.chroma_format_idc,
            separate_colour_plane_flag: self.separate_colour_plane_flag,
            pic_width_in_luma_samples: self.pic_width_in_luma_samples,
            pic_height_in_luma_samples: self.pic_height_in_luma_samples,
            conformance_window: self.conformance_window,
            bit_depth_luma_minus8: self.bit_depth_luma_minus8,
            bit_depth_chroma_minus8: self.bit_depth_chroma_minus8,
            log2_max_pic_order_cnt_lsb_minus4: self.log2_max_pic_order_cnt_lsb_minus4,
            sps_max_dec_pic_buffering_minus1: self.sps_max_dec_pic_buffering_minus1,
            sps_max_num_reorder_pics: self.sps_max_num_reorder_pics,
            sps_max_latency_increase_plus1: self.sps_max_latency_increase_plus1,
        }
    }
}

/// The SPS through the sub-layer ordering information at position `p`.
#[verifier::opaque]
pub open spec fn h_sps_front_at(s: Seq<bool>, p: nat) -> Read<HevcSpsFrontModel> {
    let sps_video_parameter_set_id = u8_at(s, p, 4);
    let p = adv(p, 4);
    let sps_max_sub_layers_minus1 = u8_at(s, p, 3);
    let p = adv(p, 3);
    let sps_temporal_id_nesting_flag = flag_at(s, p);
    let p = adv(p, 1);
    match h_ptl_at(s, p, sps_max_sub_layers_minus1) { Err(f) => Err(f), Ok((profile_tier_level, p)) => {
    match ue_at(s, p) { Err(f) => Err(f), Ok((coded_sps_seq_parameter_set_id, p)) => {
    let sps_seq_parameter_set_id = (coded_sps_seq_parameter_set_id % 256) as u8;
    match ue_at(s, p) { Err(f) => Err(f), Ok((coded_chroma_format_idc, p)) => {
    let chroma_format_idc = (coded_chroma_format_idc % 256) as u8;
    let separate_colour_plane_flag = flag_if(s, p, chroma_format_idc == 3, false);
    let p = adv_if(p, 1, chroma_format_idc == 3);
    match ue_at(s, p) { Err(f) => Err(f), Ok((pic_width_in_luma_samples, p)) => {
    match ue_at(s, p) { Err(f) => Err(f), Ok((pic_height_in_luma_samples, p)) => {
    let present = flag_at(s, p);
    let p = adv(p, 1);
    match (if present { read_some(h_conf_at(s, p)) } else { Ok((None, p)) })
    { Err(f) => Err(f), Ok((conformance_window, p)) => {
    match ue_at(s, p) { Err(f) => Err(f), Ok((coded_bit_depth_luma_minus8, p)) => {
    let bit_depth_luma_minus8 = (coded_bit_depth_luma_minus8 % 256) as u8;
    match ue_at(s, p) { Err(f) => Err(f), Ok((coded_bit_depth_chroma_minus8, p)) => {
    let bit_depth_chroma_minus8 = (coded_bit_depth_chroma_minus8 % 256) as u8;
    match ue_at(s, p) { Err(f) => Err(f), Ok((poc_lsb, p)) => {
    if poc_lsb > 12 { Err(Fault::Invalid) } else {
    let log2_max_pic_order_cnt_lsb_minus4 = poc_lsb as u8;
    let all_layers = flag_at(s, p);
    let p = adv(p, 1);
    match h_orders_at(s, p, (if all_layers { (sps_max_sub_layers_minus1 as u64 + 1) as u64 } else { 1u64 }))
    { Err(f) => Err(f), Ok((orders, p)) => {
    let sps_max_dec_pic_buffering_minus1 = orders.last().0;
    let sps_max_num_reorder_pics = orders.last().1;
    let sps_max_latency_increase_plus1 = orders.last().2;
    if sps_max_dec_pic_buffering_minus1 > 15 { Err(Fault::Invalid) } else {
    Ok((
        HevcSpsFrontModel {
            sps_video_parameter_set_id,
            sps_max_sub_layers_minus1,
            sps_temporal_id_nesting_flag,
            profile_tier_level,
            sps_seq_parameter_set_id,
            chroma_format_idc,
            separate_colour_plane_flag,
            pic_width_in_luma_samples,
            pic_height_in_luma_samples,
            conformance_window,
            bit_depth_luma_minus8,
            bit_depth_chroma_minus8,
            log2_max_pic_order_cnt_lsb_minus4,
            sps_max_dec_pic_buffering_minus1,
            sps_max_num_reorder_pics,
            sps_max_latency_increase_plus1,
        },
        p,
    ))
    }}}}}}}}}}}}}}}}}}}}}}
}

/// Parses the SPS through the sub-layer ordering information.
fn parse_h_sps_front(r: &mut BitReader<'_>) -> (res: Result<HevcSpsFront, BitstreamError>)
    ensures
        read_view_is(h_sps_front_at(old(r).bits(), old(r).pos()), res, *old(r), *final(r)),
        res matches Ok(x) ==> x.sps_max_dec_pic_buffering_minus1 <= 15,
        res matches Ok(x) ==> x.log2_max_pic_order_cnt_lsb_minus4 <= 12,
{
    proof {
        reveal(h_sps_front_at);
    }
    let sps_video_parameter_set_id: u8 = r.u8(4);
    let sps_max_sub_layers_minus1: u8 = r.u8(3);
    proof { law_fits_small(sps_max_sub_layers_minus1 as nat, 3); }
    let sps_temporal_id_nesting_flag: bool = r.flag();
    let profile_tier_level = parse_h_ptl(r, sps_max_sub_layers_minus1)?;
    let coded_sps_seq_parameter_set_id: u32 = r.ue()?;
    let sps_seq_parameter_set_id: u8 = (coded_sps_seq_parameter_set_id % 256) as u8;
    let coded_chroma_format_idc: u32 = r.ue()?;
    let chroma_format_idc: u8 = (coded_chroma_format_idc % 256) as u8;
    let separate_colour_plane_flag: bool = r.flag_if(chroma_format_idc == 3, false);
    let pic_width_in_luma_samples: u32 = r.ue()?;
    let pic_height_in_luma_samples: u32 = r.ue()?;
    let present: bool = r.flag();
    let conformance_window = if present { Some(parse_h_conf(r)?) } else { None };
    let coded_bit_depth_luma_minus8: u32 = r.ue()?;
    let bit_depth_luma_minus8: u8 = (coded_bit_depth_luma_minus8 % 256) as u8;
    let coded_bit_depth_chroma_minus8: u32 = r.ue()?;
    let bit_depth_chroma_minus8: u8 = (coded_bit_depth_chroma_minus8 % 256) as u8;
    let poc_lsb: u32 = r.ue()?;
    if poc_lsb > 12 {
        return Err(
            Message::new("SPS log2_max_pic_order_cnt_lsb_minus4=")
                .num(poc_lsb as i128)
                .with(" (must be 0..=12)")
                .invalid(),
        );
    }
    let log2_max_pic_order_cnt_lsb_minus4: u8 = poc_lsb as u8;
    let all_layers: bool = r.flag();
    let orders = parse_h_orders(r, (if all_layers { sps_max_sub_layers_minus1 as u64 + 1 } else { 1u64 }))?;
    let sps_max_dec_pic_buffering_minus1: u32 = orders[orders.len() - 1].0;
    let sps_max_num_reorder_pics: u32 = orders[orders.len() - 1].1;
    let sps_max_latency_increase_plus1: u32 = orders[orders.len() - 1].2;
    if sps_max_dec_pic_buffering_minus1 > 15 {
        return Err(
            Message::new("SPS sps_max_dec_pic_buffering_minus1=")
                .num(sps_max_dec_pic_buffering_minus1 as i128)
                .with(" (MaxDpbSize caps at 16, §A.4.2)")
                .invalid(),
        );
    }
    Ok(
        HevcSpsFront {
            sps_video_parameter_set_id,
            sps_max_sub_layers_minus1,
            sps_temporal_id_nesting_flag,
            profile_tier_level,
            sps_seq_parameter_set_id,
            chroma_format_idc,
            separate_colour_plane_flag,
            pic_width_in_luma_samples,
            pic_height_in_luma_samples,
            conformance_window,
            bit_depth_luma_minus8,
            bit_depth_chroma_minus8,
            log2_max_pic_order_cnt_lsb_minus4,
            sps_max_dec_pic_buffering_minus1,
            sps_max_num_reorder_pics,
            sps_max_latency_increase_plus1,
        },
    )
}

/// The layout of the SPS through the sub-layer ordering information: reading at
/// `p` gives `x` and ends at `q` if and only if these elements stand there in
/// this order, and the values are allowed.
pub proof fn law_layout_h_sps_front(s: Seq<bool>, p: nat, x: HevcSpsFrontModel, q: nat)
    ensures
        h_sps_front_at(s, p) == Ok::<(HevcSpsFrontModel, nat), Fault>((x, q)) <==> ({
            let c = cursor(s, p)
                .u8(4, x.sps_video_parameter_set_id)
                .u8(3, x.sps_max_sub_layers_minus1)
                .flag(x.sps_temporal_id_nesting_flag)
                .part(|p: nat| h_ptl_at(s, p, x.sps_max_sub_layers_minus1), x.profile_tier_level);
            let coded_sps_seq_parameter_set_id = c.next_ue();
            let c = c.ue(coded_sps_seq_parameter_set_id);
            let coded_chroma_format_idc = c.next_ue();
            let c = c
                .ue(coded_chroma_format_idc)
                .flag_if(x.chroma_format_idc == 3, x.separate_colour_plane_flag, false)
                .ue(x.pic_width_in_luma_samples)
                .ue(x.pic_height_in_luma_samples)
                .flagged(|p: nat| h_conf_at(s, p), x.conformance_window);
            let coded_bit_depth_luma_minus8 = c.next_ue();
            let c = c.ue(coded_bit_depth_luma_minus8);
            let coded_bit_depth_chroma_minus8 = c.next_ue();
            let c = c.ue(coded_bit_depth_chroma_minus8);
            let poc_lsb = c.next_ue();
            let c = c.ue(poc_lsb);
            let all_layers = c.next_flag();
            let c = c.flag(all_layers);
            let orders = c.next(
                |p: nat| h_orders_at(
                    s,
                    p,
                    (if all_layers { (x.sps_max_sub_layers_minus1 as u64 + 1) as u64 } else { 1u64 }),
                ),
            );
            &&& c
                .part(
                    |p: nat| h_orders_at(
                        s,
                        p,
                        (if all_layers { (x.sps_max_sub_layers_minus1 as u64 + 1) as u64 } else { 1u64 }),
                    ),
                    orders,
                )
                .ends(q)
            &&& x.sps_seq_parameter_set_id == (coded_sps_seq_parameter_set_id % 256) as u8
            &&& x.chroma_format_idc == (coded_chroma_format_idc % 256) as u8
            &&& x.bit_depth_luma_minus8 == (coded_bit_depth_luma_minus8 % 256) as u8
            &&& x.bit_depth_chroma_minus8 == (coded_bit_depth_chroma_minus8 % 256) as u8
            &&& poc_lsb <= 12
            &&& x.log2_max_pic_order_cnt_lsb_minus4 == poc_lsb as u8
            &&& x.sps_max_dec_pic_buffering_minus1 == orders.last().0
            &&& x.sps_max_num_reorder_pics == orders.last().1
            &&& x.sps_max_latency_increase_plus1 == orders.last().2
            &&& x.sps_max_dec_pic_buffering_minus1 <= 15
        }),
{
    reveal(h_sps_front_at);
    reveal(adv_if);
    reveal(flag_if);
}

/// Reading the SPS through the sub-layer ordering information fails only with
/// an error of this class.
pub broadcast proof fn law_faults_h_sps_front(s: Seq<bool>, p: nat)
    ensures
        #[trigger] h_sps_front_at(s, p) matches Err(f) ==> f == Fault::Invalid,
{
    broadcast use {law_faults_h_ptl, crate::bits::law_faults_ue, law_faults_h_conf, law_faults_h_orders};

    reveal(h_sps_front_at);
}

/// Each field of the model of a [`HevcSpsFront`] is the field of that name.
pub proof fn law_view_h_sps_front(x: HevcSpsFront)
    ensures
        x@.sps_video_parameter_set_id == x.sps_video_parameter_set_id,
        x@.sps_max_sub_layers_minus1 == x.sps_max_sub_layers_minus1,
        x@.sps_temporal_id_nesting_flag == x.sps_temporal_id_nesting_flag,
        x@.profile_tier_level == x.profile_tier_level,
        x@.sps_seq_parameter_set_id == x.sps_seq_parameter_set_id,
        x@.chroma_format_idc == x.chroma_format_idc,
        x@.separate_colour_plane_flag == x.separate_colour_plane_flag,
        x@.pic_width_in_luma_samples == x.pic_width_in_luma_samples,
        x@.pic_height_in_luma_samples == x.pic_height_in_luma_samples,
        x@.conformance_window == x.conformance_window,
        x@.bit_depth_luma_minus8 == x.bit_depth_luma_minus8,
        x@.bit_depth_chroma_minus8 == x.bit_depth_chroma_minus8,
        x@.log2_max_pic_order_cnt_lsb_minus4 == x.log2_max_pic_order_cnt_lsb_minus4,
        x@.sps_max_dec_pic_buffering_minus1 == x.sps_max_dec_pic_buffering_minus1,
        x@.sps_max_num_reorder_pics == x.sps_max_num_reorder_pics,
        x@.sps_max_latency_increase_plus1 == x.sps_max_latency_increase_plus1,
{
}

/// The block sizes and coding tools of a [`HevcSps`].
pub struct HevcSpsCoding {
    pub log2_min_luma_coding_block_size_minus3: u8,
    pub log2_diff_max_min_luma_coding_block_size: u8,
    pub log2_min_luma_transform_block_size_minus2: u8,
    pub log2_diff_max_min_luma_transform_block_size: u8,
    pub max_transform_hierarchy_depth_inter: u8,
    pub max_transform_hierarchy_depth_intra: u8,
    pub scaling_list_enabled_flag: bool,
    pub scaling_list_data: Option<HevcScalingListData>,
    pub amp_enabled_flag: bool,
    pub sample_adaptive_offset_enabled_flag: bool,
    pub pcm_enabled_flag: bool,
    pub pcm_sample_bit_depth_luma_minus1: u8,
    pub pcm_sample_bit_depth_chroma_minus1: u8,
    pub log2_min_pcm_luma_coding_block_size_minus3: u8,
    pub log2_diff_max_min_pcm_luma_coding_block_size: u8,
    pub pcm_loop_filter_disabled_flag: bool,
}

/// The mathematical model of a [`HevcSpsCoding`].
pub struct HevcSpsCodingModel {
    pub log2_min_luma_coding_block_size_minus3: u8,
    pub log2_diff_max_min_luma_coding_block_size: u8,
    pub log2_min_luma_transform_block_size_minus2: u8,
    pub log2_diff_max_min_luma_transform_block_size: u8,
    pub max_transform_hierarchy_depth_inter: u8,
    pub max_transform_hierarchy_depth_intra: u8,
    pub scaling_list_enabled_flag: bool,
    pub scaling_list_data: Option<HevcScalingListDataModel>,
    pub amp_enabled_flag: bool,
    pub sample_adaptive_offset_enabled_flag: bool,
    pub pcm_enabled_flag: bool,
    pub pcm_sample_bit_depth_luma_minus1: u8,
    pub pcm_sample_bit_depth_chroma_minus1: u8,
    pub log2_min_pcm_luma_coding_block_size_minus3: u8,
    pub log2_diff_max_min_pcm_luma_coding_block_size: u8,
    pub pcm_loop_filter_disabled_flag: bool,
}

impl View for HevcSpsCoding {
    type V = HevcSpsCodingModel;

    open spec fn view(&self) -> HevcSpsCodingModel {
        HevcSpsCodingModel {
            log2_min_luma_coding_block_size_minus3: self.log2_min_luma_coding_block_size_minus3,
            log2_diff_max_min_luma_coding_block_size: self.log2_diff_max_min_luma_coding_block_size,
            log2_min_luma_transform_block_size_minus2: self.log2_min_luma_transform_block_size_minus2,
            log2_diff_max_min_luma_transform_block_size: self.log2_diff_max_min_luma_transform_block_size,
            max_transform_hierarchy_depth_inter: self.max_transform_hierarchy_depth_inter,
            max_transform_hierarchy_depth_intra: self.max_transform_hierarchy_depth_intra,
            scaling_list_enabled_flag: self.scaling_list_enabled_flag,
            scaling_list_data: opt_view(self.scaling_list_data),
            amp_enabled_flag: self.amp_enabled_flag,
            sample_adaptive_offset_enabled_flag: self.sample_adaptive_offset_enabled_flag,
            pcm_enabled_flag: self.pcm_enabled_flag,
            pcm_sample_bit_depth_luma_minus1: self.pcm_sample_bit_depth_luma_minus1,
            pcm_sample_bit_depth_chroma_minus1: self.pcm_sample_bit_depth_chroma_minus1,
            log2_min_pcm_luma_coding_block_size_minus3: self.log2_min_pcm_luma_coding_block_size_minus3,
            log2_diff_max_min_pcm_luma_coding_block_size: self.log2_diff_max_min_pcm_luma_coding_block_size,
            pcm_loop_filter_disabled_flag: self.pcm_loop_filter_disabled_flag,
        }
    }
}

/// The block sizes and coding tools of the SPS at position `p`.
#[verifier::opaque]
pub open spec fn h_sps_coding_at(s: Seq<bool>, p: nat) -> Read<HevcSpsCodingModel> {
    match ue_at(s, p) { Err(f) => Err(f), Ok((min_cb, p)) => {
    match ue_at(s, p) { Err(f) => Err(f), Ok((diff_cb, p)) => {
    let ctb_log2 = (min_cb as u64 + 3 + diff_cb as u64) as u64;
    if !(4 <= ctb_log2 && ctb_log2 <= 6) { Err(Fault::Invalid) } else {
    let log2_min_luma_coding_block_size_minus3 = min_cb as u8;
    let log2_diff_max_min_luma_coding_block_size = diff_cb as u8;
    match ue_at(s, p) { Err(f) => Err(f), Ok((coded_log2_min_luma_transform_block_size_minus2, p)) => {
    let log2_min_luma_transform_block_size_minus2 = (
        coded_log2_min_luma_transform_block_size_minus2 % 256
    ) as u8;
    match ue_at(s, p) { Err(f) => Err(f), Ok((coded_log2_diff_max_min_luma_transform_block_size, p)) => {
    let log2_diff_max_min_luma_transform_block_size = (
        coded_log2_diff_max_min_luma_transform_block_size % 256
    ) as u8;
    match ue_at(s, p) { Err(f) => Err(f), Ok((coded_max_transform_hierarchy_depth_inter, p)) => {
    let max_transform_hierarchy_depth_inter = (coded_max_transform_hierarchy_depth_inter % 256) as u8;
    match ue_at(s, p) { Err(f) => Err(f), Ok((coded_max_transform_hierarchy_depth_intra, p)) => {
    let max_transform_hierarchy_depth_intra = (coded_max_transform_hierarchy_depth_intra % 256) as u8;
    let scaling_list_enabled_flag = flag_at(s, p);
    let p = adv(p, 1);
    let present = flag_if(s, p, scaling_list_enabled_flag, false);
    let p = adv_if(p, 1, scaling_list_enabled_flag);
    match (if present { read_some(h_scaling_at(s, p)) } else { Ok((None, p)) })
    { Err(f) => Err(f), Ok((scaling_list_data, p)) => {
    let amp_enabled_flag = flag_at(s, p);
    let p = adv(p, 1);
    let sample_adaptive_offset_enabled_flag = flag_at(s, p);
    let p = adv(p, 1);
    let pcm_enabled_flag = flag_at(s, p);
    let p = adv(p, 1);
    let pcm_sample_bit_depth_luma_minus1 = u8_if(s, p, 4, pcm_enabled_flag, 0);
    let p = adv_if(p, 4, pcm_enabled_flag);
    let pcm_sample_bit_depth_chroma_minus1 = u8_if(s, p, 4, pcm_enabled_flag, 0);
    let p = adv_if(p, 4, pcm_enabled_flag);
    match ue_if(s, p, pcm_enabled_flag, 0)
    { Err(f) => Err(f), Ok((coded_log2_min_pcm_luma_coding_block_size_minus3, p)) => {
    let log2_min_pcm_luma_coding_block_size_minus3 = (
        coded_log2_min_pcm_luma_coding_block_size_minus3 % 256
    ) as u8;
    match ue_if(s, p, pcm_enabled_flag, 0)
    { Err(f) => Err(f), Ok((coded_log2_diff_max_min_pcm_luma_coding_block_size, p)) => {
    let log2_diff_max_min_pcm_luma_coding_block_size = (
        coded_log2_diff_max_min_pcm_luma_coding_block_size % 256
    ) as u8;
    let pcm_loop_filter_disabled_flag = flag_if(s, p, pcm_enabled_flag, false);
    let p = adv_if(p, 1, pcm_enabled_flag);
    Ok((
        HevcSpsCodingModel {
            log2_min_luma_coding_block_size_minus3,
            log2_diff_max_min_luma_coding_block_size,
            log2_min_luma_transform_block_size_minus2,
            log2_diff_max_min_luma_transform_block_size,
            max_transform_hierarchy_depth_inter,
            max_transform_hierarchy_depth_intra,
            scaling_list_enabled_flag,
            scaling_list_data,
            amp_enabled_flag,
            sample_adaptive_offset_enabled_flag,
            pcm_enabled_flag,
            pcm_sample_bit_depth_luma_minus1,
            pcm_sample_bit_depth_chroma_minus1,
            log2_min_pcm_luma_coding_block_size_minus3,
            log2_diff_max_min_pcm_luma_coding_block_size,
            pcm_loop_filter_disabled_flag,
        },
        p,
    ))
    }}}}}}}}}}}}}}}}}}}
}

/// Parses the block sizes and coding tools of the SPS.
fn parse_h_sps_coding(r: &mut BitReader<'_>) -> (res: Result<HevcSpsCoding, BitstreamError>)
    ensures
        read_view_is(h_sps_coding_at(old(r).bits(), old(r).pos()), res, *old(r), *final(r)),
{
    proof {
        reveal(h_sps_coding_at);
    }
    let min_cb: u32 = r.ue()?;
    let diff_cb: u32 = r.ue()?;
    let ctb_log2: u64 = min_cb as u64 + 3 + diff_cb as u64;
    if !(4 <= ctb_log2 && ctb_log2 <= 6) {
        return Err(
            Message::new("SPS CtbLog2SizeY=")
                .num(ctb_log2 as i128)
                .with(" (must be 4..=6, §A.3 profile conformance)")
                .invalid(),
        );
    }
    let log2_min_luma_coding_block_size_minus3: u8 = min_cb as u8;
    let log2_diff_max_min_luma_coding_block_size: u8 = diff_cb as u8;
    let coded_log2_min_luma_transform_block_size_minus2: u32 = r.ue()?;
    let log2_min_luma_transform_block_size_minus2: u8 = (
        coded_log2_min_luma_transform_block_size_minus2 % 256
    ) as u8;
    let coded_log2_diff_max_min_luma_transform_block_size: u32 = r.ue()?;
    let log2_diff_max_min_luma_transform_block_size: u8 = (
        coded_log2_diff_max_min_luma_transform_block_size % 256
    ) as u8;
    let coded_max_transform_hierarchy_depth_inter: u32 = r.ue()?;
    let max_transform_hierarchy_depth_inter: u8 = (coded_max_transform_hierarchy_depth_inter % 256) as u8;
    let coded_max_transform_hierarchy_depth_intra: u32 = r.ue()?;
    let max_transform_hierarchy_depth_intra: u8 = (coded_max_transform_hierarchy_depth_intra % 256) as u8;
    let scaling_list_enabled_flag: bool = r.flag();
    let present: bool = r.flag_if(scaling_list_enabled_flag, false);
    let scaling_list_data = if present { Some(parse_h_scaling(r)?) } else { None };
    let amp_enabled_flag: bool = r.flag();
    let sample_adaptive_offset_enabled_flag: bool = r.flag();
    let pcm_enabled_flag: bool = r.flag();
    let pcm_sample_bit_depth_luma_minus1: u8 = r.u8_if(4, pcm_enabled_flag, 0);
    let pcm_sample_bit_depth_chroma_minus1: u8 = r.u8_if(4, pcm_enabled_flag, 0);
    let coded_log2_min_pcm_luma_coding_block_size_minus3: u32 = r.ue_if(pcm_enabled_flag, 0)?;
    let log2_min_pcm_luma_coding_block_size_minus3: u8 = (
        coded_log2_min_pcm_luma_coding_block_size_minus3 % 256
    ) as u8;
    let coded_log2_diff_max_min_pcm_luma_coding_block_size: u32 = r.ue_if(pcm_enabled_flag, 0)?;
    let log2_diff_max_min_pcm_luma_coding_block_size: u8 = (
        coded_log2_diff_max_min_pcm_luma_coding_block_size % 256
    ) as u8;
    let pcm_loop_filter_disabled_flag: bool = r.flag_if(pcm_enabled_flag, false);
    Ok(
        HevcSpsCoding {
            log2_min_luma_coding_block_size_minus3,
            log2_diff_max_min_luma_coding_block_size,
            log2_min_luma_transform_block_size_minus2,
            log2_diff_max_min_luma_transform_block_size,
            max_transform_hierarchy_depth_inter,
            max_transform_hierarchy_depth_intra,
            scaling_list_enabled_flag,
            scaling_list_data,
            amp_enabled_flag,
            sample_adaptive_offset_enabled_flag,
            pcm_enabled_flag,
            pcm_sample_bit_depth_luma_minus1,
            pcm_sample_bit_depth_chroma_minus1,
            log2_min_pcm_luma_coding_block_size_minus3,
            log2_diff_max_min_pcm_luma_coding_block_size,
            pcm_loop_filter_disabled_flag,
        },
    )
}

/// The layout of the block sizes and coding tools of the SPS: reading at `p`
/// gives `x` and ends at `q` if and only if these elements stand there in this
/// order, and the values are allowed.
pub proof fn law_layout_h_sps_coding(s: Seq<bool>, p: nat, x: HevcSpsCodingModel, q: nat)
    ensures
        h_sps_coding_at(s, p) == Ok::<(HevcSpsCodingModel, nat), Fault>((x, q)) <==> ({
            let c = cursor(s, p);
            let min_cb = c.next_ue();
            let c = c.ue(min_cb);
            let diff_cb = c.next_ue();
            let ctb_log2 = (min_cb as u64 + 3 + diff_cb as u64) as u64;
            let c = c.ue(diff_cb);
            let coded_log2_min_luma_transform_block_size_minus2 = c.next_ue();
            let c = c.ue(coded_log2_min_luma_transform_block_size_minus2);
            let coded_log2_diff_max_min_luma_transform_block_size = c.next_ue();
            let c = c.ue(coded_log2_diff_max_min_luma_transform_block_size);
            let coded_max_transform_hierarchy_depth_inter = c.next_ue();
            let c = c.ue(coded_max_transform_hierarchy_depth_inter);
            let coded_max_transform_hierarchy_depth_intra = c.next_ue();
            let c = c
                .ue(coded_max_transform_hierarchy_depth_intra)
                .flag(x.scaling_list_enabled_flag)
                .flagged_if(x.scaling_list_enabled_flag, |p: nat| h_scaling_at(s, p), x.scaling_list_data)
                .flag(x.amp_enabled_flag)
                .flag(x.sample_adaptive_offset_enabled_flag)
                .flag(x.pcm_enabled_flag)
                .u8_if(x.pcm_enabled_flag, 4, x.pcm_sample_bit_depth_luma_minus1, 0)
                .u8_if(x.pcm_enabled_flag, 4, x.pcm_sample_bit_depth_chroma_minus1, 0);
            let coded_log2_min_pcm_luma_coding_block_size_minus3 = if x.pcm_enabled_flag {
                c.next_ue()
            } else {
                0
            };
            let c = c.ue_if(x.pcm_enabled_flag, coded_log2_min_pcm_luma_coding_block_size_minus3, 0);
            let coded_log2_diff_max_min_pcm_luma_coding_block_size = if x.pcm_enabled_flag {
                c.next_ue()
            } else {
                0
            };
            &&& c
                .ue_if(x.pcm_enabled_flag, coded_log2_diff_max_min_pcm_luma_coding_block_size, 0)
                .flag_if(x.pcm_enabled_flag, x.pcm_loop_filter_disabled_flag, false)
                .ends(q)
            &&& 4 <= ctb_log2 && ctb_log2 <= 6
            &&& x.log2_min_luma_coding_block_size_minus3 == min_cb as u8
            &&& x.log2_diff_max_min_luma_coding_block_size == diff_cb as u8
            &&& x.log2_min_luma_transform_block_size_minus2 == (
                coded_log2_min_luma_transform_block_size_minus2 % 256
            ) as u8
            &&& x.log2_diff_max_min_luma_transform_block_size == (
                coded_log2_diff_max_min_luma_transform_block_size % 256
            ) as u8
            &&& x.max_transform_hierarchy_depth_inter == (
                coded_max_transform_hierarchy_depth_inter % 256
            ) as u8
            &&& x.max_transform_hierarchy_depth_intra == (
                coded_max_transform_hierarchy_depth_intra % 256
            ) as u8
            &&& x.log2_min_pcm_luma_coding_block_size_minus3 == (
                coded_log2_min_pcm_luma_coding_block_size_minus3 % 256
            ) as u8
            &&& x.log2_diff_max_min_pcm_luma_coding_block_size == (
                coded_log2_diff_max_min_pcm_luma_coding_block_size % 256
            ) as u8
        }),
{
    reveal(h_sps_coding_at);
    reveal(adv_if);
    reveal(flag_if);
    reveal(u8_if);
    reveal(ue_if);
}

/// Reading the block sizes and coding tools of the SPS fails only with an error
/// of this class.
pub broadcast proof fn law_faults_h_sps_coding(s: Seq<bool>, p: nat)
    ensures
        #[trigger] h_sps_coding_at(s, p) matches Err(f) ==> f == Fault::Invalid,
{
    broadcast use {crate::bits::law_faults_ue, law_faults_h_scaling};

    reveal(h_sps_coding_at);
    reveal(ue_if);
}

/// Each field of the model of a [`HevcSpsCoding`] is the field of that name.
pub proof fn law_view_h_sps_coding(x: HevcSpsCoding)
    ensures
        x@.log2_min_luma_coding_block_size_minus3 == x.log2_min_luma_coding_block_size_minus3,
        x@.log2_diff_max_min_luma_coding_block_size == x.log2_diff_max_min_luma_coding_block_size,
        x@.log2_min_luma_transform_block_size_minus2 == x.log2_min_luma_transform_block_size_minus2,
        x@.log2_diff_max_min_luma_transform_block_size == x.log2_diff_max_min_luma_transform_block_size,
        x@.max_transform_hierarchy_depth_inter == x.max_transform_hierarchy_depth_inter,
        x@.max_transform_hierarchy_depth_intra == x.max_transform_hierarchy_depth_intra,
        x@.scaling_list_enabled_flag == x.scaling_list_enabled_flag,
        x@.scaling_list_data == opt_view(x.scaling_list_data),
        x@.amp_enabled_flag == x.amp_enabled_flag,
        x@.sample_adaptive_offset_enabled_flag == x.sample_adaptive_offset_enabled_flag,
        x@.pcm_enabled_flag == x.pcm_enabled_flag,
        x@.pcm_sample_bit_depth_luma_minus1 == x.pcm_sample_bit_depth_luma_minus1,
        x@.pcm_sample_bit_depth_chroma_minus1 == x.pcm_sample_bit_depth_chroma_minus1,
        x@.log2_min_pcm_luma_coding_block_size_minus3 == x.log2_min_pcm_luma_coding_block_size_minus3,
        x@.log2_diff_max_min_pcm_luma_coding_block_size == x.log2_diff_max_min_pcm_luma_coding_block_size,
        x@.pcm_loop_filter_disabled_flag == x.pcm_loop_filter_disabled_flag,
{
}

/// The reference picture part of a [`HevcSps`].
pub struct HevcSpsRefs {
    pub num_short_term_ref_pic_sets: u32,
    pub short_term_rps: Vec<HevcShortTermRps>,
    pub long_term_ref_pics_present_flag: bool,
    pub num_long_term_ref_pics_sps: u32,
    pub long_term_ref_pics: Vec<(u32, bool)>,
    pub sps_temporal_mvp_enabled_flag: bool,
    pub strong_intra_smoothing_enabled_flag: bool,
}

/// The mathematical model of a [`HevcSpsRefs`].
pub struct HevcSpsRefsModel {
    pub num_short_term_ref_pic_sets: u32,
    pub short_term_rps: Seq<HevcShortTermRpsModel>,
    pub long_term_ref_pics_present_flag: bool,
    pub num_long_term_ref_pics_sps: u32,
    pub long_term_ref_pics: Seq<(u32, bool)>,
    pub sps_temporal_mvp_enabled_flag: bool,
    pub strong_intra_smoothing_enabled_flag: bool,
}

impl View for HevcSpsRefs {
    type V = HevcSpsRefsModel;

    open spec fn view(&self) -> HevcSpsRefsModel {
        HevcSpsRefsModel {
            num_short_term_ref_pic_sets: self.num_short_term_ref_pic_sets,
            short_term_rps: seq_view(self.short_term_rps@),
            long_term_ref_pics_present_flag: self.long_term_ref_pics_present_flag,
            num_long_term_ref_pics_sps: self.num_long_term_ref_pics_sps,
            long_term_ref_pics: self.long_term_ref_pics@,
            sps_temporal_mvp_enabled_flag: self.sps_temporal_mvp_enabled_flag,
            strong_intra_smoothing_enabled_flag: self.strong_intra_smoothing_enabled_flag,
        }
    }
}

/// The reference picture part of the SPS at position `p`.
#[verifier::opaque]
pub open spec fn h_sps_refs_at(s: Seq<bool>, p: nat, max_dec: u32, lsb: u8) -> Read<HevcSpsRefsModel> {
    match ue_at(s, p) { Err(f) => Err(f), Ok((num_short_term_ref_pic_sets, p)) => {
    if num_short_term_ref_pic_sets > 64 { Err(Fault::Invalid) } else {
    match h_rps_list_at(s, p, max_dec, num_short_term_ref_pic_sets as u64)
    { Err(f) => Err(f), Ok((short_term_rps, p)) => {
    let long_term_ref_pics_present_flag = flag_at(s, p);
    let p = adv(p, 1);
    match ue_if(s, p, long_term_ref_pics_present_flag, 0)
    { Err(f) => Err(f), Ok((num_long_term_ref_pics_sps, p)) => {
    if num_long_term_ref_pics_sps > 32 { Err(Fault::Invalid) } else {
    match h_lts_at(s, p, (lsb as u32 + 4) as u32, num_long_term_ref_pics_sps as u64)
    { Err(f) => Err(f), Ok((long_term_ref_pics, p)) => {
    let sps_temporal_mvp_enabled_flag = flag_at(s, p);
    let p = adv(p, 1);
    let strong_intra_smoothing_enabled_flag = flag_at(s, p);
    let p = adv(p, 1);
    Ok((
        HevcSpsRefsModel {
            num_short_term_ref_pic_sets,
            short_term_rps,
            long_term_ref_pics_present_flag,
            num_long_term_ref_pics_sps,
            long_term_ref_pics,
            sps_temporal_mvp_enabled_flag,
            strong_intra_smoothing_enabled_flag,
        },
        p,
    ))
    }}}}}}}}}}
}

/// Parses the reference picture part of the SPS.
fn parse_h_sps_refs(
    r: &mut BitReader<'_>,
    max_dec: u32,
    lsb: u8,
) -> (res: Result<HevcSpsRefs, BitstreamError>)
    requires
        max_dec <= 15,
        lsb <= 12,
    ensures
        read_view_is(h_sps_refs_at(old(r).bits(), old(r).pos(), max_dec, lsb), res, *old(r), *final(r)),
{
    proof {
        reveal(h_sps_refs_at);
    }
    let num_short_term_ref_pic_sets: u32 = r.ue()?;
    if num_short_term_ref_pic_sets > 64 {
        return Err(
            Message::new("SPS num_short_term_ref_pic_sets=")
                .num(num_short_term_ref_pic_sets as i128)
                .with(" (must be 0..=64, §7.4.3.2.1)")
                .invalid(),
        );
    }
    let short_term_rps = parse_h_rps_list(r, max_dec, num_short_term_ref_pic_sets as u64)?;
    let long_term_ref_pics_present_flag: bool = r.flag();
    let num_long_term_ref_pics_sps: u32 = r.ue_if(long_term_ref_pics_present_flag, 0)?;
    if num_long_term_ref_pics_sps > 32 {
        return Err(
            Message::new("SPS num_long_term_ref_pics_sps=")
                .num(num_long_term_ref_pics_sps as i128)
                .with(" (must be 0..=32, §7.4.3.2.1)")
                .invalid(),
        );
    }
    let long_term_ref_pics = parse_h_lts(r, lsb as u32 + 4, num_long_term_ref_pics_sps as u64)?;
    let sps_temporal_mvp_enabled_flag: bool = r.flag();
    let strong_intra_smoothing_enabled_flag: bool = r.flag();
    Ok(
        HevcSpsRefs {
            num_short_term_ref_pic_sets,
            short_term_rps,
            long_term_ref_pics_present_flag,
            num_long_term_ref_pics_sps,
            long_term_ref_pics,
            sps_temporal_mvp_enabled_flag,
            strong_intra_smoothing_enabled_flag,
        },
    )
}

/// The layout of the reference picture part of the SPS: reading at `p` gives
/// `x` and ends at `q` if and only if these elements stand there in this order,
/// and the values are allowed.
pub proof fn law_layout_h_sps_refs(s: Seq<bool>, p: nat, max_dec: u32, lsb: u8, x: HevcSpsRefsModel, q: nat)
    ensures
        h_sps_refs_at(s, p, max_dec, lsb) == Ok::<(HevcSpsRefsModel, nat), Fault>((x, q)) <==> ({
            &&& cursor(s, p)
                .ue(x.num_short_term_ref_pic_sets)
                .part(
                    |p: nat| h_rps_list_at(s, p, max_dec, x.num_short_term_ref_pic_sets as u64),
                    x.short_term_rps,
                )
                .flag(x.long_term_ref_pics_present_flag)
                .ue_if(x.long_term_ref_pics_present_flag, x.num_long_term_ref_pics_sps, 0)
                .part(
                    |p: nat| h_lts_at(s, p, (lsb as u32 + 4) as u32, x.num_long_term_ref_pics_sps as u64),
                    x.long_term_ref_pics,
                )
                .flag(x.sps_temporal_mvp_enabled_flag)
                .flag(x.strong_intra_smoothing_enabled_flag)
                .ends(q)
            &&& x.num_short_term_ref_pic_sets <= 64
            &&& x.num_long_term_ref_pics_sps <= 32
        }),
{
    reveal(h_sps_refs_at);
    reveal(ue_if);
}

/// Reading the reference picture part of the SPS fails only with an error of
/// this class.
pub broadcast proof fn law_faults_h_sps_refs(s: Seq<bool>, p: nat, max_dec: u32, lsb: u8)
    ensures
        #[trigger] h_sps_refs_at(s, p, max_dec, lsb) matches Err(f) ==> f == Fault::Invalid,
{
    broadcast use {crate::bits::law_faults_ue, law_faults_h_rps_list, law_faults_h_lts};

    reveal(h_sps_refs_at);
    reveal(ue_if);
}

/// Each field of the model of a [`HevcSpsRefs`] is the field of that name.
pub proof fn law_view_h_sps_refs(x: HevcSpsRefs)
    ensures
        x@.num_short_term_ref_pic_sets == x.num_short_term_ref_pic_sets,
        x@.short_term_rps == seq_view(x.short_term_rps@),
        x@.long_term_ref_pics_present_flag == x.long_term_ref_pics_present_flag,
        x@.num_long_term_ref_pics_sps == x.num_long_term_ref_pics_sps,
        x@.long_term_ref_pics == x.long_term_ref_pics@,
        x@.sps_temporal_mvp_enabled_flag == x.sps_temporal_mvp_enabled_flag,
        x@.strong_intra_smoothing_enabled_flag == x.strong_intra_smoothing_enabled_flag,
{
}

/// The VUI and the extensions of a [`HevcSps`].
pub struct HevcSpsExt {
    pub vui: Option<HevcVui>,
    pub sps_range_extension_flag: bool,
    pub sps_multilayer_extension_flag: bool,
    pub sps_3d_extension_flag: bool,
    pub sps_scc_extension_flag: bool,
    pub range_extension: Option<HevcSpsRangeExtension>,
}

/// The mathematical model of a [`HevcSpsExt`].
pub struct HevcSpsExtModel {
    pub vui: Option<HevcVuiModel>,
    pub sps_range_extension_flag: bool,
    pub sps_multilayer_extension_flag: bool,
    pub sps_3d_extension_flag: bool,
    pub sps_scc_extension_flag: bool,
    pub range_extension: Option<HevcSpsRangeExtension>,
}

impl View for HevcSpsExt {
    type V = HevcSpsExtModel;

    open spec fn view(&self) -> HevcSpsExtModel {
        HevcSpsExtModel {
            vui: opt_view(self.vui),
            sps_range_extension_flag: self.sps_range_extension_flag,
            sps_multilayer_extension_flag: self.sps_multilayer_extension_flag,
            sps_3d_extension_flag: self.sps_3d_extension_flag,
            sps_scc_extension_flag: self.sps_scc_extension_flag,
            range_extension: self.range_extension,
        }
    }
}

/// The VUI and the extensions of the SPS at position `p`.
#[verifier::opaque]
pub open spec fn h_sps_ext_at(s: Seq<bool>, p: nat, max: u8) -> Read<HevcSpsExtModel> {
    let present = flag_at(s, p);
    let p = adv(p, 1);
    match (if present { read_some(h_vui_at(s, p, max)) } else { Ok((None, p)) })
    { Err(f) => Err(f), Ok((vui, p)) => {
    let extended = flag_at(s, p);
    let p = adv(p, 1);
    let sps_range_extension_flag = flag_if(s, p, extended, false);
    let p = adv_if(p, 1, extended);
    let sps_multilayer_extension_flag = flag_if(s, p, extended, false);
    let p = adv_if(p, 1, extended);
    let sps_3d_extension_flag = flag_if(s, p, extended, false);
    let p = adv_if(p, 1, extended);
    let sps_scc_extension_flag = flag_if(s, p, extended, false);
    let p = adv_if(p, 1, extended);
    let _ext_4bits = u8_if(s, p, 4, extended, 0);
    let p = adv_if(p, 4, extended);
    match (if sps_range_extension_flag { read_some(h_sps_range_at(s, p)) } else { Ok((None, p)) })
    { Err(f) => Err(f), Ok((range_extension, p)) => {
    if sps_multilayer_extension_flag || sps_3d_extension_flag || sps_scc_extension_flag {
        Err(Fault::Unsupported)
    } else {
    Ok((
        HevcSpsExtModel {
            vui,
            sps_range_extension_flag,
            sps_multilayer_extension_flag,
            sps_3d_extension_flag,
            sps_scc_extension_flag,
            range_extension,
        },
        p,
    ))
    }}}}}
}

/// Parses the VUI and the extensions of the SPS.
fn parse_h_sps_ext(r: &mut BitReader<'_>, max: u8) -> (res: Result<HevcSpsExt, BitstreamError>)
    ensures
        read_view_is(h_sps_ext_at(old(r).bits(), old(r).pos(), max), res, *old(r), *final(r)),
{
    proof {
        reveal(h_sps_ext_at);
    }
    let present: bool = r.flag();
    let vui = if present { Some(parse_h_vui(r, max)?) } else { None };
    let extended: bool = r.flag();
    let sps_range_extension_flag: bool = r.flag_if(extended, false);
    let sps_multilayer_extension_flag: bool = r.flag_if(extended, false);
    let sps_3d_extension_flag: bool = r.flag_if(extended, false);
    let sps_scc_extension_flag: bool = r.flag_if(extended, false);
    let _ext_4bits: u8 = r.u8_if(4, extended, 0);
    let range_extension = if sps_range_extension_flag { Some(parse_h_sps_range(r)?) } else { None };
    if sps_multilayer_extension_flag || sps_3d_extension_flag || sps_scc_extension_flag {
        return Err(
            BitstreamError::unsupported("HEVC SPS multilayer/3D/SCC extension payloads not supported"),
        );
    }
    Ok(
        HevcSpsExt {
            vui,
            sps_range_extension_flag,
            sps_multilayer_extension_flag,
            sps_3d_extension_flag,
            sps_scc_extension_flag,
            range_extension,
        },
    )
}

/// The layout of the VUI and the extensions of the SPS: reading at `p` gives
/// `x` and ends at `q` if and only if these elements stand there in this order,
/// and the values are allowed.
pub proof fn law_layout_h_sps_ext(s: Seq<bool>, p: nat, max: u8, x: HevcSpsExtModel, q: nat)
    ensures
        h_sps_ext_at(s, p, max) == Ok::<(HevcSpsExtModel, nat), Fault>((x, q)) <==> ({
            let c = cursor(s, p).flagged(|p: nat| h_vui_at(s, p, max), x.vui);
            let extended = c.next_flag();
            &&& c
                .flag(extended)
                .flag_if(extended, x.sps_range_extension_flag, false)
                .flag_if(extended, x.sps_multilayer_extension_flag, false)
                .flag_if(extended, x.sps_3d_extension_flag, false)
                .flag_if(extended, x.sps_scc_extension_flag, false)
                .skip_if(extended, 4)
                .part_if(x.sps_range_extension_flag, |p: nat| h_sps_range_at(s, p), x.range_extension)
                .ends(q)
            &&& !(x.sps_multilayer_extension_flag || x.sps_3d_extension_flag || x.sps_scc_extension_flag)
        }),
{
    reveal(h_sps_ext_at);
    reveal(adv_if);
    reveal(flag_if);
    reveal(u8_if);
}

/// What reads as the VUI and the extensions of the SPS up to this point, and
/// meets the last condition, is refused as not supported.
pub proof fn law_refused_h_sps_ext(s: Seq<bool>, p: nat, max: u8, x: HevcSpsExtModel)
    ensures
        ({
            let c = cursor(s, p).flagged(|p: nat| h_vui_at(s, p, max), x.vui);
            let extended = c.next_flag();
            let c = c
                .flag(extended)
                .flag_if(extended, x.sps_range_extension_flag, false)
                .flag_if(extended, x.sps_multilayer_extension_flag, false)
                .flag_if(extended, x.sps_3d_extension_flag, false)
                .flag_if(extended, x.sps_scc_extension_flag, false)
                .skip_if(extended, 4)
                .part_if(x.sps_range_extension_flag, |p: nat| h_sps_range_at(s, p), x.range_extension);
            &&& c.good
            &&& (x.sps_multilayer_extension_flag || x.sps_3d_extension_flag || x.sps_scc_extension_flag)
        }) ==> h_sps_ext_at(s, p, max) == Err::<(HevcSpsExtModel, nat), Fault>(Fault::Unsupported),
{
    reveal(h_sps_ext_at);
    reveal(adv_if);
    reveal(flag_if);
    reveal(u8_if);
}

/// Reading the VUI and the extensions of the SPS never fails with an error of
/// this class.
pub broadcast proof fn law_faults_h_sps_ext(s: Seq<bool>, p: nat, max: u8)
    ensures
        #[trigger] h_sps_ext_at(s, p, max) matches Err(f) ==> f != Fault::End,
{
    broadcast use {law_faults_h_vui, law_faults_h_sps_range};

    reveal(h_sps_ext_at);
}

/// Each field of the model of a [`HevcSpsExt`] is the field of that name.
pub proof fn law_view_h_sps_ext(x: HevcSpsExt)
    ensures
        x@.vui == opt_view(x.vui),
        x@.sps_range_extension_flag == x.sps_range_extension_flag,
        x@.sps_multilayer_extension_flag == x.sps_multilayer_extension_flag,
        x@.sps_3d_extension_flag == x.sps_3d_extension_flag,
        x@.sps_scc_extension_flag == x.sps_scc_extension_flag,
        x@.range_extension == x.range_extension,
{
}

/// The mathematical model of a [`HevcSps`].
pub struct HevcSpsModel {
    pub front: HevcSpsFrontModel,
    pub coding: HevcSpsCodingModel,
    pub refs: HevcSpsRefsModel,
    pub ext: HevcSpsExtModel,
}

impl View for HevcSps {
    type V = HevcSpsModel;

    open spec fn view(&self) -> HevcSpsModel {
        HevcSpsModel {
            front: HevcSpsFrontModel {
                sps_video_parameter_set_id: self.sps_video_parameter_set_id,
                sps_max_sub_layers_minus1: self.sps_max_sub_layers_minus1,
                sps_temporal_id_nesting_flag: self.sps_temporal_id_nesting_flag,
                profile_tier_level: self.profile_tier_level,
                sps_seq_parameter_set_id: self.sps_seq_parameter_set_id,
                chroma_format_idc: self.chroma_format_idc,
                separate_colour_plane_flag: self.separate_colour_plane_flag,
                pic_width_in_luma_samples: self.pic_width_in_luma_samples,
                pic_height_in_luma_samples: self.pic_height_in_luma_samples,
                conformance_window: self.conformance_window,
                bit_depth_luma_minus8: self.bit_depth_luma_minus8,
                bit_depth_chroma_minus8: self.bit_depth_chroma_minus8,
                log2_max_pic_order_cnt_lsb_minus4: self.log2_max_pic_order_cnt_lsb_minus4,
                sps_max_dec_pic_buffering_minus1: self.sps_max_dec_pic_buffering_minus1,
                sps_max_num_reorder_pics: self.sps_max_num_reorder_pics,
                sps_max_latency_increase_plus1: self.sps_max_latency_increase_plus1,
            },
            coding: HevcSpsCodingModel {
                log2_min_luma_coding_block_size_minus3: self.log2_min_luma_coding_block_size_minus3,
                log2_diff_max_min_luma_coding_block_size: self.log2_diff_max_min_luma_coding_block_size,
                log2_min_luma_transform_block_size_minus2: self.log2_min_luma_transform_block_size_minus2,
                log2_diff_max_min_luma_transform_block_size: self.log2_diff_max_min_luma_transform_block_size,
                max_transform_hierarchy_depth_inter: self.max_transform_hierarchy_depth_inter,
                max_transform_hierarchy_depth_intra: self.max_transform_hierarchy_depth_intra,
                scaling_list_enabled_flag: self.scaling_list_enabled_flag,
                scaling_list_data: opt_view(self.scaling_list_data),
                amp_enabled_flag: self.amp_enabled_flag,
                sample_adaptive_offset_enabled_flag: self.sample_adaptive_offset_enabled_flag,
                pcm_enabled_flag: self.pcm_enabled_flag,
                pcm_sample_bit_depth_luma_minus1: self.pcm_sample_bit_depth_luma_minus1,
                pcm_sample_bit_depth_chroma_minus1: self.pcm_sample_bit_depth_chroma_minus1,
                log2_min_pcm_luma_coding_block_size_minus3: self.log2_min_pcm_luma_coding_block_size_minus3,
                log2_diff_max_min_pcm_luma_coding_block_size: self.log2_diff_max_min_pcm_luma_coding_block_size,
                pcm_loop_filter_disabled_flag: self.pcm_loop_filter_disabled_flag,
            },
            refs: HevcSpsRefsModel {
                num_short_term_ref_pic_sets: self.num_short_term_ref_pic_sets,
                short_term_rps: seq_view(self.short_term_rps@),
                long_term_ref_pics_present_flag: self.long_term_ref_pics_present_flag,
                num_long_term_ref_pics_sps: self.num_long_term_ref_pics_sps,
                long_term_ref_pics: self.long_term_ref_pics@,
                sps_temporal_mvp_enabled_flag: self.sps_temporal_mvp_enabled_flag,
                strong_intra_smoothing_enabled_flag: self.strong_intra_smoothing_enabled_flag,
            },
            ext: HevcSpsExtModel {
                vui: opt_view(self.vui),
                sps_range_extension_flag: self.sps_range_extension_flag,
                sps_multilayer_extension_flag: self.sps_multilayer_extension_flag,
                sps_3d_extension_flag: self.sps_3d_extension_flag,
                sps_scc_extension_flag: self.sps_scc_extension_flag,
                range_extension: self.range_extension,
            },
        }
    }
}

/// The sequence parameter set (§7.3.2.2) at position `p`.
#[verifier::opaque]
pub open spec fn h_sps_at(s: Seq<bool>, p: nat) -> Read<HevcSpsModel> {
    match h_sps_front_at(s, p) { Err(f) => Err(f), Ok((front, p)) => {
    match h_sps_coding_at(s, p) { Err(f) => Err(f), Ok((coding, p)) => {
    match h_sps_refs_at(s, p, front.sps_max_dec_pic_buffering_minus1, front.log2_max_pic_order_cnt_lsb_minus4)
    { Err(f) => Err(f), Ok((refs, p)) => {
    match h_sps_ext_at(s, p, front.sps_max_sub_layers_minus1) { Err(f) => Err(f), Ok((ext, p)) => {
    Ok((HevcSpsModel { front, coding, refs, ext }, p))
    }}}}}}}}
}

/// Parses the sequence parameter set (§7.3.2.2).
fn parse_h_sps(r: &mut BitReader<'_>) -> (res: Result<HevcSps, BitstreamError>)
    ensures
        read_view_is(h_sps_at(old(r).bits(), old(r).pos()), res, *old(r), *final(r)),
{
    proof {
        reveal(h_sps_at);
    }
    let front = parse_h_sps_front(r)?;
    let coding = parse_h_sps_coding(r)?;
    let refs = parse_h_sps_refs(
        r,
        front.sps_max_dec_pic_buffering_minus1,
        front.log2_max_pic_order_cnt_lsb_minus4,
    )?;
    let ext = parse_h_sps_ext(r, front.sps_max_sub_layers_minus1)?;
    Ok(HevcSps {
        sps_video_parameter_set_id: front.sps_video_parameter_set_id,
        sps_max_sub_layers_minus1: front.sps_max_sub_layers_minus1,
        sps_temporal_id_nesting_flag: front.sps_temporal_id_nesting_flag,
        profile_tier_level: front.profile_tier_level,
        sps_seq_parameter_set_id: front.sps_seq_parameter_set_id,
        chroma_format_idc: front.chroma_format_idc,
        separate_colour_plane_flag: front.separate_colour_plane_flag,
        pic_width_in_luma_samples: front.pic_width_in_luma_samples,
        pic_height_in_luma_samples: front.pic_height_in_luma_samples,
        conformance_window: front.conformance_window,
        bit_depth_luma_minus8: front.bit_depth_luma_minus8,
        bit_depth_chroma_minus8: front.bit_depth_chroma_minus8,
        log2_max_pic_order_cnt_lsb_minus4: front.log2_max_pic_order_cnt_lsb_minus4,
        sps_max_dec_pic_buffering_minus1: front.sps_max_dec_pic_buffering_minus1,
        sps_max_num_reorder_pics: front.sps_max_num_reorder_pics,
        sps_max_latency_increase_plus1: front.sps_max_latency_increase_plus1,
        log2_min_luma_coding_block_size_minus3: coding.log2_min_luma_coding_block_size_minus3,
        log2_diff_max_min_luma_coding_block_size: coding.log2_diff_max_min_luma_coding_block_size,
        log2_min_luma_transform_block_size_minus2: coding.log2_min_luma_transform_block_size_minus2,
        log2_diff_max_min_luma_transform_block_size: coding.log2_diff_max_min_luma_transform_block_size,
        max_transform_hierarchy_depth_inter: coding.max_transform_hierarchy_depth_inter,
        max_transform_hierarchy_depth_intra: coding.max_transform_hierarchy_depth_intra,
        scaling_list_enabled_flag: coding.scaling_list_enabled_flag,
        scaling_list_data: coding.scaling_list_data,
        amp_enabled_flag: coding.amp_enabled_flag,
        sample_adaptive_offset_enabled_flag: coding.sample_adaptive_offset_enabled_flag,
        pcm_enabled_flag: coding.pcm_enabled_flag,
        pcm_sample_bit_depth_luma_minus1: coding.pcm_sample_bit_depth_luma_minus1,
        pcm_sample_bit_depth_chroma_minus1: coding.pcm_sample_bit_depth_chroma_minus1,
        log2_min_pcm_luma_coding_block_size_minus3: coding.log2_min_pcm_luma_coding_block_size_minus3,
        log2_diff_max_min_pcm_luma_coding_block_size: coding.log2_diff_max_min_pcm_luma_coding_block_size,
        pcm_loop_filter_disabled_flag: coding.pcm_loop_filter_disabled_flag,
        num_short_term_ref_pic_sets: refs.num_short_term_ref_pic_sets,
        short_term_rps: refs.short_term_rps,
        long_term_ref_pics_present_flag: refs.long_term_ref_pics_present_flag,
        num_long_term_ref_pics_sps: refs.num_long_term_ref_pics_sps,
        long_term_ref_pics: refs.long_term_ref_pics,
        sps_temporal_mvp_enabled_flag: refs.sps_temporal_mvp_enabled_flag,
        strong_intra_smoothing_enabled_flag: refs.strong_intra_smoothing_enabled_flag,
        vui: ext.vui,
        sps_range_extension_flag: ext.sps_range_extension_flag,
        sps_multilayer_extension_flag: ext.sps_multilayer_extension_flag,
        sps_3d_extension_flag: ext.sps_3d_extension_flag,
        sps_scc_extension_flag: ext.sps_scc_extension_flag,
        range_extension: ext.range_extension,
    })
}

/// The layout of the sequence parameter set (§7.3.2.2): reading at `p` gives
/// `x` and ends at `q` if and only if these elements stand there in this order.
pub proof fn law_layout_h_sps(s: Seq<bool>, p: nat, x: HevcSpsModel, q: nat)
    ensures
        h_sps_at(s, p) == Ok::<(HevcSpsModel, nat), Fault>((x, q)) <==> cursor(s, p)
            .part(|p: nat| h_sps_front_at(s, p), x.front)
            .part(|p: nat| h_sps_coding_at(s, p), x.coding)
            .part(
                |p: nat| h_sps_refs_at(
                    s,
                    p,
                    x.front.sps_max_dec_pic_buffering_minus1,
                    x.front.log2_max_pic_order_cnt_lsb_minus4,
                ),
                x.refs,
            )
            .part(|p: nat| h_sps_ext_at(s, p, x.front.sps_max_sub_layers_minus1), x.ext)
            .ends(q),
{
    reveal(h_sps_at);
}

/// Reading the sequence parameter set (§7.3.2.2) never fails with an error of
/// this class.
pub broadcast proof fn law_faults_h_sps(s: Seq<bool>, p: nat)
    ensures
        #[trigger] h_sps_at(s, p) matches Err(f) ==> f != Fault::End,
{
    broadcast use {
        law_faults_h_sps_front,
        law_faults_h_sps_coding,
        law_faults_h_sps_refs,
        law_faults_h_sps_ext,
    };

    reveal(h_sps_at);
}

/// Each field of the model of a [`HevcSps`] is the field of that name.
pub proof fn law_view_h_sps(x: HevcSps)
    ensures
        x@.front.sps_video_parameter_set_id == x.sps_video_parameter_set_id,
        x@.front.sps_max_sub_layers_minus1 == x.sps_max_sub_layers_minus1,
        x@.front.sps_temporal_id_nesting_flag == x.sps_temporal_id_nesting_flag,
        x@.front.profile_tier_level == x.profile_tier_level,
        x@.front.sps_seq_parameter_set_id == x.sps_seq_parameter_set_id,
        x@.front.chroma_format_idc == x.chroma_format_idc,
        x@.front.separate_colour_plane_flag == x.separate_colour_plane_flag,
        x@.front.pic_width_in_luma_samples == x.pic_width_in_luma_samples,
        x@.front.pic_height_in_luma_samples == x.pic_height_in_luma_samples,
        x@.front.conformance_window == x.conformance_window,
        x@.front.bit_depth_luma_minus8 == x.bit_depth_luma_minus8,
        x@.front.bit_depth_chroma_minus8 == x.bit_depth_chroma_minus8,
        x@.front.log2_max_pic_order_cnt_lsb_minus4 == x.log2_max_pic_order_cnt_lsb_minus4,
        x@.front.sps_max_dec_pic_buffering_minus1 == x.sps_max_dec_pic_buffering_minus1,
        x@.front.sps_max_num_reorder_pics == x.sps_max_num_reorder_pics,
        x@.front.sps_max_latency_increase_plus1 == x.sps_max_latency_increase_plus1,
        x@.coding.log2_min_luma_coding_block_size_minus3 == x.log2_min_luma_coding_block_size_minus3,
        x@.coding.log2_diff_max_min_luma_coding_block_size == x.log2_diff_max_min_luma_coding_block_size,
        x@.coding.log2_min_luma_transform_block_size_minus2 == x.log2_min_luma_transform_block_size_minus2,
        x@.coding.log2_diff_max_min_luma_transform_block_size == x.log2_diff_max_min_luma_transform_block_size,
        x@.coding.max_transform_hierarchy_depth_inter == x.max_transform_hierarchy_depth_inter,
        x@.coding.max_transform_hierarchy_depth_intra == x.max_transform_hierarchy_depth_intra,
        x@.coding.scaling_list_enabled_flag == x.scaling_list_enabled_flag,
        x@.coding.scaling_list_data == opt_view(x.scaling_list_data),
        x@.coding.amp_enabled_flag == x.amp_enabled_flag,
        x@.coding.sample_adaptive_offset_enabled_flag == x.sample_adaptive_offset_enabled_flag,
        x@.coding.pcm_enabled_flag == x.pcm_enabled_flag,
        x@.coding.pcm_sample_bit_depth_luma_minus1 == x.pcm_sample_bit_depth_luma_minus1,
        x@.coding.pcm_sample_bit_depth_chroma_minus1 == x.pcm_sample_bit_depth_chroma_minus1,
        x@.coding.log2_min_pcm_luma_coding_block_size_minus3 == x.log2_min_pcm_luma_coding_block_size_minus3,
        x@.coding.log2_diff_max_min_pcm_luma_coding_block_size == x.log2_diff_max_min_pcm_luma_coding_block_size,
        x@.coding.pcm_loop_filter_disabled_flag == x.pcm_loop_filter_disabled_flag,
        x@.refs.num_short_term_ref_pic_sets == x.num_short_term_ref_pic_sets,
        x@.refs.short_term_rps == seq_view(x.short_term_rps@),
        x@.refs.long_term_ref_pics_present_flag == x.long_term_ref_pics_present_flag,
        x@.refs.num_long_term_ref_pics_sps == x.num_long_term_ref_pics_sps,
        x@.refs.long_term_ref_pics == x.long_term_ref_pics@,
        x@.refs.sps_temporal_mvp_enabled_flag == x.sps_temporal_mvp_enabled_flag,
        x@.refs.strong_intra_smoothing_enabled_flag == x.strong_intra_smoothing_enabled_flag,
        x@.ext.vui == opt_view(x.vui),
        x@.ext.sps_range_extension_flag == x.sps_range_extension_flag,
        x@.ext.sps_multilayer_extension_flag == x.sps_multilayer_extension_flag,
        x@.ext.sps_3d_extension_flag == x.sps_3d_extension_flag,
        x@.ext.sps_scc_extension_flag == x.sps_scc_extension_flag,
        x@.ext.range_extension == x.range_extension,
{
}

/// SubWidthC (Table 6-1).
pub open spec fn sub_width_of(chroma_format_idc: u8) -> int {
    if chroma_format_idc == 1 || chroma_format_idc == 2 {
        2
    } else {
        1
    }
}

/// SubHeightC (Table 6-1).
pub open spec fn sub_height_of(chroma_format_idc: u8) -> int {
    if chroma_format_idc == 1 {
        2
    } else {
        1
    }
}

/// `size` less `cut`, not below zero.
pub open spec fn cropped(size: u32, cut: int) -> int {
    if cut > size {
        0
    } else {
        size - cut
    }
}

impl HevcSps {
    /// Effective coded width in luma samples (= `pic_width_in_luma_samples`).
    pub fn coded_width(&self) -> (n: u32)
        ensures
            n == self.pic_width_in_luma_samples,
    {
        self.pic_width_in_luma_samples
    }

    /// Effective coded height in luma samples.
    pub fn coded_height(&self) -> (n: u32)
        ensures
            n == self.pic_height_in_luma_samples,
    {
        self.pic_height_in_luma_samples
    }

    fn sub_width_c(&self) -> (n: u64)
        ensures
            n == sub_width_of(self.chroma_format_idc),
    {
        if self.chroma_format_idc == 1 || self.chroma_format_idc == 2 {
            2
        } else {
            1
        }
    }

    fn sub_height_c(&self) -> (n: u64)
        ensures
            n == sub_height_of(self.chroma_format_idc),
    {
        if self.chroma_format_idc == 1 {
            2
        } else {
            1
        }
    }

    /// Display width after applying the conformance window
    /// (7.4.3.2.1).
    pub fn display_width(&self) -> (n: u32)
        ensures
            n == match self.conformance_window {
                None => self.pic_width_in_luma_samples as int,
                Some(c) => cropped(
                    self.pic_width_in_luma_samples,
                    (c.left + c.right) * sub_width_of(self.chroma_format_idc),
                ),
            },
    {
        match self.conformance_window {
            None => self.coded_width(),
            Some(c) => {
                let sum: u64 = c.left as u64 + c.right as u64;
                let cut: u64 = if self.sub_width_c() == 2 {
                    2 * sum
                } else {
                    sum
                };
                let size: u64 = self.coded_width() as u64;
                if cut > size {
                    0
                } else {
                    (size - cut) as u32
                }
            },
        }
    }

    /// Display height after applying the conformance window.
    pub fn display_height(&self) -> (n: u32)
        ensures
            n == match self.conformance_window {
                None => self.pic_height_in_luma_samples as int,
                Some(c) => cropped(
                    self.pic_height_in_luma_samples,
                    (c.top + c.bottom) * sub_height_of(self.chroma_format_idc),
                ),
            },
    {
        match self.conformance_window {
            None => self.coded_height(),
            Some(c) => {
                let sum: u64 = c.top as u64 + c.bottom as u64;
                let cut: u64 = if self.sub_height_c() == 2 {
                    2 * sum
                } else {
                    sum
                };
                let size: u64 = self.coded_height() as u64;
                if cut > size {
                    0
                } else {
                    (size - cut) as u32
                }
            },
        }
    }
}

/// Parse an SPS NAL (with two-byte NAL header at index 0..1).
pub fn parse_sps_nal(nal: &[u8]) -> (res: Result<HevcSps, BitstreamError>)
    ensures
        match sps_of_nal(nal@) {
            Ok(x) => res matches Ok(v) && v@ == x,
            Err(f) => res matches Err(e) && e.fault() == f,
        },
{
    let rbsp = hevc_nal_rbsp(nal, NAL_TYPE_SPS, "SPS")?;
    let mut r = BitReader::new(rbsp.as_slice());
    parse_h_sps(&mut r)
}

/// The SPS that the NAL unit `b` holds.
pub open spec fn sps_of_nal(b: Seq<u8>) -> Result<HevcSpsModel, Fault> {
    rbsp_read(hevc_rbsp_of_nal(b, NAL_TYPE_SPS), |s: Seq<bool>| h_sps_at(s, 0))
}

/// The short-term reference picture sets of every SPS that is parsed are sorted, and
/// there are as many as the SPS says.
pub proof fn law_sps_rps_sorted(b: Seq<u8>)
    ensures
        sps_of_nal(b) matches Ok(x) ==> {
            &&& x.refs.short_term_rps.len() == x.refs.num_short_term_ref_pic_sets
            &&& forall|k: int|
                0 <= k < x.refs.short_term_rps.len() ==> rps_sorted(#[trigger] x.refs.short_term_rps[k])
        },
{
    if let Ok(x) = sps_of_nal(b) {
        let s = bits_of(unescape(b.skip(2)));
        reveal(h_sps_at);
        reveal(h_sps_front_at);
        reveal(h_sps_refs_at);
        if let Ok((front, p)) = h_sps_front_at(s, 0) {
            if let Ok((_, p)) = h_sps_coding_at(s, p) {
                if let Ok((num, p)) = ue_at(s, p) {
                    if num <= 64 {
                        law_rps_sorted(s, p, front.sps_max_dec_pic_buffering_minus1, num as u64);
                    }
                }
            }
        }
    }
}

// ─────────────────────────── PPS ─────────────────────────────────────────────

/// Picture parameter set (7.3.2.3).
#[derive(Debug, Clone, Default, PartialEq, Eq)]
pub struct HevcPps {
    pub pps_pic_parameter_set_id: u8,
    pub pps_seq_parameter_set_id: u8,
    pub dependent_slice_segments_enabled_flag: bool,
    pub output_flag_present_flag: bool,
    pub num_extra_slice_header_bits: u8,
    pub sign_data_hiding_enabled_flag: bool,
    pub cabac_init_present_flag: bool,
    pub num_ref_idx_l0_default_active_minus1: u8,
    pub num_ref_idx_l1_default_active_minus1: u8,
    pub init_qp_minus26: i32,
    pub constrained_intra_pred_flag: bool,
    pub transform_skip_enabled_flag: bool,
    pub cu_qp_delta_enabled_flag: bool,
    pub diff_cu_qp_delta_depth: u32,
    pub pps_cb_qp_offset: i32,
    pub pps_cr_qp_offset: i32,
    pub pps_slice_chroma_qp_offsets_present_flag: bool,
    pub weighted_pred_flag: bool,
    pub weighted_bipred_flag: bool,
    pub transquant_bypass_enabled_flag: bool,
    pub tiles_enabled_flag: bool,
    pub entropy_coding_sync_enabled_flag: bool,
    /// 7.4.3.3.1 — controls whether the in-loop deblocking filter
    /// crosses slice boundaries.
    pub pps_loop_filter_across_slices_enabled_flag: bool,
    /// 7.4.3.3.1 — gates the deblocking-filter syntax block below.
    pub deblocking_filter_control_present_flag: bool,
    /// 7.4.3.3.1 — when set, allows the slice header to override
    /// the PPS deblocking-filter parameters.
    pub deblocking_filter_override_enabled_flag: bool,
    /// 7.4.3.3.1 — disables the deblocking filter when set.
    pub pps_deblocking_filter_disabled_flag: bool,
    /// 7.4.3.3.1 — beta offset / 2 (signed Exp-Golomb), -6..6.
    pub pps_beta_offset_div2: i32,
    /// 7.4.3.3.1 — tc offset / 2 (signed Exp-Golomb), -6..6.
    pub pps_tc_offset_div2: i32,
    /// 7.4.3.3.1 — controls whether ref-pic-list modification is
    /// signalled in the slice header.
    pub lists_modification_present_flag: bool,
    /// 7.4.3.3.1 — log2 of the minimum CU size that allows
    /// parallel merge candidate derivation.
    pub log2_parallel_merge_level_minus2: u32,
    /// 7.4.3.3.1 — gates the slice-segment header extension block.
    pub slice_segment_header_extension_present_flag: bool,
    /// `Some` when `tiles_enabled_flag == 1` (§7.3.2.3.1).
    pub tiles: Option<HevcTiles>,
    /// `Some` when `pps_scaling_list_data_present_flag == 1`.
    pub scaling_list_data: Option<HevcScalingListData>,
    /// §7.3.2.3.1 extension flags.
    pub pps_range_extension_flag: bool,
    pub pps_multilayer_extension_flag: bool,
    pub pps_3d_extension_flag: bool,
    pub pps_scc_extension_flag: bool,
    /// `Some` when `pps_range_extension_flag == 1` (§7.3.2.3.2).
    pub range_extension: Option<HevcPpsRangeExtension>,
}

/// Tile grid signalled in the PPS (§7.3.2.3.1).
#[derive(Debug, Clone, Default, PartialEq, Eq)]
pub struct HevcTiles {
    pub num_tile_columns_minus1: u32,
    pub num_tile_rows_minus1: u32,
    pub uniform_spacing_flag: bool,
    /// `column_width_minus1[i]` — coded only when
    /// `uniform_spacing_flag == 0`.
    pub column_widths_minus1: Vec<u32>,
    /// `row_height_minus1[i]` — likewise.
    pub row_heights_minus1: Vec<u32>,
    pub loop_filter_across_tiles_enabled_flag: bool,
}

/// PPS range extension (§7.3.2.3.2).
#[derive(Debug, Clone, Default, PartialEq, Eq)]
pub struct HevcPpsRangeExtension {
    /// Coded only when the PPS's `transform_skip_enabled_flag`.
    pub log2_max_transform_skip_block_size_minus2: u32,
    pub cross_component_prediction_enabled_flag: bool,
    pub chroma_qp_offset_list_enabled_flag: bool,
    pub diff_cu_chroma_qp_offset_depth: u32,
    /// `(cb_qp_offset_list[i], cr_qp_offset_list[i])` pairs.
    pub chroma_qp_offset_list: Vec<(i32, i32)>,
    pub log2_sao_offset_scale_luma: u32,
    pub log2_sao_offset_scale_chroma: u32,
}

/// The mathematical model of a [`HevcTiles`].
pub struct HevcTilesModel {
    pub num_tile_columns_minus1: u32,
    pub num_tile_rows_minus1: u32,
    pub uniform_spacing_flag: bool,
    pub column_widths_minus1: Seq<u32>,
    pub row_heights_minus1: Seq<u32>,
    pub loop_filter_across_tiles_enabled_flag: bool,
}

impl View for HevcTiles {
    type V = HevcTilesModel;

    open spec fn view(&self) -> HevcTilesModel {
        HevcTilesModel {
            num_tile_columns_minus1: self.num_tile_columns_minus1,
            num_tile_rows_minus1: self.num_tile_rows_minus1,
            uniform_spacing_flag: self.uniform_spacing_flag,
            column_widths_minus1: self.column_widths_minus1@,
            row_heights_minus1: self.row_heights_minus1@,
            loop_filter_across_tiles_enabled_flag: self.loop_filter_across_tiles_enabled_flag,
        }
    }
}

/// The tile grid (§7.3.2.3.1) at position `p`.
#[verifier::opaque]
pub open spec fn h_tiles_at(s: Seq<bool>, p: nat) -> Read<HevcTilesModel> {
    match ue_at(s, p) { Err(f) => Err(f), Ok((num_tile_columns_minus1, p)) => {
    match ue_at(s, p) { Err(f) => Err(f), Ok((num_tile_rows_minus1, p)) => {
    let uniform_spacing_flag = flag_at(s, p);
    let p = adv(p, 1);
    if (if uniform_spacing_flag { 0 } else { num_tile_columns_minus1 + num_tile_rows_minus1 }) > bits_left(s, p) {
        Err(Fault::End)
    } else {
    match ues_at(s, p, ((if uniform_spacing_flag { 0u64 } else { num_tile_columns_minus1 as u64 })) as nat)
    { Err(f) => Err(f), Ok((column_widths_minus1, p)) => {
    match ues_at(s, p, ((if uniform_spacing_flag { 0u64 } else { num_tile_rows_minus1 as u64 })) as nat)
    { Err(f) => Err(f), Ok((row_heights_minus1, p)) => {
    let loop_filter_across_tiles_enabled_flag = flag_at(s, p);
    let p = adv(p, 1);
    Ok((
        HevcTilesModel {
            num_tile_columns_minus1,
            num_tile_rows_minus1,
            uniform_spacing_flag,
            column_widths_minus1,
            row_heights_minus1,
            loop_filter_across_tiles_enabled_flag,
        },
        p,
    ))
    }}}}}}}}}
}

/// Parses the tile grid (§7.3.2.3.1).
fn parse_h_tiles(r: &mut BitReader<'_>) -> (res: Result<HevcTiles, BitstreamError>)
    ensures
        read_view_is(h_tiles_at(old(r).bits(), old(r).pos()), res, *old(r), *final(r)),
{
    proof {
        reveal(h_tiles_at);
    }
    let num_tile_columns_minus1: u32 = r.ue()?;
    let num_tile_rows_minus1: u32 = r.ue()?;
    let uniform_spacing_flag: bool = r.flag();
    if (if uniform_spacing_flag { 0u128 } else { num_tile_columns_minus1 as u128 + num_tile_rows_minus1 as u128 }) > r.bits_remaining() {
        return Err(BitstreamError::unexpected_end("PPS tile column/row counts exceed remaining payload"));
    }
    let column_widths_minus1 = r.read_ues(
        (if uniform_spacing_flag { 0u64 } else { num_tile_columns_minus1 as u64 }),
    )?;
    let row_heights_minus1 = r.read_ues(
        (if uniform_spacing_flag { 0u64 } else { num_tile_rows_minus1 as u64 }),
    )?;
    let loop_filter_across_tiles_enabled_flag: bool = r.flag();
    Ok(
        HevcTiles {
            num_tile_columns_minus1,
            num_tile_rows_minus1,
            uniform_spacing_flag,
            column_widths_minus1,
            row_heights_minus1,
            loop_filter_across_tiles_enabled_flag,
        },
    )
}

/// The layout of the tile grid (§7.3.2.3.1): reading at `p` gives `x` and ends
/// at `q` if and only if these elements stand there in this order.
pub proof fn law_layout_h_tiles(s: Seq<bool>, p: nat, x: HevcTilesModel, q: nat)
    ensures
        h_tiles_at(s, p) == Ok::<(HevcTilesModel, nat), Fault>((x, q)) <==> cursor(s, p)
            .ue(x.num_tile_columns_minus1)
            .ue(x.num_tile_rows_minus1)
            .flag(x.uniform_spacing_flag)
            .room(if x.uniform_spacing_flag { 0 } else { x.num_tile_columns_minus1 + x.num_tile_rows_minus1 })
            .part(
                |p: nat| ues_at(
                    s,
                    p,
                    ((if x.uniform_spacing_flag { 0u64 } else { x.num_tile_columns_minus1 as u64 })) as nat,
                ),
                x.column_widths_minus1,
            )
            .part(
                |p: nat| ues_at(
                    s,
                    p,
                    ((if x.uniform_spacing_flag { 0u64 } else { x.num_tile_rows_minus1 as u64 })) as nat,
                ),
                x.row_heights_minus1,
            )
            .flag(x.loop_filter_across_tiles_enabled_flag)
            .ends(q),
{
    reveal(h_tiles_at);
}

/// What reads as the tile grid (§7.3.2.3.1) up to this point, and meets the
/// last condition, is refused as too short.
pub proof fn law_refused_h_tiles(s: Seq<bool>, p: nat, x: HevcTilesModel)
    ensures
        ({
            let c = cursor(s, p)
                .ue(x.num_tile_columns_minus1)
                .ue(x.num_tile_rows_minus1)
                .flag(x.uniform_spacing_flag);
            &&& c.good
            &&& (
                if x.uniform_spacing_flag { 0 } else { x.num_tile_columns_minus1 + x.num_tile_rows_minus1 }
            ) > bits_left(s, c.pos)
        }) ==> h_tiles_at(s, p) == Err::<(HevcTilesModel, nat), Fault>(Fault::End),
{
    reveal(h_tiles_at);
}

/// Reading the tile grid (§7.3.2.3.1) never fails with an error of this class.
pub broadcast proof fn law_faults_h_tiles(s: Seq<bool>, p: nat)
    ensures
        #[trigger] h_tiles_at(s, p) matches Err(f) ==> f != Fault::Unsupported,
{
    broadcast use {crate::bits::law_faults_ue, crate::bits::law_faults_ues};

    reveal(h_tiles_at);
}

/// Each field of the model of a [`HevcTiles`] is the field of that name.
pub proof fn law_view_h_tiles(x: HevcTiles)
    ensures
        x@.num_tile_columns_minus1 == x.num_tile_columns_minus1,
        x@.num_tile_rows_minus1 == x.num_tile_rows_minus1,
        x@.uniform_spacing_flag == x.uniform_spacing_flag,
        x@.column_widths_minus1 == x.column_widths_minus1@,
        x@.row_heights_minus1 == x.row_heights_minus1@,
        x@.loop_filter_across_tiles_enabled_flag == x.loop_filter_across_tiles_enabled_flag,
{
}

/// A pair of chroma QP offsets at position `p`.
#[verifier::opaque]
pub open spec fn h_offset_pair_at(s: Seq<bool>, p: nat) -> Read<(i32, i32)> {
    match se_at(s, p) { Err(f) => Err(f), Ok((cb, p)) => {
    match se_at(s, p) { Err(f) => Err(f), Ok((cr, p)) => {
    Ok(((cb, cr), p)) }}}}
}

/// Parses a pair of chroma QP offsets.
fn parse_h_offset_pair(r: &mut BitReader<'_>) -> (res: Result<(i32, i32), BitstreamError>)
    ensures
        read_is(h_offset_pair_at(old(r).bits(), old(r).pos()), res, *old(r), *final(r)),
{
    proof {
        reveal(h_offset_pair_at);
    }
    let cb: i32 = r.se()?;
    let cr: i32 = r.se()?;
    Ok((cb, cr))
}

/// The layout of a pair of chroma QP offsets: reading at `p` gives `x` and ends
/// at `q` if and only if these elements stand there in this order.
pub proof fn law_layout_h_offset_pair(s: Seq<bool>, p: nat, x: (i32, i32), q: nat)
    ensures
        h_offset_pair_at(s, p) == Ok::<((i32, i32), nat), Fault>((x, q)) <==> cursor(s, p)
            .se(x.0)
            .se(x.1)
            .ends(q),
{
    reveal(h_offset_pair_at);
}

/// Reading a pair of chroma QP offsets fails only with an error of this class.
pub broadcast proof fn law_faults_h_offset_pair(s: Seq<bool>, p: nat)
    ensures
        #[trigger] h_offset_pair_at(s, p) matches Err(f) ==> f == Fault::Invalid,
{
    broadcast use crate::bits::law_faults_se;

    reveal(h_offset_pair_at);
}

/// Reads a pair of chroma QP offsets, behind the items before it.
pub open spec fn h_offset_pairs_item(s: Seq<bool>) -> spec_fn(Seq<(i32, i32)>, nat) -> Read<(i32, i32)> {
    |done: Seq<(i32, i32)>, q: nat| h_offset_pair_at(s, q)
}

/// `n` items at position `p`, each a pair of chroma QP offsets.
#[verifier::opaque]
pub open spec fn h_offset_pairs_at(s: Seq<bool>, p: nat, n: u64) -> Read<Seq<(i32, i32)>> {
    rep_at(h_offset_pairs_item(s), p, n as nat)
}

/// Parses `n` items, each a pair of chroma QP offsets.
fn parse_h_offset_pairs(r: &mut BitReader<'_>, n: u64) -> (res: Result<Vec<(i32, i32)>, BitstreamError>)
    ensures
        read_vec_is(h_offset_pairs_at(old(r).bits(), old(r).pos(), n), res, *old(r), *final(r)),
        res matches Ok(v) ==> v@.len() == n,
{
    let ghost s = r.bits();
    let ghost p = r.pos();
    let ghost reads = h_offset_pairs_item(s);
    let mut xs: Vec<(i32, i32)> = Vec::new();
    let mut i: u64 = 0;
    proof {
        reveal(h_offset_pairs_at);
    }
    while i < n
        invariant
            i <= n,
            xs@.len() == i,
            reads == h_offset_pairs_item(s),
            s == r.bits(),
            s == old(r).bits(),
            p == old(r).pos(),
            r.bytes() == old(r).bytes(),
            rep_at(reads, p, i as nat) == Ok::<(Seq<(i32, i32)>, nat), Fault>((xs@, r.pos())),
        decreases n - i,
    {
        match parse_h_offset_pair(r) {
            Ok(x) => {
                xs.push(x);
            },
            Err(e) => {
                proof {
                    reveal(h_offset_pairs_at);
                    lemma_rep_err(reads, p, (i + 1) as nat, n as nat);
                }
                return Err(e);
            },
        }
        i = i + 1;
    }
    Ok(xs)
}

/// `n` items stand one behind the other: `n - 1` items, and then a pair of
/// chroma QP offsets.
pub proof fn law_layout_h_offset_pairs(s: Seq<bool>, p: nat, n: u64, xs: Seq<(i32, i32)>, q: nat)
    ensures
        h_offset_pairs_at(s, p, n) == Ok::<(Seq<(i32, i32)>, nat), Fault>((xs, q)) <==> if n == 0 {
            xs.len() == 0 && q == p
        } else {
            &&& xs.len() == n
            &&& cursor(s, p)
                .part(|p: nat| h_offset_pairs_at(s, p, (n - 1) as u64), xs.drop_last())
                .part(|p: nat| h_offset_pair_at(s, p), xs.last())
                .ends(q)
        },
{
    reveal(h_offset_pairs_at);
    lemma_rep_step(h_offset_pairs_item(s), p, n as nat);
    if xs.len() == 0 {
        assert(xs =~= Seq::empty());
    } else {
        assert(xs =~= xs.drop_last().push(xs.last()));
    }
    if n > 0 {
        if let Ok((done, r)) = rep_at(h_offset_pairs_item(s), p, (n - 1) as nat) {
            if let Ok((y, z)) = h_offset_pairs_item(s)(done, r) {
                assert(done.push(y).drop_last() =~= done);
            }
        }
    }
}

/// Reading the items fails only with an error of this class.
pub broadcast proof fn law_faults_h_offset_pairs(s: Seq<bool>, p: nat, n: u64)
    ensures
        #[trigger] h_offset_pairs_at(s, p, n) matches Err(f) ==> f == Fault::Invalid,
{
    broadcast use law_faults_h_offset_pair;

    reveal(h_offset_pairs_at);
    let f = h_offset_pairs_item(s);
    assert forall|done: Seq<(i32, i32)>, q: nat| (#[trigger] f(done, q)) matches Err(e)
        ==> e == Fault::Invalid by {}
    lemma_rep_faults(f, p, n as nat, |f: Fault| f == Fault::Invalid);
}

/// The mathematical model of a [`HevcPpsRangeExtension`].
pub struct HevcPpsRangeExtensionModel {
    pub log2_max_transform_skip_block_size_minus2: u32,
    pub cross_component_prediction_enabled_flag: bool,
    pub chroma_qp_offset_list_enabled_flag: bool,
    pub diff_cu_chroma_qp_offset_depth: u32,
    pub chroma_qp_offset_list: Seq<(i32, i32)>,
    pub log2_sao_offset_scale_luma: u32,
    pub log2_sao_offset_scale_chroma: u32,
}

impl View for HevcPpsRangeExtension {
    type V = HevcPpsRangeExtensionModel;

    open spec fn view(&self) -> HevcPpsRangeExtensionModel {
        HevcPpsRangeExtensionModel {
            log2_max_transform_skip_block_size_minus2: self.log2_max_transform_skip_block_size_minus2,
            cross_component_prediction_enabled_flag: self.cross_component_prediction_enabled_flag,
            chroma_qp_offset_list_enabled_flag: self.chroma_qp_offset_list_enabled_flag,
            diff_cu_chroma_qp_offset_depth: self.diff_cu_chroma_qp_offset_depth,
            chroma_qp_offset_list: self.chroma_qp_offset_list@,
            log2_sao_offset_scale_luma: self.log2_sao_offset_scale_luma,
            log2_sao_offset_scale_chroma: self.log2_sao_offset_scale_chroma,
        }
    }
}

/// The PPS range extension (§7.3.2.3.2) at position `p`.
#[verifier::opaque]
pub open spec fn h_pps_range_at(s: Seq<bool>, p: nat, skip: bool) -> Read<HevcPpsRangeExtensionModel> {
    match ue_if(s, p, skip, 0) { Err(f) => Err(f), Ok((log2_max_transform_skip_block_size_minus2, p)) => {
    let cross_component_prediction_enabled_flag = flag_at(s, p);
    let p = adv(p, 1);
    let chroma_qp_offset_list_enabled_flag = flag_at(s, p);
    let p = adv(p, 1);
    match ue_if(s, p, chroma_qp_offset_list_enabled_flag, 0)
    { Err(f) => Err(f), Ok((diff_cu_chroma_qp_offset_depth, p)) => {
    match ue_if(s, p, chroma_qp_offset_list_enabled_flag, 0) { Err(f) => Err(f), Ok((len_minus1, p)) => {
    if len_minus1 > 5 { Err(Fault::Invalid) } else {
    match h_offset_pairs_at(
        s,
        p,
        (if chroma_qp_offset_list_enabled_flag { (len_minus1 as u64 + 1) as u64 } else { 0u64 }),
    )
    { Err(f) => Err(f), Ok((chroma_qp_offset_list, p)) => {
    match ue_at(s, p) { Err(f) => Err(f), Ok((log2_sao_offset_scale_luma, p)) => {
    match ue_at(s, p) { Err(f) => Err(f), Ok((log2_sao_offset_scale_chroma, p)) => {
    Ok((
        HevcPpsRangeExtensionModel {
            log2_max_transform_skip_block_size_minus2,
            cross_component_prediction_enabled_flag,
            chroma_qp_offset_list_enabled_flag,
            diff_cu_chroma_qp_offset_depth,
            chroma_qp_offset_list,
            log2_sao_offset_scale_luma,
            log2_sao_offset_scale_chroma,
        },
        p,
    ))
    }}}}}}}}}}}}}
}

/// Parses the PPS range extension (§7.3.2.3.2).
fn parse_h_pps_range(
    r: &mut BitReader<'_>,
    skip: bool,
) -> (res: Result<HevcPpsRangeExtension, BitstreamError>)
    ensures
        read_view_is(h_pps_range_at(old(r).bits(), old(r).pos(), skip), res, *old(r), *final(r)),
{
    proof {
        reveal(h_pps_range_at);
    }
    let log2_max_transform_skip_block_size_minus2: u32 = r.ue_if(skip, 0)?;
    let cross_component_prediction_enabled_flag: bool = r.flag();
    let chroma_qp_offset_list_enabled_flag: bool = r.flag();
    let diff_cu_chroma_qp_offset_depth: u32 = r.ue_if(chroma_qp_offset_list_enabled_flag, 0)?;
    let len_minus1: u32 = r.ue_if(chroma_qp_offset_list_enabled_flag, 0)?;
    if len_minus1 > 5 {
        return Err(
            Message::new("PPS chroma_qp_offset_list_len_minus1=")
                .num(len_minus1 as i128)
                .with(" (must be 0..=5, §7.4.3.3.2)")
                .invalid(),
        );
    }
    let chroma_qp_offset_list = parse_h_offset_pairs(
        r,
        (if chroma_qp_offset_list_enabled_flag { len_minus1 as u64 + 1 } else { 0u64 }),
    )?;
    let log2_sao_offset_scale_luma: u32 = r.ue()?;
    let log2_sao_offset_scale_chroma: u32 = r.ue()?;
    Ok(
        HevcPpsRangeExtension {
            log2_max_transform_skip_block_size_minus2,
            cross_component_prediction_enabled_flag,
            chroma_qp_offset_list_enabled_flag,
            diff_cu_chroma_qp_offset_depth,
            chroma_qp_offset_list,
            log2_sao_offset_scale_luma,
            log2_sao_offset_scale_chroma,
        },
    )
}

/// The layout of the PPS range extension (§7.3.2.3.2): reading at `p` gives `x`
/// and ends at `q` if and only if these elements stand there in this order, and
/// the values are allowed.
pub proof fn law_layout_h_pps_range(s: Seq<bool>, p: nat, skip: bool, x: HevcPpsRangeExtensionModel, q: nat)
    ensures
        h_pps_range_at(s, p, skip) == Ok::<(HevcPpsRangeExtensionModel, nat), Fault>((x, q)) <==> ({
            let c = cursor(s, p)
                .ue_if(skip, x.log2_max_transform_skip_block_size_minus2, 0)
                .flag(x.cross_component_prediction_enabled_flag)
                .flag(x.chroma_qp_offset_list_enabled_flag)
                .ue_if(x.chroma_qp_offset_list_enabled_flag, x.diff_cu_chroma_qp_offset_depth, 0);
            let len_minus1 = if x.chroma_qp_offset_list_enabled_flag { c.next_ue() } else { 0 };
            &&& c
                .ue_if(x.chroma_qp_offset_list_enabled_flag, len_minus1, 0)
                .part(
                    |p: nat| h_offset_pairs_at(
                        s,
                        p,
                        (
                            if x.chroma_qp_offset_list_enabled_flag {
                                (len_minus1 as u64 + 1) as u64
                            } else {
                                0u64
                            }
                        ),
                    ),
                    x.chroma_qp_offset_list,
                )
                .ue(x.log2_sao_offset_scale_luma)
                .ue(x.log2_sao_offset_scale_chroma)
                .ends(q)
            &&& len_minus1 <= 5
        }),
{
    reveal(h_pps_range_at);
    reveal(ue_if);
}

/// Reading the PPS range extension (§7.3.2.3.2) fails only with an error of
/// this class.
pub broadcast proof fn law_faults_h_pps_range(s: Seq<bool>, p: nat, skip: bool)
    ensures
        #[trigger] h_pps_range_at(s, p, skip) matches Err(f) ==> f == Fault::Invalid,
{
    broadcast use {crate::bits::law_faults_ue, law_faults_h_offset_pairs};

    reveal(h_pps_range_at);
    reveal(ue_if);
}

/// Each field of the model of a [`HevcPpsRangeExtension`] is the field of that name.
pub proof fn law_view_h_pps_range(x: HevcPpsRangeExtension)
    ensures
        x@.log2_max_transform_skip_block_size_minus2 == x.log2_max_transform_skip_block_size_minus2,
        x@.cross_component_prediction_enabled_flag == x.cross_component_prediction_enabled_flag,
        x@.chroma_qp_offset_list_enabled_flag == x.chroma_qp_offset_list_enabled_flag,
        x@.diff_cu_chroma_qp_offset_depth == x.diff_cu_chroma_qp_offset_depth,
        x@.chroma_qp_offset_list == x.chroma_qp_offset_list@,
        x@.log2_sao_offset_scale_luma == x.log2_sao_offset_scale_luma,
        x@.log2_sao_offset_scale_chroma == x.log2_sao_offset_scale_chroma,
{
}

/// The part of a [`HevcPps`] before the tile grid.
pub struct HevcPpsFront {
    pub pps_pic_parameter_set_id: u8,
    pub pps_seq_parameter_set_id: u8,
    pub dependent_slice_segments_enabled_flag: bool,
    pub output_flag_present_flag: bool,
    pub num_extra_slice_header_bits: u8,
    pub sign_data_hiding_enabled_flag: bool,
    pub cabac_init_present_flag: bool,
    pub num_ref_idx_l0_default_active_minus1: u8,
    pub num_ref_idx_l1_default_active_minus1: u8,
    pub init_qp_minus26: i32,
    pub constrained_intra_pred_flag: bool,
    pub transform_skip_enabled_flag: bool,
    pub cu_qp_delta_enabled_flag: bool,
    pub diff_cu_qp_delta_depth: u32,
    pub pps_cb_qp_offset: i32,
    pub pps_cr_qp_offset: i32,
    pub pps_slice_chroma_qp_offsets_present_flag: bool,
    pub weighted_pred_flag: bool,
    pub weighted_bipred_flag: bool,
    pub transquant_bypass_enabled_flag: bool,
    pub tiles_enabled_flag: bool,
    pub entropy_coding_sync_enabled_flag: bool,
}

/// The mathematical model of a [`HevcPpsFront`].
pub struct HevcPpsFrontModel {
    pub pps_pic_parameter_set_id: u8,
    pub pps_seq_parameter_set_id: u8,
    pub dependent_slice_segments_enabled_flag: bool,
    pub output_flag_present_flag: bool,
    pub num_extra_slice_header_bits: u8,
    pub sign_data_hiding_enabled_flag: bool,
    pub cabac_init_present_flag: bool,
    pub num_ref_idx_l0_default_active_minus1: u8,
    pub num_ref_idx_l1_default_active_minus1: u8,
    pub init_qp_minus26: i32,
    pub constrained_intra_pred_flag: bool,
    pub transform_skip_enabled_flag: bool,
    pub cu_qp_delta_enabled_flag: bool,
    pub diff_cu_qp_delta_depth: u32,
    pub pps_cb_qp_offset: i32,
    pub pps_cr_qp_offset: i32,
    pub pps_slice_chroma_qp_offsets_present_flag: bool,
    pub weighted_pred_flag: bool,
    pub weighted_bipred_flag: bool,
    pub transquant_bypass_enabled_flag: bool,
    pub tiles_enabled_flag: bool,
    pub entropy_coding_sync_enabled_flag: bool,
}

impl View for HevcPpsFront {
    type V = HevcPpsFrontModel;

    open spec fn view(&self) -> HevcPpsFrontModel {
        HevcPpsFrontModel {
            pps_pic_parameter_set_id: self.pps_pic_parameter_set_id,
            pps_seq_parameter_set_id: self.pps_seq_parameter_set_id,
            dependent_slice_segments_enabled_flag: self.dependent_slice_segments_enabled_flag,
            output_flag_present_flag: self.output_flag_present_flag,
            num_extra_slice_header_bits: self.num_extra_slice_header_bits,
            sign_data_hiding_enabled_flag: self.sign_data_hiding_enabled_flag,
            cabac_init_present_flag: self.cabac_init_present_flag,
            num_ref_idx_l0_default_active_minus1: self.num_ref_idx_l0_default_active_minus1,
            num_ref_idx_l1_default_active_minus1: self.num_ref_idx_l1_default_active_minus1,
            init_qp_minus26: self.init_qp_minus26,
            constrained_intra_pred_flag: self.constrained_intra_pred_flag,
            transform_skip_enabled_flag: self.transform_skip_enabled_flag,
            cu_qp_delta_enabled_flag: self.cu_qp_delta_enabled_flag,
            diff_cu_qp_delta_depth: self.diff_cu_qp_delta_depth,
            pps_cb_qp_offset: self.pps_cb_qp_offset,
            pps_cr_qp_offset: self.pps_cr_qp_offset,
            pps_slice_chroma_qp_offsets_present_flag: self.pps_slice_chroma_qp_offsets_present_flag,
            weighted_pred_flag: self.weighted_pred_flag,
            weighted_bipred_flag: self.weighted_bipred_flag,
            transquant_bypass_enabled_flag: self.transquant_bypass_enabled_flag,
            tiles_enabled_flag: self.tiles_enabled_flag,
            entropy_coding_sync_enabled_flag: self.entropy_coding_sync_enabled_flag,
        }
    }
}

/// The PPS up to the tile grid at position `p`.
#[verifier::opaque]
pub open spec fn h_pps_front_at(s: Seq<bool>, p: nat) -> Read<HevcPpsFrontModel> {
    match ue_at(s, p) { Err(f) => Err(f), Ok((coded_pps_pic_parameter_set_id, p)) => {
    let pps_pic_parameter_set_id = (coded_pps_pic_parameter_set_id % 256) as u8;
    match ue_at(s, p) { Err(f) => Err(f), Ok((coded_pps_seq_parameter_set_id, p)) => {
    let pps_seq_parameter_set_id = (coded_pps_seq_parameter_set_id % 256) as u8;
    let dependent_slice_segments_enabled_flag = flag_at(s, p);
    let p = adv(p, 1);
    let output_flag_present_flag = flag_at(s, p);
    let p = adv(p, 1);
    let num_extra_slice_header_bits = u8_at(s, p, 3);
    let p = adv(p, 3);
    let sign_data_hiding_enabled_flag = flag_at(s, p);
    let p = adv(p, 1);
    let cabac_init_present_flag = flag_at(s, p);
    let p = adv(p, 1);
    match ue_at(s, p) { Err(f) => Err(f), Ok((coded_num_ref_idx_l0_default_active_minus1, p)) => {
    let num_ref_idx_l0_default_active_minus1 = (coded_num_ref_idx_l0_default_active_minus1 % 256) as u8;
    match ue_at(s, p) { Err(f) => Err(f), Ok((coded_num_ref_idx_l1_default_active_minus1, p)) => {
    let num_ref_idx_l1_default_active_minus1 = (coded_num_ref_idx_l1_default_active_minus1 % 256) as u8;
    match se_at(s, p) { Err(f) => Err(f), Ok((init_qp_minus26, p)) => {
    let constrained_intra_pred_flag = flag_at(s, p);
    let p = adv(p, 1);
    let transform_skip_enabled_flag = flag_at(s, p);
    let p = adv(p, 1);
    let cu_qp_delta_enabled_flag = flag_at(s, p);
    let p = adv(p, 1);
    match ue_if(s, p, cu_qp_delta_enabled_flag, 0) { Err(f) => Err(f), Ok((diff_cu_qp_delta_depth, p)) => {
    match se_at(s, p) { Err(f) => Err(f), Ok((pps_cb_qp_offset, p)) => {
    match se_at(s, p) { Err(f) => Err(f), Ok((pps_cr_qp_offset, p)) => {
    let pps_slice_chroma_qp_offsets_present_flag = flag_at(s, p);
    let p = adv(p, 1);
    let weighted_pred_flag = flag_at(s, p);
    let p = adv(p, 1);
    let weighted_bipred_flag = flag_at(s, p);
    let p = adv(p, 1);
    let transquant_bypass_enabled_flag = flag_at(s, p);
    let p = adv(p, 1);
    let tiles_enabled_flag = flag_at(s, p);
    let p = adv(p, 1);
    let entropy_coding_sync_enabled_flag = flag_at(s, p);
    let p = adv(p, 1);
    Ok((
        HevcPpsFrontModel {
            pps_pic_parameter_set_id,
            pps_seq_parameter_set_id,
            dependent_slice_segments_enabled_flag,
            output_flag_present_flag,
            num_extra_slice_header_bits,
            sign_data_hiding_enabled_flag,
            cabac_init_present_flag,
            num_ref_idx_l0_default_active_minus1,
            num_ref_idx_l1_default_active_minus1,
            init_qp_minus26,
            constrained_intra_pred_flag,
            transform_skip_enabled_flag,
            cu_qp_delta_enabled_flag,
            diff_cu_qp_delta_depth,
            pps_cb_qp_offset,
            pps_cr_qp_offset,
            pps_slice_chroma_qp_offsets_present_flag,
            weighted_pred_flag,
            weighted_bipred_flag,
            transquant_bypass_enabled_flag,
            tiles_enabled_flag,
            entropy_coding_sync_enabled_flag,
        },
        p,
    ))
    }}}}}}}}}}}}}}}}
}

/// Parses the PPS up to the tile grid.
fn parse_h_pps_front(r: &mut BitReader<'_>) -> (res: Result<HevcPpsFront, BitstreamError>)
    ensures
        read_view_is(h_pps_front_at(old(r).bits(), old(r).pos()), res, *old(r), *final(r)),
{
    proof {
        reveal(h_pps_front_at);
    }
    let coded_pps_pic_parameter_set_id: u32 = r.ue()?;
    let pps_pic_parameter_set_id: u8 = (coded_pps_pic_parameter_set_id % 256) as u8;
    let coded_pps_seq_parameter_set_id: u32 = r.ue()?;
    let pps_seq_parameter_set_id: u8 = (coded_pps_seq_parameter_set_id % 256) as u8;
    let dependent_slice_segments_enabled_flag: bool = r.flag();
    let output_flag_present_flag: bool = r.flag();
    let num_extra_slice_header_bits: u8 = r.u8(3);
    let sign_data_hiding_enabled_flag: bool = r.flag();
    let cabac_init_present_flag: bool = r.flag();
    let coded_num_ref_idx_l0_default_active_minus1: u32 = r.ue()?;
    let num_ref_idx_l0_default_active_minus1: u8 = (coded_num_ref_idx_l0_default_active_minus1 % 256) as u8;
    let coded_num_ref_idx_l1_default_active_minus1: u32 = r.ue()?;
    let num_ref_idx_l1_default_active_minus1: u8 = (coded_num_ref_idx_l1_default_active_minus1 % 256) as u8;
    let init_qp_minus26: i32 = r.se()?;
    let constrained_intra_pred_flag: bool = r.flag();
    let transform_skip_enabled_flag: bool = r.flag();
    let cu_qp_delta_enabled_flag: bool = r.flag();
    let diff_cu_qp_delta_depth: u32 = r.ue_if(cu_qp_delta_enabled_flag, 0)?;
    let pps_cb_qp_offset: i32 = r.se()?;
    let pps_cr_qp_offset: i32 = r.se()?;
    let pps_slice_chroma_qp_offsets_present_flag: bool = r.flag();
    let weighted_pred_flag: bool = r.flag();
    let weighted_bipred_flag: bool = r.flag();
    let transquant_bypass_enabled_flag: bool = r.flag();
    let tiles_enabled_flag: bool = r.flag();
    let entropy_coding_sync_enabled_flag: bool = r.flag();
    Ok(
        HevcPpsFront {
            pps_pic_parameter_set_id,
            pps_seq_parameter_set_id,
            dependent_slice_segments_enabled_flag,
            output_flag_present_flag,
            num_extra_slice_header_bits,
            sign_data_hiding_enabled_flag,
            cabac_init_present_flag,
            num_ref_idx_l0_default_active_minus1,
            num_ref_idx_l1_default_active_minus1,
            init_qp_minus26,
            constrained_intra_pred_flag,
            transform_skip_enabled_flag,
            cu_qp_delta_enabled_flag,
            diff_cu_qp_delta_depth,
            pps_cb_qp_offset,
            pps_cr_qp_offset,
            pps_slice_chroma_qp_offsets_present_flag,
            weighted_pred_flag,
            weighted_bipred_flag,
            transquant_bypass_enabled_flag,
            tiles_enabled_flag,
            entropy_coding_sync_enabled_flag,
        },
    )
}

/// The layout of the PPS up to the tile grid: reading at `p` gives `x` and ends
/// at `q` if and only if these elements stand there in this order, and the
/// values are allowed.
pub proof fn law_layout_h_pps_front(s: Seq<bool>, p: nat, x: HevcPpsFrontModel, q: nat)
    ensures
        h_pps_front_at(s, p) == Ok::<(HevcPpsFrontModel, nat), Fault>((x, q)) <==> ({
            let c = cursor(s, p);
            let coded_pps_pic_parameter_set_id = c.next_ue();
            let c = c.ue(coded_pps_pic_parameter_set_id);
            let coded_pps_seq_parameter_set_id = c.next_ue();
            let c = c
                .ue(coded_pps_seq_parameter_set_id)
                .flag(x.dependent_slice_segments_enabled_flag)
                .flag(x.output_flag_present_flag)
                .u8(3, x.num_extra_slice_header_bits)
                .flag(x.sign_data_hiding_enabled_flag)
                .flag(x.cabac_init_present_flag);
            let coded_num_ref_idx_l0_default_active_minus1 = c.next_ue();
            let c = c.ue(coded_num_ref_idx_l0_default_active_minus1);
            let coded_num_ref_idx_l1_default_active_minus1 = c.next_ue();
            &&& c
                .ue(coded_num_ref_idx_l1_default_active_minus1)
                .se(x.init_qp_minus26)
                .flag(x.constrained_intra_pred_flag)
                .flag(x.transform_skip_enabled_flag)
                .flag(x.cu_qp_delta_enabled_flag)
                .ue_if(x.cu_qp_delta_enabled_flag, x.diff_cu_qp_delta_depth, 0)
                .se(x.pps_cb_qp_offset)
                .se(x.pps_cr_qp_offset)
                .flag(x.pps_slice_chroma_qp_offsets_present_flag)
                .flag(x.weighted_pred_flag)
                .flag(x.weighted_bipred_flag)
                .flag(x.transquant_bypass_enabled_flag)
                .flag(x.tiles_enabled_flag)
                .flag(x.entropy_coding_sync_enabled_flag)
                .ends(q)
            &&& x.pps_pic_parameter_set_id == (coded_pps_pic_parameter_set_id % 256) as u8
            &&& x.pps_seq_parameter_set_id == (coded_pps_seq_parameter_set_id % 256) as u8
            &&& x.num_ref_idx_l0_default_active_minus1 == (
                coded_num_ref_idx_l0_default_active_minus1 % 256
            ) as u8
            &&& x.num_ref_idx_l1_default_active_minus1 == (
                coded_num_ref_idx_l1_default_active_minus1 % 256
            ) as u8
        }),
{
    reveal(h_pps_front_at);
    reveal(ue_if);
}

/// Reading the PPS up to the tile grid fails only with an error of this class.
pub broadcast proof fn law_faults_h_pps_front(s: Seq<bool>, p: nat)
    ensures
        #[trigger] h_pps_front_at(s, p) matches Err(f) ==> f == Fault::Invalid,
{
    broadcast use {crate::bits::law_faults_ue, crate::bits::law_faults_se};

    reveal(h_pps_front_at);
    reveal(ue_if);
}

/// Each field of the model of a [`HevcPpsFront`] is the field of that name.
pub proof fn law_view_h_pps_front(x: HevcPpsFront)
    ensures
        x@.pps_pic_parameter_set_id == x.pps_pic_parameter_set_id,
        x@.pps_seq_parameter_set_id == x.pps_seq_parameter_set_id,
        x@.dependent_slice_segments_enabled_flag == x.dependent_slice_segments_enabled_flag,
        x@.output_flag_present_flag == x.output_flag_present_flag,
        x@.num_extra_slice_header_bits == x.num_extra_slice_header_bits,
        x@.sign_data_hiding_enabled_flag == x.sign_data_hiding_enabled_flag,
        x@.cabac_init_present_flag == x.cabac_init_present_flag,
        x@.num_ref_idx_l0_default_active_minus1 == x.num_ref_idx_l0_default_active_minus1,
        x@.num_ref_idx_l1_default_active_minus1 == x.num_ref_idx_l1_default_active_minus1,
        x@.init_qp_minus26 == x.init_qp_minus26,
        x@.constrained_intra_pred_flag == x.constrained_intra_pred_flag,
        x@.transform_skip_enabled_flag == x.transform_skip_enabled_flag,
        x@.cu_qp_delta_enabled_flag == x.cu_qp_delta_enabled_flag,
        x@.diff_cu_qp_delta_depth == x.diff_cu_qp_delta_depth,
        x@.pps_cb_qp_offset == x.pps_cb_qp_offset,
        x@.pps_cr_qp_offset == x.pps_cr_qp_offset,
        x@.pps_slice_chroma_qp_offsets_present_flag == x.pps_slice_chroma_qp_offsets_present_flag,
        x@.weighted_pred_flag == x.weighted_pred_flag,
        x@.weighted_bipred_flag == x.weighted_bipred_flag,
        x@.transquant_bypass_enabled_flag == x.transquant_bypass_enabled_flag,
        x@.tiles_enabled_flag == x.tiles_enabled_flag,
        x@.entropy_coding_sync_enabled_flag == x.entropy_coding_sync_enabled_flag,
{
}

/// The tile grid, the deblocking filter and the scaling lists of a [`HevcPps`].
pub struct HevcPpsMid {
    pub tiles: Option<HevcTiles>,
    pub pps_loop_filter_across_slices_enabled_flag: bool,
    pub deblocking_filter_control_present_flag: bool,
    pub deblocking_filter_override_enabled_flag: bool,
    pub pps_deblocking_filter_disabled_flag: bool,
    pub pps_beta_offset_div2: i32,
    pub pps_tc_offset_div2: i32,
    pub scaling_list_data: Option<HevcScalingListData>,
    pub lists_modification_present_flag: bool,
    pub log2_parallel_merge_level_minus2: u32,
    pub slice_segment_header_extension_present_flag: bool,
}

/// The mathematical model of a [`HevcPpsMid`].
pub struct HevcPpsMidModel {
    pub tiles: Option<HevcTilesModel>,
    pub pps_loop_filter_across_slices_enabled_flag: bool,
    pub deblocking_filter_control_present_flag: bool,
    pub deblocking_filter_override_enabled_flag: bool,
    pub pps_deblocking_filter_disabled_flag: bool,
    pub pps_beta_offset_div2: i32,
    pub pps_tc_offset_div2: i32,
    pub scaling_list_data: Option<HevcScalingListDataModel>,
    pub lists_modification_present_flag: bool,
    pub log2_parallel_merge_level_minus2: u32,
    pub slice_segment_header_extension_present_flag: bool,
}

impl View for HevcPpsMid {
    type V = HevcPpsMidModel;

    open spec fn view(&self) -> HevcPpsMidModel {
        HevcPpsMidModel {
            tiles: opt_view(self.tiles),
            pps_loop_filter_across_slices_enabled_flag: self.pps_loop_filter_across_slices_enabled_flag,
            deblocking_filter_control_present_flag: self.deblocking_filter_control_present_flag,
            deblocking_filter_override_enabled_flag: self.deblocking_filter_override_enabled_flag,
            pps_deblocking_filter_disabled_flag: self.pps_deblocking_filter_disabled_flag,
            pps_beta_offset_div2: self.pps_beta_offset_div2,
            pps_tc_offset_div2: self.pps_tc_offset_div2,
            scaling_list_data: opt_view(self.scaling_list_data),
            lists_modification_present_flag: self.lists_modification_present_flag,
            log2_parallel_merge_level_minus2: self.log2_parallel_merge_level_minus2,
            slice_segment_header_extension_present_flag: self.slice_segment_header_extension_present_flag,
        }
    }
}

/// The tile grid, the deblocking filter and the scaling lists of the PPS at
/// position `p`.
#[verifier::opaque]
pub open spec fn h_pps_mid_at(s: Seq<bool>, p: nat, tiled: bool) -> Read<HevcPpsMidModel> {
    match (if tiled { read_some(h_tiles_at(s, p)) } else { Ok((None, p)) })
    { Err(f) => Err(f), Ok((tiles, p)) => {
    let pps_loop_filter_across_slices_enabled_flag = flag_at(s, p);
    let p = adv(p, 1);
    let deblocking_filter_control_present_flag = flag_at(s, p);
    let p = adv(p, 1);
    let deblocking_filter_override_enabled_flag = flag_if(
        s,
        p,
        deblocking_filter_control_present_flag,
        false,
    );
    let p = adv_if(p, 1, deblocking_filter_control_present_flag);
    let pps_deblocking_filter_disabled_flag = flag_if(s, p, deblocking_filter_control_present_flag, false);
    let p = adv_if(p, 1, deblocking_filter_control_present_flag);
    let offsets = deblocking_filter_control_present_flag && !pps_deblocking_filter_disabled_flag;
    match se_if(s, p, offsets, 0) { Err(f) => Err(f), Ok((pps_beta_offset_div2, p)) => {
    match se_if(s, p, offsets, 0) { Err(f) => Err(f), Ok((pps_tc_offset_div2, p)) => {
    let present = flag_at(s, p);
    let p = adv(p, 1);
    match (if present { read_some(h_scaling_at(s, p)) } else { Ok((None, p)) })
    { Err(f) => Err(f), Ok((scaling_list_data, p)) => {
    let lists_modification_present_flag = flag_at(s, p);
    let p = adv(p, 1);
    match ue_at(s, p) { Err(f) => Err(f), Ok((log2_parallel_merge_level_minus2, p)) => {
    let slice_segment_header_extension_present_flag = flag_at(s, p);
    let p = adv(p, 1);
    Ok((
        HevcPpsMidModel {
            tiles,
            pps_loop_filter_across_slices_enabled_flag,
            deblocking_filter_control_present_flag,
            deblocking_filter_override_enabled_flag,
            pps_deblocking_filter_disabled_flag,
            pps_beta_offset_div2,
            pps_tc_offset_div2,
            scaling_list_data,
            lists_modification_present_flag,
            log2_parallel_merge_level_minus2,
            slice_segment_header_extension_present_flag,
        },
        p,
    ))
    }}}}}}}}}}
}

/// Parses the tile grid, the deblocking filter and the scaling lists of the PPS.
fn parse_h_pps_mid(r: &mut BitReader<'_>, tiled: bool) -> (res: Result<HevcPpsMid, BitstreamError>)
    ensures
        read_view_is(h_pps_mid_at(old(r).bits(), old(r).pos(), tiled), res, *old(r), *final(r)),
{
    proof {
        reveal(h_pps_mid_at);
    }
    let tiles = if tiled { Some(parse_h_tiles(r)?) } else { None };
    let pps_loop_filter_across_slices_enabled_flag: bool = r.flag();
    let deblocking_filter_control_present_flag: bool = r.flag();
    let deblocking_filter_override_enabled_flag: bool = r.flag_if(
        deblocking_filter_control_present_flag,
        false,
    );
    let pps_deblocking_filter_disabled_flag: bool = r.flag_if(deblocking_filter_control_present_flag, false);
    let offsets: bool = deblocking_filter_control_present_flag && !pps_deblocking_filter_disabled_flag;
    let pps_beta_offset_div2: i32 = r.se_if(offsets, 0)?;
    let pps_tc_offset_div2: i32 = r.se_if(offsets, 0)?;
    let present: bool = r.flag();
    let scaling_list_data = if present { Some(parse_h_scaling(r)?) } else { None };
    let lists_modification_present_flag: bool = r.flag();
    let log2_parallel_merge_level_minus2: u32 = r.ue()?;
    let slice_segment_header_extension_present_flag: bool = r.flag();
    Ok(
        HevcPpsMid {
            tiles,
            pps_loop_filter_across_slices_enabled_flag,
            deblocking_filter_control_present_flag,
            deblocking_filter_override_enabled_flag,
            pps_deblocking_filter_disabled_flag,
            pps_beta_offset_div2,
            pps_tc_offset_div2,
            scaling_list_data,
            lists_modification_present_flag,
            log2_parallel_merge_level_minus2,
            slice_segment_header_extension_present_flag,
        },
    )
}

/// The layout of the tile grid, the deblocking filter and the scaling lists of
/// the PPS: reading at `p` gives `x` and ends at `q` if and only if these
/// elements stand there in this order.
pub proof fn law_layout_h_pps_mid(s: Seq<bool>, p: nat, tiled: bool, x: HevcPpsMidModel, q: nat)
    ensures
        h_pps_mid_at(s, p, tiled) == Ok::<(HevcPpsMidModel, nat), Fault>((x, q)) <==> ({
            let offsets = x.deblocking_filter_control_present_flag && !x.pps_deblocking_filter_disabled_flag;
            &&& cursor(s, p)
                .part_if(tiled, |p: nat| h_tiles_at(s, p), x.tiles)
                .flag(x.pps_loop_filter_across_slices_enabled_flag)
                .flag(x.deblocking_filter_control_present_flag)
                .flag_if(
                    x.deblocking_filter_control_present_flag,
                    x.deblocking_filter_override_enabled_flag,
                    false,
                )
                .flag_if(
                    x.deblocking_filter_control_present_flag,
                    x.pps_deblocking_filter_disabled_flag,
                    false,
                )
                .se_if(offsets, x.pps_beta_offset_div2, 0)
                .se_if(offsets, x.pps_tc_offset_div2, 0)
                .flagged(|p: nat| h_scaling_at(s, p), x.scaling_list_data)
                .flag(x.lists_modification_present_flag)
                .ue(x.log2_parallel_merge_level_minus2)
                .flag(x.slice_segment_header_extension_present_flag)
                .ends(q)
        }),
{
    reveal(h_pps_mid_at);
    reveal(adv_if);
    reveal(flag_if);
    reveal(se_if);
}

/// Reading the tile grid, the deblocking filter and the scaling lists of the
/// PPS never fails with an error of this class.
pub broadcast proof fn law_faults_h_pps_mid(s: Seq<bool>, p: nat, tiled: bool)
    ensures
        #[trigger] h_pps_mid_at(s, p, tiled) matches Err(f) ==> f != Fault::Unsupported,
{
    broadcast use {
        law_faults_h_tiles,
        crate::bits::law_faults_se,
        law_faults_h_scaling,
        crate::bits::law_faults_ue,
    };

    reveal(h_pps_mid_at);
    reveal(se_if);
}

/// Each field of the model of a [`HevcPpsMid`] is the field of that name.
pub proof fn law_view_h_pps_mid(x: HevcPpsMid)
    ensures
        x@.tiles == opt_view(x.tiles),
        x@.pps_loop_filter_across_slices_enabled_flag == x.pps_loop_filter_across_slices_enabled_flag,
        x@.deblocking_filter_control_present_flag == x.deblocking_filter_control_present_flag,
        x@.deblocking_filter_override_enabled_flag == x.deblocking_filter_override_enabled_flag,
        x@.pps_deblocking_filter_disabled_flag == x.pps_deblocking_filter_disabled_flag,
        x@.pps_beta_offset_div2 == x.pps_beta_offset_div2,
        x@.pps_tc_offset_div2 == x.pps_tc_offset_div2,
        x@.scaling_list_data == opt_view(x.scaling_list_data),
        x@.lists_modification_present_flag == x.lists_modification_present_flag,
        x@.log2_parallel_merge_level_minus2 == x.log2_parallel_merge_level_minus2,
        x@.slice_segment_header_extension_present_flag == x.slice_segment_header_extension_present_flag,
{
}

/// The extensions of a [`HevcPps`].
pub struct HevcPpsExt {
    pub pps_range_extension_flag: bool,
    pub pps_multilayer_extension_flag: bool,
    pub pps_3d_extension_flag: bool,
    pub pps_scc_extension_flag: bool,
    pub range_extension: Option<HevcPpsRangeExtension>,
}

/// The mathematical model of a [`HevcPpsExt`].
pub struct HevcPpsExtModel {
    pub pps_range_extension_flag: bool,
    pub pps_multilayer_extension_flag: bool,
    pub pps_3d_extension_flag: bool,
    pub pps_scc_extension_flag: bool,
    pub range_extension: Option<HevcPpsRangeExtensionModel>,
}

impl View for HevcPpsExt {
    type V = HevcPpsExtModel;

    open spec fn view(&self) -> HevcPpsExtModel {
        HevcPpsExtModel {
            pps_range_extension_flag: self.pps_range_extension_flag,
            pps_multilayer_extension_flag: self.pps_multilayer_extension_flag,
            pps_3d_extension_flag: self.pps_3d_extension_flag,
            pps_scc_extension_flag: self.pps_scc_extension_flag,
            range_extension: opt_view(self.range_extension),
        }
    }
}

/// The extensions of the PPS at position `p`.
#[verifier::opaque]
pub open spec fn h_pps_ext_at(s: Seq<bool>, p: nat, skip: bool) -> Read<HevcPpsExtModel> {
    let extended = flag_at(s, p);
    let p = adv(p, 1);
    let pps_range_extension_flag = flag_if(s, p, extended, false);
    let p = adv_if(p, 1, extended);
    let pps_multilayer_extension_flag = flag_if(s, p, extended, false);
    let p = adv_if(p, 1, extended);
    let pps_3d_extension_flag = flag_if(s, p, extended, false);
    let p = adv_if(p, 1, extended);
    let pps_scc_extension_flag = flag_if(s, p, extended, false);
    let p = adv_if(p, 1, extended);
    let _ext_4bits = u8_if(s, p, 4, extended, 0);
    let p = adv_if(p, 4, extended);
    match (if pps_range_extension_flag { read_some(h_pps_range_at(s, p, skip)) } else { Ok((None, p)) })
    { Err(f) => Err(f), Ok((range_extension, p)) => {
    if pps_multilayer_extension_flag || pps_3d_extension_flag || pps_scc_extension_flag {
        Err(Fault::Unsupported)
    } else {
    Ok((
        HevcPpsExtModel {
            pps_range_extension_flag,
            pps_multilayer_extension_flag,
            pps_3d_extension_flag,
            pps_scc_extension_flag,
            range_extension,
        },
        p,
    ))
    }}}
}

/// Parses the extensions of the PPS.
fn parse_h_pps_ext(r: &mut BitReader<'_>, skip: bool) -> (res: Result<HevcPpsExt, BitstreamError>)
    ensures
        read_view_is(h_pps_ext_at(old(r).bits(), old(r).pos(), skip), res, *old(r), *final(r)),
{
    proof {
        reveal(h_pps_ext_at);
    }
    let extended: bool = r.flag();
    let pps_range_extension_flag: bool = r.flag_if(extended, false);
    let pps_multilayer_extension_flag: bool = r.flag_if(extended, false);
    let pps_3d_extension_flag: bool = r.flag_if(extended, false);
    let pps_scc_extension_flag: bool = r.flag_if(extended, false);
    let _ext_4bits: u8 = r.u8_if(4, extended, 0);
    let range_extension = if pps_range_extension_flag { Some(parse_h_pps_range(r, skip)?) } else { None };
    if pps_multilayer_extension_flag || pps_3d_extension_flag || pps_scc_extension_flag {
        return Err(
            BitstreamError::unsupported("HEVC PPS multilayer/3D/SCC extension payloads not supported"),
        );
    }
    Ok(
        HevcPpsExt {
            pps_range_extension_flag,
            pps_multilayer_extension_flag,
            pps_3d_extension_flag,
            pps_scc_extension_flag,
            range_extension,
        },
    )
}

/// The layout of the extensions of the PPS: reading at `p` gives `x` and ends
/// at `q` if and only if these elements stand there in this order, and the
/// values are allowed.
pub proof fn law_layout_h_pps_ext(s: Seq<bool>, p: nat, skip: bool, x: HevcPpsExtModel, q: nat)
    ensures
        h_pps_ext_at(s, p, skip) == Ok::<(HevcPpsExtModel, nat), Fault>((x, q)) <==> ({
            let c = cursor(s, p);
            let extended = c.next_flag();
            &&& c
                .flag(extended)
                .flag_if(extended, x.pps_range_extension_flag, false)
                .flag_if(extended, x.pps_multilayer_extension_flag, false)
                .flag_if(extended, x.pps_3d_extension_flag, false)
                .flag_if(extended, x.pps_scc_extension_flag, false)
                .skip_if(extended, 4)
                .part_if(x.pps_range_extension_flag, |p: nat| h_pps_range_at(s, p, skip), x.range_extension)
                .ends(q)
            &&& !(x.pps_multilayer_extension_flag || x.pps_3d_extension_flag || x.pps_scc_extension_flag)
        }),
{
    reveal(h_pps_ext_at);
    reveal(adv_if);
    reveal(flag_if);
    reveal(u8_if);
}

/// What reads as the extensions of the PPS up to this point, and meets the last
/// condition, is refused as not supported.
pub proof fn law_refused_h_pps_ext(s: Seq<bool>, p: nat, skip: bool, x: HevcPpsExtModel)
    ensures
        ({
            let c = cursor(s, p);
            let extended = c.next_flag();
            let c = c
                .flag(extended)
                .flag_if(extended, x.pps_range_extension_flag, false)
                .flag_if(extended, x.pps_multilayer_extension_flag, false)
                .flag_if(extended, x.pps_3d_extension_flag, false)
                .flag_if(extended, x.pps_scc_extension_flag, false)
                .skip_if(extended, 4)
                .part_if(x.pps_range_extension_flag, |p: nat| h_pps_range_at(s, p, skip), x.range_extension);
            &&& c.good
            &&& (x.pps_multilayer_extension_flag || x.pps_3d_extension_flag || x.pps_scc_extension_flag)
        }) ==> h_pps_ext_at(s, p, skip) == Err::<(HevcPpsExtModel, nat), Fault>(Fault::Unsupported),
{
    reveal(h_pps_ext_at);
    reveal(adv_if);
    reveal(flag_if);
    reveal(u8_if);
}

/// Reading the extensions of the PPS never fails with an error of this class.
pub broadcast proof fn law_faults_h_pps_ext(s: Seq<bool>, p: nat, skip: bool)
    ensures
        #[trigger] h_pps_ext_at(s, p, skip) matches Err(f) ==> f != Fault::End,
{
    broadcast use law_faults_h_pps_range;

    reveal(h_pps_ext_at);
}

/// Each field of the model of a [`HevcPpsExt`] is the field of that name.
pub proof fn law_view_h_pps_ext(x: HevcPpsExt)
    ensures
        x@.pps_range_extension_flag == x.pps_range_extension_flag,
        x@.pps_multilayer_extension_flag == x.pps_multilayer_extension_flag,
        x@.pps_3d_extension_flag == x.pps_3d_extension_flag,
        x@.pps_scc_extension_flag == x.pps_scc_extension_flag,
        x@.range_extension == opt_view(x.range_extension),
{
}

/// The mathematical model of a [`HevcPps`].
pub struct HevcPpsModel {
    pub front: HevcPpsFrontModel,
    pub mid: HevcPpsMidModel,
    pub ext: HevcPpsExtModel,
}

impl View for HevcPps {
    type V = HevcPpsModel;

    open spec fn view(&self) -> HevcPpsModel {
        HevcPpsModel {
            front: HevcPpsFrontModel {
                pps_pic_parameter_set_id: self.pps_pic_parameter_set_id,
                pps_seq_parameter_set_id: self.pps_seq_parameter_set_id,
                dependent_slice_segments_enabled_flag: self.dependent_slice_segments_enabled_flag,
                output_flag_present_flag: self.output_flag_present_flag,
                num_extra_slice_header_bits: self.num_extra_slice_header_bits,
                sign_data_hiding_enabled_flag: self.sign_data_hiding_enabled_flag,
                cabac_init_present_flag: self.cabac_init_present_flag,
                num_ref_idx_l0_default_active_minus1: self.num_ref_idx_l0_default_active_minus1,
                num_ref_idx_l1_default_active_minus1: self.num_ref_idx_l1_default_active_minus1,
                init_qp_minus26: self.init_qp_minus26,
                constrained_intra_pred_flag: self.constrained_intra_pred_flag,
                transform_skip_enabled_flag: self.transform_skip_enabled_flag,
                cu_qp_delta_enabled_flag: self.cu_qp_delta_enabled_flag,
                diff_cu_qp_delta_depth: self.diff_cu_qp_delta_depth,
                pps_cb_qp_offset: self.pps_cb_qp_offset,
                pps_cr_qp_offset: self.pps_cr_qp_offset,
                pps_slice_chroma_qp_offsets_present_flag: self.pps_slice_chroma_qp_offsets_present_flag,
                weighted_pred_flag: self.weighted_pred_flag,
                weighted_bipred_flag: self.weighted_bipred_flag,
                transquant_bypass_enabled_flag: self.transquant_bypass_enabled_flag,
                tiles_enabled_flag: self.tiles_enabled_flag,
                entropy_coding_sync_enabled_flag: self.entropy_coding_sync_enabled_flag,
            },
            mid: HevcPpsMidModel {
                tiles: opt_view(self.tiles),
                pps_loop_filter_across_slices_enabled_flag: self.pps_loop_filter_across_slices_enabled_flag,
                deblocking_filter_control_present_flag: self.deblocking_filter_control_present_flag,
                deblocking_filter_override_enabled_flag: self.deblocking_filter_override_enabled_flag,
                pps_deblocking_filter_disabled_flag: self.pps_deblocking_filter_disabled_flag,
                pps_beta_offset_div2: self.pps_beta_offset_div2,
                pps_tc_offset_div2: self.pps_tc_offset_div2,
                scaling_list_data: opt_view(self.scaling_list_data),
                lists_modification_present_flag: self.lists_modification_present_flag,
                log2_parallel_merge_level_minus2: self.log2_parallel_merge_level_minus2,
                slice_segment_header_extension_present_flag: self.slice_segment_header_extension_present_flag,
            },
            ext: HevcPpsExtModel {
                pps_range_extension_flag: self.pps_range_extension_flag,
                pps_multilayer_extension_flag: self.pps_multilayer_extension_flag,
                pps_3d_extension_flag: self.pps_3d_extension_flag,
                pps_scc_extension_flag: self.pps_scc_extension_flag,
                range_extension: opt_view(self.range_extension),
            },
        }
    }
}

/// The picture parameter set (§7.3.2.3) at position `p`.
#[verifier::opaque]
pub open spec fn h_pps_at(s: Seq<bool>, p: nat) -> Read<HevcPpsModel> {
    match h_pps_front_at(s, p) { Err(f) => Err(f), Ok((front, p)) => {
    match h_pps_mid_at(s, p, front.tiles_enabled_flag) { Err(f) => Err(f), Ok((mid, p)) => {
    match h_pps_ext_at(s, p, front.transform_skip_enabled_flag) { Err(f) => Err(f), Ok((ext, p)) => {
    Ok((HevcPpsModel { front, mid, ext }, p))
    }}}}}}
}

/// Parses the picture parameter set (§7.3.2.3).
#[verifier::rlimit(60)]
#[verifier::spinoff_prover]
fn parse_h_pps(r: &mut BitReader<'_>) -> (res: Result<HevcPps, BitstreamError>)
    ensures
        read_view_is(h_pps_at(old(r).bits(), old(r).pos()), res, *old(r), *final(r)),
{
    proof {
        reveal(h_pps_at);
    }
    let front = parse_h_pps_front(r)?;
    let mid = parse_h_pps_mid(r, front.tiles_enabled_flag)?;
    let ext = parse_h_pps_ext(r, front.transform_skip_enabled_flag)?;
    Ok(HevcPps {
        pps_pic_parameter_set_id: front.pps_pic_parameter_set_id,
        pps_seq_parameter_set_id: front.pps_seq_parameter_set_id,
        dependent_slice_segments_enabled_flag: front.dependent_slice_segments_enabled_flag,
        output_flag_present_flag: front.output_flag_present_flag,
        num_extra_slice_header_bits: front.num_extra_slice_header_bits,
        sign_data_hiding_enabled_flag: front.sign_data_hiding_enabled_flag,
        cabac_init_present_flag: front.cabac_init_present_flag,
        num_ref_idx_l0_default_active_minus1: front.num_ref_idx_l0_default_active_minus1,
        num_ref_idx_l1_default_active_minus1: front.num_ref_idx_l1_default_active_minus1,
        init_qp_minus26: front.init_qp_minus26,
        constrained_intra_pred_flag: front.constrained_intra_pred_flag,
        transform_skip_enabled_flag: front.transform_skip_enabled_flag,
        cu_qp_delta_enabled_flag: front.cu_qp_delta_enabled_flag,
        diff_cu_qp_delta_depth: front.diff_cu_qp_delta_depth,
        pps_cb_qp_offset: front.pps_cb_qp_offset,
        pps_cr_qp_offset: front.pps_cr_qp_offset,
        pps_slice_chroma_qp_offsets_present_flag: front.pps_slice_chroma_qp_offsets_present_flag,
        weighted_pred_flag: front.weighted_pred_flag,
        weighted_bipred_flag: front.weighted_bipred_flag,
        transquant_bypass_enabled_flag: front.transquant_bypass_enabled_flag,
        tiles_enabled_flag: front.tiles_enabled_flag,
        entropy_coding_sync_enabled_flag: front.entropy_coding_sync_enabled_flag,
        tiles: mid.tiles,
        pps_loop_filter_across_slices_enabled_flag: mid.pps_loop_filter_across_slices_enabled_flag,
        deblocking_filter_control_present_flag: mid.deblocking_filter_control_present_flag,
        deblocking_filter_override_enabled_flag: mid.deblocking_filter_override_enabled_flag,
        pps_deblocking_filter_disabled_flag: mid.pps_deblocking_filter_disabled_flag,
        pps_beta_offset_div2: mid.pps_beta_offset_div2,
        pps_tc_offset_div2: mid.pps_tc_offset_div2,
        scaling_list_data: mid.scaling_list_data,
        lists_modification_present_flag: mid.lists_modification_present_flag,
        log2_parallel_merge_level_minus2: mid.log2_parallel_merge_level_minus2,
        slice_segment_header_extension_present_flag: mid.slice_segment_header_extension_present_flag,
        pps_range_extension_flag: ext.pps_range_extension_flag,
        pps_multilayer_extension_flag: ext.pps_multilayer_extension_flag,
        pps_3d_extension_flag: ext.pps_3d_extension_flag,
        pps_scc_extension_flag: ext.pps_scc_extension_flag,
        range_extension: ext.range_extension,
    })
}

/// The layout of the picture parameter set (§7.3.2.3): reading at `p` gives `x`
/// and ends at `q` if and only if these elements stand there in this order.
#[verifier::rlimit(60)]
#[verifier::spinoff_prover]
pub proof fn law_layout_h_pps(s: Seq<bool>, p: nat, x: HevcPpsModel, q: nat)
    ensures
        h_pps_at(s, p) == Ok::<(HevcPpsModel, nat), Fault>((x, q)) <==> cursor(s, p)
            .part(|p: nat| h_pps_front_at(s, p), x.front)
            .part(|p: nat| h_pps_mid_at(s, p, x.front.tiles_enabled_flag), x.mid)
            .part(|p: nat| h_pps_ext_at(s, p, x.front.transform_skip_enabled_flag), x.ext)
            .ends(q),
{
    reveal(h_pps_at);
}

/// Each field of the model of a [`HevcPps`] is the field of that name.
pub proof fn law_view_h_pps(x: HevcPps)
    ensures
        x@.front.pps_pic_parameter_set_id == x.pps_pic_parameter_set_id,
        x@.front.pps_seq_parameter_set_id == x.pps_seq_parameter_set_id,
        x@.front.dependent_slice_segments_enabled_flag == x.dependent_slice_segments_enabled_flag,
        x@.front.output_flag_present_flag == x.output_flag_present_flag,
        x@.front.num_extra_slice_header_bits == x.num_extra_slice_header_bits,
        x@.front.sign_data_hiding_enabled_flag == x.sign_data_hiding_enabled_flag,
        x@.front.cabac_init_present_flag == x.cabac_init_present_flag,
        x@.front.num_ref_idx_l0_default_active_minus1 == x.num_ref_idx_l0_default_active_minus1,
        x@.front.num_ref_idx_l1_default_active_minus1 == x.num_ref_idx_l1_default_active_minus1,
        x@.front.init_qp_minus26 == x.init_qp_minus26,
        x@.front.constrained_intra_pred_flag == x.constrained_intra_pred_flag,
        x@.front.transform_skip_enabled_flag == x.transform_skip_enabled_flag,
        x@.front.cu_qp_delta_enabled_flag == x.cu_qp_delta_enabled_flag,
        x@.front.diff_cu_qp_delta_depth == x.diff_cu_qp_delta_depth,
        x@.front.pps_cb_qp_offset == x.pps_cb_qp_offset,
        x@.front.pps_cr_qp_offset == x.pps_cr_qp_offset,
        x@.front.pps_slice_chroma_qp_offsets_present_flag == x.pps_slice_chroma_qp_offsets_present_flag,
        x@.front.weighted_pred_flag == x.weighted_pred_flag,
        x@.front.weighted_bipred_flag == x.weighted_bipred_flag,
        x@.front.transquant_bypass_enabled_flag == x.transquant_bypass_enabled_flag,
        x@.front.tiles_enabled_flag == x.tiles_enabled_flag,
        x@.front.entropy_coding_sync_enabled_flag == x.entropy_coding_sync_enabled_flag,
        x@.mid.tiles == opt_view(x.tiles),
        x@.mid.pps_loop_filter_across_slices_enabled_flag == x.pps_loop_filter_across_slices_enabled_flag,
        x@.mid.deblocking_filter_control_present_flag == x.deblocking_filter_control_present_flag,
        x@.mid.deblocking_filter_override_enabled_flag == x.deblocking_filter_override_enabled_flag,
        x@.mid.pps_deblocking_filter_disabled_flag == x.pps_deblocking_filter_disabled_flag,
        x@.mid.pps_beta_offset_div2 == x.pps_beta_offset_div2,
        x@.mid.pps_tc_offset_div2 == x.pps_tc_offset_div2,
        x@.mid.scaling_list_data == opt_view(x.scaling_list_data),
        x@.mid.lists_modification_present_flag == x.lists_modification_present_flag,
        x@.mid.log2_parallel_merge_level_minus2 == x.log2_parallel_merge_level_minus2,
        x@.mid.slice_segment_header_extension_present_flag == x.slice_segment_header_extension_present_flag,
        x@.ext.pps_range_extension_flag == x.pps_range_extension_flag,
        x@.ext.pps_multilayer_extension_flag == x.pps_multilayer_extension_flag,
        x@.ext.pps_3d_extension_flag == x.pps_3d_extension_flag,
        x@.ext.pps_scc_extension_flag == x.pps_scc_extension_flag,
        x@.ext.range_extension == opt_view(x.range_extension),
{
}

/// Parse a PPS NAL (with two-byte NAL header at index 0..1).
pub fn parse_pps_nal(nal: &[u8]) -> (res: Result<HevcPps, BitstreamError>)
    ensures
        match pps_of_nal(nal@) {
            Ok(x) => res matches Ok(v) && v@ == x,
            Err(f) => res matches Err(e) && e.fault() == f,
        },
{
    let rbsp = hevc_nal_rbsp(nal, NAL_TYPE_PPS, "PPS")?;
    let mut r = BitReader::new(rbsp.as_slice());
    parse_h_pps(&mut r)
}

/// The PPS that the NAL unit `b` holds.
pub open spec fn pps_of_nal(b: Seq<u8>) -> Result<HevcPpsModel, Fault> {
    rbsp_read(hevc_rbsp_of_nal(b, NAL_TYPE_PPS), |s: Seq<bool>| h_pps_at(s, 0))
}

// ─────────────────────────── Slice header ────────────────────────────────────

/// Minimal slice segment header (7.3.6).
#[derive(Debug, Clone, Default, PartialEq, Eq)]
pub struct HevcSliceHeader {
    pub first_slice_segment_in_pic_flag: bool,
    pub no_output_of_prior_pics_flag: bool,
    pub slice_pic_parameter_set_id: u8,
    /// 0 = B, 1 = P, 2 = I.
    pub slice_type: u8,
    pub slice_pic_order_cnt_lsb: u32,
    pub slice_temporal_mvp_enabled_flag: bool,
    /// True iff this header was parsed from an IRAP NAL
    /// (IDR_*, CRA).
    pub is_irap: bool,
}

/// The number of blocks of `2^log2_size` samples that cover `n` samples.
pub open spec fn blocks(n: u32, log2_size: u32) -> int {
    (n + pow2(log2_size as nat) - 1) / pow2(log2_size as nat) as int
}

/// The number of bits of slice_segment_address: Ceil(Log2(n)) for a picture of `n`
/// coding tree blocks, at most 32.
pub open spec fn segment_address_len(width: u32, height: u32, ctb_log2: u32) -> u32 {
    let n = ceil_log2((blocks(width, ctb_log2) * blocks(height, ctb_log2)) as nat);
    if n > 32 {
        32
    } else {
        n as u32
    }
}

fn segment_address_bits(width: u32, height: u32, ctb_log2: u32) -> (n: u32)
    requires
        3 <= ctb_log2 <= 6,
    ensures
        n == segment_address_len(width, height, ctb_log2),
        n <= 32,
{
    proof {
        lemma2_to64();
    }
    let size: u64 = if ctb_log2 == 3 {
        8
    } else if ctb_log2 == 4 {
        16
    } else if ctb_log2 == 5 {
        32
    } else {
        64
    };
    let w: u64 = (width as u64 + size - 1) / size;
    let h: u64 = (height as u64 + size - 1) / size;
    assert(w <= 0x2000_0000 && h <= 0x2000_0000);
    assert(w * h <= 0x2000_0000 * 0x2000_0000) by (nonlinear_arith)
        requires
            w <= 0x2000_0000,
            h <= 0x2000_0000,
    ;
    let n: u32 = ceil_log2_u64(w * h);
    if n > 32 {
        32
    } else {
        n
    }
}

/// The start of a slice segment header (§7.3.6.1) of a NAL unit of type `t` at
/// position `p`.
#[verifier::opaque]
pub open spec fn h_slice_at(
    s: Seq<bool>,
    p: nat,
    t: u8,
    sps: HevcSpsModel,
    pps: HevcPpsModel,
) -> Read<HevcSliceHeader> {
    let irap = t == NAL_TYPE_IDR_W_RADL || t == NAL_TYPE_IDR_N_LP || t == NAL_TYPE_CRA;
    let idr = t == NAL_TYPE_IDR_W_RADL || t == NAL_TYPE_IDR_N_LP;
    let first_slice_segment_in_pic_flag = flag_at(s, p);
    let p = adv(p, 1);
    let no_output_of_prior_pics_flag = flag_if(s, p, irap, false);
    let p = adv_if(p, 1, irap);
    match ue_at(s, p) { Err(f) => Err(f), Ok((coded_slice_pic_parameter_set_id, p)) => {
    let slice_pic_parameter_set_id = (coded_slice_pic_parameter_set_id % 256) as u8;
    let may_depend = !first_slice_segment_in_pic_flag && pps.front.dependent_slice_segments_enabled_flag;
    let dependent = flag_if(s, p, may_depend, false);
    let p = adv_if(p, 1, may_depend);
    if dependent { Err(Fault::Unsupported) } else {
    let ctb_log2 = (
        sps.coding.log2_min_luma_coding_block_size_minus3 as u32 + 3 + sps.coding.log2_diff_max_min_luma_coding_block_size as u32
    ) as u32;
    if !(first_slice_segment_in_pic_flag || ctb_log2 <= 6) { Err(Fault::Invalid) } else {
    let address_len = if first_slice_segment_in_pic_flag {
        0u32
    } else {
        segment_address_len(
            sps.front.pic_width_in_luma_samples,
            sps.front.pic_height_in_luma_samples,
            ctb_log2,
        )
    };
    let _slice_segment_address = u32_at(s, p, address_len as nat);
    let p = adv(p, address_len as nat);
    let extra = pps.front.num_extra_slice_header_bits as u64;
    match flags_at(s, p, extra as nat) { Err(f) => Err(f), Ok((_extra_bits, p)) => {
    let output = pps.front.output_flag_present_flag;
    let planes = sps.front.separate_colour_plane_flag;
    match ue_at(s, p) { Err(f) => Err(f), Ok((coded_slice_type, p)) => {
    let slice_type = (coded_slice_type % 256) as u8;
    let _pic_output_flag = u8_if(s, p, 1, output, 0);
    let p = adv_if(p, 1, output);
    let _colour_plane_id = u8_if(s, p, 2, planes, 0);
    let p = adv_if(p, 2, planes);
    let lsb_len = (sps.front.log2_max_pic_order_cnt_lsb_minus4 as u32 + 4) as u32;
    if !(idr || lsb_len <= 32) { Err(Fault::Invalid) } else {
    let slice_pic_order_cnt_lsb = u32_if(s, p, lsb_len as nat, !idr, 0);
    let p = adv_if(p, lsb_len as nat, !idr);
    let slice_temporal_mvp_enabled_flag = false;
    let is_irap = irap;
    Ok((HevcSliceHeader {
        first_slice_segment_in_pic_flag,
        no_output_of_prior_pics_flag,
        slice_pic_parameter_set_id,
        slice_type,
        slice_pic_order_cnt_lsb,
        slice_temporal_mvp_enabled_flag,
        is_irap,
    }, p)) }}}}}}}}}
}

/// Parses the start of a slice segment header (§7.3.6.1) of a NAL unit of type `t`.
fn parse_h_slice(
    r: &mut BitReader<'_>,
    t: u8,
    sps: &HevcSps,
    pps: &HevcPps,
) -> (res: Result<HevcSliceHeader, BitstreamError>)
    ensures
        read_is(h_slice_at(old(r).bits(), old(r).pos(), t, sps@, pps@), res, *old(r), *final(r)),
{
    proof {
        reveal(h_slice_at);
    }
    let irap: bool = t == NAL_TYPE_IDR_W_RADL || t == NAL_TYPE_IDR_N_LP || t == NAL_TYPE_CRA;
    let idr: bool = t == NAL_TYPE_IDR_W_RADL || t == NAL_TYPE_IDR_N_LP;
    let first_slice_segment_in_pic_flag: bool = r.flag();
    let no_output_of_prior_pics_flag: bool = r.flag_if(irap, false);
    let coded_slice_pic_parameter_set_id: u32 = r.ue()?;
    let slice_pic_parameter_set_id: u8 = (coded_slice_pic_parameter_set_id % 256) as u8;
    let may_depend: bool = !first_slice_segment_in_pic_flag && pps.dependent_slice_segments_enabled_flag;
    let dependent: bool = r.flag_if(may_depend, false);
    if dependent {
        return Err(
            BitstreamError::unsupported("HEVC dependent slice segments not supported by minimal parser"),
        );
    }
    let ctb_log2: u32 = sps.log2_min_luma_coding_block_size_minus3 as u32 + 3 + sps.log2_diff_max_min_luma_coding_block_size as u32;
    if !(first_slice_segment_in_pic_flag || ctb_log2 <= 6) {
        return Err(
            Message::new("slice header with CtbLog2SizeY=")
                .num(ctb_log2 as i128)
                .with(" (must be 4..=6, §A.3)")
                .invalid(),
        );
    }
    let address_len: u32 = if first_slice_segment_in_pic_flag {
        0
    } else {
        segment_address_bits(sps.pic_width_in_luma_samples, sps.pic_height_in_luma_samples, ctb_log2)
    };
    let _slice_segment_address: u32 = r.u(address_len);
    let extra: u64 = pps.num_extra_slice_header_bits as u64;
    let _extra_bits = r.read_flags(extra);
    let output: bool = pps.output_flag_present_flag;
    let planes: bool = sps.separate_colour_plane_flag;
    let coded_slice_type: u32 = r.ue()?;
    let slice_type: u8 = (coded_slice_type % 256) as u8;
    let _pic_output_flag: u8 = r.u8_if(1, output, 0);
    let _colour_plane_id: u8 = r.u8_if(2, planes, 0);
    let lsb_len: u32 = sps.log2_max_pic_order_cnt_lsb_minus4 as u32 + 4;
    if !(idr || lsb_len <= 32) {
        return Err(
            BitstreamError::invalid("slice header with log2_max_pic_order_cnt_lsb_minus4 out of range"),
        );
    }
    let slice_pic_order_cnt_lsb: u32 = r.u_if(lsb_len, !idr, 0);
    let slice_temporal_mvp_enabled_flag: bool = false;
    let is_irap: bool = irap;
    Ok(HevcSliceHeader {
        first_slice_segment_in_pic_flag,
        no_output_of_prior_pics_flag,
        slice_pic_parameter_set_id,
        slice_type,
        slice_pic_order_cnt_lsb,
        slice_temporal_mvp_enabled_flag,
        is_irap,
    })
}

/// The layout of the start of a slice segment header (§7.3.6.1) of a NAL unit
/// of type `t`: reading at `p` gives `x` and ends at `q` if and only if these
/// elements stand there in this order, and the values are allowed.
pub proof fn law_layout_h_slice(
    s: Seq<bool>,
    p: nat,
    t: u8,
    sps: HevcSpsModel,
    pps: HevcPpsModel,
    x: HevcSliceHeader,
    q: nat,
)
    ensures
        h_slice_at(s, p, t, sps, pps) == Ok::<(HevcSliceHeader, nat), Fault>((x, q)) <==> ({
            let irap = t == 19 || t == 20 || t == 21;
            let idr = t == 19 || t == 20;
            let c = cursor(s, p)
                .flag(x.first_slice_segment_in_pic_flag)
                .flag_if(irap, x.no_output_of_prior_pics_flag, false);
            let coded_slice_pic_parameter_set_id = c.next_ue();
            let may_depend = !x.first_slice_segment_in_pic_flag
                && pps.front.dependent_slice_segments_enabled_flag;
            let c = c.ue(coded_slice_pic_parameter_set_id);
            let dependent = if may_depend { c.next_flag() } else { false };
            let ctb_log2 = (
                sps.coding.log2_min_luma_coding_block_size_minus3 as u32 + 3 + sps.coding.log2_diff_max_min_luma_coding_block_size as u32
            ) as u32;
            let address_len = if x.first_slice_segment_in_pic_flag {
                0u32
            } else {
                segment_address_len(
                    sps.front.pic_width_in_luma_samples,
                    sps.front.pic_height_in_luma_samples,
                    ctb_log2,
                )
            };
            let extra = pps.front.num_extra_slice_header_bits as u64;
            let output = pps.front.output_flag_present_flag;
            let planes = sps.front.separate_colour_plane_flag;
            let c = c
                .flag_if(may_depend, dependent, false)
                .skip(address_len as nat)
                .any(|p: nat| flags_at(s, p, extra as nat));
            let coded_slice_type = c.next_ue();
            let lsb_len = (sps.front.log2_max_pic_order_cnt_lsb_minus4 as u32 + 4) as u32;
            &&& c
                .ue(coded_slice_type)
                .skip_if(output, 1)
                .skip_if(planes, 2)
                .u32_if(!idr, lsb_len as nat, x.slice_pic_order_cnt_lsb, 0)
                .ends(q)
            &&& x.slice_pic_parameter_set_id == (coded_slice_pic_parameter_set_id % 256) as u8
            &&& !dependent
            &&& (x.first_slice_segment_in_pic_flag || ctb_log2 <= 6)
            &&& x.slice_type == (coded_slice_type % 256) as u8
            &&& (idr || lsb_len <= 32)
            &&& x.slice_temporal_mvp_enabled_flag == false
            &&& x.is_irap == irap
        }),
{
    reveal(h_slice_at);
    reveal(adv_if);
    reveal(flag_if);
    reveal(u32_if);
    reveal(u8_if);
}

/// What reads as the start of a slice segment header (§7.3.6.1) of a NAL unit
/// of type `t` up to this point, and meets the last condition, is refused as
/// not supported.
pub proof fn law_refused_h_slice(
    s: Seq<bool>,
    p: nat,
    t: u8,
    sps: HevcSpsModel,
    pps: HevcPpsModel,
    x: HevcSliceHeader,
)
    ensures
        ({
            let irap = t == 19 || t == 20 || t == 21;
            let c = cursor(s, p)
                .flag(x.first_slice_segment_in_pic_flag)
                .flag_if(irap, x.no_output_of_prior_pics_flag, false);
            let coded_slice_pic_parameter_set_id = c.next_ue();
            let may_depend = !x.first_slice_segment_in_pic_flag
                && pps.front.dependent_slice_segments_enabled_flag;
            let c = c.ue(coded_slice_pic_parameter_set_id);
            let dependent = if may_depend { c.next_flag() } else { false };
            let c = c.flag_if(may_depend, dependent, false);
            &&& c.good
            &&& x.slice_pic_parameter_set_id == (coded_slice_pic_parameter_set_id % 256) as u8
            &&& dependent
        }) ==> h_slice_at(s, p, t, sps, pps) == Err::<(HevcSliceHeader, nat), Fault>(Fault::Unsupported),
{
    reveal(h_slice_at);
    reveal(adv_if);
    reveal(flag_if);
}

/// Reading the start of a slice segment header (§7.3.6.1) of a NAL unit of type
/// `t` never fails with an error of this class.
pub broadcast proof fn law_faults_h_slice(s: Seq<bool>, p: nat, t: u8, sps: HevcSpsModel, pps: HevcPpsModel)
    ensures
        #[trigger] h_slice_at(s, p, t, sps, pps) matches Err(f) ==> f != Fault::End,
{
    broadcast use {crate::bits::law_faults_ue, crate::bits::law_faults_flags};

    reveal(h_slice_at);
}

/// The slice header that the NAL unit `b` holds.
pub open spec fn slice_of_nal(
    b: Seq<u8>,
    sps: HevcSpsModel,
    pps: HevcPpsModel,
) -> Result<HevcSliceHeader, Fault> {
    if b.len() < 2 {
        Err(Fault::End)
    } else {
        match h_slice_at(bits_of(unescape(b.skip(2))), 0, nal_type_of(b[0]), sps, pps) {
            Err(f) => Err(f),
            Ok((x, _)) => Ok(x),
        }
    }
}

/// Parse a minimal IRAP slice-segment header (7.3.6.1). Only the
/// fields needed to confirm the slice is intra-coded and to populate
/// the HW backends' picture-info struct are read; what follows
/// `slice_pic_order_cnt_lsb` is not looked at.
pub fn parse_slice_header_minimal(nal: &[u8], sps: &HevcSps, pps: &HevcPps) -> (res: Result<
    HevcSliceHeader,
    BitstreamError,
>)
    ensures
        match slice_of_nal(nal@, sps@, pps@) {
            Ok(x) => res == Ok::<HevcSliceHeader, BitstreamError>(x),
            Err(f) => res matches Err(e) && e.fault() == f,
        },
{
    if nal.len() < 2 {
        return Err(BitstreamError::unexpected_end("slice NAL shorter than 2 bytes"));
    }
    let (_, nal_unit_type, _, _) = nal_header(nal[0], nal[1]);
    proof {
        assert(nal@.subrange(2, nal@.len() as int) =~= nal@.skip(2));
    }
    let rbsp = ebsp_to_rbsp(slice_subrange(nal, 2, nal.len()));
    let mut r = BitReader::new(rbsp.as_slice());
    parse_h_slice(&mut r, nal_unit_type, sps, pps)
}

// ─────────────────────────── End-to-end walker ──────────────────────────────

/// Convenience structure for [`parse_idr_only`].
#[derive(Debug)]
pub struct HevcIdrParse<'a> {
    pub vps: HevcVps,
    pub sps: HevcSps,
    pub pps: HevcPps,
    pub slice_header: HevcSliceHeader,
    pub nal_unit_type: u8,
    pub idr_access_unit: &'a [u8],
}

/// What a walk over NAL units has found so far.
pub struct IdrWalk {
    pub vps: Option<HevcVps>,
    pub sps: Option<HevcSpsModel>,
    pub pps: Option<HevcPpsModel>,
    pub irap: Option<int>,
}

/// The walk behind one more NAL unit, number `k`: the first of each parameter set
/// is parsed, the first entry point is noted, and the rest is passed over.
pub open spec fn walk_step(w: IdrWalk, nal: Seq<u8>, k: int) -> Result<IdrWalk, Fault> {
    if nal.len() < 2 {
        Ok(w)
    } else {
        let t = nal_type_of(nal[0]);
        if t == NAL_TYPE_VPS && w.vps is None {
            match vps_of_nal(nal) {
                Err(f) => Err(f),
                Ok(x) => Ok(IdrWalk { vps: Some(x), ..w }),
            }
        } else if t == NAL_TYPE_SPS && w.sps is None {
            match sps_of_nal(nal) {
                Err(f) => Err(f),
                Ok(x) => Ok(IdrWalk { sps: Some(x), ..w }),
            }
        } else if t == NAL_TYPE_PPS && w.pps is None {
            match pps_of_nal(nal) {
                Err(f) => Err(f),
                Ok(x) => Ok(IdrWalk { pps: Some(x), ..w }),
            }
        } else if irap_type(t) && w.irap is None {
            Ok(IdrWalk { irap: Some(k), ..w })
        } else {
            Ok(w)
        }
    }
}

/// The walk over the first `n` NAL units.
pub open spec fn walk(nals: Seq<Seq<u8>>, n: nat) -> Result<IdrWalk, Fault>
    decreases n,
{
    if n == 0 {
        Ok(IdrWalk { vps: None, sps: None, pps: None, irap: None })
    } else {
        match walk(nals, (n - 1) as nat) {
            Err(f) => Err(f),
            Ok(w) => walk_step(w, nals[n - 1], n - 1),
        }
    }
}

/// What is found in a stream: the parameter sets, the slice header of the first
/// entry point with its NAL unit type, and the number of that NAL unit.
pub open spec fn idr_of(
    b: Seq<u8>,
) -> Result<(HevcVps, HevcSpsModel, HevcPpsModel, HevcSliceHeader, int), Fault> {
    let nals = nals_of(b);
    match walk(nals, nals.len()) {
        Err(f) => Err(f),
        Ok(w) => match (w.vps, w.sps, w.pps, w.irap) {
            (Some(vps), Some(sps), Some(pps), Some(k)) => match slice_of_nal(nals[k], sps, pps) {
                Err(f) => Err(f),
                Ok(sh) => Ok((vps, sps, pps, sh, k)),
            },
            _ => Err(Fault::Invalid),
        },
    }
}

proof fn lemma_walk_err(nals: Seq<Seq<u8>>, i: nat, n: nat)
    requires
        i <= n,
        walk(nals, i) is Err,
    ensures
        walk(nals, n) == walk(nals, i),
    decreases n,
{
    if i < n {
        lemma_walk_err(nals, i, (n - 1) as nat);
    }
}

/// Walk an Annex-B HEVC stream, locate the first IRAP slice (IDR or
/// CRA), parse VPS / SPS / PPS / slice header, and return everything
/// plus a slice of the original input covering the IRAP access unit.
#[verifier::rlimit(60)]
#[verifier::spinoff_prover]
pub fn parse_idr_only<'a>(stream: &'a [u8]) -> (res: Result<HevcIdrParse<'a>, BitstreamError>)
    ensures
        match idr_of(stream@) {
            Ok((vps, sps, pps, sh, k)) => {
                &&& res matches Ok(v)
                &&& v.vps == vps
                &&& v.sps@ == sps
                &&& v.pps@ == pps
                &&& v.slice_header == sh
                &&& v.nal_unit_type == nal_type_of(nals_of(stream@)[k][0])
                &&& v.idr_access_unit@ == stream@.skip(starts_of(stream@)[k])
            },
            Err(f) => res matches Err(e) && e.fault() == f,
        },
{
    let locs = locate_annex_b(stream);
    let ghost nals = nals_of(stream@);
    proof {
        law_nals_are_bodies(stream@);
    }
    let mut vps: Option<HevcVps> = None;
    let mut sps: Option<HevcSps> = None;
    let mut pps: Option<HevcPps> = None;
    let mut irap: Option<usize> = None;
    let mut irap_nal_type: u8 = 0;
    let mut i: usize = 0;
    while i < locs.len()
        invariant
            i <= locs@.len(),
            nals == nals_of(stream@),
            locs@.len() == nals.len(),
            locs@.len() == starts_of(stream@).len(),
            forall|k: int| 0 <= k < locs@.len()
                ==> is_loc(stream@, #[trigger] locs@[k], starts_of(stream@)[k]),
            forall|k: int| 0 <= k < nals.len()
                ==> #[trigger] nals[k] == body_at(stream@, starts_of(stream@)[k]),
            walk(nals, i as nat) matches Ok(w) && {
                &&& w.vps == vps
                &&& w.sps == opt_view(sps)
                &&& w.pps == opt_view(pps)
                &&& w.irap is Some == irap is Some
                &&& irap matches Some(k) ==> w.irap == Some(k as int) && k < i && nals[k as int].len() >= 2
                    && irap_nal_type == nal_type_of(nals[k as int][0])
            },
        decreases locs@.len() - i,
    {
        let l: NalLoc = locs[i];
        proof {
            assert(is_loc(stream@, locs@[i as int], starts_of(stream@)[i as int]));
            if walk(nals, (i + 1) as nat) is Err {
                lemma_walk_err(nals, (i + 1) as nat, nals.len());
            }
        }
        let body = slice_subrange(stream, l.body_start, l.body_end);
        assert(body@ == nals[i as int]);
        if body.len() >= 2 {
            let (_, nal_type, _, _) = nal_header(body[0], body[1]);
            if nal_type == NAL_TYPE_VPS && vps.is_none() {
                vps = Some(parse_vps_nal(body)?);
            } else if nal_type == NAL_TYPE_SPS && sps.is_none() {
                sps = Some(parse_sps_nal(body)?);
            } else if nal_type == NAL_TYPE_PPS && pps.is_none() {
                pps = Some(parse_pps_nal(body)?);
            } else if is_irap(nal_type) && irap.is_none() {
                irap = Some(i);
                irap_nal_type = nal_type;
            }
        }
        i = i + 1;
    }
    match (vps, sps, pps, irap) {
        (Some(vps), Some(sps), Some(pps), Some(k)) => {
            let l: NalLoc = locs[k];
            proof {
                assert(is_loc(stream@, locs@[k as int], starts_of(stream@)[k as int]));
            }
            let body = slice_subrange(stream, l.body_start, l.body_end);
            assert(body@ == nals[k as int]);
            let slice_header = parse_slice_header_minimal(body, &sps, &pps)?;
            let access_unit = slice_subrange(stream, l.start_code_start, stream.len());
            proof {
                assert(access_unit@ =~= stream@.skip(starts_of(stream@)[k as int]));
            }
            Ok(
                HevcIdrParse {
                    vps,
                    sps,
                    pps,
                    slice_header,
                    nal_unit_type: irap_nal_type,
                    idr_access_unit: access_unit,
                },
            )
        },
        (vps, sps, pps, _) => Err(
            if locs.len() == 0 {
                BitstreamError::invalid("no NAL units found in stream")
            } else if vps.is_none() {
                BitstreamError::invalid("stream has no VPS")
            } else if sps.is_none() {
                BitstreamError::invalid("stream has no SPS")
            } else if pps.is_none() {
                BitstreamError::invalid("stream has no PPS")
            } else {
                BitstreamError::invalid("stream has no IRAP slice")
            },
        ),
    }
}

// ─────────────────────────── Access unit delimiter ──────────────────────────

/// Access unit delimiter RBSP (§7.3.2.5 / §7.4.3.5).
///
/// The AUD NAL (type 35) marks the boundary between access units and
/// optionally narrows the set of `slice_type` values that may appear
/// in the coded pictures of the access unit. `pic_type` is the only
/// signalled field; everything else in the NAL is `rbsp_trailing_bits()`.
#[derive(Debug, Clone, Copy, PartialEq, Eq)]
pub struct HevcAccessUnitDelimiter {
    /// `pic_type` u(3) (§7.4.3.5 / Table 7-2). Conforming bitstreams
    /// use 0, 1 or 2 (I-only / P+I / B+P+I); values 3..=7 are
    /// reserved for future use, and are surfaced unchanged.
    pub pic_type: u8,
}

/// `pic_type` is u(3) so its range is 0..=7 (§7.4.3.5).
pub const HEVC_PIC_TYPE_MAX: u8 = 7;

/// `pic_type` of an access unit with I slices only.
pub const HEVC_PIC_TYPE_I_ONLY: u8 = 0;

/// `pic_type` of an access unit with P and I slices.
pub const HEVC_PIC_TYPE_P_OR_I: u8 = 1;

/// `pic_type` of an access unit with B, P and I slices.
pub const HEVC_PIC_TYPE_B_P_OR_I: u8 = 2;

/// The AUD that the NAL unit `b` holds.
pub open spec fn aud_of_nal(b: Seq<u8>) -> Result<HevcAccessUnitDelimiter, Fault> {
    match hevc_rbsp_of_nal(b, NAL_TYPE_AUD) {
        Err(f) => Err(f),
        Ok(r) => if b.len() < 3 {
            Err(Fault::End)
        } else {
            match trailing_at(bits_of(r), 3) {
                Err(f) => Err(f),
                Ok(_) => Ok(HevcAccessUnitDelimiter { pic_type: u8_at(bits_of(r), 0, 3) }),
            }
        },
    }
}

/// The bits of the RBSP of an AUD.
pub open spec fn aud_bits(aud: HevcAccessUnitDelimiter) -> Seq<bool> {
    put_trailing(put_u(Seq::empty(), aud.pic_type as nat, 3))
}

/// Parse an AUD NAL, including the two-byte NAL header, recovering
/// `pic_type` and verifying the trailing `rbsp_trailing_bits()`
/// marker (§7.3.2.5).
///
/// Returns [`BitstreamError::InvalidData`] when the NAL type isn't
/// [`NAL_TYPE_AUD`] or when the trailing marker is malformed; returns
/// [`BitstreamError::UnexpectedEnd`] when the NAL is too short for
/// the two-byte header plus a payload byte. Reserved `pic_type`
/// values (3..=7) are returned verbatim rather than rejected.
pub fn parse_aud_nal(nal: &[u8]) -> (res: Result<HevcAccessUnitDelimiter, BitstreamError>)
    ensures
        match aud_of_nal(nal@) {
            Ok(x) => res == Ok::<HevcAccessUnitDelimiter, BitstreamError>(x),
            Err(f) => res matches Err(e) && e.fault() == f,
        },
{
    let rbsp = hevc_nal_rbsp(nal, NAL_TYPE_AUD, "AUD")?;
    if nal.len() < 3 {
        return Err(BitstreamError::unexpected_end("AUD NAL has no body after the 2-byte header"));
    }
    proof {
        reveal(adv);
    }
    let mut r = BitReader::new(rbsp.as_slice());
    let pic_type = r.u8(3);
    r.read_rbsp_trailing_bits()?;
    Ok(HevcAccessUnitDelimiter { pic_type })
}

/// Emit an AUD NAL: two-byte NAL header followed by a 1-byte RBSP
/// that packs `pic_type` u(3) and the `rbsp_trailing_bits()` marker.
///
/// The NAL header fixes `forbidden_zero_bit = 0`, `nuh_layer_id = 0`
/// and `nuh_temporal_id_plus1 = 1`. The returned
/// bytes start with the two-byte NAL header; callers that need an
/// Annex-B unit prepend `0x00 0x00 0x01` (or `0x00 0x00 0x00 0x01`)
/// themselves.
///
/// Returns [`BitstreamError::InvalidData`] when `pic_type > 7` (the
/// u(3) envelope). Reserved `pic_type` values (3..=7) are accepted so
/// the writer round-trips against the parser.
pub fn write_aud_nal(aud: &HevcAccessUnitDelimiter) -> (res: Result<Vec<u8>, BitstreamError>)
    ensures
        match res {
            Ok(v) => {
                &&& aud.pic_type <= HEVC_PIC_TYPE_MAX
                &&& v@.len() == 3
                &&& v@[0] == 0x46
                &&& v@[1] == 0x01
                &&& bits_of(v@.skip(2)) == aud_bits(*aud)
            },
            Err(e) => aud.pic_type > HEVC_PIC_TYPE_MAX && e.fault() == Fault::Invalid,
        },
{
    if aud.pic_type > HEVC_PIC_TYPE_MAX {
        return Err(
            Message::new("HEVC pic_type = ")
                .num(aud.pic_type as i128)
                .with(" > ")
                .num(HEVC_PIC_TYPE_MAX as i128)
                .with(" (u(3) envelope)")
                .invalid(),
        );
    }
    let mut w = BitWriter::new();
    w.write_bits(aud.pic_type as u32, 3);
    w.write_rbsp_trailing_bits();
    proof {
        let a = put_u(Seq::empty(), aud.pic_type as nat, 3);
        lemma_put_u_shape(Seq::empty(), aud.pic_type as nat, 3);
        lemma_trailing_shape(a);
        lemma_pad_aligned(w@);
    }
    let mut rbsp = w.finish();
    let ghost body = rbsp@;
    let mut out: Vec<u8> = Vec::new();
    out.push(0x46);
    out.push(0x01);
    out.append(&mut rbsp);
    proof {
        lemma_bits_of_len(body);
        assert(out@.skip(2) =~= body);
    }
    Ok(out)
}

proof fn lemma_short_unescape(b: Seq<u8>)
    ensures
        b.len() == 1 ==> unescape(b) == b,
        unescape(b).len() == 1 ==> b.len() == 1,
        b.len() > 0 ==> unescape(b).len() > 0,
{
    reveal_with_fuel(unescape, 3);
    if b.len() == 1 {
        assert(unescape(b) =~= b);
    }
}

/// An AUD that was written parses back.
pub proof fn law_parse_written_aud(aud: HevcAccessUnitDelimiter, nal: Seq<u8>)
    requires
        aud.pic_type <= HEVC_PIC_TYPE_MAX,
        nal.len() == 3,
        nal[0] == 0x46,
        nal[1] == 0x01,
        bits_of(nal.skip(2)) == aud_bits(aud),
    ensures
        aud_of_nal(nal) == Ok::<HevcAccessUnitDelimiter, Fault>(aud),
{
    let body = nal.skip(2);
    lemma_short_unescape(body);
    let s = bits_of(body);
    let a = put_u(Seq::<bool>::empty(), aud.pic_type as nat, 3);
    lemma_put_u_shape(Seq::empty(), aud.pic_type as nat, 3);
    lemma_trailing_shape(a);
    assert(upto(s, 3) =~= a) by {
        reveal(upto);
    }
    law_fits_small(aud.pic_type as nat, 3);
    assert(pre(a, s)) by {
        reveal(pre);
    }
    law_pre_put_u(Seq::empty(), aud.pic_type as nat, 3, s);
}

/// An AUD that was parsed is written as it was, if its NAL header is the
/// canonical one.
pub proof fn law_write_parsed_aud(nal: Seq<u8>, out: Seq<u8>)
    requires
        aud_of_nal(nal) is Ok,
        nal[0] == 0x46,
        nal[1] == 0x01,
        out.len() == 3,
        out[0] == 0x46,
        out[1] == 0x01,
        bits_of(out.skip(2)) == aud_bits(aud_of_nal(nal)->Ok_0),
    ensures
        aud_of_nal(nal)->Ok_0.pic_type <= HEVC_PIC_TYPE_MAX,
        out == nal,
{
    let r = unescape(nal.skip(2));
    let s = bits_of(r);
    let x = aud_of_nal(nal)->Ok_0;
    lemma_bits_of_len(r);
    let a = upto(s, 3);
    lemma_trailing_shape(a);
    assert(a.len() == 3) by {
        reveal(upto);
    }
    assert(r.len() == 1);
    lemma_short_unescape(nal.skip(2));
    law_u8_fits(s, 0, 3);
    law_fits_small(x.pic_type as nat, 3);
    assert(within(s, 3)) by {
        reveal(within);
    }
    assert(put_u(Seq::empty(), x.pic_type as nat, 3) == a) by {
        reveal(u8_at);
        reveal(upto);
        reveal(adv);
        lemma_uval_bound(s, 0, 3);
        lemma2_to64();
        law_put_u_at(s, 0, x.pic_type as nat, 3);
        assert(upto(s, 0) =~= Seq::empty());
    }
    lemma_bits_of_injective(out.skip(2), nal.skip(2));
    assert(out =~= nal) by {
        assert(out[2] == out.skip(2)[0]);
        assert(nal[2] == nal.skip(2)[0]);
    }
}

// ─────────────────────────── What the streams hold ──────────────────────────

/// The NAL unit type stands between the forbidden bit `f` and the top bit `l` of
/// the layer id, and the entry points are types 19, 20 and 21.
pub proof fn law_nal_type(f: u8, t: u8, l: u8)
    requires
        f < 2,
        t < 64,
        l < 2,
    ensures
        nal_type_of((128 * f + 2 * t + l) as u8) == t,
        irap_type(t) <==> t == 19 || t == 20 || t == 21,
{
}

/// A VPS is what stands behind the two header bytes of a NAL unit of type 32.
pub proof fn law_vps_nal(b: Seq<u8>)
    ensures
        vps_of_nal(b) == if b.len() < 2 {
            Err(Fault::End)
        } else if b[0] / 2 % 64 != 32 {
            Err(Fault::Invalid)
        } else {
            match h_vps_at(bits_of(unescape(b.skip(2))), 0) {
                Ok((x, _)) => Ok(x),
                Err(f) => Err(f),
            }
        },
{
}

/// An SPS is what stands behind the two header bytes of a NAL unit of type 33.
pub proof fn law_sps_nal(b: Seq<u8>)
    ensures
        sps_of_nal(b) == if b.len() < 2 {
            Err(Fault::End)
        } else if b[0] / 2 % 64 != 33 {
            Err(Fault::Invalid)
        } else {
            match h_sps_at(bits_of(unescape(b.skip(2))), 0) {
                Ok((x, _)) => Ok(x),
                Err(f) => Err(f),
            }
        },
{
}

/// A PPS is what stands behind the two header bytes of a NAL unit of type 34.
pub proof fn law_pps_nal(b: Seq<u8>)
    ensures
        pps_of_nal(b) == if b.len() < 2 {
            Err(Fault::End)
        } else if b[0] / 2 % 64 != 34 {
            Err(Fault::Invalid)
        } else {
            match h_pps_at(bits_of(unescape(b.skip(2))), 0) {
                Ok((x, _)) => Ok(x),
                Err(f) => Err(f),
            }
        },
{
}

/// A slice header is what stands behind the two header bytes of a NAL unit, whose
/// type decides what is coded. The slice of an IDR picture has no picture order
/// count, only that of an entry point has a no_output_of_prior_pics_flag, and
/// is_irap tells the entry points.
pub proof fn law_slice_nal(b: Seq<u8>, sps: HevcSpsModel, pps: HevcPpsModel)
    ensures
        slice_of_nal(b, sps, pps) == if b.len() < 2 {
            Err(Fault::End)
        } else {
            match h_slice_at(bits_of(unescape(b.skip(2))), 0, b[0] / 2 % 64, sps, pps) {
                Ok((x, _)) => Ok(x),
                Err(f) => Err(f),
            }
        },
        slice_of_nal(b, sps, pps) matches Ok(x) ==> {
            let t = b[0] / 2 % 64;
            &&& (t == 19 || t == 20) ==> x.slice_pic_order_cnt_lsb == 0
            &&& x.is_irap <==> (t == 19 || t == 20 || t == 21)
            &&& !x.is_irap ==> !x.no_output_of_prior_pics_flag
            &&& !x.slice_temporal_mvp_enabled_flag
        },
{
    reveal(h_slice_at);
    reveal(u32_if);
    reveal(flag_if);
}

/// The coefficients of a scaling list are coded as differences: each is the one
/// before it, the first one `start`, plus the coded difference, modulo 256.
pub proof fn law_layout_h_coefs(s: Seq<bool>, p: nat, n: u64, start: i32, xs: Seq<u8>, q: nat)
    requires
        0 <= start < 256,
    ensures
        h_coefs_at(s, p, n, start) == Ok::<(Seq<u8>, nat), Fault>((xs, q)) <==> if n == 0 {
            xs.len() == 0 && q == p
        } else {
            let c = cursor(s, p).part(|p: nat| h_coefs_at(s, p, (n - 1) as u64, start), xs.drop_last());
            let d = c.next_se();
            let prev = if n == 1 {
                start as int
            } else {
                xs[n - 2] as int
            };
            &&& xs.len() == n
            &&& c.se(d).ends(q)
            &&& -128 <= d <= 127
            &&& (xs.last() == prev + d || xs.last() == prev + d + 256 || xs.last() == prev + d - 256)
        },
{
    reveal(h_coefs_at);
    let f = h_coef_item(s, start);
    lemma_rep_step(f, p, n as nat);
    if xs.len() == 0 {
        assert(xs =~= Seq::empty());
    } else {
        assert(xs =~= xs.drop_last().push(xs.last()));
    }
    if n > 0 {
        lemma_rep_step(f, p, (n - 1) as nat);
        if let Ok((done, r)) = rep_at(f, p, (n - 1) as nat) {
            if let Ok((y, z)) = f(done, r) {
                assert(done.push(y).drop_last() =~= done);
            }
        }
    }
}

/// The scaling lists are 20 coded lists: six for 4x4, 8x8 and 16x16 blocks each,
/// and two for 32x32 blocks, those of matrix ids 0 and 3. What is not coded is zero.
#[verifier::rlimit(60)]
#[verifier::spinoff_prover]
pub proof fn law_layout_h_scaling(s: Seq<bool>, p: nat, x: HevcScalingListDataModel, q: nat)
    ensures
        h_scaling_at(s, p) == Ok::<(HevcScalingListDataModel, nat), Fault>((x, q)) ==> ({
            let b = cursor(s, p).next(|p: nat| h_entries_at(s, p, 20));
            &&& cursor(s, p).part(|p: nat| h_entries_at(s, p, 20), b).ends(q)
            &&& forall|size: int, m: int|
                0 <= size < 3 && 0 <= m < 6 ==> #[trigger] x.pred_mode_flag[size][m] == b[6 * size + m].pred
            &&& forall|size: int, m: int|
                0 <= size < 3 && 0 <= m < 6 ==> #[trigger] x.pred_matrix_id_delta[size][m] == b[6 * size
                    + m].delta
            &&& forall|m: int|
                0 <= m < 6 ==> #[trigger] x.pred_mode_flag[3][m] == (m % 3 == 0 && b[18 + m / 3].pred)
            &&& forall|m: int|
                0 <= m < 6 ==> #[trigger] x.pred_matrix_id_delta[3][m] == if m % 3 == 0 {
                    b[18 + m / 3].delta
                } else {
                    0
                }
            &&& forall|m: int| 0 <= m < 6 ==> #[trigger] x.dc_coef_minus8[0][m] == b[12 + m].dc
            &&& forall|m: int|
                0 <= m < 6 ==> #[trigger] x.dc_coef_minus8[1][m] == if m % 3 == 0 {
                    b[18 + m / 3].dc
                } else {
                    0
                }
            &&& forall|m: int, i: int|
                0 <= m < 6 && 0 <= i < 16 ==> #[trigger] x.list_4x4[m][i] == if i < b[m].coefs.len() {
                    b[m].coefs[i]
                } else {
                    0
                }
            &&& forall|m: int, i: int|
                0 <= m < 6 && 0 <= i < 64 ==> #[trigger] x.list_8x8[m][i] == if i < b[6 + m].coefs.len() {
                    b[6 + m].coefs[i]
                } else {
                    0
                }
            &&& forall|m: int, i: int|
                0 <= m < 6 && 0 <= i < 64 ==> #[trigger] x.list_16x16[m][i] == if i < b[12 + m].coefs.len() {
                    b[12 + m].coefs[i]
                } else {
                    0
                }
            &&& forall|m: int, i: int|
                0 <= m < 6 && 0 <= i < 64 ==> #[trigger] x.list_32x32[m][i] == if m % 3 == 0 && i < b[18 + m
                    / 3].coefs.len() {
                    b[18 + m / 3].coefs[i]
                } else {
                    0
                }
        }),
{
    reveal(h_scaling_at);
    reveal(h_entries_at);
    lemma_rep_step(h_entries_item(s), p, 20);
}

/// The deltas of an explicitly coded set run away from the picture: each lies one
/// more than the coded number behind the one before it.
pub proof fn law_explicit_rps(neg: Seq<(u32, bool)>, pos: Seq<(u32, bool)>, i: int)
    requires
        neg.len() <= 16,
        pos.len() <= 16,
        forall|k: int| 0 <= k < neg.len() ==> #[trigger] neg[k].0 <= 32767,
        forall|k: int| 0 <= k < pos.len() ==> #[trigger] pos[k].0 <= 32767,
    ensures
        ({
            let x = explicit_rps(neg, pos);
            &&& x.delta_poc_s0.len() == neg.len() && x.used_by_curr_pic_s0.len() == neg.len()
            &&& x.delta_poc_s1.len() == pos.len() && x.used_by_curr_pic_s1.len() == pos.len()
            &&& 0 <= i < neg.len() ==> {
                &&& x.used_by_curr_pic_s0[i] == neg[i].1
                &&& x.delta_poc_s0[i] == (if i == 0 {
                    0
                } else {
                    x.delta_poc_s0[i - 1] as int
                }) - (neg[i].0 + 1)
            }
            &&& 0 <= i < pos.len() ==> {
                &&& x.used_by_curr_pic_s1[i] == pos[i].1
                &&& x.delta_poc_s1[i] == (if i == 0 {
                    0
                } else {
                    x.delta_poc_s1[i - 1] as int
                }) + (pos[i].0 + 1)
            }
        }),
{
    if 0 <= i < neg.len() {
        lemma_poc_sum_small(neg, i as nat);
        lemma_poc_sum_small(neg, (i + 1) as nat);
    }
    if 0 <= i < pos.len() {
        lemma_poc_sum_small(pos, i as nat);
        lemma_poc_sum_small(pos, (i + 1) as nat);
    }
}

proof fn lemma_poc_sum_small(v: Seq<(u32, bool)>, n: nat)
    requires
        n <= v.len(),
        forall|k: int| 0 <= k < v.len() ==> #[trigger] v[k].0 <= 32767,
    ensures
        0 <= poc_sum(v, n) <= 32768 * n,
    decreases n,
{
    if n > 0 {
        lemma_poc_sum_small(v, (n - 1) as nat);
    }
}

/// An explicitly coded set is the numbers of its negative and of its positive
/// pictures, then the negative ones and then the positive ones.
pub proof fn law_layout_explicit_rps(s: Seq<bool>, p: nat, max_dec: u32, x: HevcShortTermRpsModel, q: nat)
    ensures
        explicit_rps_at(s, p, max_dec) == Ok::<(HevcShortTermRpsModel, nat), Fault>((x, q)) <==> ({
            let c = cursor(s, p);
            let num_neg = c.next_ue();
            let c = c.ue(num_neg);
            let num_pos = c.next_ue();
            let c = c.ue(num_pos);
            let neg = c.next(|p: nat| h_pocs_at(s, p, num_neg as u64));
            let c = c.part(|p: nat| h_pocs_at(s, p, num_neg as u64), neg);
            let pos = c.next(|p: nat| h_pocs_at(s, p, num_pos as u64));
            &&& c.part(|p: nat| h_pocs_at(s, p, num_pos as u64), pos).ends(q)
            &&& num_neg + num_pos <= max_dec
            &&& x == explicit_rps(neg, pos)
        }),
{
}

/// A predicted set is the sign and the size of its shift, and two flags for each
/// picture of the set before it and one more.
pub proof fn law_layout_predicted_rps(
    s: Seq<bool>,
    p: nat,
    prev: HevcShortTermRpsModel,
    x: HevcShortTermRpsModel,
    q: nat,
)
    ensures
        predicted_rps_at(s, p, prev) == Ok::<(HevcShortTermRpsModel, nat), Fault>((x, q)) <==> ({
            let c = cursor(s, p);
            let sign = c.next_flag();
            let c = c.flag(sign);
            let abs_minus1 = c.next_ue();
            let c = c.ue(abs_minus1);
            let n = (prev.delta_poc_s0.len() + prev.delta_poc_s1.len() + 1) as u64;
            let flags = c.next(|p: nat| h_flag_pairs_at(s, p, n));
            &&& c.part(|p: nat| h_flag_pairs_at(s, p, n), flags).ends(q)
            &&& abs_minus1 <= 32767
            &&& x == predicted_rps(
                prev,
                if sign {
                    -1 - abs_minus1
                } else {
                    1 + abs_minus1
                },
                flags,
            )
        }),
{
}

/// The pictures of a predicted set are those of the set before it, and the picture
/// itself, shifted by `delta_rps`, where the flag says that they are kept. Picture
/// `j` goes with pair `j` of the flags: negative ones first, then positive ones, then
/// the picture itself. A shifted picture before the current one goes to the negative
/// side, one behind it to the positive side, and the first flag is its used flag.
pub proof fn law_predicted_rps(
    prev: HevcShortTermRpsModel,
    delta_rps: int,
    flags: Seq<(bool, bool)>,
    k: int,
    v: int,
    used: bool,
)
    requires
        rps_sorted(prev),
        rps_fits(prev, k),
        0 <= k < 64,
        -32768 <= delta_rps <= 32768,
        flags.len() == prev.delta_poc_s0.len() + prev.delta_poc_s1.len() + 1,
    ensures
        ({
            let x = predicted_rps(prev, delta_rps, flags);
            let olds = prev.delta_poc_s0 + prev.delta_poc_s1 + seq![0i32];
            let kept = exists|j: int|
                0 <= j < flags.len() && #[trigger] flags[j] == (used, true) && v == olds[j] + delta_rps;
            &&& (exists|i: int|
                0 <= i < x.delta_poc_s0.len() && #[trigger] x.delta_poc_s0[i] == v && x.used_by_curr_pic_s0[i]
                    == used) <==> v < 0 && kept
            &&& (exists|i: int|
                0 <= i < x.delta_poc_s1.len() && #[trigger] x.delta_poc_s1[i] == v && x.used_by_curr_pic_s1[i]
                    == used) <==> v > 0 && kept
            &&& rps_sorted(x)
        }),
{
    lemma_predicted_sorted(prev, delta_rps, flags, k);
    lemma_predicted_has(prev, delta_rps, flags, k, v, used, true);
    lemma_predicted_has(prev, delta_rps, flags, k, v, used, false);
}

#[verifier::rlimit(60)]
#[verifier::spinoff_prover]
proof fn lemma_predicted_has(
    prev: HevcShortTermRpsModel,
    delta_rps: int,
    flags: Seq<(bool, bool)>,
    k: int,
    v: int,
    used: bool,
    negative: bool,
)
    requires
        rps_sorted(prev),
        rps_fits(prev, k),
        0 <= k < 64,
        -32768 <= delta_rps <= 32768,
        flags.len() == prev.delta_poc_s0.len() + prev.delta_poc_s1.len() + 1,
    ensures
        ({
            let cs = picked(rps_ordered(prev, delta_rps, flags, negative), negative);
            let olds = prev.delta_poc_s0 + prev.delta_poc_s1 + seq![0i32];
            (exists|i: int|
                0 <= i < deltas_of(cs).len() && #[trigger] deltas_of(cs)[i] == v && used_of(cs)[i] == used) <==> (
            if negative {
                v < 0
            } else {
                v > 0
            }) && exists|j: int|
                0 <= j < flags.len() && #[trigger] flags[j] == (used, true) && v == olds[j] + delta_rps
        }),
{
    let all = rps_ordered(prev, delta_rps, flags, negative);
    let cs = picked(all, negative);
    let olds = prev.delta_poc_s0 + prev.delta_poc_s1 + seq![0i32];
    let neg = prev.delta_poc_s0.len() as int;
    let pos = prev.delta_poc_s1.len() as int;
    assert(deltas_bounded(prev, k));
    lemma_predicted_side(prev, delta_rps, flags, negative, k);
    if exists|i: int| 0 <= i < deltas_of(cs).len() && #[trigger] deltas_of(cs)[i] == v && used_of(cs)[i] == used {
        let i = choose|i: int|
            0 <= i < deltas_of(cs).len() && #[trigger] deltas_of(cs)[i] == v && used_of(cs)[i] == used;
        let m = lemma_picked_from(all, negative, i);
        let j = if negative {
            negative_order(prev, m)
        } else {
            positive_order(prev, m)
        };
        assert(all[m] == rps_candidate(prev, delta_rps, flags, j));
        assert(flags[j] == (used, true));
        assert(v == olds[j] + delta_rps);
    }
    if (if negative {
        v < 0
    } else {
        v > 0
    }) && exists|j: int| 0 <= j < flags.len() && #[trigger] flags[j] == (used, true) && v == olds[j] + delta_rps {
        let j = choose|j: int|
            0 <= j < flags.len() && #[trigger] flags[j] == (used, true) && v == olds[j] + delta_rps;
        let m = if negative {
            if j < neg {
                pos + 1 + j
            } else if j < neg + pos {
                neg + pos - 1 - j
            } else {
                pos
            }
        } else {
            if j < neg {
                neg - 1 - j
            } else if j < neg + pos {
                j + 1
            } else {
                neg
            }
        };
        assert(all[m] == rps_candidate(prev, delta_rps, flags, j));
        let i = lemma_picked_keeps(all, negative, m);
        assert(deltas_of(cs)[i] == v && used_of(cs)[i] == used);
    }
}

proof fn lemma_picked_keeps(cs: Seq<RpsCandidate>, negative: bool, m: int) -> (i: int)
    requires
        0 <= m < cs.len(),
        on_side(cs[m], negative),
    ensures
        0 <= i < picked(cs, negative).len(),
        picked(cs, negative)[i] == cs[m],
    decreases cs.len(),
{
    if m == cs.len() - 1 {
        picked(cs, negative).len() - 1
    } else {
        assert(cs.drop_last()[m] == cs[m]);
        lemma_picked_keeps(cs.drop_last(), negative, m)
    }
}

/// The sets stand one behind the other. Behind the first one a flag tells whether a
/// set is predicted from the one before it.
#[verifier::rlimit(60)]
#[verifier::spinoff_prover]
pub proof fn law_layout_h_rps_list(
    s: Seq<bool>,
    p: nat,
    max_dec: u32,
    n: u64,
    xs: Seq<HevcShortTermRpsModel>,
    q: nat,
)
    ensures
        h_rps_list_at(s, p, max_dec, n) == Ok::<(Seq<HevcShortTermRpsModel>, nat), Fault>((xs, q)) <==> if n
            == 0 {
            xs.len() == 0 && q == p
        } else {
            let c = cursor(s, p).part(|p: nat| h_rps_list_at(s, p, max_dec, (n - 1) as u64), xs.drop_last());
            &&& xs.len() == n
            &&& if n > 1 && c.next_flag() {
                c.skip(1).part(|p: nat| predicted_rps_at(s, p, xs[n - 2]), xs.last()).ends(q)
            } else {
                c.skip_if(n > 1, 1).part(|p: nat| explicit_rps_at(s, p, max_dec), xs.last()).ends(q)
            }
        },
{
    reveal(h_rps_list_at);
    reveal(flag_if);
    reveal(adv_if);
    let f = h_rps_item(s, max_dec);
    lemma_rep_step(f, p, n as nat);
    if xs.len() == 0 {
        assert(xs =~= Seq::empty());
    } else {
        assert(xs =~= xs.drop_last().push(xs.last()));
    }
    if n > 0 {
        lemma_rep_step(f, p, (n - 1) as nat);
        if let Ok((done, r)) = rep_at(f, p, (n - 1) as nat) {
            if let Ok((y, z)) = f(done, r) {
                assert(done.push(y).drop_last() =~= done);
            }
        }
    }
}

/// slice_segment_address has as many bits as it takes to number the coding tree
/// blocks of the picture, and the blocks are as many as it takes to cover it.
pub proof fn law_segment_address(width: u32, height: u32, ctb_log2: u32)
    requires
        3 <= ctb_log2 <= 6,
        width > 0,
        height > 0,
    ensures
        ({
            let w = blocks(width, ctb_log2);
            let h = blocks(height, ctb_log2);
            let n = segment_address_len(width, height, ctb_log2);
            &&& (w - 1) * pow2(ctb_log2 as nat) < width <= w * pow2(ctb_log2 as nat)
            &&& (h - 1) * pow2(ctb_log2 as nat) < height <= h * pow2(ctb_log2 as nat)
            &&& n <= 32
            &&& n < 32 ==> w * h <= pow2(n as nat)
            &&& n > 0 ==> pow2((n - 1) as nat) < w * h
        }),
{
    lemma2_to64();
    let w = blocks(width, ctb_log2);
    let h = blocks(height, ctb_log2);
    lemma_blocks(width, ctb_log2);
    lemma_blocks(height, ctb_log2);
    assert(w * h >= 1) by (nonlinear_arith)
        requires
            w >= 1,
            h >= 1,
    ;
    let c = (w * h) as nat;
    if c > 1 {
        lemma_log2((c - 1) as nat);
        if ceil_log2(c) > 32 {
            lemma_pow2_le(31, (ceil_log2(c) - 1) as nat);
        }
    }
}

proof fn lemma_blocks(n: u32, log2_size: u32)
    requires
        n > 0,
        3 <= log2_size <= 6,
    ensures
        blocks(n, log2_size) >= 1,
        (
            blocks(n, log2_size) - 1
        ) * pow2(log2_size as nat) < n <= blocks(n, log2_size) * pow2(log2_size as nat),
{
    lemma2_to64();
    let m = pow2(log2_size as nat) as int;
    assert(m > 0);
    let w = (n + m - 1) / m;
    assert((w - 1) * m < n <= w * m) by (nonlinear_arith)
        requires
            m > 0,
            w == (n + m - 1) / m,
    ;
    assert(w >= 1) by (nonlinear_arith)
        requires
            m > 0,
            0 < n <= w * m,
    ;
}

/// The sample aspect ratios by `aspect_ratio_idc`, from 1 to 16.
pub proof fn law_table_aspect_ratio(idc: u8)
    ensures
        table_aspect_ratio(idc) == if 1 <= idc <= 16 {
            let w = seq![1u16, 12, 10, 16, 40, 24, 20, 32, 80, 18, 15, 64, 160, 4, 3, 2];
            let h = seq![1u16, 11, 11, 11, 33, 11, 11, 11, 33, 11, 11, 33, 99, 3, 2, 1];
            Some((w[idc - 1], h[idc - 1]))
        } else {
            None
        },
{
}

/// A chroma sample covers 2x2 luma samples with 4:2:0, 2x1 with 4:2:2, and one
/// otherwise, and a window never cuts off more than there is.
pub proof fn law_chroma_units(chroma_format_idc: u8, size: u32, cut: nat)
    ensures
        sub_width_of(chroma_format_idc) * sub_height_of(chroma_format_idc) == if chroma_format_idc == 1 {
            4int
        } else if chroma_format_idc == 2 {
            2
        } else {
            1
        },
        1 <= sub_height_of(chroma_format_idc) <= sub_width_of(chroma_format_idc),
        0 <= cropped(size, cut as int) <= size,
        cut <= size ==> cropped(size, cut as int) + cut == size,
        cut > size ==> cropped(size, cut as int) == 0,
{
}

/// NAL unit `i` is the first of type `t` that has a whole header.
pub open spec fn first_of_type(nals: Seq<Seq<u8>>, i: int, t: int) -> bool {
    &&& 0 <= i < nals.len()
    &&& nals[i].len() >= 2 && nals[i][0] / 2 % 64 == t
    &&& forall|j: int| 0 <= j < i ==> !((#[trigger] nals[j]).len() >= 2 && nals[j][0] / 2 % 64 == t)
}

/// NAL unit `k` is the first slice of an entry point.
pub open spec fn first_entry_point(nals: Seq<Seq<u8>>, k: int) -> bool {
    &&& 0 <= k < nals.len()
    &&& nals[k].len() >= 2 && 19 <= nals[k][0] / 2 % 64 <= 21
    &&& forall|j: int| 0 <= j < k ==> !((#[trigger] nals[j]).len() >= 2 && 19 <= nals[j][0] / 2 % 64 <= 21)
}

/// What is found in a stream: the first VPS (type 32), the first SPS (33), the first
/// PPS (34) and the slice header of the first entry point (19 to 21), read under that
/// SPS and PPS. All of them are owed, wherever they stand, if and only if they are
/// there and can be parsed.
pub proof fn law_idr_found(b: Seq<u8>, v: int, s: int, p: int, k: int)
    requires
        first_of_type(nals_of(b), v, 32),
        first_of_type(nals_of(b), s, 33),
        first_of_type(nals_of(b), p, 34),
        first_entry_point(nals_of(b), k),
    ensures
        ({
            let nals = nals_of(b);
            match (vps_of_nal(nals[v]), sps_of_nal(nals[s]), pps_of_nal(nals[p])) {
                (Ok(vps), Ok(sps), Ok(pps)) => match slice_of_nal(nals[k], sps, pps) {
                    Ok(sh) => idr_of(b) == Ok::<
                        (HevcVps, HevcSpsModel, HevcPpsModel, HevcSliceHeader, int),
                        Fault,
                    >((vps, sps, pps, sh, k)),
                    Err(f) => idr_of(b) == Err::<
                        (HevcVps, HevcSpsModel, HevcPpsModel, HevcSliceHeader, int),
                        Fault,
                    >(f),
                },
                _ => idr_of(b) is Err,
            }
        }),
{
    let nals = nals_of(b);
    lemma_walk_found(nals, nals.len());
}

/// Nothing is found in a stream that lacks a parameter set or an entry point.
pub proof fn law_idr_missing(b: Seq<u8>)
    ensures
        idr_of(b) is Ok ==> {
            let nals = nals_of(b);
            &&& exists|i: int| first_of_type(nals, i, 32)
            &&& exists|i: int| first_of_type(nals, i, 33)
            &&& exists|i: int| first_of_type(nals, i, 34)
            &&& exists|i: int| first_entry_point(nals, i)
        },
{
    let nals = nals_of(b);
    lemma_walk_found(nals, nals.len());
}

#[verifier::rlimit(60)]
#[verifier::spinoff_prover]
proof fn lemma_walk_found(nals: Seq<Seq<u8>>, n: nat)
    requires
        n <= nals.len(),
    ensures
        match walk(nals, n) {
            Ok(w) => {
                &&& match w.vps {
                    Some(x) => exists|i: int| first_of_type(nals, i, 32)
                        && i < n
                        && vps_of_nal(nals[i]) == Ok::<HevcVps, Fault>(x),
                    None => forall|i: int| 0 <= i < n
                        ==> !((#[trigger] nals[i]).len() >= 2 && nals[i][0] / 2 % 64 == 32),
                }
                &&& match w.sps {
                    Some(x) => exists|i: int| first_of_type(nals, i, 33)
                        && i < n
                        && sps_of_nal(nals[i]) == Ok::<HevcSpsModel, Fault>(x),
                    None => forall|i: int| 0 <= i < n
                        ==> !((#[trigger] nals[i]).len() >= 2 && nals[i][0] / 2 % 64 == 33),
                }
                &&& match w.pps {
                    Some(x) => exists|i: int| first_of_type(nals, i, 34)
                        && i < n
                        && pps_of_nal(nals[i]) == Ok::<HevcPpsModel, Fault>(x),
                    None => forall|i: int| 0 <= i < n
                        ==> !((#[trigger] nals[i]).len() >= 2 && nals[i][0] / 2 % 64 == 34),
                }
                &&& match w.irap {
                    Some(k) => first_entry_point(nals, k) && k < n,
                    None => forall|i: int| 0 <= i < n
                        ==> !((#[trigger] nals[i]).len() >= 2 && 19 <= nals[i][0] / 2 % 64 <= 21),
                }
            },
            Err(_) => {
                ||| exists|i: int| first_of_type(nals, i, 32) && vps_of_nal(nals[i]) is Err
                ||| exists|i: int| first_of_type(nals, i, 33) && sps_of_nal(nals[i]) is Err
                ||| exists|i: int| first_of_type(nals, i, 34) && pps_of_nal(nals[i]) is Err
            },
        },
    decreases n,
{
    if n > 0 {
        lemma_walk_found(nals, (n - 1) as nat);
        if let Ok(w) = walk(nals, (n - 1) as nat) {
            let nal = nals[n - 1];
            if nal.len() >= 2 {
                let t = nal[0] / 2 % 64;
                if t == 32 && w.vps is None {
                    assert(first_of_type(nals, n - 1, 32));
                }
                if t == 33 && w.sps is None {
                    assert(first_of_type(nals, n - 1, 33));
                }
                if t == 34 && w.pps is None {
                    assert(first_of_type(nals, n - 1, 34));
                }
                if 19 <= t <= 21 && w.irap is None {
                    assert(first_entry_point(nals, n - 1));
                }
            }
        }
    }
}

/// An access unit delimiter is three bits of picture type and the stop bit, in a NAL
/// unit of type 35.
pub proof fn law_aud_nal(b: Seq<u8>, x: HevcAccessUnitDelimiter)
    ensures
        aud_of_nal(b) == Ok::<HevcAccessUnitDelimiter, Fault>(x) <==> ({
            let s = bits_of(unescape(b.skip(2)));
            &&& b.len() >= 3
            &&& b[0] / 2 % 64 == 35
            &&& cursor(s, 0).u8(3, x.pic_type).part(|p: nat| tail_at(s, p, false), Seq::empty()).ends(s.len())
        }),
        b.len() < 2 ==> aud_of_nal(b) == Err::<HevcAccessUnitDelimiter, Fault>(Fault::End),
        b.len() >= 2 && b[0] / 2 % 64 != 35 ==> aud_of_nal(b) == Err::<HevcAccessUnitDelimiter, Fault>(
            Fault::Invalid,
        ),
{
    reveal(tail_at);
    reveal(adv);
}

/// Reading the coefficients fails only as invalid.
pub broadcast proof fn law_faults_h_coefs(s: Seq<bool>, p: nat, n: u64, start: i32)
    ensures
        #[trigger] h_coefs_at(s, p, n, start) matches Err(f) ==> f == Fault::Invalid,
{
    broadcast use crate::bits::law_faults_se;

    reveal(h_coefs_at);
    lemma_rep_faults(h_coef_item(s, start), p, n as nat, |f: Fault| f == Fault::Invalid);
}

/// Reading the scaling lists fails only as invalid.
pub broadcast proof fn law_faults_h_scaling(s: Seq<bool>, p: nat)
    ensures
        #[trigger] h_scaling_at(s, p) matches Err(f) ==> f == Fault::Invalid,
{
    broadcast use law_faults_h_entries;

    reveal(h_scaling_at);
}

/// Reading the sets fails only as invalid.
pub broadcast proof fn law_faults_h_rps_list(s: Seq<bool>, p: nat, max_dec: u32, n: u64)
    ensures
        #[trigger] h_rps_list_at(s, p, max_dec, n) matches Err(f) ==> f == Fault::Invalid,
{
    broadcast use {crate::bits::law_faults_ue, law_faults_h_pocs, law_faults_h_flag_pairs};

    reveal(h_rps_list_at);
    lemma_rep_faults(h_rps_item(s, max_dec), p, n as nat, |f: Fault| f == Fault::Invalid);
}

/// Each field of the model of a [`HevcScalingListData`] is the field of that name.
pub proof fn law_fields_of_scaling_list_data(x: HevcScalingListData)
    ensures
        x@.pred_mode_flag == seq_view(x.pred_mode_flag@),
        x@.pred_matrix_id_delta == seq_view(x.pred_matrix_id_delta@),
        x@.dc_coef_minus8 == seq_view(x.dc_coef_minus8@),
        x@.list_4x4 == seq_view(x.list_4x4@),
        x@.list_8x8 == seq_view(x.list_8x8@),
        x@.list_16x16 == seq_view(x.list_16x16@),
        x@.list_32x32 == seq_view(x.list_32x32@),
{
}

/// Each field of the model of a [`HevcShortTermRps`] is the field of that name.
pub proof fn law_fields_of_short_term_rps(x: HevcShortTermRps)
    ensures
        x@.delta_poc_s0 == x.delta_poc_s0@,
        x@.used_by_curr_pic_s0 == x.used_by_curr_pic_s0@,
        x@.delta_poc_s1 == x.delta_poc_s1@,
        x@.used_by_curr_pic_s1 == x.used_by_curr_pic_s1@,
{
}

/// The NAL units of a stream and where their start codes stand: each reaches from its
/// start code to the next one or to the end, and what stands before the first start code
/// is passed over. A stream without a start code has none.
pub proof fn law_nal_places(b: Seq<u8>, k: int)
    requires
        0 <= k < starts_of(b).len(),
    ensures
        nals_of(b).len() == starts_of(b).len(),
        starts_of(b)[0] == next_start(b, 0),
        ({
            let e = starts_of(b)[k];
            let body = e + start_code(b, e);
            &&& 0 <= e < b.len() && start_code(b, e) > 0
            &&& nals_of(b)[k] == b.subrange(body, next_start(b, body))
            &&& if k + 1 < starts_of(b).len() {
                starts_of(b)[k + 1] == next_start(b, body) < b.len()
            } else {
                next_start(b, body) == b.len()
            }
        }),
        next_start(b, 0) >= b.len() <==> starts_of(b).len() == 0,
{
    law_next_start(b, 0, 0);
    law_nals_are_bodies(b);
    lemma_starts(b, next_start(b, 0), k);
}

proof fn lemma_starts(b: Seq<u8>, e: int, k: int)
    requires
        0 <= e <= b.len(),
        e < b.len() ==> start_code(b, e) > 0,
        0 <= k < starts_from(b, e).len(),
    ensures
        ({
            let v = starts_from(b, e);
            let body = v[k] + start_code(b, v[k]);
            &&& v[0] == e
            &&& 0 <= v[k] < b.len() && start_code(b, v[k]) > 0
            &&& if k + 1 < v.len() {
                v[k + 1] == next_start(b, body) < b.len()
            } else {
                next_start(b, body) == b.len()
            }
        }),
    decreases b.len() - e,
{
    let body = e + start_code(b, e);
    let n = next_start(b, body);
    law_next_start(b, body, body);
    let rest = starts_from(b, n);
    assert(starts_from(b, e) =~= seq![e] + rest);
    if k > 0 {
        lemma_starts(b, n, k - 1);
    } else if rest.len() > 0 {
        lemma_starts(b, n, 0);
    }
}

/// The displayed picture is the coded one without what the conformance window cuts off
/// at the left and the right, or at the top and the bottom, counted in chroma samples. A
/// window that cuts off more than there is leaves nothing.
pub proof fn law_display_size(x: HevcSps, w: u32, h: u32)
    requires
        call_ensures(HevcSps::display_width, (&x,), w),
        call_ensures(HevcSps::display_height, (&x,), h),
    ensures
        x.conformance_window is None
            ==> w == x.pic_width_in_luma_samples
            && h == x.pic_height_in_luma_samples,
        x.conformance_window matches Some(c) ==> {
            let cut_w = (c.left + c.right) * if x.chroma_format_idc == 1 || x.chroma_format_idc == 2 {
                2int
            } else {
                1
            };
            let cut_h = (c.top + c.bottom) * if x.chroma_format_idc == 1 {
                2int
            } else {
                1
            };
            &&& cut_w <= x.pic_width_in_luma_samples ==> w + cut_w == x.pic_width_in_luma_samples
            &&& cut_w > x.pic_width_in_luma_samples ==> w == 0
            &&& cut_h <= x.pic_height_in_luma_samples ==> h + cut_h == x.pic_height_in_luma_samples
            &&& cut_h > x.pic_height_in_luma_samples ==> h == 0
        },
{
}

/// [`parse_vps_nal`] gives the VPS that the bytes hold, or an error of its class.
pub proof fn law_parse_vps_nal(nal: &[u8], res: Result<HevcVps, BitstreamError>)
    requires
        call_ensures(parse_vps_nal, (nal,), res),
    ensures
        match res {
            Ok(v) => vps_of_nal(nal@) == Ok::<HevcVps, Fault>(v),
            Err(e) => vps_of_nal(nal@) == Err::<HevcVps, Fault>(e.fault()),
        },
{
}

/// [`parse_sps_nal`] gives the SPS that the bytes hold, or an error of its class.
pub proof fn law_parse_sps_nal(nal: &[u8], res: Result<HevcSps, BitstreamError>)
    requires
        call_ensures(parse_sps_nal, (nal,), res),
    ensures
        match res {
            Ok(v) => sps_of_nal(nal@) == Ok::<HevcSpsModel, Fault>(v@),
            Err(e) => sps_of_nal(nal@) == Err::<HevcSpsModel, Fault>(e.fault()),
        },
{
}

/// [`parse_pps_nal`] gives the PPS that the bytes hold, or an error of its class.
pub proof fn law_parse_pps_nal(nal: &[u8], res: Result<HevcPps, BitstreamError>)
    requires
        call_ensures(parse_pps_nal, (nal,), res),
    ensures
        match res {
            Ok(v) => pps_of_nal(nal@) == Ok::<HevcPpsModel, Fault>(v@),
            Err(e) => pps_of_nal(nal@) == Err::<HevcPpsModel, Fault>(e.fault()),
        },
{
}

/// [`parse_aud_nal`] gives the delimiter that the bytes hold, or an error of its class.
pub proof fn law_parse_aud_nal(nal: &[u8], res: Result<HevcAccessUnitDelimiter, BitstreamError>)
    requires
        call_ensures(parse_aud_nal, (nal,), res),
    ensures
        match res {
            Ok(v) => aud_of_nal(nal@) == Ok::<HevcAccessUnitDelimiter, Fault>(v),
            Err(e) => aud_of_nal(nal@) == Err::<HevcAccessUnitDelimiter, Fault>(e.fault()),
        },
{
}

/// [`parse_slice_header_minimal`] gives the slice header that the bytes hold, or an error of its class.
pub proof fn law_parse_slice_header_minimal(
    nal: &[u8],
    sps: &HevcSps,
    pps: &HevcPps,
    res: Result<HevcSliceHeader,
    BitstreamError>,
)
    requires
        call_ensures(parse_slice_header_minimal, (nal, sps, pps,), res),
    ensures
        match res {
            Ok(v) => slice_of_nal(nal@, sps@, pps@) == Ok::<HevcSliceHeader, Fault>(v),
            Err(e) => slice_of_nal(nal@, sps@, pps@) == Err::<HevcSliceHeader, Fault>(e.fault()),
        },
{
}

/// The two bytes of a NAL unit header are a bit, six bits of type, six bits of layer id
/// and three bits of temporal id.
pub proof fn law_nal_header_fields(b0: u8, b1: u8, h: (u8, u8, u8, u8))
    requires
        call_ensures(nal_header, (b0, b1), h),
    ensures
        0x100 * b0 + b1 == 0x8000 * h.0 + 0x200 * h.1 + 8 * h.2 + h.3,
        h.0 < 2 && h.1 < 64 && h.2 < 64 && h.3 < 8,
{
}

/// The entry points are types 19, 20 and 21.
pub proof fn law_is_irap(t: u8, b: bool)
    requires
        call_ensures(is_irap, (t,), b),
    ensures
        b <==> 19 <= t <= 21,
{
}

/// The numbers of the pictures of a set.
pub proof fn law_num_pics(x: HevcShortTermRps, neg: usize, pos: usize, all: usize)
    requires
        call_ensures(HevcShortTermRps::num_negative_pics, (&x,), neg),
        call_ensures(HevcShortTermRps::num_positive_pics, (&x,), pos),
        call_ensures(HevcShortTermRps::num_delta_pocs, (&x,), all),
    ensures
        neg == x.delta_poc_s0@.len(),
        pos == x.delta_poc_s1@.len(),
        all == neg + pos,
{
}

/// The sample aspect ratio is coded itself for an `aspect_ratio_idc` of 255, else taken
/// from the table, and the picture rate is the time scale over the units in a tick.
pub proof fn law_vui_values(x: HevcVui, sar: Option<(u16, u16)>, rate: Option<(u32, u32)>)
    requires
        call_ensures(HevcVui::sample_aspect_ratio, (&x,), sar),
        call_ensures(HevcVui::picture_rate, (&x,), rate),
    ensures
        !x.aspect_ratio_info_present_flag ==> sar is None,
        x.aspect_ratio_info_present_flag
            && x.aspect_ratio_idc == 255
            ==> sar == Some((x.sar_width, x.sar_height)),
        x.aspect_ratio_info_present_flag && x.aspect_ratio_idc != 255 ==> sar == table_aspect_ratio(
            x.aspect_ratio_idc,
        ),
        rate is Some <==> x.vui_timing_info_present_flag && x.vui_num_units_in_tick > 0,
        rate matches Some(r) ==> r.0 == x.vui_time_scale && r.1 == x.vui_num_units_in_tick,
{
}

/// A written delimiter is the three bytes `46 01`, three bits of picture type, and
/// `10000`.
pub proof fn law_write_aud_nal(aud: HevcAccessUnitDelimiter, res: Result<Vec<u8>, BitstreamError>)
    requires
        call_ensures(write_aud_nal, (&aud,), res),
    ensures
        res is Ok <==> aud.pic_type <= 7,
        res matches Ok(v) ==> v@.len() == 3 && v@[0] == 0x46 && v@[1] == 1 && bits_of(v@.skip(2)) == put_trailing(
            put_u(Seq::empty(), aud.pic_type as nat, 3),
        ),
        res matches Err(e) ==> e.fault() == Fault::Invalid,
{
}

/// The first entry point is found with its parameter sets, its slice header, its type,
/// and the stream from its start code on.
pub proof fn law_parse_idr_only(stream: &[u8], res: Result<HevcIdrParse<'_>, BitstreamError>)
    requires
        call_ensures(parse_idr_only, (stream,), res),
    ensures
        match res {
            Ok(v) => {
                &&& idr_of(stream@) matches Ok((vps, sps, pps, sh, k))
                    && v.vps == vps
                    && v.sps@ == sps
                    && v.pps@
                    == pps && v.slice_header == sh && v.nal_unit_type == nals_of(stream@)[k][0] / 2 % 64
                    && v.idr_access_unit@ == stream@.skip(starts_of(stream@)[k])
            },
            Err(e) => idr_of(stream@) == Err::<(HevcVps, HevcSpsModel, HevcPpsModel, HevcSliceHeader, int), Fault>(
                e.fault(),
            ),
        },
{
}

} // verus!
