//! H.266 / VVC SEI (supplemental enhancement information): framing
//! plus the payload families defined inside H.266 itself.
//!
//! The `sei_rbsp()` / `sei_message()` framing is that of [`crate::sei`];
//! here are the typed decode and byte-exact encode for every SEI
//! payload whose syntax lives in H.266 Annex D:
//!
//! * `buffering_period()` (§D.3, payload type 0): self-contained
//!   (all `u(v)` widths come from its own length fields).
//! * `pic_timing()` (§D.4, type 1): widths and loop bounds come
//!   from the applicable buffering period, so decode/encode take a
//!   [`VvcBufferingPeriod`] and a `TemporalId` as context.
//! * `decoding_unit_info()` (§D.5, type 130): same context.
//! * `scalable_nesting()` (§D.6, type 133): carries nested
//!   `sei_message()`s, surfaced as raw [`SeiMessage`]s.
//! * `subpic_level_info()` (§D.7, type 203).
//! * `sei_manifest()` (§D.8, type 200).
//! * `sei_prefix_indication()` (§D.9, type 201).
//! * `constrained_rasl_encoding_indication()` (§D.10, type 207):
//!   an intentionally empty payload.
//!
//! Payload types of other families are surfaced raw as
//! [`VvcSei::Unknown`]: decoders skip unrecognised SEI payloads (§D.2.2).
use crate::bit_reader::{BitReader, read_is, read_seq_is, read_vec_is, read_view_is};
use crate::bit_writer::{BitWriter, fits_bits, us_fit, write_is};
use crate::bits::{
    POS_CAP, Read, adv, adv_if, align_at, bit_val, bits_left, bits_of, fits, flag_at, flag_if,
    flags_at, flags_ok, group_read_written, group_read_written_lists, group_write_read,
    group_write_read_lists, law_adv_within, law_faults_flags, law_faults_u8s, law_faults_ue,
    law_faults_ues, law_faults_us, law_fits_small, law_put_rep_at, law_put_u_at, law_rep_at_put,
    lemma_bits_of_concat, lemma_bits_of_injective, lemma_bits_of_len, lemma_pad_aligned,
    lemma_pre_put_u, lemma_put_flag_if_grows, lemma_put_flags_len, lemma_put_rep_grows,
    lemma_put_u8s_len, lemma_put_u_if_grows, lemma_put_u_shape, lemma_put_ue_grows,
    lemma_put_ues_grows, lemma_put_us_len, lemma_rep_err, lemma_rep_faults,
    lemma_rep_faults_none, lemma_rep_step, lemma_seq_view_push, lemma_uval_bound, opt_view,
    pad_len, pre, put_align, put_flag, put_flag_if, put_flags, put_rep, put_u, put_u8s,
    put_u_if, put_ue, put_ue_if, put_ues, put_us, read_some, rep_at, seq_view, u16_at, u32_at,
    u32_if, u8_at, u8_if, u8s_at, u8s_ok, ue_at, ue_fits, ue_if, ues_at, ues_ok, upto, us_at,
    us_ok, uval, within,
};
use crate::layout::cursor;
use crate::h266::aps::{all_at_most, are_at_most};
use crate::h266::params::{ceil_log2, ceil_log2_u64};
use crate::h266::{
    NAL_TYPE_PREFIX_SEI, NAL_TYPE_SUFFIX_SEI, law_rbsp_of_framed_nal, nal_header_of,
    nal_of_rbsp, nal_read_is, parse_nal_header,
};
use crate::nal::{ebsp_to_rbsp, unescape};
use crate::sei::{
    SeiMessageModel, copy_bytes, law_parse_written_sei, lemma_messages_read,
    lemma_messages_written, lemma_payload_closed, lemma_payload_end, parse_sei_messages,
    payload_end_at, payload_read, payload_write_is, put_payload_end, read_payload_alignment,
    sei_messages_at, sei_messages_bytes, sei_messages_of, sei_rbsp, write_sei_messages,
};
pub use crate::sei::{finish_payload, parse_sei_rbsp, write_sei_message, SeiMessage};
use crate::message::Message;
use crate::{BitstreamError, Fault};
use vstd::arithmetic::power2::{lemma2_to64, lemma_pow2_pos, lemma_pow2_unfold, pow2};
use vstd::prelude::*;
use vstd::slice::slice_subrange;

verus! {

/// §D.2.1 payloadType values for the in-H.266 families.
pub const SEI_TYPE_BUFFERING_PERIOD: u32 = 0;

pub const SEI_TYPE_PIC_TIMING: u32 = 1;

pub const SEI_TYPE_DECODING_UNIT_INFO: u32 = 130;

pub const SEI_TYPE_SCALABLE_NESTING: u32 = 133;

pub const SEI_TYPE_SEI_MANIFEST: u32 = 200;

pub const SEI_TYPE_SEI_PREFIX_INDICATION: u32 = 201;

pub const SEI_TYPE_SUBPIC_LEVEL_INFO: u32 = 203;

pub const SEI_TYPE_CONSTRAINED_RASL_ENCODING: u32 = 207;

/// The messages that the SEI NAL unit `b` holds, of either SEI type.
pub open spec fn sei_of_nal(b: Seq<u8>) -> Result<Seq<SeiMessageModel>, Fault> {
    match nal_header_of(b) {
        Err(f) => Err(f),
        Ok(h) => if h.nal_unit_type != NAL_TYPE_PREFIX_SEI && h.nal_unit_type != NAL_TYPE_SUFFIX_SEI {
            Err(Fault::Invalid)
        } else {
            sei_messages_of(unescape(b.skip(2)))
        },
    }
}

/// Parse a prefix- or suffix-SEI NAL (two-byte NAL header at index
/// 0..1) into raw messages.
pub fn parse_sei_nal(nal_body: &[u8]) -> (res: Result<Vec<SeiMessage>, BitstreamError>)
    ensures
        match sei_of_nal(nal_body@) {
            Ok(ms) => res matches Ok(v) && seq_view(v@) == ms,
            Err(f) => res matches Err(e) && e.fault() == f,
        },
{
    if nal_body.len() < 2 {
        return Err(BitstreamError::unexpected_end("H.266 SEI NAL needs at least the 2-byte header"));
    }
    let header = parse_nal_header(nal_body)?;
    if header.nal_unit_type != NAL_TYPE_PREFIX_SEI && header.nal_unit_type != NAL_TYPE_SUFFIX_SEI {
        return Err(
            Message::new("expected SEI NAL (type ")
                .num(NAL_TYPE_PREFIX_SEI as i128)
                .with("/")
                .num(NAL_TYPE_SUFFIX_SEI as i128)
                .with("), got ")
                .num(header.nal_unit_type as i128)
                .invalid(),
        );
    }
    proof {
        assert(nal_body@.subrange(2, nal_body@.len() as int) =~= nal_body@.skip(2));
    }
    let rbsp = ebsp_to_rbsp(slice_subrange(nal_body, 2, nal_body.len()));
    parse_sei_rbsp(rbsp.as_slice())
}

/// Emit a full SEI RBSP (with `rbsp_trailing_bits()`), the
/// byte-exact inverse of [`parse_sei_rbsp`].
pub fn write_sei_rbsp(messages: &[SeiMessage]) -> (res: Result<Vec<u8>, BitstreamError>)
    ensures
        match res {
            Ok(v) => messages@.len() > 0 && v@ == sei_messages_bytes(seq_view(messages@)) + seq![0x80u8],
            Err(e) => messages@.len() == 0 && e.fault() == Fault::Invalid,
        },
{
    sei_rbsp(messages, "§7.3.2.9")
}

/// The messages that were framed as an SEI NAL unit come back from it.
pub proof fn law_parse_written_sei_nal(ms: Seq<SeiMessageModel>, t: u8)
    requires
        ms.len() > 0,
        t == NAL_TYPE_PREFIX_SEI || t == NAL_TYPE_SUFFIX_SEI,
    ensures
        sei_of_nal(
            nal_of_rbsp(t, sei_messages_bytes(ms) + seq![0x80u8]),
        ) == Ok::<Seq<SeiMessageModel>, Fault>(ms),
{
    law_rbsp_of_framed_nal(t, sei_messages_bytes(ms) + seq![0x80u8]);
    law_parse_written_sei(ms);
}

// ─────────────────────────── Buffering period (§D.3) ────────────────────────

/// One initial-CPB-delay schedule entry (`j` loop body of §D.3.1).
/// All four values are `u(bp_cpb_initial_removal_delay_length_minus1
/// + 1)`-bit fields.
#[derive(Debug, Clone, Copy, Default, PartialEq, Eq)]
pub struct VvcInitialCpbDelays {
    pub removal_delay: u32,
    pub removal_offset: u32,
    /// `(alt_removal_delay, alt_removal_offset)` — coded iff
    /// `bp_du_hrd_params_present_flag`.
    pub alt: Option<(u32, u32)>,
}

/// `buffering_period()` (§D.3.1). Sublayer-indexed arrays hold coded
/// entries at the §D.3.1 loop indices
/// (`bp_sublayer_initial_cpb_removal_delay_present_flag ? 0 :
/// bp_max_sublayers_minus1 ..= bp_max_sublayers_minus1`) and stay
/// empty elsewhere.
#[derive(Debug, Clone, Default, PartialEq, Eq)]
pub struct VvcBufferingPeriod {
    pub bp_nal_hrd_params_present_flag: bool,
    pub bp_vcl_hrd_params_present_flag: bool,
    pub bp_cpb_initial_removal_delay_length_minus1: u8,
    pub bp_cpb_removal_delay_length_minus1: u8,
    pub bp_dpb_output_delay_length_minus1: u8,
    pub bp_du_hrd_params_present_flag: bool,
    pub bp_du_cpb_removal_delay_increment_length_minus1: u8,
    pub bp_dpb_output_delay_du_length_minus1: u8,
    pub bp_du_cpb_params_in_pic_timing_sei_flag: bool,
    pub bp_du_dpb_params_in_pic_timing_sei_flag: bool,
    pub bp_concatenation_flag: bool,
    pub bp_additional_concatenation_info_present_flag: bool,
    /// `u(bp_cpb_initial_removal_delay_length_minus1 + 1)`; coded iff
    /// the additional-concatenation flag is set.
    pub bp_max_initial_removal_delay_for_concatenation: u32,
    /// `u(bp_cpb_removal_delay_length_minus1 + 1)`.
    pub bp_cpb_removal_delay_delta_minus1: u32,
    /// 0..=7 as coded u(3); §D.3.2 further bounds it by
    /// `vps_max_sublayers_minus1`.
    pub bp_max_sublayers_minus1: u8,
    /// Coded iff `bp_max_sublayers_minus1 > 0`; inferred 0 otherwise.
    pub bp_cpb_removal_delay_deltas_present_flag: bool,
    /// 1..=16 entries (§D.3.2), each
    /// `u(bp_cpb_removal_delay_length_minus1 + 1)`.
    pub bp_cpb_removal_delay_delta_vals: Vec<u32>,
    /// 0..=31 (§D.3.2).
    pub bp_cpb_cnt_minus1: u32,
    /// Coded iff `bp_max_sublayers_minus1 > 0`; inferred 0 otherwise.
    pub bp_sublayer_initial_cpb_removal_delay_present_flag: bool,
    /// `bp_cpb_cnt_minus1 + 1` entries per coded sublayer, iff the
    /// NAL HRD flag is set.
    pub nal_initial_cpb: [Vec<VvcInitialCpbDelays>; 8],
    /// Same for the VCL HRD.
    pub vcl_initial_cpb: [Vec<VvcInitialCpbDelays>; 8],
    /// Coded iff `bp_max_sublayers_minus1 > 0`; inferred 0 otherwise.
    pub bp_sublayer_dpb_output_offsets_present_flag: bool,
    /// `bp_max_sublayers_minus1` entries iff the offsets flag is set.
    pub bp_dpb_output_tid_offsets: Vec<u32>,
    pub bp_alt_cpb_params_present_flag: bool,
    pub bp_use_alt_cpb_params_flag: bool,
}

impl VvcBufferingPeriod {
    /// First coded sublayer index of the initial-CPB loops (§D.3.1).
    pub fn first_coded_sublayer(&self) -> (n: usize)
        ensures
            n == if self.bp_sublayer_initial_cpb_removal_delay_present_flag {
                0
            } else {
                self.bp_max_sublayers_minus1
            },
    {
        if self.bp_sublayer_initial_cpb_removal_delay_present_flag {
            0
        } else {
            self.bp_max_sublayers_minus1 as usize
        }
    }
}

/// A pair of delays of `width` bits at position `p`.
#[verifier::opaque]
pub open spec fn delay_pair_at(s: Seq<bool>, p: nat, width: u32) -> Read<(u32, u32)> {
    let delay = u32_at(s, p, width as nat);
    let p = adv(p, width as nat);
    let offset = u32_at(s, p, width as nat);
    let p = adv(p, width as nat);
    Ok(((delay, offset), p))
}

/// The bits `a` followed by a pair of delays of `width` bits.
#[verifier::opaque]
pub open spec fn put_delay_pair(a: Seq<bool>, x: (u32, u32), width: u32) -> Seq<bool> {
    let a = put_u(a, x.0 as nat, width as nat);
    let a = put_u(a, x.1 as nat, width as nat);
    a
}

/// The values of a pair of delays of `width` bits that reading can give.
#[verifier::opaque]
pub open spec fn delay_pair_ok(x: (u32, u32), width: u32) -> bool {
    &&& fits(x.0 as nat, width as nat) && fits(x.1 as nat, width as nat)
}

/// The values of a pair of delays of `width` bits that the writer accepts.
#[verifier::opaque]
pub open spec fn delay_pair_can(x: (u32, u32), width: u32) -> bool {
    &&& fits(x.0 as nat, width as nat) && fits(x.1 as nat, width as nat)
}

/// Parses a pair of delays of `width` bits.
fn parse_delay_pair(r: &mut BitReader<'_>, width: u32) -> (res: Result<(u32, u32), BitstreamError>)
    requires
        width <= 32,
    ensures
        read_is(delay_pair_at(old(r).bits(), old(r).pos(), width), res, *old(r), *final(r)),
{
    proof {
        reveal(delay_pair_at);
    }
    let delay: u32 = r.u(width);
    let offset: u32 = r.u(width);
    Ok((delay, offset))
}

/// Emits a pair of delays of `width` bits, the inverse of [`parse_delay_pair`].
fn write_delay_pair(
    w: &mut BitWriter,
    x: &(u32, u32),
    width: u32,
    text: &str,
) -> (res: Result<(), BitstreamError>)
    requires
        width <= 32,
    ensures
        write_is(delay_pair_can(*x, width), put_delay_pair(old(w)@, *x, width), res, final(w)@),
{
    proof {
        reveal(put_delay_pair);
        reveal(delay_pair_can);
    }
    if !(fits_bits(x.0, width) && fits_bits(x.1, width)) {
        return Err(Message::new("").with(text).invalid());
    }
    w.write_bits(x.0, width);
    w.write_bits(x.1, width);
    Ok(())
}

/// Writing a pair of delays of `width` bits gives back the bits it was read
/// from.
pub broadcast proof fn law_put_delay_pair_at(s: Seq<bool>, p: nat, width: u32)
    requires
        width <= 32,
    ensures
        #[trigger] delay_pair_at(s, p, width) matches Ok((x, q)) ==> {
            &&& delay_pair_ok(x, width)
            &&& delay_pair_can(x, width)
            &&& within(s, q) ==> within(s, p) && put_delay_pair(upto(s, p), x, width) == upto(s, q)
        },
{
    broadcast use crate::bits::group_write_read;

    reveal(delay_pair_at);
    reveal(put_delay_pair);
    reveal(delay_pair_ok);
    reveal(delay_pair_can);
}

/// Reading gives back a pair of delays of `width` bits as it was written.
pub broadcast proof fn law_pre_put_delay_pair(a: Seq<bool>, x: (u32, u32), width: u32, s: Seq<bool>)
    requires
        #[trigger] pre(put_delay_pair(a, x, width), s),
        delay_pair_ok(x, width),
        width <= 32,
    ensures
        pre(a, s),
        delay_pair_can(x, width),
        delay_pair_at(s, a.len(), width) == Ok::<((u32, u32), nat), Fault>(
            (x, put_delay_pair(a, x, width).len()),
        ),
{
    broadcast use crate::bits::group_read_written;

    reveal(delay_pair_at);
    reveal(put_delay_pair);
    reveal(delay_pair_ok);
    reveal(delay_pair_can);
}

/// The layout of a pair of delays of `width` bits: reading at `p` gives `x` and
/// ends at `q` if and only if these elements stand there in this order.
pub proof fn law_layout_delay_pair(s: Seq<bool>, p: nat, width: u32, x: (u32, u32), q: nat)
    ensures
        delay_pair_at(s, p, width) == Ok::<((u32, u32), nat), Fault>((x, q)) <==> cursor(s, p)
            .u32(width as nat, x.0)
            .u32(width as nat, x.1)
            .ends(q),
{
    reveal(delay_pair_at);
}

/// Reading a pair of delays of `width` bits never fails.
pub broadcast proof fn law_faults_delay_pair(s: Seq<bool>, p: nat, width: u32)
    ensures
        #[trigger] delay_pair_at(s, p, width) is Ok,
{
    reveal(delay_pair_at);
}

/// What the writer accepts reads back: a pair of delays of `width` bits, where
/// each field fits its width and what is not coded has the value that is taken
/// for it.
pub proof fn law_reads_delay_pair(a: Seq<bool>, x: (u32, u32), width: u32, s: Seq<bool>)
    requires
        delay_pair_can(x, width),
        pre(put_delay_pair(a, x, width), s),
        width <= 32,
    ensures
        delay_pair_at(s, a.len(), width) == Ok::<((u32, u32), nat), Fault>(
            (x, put_delay_pair(a, x, width).len()),
        ),
{
    assert(delay_pair_ok(x, width)) by {
        broadcast use crate::bits::law_fits_small;

        reveal(delay_pair_ok);
        reveal(delay_pair_can);
    }
    law_pre_put_delay_pair(a, x, width, s);
}

/// Reads a pair of delays of `width` bits, behind the items before it.
pub open spec fn delay_pairs_item(
    s: Seq<bool>,
    width: u32,
) -> spec_fn(Seq<(u32, u32)>, nat) -> Read<(u32, u32)> {
    |done: Seq<(u32, u32)>, q: nat| delay_pair_at(s, q, width)
}

/// Writes a pair of delays of `width` bits, behind the items before it.
pub open spec fn put_delay_pairs_item(
    width: u32,
) -> spec_fn(Seq<bool>, Seq<(u32, u32)>, (u32, u32)) -> Seq<bool> {
    |a: Seq<bool>, done: Seq<(u32, u32)>, x: (u32, u32)| put_delay_pair(a, x, width)
}

/// Whether a pair of delays of `width` bits may follow the items before it.
pub open spec fn delay_pairs_item_ok(width: u32) -> spec_fn(Seq<(u32, u32)>, (u32, u32)) -> bool {
    |done: Seq<(u32, u32)>, x: (u32, u32)| delay_pair_ok(x, width) && delay_pair_can(x, width)
}

/// `n` items at position `p`, each a pair of delays of `width` bits.
#[verifier::opaque]
pub open spec fn delay_pairs_at(s: Seq<bool>, p: nat, width: u32, n: u64) -> Read<Seq<(u32, u32)>> {
    rep_at(delay_pairs_item(s, width), p, n as nat)
}

/// The bits `a` followed by the items.
#[verifier::opaque]
pub open spec fn put_delay_pairs(a: Seq<bool>, xs: Seq<(u32, u32)>, width: u32, n: u64) -> Seq<bool> {
    put_rep(put_delay_pairs_item(width), a, xs)
}

/// `n` items that reading can give.
#[verifier::opaque]
pub open spec fn delay_pairs_ok(xs: Seq<(u32, u32)>, width: u32, n: u64) -> bool {
    xs.len() == n
        && forall|i: int| 0 <= i < xs.len()
        ==> delay_pair_ok(#[trigger] xs[i], width)
        && delay_pair_can(xs[i], width)
}

/// `n` items that the writer accepts.
#[verifier::opaque]
pub open spec fn delay_pairs_can(xs: Seq<(u32, u32)>, width: u32, n: u64) -> bool {
    xs.len() == n && forall|i: int| 0 <= i < xs.len() ==> delay_pair_can(#[trigger] xs[i], width)
}

/// Parses `n` items, each a pair of delays of `width` bits.
fn parse_delay_pairs(
    r: &mut BitReader<'_>,
    width: u32,
    n: u64,
) -> (res: Result<Vec<(u32, u32)>, BitstreamError>)
    requires
        width <= 32,
    ensures
        read_vec_is(delay_pairs_at(old(r).bits(), old(r).pos(), width, n), res, *old(r), *final(r)),
        res matches Ok(v) ==> v@.len() == n,
{
    let ghost s = r.bits();
    let ghost p = r.pos();
    let ghost reads = delay_pairs_item(s, width);
    let mut xs: Vec<(u32, u32)> = Vec::new();
    let mut i: u64 = 0;
    proof {
        reveal(delay_pairs_at);
    }
    while i < n
        invariant
            i <= n,
            xs@.len() == i,
                width <= 32,
            reads == delay_pairs_item(s, width),
            s == r.bits(),
            s == old(r).bits(),
            p == old(r).pos(),
            r.bytes() == old(r).bytes(),
            rep_at(reads, p, i as nat) == Ok::<(Seq<(u32, u32)>, nat), Fault>((xs@, r.pos())),
        decreases n - i,
    {
        match parse_delay_pair(r, width) {
            Ok(x) => {
                xs.push(x);
            },
            Err(e) => {
                proof {
                    reveal(delay_pairs_at);
                    lemma_rep_err(reads, p, (i + 1) as nat, n as nat);
                }
                return Err(e);
            },
        }
        i = i + 1;
    }
    Ok(xs)
}

/// Emits `n` items, each a pair of delays of `width` bits.
fn write_delay_pairs(
    w: &mut BitWriter,
    xs: &Vec<(u32, u32)>,
    width: u32,
    n: u64,
    text: &str,
    name: &str,
    sublayer: usize,
) -> (res: Result<(), BitstreamError>)
    requires
        width <= 32,
    ensures
        write_is(delay_pairs_can(xs@, width, n), put_delay_pairs(old(w)@, xs@, width, n), res, final(w)@),
        res is Ok ==> xs@.len() == n,
{
    let ghost before = w@;
    let ghost puts = put_delay_pairs_item(width);
    let ghost ys = xs@;
    proof {
        reveal(put_delay_pairs);
        reveal(delay_pairs_can);
        assert(ys.take(0) =~= Seq::empty());
    }
    if xs.len() as u64 != n {
        return Err(
            Message::new("pic_timing ")
                .with(name)
                .with(" alt sublayer ")
                .num(sublayer as i128)
                .with(": initial-delta entries must be bp_cpb_cnt_minus1 + 1")
                .invalid(),
        );
    }
    let mut i: usize = 0;
    while i < xs.len()
        invariant
            i <= xs@.len(),
            xs@.len() == n,
            ys == xs@,
            ys.len() == xs@.len(),
                width <= 32,
            before == old(w)@,
            puts == put_delay_pairs_item(width),
            w@ == put_rep(puts, before, ys.take(i as int)),
            forall|j: int| 0 <= j < i ==> delay_pair_can(#[trigger] ys[j], width),
        ensures
            i == xs@.len(),
        decreases xs@.len() - i,
    {
        proof {
            assert(ys.take(i + 1).drop_last() =~= ys.take(i as int));
            assert(ys[i as int] == xs@[i as int]);
        }
        match write_delay_pair(w, &xs[i], width, text) {
            Ok(()) => {},
            Err(e) => {
                proof {
                    reveal(delay_pairs_can);
                }
                return Err(e);
            },
        }
        i = i + 1;
    }
    proof {
        assert(ys.take(i as int) =~= ys);
    }
    Ok(())
}

/// Writing what was read gives back the bits that were read.
pub broadcast proof fn law_put_delay_pairs_at(s: Seq<bool>, p: nat, width: u32, n: u64)
    requires
        width <= 32,
    ensures
        #[trigger] delay_pairs_at(s, p, width, n) matches Ok((xs, q)) ==> {
            &&& xs.len() == n
            &&& delay_pairs_ok(xs, width, n)
            &&& delay_pairs_can(xs, width, n)
            &&& within(s, q) ==> within(s, p) && put_delay_pairs(upto(s, p), xs, width, n) == upto(s, q)
        },
{
    broadcast use law_put_delay_pair_at;

    reveal(delay_pairs_at);
    reveal(put_delay_pairs);
    reveal(delay_pairs_ok);
    reveal(delay_pairs_can);
    let ok = delay_pairs_item_ok(width);
    law_put_rep_at(s, delay_pairs_item(s, width), put_delay_pairs_item(width), ok, p, n as nat);
    if let Ok((xs, q)) = delay_pairs_at(s, p, width, n) {
        assert forall|i: int| 0 <= i < xs.len() implies ok(xs.take(i), #[trigger] xs[i]) by {}
    }
}

/// What was written reads back as the items that were written.
pub broadcast proof fn law_pre_put_delay_pairs(
    a: Seq<bool>,
    xs: Seq<(u32, u32)>,
    width: u32,
    n: u64,
    s: Seq<bool>,
)
    requires
        #[trigger] pre(put_delay_pairs(a, xs, width, n), s),
        delay_pairs_ok(xs, width, n),
        width <= 32,
    ensures
        pre(a, s),
        delay_pairs_can(xs, width, n),
        delay_pairs_at(s, a.len(), width, n) == Ok::<(Seq<(u32, u32)>, nat), Fault>(
            (xs, put_delay_pairs(a, xs, width, n).len()),
        ),
{
    broadcast use law_pre_put_delay_pair;

    reveal(delay_pairs_at);
    reveal(put_delay_pairs);
    reveal(delay_pairs_ok);
    reveal(delay_pairs_can);
    law_rep_at_put(
        s,
        delay_pairs_item(s, width),
        put_delay_pairs_item(width),
        delay_pairs_item_ok(width),
        a,
        xs,
    );
}

/// `n` items stand one behind the other: `n - 1` items, and then a pair of
/// delays of `width` bits.
pub proof fn law_layout_delay_pairs(s: Seq<bool>, p: nat, width: u32, n: u64, xs: Seq<(u32, u32)>, q: nat)
    ensures
        delay_pairs_at(s, p, width, n) == Ok::<(Seq<(u32, u32)>, nat), Fault>((xs, q)) <==> if n == 0 {
            xs.len() == 0 && q == p
        } else {
            &&& xs.len() == n
            &&& cursor(s, p)
                .part(|p: nat| delay_pairs_at(s, p, width, (n - 1) as u64), xs.drop_last())
                .part(|p: nat| delay_pair_at(s, p, width), xs.last())
                .ends(q)
        },
{
    reveal(delay_pairs_at);
    lemma_rep_step(delay_pairs_item(s, width), p, n as nat);
    if xs.len() == 0 {
        assert(xs =~= Seq::empty());
    } else {
        assert(xs =~= xs.drop_last().push(xs.last()));
    }
    if n > 0 {
        if let Ok((done, r)) = rep_at(delay_pairs_item(s, width), p, (n - 1) as nat) {
            if let Ok((y, z)) = delay_pairs_item(s, width)(done, r) {
                assert(done.push(y).drop_last() =~= done);
            }
        }
    }
}

/// What the writer accepts as `n` items reads back, where each of them is one that
/// reading can give.
pub proof fn law_reads_delay_pairs(a: Seq<bool>, xs: Seq<(u32, u32)>, width: u32, n: u64, s: Seq<bool>)
    requires
        delay_pairs_can(xs, width, n),
        forall|i: int| 0 <= i < xs.len() ==> delay_pair_ok(#[trigger] xs[i], width),
        pre(put_delay_pairs(a, xs, width, n), s),
        width <= 32,
    ensures
        xs.len() == n,
        delay_pairs_at(s, a.len(), width, n) == Ok::<(Seq<(u32, u32)>, nat), Fault>(
            (xs, put_delay_pairs(a, xs, width, n).len()),
        ),
{
    reveal(delay_pairs_can);
    assert(delay_pairs_ok(xs, width, n)) by {
        reveal(delay_pairs_ok);
    }
    law_pre_put_delay_pairs(a, xs, width, n, s);
}

/// Reading the items never fails.
pub broadcast proof fn law_faults_delay_pairs(s: Seq<bool>, p: nat, width: u32, n: u64)
    ensures
        #[trigger] delay_pairs_at(s, p, width, n) is Ok,
{
    broadcast use law_faults_delay_pair;

    reveal(delay_pairs_at);
    let f = delay_pairs_item(s, width);
    assert forall|done: Seq<(u32, u32)>, q: nat| (#[trigger] f(done, q)) is Ok by {}
    lemma_rep_faults_none(f, p, n as nat);
}

/// An initial CPB delay entry at position `p`.
#[verifier::opaque]
pub open spec fn cpb_delays_at(s: Seq<bool>, p: nat, width: u32, du: bool) -> Read<VvcInitialCpbDelays> {
    let removal_delay = u32_at(s, p, width as nat);
    let p = adv(p, width as nat);
    let removal_offset = u32_at(s, p, width as nat);
    let p = adv(p, width as nat);
    match (if du { read_some(delay_pair_at(s, p, width)) } else { Ok((None, p)) })
    { Err(f) => Err(f), Ok((alt, p)) => {
    Ok((VvcInitialCpbDelays { removal_delay, removal_offset, alt }, p))
    }}
}

/// The bits `a` followed by an initial CPB delay entry.
#[verifier::opaque]
pub open spec fn put_cpb_delays(a: Seq<bool>, x: VvcInitialCpbDelays, width: u32, du: bool) -> Seq<bool> {
    let a = put_u(a, x.removal_delay as nat, width as nat);
    let a = put_u(a, x.removal_offset as nat, width as nat);
    let a = match x.alt { Some(y) => put_delay_pair(a, y, width), None => a };
    a
}

/// The values of an initial CPB delay entry that reading can give.
#[verifier::opaque]
pub open spec fn cpb_delays_ok(x: VvcInitialCpbDelays, width: u32, du: bool) -> bool {
    &&& fits(x.removal_delay as nat, width as nat) && fits(x.removal_offset as nat, width as nat)
    &&& x.alt is Some <==> du
    &&& x.alt matches Some(y) ==> delay_pair_ok(y, width)
}

/// The values of an initial CPB delay entry that the writer accepts.
#[verifier::opaque]
pub open spec fn cpb_delays_can(x: VvcInitialCpbDelays, width: u32, du: bool) -> bool {
    &&& fits(x.removal_delay as nat, width as nat) && fits(x.removal_offset as nat, width as nat)
    &&& x.alt is Some <==> du
    &&& x.alt matches Some(y) ==> delay_pair_can(y, width)
}

/// Parses an initial CPB delay entry.
fn parse_cpb_delays(
    r: &mut BitReader<'_>,
    width: u32,
    du: bool,
) -> (res: Result<VvcInitialCpbDelays, BitstreamError>)
    requires
        width <= 32,
    ensures
        read_is(cpb_delays_at(old(r).bits(), old(r).pos(), width, du), res, *old(r), *final(r)),
{
    proof {
        reveal(cpb_delays_at);
    }
    let removal_delay: u32 = r.u(width);
    let removal_offset: u32 = r.u(width);
    let alt = if du { Some(parse_delay_pair(r, width)?) } else { None };
    Ok(VvcInitialCpbDelays { removal_delay, removal_offset, alt })
}

/// Emits an initial CPB delay entry, the inverse of [`parse_cpb_delays`].
fn write_cpb_delays(
    w: &mut BitWriter,
    x: &VvcInitialCpbDelays,
    width: u32,
    du: bool,
) -> (res: Result<(), BitstreamError>)
    requires
        width <= 32,
    ensures
        write_is(cpb_delays_can(*x, width, du), put_cpb_delays(old(w)@, *x, width, du), res, final(w)@),
{
    proof {
        reveal(put_cpb_delays);
        reveal(cpb_delays_can);
    }
    if !(fits_bits(x.removal_delay, width) && fits_bits(x.removal_offset, width)) {
        return Err(BitstreamError::invalid("initial CPB removal delay/offset does not fit its length field"));
    }
    w.write_bits(x.removal_delay, width);
    w.write_bits(x.removal_offset, width);
    if x.alt.is_some() != du {
        return Err(
            BitstreamError::invalid(
                "alt initial CPB entries must be present iff bp_du_hrd_params_present_flag (§D.3.1)",
            ),
        );
    }
    if let Some(y) = &x.alt {
        write_delay_pair(w, y, width, "alt initial CPB removal delay/offset does not fit its length field")?;
    }
    Ok(())
}

/// Writing an initial CPB delay entry gives back the bits it was read from.
pub broadcast proof fn law_put_cpb_delays_at(s: Seq<bool>, p: nat, width: u32, du: bool)
    requires
        width <= 32,
    ensures
        #[trigger] cpb_delays_at(s, p, width, du) matches Ok((x, q)) ==> {
            &&& cpb_delays_ok(x, width, du)
            &&& cpb_delays_can(x, width, du)
            &&& within(s, q) ==> within(s, p) && put_cpb_delays(upto(s, p), x, width, du) == upto(s, q)
        },
{
    broadcast use {crate::bits::group_write_read, law_put_delay_pair_at};

    reveal(cpb_delays_at);
    reveal(put_cpb_delays);
    reveal(cpb_delays_ok);
    reveal(cpb_delays_can);
}

/// Reading gives back an initial CPB delay entry as it was written.
pub broadcast proof fn law_pre_put_cpb_delays(
    a: Seq<bool>,
    x: VvcInitialCpbDelays,
    width: u32,
    du: bool,
    s: Seq<bool>,
)
    requires
        #[trigger] pre(put_cpb_delays(a, x, width, du), s),
        cpb_delays_ok(x, width, du),
        width <= 32,
    ensures
        pre(a, s),
        cpb_delays_can(x, width, du),
        cpb_delays_at(s, a.len(), width, du) == Ok::<(VvcInitialCpbDelays, nat), Fault>(
            (x, put_cpb_delays(a, x, width, du).len()),
        ),
{
    broadcast use {crate::bits::group_read_written, law_pre_put_delay_pair};

    reveal(cpb_delays_at);
    reveal(put_cpb_delays);
    reveal(cpb_delays_ok);
    reveal(cpb_delays_can);
}

/// The layout of an initial CPB delay entry: reading at `p` gives `x` and ends
/// at `q` if and only if these elements stand there in this order.
pub proof fn law_layout_cpb_delays(s: Seq<bool>, p: nat, width: u32, du: bool, x: VvcInitialCpbDelays, q: nat)
    ensures
        cpb_delays_at(s, p, width, du) == Ok::<(VvcInitialCpbDelays, nat), Fault>((x, q)) <==> cursor(s, p)
            .u32(width as nat, x.removal_delay)
            .u32(width as nat, x.removal_offset)
            .part_if(du, |p: nat| delay_pair_at(s, p, width), x.alt)
            .ends(q),
{
    reveal(cpb_delays_at);
}

/// Reading an initial CPB delay entry never fails.
pub broadcast proof fn law_faults_cpb_delays(s: Seq<bool>, p: nat, width: u32, du: bool)
    ensures
        #[trigger] cpb_delays_at(s, p, width, du) is Ok,
{
    broadcast use law_faults_delay_pair;

    reveal(cpb_delays_at);
}

/// What the writer accepts reads back: an initial CPB delay entry, where each
/// field fits its width and what is not coded has the value that is taken for
/// it.
pub proof fn law_reads_cpb_delays(a: Seq<bool>, x: VvcInitialCpbDelays, width: u32, du: bool, s: Seq<bool>)
    requires
        cpb_delays_can(x, width, du),
        x.alt matches Some(y) ==> delay_pair_ok(y, width),
        pre(put_cpb_delays(a, x, width, du), s),
        width <= 32,
    ensures
        cpb_delays_at(s, a.len(), width, du) == Ok::<(VvcInitialCpbDelays, nat), Fault>(
            (x, put_cpb_delays(a, x, width, du).len()),
        ),
{
    assert(cpb_delays_ok(x, width, du)) by {
        broadcast use crate::bits::law_fits_small;

        reveal(cpb_delays_ok);
        reveal(cpb_delays_can);
    }
    law_pre_put_cpb_delays(a, x, width, du, s);
}

/// Reads an initial CPB delay entry, behind the items before it.
pub open spec fn cpb_list_item(
    s: Seq<bool>,
    width: u32,
    du: bool,
) -> spec_fn(Seq<VvcInitialCpbDelays>, nat) -> Read<VvcInitialCpbDelays> {
    |done: Seq<VvcInitialCpbDelays>, q: nat| cpb_delays_at(s, q, width, du)
}

/// Writes an initial CPB delay entry, behind the items before it.
pub open spec fn put_cpb_list_item(
    width: u32,
    du: bool,
) -> spec_fn(Seq<bool>, Seq<VvcInitialCpbDelays>, VvcInitialCpbDelays) -> Seq<bool> {
    |a: Seq<bool>, done: Seq<VvcInitialCpbDelays>, x: VvcInitialCpbDelays| put_cpb_delays(a, x, width, du)
}

/// Whether an initial CPB delay entry may follow the items before it.
pub open spec fn cpb_list_item_ok(
    width: u32,
    du: bool,
) -> spec_fn(Seq<VvcInitialCpbDelays>, VvcInitialCpbDelays) -> bool {
    |done: Seq<VvcInitialCpbDelays>, x: VvcInitialCpbDelays| cpb_delays_ok(x, width, du)
        && cpb_delays_can(x, width, du)
}

/// `n` items at position `p`, each an initial CPB delay entry.
#[verifier::opaque]
pub open spec fn cpb_list_at(
    s: Seq<bool>,
    p: nat,
    width: u32,
    du: bool,
    n: u64,
) -> Read<Seq<VvcInitialCpbDelays>> {
    rep_at(cpb_list_item(s, width, du), p, n as nat)
}

/// The bits `a` followed by the items.
#[verifier::opaque]
pub open spec fn put_cpb_list(
    a: Seq<bool>,
    xs: Seq<VvcInitialCpbDelays>,
    width: u32,
    du: bool,
    n: u64,
) -> Seq<bool> {
    put_rep(put_cpb_list_item(width, du), a, xs)
}

/// `n` items that reading can give.
#[verifier::opaque]
pub open spec fn cpb_list_ok(xs: Seq<VvcInitialCpbDelays>, width: u32, du: bool, n: u64) -> bool {
    xs.len() == n
        && forall|i: int| 0 <= i < xs.len()
        ==> cpb_delays_ok(#[trigger] xs[i], width, du)
        && cpb_delays_can(xs[i], width, du)
}

/// `n` items that the writer accepts.
#[verifier::opaque]
pub open spec fn cpb_list_can(xs: Seq<VvcInitialCpbDelays>, width: u32, du: bool, n: u64) -> bool {
    xs.len() == n && forall|i: int| 0 <= i < xs.len() ==> cpb_delays_can(#[trigger] xs[i], width, du)
}

/// Parses `n` items, each an initial CPB delay entry.
fn parse_cpb_list(
    r: &mut BitReader<'_>,
    width: u32,
    du: bool,
    n: u64,
) -> (res: Result<Vec<VvcInitialCpbDelays>, BitstreamError>)
    requires
        width <= 32,
    ensures
        read_vec_is(cpb_list_at(old(r).bits(), old(r).pos(), width, du, n), res, *old(r), *final(r)),
        res matches Ok(v) ==> v@.len() == n,
{
    let ghost s = r.bits();
    let ghost p = r.pos();
    let ghost reads = cpb_list_item(s, width, du);
    let mut xs: Vec<VvcInitialCpbDelays> = Vec::new();
    let mut i: u64 = 0;
    proof {
        reveal(cpb_list_at);
    }
    while i < n
        invariant
            i <= n,
            xs@.len() == i,
                width <= 32,
            reads == cpb_list_item(s, width, du),
            s == r.bits(),
            s == old(r).bits(),
            p == old(r).pos(),
            r.bytes() == old(r).bytes(),
            rep_at(reads, p, i as nat) == Ok::<(Seq<VvcInitialCpbDelays>, nat), Fault>((xs@, r.pos())),
        decreases n - i,
    {
        match parse_cpb_delays(r, width, du) {
            Ok(x) => {
                xs.push(x);
            },
            Err(e) => {
                proof {
                    reveal(cpb_list_at);
                    lemma_rep_err(reads, p, (i + 1) as nat, n as nat);
                }
                return Err(e);
            },
        }
        i = i + 1;
    }
    Ok(xs)
}

/// Emits `n` items, each an initial CPB delay entry.
fn write_cpb_list(
    w: &mut BitWriter,
    xs: &Vec<VvcInitialCpbDelays>,
    width: u32,
    du: bool,
    n: u64,
    name: &str,
    sublayer: usize,
) -> (res: Result<(), BitstreamError>)
    requires
        width <= 32,
    ensures
        write_is(cpb_list_can(xs@, width, du, n), put_cpb_list(old(w)@, xs@, width, du, n), res, final(w)@),
        res is Ok ==> xs@.len() == n,
{
    let ghost before = w@;
    let ghost puts = put_cpb_list_item(width, du);
    let ghost ys = xs@;
    proof {
        reveal(put_cpb_list);
        reveal(cpb_list_can);
        assert(ys.take(0) =~= Seq::empty());
    }
    if xs.len() as u64 != n {
        return Err(
            Message::new("buffering_period ")
                .with(name)
                .with(" initial-CPB sublayer ")
                .num(sublayer as i128)
                .with(": ")
                .num(xs.len() as i128)
                .with(" entries, expected ")
                .num(n as i128)
                .invalid(),
        );
    }
    let mut i: usize = 0;
    while i < xs.len()
        invariant
            i <= xs@.len(),
            xs@.len() == n,
            ys == xs@,
            ys.len() == xs@.len(),
                width <= 32,
            before == old(w)@,
            puts == put_cpb_list_item(width, du),
            w@ == put_rep(puts, before, ys.take(i as int)),
            forall|j: int| 0 <= j < i ==> cpb_delays_can(#[trigger] ys[j], width, du),
        ensures
            i == xs@.len(),
        decreases xs@.len() - i,
    {
        proof {
            assert(ys.take(i + 1).drop_last() =~= ys.take(i as int));
            assert(ys[i as int] == xs@[i as int]);
        }
        match write_cpb_delays(w, &xs[i], width, du) {
            Ok(()) => {},
            Err(e) => {
                proof {
                    reveal(cpb_list_can);
                }
                return Err(e);
            },
        }
        i = i + 1;
    }
    proof {
        assert(ys.take(i as int) =~= ys);
    }
    Ok(())
}

/// Writing what was read gives back the bits that were read.
pub broadcast proof fn law_put_cpb_list_at(s: Seq<bool>, p: nat, width: u32, du: bool, n: u64)
    requires
        width <= 32,
    ensures
        #[trigger] cpb_list_at(s, p, width, du, n) matches Ok((xs, q)) ==> {
            &&& xs.len() == n
            &&& cpb_list_ok(xs, width, du, n)
            &&& cpb_list_can(xs, width, du, n)
            &&& within(s, q) ==> within(s, p) && put_cpb_list(upto(s, p), xs, width, du, n) == upto(s, q)
        },
{
    broadcast use law_put_cpb_delays_at;

    reveal(cpb_list_at);
    reveal(put_cpb_list);
    reveal(cpb_list_ok);
    reveal(cpb_list_can);
    let ok = cpb_list_item_ok(width, du);
    law_put_rep_at(s, cpb_list_item(s, width, du), put_cpb_list_item(width, du), ok, p, n as nat);
    if let Ok((xs, q)) = cpb_list_at(s, p, width, du, n) {
        assert forall|i: int| 0 <= i < xs.len() implies ok(xs.take(i), #[trigger] xs[i]) by {}
    }
}

/// What was written reads back as the items that were written.
pub broadcast proof fn law_pre_put_cpb_list(
    a: Seq<bool>,
    xs: Seq<VvcInitialCpbDelays>,
    width: u32,
    du: bool,
    n: u64,
    s: Seq<bool>,
)
    requires
        #[trigger] pre(put_cpb_list(a, xs, width, du, n), s),
        cpb_list_ok(xs, width, du, n),
        width <= 32,
    ensures
        pre(a, s),
        cpb_list_can(xs, width, du, n),
        cpb_list_at(s, a.len(), width, du, n) == Ok::<(Seq<VvcInitialCpbDelays>, nat), Fault>(
            (xs, put_cpb_list(a, xs, width, du, n).len()),
        ),
{
    broadcast use law_pre_put_cpb_delays;

    reveal(cpb_list_at);
    reveal(put_cpb_list);
    reveal(cpb_list_ok);
    reveal(cpb_list_can);
    law_rep_at_put(
        s,
        cpb_list_item(s, width, du),
        put_cpb_list_item(width, du),
        cpb_list_item_ok(width, du),
        a,
        xs,
    );
}

/// `n` items stand one behind the other: `n - 1` items, and then an initial CPB
/// delay entry.
pub proof fn law_layout_cpb_list(
    s: Seq<bool>,
    p: nat,
    width: u32,
    du: bool,
    n: u64,
    xs: Seq<VvcInitialCpbDelays>,
    q: nat,
)
    ensures
        cpb_list_at(s, p, width, du, n) == Ok::<(Seq<VvcInitialCpbDelays>, nat), Fault>((xs, q)) <==> if n == 0 {
            xs.len() == 0 && q == p
        } else {
            &&& xs.len() == n
            &&& cursor(s, p)
                .part(|p: nat| cpb_list_at(s, p, width, du, (n - 1) as u64), xs.drop_last())
                .part(|p: nat| cpb_delays_at(s, p, width, du), xs.last())
                .ends(q)
        },
{
    reveal(cpb_list_at);
    lemma_rep_step(cpb_list_item(s, width, du), p, n as nat);
    if xs.len() == 0 {
        assert(xs =~= Seq::empty());
    } else {
        assert(xs =~= xs.drop_last().push(xs.last()));
    }
    if n > 0 {
        if let Ok((done, r)) = rep_at(cpb_list_item(s, width, du), p, (n - 1) as nat) {
            if let Ok((y, z)) = cpb_list_item(s, width, du)(done, r) {
                assert(done.push(y).drop_last() =~= done);
            }
        }
    }
}

/// What the writer accepts as `n` items reads back, where each of them is one that
/// reading can give.
pub proof fn law_reads_cpb_list(
    a: Seq<bool>,
    xs: Seq<VvcInitialCpbDelays>,
    width: u32,
    du: bool,
    n: u64,
    s: Seq<bool>,
)
    requires
        cpb_list_can(xs, width, du, n),
        forall|i: int| 0 <= i < xs.len() ==> cpb_delays_ok(#[trigger] xs[i], width, du),
        pre(put_cpb_list(a, xs, width, du, n), s),
        width <= 32,
    ensures
        xs.len() == n,
        cpb_list_at(s, a.len(), width, du, n) == Ok::<(Seq<VvcInitialCpbDelays>, nat), Fault>(
            (xs, put_cpb_list(a, xs, width, du, n).len()),
        ),
{
    reveal(cpb_list_can);
    assert(cpb_list_ok(xs, width, du, n)) by {
        reveal(cpb_list_ok);
    }
    law_pre_put_cpb_list(a, xs, width, du, n, s);
}

/// Reading the items never fails.
pub broadcast proof fn law_faults_cpb_list(s: Seq<bool>, p: nat, width: u32, du: bool, n: u64)
    ensures
        #[trigger] cpb_list_at(s, p, width, du, n) is Ok,
{
    broadcast use law_faults_cpb_delays;

    reveal(cpb_list_at);
    let f = cpb_list_item(s, width, du);
    assert forall|done: Seq<VvcInitialCpbDelays>, q: nat| (#[trigger] f(done, q)) is Ok by {}
    lemma_rep_faults_none(f, p, n as nat);
}

/// The NAL and VCL entries of one sublayer at position `p`.
#[verifier::opaque]
pub open spec fn cpb_pair_at(
    s: Seq<bool>,
    p: nat,
    width: u32,
    du: bool,
    nal_n: u64,
    vcl_n: u64,
) -> Read<(Seq<VvcInitialCpbDelays>, Seq<VvcInitialCpbDelays>)> {
    match cpb_list_at(s, p, width, du, nal_n) { Err(f) => Err(f), Ok((nal, p)) => {
    match cpb_list_at(s, p, width, du, vcl_n) { Err(f) => Err(f), Ok((vcl, p)) => {
    Ok(((nal, vcl), p)) }}}}
}

/// The bits `a` followed by the NAL and VCL entries of one sublayer.
#[verifier::opaque]
pub open spec fn put_cpb_pair(
    a: Seq<bool>,
    x: (Seq<VvcInitialCpbDelays>, Seq<VvcInitialCpbDelays>),
    width: u32,
    du: bool,
    nal_n: u64,
    vcl_n: u64,
) -> Seq<bool> {
    let a = put_cpb_list(a, x.0, width, du, nal_n);
    let a = put_cpb_list(a, x.1, width, du, vcl_n);
    a
}

/// The values of the NAL and VCL entries of one sublayer that reading can give.
#[verifier::opaque]
pub open spec fn cpb_pair_ok(
    x: (Seq<VvcInitialCpbDelays>, Seq<VvcInitialCpbDelays>),
    width: u32,
    du: bool,
    nal_n: u64,
    vcl_n: u64,
) -> bool {
    &&& cpb_list_ok(x.0, width, du, nal_n)
    &&& cpb_list_ok(x.1, width, du, vcl_n)
}

/// The values of the NAL and VCL entries of one sublayer that the writer
/// accepts.
#[verifier::opaque]
pub open spec fn cpb_pair_can(
    x: (Seq<VvcInitialCpbDelays>, Seq<VvcInitialCpbDelays>),
    width: u32,
    du: bool,
    nal_n: u64,
    vcl_n: u64,
) -> bool {
    &&& cpb_list_can(x.0, width, du, nal_n)
    &&& cpb_list_can(x.1, width, du, vcl_n)
}

/// Writing the NAL and VCL entries of one sublayer gives back the bits it was
/// read from.
pub broadcast proof fn law_put_cpb_pair_at(s: Seq<bool>, p: nat, width: u32, du: bool, nal_n: u64, vcl_n: u64)
    requires
        width <= 32,
    ensures
        #[trigger] cpb_pair_at(s, p, width, du, nal_n, vcl_n) matches Ok((x, q)) ==> {
            &&& cpb_pair_ok(x, width, du, nal_n, vcl_n)
            &&& cpb_pair_can(x, width, du, nal_n, vcl_n)
            &&& within(s, q)
                ==> within(s, p)
                && put_cpb_pair(upto(s, p), x, width, du, nal_n, vcl_n) == upto(s, q)
        },
{
    broadcast use {crate::bits::group_write_read, law_put_cpb_list_at};

    reveal(cpb_pair_at);
    reveal(put_cpb_pair);
    reveal(cpb_pair_ok);
    reveal(cpb_pair_can);
}

/// Reading gives back the NAL and VCL entries of one sublayer as it was
/// written.
pub broadcast proof fn law_pre_put_cpb_pair(
    a: Seq<bool>,
    x: (Seq<VvcInitialCpbDelays>, Seq<VvcInitialCpbDelays>),
    width: u32,
    du: bool,
    nal_n: u64,
    vcl_n: u64,
    s: Seq<bool>,
)
    requires
        #[trigger] pre(put_cpb_pair(a, x, width, du, nal_n, vcl_n), s),
        cpb_pair_ok(x, width, du, nal_n, vcl_n),
        width <= 32,
    ensures
        pre(a, s),
        cpb_pair_can(x, width, du, nal_n, vcl_n),
        cpb_pair_at(s, a.len(), width, du, nal_n, vcl_n) == Ok::<(
            (Seq<VvcInitialCpbDelays>, Seq<VvcInitialCpbDelays>),
            nat,
        ), Fault>((x, put_cpb_pair(a, x, width, du, nal_n, vcl_n).len())),
{
    broadcast use {crate::bits::group_read_written, law_pre_put_cpb_list};

    reveal(cpb_pair_at);
    reveal(put_cpb_pair);
    reveal(cpb_pair_ok);
    reveal(cpb_pair_can);
}

/// The layout of the NAL and VCL entries of one sublayer: reading at `p` gives
/// `x` and ends at `q` if and only if these elements stand there in this order.
pub proof fn law_layout_cpb_pair(
    s: Seq<bool>,
    p: nat,
    width: u32,
    du: bool,
    nal_n: u64,
    vcl_n: u64,
    x: (Seq<VvcInitialCpbDelays>, Seq<VvcInitialCpbDelays>),
    q: nat,
)
    ensures
        cpb_pair_at(s, p, width, du, nal_n, vcl_n) == Ok::<(
            (Seq<VvcInitialCpbDelays>, Seq<VvcInitialCpbDelays>),
            nat,
        ), Fault>((x, q))
            <==> cursor(s, p)
            .part(|p: nat| cpb_list_at(s, p, width, du, nal_n), x.0)
            .part(|p: nat| cpb_list_at(s, p, width, du, vcl_n), x.1)
            .ends(q),
{
    reveal(cpb_pair_at);
}

/// Reading the NAL and VCL entries of one sublayer never fails.
pub broadcast proof fn law_faults_cpb_pair(s: Seq<bool>, p: nat, width: u32, du: bool, nal_n: u64, vcl_n: u64)
    ensures
        #[trigger] cpb_pair_at(s, p, width, du, nal_n, vcl_n) is Ok,
{
    broadcast use law_faults_cpb_list;

    reveal(cpb_pair_at);
}

/// What the writer accepts reads back: the NAL and VCL entries of one sublayer,
/// where each field fits its width and what is not coded has the value that is
/// taken for it.
pub proof fn law_reads_cpb_pair(
    a: Seq<bool>,
    x: (Seq<VvcInitialCpbDelays>, Seq<VvcInitialCpbDelays>),
    width: u32,
    du: bool,
    nal_n: u64,
    vcl_n: u64,
    s: Seq<bool>,
)
    requires
        cpb_pair_can(x, width, du, nal_n, vcl_n),
        cpb_list_ok(x.0, width, du, nal_n),
        cpb_list_ok(x.1, width, du, vcl_n),
        pre(put_cpb_pair(a, x, width, du, nal_n, vcl_n), s),
        width <= 32,
    ensures
        cpb_pair_at(s, a.len(), width, du, nal_n, vcl_n) == Ok::<(
            (Seq<VvcInitialCpbDelays>, Seq<VvcInitialCpbDelays>),
            nat,
        ), Fault>((x, put_cpb_pair(a, x, width, du, nal_n, vcl_n).len())),
{
    assert(cpb_pair_ok(x, width, du, nal_n, vcl_n)) by {
        broadcast use crate::bits::law_fits_small;

        reveal(cpb_pair_ok);
        reveal(cpb_pair_can);
    }
    law_pre_put_cpb_pair(a, x, width, du, nal_n, vcl_n, s);
}

/// Reads the NAL and VCL entries of one sublayer, behind the items before it.
pub open spec fn cpb_pairs_item(
    s: Seq<bool>,
    width: u32,
    du: bool,
    nal_n: u64,
    vcl_n: u64,
) -> spec_fn(Seq<(Seq<VvcInitialCpbDelays>, Seq<VvcInitialCpbDelays>)>, nat) -> Read<(Seq<VvcInitialCpbDelays>, Seq<VvcInitialCpbDelays>)> {
    |done: Seq<(
        Seq<VvcInitialCpbDelays>,
        Seq<VvcInitialCpbDelays>,
    )>, q: nat| cpb_pair_at(s, q, width, du, nal_n, vcl_n)
}

/// Writes the NAL and VCL entries of one sublayer, behind the items before it.
pub open spec fn put_cpb_pairs_item(
    width: u32,
    du: bool,
    nal_n: u64,
    vcl_n: u64,
) -> spec_fn(Seq<bool>, Seq<(Seq<VvcInitialCpbDelays>, Seq<VvcInitialCpbDelays>)>, (Seq<VvcInitialCpbDelays>, Seq<VvcInitialCpbDelays>)) -> Seq<bool> {
    |a: Seq<bool>, done: Seq<(
        Seq<VvcInitialCpbDelays>,
        Seq<VvcInitialCpbDelays>,
    )>, x: (Seq<VvcInitialCpbDelays>, Seq<VvcInitialCpbDelays>)| put_cpb_pair(a, x, width, du, nal_n, vcl_n)
}

/// Whether the NAL and VCL entries of one sublayer may follow the items before
/// it.
pub open spec fn cpb_pairs_item_ok(
    width: u32,
    du: bool,
    nal_n: u64,
    vcl_n: u64,
) -> spec_fn(Seq<(Seq<VvcInitialCpbDelays>, Seq<VvcInitialCpbDelays>)>, (Seq<VvcInitialCpbDelays>, Seq<VvcInitialCpbDelays>)) -> bool {
    |done: Seq<(
        Seq<VvcInitialCpbDelays>,
        Seq<VvcInitialCpbDelays>,
    )>, x: (Seq<VvcInitialCpbDelays>, Seq<VvcInitialCpbDelays>)| cpb_pair_ok(x, width, du, nal_n, vcl_n)
        && cpb_pair_can(x, width, du, nal_n, vcl_n)
}

/// `n` items at position `p`, each the NAL and VCL entries of one sublayer.
#[verifier::opaque]
pub open spec fn cpb_pairs_at(
    s: Seq<bool>,
    p: nat,
    width: u32,
    du: bool,
    nal_n: u64,
    vcl_n: u64,
    n: u64,
) -> Read<Seq<(Seq<VvcInitialCpbDelays>, Seq<VvcInitialCpbDelays>)>> {
    rep_at(cpb_pairs_item(s, width, du, nal_n, vcl_n), p, n as nat)
}

/// The bits `a` followed by the items.
#[verifier::opaque]
pub open spec fn put_cpb_pairs(
    a: Seq<bool>,
    xs: Seq<(Seq<VvcInitialCpbDelays>, Seq<VvcInitialCpbDelays>)>,
    width: u32,
    du: bool,
    nal_n: u64,
    vcl_n: u64,
    n: u64,
) -> Seq<bool> {
    put_rep(put_cpb_pairs_item(width, du, nal_n, vcl_n), a, xs)
}

/// `n` items that reading can give.
#[verifier::opaque]
pub open spec fn cpb_pairs_ok(
    xs: Seq<(Seq<VvcInitialCpbDelays>, Seq<VvcInitialCpbDelays>)>,
    width: u32,
    du: bool,
    nal_n: u64,
    vcl_n: u64,
    n: u64,
) -> bool {
    xs.len() == n
        && forall|i: int| 0 <= i < xs.len()
        ==> cpb_pair_ok(#[trigger] xs[i], width, du, nal_n, vcl_n)
        && cpb_pair_can(xs[i], width, du, nal_n, vcl_n)
}

/// `n` items that the writer accepts.
#[verifier::opaque]
pub open spec fn cpb_pairs_can(
    xs: Seq<(Seq<VvcInitialCpbDelays>, Seq<VvcInitialCpbDelays>)>,
    width: u32,
    du: bool,
    nal_n: u64,
    vcl_n: u64,
    n: u64,
) -> bool {
    xs.len() == n
        && forall|i: int| 0 <= i < xs.len()
        ==> cpb_pair_can(#[trigger] xs[i], width, du, nal_n, vcl_n)
}

/// Writing what was read gives back the bits that were read.
pub broadcast proof fn law_put_cpb_pairs_at(
    s: Seq<bool>,
    p: nat,
    width: u32,
    du: bool,
    nal_n: u64,
    vcl_n: u64,
    n: u64,
)
    requires
        width <= 32,
    ensures
        #[trigger] cpb_pairs_at(s, p, width, du, nal_n, vcl_n, n) matches Ok((xs, q)) ==> {
            &&& xs.len() == n
            &&& cpb_pairs_ok(xs, width, du, nal_n, vcl_n, n)
            &&& cpb_pairs_can(xs, width, du, nal_n, vcl_n, n)
            &&& within(s, q)
                ==> within(s, p)
                && put_cpb_pairs(upto(s, p), xs, width, du, nal_n, vcl_n, n) == upto(s, q)
        },
{
    broadcast use law_put_cpb_pair_at;

    reveal(cpb_pairs_at);
    reveal(put_cpb_pairs);
    reveal(cpb_pairs_ok);
    reveal(cpb_pairs_can);
    let ok = cpb_pairs_item_ok(width, du, nal_n, vcl_n);
    law_put_rep_at(
        s,
        cpb_pairs_item(s, width, du, nal_n, vcl_n),
        put_cpb_pairs_item(width, du, nal_n, vcl_n),
        ok,
        p,
        n as nat,
    );
    if let Ok((xs, q)) = cpb_pairs_at(s, p, width, du, nal_n, vcl_n, n) {
        assert forall|i: int| 0 <= i < xs.len() implies ok(xs.take(i), #[trigger] xs[i]) by {}
    }
}

/// What was written reads back as the items that were written.
pub broadcast proof fn law_pre_put_cpb_pairs(
    a: Seq<bool>,
    xs: Seq<(Seq<VvcInitialCpbDelays>, Seq<VvcInitialCpbDelays>)>,
    width: u32,
    du: bool,
    nal_n: u64,
    vcl_n: u64,
    n: u64,
    s: Seq<bool>,
)
    requires
        #[trigger] pre(put_cpb_pairs(a, xs, width, du, nal_n, vcl_n, n), s),
        cpb_pairs_ok(xs, width, du, nal_n, vcl_n, n),
        width <= 32,
    ensures
        pre(a, s),
        cpb_pairs_can(xs, width, du, nal_n, vcl_n, n),
        cpb_pairs_at(s, a.len(), width, du, nal_n, vcl_n, n) == Ok::<(
            Seq<(Seq<VvcInitialCpbDelays>, Seq<VvcInitialCpbDelays>)>,
            nat,
        ), Fault>((xs, put_cpb_pairs(a, xs, width, du, nal_n, vcl_n, n).len())),
{
    broadcast use law_pre_put_cpb_pair;

    reveal(cpb_pairs_at);
    reveal(put_cpb_pairs);
    reveal(cpb_pairs_ok);
    reveal(cpb_pairs_can);
    law_rep_at_put(
        s,
        cpb_pairs_item(s, width, du, nal_n, vcl_n),
        put_cpb_pairs_item(width, du, nal_n, vcl_n),
        cpb_pairs_item_ok(width, du, nal_n, vcl_n),
        a,
        xs,
    );
}

/// `n` items stand one behind the other: `n - 1` items, and then the NAL and
/// VCL entries of one sublayer.
pub proof fn law_layout_cpb_pairs(
    s: Seq<bool>,
    p: nat,
    width: u32,
    du: bool,
    nal_n: u64,
    vcl_n: u64,
    n: u64,
    xs: Seq<(Seq<VvcInitialCpbDelays>, Seq<VvcInitialCpbDelays>)>,
    q: nat,
)
    ensures
        cpb_pairs_at(s, p, width, du, nal_n, vcl_n, n) == Ok::<(Seq<(Seq<VvcInitialCpbDelays>, Seq<VvcInitialCpbDelays>)>, nat), Fault>((xs, q)) <==> if n == 0 {
            xs.len() == 0 && q == p
        } else {
            &&& xs.len() == n
            &&& cursor(s, p)
                .part(|p: nat| cpb_pairs_at(s, p, width, du, nal_n, vcl_n, (n - 1) as u64), xs.drop_last())
                .part(|p: nat| cpb_pair_at(s, p, width, du, nal_n, vcl_n), xs.last())
                .ends(q)
        },
{
    reveal(cpb_pairs_at);
    lemma_rep_step(cpb_pairs_item(s, width, du, nal_n, vcl_n), p, n as nat);
    if xs.len() == 0 {
        assert(xs =~= Seq::empty());
    } else {
        assert(xs =~= xs.drop_last().push(xs.last()));
    }
    if n > 0 {
        if let Ok((done, r)) = rep_at(cpb_pairs_item(s, width, du, nal_n, vcl_n), p, (n - 1) as nat) {
            if let Ok((y, z)) = cpb_pairs_item(s, width, du, nal_n, vcl_n)(done, r) {
                assert(done.push(y).drop_last() =~= done);
            }
        }
    }
}

/// What the writer accepts as `n` items reads back, where each of them is one that
/// reading can give.
pub proof fn law_reads_cpb_pairs(
    a: Seq<bool>,
    xs: Seq<(Seq<VvcInitialCpbDelays>, Seq<VvcInitialCpbDelays>)>,
    width: u32,
    du: bool,
    nal_n: u64,
    vcl_n: u64,
    n: u64,
    s: Seq<bool>,
)
    requires
        cpb_pairs_can(xs, width, du, nal_n, vcl_n, n),
        forall|i: int| 0 <= i < xs.len() ==> cpb_pair_ok(#[trigger] xs[i], width, du, nal_n, vcl_n),
        pre(put_cpb_pairs(a, xs, width, du, nal_n, vcl_n, n), s),
        width <= 32,
    ensures
        xs.len() == n,
        cpb_pairs_at(s, a.len(), width, du, nal_n, vcl_n, n) == Ok::<(
            Seq<(Seq<VvcInitialCpbDelays>, Seq<VvcInitialCpbDelays>)>,
            nat,
        ), Fault>((xs, put_cpb_pairs(a, xs, width, du, nal_n, vcl_n, n).len())),
{
    reveal(cpb_pairs_can);
    assert(cpb_pairs_ok(xs, width, du, nal_n, vcl_n, n)) by {
        reveal(cpb_pairs_ok);
    }
    law_pre_put_cpb_pairs(a, xs, width, du, nal_n, vcl_n, n, s);
}

/// Reading the items never fails.
pub broadcast proof fn law_faults_cpb_pairs(
    s: Seq<bool>,
    p: nat,
    width: u32,
    du: bool,
    nal_n: u64,
    vcl_n: u64,
    n: u64,
)
    ensures
        #[trigger] cpb_pairs_at(s, p, width, du, nal_n, vcl_n, n) is Ok,
{
    broadcast use law_faults_cpb_pair;

    reveal(cpb_pairs_at);
    let f = cpb_pairs_item(s, width, du, nal_n, vcl_n);
    assert forall|done: Seq<(Seq<VvcInitialCpbDelays>, Seq<VvcInitialCpbDelays>)>, q: nat| (#[trigger] f(done, q)) is Ok by {
    }
    lemma_rep_faults_none(f, p, n as nat);
}

/// The entries of the eight sublayers: those coded, from sublayer `first` on, and
/// none elsewhere.
pub open spec fn tables_of(
    b: Seq<(Seq<VvcInitialCpbDelays>, Seq<VvcInitialCpbDelays>)>,
    first: u8,
) -> (Seq<Seq<VvcInitialCpbDelays>>, Seq<Seq<VvcInitialCpbDelays>>) {
    (
        Seq::new(
            8,
            |i: int|
                if first <= i < first + b.len() {
                    b[i - first].0
                } else {
                    Seq::empty()
                },
        ),
        Seq::new(
            8,
            |i: int|
                if first <= i < first + b.len() {
                    b[i - first].1
                } else {
                    Seq::empty()
                },
        ),
    )
}

/// The entries of the sublayers `first..=last`.
pub open spec fn coded_tables(
    x: (Seq<Seq<VvcInitialCpbDelays>>, Seq<Seq<VvcInitialCpbDelays>>),
    first: u8,
    last: u8,
) -> Seq<(Seq<VvcInitialCpbDelays>, Seq<VvcInitialCpbDelays>)> {
    Seq::new((last - first + 1) as nat, |k: int| (x.0[first + k], x.1[first + k]))
}

/// Sublayer `i` has no entries.
pub open spec fn no_entries(
    x: (Seq<Seq<VvcInitialCpbDelays>>, Seq<Seq<VvcInitialCpbDelays>>),
    i: int,
) -> bool {
    x.0[i].len() == 0 && x.1[i].len() == 0
}

/// Eight sublayers, with no entries outside `first..=last`.
pub open spec fn tables_fit(
    x: (Seq<Seq<VvcInitialCpbDelays>>, Seq<Seq<VvcInitialCpbDelays>>),
    first: u8,
    last: u8,
) -> bool {
    &&& x.0.len() == 8
    &&& x.1.len() == 8
    &&& forall|i: int| 0 <= i < 8 && !(first <= i <= last) ==> #[trigger] no_entries(x, i)
}

proof fn lemma_tables_push(
    b: Seq<(Seq<VvcInitialCpbDelays>, Seq<VvcInitialCpbDelays>)>,
    x: (Seq<VvcInitialCpbDelays>, Seq<VvcInitialCpbDelays>),
    first: u8,
)
    requires
        first + b.len() < 8,
    ensures
        tables_of(b.push(x), first).0 == tables_of(b, first).0.update(first + b.len(), x.0),
        tables_of(b.push(x), first).1 == tables_of(b, first).1.update(first + b.len(), x.1),
{
    assert(tables_of(b.push(x), first).0 =~= tables_of(b, first).0.update(first + b.len(), x.0));
    assert(tables_of(b.push(x), first).1 =~= tables_of(b, first).1.update(first + b.len(), x.1));
}

proof fn lemma_cpb_tables(
    b: Seq<(Seq<VvcInitialCpbDelays>, Seq<VvcInitialCpbDelays>)>,
    width: u32,
    du: bool,
    nal_n: u64,
    vcl_n: u64,
    first: u8,
    last: u8,
)
    requires
        first <= last <= 7,
        cpb_pairs_ok(b, width, du, nal_n, vcl_n, (last - first + 1) as u64),
    ensures
        coded_tables(tables_of(b, first), first, last) == b,
        tables_fit(tables_of(b, first), first, last),
{
    reveal(cpb_pairs_ok);
    assert(coded_tables(tables_of(b, first), first, last) =~= b);
}

/// The initial CPB entries of the sublayers at position `p`; those outside `first..=last` have none.
#[verifier::opaque]
pub open spec fn cpb_tables_at(
    s: Seq<bool>,
    p: nat,
    width: u32,
    du: bool,
    nal_n: u64,
    vcl_n: u64,
    first: u8,
    last: u8,
) -> Read<(Seq<Seq<VvcInitialCpbDelays>>, Seq<Seq<VvcInitialCpbDelays>>)> {
    match cpb_pairs_at(s, p, width, du, nal_n, vcl_n, (last - first + 1) as u64) {
        Err(f) => Err(f),
        Ok((b, p)) => Ok((tables_of(b, first), p)),
    }
}

/// Writes the values.
#[verifier::opaque]
pub open spec fn put_cpb_tables(
    a: Seq<bool>,
    x: (Seq<Seq<VvcInitialCpbDelays>>, Seq<Seq<VvcInitialCpbDelays>>),
    width: u32,
    du: bool,
    nal_n: u64,
    vcl_n: u64,
    first: u8,
    last: u8,
) -> Seq<bool> {
    put_cpb_pairs(a, coded_tables(x, first, last), width, du, nal_n, vcl_n, (last - first + 1) as u64)
}

/// Values that reading can give.
#[verifier::opaque]
pub open spec fn cpb_tables_ok(
    x: (Seq<Seq<VvcInitialCpbDelays>>, Seq<Seq<VvcInitialCpbDelays>>),
    width: u32,
    du: bool,
    nal_n: u64,
    vcl_n: u64,
    first: u8,
    last: u8,
) -> bool {
    let b = coded_tables(x, first, last);
    tables_fit(x, first, last)
        && cpb_pairs_ok(b, width, du, nal_n, vcl_n, (last - first + 1) as u64)
        && x == tables_of(b, first)
}

/// Values that the writer accepts.
#[verifier::opaque]
pub open spec fn cpb_tables_can(
    x: (Seq<Seq<VvcInitialCpbDelays>>, Seq<Seq<VvcInitialCpbDelays>>),
    width: u32,
    du: bool,
    nal_n: u64,
    vcl_n: u64,
    first: u8,
    last: u8,
) -> bool {
    tables_fit(x, first, last)
        && cpb_pairs_can(coded_tables(x, first, last), width, du, nal_n, vcl_n, (last - first + 1) as u64)
}

/// Writing what was read gives back the bits that were read.
pub broadcast proof fn law_put_cpb_tables_at(
    s: Seq<bool>,
    p: nat,
    width: u32,
    du: bool,
    nal_n: u64,
    vcl_n: u64,
    first: u8,
    last: u8,
)
    requires
        first <= last <= 7,
        width <= 32,
    ensures
        #[trigger] cpb_tables_at(s, p, width, du, nal_n, vcl_n, first, last) matches Ok((x, q)) ==> {
            &&& cpb_tables_ok(x, width, du, nal_n, vcl_n, first, last)
            &&& cpb_tables_can(x, width, du, nal_n, vcl_n, first, last)
            &&& within(s, q)
                ==> within(s, p)
                && put_cpb_tables(upto(s, p), x, width, du, nal_n, vcl_n, first, last) == upto(s, q)
        },
{
    broadcast use law_put_cpb_pairs_at;

    reveal(cpb_tables_at);
    reveal(put_cpb_tables);
    reveal(cpb_tables_ok);
    reveal(cpb_tables_can);
    if let Ok((b, q)) = cpb_pairs_at(s, p, width, du, nal_n, vcl_n, (last - first + 1) as u64) {
        lemma_cpb_tables(b, width, du, nal_n, vcl_n, first, last);
    }
}

/// What was written reads back as the values that were written.
pub broadcast proof fn law_pre_put_cpb_tables(
    a: Seq<bool>,
    x: (Seq<Seq<VvcInitialCpbDelays>>, Seq<Seq<VvcInitialCpbDelays>>),
    width: u32,
    du: bool,
    nal_n: u64,
    vcl_n: u64,
    first: u8,
    last: u8,
    s: Seq<bool>,
)
    requires
        #[trigger] pre(put_cpb_tables(a, x, width, du, nal_n, vcl_n, first, last), s),
        cpb_tables_ok(x, width, du, nal_n, vcl_n, first, last),
        first <= last <= 7,
        width <= 32,
    ensures
        pre(a, s),
        cpb_tables_can(x, width, du, nal_n, vcl_n, first, last),
        cpb_tables_at(s, a.len(), width, du, nal_n, vcl_n, first, last) == Ok::<((Seq<Seq<VvcInitialCpbDelays>>, Seq<Seq<VvcInitialCpbDelays>>), nat), Fault>(
            (x, put_cpb_tables(a, x, width, du, nal_n, vcl_n, first, last).len()),
        ),
{
    broadcast use law_pre_put_cpb_pairs;

    reveal(cpb_tables_at);
    reveal(put_cpb_tables);
    reveal(cpb_tables_ok);
    reveal(cpb_tables_can);
}

/// What the writer accepts reads back, where the coded values are ones that reading can
/// give and the others are those that stand for what is not coded.
pub proof fn law_reads_cpb_tables(
    a: Seq<bool>,
    x: (Seq<Seq<VvcInitialCpbDelays>>, Seq<Seq<VvcInitialCpbDelays>>),
    width: u32,
    du: bool,
    nal_n: u64,
    vcl_n: u64,
    first: u8,
    last: u8,
    s: Seq<bool>,
)
    requires
        cpb_tables_can(x, width, du, nal_n, vcl_n, first, last),
        ({
            let b = coded_tables(x, first, last);
            cpb_pairs_ok(b, width, du, nal_n, vcl_n, (last - first + 1) as u64) && x == tables_of(b, first)
        }),
        pre(put_cpb_tables(a, x, width, du, nal_n, vcl_n, first, last), s),
        first <= last <= 7,
        width <= 32,
    ensures
        cpb_tables_at(s, a.len(), width, du, nal_n, vcl_n, first, last) == Ok::<((Seq<Seq<VvcInitialCpbDelays>>, Seq<Seq<VvcInitialCpbDelays>>), nat), Fault>(
            (x, put_cpb_tables(a, x, width, du, nal_n, vcl_n, first, last).len()),
        ),
{
    assert(cpb_tables_ok(x, width, du, nal_n, vcl_n, first, last)) by {
        reveal(cpb_tables_ok);
        reveal(cpb_tables_can);
    }
    law_pre_put_cpb_tables(a, x, width, du, nal_n, vcl_n, first, last, s);
}

/// Reading them never fails.
pub broadcast proof fn law_faults_cpb_tables(
    s: Seq<bool>,
    p: nat,
    width: u32,
    du: bool,
    nal_n: u64,
    vcl_n: u64,
    first: u8,
    last: u8,
)
    ensures
        #[trigger] cpb_tables_at(s, p, width, du, nal_n, vcl_n, first, last) is Ok,
{
    broadcast use law_faults_cpb_pairs;

    reveal(cpb_tables_at);
}

fn parse_cpb_tables(
    r: &mut BitReader<'_>,
    width: u32,
    du: bool,
    nal_n: u64,
    vcl_n: u64,
    first: u8,
    last: u8,
) -> (res: Result<([Vec<VvcInitialCpbDelays>; 8], [Vec<VvcInitialCpbDelays>; 8]), BitstreamError>)
    requires
        first <= last <= 7,
        width <= 32,
    ensures
        final(r).bits() == old(r).bits(),
        final(r).bytes() == old(r).bytes(),
        match cpb_tables_at(old(r).bits(), old(r).pos(), width, du, nal_n, vcl_n, first, last) {
            Ok((x, p)) => {
                &&& res matches Ok(v)
                &&& seq_view(v.0@) == x.0
                &&& seq_view(v.1@) == x.1
                &&& final(r).pos() == p
            },
            Err(f) => res matches Err(e) && e.fault() == f,
        },
{
    let ghost s = r.bits();
    let ghost p = r.pos();
    let ghost reads = cpb_pairs_item(s, width, du, nal_n, vcl_n);
    let ghost mut done: Seq<(Seq<VvcInitialCpbDelays>, Seq<VvcInitialCpbDelays>)> = Seq::empty();
    let mut nal: [Vec<VvcInitialCpbDelays>; 8] = [
        Vec::new(),
        Vec::new(),
        Vec::new(),
        Vec::new(),
        Vec::new(),
        Vec::new(),
        Vec::new(),
        Vec::new(),
    ];
    let mut vcl: [Vec<VvcInitialCpbDelays>; 8] = [
        Vec::new(),
        Vec::new(),
        Vec::new(),
        Vec::new(),
        Vec::new(),
        Vec::new(),
        Vec::new(),
        Vec::new(),
    ];
    let n: usize = (last - first) as usize + 1;
    proof {
        reveal(cpb_tables_at);
        reveal(cpb_pairs_at);
        assert(seq_view(nal@) =~= tables_of(done, first).0);
        assert(seq_view(vcl@) =~= tables_of(done, first).1);
    }
    let mut i: usize = 0;
    while i < n
        invariant
            i <= n,
            n == last - first + 1,
            first <= last <= 7,
            width <= 32,
            done.len() == i,
            reads == cpb_pairs_item(s, width, du, nal_n, vcl_n),
            s == r.bits(),
            s == old(r).bits(),
            p == old(r).pos(),
            r.bytes() == old(r).bytes(),
            rep_at(reads, p, i as nat) == Ok::<
                (Seq<(Seq<VvcInitialCpbDelays>, Seq<VvcInitialCpbDelays>)>, nat),
                Fault,
            >((done, r.pos())),
            seq_view(nal@) == tables_of(done, first).0,
            seq_view(vcl@) == tables_of(done, first).1,
        decreases n - i,
    {
        let ghost q = r.pos();
        proof {
            reveal(cpb_pair_at);
            if rep_at(reads, p, (i + 1) as nat) is Err {
                reveal(cpb_tables_at);
                reveal(cpb_pairs_at);
                lemma_rep_err(reads, p, (i + 1) as nat, n as nat);
            }
        }
        let a = parse_cpb_list(r, width, du, nal_n)?;
        let b = parse_cpb_list(r, width, du, vcl_n)?;
        let ghost before = done;
        proof {
            done = done.push((a@, b@));
        }
        let at: usize = first as usize + i;
        let ghost nal0 = nal@;
        let ghost vcl0 = vcl@;
        nal[at] = a;
        vcl[at] = b;
        proof {
            lemma_tables_push(before, done.last(), first);
            assert(seq_view(nal@) =~= seq_view(nal0).update(at as int, done.last().0));
            assert(seq_view(vcl@) =~= seq_view(vcl0).update(at as int, done.last().1));
        }
        i = i + 1;
    }
    Ok((nal, vcl))
}

fn write_cpb_tables(
    w: &mut BitWriter,
    x: &VvcBufferingPeriod,
    width: u32,
    du: bool,
    nal_n: u64,
    vcl_n: u64,
    first: u8,
    last: u8,
) -> (res: Result<(), BitstreamError>)
    requires
        first <= last <= 7,
        width <= 32,
    ensures
        ({
            let m = (seq_view(x.nal_initial_cpb@), seq_view(x.vcl_initial_cpb@));
            write_is(
                cpb_tables_can(m, width, du, nal_n, vcl_n, first, last),
                put_cpb_tables(old(w)@, m, width, du, nal_n, vcl_n, first, last),
                res,
                final(w)@,
            )
        }),
{
    let ghost m = (seq_view(x.nal_initial_cpb@), seq_view(x.vcl_initial_cpb@));
    let ghost ys = coded_tables(m, first, last);
    let ghost puts = put_cpb_pairs_item(width, du, nal_n, vcl_n);
    proof {
        reveal(cpb_tables_can);
        reveal(put_cpb_tables);
        reveal(cpb_pairs_can);
        reveal(put_cpb_pairs);
        assert(ys.take(0) =~= Seq::empty());
    }
    let mut k: usize = 0;
    while k < 8
        invariant
            k <= 8,
            m == (seq_view(x.nal_initial_cpb@), seq_view(x.vcl_initial_cpb@)),
            forall|i: int| 0 <= i < k && !(first <= i <= last) ==> #[trigger] no_entries(m, i),
        decreases 8 - k,
    {
        let coded: bool = first as usize <= k && k <= last as usize;
        if !coded && !(x.nal_initial_cpb[k].len() == 0 && x.vcl_initial_cpb[k].len() == 0) {
            proof {
                reveal(cpb_tables_can);
                assert(!no_entries(m, k as int));
            }
            return Err(
                if x.nal_initial_cpb[k].len() != 0 {
                    Message::new("buffering_period NAL initial-CPB sublayer ")
                        .num(k as i128)
                        .with(": ")
                        .num((x.nal_initial_cpb[k].len()) as i128)
                        .with(" entries, expected 0")
                        .invalid()
                } else {
                    Message::new("buffering_period VCL initial-CPB sublayer ")
                        .num(k as i128)
                        .with(": ")
                        .num((x.vcl_initial_cpb[k].len()) as i128)
                        .with(" entries, expected 0")
                        .invalid()
                },
            );
        }
        k = k + 1;
    }
    let n: usize = (last - first) as usize + 1;
    let mut i: usize = 0;
    while i < n
        invariant
            i <= n,
            n == last - first + 1,
            first <= last <= 7,
            width <= 32,
            m == (seq_view(x.nal_initial_cpb@), seq_view(x.vcl_initial_cpb@)),
            ys == coded_tables(m, first, last),
            puts == put_cpb_pairs_item(width, du, nal_n, vcl_n),
            w@ == put_rep(puts, old(w)@, ys.take(i as int)),
            forall|j: int| 0 <= j < i ==> cpb_pair_can(#[trigger] ys[j], width, du, nal_n, vcl_n),
        decreases n - i,
    {
        let at: usize = first as usize + i;
        proof {
            reveal(put_cpb_pair);
            reveal(cpb_pair_can);
            assert(ys.take(i + 1).drop_last() =~= ys.take(i as int));
            assert(ys[i as int] == (x.nal_initial_cpb@[at as int]@, x.vcl_initial_cpb@[at as int]@));
            if !cpb_pair_can(ys[i as int], width, du, nal_n, vcl_n) {
                reveal(cpb_tables_can);
                reveal(cpb_pairs_can);
            }
        }
        write_cpb_list(w, &x.nal_initial_cpb[at], width, du, nal_n, "NAL", at)?;
        write_cpb_list(w, &x.vcl_initial_cpb[at], width, du, vcl_n, "VCL", at)?;
        i = i + 1;
    }
    proof {
        assert(ys.take(i as int) =~= ys);
    }
    Ok(())
}

/// The removal delay deltas at position `p`, none unless `present`.
#[verifier::opaque]
pub open spec fn delta_vals_at(s: Seq<bool>, p: nat, present: bool, width: u32) -> Read<Seq<u32>> {
    match ue_if(s, p, present, 0) { Err(f) => Err(f), Ok((num, p)) => {
    if !(!present || num <= 15) { Err(Fault::Invalid) } else {
    let count = if present { (num as u64 + 1) as u64 } else { 0u64 };
    match us_at(s, p, width as nat, count as nat) { Err(f) => Err(f), Ok((v, p)) => {
    Ok((v, p)) }}}}}
}

/// The bits `a` followed by the removal delay deltas.
#[verifier::opaque]
pub open spec fn put_delta_vals(a: Seq<bool>, x: Seq<u32>, present: bool, width: u32) -> Seq<bool> {
    let num = if present { (x.len() - 1) as u32 } else { 0 };
    let a = put_ue_if(a, num as nat, present);
    let a = put_us(a, x, width as nat);
    a
}

/// The values of the removal delay deltas that reading can give.
#[verifier::opaque]
pub open spec fn delta_vals_ok(x: Seq<u32>, present: bool, width: u32) -> bool {
    &&& if present { 1 <= x.len() && x.len() <= 16 } else { x.len() == 0 }
    &&& {
        let num = if present { (x.len() - 1) as u32 } else { 0 };
        &&& if present { ue_fits(num as nat) } else { num == 0 }
        &&& !present || num <= 15
        &&& {
            let count = if present { (num as u64 + 1) as u64 } else { 0u64 };
            &&& us_ok(x, width as nat)
            &&& x.len() == count
        }
    }
}

/// The values of the removal delay deltas that the writer accepts.
#[verifier::opaque]
pub open spec fn delta_vals_can(x: Seq<u32>, present: bool, width: u32) -> bool {
    &&& if present { 1 <= x.len() && x.len() <= 16 } else { x.len() == 0 }
    &&& {
        let num = if present { (x.len() - 1) as u32 } else { 0 };
        &&& present ==> ue_fits(num as nat)
        &&& us_ok(x, width as nat)
    }
}

/// Parses the removal delay deltas.
fn parse_delta_vals(
    r: &mut BitReader<'_>,
    present: bool,
    width: u32,
) -> (res: Result<Vec<u32>, BitstreamError>)
    requires
        width <= 32,
    ensures
        read_view_is(delta_vals_at(old(r).bits(), old(r).pos(), present, width), res, *old(r), *final(r)),
{
    proof {
        reveal(delta_vals_at);
    }
    let num: u32 = r.ue_if(present, 0)?;
    if !(!present || num <= 15) {
        return Err(
            Message::new("bp_num_cpb_removal_delay_deltas_minus1=")
                .num(num as i128)
                .with(" (must be 0..=15, §D.3.2)")
                .invalid(),
        );
    }
    let count: u64 = if present { num as u64 + 1 } else { 0u64 };
    let v = r.read_us(count, width);
    Ok(v)
}

/// Emits the removal delay deltas, the inverse of [`parse_delta_vals`].
fn write_delta_vals(
    w: &mut BitWriter,
    x: &Vec<u32>,
    present: bool,
    width: u32,
) -> (res: Result<(), BitstreamError>)
    requires
        width <= 32,
    ensures
        write_is(
            delta_vals_can(x@, present, width),
            put_delta_vals(old(w)@, x@, present, width),
            res,
            final(w)@,
        ),
{
    proof {
        reveal(put_delta_vals);
        reveal(delta_vals_can);
    }
    if !(if present { 1 <= (*x).len() && (*x).len() <= 16 } else { (*x).len() == 0 }) {
        return Err(
            if present {
                BitstreamError::invalid("bp_cpb_removal_delay_delta_vals must have 1..=16 entries (§D.3.2)")
            } else {
                BitstreamError::invalid("bp_cpb_removal_delay_delta_vals without the deltas-present flag")
            },
        );
    }
    let num: u32 = if present { ((*x).len() - 1) as u32 } else { 0 };
    w.write_ue_if(num, present)?;
    if !us_fit((*x).as_slice(), width) {
        return Err(BitstreamError::invalid("bp_cpb_removal_delay_delta_val does not fit its length field"));
    }
    w.write_us(x.as_slice(), width);
    Ok(())
}

/// Writing the removal delay deltas gives back the bits it was read from.
pub broadcast proof fn law_put_delta_vals_at(s: Seq<bool>, p: nat, present: bool, width: u32)
    requires
        width <= 32,
    ensures
        #[trigger] delta_vals_at(s, p, present, width) matches Ok((x, q)) ==> {
            &&& delta_vals_ok(x, present, width)
            &&& delta_vals_can(x, present, width)
            &&& within(s, q) ==> within(s, p) && put_delta_vals(upto(s, p), x, present, width) == upto(s, q)
        },
{
    broadcast use {crate::bits::group_write_read, crate::bits::group_write_read_lists};

    reveal(delta_vals_at);
    reveal(put_delta_vals);
    reveal(delta_vals_ok);
    reveal(delta_vals_can);
}

/// Reading gives back the removal delay deltas as it was written.
pub broadcast proof fn law_pre_put_delta_vals(
    a: Seq<bool>,
    x: Seq<u32>,
    present: bool,
    width: u32,
    s: Seq<bool>,
)
    requires
        #[trigger] pre(put_delta_vals(a, x, present, width), s),
        delta_vals_ok(x, present, width),
        width <= 32,
    ensures
        pre(a, s),
        delta_vals_can(x, present, width),
        delta_vals_at(s, a.len(), present, width) == Ok::<(Seq<u32>, nat), Fault>(
            (x, put_delta_vals(a, x, present, width).len()),
        ),
{
    broadcast use {crate::bits::group_read_written, crate::bits::group_read_written_lists};

    reveal(delta_vals_at);
    reveal(put_delta_vals);
    reveal(delta_vals_ok);
    reveal(delta_vals_can);
}

/// The layout of the removal delay deltas: reading at `p` gives `x` and ends at
/// `q` if and only if these elements stand there in this order, and the values
/// are allowed.
pub proof fn law_layout_delta_vals(s: Seq<bool>, p: nat, present: bool, width: u32, x: Seq<u32>, q: nat)
    ensures
        delta_vals_at(s, p, present, width) == Ok::<(Seq<u32>, nat), Fault>((x, q)) <==> ({
            let c = cursor(s, p);
            let num = if present { c.next_ue() } else { 0 };
            let count = if present { (num as u64 + 1) as u64 } else { 0u64 };
            &&& c
                .ue_if(present, num, 0)
                .part(|p: nat| us_at(s, p, width as nat, count as nat), x)
                .ends(q)
            &&& (!present || num <= 15)
        }),
{
    reveal(delta_vals_at);
    reveal(ue_if);
}

/// Reading the removal delay deltas fails only with an error of this class.
pub broadcast proof fn law_faults_delta_vals(s: Seq<bool>, p: nat, present: bool, width: u32)
    ensures
        #[trigger] delta_vals_at(s, p, present, width) matches Err(f) ==> f == Fault::Invalid,
{
    broadcast use {crate::bits::law_faults_ue, crate::bits::law_faults_us};

    reveal(delta_vals_at);
    reveal(ue_if);
}

/// What the writer accepts reads back: the removal delay deltas, where each
/// field fits its width and what is not coded has the value that is taken for
/// it.
pub proof fn law_reads_delta_vals(a: Seq<bool>, x: Seq<u32>, present: bool, width: u32, s: Seq<bool>)
    requires
        delta_vals_can(x, present, width),
        pre(put_delta_vals(a, x, present, width), s),
        width <= 32,
    ensures
        delta_vals_at(s, a.len(), present, width) == Ok::<(Seq<u32>, nat), Fault>(
            (x, put_delta_vals(a, x, present, width).len()),
        ),
{
    assert(delta_vals_ok(x, present, width)) by {
        broadcast use crate::bits::law_fits_small;

        reveal(delta_vals_ok);
        reveal(delta_vals_can);
    }
    law_pre_put_delta_vals(a, x, present, width, s);
}

/// The mathematical model of a [`VvcBufferingPeriod`].
pub struct VvcBufferingPeriodModel {
    pub bp_nal_hrd_params_present_flag: bool,
    pub bp_vcl_hrd_params_present_flag: bool,
    pub bp_cpb_initial_removal_delay_length_minus1: u8,
    pub bp_cpb_removal_delay_length_minus1: u8,
    pub bp_dpb_output_delay_length_minus1: u8,
    pub bp_du_hrd_params_present_flag: bool,
    pub bp_du_cpb_removal_delay_increment_length_minus1: u8,
    pub bp_dpb_output_delay_du_length_minus1: u8,
    pub bp_du_cpb_params_in_pic_timing_sei_flag: bool,
    pub bp_du_dpb_params_in_pic_timing_sei_flag: bool,
    pub bp_concatenation_flag: bool,
    pub bp_additional_concatenation_info_present_flag: bool,
    pub bp_max_initial_removal_delay_for_concatenation: u32,
    pub bp_cpb_removal_delay_delta_minus1: u32,
    pub bp_max_sublayers_minus1: u8,
    pub bp_cpb_removal_delay_deltas_present_flag: bool,
    pub bp_cpb_removal_delay_delta_vals: Seq<u32>,
    pub bp_cpb_cnt_minus1: u32,
    pub bp_sublayer_initial_cpb_removal_delay_present_flag: bool,
    pub tables: (Seq<Seq<VvcInitialCpbDelays>>, Seq<Seq<VvcInitialCpbDelays>>),
    pub bp_sublayer_dpb_output_offsets_present_flag: bool,
    pub bp_dpb_output_tid_offsets: Seq<u32>,
    pub bp_alt_cpb_params_present_flag: bool,
    pub bp_use_alt_cpb_params_flag: bool,
}

impl View for VvcBufferingPeriod {
    type V = VvcBufferingPeriodModel;

    open spec fn view(&self) -> VvcBufferingPeriodModel {
        VvcBufferingPeriodModel {
            bp_nal_hrd_params_present_flag: self.bp_nal_hrd_params_present_flag,
            bp_vcl_hrd_params_present_flag: self.bp_vcl_hrd_params_present_flag,
            bp_cpb_initial_removal_delay_length_minus1: self.bp_cpb_initial_removal_delay_length_minus1,
            bp_cpb_removal_delay_length_minus1: self.bp_cpb_removal_delay_length_minus1,
            bp_dpb_output_delay_length_minus1: self.bp_dpb_output_delay_length_minus1,
            bp_du_hrd_params_present_flag: self.bp_du_hrd_params_present_flag,
            bp_du_cpb_removal_delay_increment_length_minus1: self.bp_du_cpb_removal_delay_increment_length_minus1,
            bp_dpb_output_delay_du_length_minus1: self.bp_dpb_output_delay_du_length_minus1,
            bp_du_cpb_params_in_pic_timing_sei_flag: self.bp_du_cpb_params_in_pic_timing_sei_flag,
            bp_du_dpb_params_in_pic_timing_sei_flag: self.bp_du_dpb_params_in_pic_timing_sei_flag,
            bp_concatenation_flag: self.bp_concatenation_flag,
            bp_additional_concatenation_info_present_flag: self.bp_additional_concatenation_info_present_flag,
            bp_max_initial_removal_delay_for_concatenation: self.bp_max_initial_removal_delay_for_concatenation,
            bp_cpb_removal_delay_delta_minus1: self.bp_cpb_removal_delay_delta_minus1,
            bp_max_sublayers_minus1: self.bp_max_sublayers_minus1,
            bp_cpb_removal_delay_deltas_present_flag: self.bp_cpb_removal_delay_deltas_present_flag,
            bp_cpb_removal_delay_delta_vals: self.bp_cpb_removal_delay_delta_vals@,
            bp_cpb_cnt_minus1: self.bp_cpb_cnt_minus1,
            bp_sublayer_initial_cpb_removal_delay_present_flag: self.bp_sublayer_initial_cpb_removal_delay_present_flag,
            tables: (seq_view(self.nal_initial_cpb@), seq_view(self.vcl_initial_cpb@)),
            bp_sublayer_dpb_output_offsets_present_flag: self.bp_sublayer_dpb_output_offsets_present_flag,
            bp_dpb_output_tid_offsets: self.bp_dpb_output_tid_offsets@,
            bp_alt_cpb_params_present_flag: self.bp_alt_cpb_params_present_flag,
            bp_use_alt_cpb_params_flag: self.bp_use_alt_cpb_params_flag,
        }
    }
}

/// `buffering_period()` (§D.3.1) at position `p`.
#[verifier::opaque]
pub open spec fn bp_at(s: Seq<bool>, p: nat) -> Read<VvcBufferingPeriodModel> {
    let bp_nal_hrd_params_present_flag = flag_at(s, p);
    let p = adv(p, 1);
    let bp_vcl_hrd_params_present_flag = flag_at(s, p);
    let p = adv(p, 1);
    let bp_cpb_initial_removal_delay_length_minus1 = u8_at(s, p, 5);
    let p = adv(p, 5);
    let bp_cpb_removal_delay_length_minus1 = u8_at(s, p, 5);
    let p = adv(p, 5);
    let bp_dpb_output_delay_length_minus1 = u8_at(s, p, 5);
    let p = adv(p, 5);
    let bp_du_hrd_params_present_flag = flag_at(s, p);
    let p = adv(p, 1);
    if !(bp_nal_hrd_params_present_flag || bp_vcl_hrd_params_present_flag) { Err(Fault::Invalid) } else {
    let bp_du_cpb_removal_delay_increment_length_minus1 = u8_if(s, p, 5, bp_du_hrd_params_present_flag, 0);
    let p = adv_if(p, 5, bp_du_hrd_params_present_flag);
    let bp_dpb_output_delay_du_length_minus1 = u8_if(s, p, 5, bp_du_hrd_params_present_flag, 0);
    let p = adv_if(p, 5, bp_du_hrd_params_present_flag);
    let bp_du_cpb_params_in_pic_timing_sei_flag = flag_if(s, p, bp_du_hrd_params_present_flag, false);
    let p = adv_if(p, 1, bp_du_hrd_params_present_flag);
    let bp_du_dpb_params_in_pic_timing_sei_flag = flag_if(s, p, bp_du_hrd_params_present_flag, false);
    let p = adv_if(p, 1, bp_du_hrd_params_present_flag);
    let bp_concatenation_flag = flag_at(s, p);
    let p = adv(p, 1);
    let bp_additional_concatenation_info_present_flag = flag_at(s, p);
    let p = adv(p, 1);
    let initial_len = (bp_cpb_initial_removal_delay_length_minus1 as u32 + 1) as u32;
    let removal_len = (bp_cpb_removal_delay_length_minus1 as u32 + 1) as u32;
    let bp_max_initial_removal_delay_for_concatenation = u32_if(
        s,
        p,
        initial_len as nat,
        bp_additional_concatenation_info_present_flag,
        0,
    );
    let p = adv_if(p, initial_len as nat, bp_additional_concatenation_info_present_flag);
    let bp_cpb_removal_delay_delta_minus1 = u32_at(s, p, removal_len as nat);
    let p = adv(p, removal_len as nat);
    let bp_max_sublayers_minus1 = u8_at(s, p, 3);
    let p = adv(p, 3);
    let bp_cpb_removal_delay_deltas_present_flag = flag_if(s, p, bp_max_sublayers_minus1 > 0, false);
    let p = adv_if(p, 1, bp_max_sublayers_minus1 > 0);
    match delta_vals_at(s, p, bp_cpb_removal_delay_deltas_present_flag, removal_len)
    { Err(f) => Err(f), Ok((bp_cpb_removal_delay_delta_vals, p)) => {
    match ue_at(s, p) { Err(f) => Err(f), Ok((bp_cpb_cnt_minus1, p)) => {
    if bp_cpb_cnt_minus1 > 31 { Err(Fault::Invalid) } else {
    let bp_sublayer_initial_cpb_removal_delay_present_flag = flag_if(
        s,
        p,
        bp_max_sublayers_minus1 > 0,
        false,
    );
    let p = adv_if(p, 1, bp_max_sublayers_minus1 > 0);
    let cpb_cnt = (bp_cpb_cnt_minus1 as u64 + 1) as u64;
    let first = if bp_sublayer_initial_cpb_removal_delay_present_flag { 0 } else { bp_max_sublayers_minus1 };
    match cpb_tables_at(
        s,
        p,
        initial_len,
        bp_du_hrd_params_present_flag,
        (if bp_nal_hrd_params_present_flag { cpb_cnt } else { 0u64 }),
        (if bp_vcl_hrd_params_present_flag { cpb_cnt } else { 0u64 }),
        first,
        bp_max_sublayers_minus1,
    )
    { Err(f) => Err(f), Ok((tables, p)) => {
    let bp_sublayer_dpb_output_offsets_present_flag = flag_if(s, p, bp_max_sublayers_minus1 > 0, false);
    let p = adv_if(p, 1, bp_max_sublayers_minus1 > 0);
    match (if bp_sublayer_dpb_output_offsets_present_flag {
        ues_at(s, p, (bp_max_sublayers_minus1 as u64) as nat)
    } else {
        Ok((Seq::empty(), p))
    })
    { Err(f) => Err(f), Ok((bp_dpb_output_tid_offsets, p)) => {
    let bp_alt_cpb_params_present_flag = flag_at(s, p);
    let p = adv(p, 1);
    let bp_use_alt_cpb_params_flag = flag_if(s, p, bp_alt_cpb_params_present_flag, false);
    let p = adv_if(p, 1, bp_alt_cpb_params_present_flag);
    Ok((
        VvcBufferingPeriodModel {
            bp_nal_hrd_params_present_flag,
            bp_vcl_hrd_params_present_flag,
            bp_cpb_initial_removal_delay_length_minus1,
            bp_cpb_removal_delay_length_minus1,
            bp_dpb_output_delay_length_minus1,
            bp_du_hrd_params_present_flag,
            bp_du_cpb_removal_delay_increment_length_minus1,
            bp_dpb_output_delay_du_length_minus1,
            bp_du_cpb_params_in_pic_timing_sei_flag,
            bp_du_dpb_params_in_pic_timing_sei_flag,
            bp_concatenation_flag,
            bp_additional_concatenation_info_present_flag,
            bp_max_initial_removal_delay_for_concatenation,
            bp_cpb_removal_delay_delta_minus1,
            bp_max_sublayers_minus1,
            bp_cpb_removal_delay_deltas_present_flag,
            bp_cpb_removal_delay_delta_vals,
            bp_cpb_cnt_minus1,
            bp_sublayer_initial_cpb_removal_delay_present_flag,
            tables,
            bp_sublayer_dpb_output_offsets_present_flag,
            bp_dpb_output_tid_offsets,
            bp_alt_cpb_params_present_flag,
            bp_use_alt_cpb_params_flag,
        },
        p,
    ))
    }}}}}}}}}}
}

/// The bits `a` followed by `buffering_period()` (§D.3.1).
#[verifier::opaque]
pub open spec fn put_bp(a: Seq<bool>, x: VvcBufferingPeriodModel) -> Seq<bool> {
    let a = put_flag(a, x.bp_nal_hrd_params_present_flag);
    let a = put_flag(a, x.bp_vcl_hrd_params_present_flag);
    let a = put_u(a, x.bp_cpb_initial_removal_delay_length_minus1 as nat, 5);
    let a = put_u(a, x.bp_cpb_removal_delay_length_minus1 as nat, 5);
    let a = put_u(a, x.bp_dpb_output_delay_length_minus1 as nat, 5);
    let a = put_flag(a, x.bp_du_hrd_params_present_flag);
    let a = put_u_if(
        a,
        x.bp_du_cpb_removal_delay_increment_length_minus1 as nat,
        5,
        x.bp_du_hrd_params_present_flag,
    );
    let a = put_u_if(a, x.bp_dpb_output_delay_du_length_minus1 as nat, 5, x.bp_du_hrd_params_present_flag);
    let a = put_flag_if(a, x.bp_du_cpb_params_in_pic_timing_sei_flag, x.bp_du_hrd_params_present_flag);
    let a = put_flag_if(a, x.bp_du_dpb_params_in_pic_timing_sei_flag, x.bp_du_hrd_params_present_flag);
    let a = put_flag(a, x.bp_concatenation_flag);
    let a = put_flag(a, x.bp_additional_concatenation_info_present_flag);
    let initial_len = (x.bp_cpb_initial_removal_delay_length_minus1 as u32 + 1) as u32;
    let removal_len = (x.bp_cpb_removal_delay_length_minus1 as u32 + 1) as u32;
    let a = put_u_if(
        a,
        x.bp_max_initial_removal_delay_for_concatenation as nat,
        initial_len as nat,
        x.bp_additional_concatenation_info_present_flag,
    );
    let a = put_u(a, x.bp_cpb_removal_delay_delta_minus1 as nat, removal_len as nat);
    let a = put_u(a, x.bp_max_sublayers_minus1 as nat, 3);
    let a = put_flag_if(a, x.bp_cpb_removal_delay_deltas_present_flag, x.bp_max_sublayers_minus1 > 0);
    let a = put_delta_vals(
        a,
        x.bp_cpb_removal_delay_delta_vals,
        x.bp_cpb_removal_delay_deltas_present_flag,
        removal_len,
    );
    let a = put_ue(a, x.bp_cpb_cnt_minus1 as nat);
    let a = put_flag_if(
        a,
        x.bp_sublayer_initial_cpb_removal_delay_present_flag,
        x.bp_max_sublayers_minus1 > 0,
    );
    let cpb_cnt = (x.bp_cpb_cnt_minus1 as u64 + 1) as u64;
    let first = if x.bp_sublayer_initial_cpb_removal_delay_present_flag {
        0
    } else {
        x.bp_max_sublayers_minus1
    };
    let a = put_cpb_tables(
        a,
        x.tables,
        initial_len,
        x.bp_du_hrd_params_present_flag,
        (if x.bp_nal_hrd_params_present_flag { cpb_cnt } else { 0u64 }),
        (if x.bp_vcl_hrd_params_present_flag { cpb_cnt } else { 0u64 }),
        first,
        x.bp_max_sublayers_minus1,
    );
    let a = put_flag_if(a, x.bp_sublayer_dpb_output_offsets_present_flag, x.bp_max_sublayers_minus1 > 0);
    let a = if x.bp_sublayer_dpb_output_offsets_present_flag {
        put_ues(a, x.bp_dpb_output_tid_offsets)
    } else {
        a
    };
    let a = put_flag(a, x.bp_alt_cpb_params_present_flag);
    let a = put_flag_if(a, x.bp_use_alt_cpb_params_flag, x.bp_alt_cpb_params_present_flag);
    a
}

/// The values of `buffering_period()` (§D.3.1) that reading can give.
#[verifier::opaque]
pub open spec fn bp_ok(x: VvcBufferingPeriodModel) -> bool {
    &&& fits(x.bp_cpb_initial_removal_delay_length_minus1 as nat, 5)
    &&& fits(x.bp_cpb_removal_delay_length_minus1 as nat, 5)
    &&& fits(x.bp_dpb_output_delay_length_minus1 as nat, 5)
    &&& x.bp_nal_hrd_params_present_flag || x.bp_vcl_hrd_params_present_flag
    &&& if x.bp_du_hrd_params_present_flag {
        fits(x.bp_du_cpb_removal_delay_increment_length_minus1 as nat, 5)
    } else {
        x.bp_du_cpb_removal_delay_increment_length_minus1 == 0
    }
    &&& if x.bp_du_hrd_params_present_flag {
        fits(x.bp_dpb_output_delay_du_length_minus1 as nat, 5)
    } else {
        x.bp_dpb_output_delay_du_length_minus1 == 0
    }
    &&& x.bp_du_hrd_params_present_flag || !x.bp_du_cpb_params_in_pic_timing_sei_flag
    &&& x.bp_du_hrd_params_present_flag || !x.bp_du_dpb_params_in_pic_timing_sei_flag
    &&& {
        let initial_len = (x.bp_cpb_initial_removal_delay_length_minus1 as u32 + 1) as u32;
        let removal_len = (x.bp_cpb_removal_delay_length_minus1 as u32 + 1) as u32;
        &&& if x.bp_additional_concatenation_info_present_flag {
            fits(x.bp_max_initial_removal_delay_for_concatenation as nat, initial_len as nat)
        } else {
            x.bp_max_initial_removal_delay_for_concatenation == 0
        }
        &&& fits(x.bp_cpb_removal_delay_delta_minus1 as nat, removal_len as nat)
        &&& fits(x.bp_max_sublayers_minus1 as nat, 3)
        &&& x.bp_max_sublayers_minus1 > 0 || !x.bp_cpb_removal_delay_deltas_present_flag
        &&& delta_vals_ok(
            x.bp_cpb_removal_delay_delta_vals,
            x.bp_cpb_removal_delay_deltas_present_flag,
            removal_len,
        )
        &&& x.bp_cpb_cnt_minus1 <= 31
        &&& x.bp_max_sublayers_minus1 > 0 || !x.bp_sublayer_initial_cpb_removal_delay_present_flag
        &&& {
            let cpb_cnt = (x.bp_cpb_cnt_minus1 as u64 + 1) as u64;
            let first = if x.bp_sublayer_initial_cpb_removal_delay_present_flag {
                0
            } else {
                x.bp_max_sublayers_minus1
            };
            &&& cpb_tables_ok(
                x.tables,
                initial_len,
                x.bp_du_hrd_params_present_flag,
                (if x.bp_nal_hrd_params_present_flag { cpb_cnt } else { 0u64 }),
                (if x.bp_vcl_hrd_params_present_flag { cpb_cnt } else { 0u64 }),
                first,
                x.bp_max_sublayers_minus1,
            )
            &&& x.bp_max_sublayers_minus1 > 0 || !x.bp_sublayer_dpb_output_offsets_present_flag
            &&& x.bp_dpb_output_tid_offsets.len() == (
                if x.bp_sublayer_dpb_output_offsets_present_flag {
                    x.bp_max_sublayers_minus1 as u64 as int
                } else {
                    0
                }
            )
            &&& ues_ok(x.bp_dpb_output_tid_offsets)
            &&& x.bp_alt_cpb_params_present_flag || !x.bp_use_alt_cpb_params_flag
        }
    }
}

/// The values of `buffering_period()` (§D.3.1) that the writer accepts.
#[verifier::opaque]
pub open spec fn bp_can(x: VvcBufferingPeriodModel) -> bool {
    &&& x.bp_cpb_initial_removal_delay_length_minus1 <= 31 && x.bp_cpb_removal_delay_length_minus1 <= 31
    &&& x.bp_nal_hrd_params_present_flag || x.bp_vcl_hrd_params_present_flag
    &&& {
        let initial_len = (x.bp_cpb_initial_removal_delay_length_minus1 as u32 + 1) as u32;
        let removal_len = (x.bp_cpb_removal_delay_length_minus1 as u32 + 1) as u32;
        &&& !x.bp_additional_concatenation_info_present_flag
            || fits(x.bp_max_initial_removal_delay_for_concatenation as nat, initial_len as nat)
        &&& fits(x.bp_cpb_removal_delay_delta_minus1 as nat, removal_len as nat)
        &&& x.bp_max_sublayers_minus1 <= 7
        &&& x.bp_max_sublayers_minus1 > 0 || !x.bp_cpb_removal_delay_deltas_present_flag
        &&& delta_vals_can(
            x.bp_cpb_removal_delay_delta_vals,
            x.bp_cpb_removal_delay_deltas_present_flag,
            removal_len,
        )
        &&& x.bp_cpb_cnt_minus1 <= 31
        &&& x.bp_max_sublayers_minus1 > 0 || !x.bp_sublayer_initial_cpb_removal_delay_present_flag
        &&& {
            let cpb_cnt = (x.bp_cpb_cnt_minus1 as u64 + 1) as u64;
            let first = if x.bp_sublayer_initial_cpb_removal_delay_present_flag {
                0
            } else {
                x.bp_max_sublayers_minus1
            };
            &&& cpb_tables_can(
                x.tables,
                initial_len,
                x.bp_du_hrd_params_present_flag,
                (if x.bp_nal_hrd_params_present_flag { cpb_cnt } else { 0u64 }),
                (if x.bp_vcl_hrd_params_present_flag { cpb_cnt } else { 0u64 }),
                first,
                x.bp_max_sublayers_minus1,
            )
            &&& x.bp_max_sublayers_minus1 > 0 || !x.bp_sublayer_dpb_output_offsets_present_flag
            &&& x.bp_dpb_output_tid_offsets.len() == (
                if x.bp_sublayer_dpb_output_offsets_present_flag {
                    x.bp_max_sublayers_minus1 as int
                } else {
                    0
                }
            )
            &&& x.bp_sublayer_dpb_output_offsets_present_flag ==> ues_ok(x.bp_dpb_output_tid_offsets)
            &&& x.bp_alt_cpb_params_present_flag || !x.bp_use_alt_cpb_params_flag
        }
    }
}

/// Parses `buffering_period()` (§D.3.1).
#[verifier::rlimit(60)]
#[verifier::spinoff_prover]
fn parse_bp(r: &mut BitReader<'_>) -> (res: Result<VvcBufferingPeriod, BitstreamError>)
    ensures
        read_view_is(bp_at(old(r).bits(), old(r).pos()), res, *old(r), *final(r)),
{
    proof {
        reveal(bp_at);
    }
    let bp_nal_hrd_params_present_flag: bool = r.flag();
    let bp_vcl_hrd_params_present_flag: bool = r.flag();
    let bp_cpb_initial_removal_delay_length_minus1: u8 = r.u8(5);
    let bp_cpb_removal_delay_length_minus1: u8 = r.u8(5);
    let bp_dpb_output_delay_length_minus1: u8 = r.u8(5);
    proof {
        law_fits_small(bp_cpb_initial_removal_delay_length_minus1 as nat, 5);
        law_fits_small(bp_cpb_removal_delay_length_minus1 as nat, 5);
    }
    let bp_du_hrd_params_present_flag: bool = r.flag();
    if !(bp_nal_hrd_params_present_flag || bp_vcl_hrd_params_present_flag) {
        return Err(
            BitstreamError::invalid("buffering_period: bp_nal/vcl_hrd_params_present_flag both 0 (§D.3.2)"),
        );
    }
    let bp_du_cpb_removal_delay_increment_length_minus1: u8 = r.u8_if(5, bp_du_hrd_params_present_flag, 0);
    let bp_dpb_output_delay_du_length_minus1: u8 = r.u8_if(5, bp_du_hrd_params_present_flag, 0);
    let bp_du_cpb_params_in_pic_timing_sei_flag: bool = r.flag_if(bp_du_hrd_params_present_flag, false);
    let bp_du_dpb_params_in_pic_timing_sei_flag: bool = r.flag_if(bp_du_hrd_params_present_flag, false);
    let bp_concatenation_flag: bool = r.flag();
    let bp_additional_concatenation_info_present_flag: bool = r.flag();
    let initial_len: u32 = bp_cpb_initial_removal_delay_length_minus1 as u32 + 1;
    let removal_len: u32 = bp_cpb_removal_delay_length_minus1 as u32 + 1;
    let bp_max_initial_removal_delay_for_concatenation: u32 = r.u_if(
        initial_len,
        bp_additional_concatenation_info_present_flag,
        0,
    );
    let bp_cpb_removal_delay_delta_minus1: u32 = r.u(removal_len);
    let bp_max_sublayers_minus1: u8 = r.u8(3);
    proof { law_fits_small(bp_max_sublayers_minus1 as nat, 3); }
    let bp_cpb_removal_delay_deltas_present_flag: bool = r.flag_if(bp_max_sublayers_minus1 > 0, false);
    let bp_cpb_removal_delay_delta_vals = parse_delta_vals(
        r,
        bp_cpb_removal_delay_deltas_present_flag,
        removal_len,
    )?;
    let bp_cpb_cnt_minus1: u32 = r.ue()?;
    if bp_cpb_cnt_minus1 > 31 {
        return Err(
            Message::new("bp_cpb_cnt_minus1=")
                .num(bp_cpb_cnt_minus1 as i128)
                .with(" (must be 0..=31, §D.3.2)")
                .invalid(),
        );
    }
    let bp_sublayer_initial_cpb_removal_delay_present_flag: bool = r.flag_if(
        bp_max_sublayers_minus1 > 0,
        false,
    );
    let cpb_cnt: u64 = bp_cpb_cnt_minus1 as u64 + 1;
    let first: u8 = if bp_sublayer_initial_cpb_removal_delay_present_flag {
        0
    } else {
        bp_max_sublayers_minus1
    };
    let tables = parse_cpb_tables(
        r,
        initial_len,
        bp_du_hrd_params_present_flag,
        (if bp_nal_hrd_params_present_flag { cpb_cnt } else { 0u64 }),
        (if bp_vcl_hrd_params_present_flag { cpb_cnt } else { 0u64 }),
        first,
        bp_max_sublayers_minus1,
    )?;
    let bp_sublayer_dpb_output_offsets_present_flag: bool = r.flag_if(bp_max_sublayers_minus1 > 0, false);
    let bp_dpb_output_tid_offsets = if bp_sublayer_dpb_output_offsets_present_flag {
        r.read_ues(bp_max_sublayers_minus1 as u64)?
    } else {
        Vec::new()
    };
    let bp_alt_cpb_params_present_flag: bool = r.flag();
    let bp_use_alt_cpb_params_flag: bool = r.flag_if(bp_alt_cpb_params_present_flag, false);
    Ok(VvcBufferingPeriod {
        bp_nal_hrd_params_present_flag,
        bp_vcl_hrd_params_present_flag,
        bp_cpb_initial_removal_delay_length_minus1,
        bp_cpb_removal_delay_length_minus1,
        bp_dpb_output_delay_length_minus1,
        bp_du_hrd_params_present_flag,
        bp_du_cpb_removal_delay_increment_length_minus1,
        bp_dpb_output_delay_du_length_minus1,
        bp_du_cpb_params_in_pic_timing_sei_flag,
        bp_du_dpb_params_in_pic_timing_sei_flag,
        bp_concatenation_flag,
        bp_additional_concatenation_info_present_flag,
        bp_max_initial_removal_delay_for_concatenation,
        bp_cpb_removal_delay_delta_minus1,
        bp_max_sublayers_minus1,
        bp_cpb_removal_delay_deltas_present_flag,
        bp_cpb_removal_delay_delta_vals,
        bp_cpb_cnt_minus1,
        bp_sublayer_initial_cpb_removal_delay_present_flag,
        nal_initial_cpb: tables.0,
        vcl_initial_cpb: tables.1,
        bp_sublayer_dpb_output_offsets_present_flag,
        bp_dpb_output_tid_offsets,
        bp_alt_cpb_params_present_flag,
        bp_use_alt_cpb_params_flag,
    })
}

/// Emits `buffering_period()` (§D.3.1), the inverse of [`parse_bp`].
#[verifier::rlimit(60)]
#[verifier::spinoff_prover]
fn write_bp(w: &mut BitWriter, x: &VvcBufferingPeriod) -> (res: Result<(), BitstreamError>)
    ensures
        write_is(bp_can(x@), put_bp(old(w)@, x@), res, final(w)@),
{
    proof {
        reveal(put_bp);
        reveal(bp_can);
    }
    w.write_flag(x.bp_nal_hrd_params_present_flag);
    w.write_flag(x.bp_vcl_hrd_params_present_flag);
    if !(x.bp_cpb_initial_removal_delay_length_minus1 <= 31 && x.bp_cpb_removal_delay_length_minus1 <= 31) {
        return Err(BitstreamError::invalid("a delay length does not fit u(5)"));
    }
    w.write_bits(x.bp_cpb_initial_removal_delay_length_minus1 as u32, 5);
    w.write_bits(x.bp_cpb_removal_delay_length_minus1 as u32, 5);
    w.write_bits(x.bp_dpb_output_delay_length_minus1 as u32, 5);
    w.write_flag(x.bp_du_hrd_params_present_flag);
    if !(x.bp_nal_hrd_params_present_flag || x.bp_vcl_hrd_params_present_flag) {
        return Err(
            BitstreamError::invalid("buffering_period: bp_nal/vcl_hrd_params_present_flag both 0 (§D.3.2)"),
        );
    }
    w.write_bits_if(
        x.bp_du_cpb_removal_delay_increment_length_minus1 as u32,
        5,
        x.bp_du_hrd_params_present_flag,
    );
    w.write_bits_if(x.bp_dpb_output_delay_du_length_minus1 as u32, 5, x.bp_du_hrd_params_present_flag);
    w.write_flag_if(x.bp_du_cpb_params_in_pic_timing_sei_flag, x.bp_du_hrd_params_present_flag);
    w.write_flag_if(x.bp_du_dpb_params_in_pic_timing_sei_flag, x.bp_du_hrd_params_present_flag);
    w.write_flag(x.bp_concatenation_flag);
    w.write_flag(x.bp_additional_concatenation_info_present_flag);
    let initial_len: u32 = x.bp_cpb_initial_removal_delay_length_minus1 as u32 + 1;
    let removal_len: u32 = x.bp_cpb_removal_delay_length_minus1 as u32 + 1;
    if !(
        !x.bp_additional_concatenation_info_present_flag
        || fits_bits(x.bp_max_initial_removal_delay_for_concatenation, initial_len)
    ) {
        return Err(
            BitstreamError::invalid(
                "bp_max_initial_removal_delay_for_concatenation does not fit its length field",
            ),
        );
    }
    w.write_bits_if(
        x.bp_max_initial_removal_delay_for_concatenation,
        initial_len,
        x.bp_additional_concatenation_info_present_flag,
    );
    if !fits_bits(x.bp_cpb_removal_delay_delta_minus1, removal_len) {
        return Err(
            BitstreamError::invalid("bp_cpb_removal_delay_delta_minus1 does not fit its length field"),
        );
    }
    w.write_bits(x.bp_cpb_removal_delay_delta_minus1, removal_len);
    if x.bp_max_sublayers_minus1 > 7 {
        return Err(BitstreamError::invalid("bp_max_sublayers_minus1 does not fit u(3)"));
    }
    w.write_bits(x.bp_max_sublayers_minus1 as u32, 3);
    if !(x.bp_max_sublayers_minus1 > 0 || !x.bp_cpb_removal_delay_deltas_present_flag) {
        return Err(
            BitstreamError::invalid(
                "bp_cpb_removal_delay_deltas_present_flag is inferred 0 for a single sublayer",
            ),
        );
    }
    w.write_flag_if(x.bp_cpb_removal_delay_deltas_present_flag, x.bp_max_sublayers_minus1 > 0);
    write_delta_vals(
        w,
        &x.bp_cpb_removal_delay_delta_vals,
        x.bp_cpb_removal_delay_deltas_present_flag,
        removal_len,
    )?;
    w.write_ue(x.bp_cpb_cnt_minus1)?;
    if x.bp_cpb_cnt_minus1 > 31 {
        return Err(BitstreamError::invalid("bp_cpb_cnt_minus1 must be 0..=31 (§D.3.2)"));
    }
    if !(x.bp_max_sublayers_minus1 > 0 || !x.bp_sublayer_initial_cpb_removal_delay_present_flag) {
        return Err(
            BitstreamError::invalid(
                "bp_sublayer_initial_cpb_removal_delay_present_flag is inferred 0 for a single sublayer",
            ),
        );
    }
    w.write_flag_if(x.bp_sublayer_initial_cpb_removal_delay_present_flag, x.bp_max_sublayers_minus1 > 0);
    let cpb_cnt: u64 = x.bp_cpb_cnt_minus1 as u64 + 1;
    let first: u8 = if x.bp_sublayer_initial_cpb_removal_delay_present_flag {
        0
    } else {
        x.bp_max_sublayers_minus1
    };
    write_cpb_tables(
        w,
        &(*x),
        initial_len,
        x.bp_du_hrd_params_present_flag,
        (if x.bp_nal_hrd_params_present_flag { cpb_cnt } else { 0u64 }),
        (if x.bp_vcl_hrd_params_present_flag { cpb_cnt } else { 0u64 }),
        first,
        x.bp_max_sublayers_minus1,
    )?;
    if !(x.bp_max_sublayers_minus1 > 0 || !x.bp_sublayer_dpb_output_offsets_present_flag) {
        return Err(
            BitstreamError::invalid(
                "bp_sublayer_dpb_output_offsets_present_flag is inferred 0 for a single sublayer",
            ),
        );
    }
    w.write_flag_if(x.bp_sublayer_dpb_output_offsets_present_flag, x.bp_max_sublayers_minus1 > 0);
    if !(x.bp_dpb_output_tid_offsets.len() == (if x.bp_sublayer_dpb_output_offsets_present_flag { x.bp_max_sublayers_minus1 as usize } else { 0 })) {
        return Err(
            BitstreamError::invalid(
                "bp_dpb_output_tid_offsets length does not match the offsets-present flag",
            ),
        );
    }
    if x.bp_sublayer_dpb_output_offsets_present_flag { w.write_ues(x.bp_dpb_output_tid_offsets.as_slice())?; }
    w.write_flag(x.bp_alt_cpb_params_present_flag);
    if !(x.bp_alt_cpb_params_present_flag || !x.bp_use_alt_cpb_params_flag) {
        return Err(
            BitstreamError::invalid("bp_use_alt_cpb_params_flag without bp_alt_cpb_params_present_flag"),
        );
    }
    w.write_flag_if(x.bp_use_alt_cpb_params_flag, x.bp_alt_cpb_params_present_flag);
    Ok(())
}

/// Writing `buffering_period()` (§D.3.1) gives back the bits it was read from.
#[verifier::rlimit(60)]
#[verifier::spinoff_prover]
pub broadcast proof fn law_put_bp_at(s: Seq<bool>, p: nat)
    ensures
        #[trigger] bp_at(s, p) matches Ok((x, q)) ==> {
            &&& bp_ok(x)
            &&& bp_can(x)
            &&& within(s, q) ==> within(s, p) && put_bp(upto(s, p), x) == upto(s, q)
        },
{
    broadcast use {
        crate::bits::group_write_read,
        crate::bits::group_write_read_lists,
        law_put_delta_vals_at,
        law_put_cpb_tables_at,
    };

    reveal(bp_at);
    reveal(put_bp);
    reveal(bp_ok);
    reveal(bp_can);
}

/// Reading gives back `buffering_period()` (§D.3.1) as it was written.
#[verifier::rlimit(60)]
#[verifier::spinoff_prover]
pub broadcast proof fn law_pre_put_bp(a: Seq<bool>, x: VvcBufferingPeriodModel, s: Seq<bool>)
    requires
        #[trigger] pre(put_bp(a, x), s),
        bp_ok(x),
    ensures
        pre(a, s),
        bp_can(x),
        bp_at(s, a.len()) == Ok::<(VvcBufferingPeriodModel, nat), Fault>((x, put_bp(a, x).len())),
{
    broadcast use {
        crate::bits::group_read_written,
        crate::bits::group_read_written_lists,
        law_pre_put_delta_vals,
        law_pre_put_cpb_tables,
    };

    reveal(bp_at);
    reveal(put_bp);
    reveal(bp_ok);
    reveal(bp_can);
    if x.bp_dpb_output_tid_offsets.len() == 0 {
        assert(x.bp_dpb_output_tid_offsets =~= Seq::empty());
    }
}

/// The layout of `buffering_period()` (§D.3.1): reading at `p` gives `x` and
/// ends at `q` if and only if these elements stand there in this order, and the
/// values are allowed.
#[verifier::rlimit(60)]
#[verifier::spinoff_prover]
pub proof fn law_layout_bp(s: Seq<bool>, p: nat, x: VvcBufferingPeriodModel, q: nat)
    ensures
        bp_at(s, p) == Ok::<(VvcBufferingPeriodModel, nat), Fault>((x, q)) <==> ({
            let initial_len = (x.bp_cpb_initial_removal_delay_length_minus1 as u32 + 1) as u32;
            let removal_len = (x.bp_cpb_removal_delay_length_minus1 as u32 + 1) as u32;
            let cpb_cnt = (x.bp_cpb_cnt_minus1 as u64 + 1) as u64;
            let first: u8 = if x.bp_sublayer_initial_cpb_removal_delay_present_flag {
                0
            } else {
                x.bp_max_sublayers_minus1
            };
            &&& cursor(s, p)
                .flag(x.bp_nal_hrd_params_present_flag)
                .flag(x.bp_vcl_hrd_params_present_flag)
                .u8(5, x.bp_cpb_initial_removal_delay_length_minus1)
                .u8(5, x.bp_cpb_removal_delay_length_minus1)
                .u8(5, x.bp_dpb_output_delay_length_minus1)
                .flag(x.bp_du_hrd_params_present_flag)
                .u8_if(
                    x.bp_du_hrd_params_present_flag,
                    5,
                    x.bp_du_cpb_removal_delay_increment_length_minus1,
                    0,
                )
                .u8_if(x.bp_du_hrd_params_present_flag, 5, x.bp_dpb_output_delay_du_length_minus1, 0)
                .flag_if(x.bp_du_hrd_params_present_flag, x.bp_du_cpb_params_in_pic_timing_sei_flag, false)
                .flag_if(x.bp_du_hrd_params_present_flag, x.bp_du_dpb_params_in_pic_timing_sei_flag, false)
                .flag(x.bp_concatenation_flag)
                .flag(x.bp_additional_concatenation_info_present_flag)
                .u32_if(
                    x.bp_additional_concatenation_info_present_flag,
                    initial_len as nat,
                    x.bp_max_initial_removal_delay_for_concatenation,
                    0,
                )
                .u32(removal_len as nat, x.bp_cpb_removal_delay_delta_minus1)
                .u8(3, x.bp_max_sublayers_minus1)
                .flag_if(x.bp_max_sublayers_minus1 > 0, x.bp_cpb_removal_delay_deltas_present_flag, false)
                .part(
                    |p: nat| delta_vals_at(s, p, x.bp_cpb_removal_delay_deltas_present_flag, removal_len),
                    x.bp_cpb_removal_delay_delta_vals,
                )
                .ue(x.bp_cpb_cnt_minus1)
                .flag_if(
                    x.bp_max_sublayers_minus1 > 0,
                    x.bp_sublayer_initial_cpb_removal_delay_present_flag,
                    false,
                )
                .part(
                    |p: nat| cpb_tables_at(
                        s,
                        p,
                        initial_len,
                        x.bp_du_hrd_params_present_flag,
                        (if x.bp_nal_hrd_params_present_flag { cpb_cnt } else { 0u64 }),
                        (if x.bp_vcl_hrd_params_present_flag { cpb_cnt } else { 0u64 }),
                        first,
                        x.bp_max_sublayers_minus1,
                    ),
                    x.tables,
                )
                .flag_if(x.bp_max_sublayers_minus1 > 0, x.bp_sublayer_dpb_output_offsets_present_flag, false)
                .part_or(
                    x.bp_sublayer_dpb_output_offsets_present_flag,
                    |p: nat| ues_at(s, p, (x.bp_max_sublayers_minus1 as u64) as nat),
                    x.bp_dpb_output_tid_offsets,
                    Seq::empty(),
                )
                .flag(x.bp_alt_cpb_params_present_flag)
                .flag_if(x.bp_alt_cpb_params_present_flag, x.bp_use_alt_cpb_params_flag, false)
                .ends(q)
            &&& (x.bp_nal_hrd_params_present_flag || x.bp_vcl_hrd_params_present_flag)
            &&& x.bp_cpb_cnt_minus1 <= 31
        }),
{
    reveal(bp_at);
    reveal(adv_if);
    reveal(flag_if);
    reveal(u32_if);
    reveal(u8_if);
}

/// Reading `buffering_period()` (§D.3.1) fails only with an error of this
/// class.
#[verifier::rlimit(60)]
#[verifier::spinoff_prover]
pub broadcast proof fn law_faults_bp(s: Seq<bool>, p: nat)
    ensures
        #[trigger] bp_at(s, p) matches Err(f) ==> f == Fault::Invalid,
{
    broadcast use {
        law_faults_delta_vals,
        crate::bits::law_faults_ue,
        law_faults_cpb_tables,
        crate::bits::law_faults_ues,
    };

    reveal(bp_at);
}

/// What the writer accepts reads back: `buffering_period()` (§D.3.1), where
/// each field fits its width and what is not coded has the value that is taken
/// for it.
#[verifier::rlimit(60)]
#[verifier::spinoff_prover]
pub proof fn law_reads_bp(a: Seq<bool>, x: VvcBufferingPeriodModel, s: Seq<bool>)
    requires
        bp_can(x),
        ({
            &&& fits(x.bp_dpb_output_delay_length_minus1 as nat, 5)
            &&& if x.bp_du_hrd_params_present_flag {
                fits(x.bp_du_cpb_removal_delay_increment_length_minus1 as nat, 5)
            } else {
                x.bp_du_cpb_removal_delay_increment_length_minus1 == 0
            }
            &&& if x.bp_du_hrd_params_present_flag {
                fits(x.bp_dpb_output_delay_du_length_minus1 as nat, 5)
            } else {
                x.bp_dpb_output_delay_du_length_minus1 == 0
            }
            &&& (!x.bp_du_hrd_params_present_flag ==> x.bp_du_cpb_params_in_pic_timing_sei_flag == false)
            &&& (!x.bp_du_hrd_params_present_flag ==> x.bp_du_dpb_params_in_pic_timing_sei_flag == false)
            &&& {
                let initial_len = (x.bp_cpb_initial_removal_delay_length_minus1 as u32 + 1) as u32;
                let removal_len = (x.bp_cpb_removal_delay_length_minus1 as u32 + 1) as u32;
                &&& (
                    !x.bp_additional_concatenation_info_present_flag
                        ==> x.bp_max_initial_removal_delay_for_concatenation == 0
                )
                &&& (!(x.bp_max_sublayers_minus1 > 0) ==> x.bp_cpb_removal_delay_deltas_present_flag == false)
                &&& delta_vals_ok(
                    x.bp_cpb_removal_delay_delta_vals,
                    x.bp_cpb_removal_delay_deltas_present_flag,
                    removal_len,
                )
                &&& (
                    !(x.bp_max_sublayers_minus1 > 0)
                        ==> x.bp_sublayer_initial_cpb_removal_delay_present_flag == false
                )
                &&& {
                    let cpb_cnt = (x.bp_cpb_cnt_minus1 as u64 + 1) as u64;
                    let first = if x.bp_sublayer_initial_cpb_removal_delay_present_flag {
                        0
                    } else {
                        x.bp_max_sublayers_minus1
                    };
                    &&& cpb_tables_ok(
                        x.tables,
                        initial_len,
                        x.bp_du_hrd_params_present_flag,
                        (if x.bp_nal_hrd_params_present_flag { cpb_cnt } else { 0u64 }),
                        (if x.bp_vcl_hrd_params_present_flag { cpb_cnt } else { 0u64 }),
                        first,
                        x.bp_max_sublayers_minus1,
                    )
                    &&& (
                        !(x.bp_max_sublayers_minus1 > 0)
                            ==> x.bp_sublayer_dpb_output_offsets_present_flag == false
                    )
                    &&& (
                        !x.bp_sublayer_dpb_output_offsets_present_flag
                            ==> x.bp_dpb_output_tid_offsets.len() == 0
                    )
                    &&& (!x.bp_alt_cpb_params_present_flag ==> x.bp_use_alt_cpb_params_flag == false)
                }
            }
        }),
        pre(put_bp(a, x), s),
    ensures
        bp_at(s, a.len()) == Ok::<(VvcBufferingPeriodModel, nat), Fault>((x, put_bp(a, x).len())),
{
    assert(bp_ok(x)) by {
        broadcast use crate::bits::law_fits_small;

        reveal(bp_ok);
        reveal(bp_can);
    }
    law_pre_put_bp(a, x, s);
}

/// Each field of the model of a [`VvcBufferingPeriod`] is the field of that name.
pub proof fn law_view_bp(x: VvcBufferingPeriod)
    ensures
        x@.bp_nal_hrd_params_present_flag == x.bp_nal_hrd_params_present_flag,
        x@.bp_vcl_hrd_params_present_flag == x.bp_vcl_hrd_params_present_flag,
        x@.bp_cpb_initial_removal_delay_length_minus1 == x.bp_cpb_initial_removal_delay_length_minus1,
        x@.bp_cpb_removal_delay_length_minus1 == x.bp_cpb_removal_delay_length_minus1,
        x@.bp_dpb_output_delay_length_minus1 == x.bp_dpb_output_delay_length_minus1,
        x@.bp_du_hrd_params_present_flag == x.bp_du_hrd_params_present_flag,
        x@.bp_du_cpb_removal_delay_increment_length_minus1 == x.bp_du_cpb_removal_delay_increment_length_minus1,
        x@.bp_dpb_output_delay_du_length_minus1 == x.bp_dpb_output_delay_du_length_minus1,
        x@.bp_du_cpb_params_in_pic_timing_sei_flag == x.bp_du_cpb_params_in_pic_timing_sei_flag,
        x@.bp_du_dpb_params_in_pic_timing_sei_flag == x.bp_du_dpb_params_in_pic_timing_sei_flag,
        x@.bp_concatenation_flag == x.bp_concatenation_flag,
        x@.bp_additional_concatenation_info_present_flag == x.bp_additional_concatenation_info_present_flag,
        x@.bp_max_initial_removal_delay_for_concatenation == x.bp_max_initial_removal_delay_for_concatenation,
        x@.bp_cpb_removal_delay_delta_minus1 == x.bp_cpb_removal_delay_delta_minus1,
        x@.bp_max_sublayers_minus1 == x.bp_max_sublayers_minus1,
        x@.bp_cpb_removal_delay_deltas_present_flag == x.bp_cpb_removal_delay_deltas_present_flag,
        x@.bp_cpb_removal_delay_delta_vals == x.bp_cpb_removal_delay_delta_vals@,
        x@.bp_cpb_cnt_minus1 == x.bp_cpb_cnt_minus1,
        x@.bp_sublayer_initial_cpb_removal_delay_present_flag == x.bp_sublayer_initial_cpb_removal_delay_present_flag,
        x@.tables == (seq_view(x.nal_initial_cpb@), seq_view(x.vcl_initial_cpb@)),
        x@.bp_sublayer_dpb_output_offsets_present_flag == x.bp_sublayer_dpb_output_offsets_present_flag,
        x@.bp_dpb_output_tid_offsets == x.bp_dpb_output_tid_offsets@,
        x@.bp_alt_cpb_params_present_flag == x.bp_alt_cpb_params_present_flag,
        x@.bp_use_alt_cpb_params_flag == x.bp_use_alt_cpb_params_flag,
{
}

/// The buffering_period that the message `m` holds.
pub open spec fn bp_of(m: SeiMessageModel) -> Result<VvcBufferingPeriodModel, Fault> {
    if m.payload_type != SEI_TYPE_BUFFERING_PERIOD {
        Err(Fault::Invalid)
    } else {
        payload_read(bits_of(m.payload), bp_at(bits_of(m.payload), 0))
    }
}

/// The bits of the payload that holds `x`.
pub open spec fn bp_payload(x: VvcBufferingPeriodModel) -> Seq<bool> {
    put_payload_end(put_bp(Seq::empty(), x))
}

/// Decode a `buffering_period()` payload (§D.3.1).
pub fn decode_buffering_period(msg: &SeiMessage) -> (res: Result<VvcBufferingPeriod, BitstreamError>)
    ensures
        nal_read_is(bp_of(msg@), res),
{
    if msg.payload_type != SEI_TYPE_BUFFERING_PERIOD {
        return Err(
            Message::new("expected buffering_period payloadType ")
                .num(SEI_TYPE_BUFFERING_PERIOD as i128)
                .with(", got ")
                .num(msg.payload_type as i128)
                .invalid(),
        );
    }
    let mut r = BitReader::new(msg.payload.as_slice());
    let x = parse_bp(&mut r)?;
    read_payload_alignment(&mut r, "buffering_period")?;
    Ok(x)
}

/// Encode a `buffering_period()` into a framed [`SeiMessage`], the
/// byte-exact inverse of [`decode_buffering_period`].
pub fn encode_buffering_period(x: &VvcBufferingPeriod) -> (res: Result<SeiMessage, BitstreamError>)
    ensures
        payload_write_is(bp_can(x@), SEI_TYPE_BUFFERING_PERIOD, bp_payload(x@), res),
{
    let mut w = BitWriter::new();
    write_bp(&mut w, x)?;
    Ok(SeiMessage { payload_type: SEI_TYPE_BUFFERING_PERIOD, payload: finish_payload(w) })
}

/// A buffering_period message is one of type 0, whose payload is its
/// fields and the closing bits.
pub proof fn law_bp_message(m: SeiMessageModel, x: VvcBufferingPeriodModel)
    ensures
        bp_of(m) == Ok::<VvcBufferingPeriodModel, Fault>(x) <==> ({
            let s = bits_of(m.payload);
            let c = cursor(s, 0).part(|p: nat| bp_at(s, p), x);
            &&& m.payload_type == 0
            &&& c.good && c.pos <= s.len()
            &&& s == put_payload_end(upto(s, c.pos))
        }),
        m.payload_type != 0 ==> bp_of(m) == Err::<VvcBufferingPeriodModel, Fault>(Fault::Invalid),
{
}

/// [`decode_buffering_period`] gives the value that the message holds, or an error of its class,
/// and [`encode_buffering_period`] the message of type 0 with the bits of the value and
/// the closing bits.
pub proof fn law_decode_buffering_period(
    m: SeiMessage,
    x: VvcBufferingPeriod,
    decoded: Result<VvcBufferingPeriod, BitstreamError>,
    encoded: Result<SeiMessage, BitstreamError>,
)
    requires
        call_ensures(decode_buffering_period, (&m, ), decoded),
        call_ensures(encode_buffering_period, (&x, ), encoded),
    ensures
        match decoded {
            Ok(v) => bp_of(m@) == Ok::<VvcBufferingPeriodModel, Fault>(v@),
            Err(e) => bp_of(m@) == Err::<VvcBufferingPeriodModel, Fault>(e.fault()),
        },
        match encoded {
            Ok(n) => {
                &&& bp_can(x@)
                &&& n.payload_type == 0
                &&& bits_of(n.payload@) == put_payload_end(put_bp(Seq::empty(), x@))
            },
            Err(e) => !bp_can(x@) && e.fault() == Fault::Invalid,
        },
{
}

/// Encoding what was decoded gives back the payload.
pub proof fn law_encode_decoded_bp(m: SeiMessageModel)
    requires
        m.payload.len() <= usize::MAX,
    ensures
        bp_of(m) matches Ok(x) ==> {
            &&& bp_ok(x)
            &&& bp_can(x)
            &&& bp_payload(x) == bits_of(m.payload)
            &&& forall|out: Seq<u8>| bits_of(out) == bp_payload(x) ==> out == m.payload
        },
{
    let s = bits_of(m.payload);
    lemma_bits_of_len(m.payload);
    if let Ok((x, p)) = bp_at(s, 0) {
        if payload_end_at(s, p) is Ok {
            law_put_bp_at(s, 0);
            lemma_payload_end(s, p);
            assert(upto(s, 0) =~= Seq::empty()) by {
                reveal(upto);
            }
            assert forall|out: Seq<u8>| bits_of(out) == bp_payload(x) implies out == m.payload by {
                lemma_bits_of_injective(out, m.payload);
            }
        }
    }
}

/// Decoding what was encoded gives back the value.
pub proof fn law_decode_encoded_bp(x: VvcBufferingPeriodModel, m: SeiMessageModel)
    requires
        bp_ok(x),
        m.payload_type == SEI_TYPE_BUFFERING_PERIOD,
        bits_of(m.payload) == bp_payload(x),
        m.payload.len() <= usize::MAX,
    ensures
        bp_can(x),
        bp_of(m) == Ok::<VvcBufferingPeriodModel, Fault>(x),
{
    let s = bits_of(m.payload);
    lemma_bits_of_len(m.payload);
    lemma_payload_closed(put_bp(Seq::empty(), x), s);
    law_pre_put_bp(Seq::empty(), x, s);
}

// ─────────────────────────── Picture timing (§D.4) ──────────────────────────

/// Per-sublayer alternative-CPB timing block (§D.4.1 inner loops).
#[derive(Debug, Clone, Default, PartialEq, Eq)]
pub struct VvcPtAltCpb {
    /// `(alt_initial_removal_delay_delta[j],
    /// alt_initial_removal_offset_delta[j])`, `bp_cpb_cnt_minus1 + 1`
    /// entries, each `u(bp_cpb_initial_removal_delay_length_minus1 +
    /// 1)`.
    pub initial_deltas: Vec<(u32, u32)>,
    /// `u(bp_cpb_removal_delay_length_minus1 + 1)`.
    pub cpb_delay_offset: u32,
    /// `u(bp_dpb_output_delay_length_minus1 + 1)`.
    pub dpb_delay_offset: u32,
}

/// Decoding-unit block of `pic_timing()` — coded iff
/// `bp_du_hrd_params_present_flag &&
/// bp_du_cpb_params_in_pic_timing_sei_flag`.
#[derive(Debug, Clone, Default, PartialEq, Eq)]
pub struct VvcPtDuInfo {
    /// Coded iff `pt_num_decoding_units_minus1 > 0`; inferred 0.
    pub pt_du_common_cpb_removal_delay_flag: bool,
    /// `pt_du_common_cpb_removal_delay_increment_minus1[i]` — coded
    /// for sublayers with delays present when the common flag is set.
    pub common_increment_minus1: [u32; 8],
    /// `pt_num_nalus_in_du_minus1[i]` — one per decoding unit.
    pub num_nalus_in_du_minus1: Vec<u32>,
    /// `pt_du_cpb_removal_delay_increment_minus1[i][j]` — one row per
    /// decoding unit `i < pt_num_decoding_units_minus1` when the
    /// common flag is off; indexed by absolute sublayer `j`.
    pub du_increment_minus1: Vec<[u32; 8]>,
}

/// `pic_timing()` (§D.4.1). Sublayer-indexed arrays are absolute
/// (`TemporalId ..= bp_max_sublayers_minus1` hold coded/inferred
/// values; other entries stay at their defaults).
#[derive(Debug, Clone, Default, PartialEq, Eq)]
pub struct VvcPicTiming {
    /// `pt_cpb_removal_delay_minus1[i]`,
    /// `u(bp_cpb_removal_delay_length_minus1 + 1)`. Entry
    /// `[bp_max_sublayers_minus1]` is always coded (first syntax
    /// element).
    pub pt_cpb_removal_delay_minus1: [u32; 8],
    /// `[bp_max_sublayers_minus1]` is inferred 1 (§D.4.2).
    pub pt_sublayer_delays_present_flag: [bool; 8],
    pub pt_cpb_removal_delay_delta_enabled_flag: [bool; 8],
    /// `u(Ceil(Log2(bp_num_cpb_removal_delay_deltas_minus1 + 1)))`;
    /// inferred 0 when that width is zero.
    pub pt_cpb_removal_delay_delta_idx: [u32; 8],
    /// `u(bp_dpb_output_delay_length_minus1 + 1)`.
    pub pt_dpb_output_delay: u32,
    /// Coded iff `bp_alt_cpb_params_present_flag`.
    pub pt_cpb_alt_timing_info_present_flag: bool,
    /// Per-sublayer alternative timing for the NAL HRD — `Some` for
    /// the §D.3.1-coded sublayer range when alt timing is on and the
    /// BP signals the NAL HRD.
    pub nal_alt: [Option<VvcPtAltCpb>; 8],
    pub vcl_alt: [Option<VvcPtAltCpb>; 8],
    /// `u(bp_dpb_output_delay_du_length_minus1 + 1)` — coded iff
    /// `bp_du_hrd_params_present_flag &&
    /// bp_du_dpb_params_in_pic_timing_sei_flag`.
    pub pt_dpb_output_du_delay: u32,
    /// `Some` iff `bp_du_hrd_params_present_flag &&
    /// bp_du_cpb_params_in_pic_timing_sei_flag`.
    pub du: Option<VvcPtDuInfo>,
    /// Coded iff `bp_additional_concatenation_info_present_flag`.
    pub pt_delay_for_concatenation_ensured_flag: bool,
    pub pt_display_elemental_periods_minus1: u8,
}

/// The removal delay of a sublayer.
#[derive(Clone, Copy)]
pub struct PtDelay {
    /// pt_sublayer_delays_present_flag.
    pub present: bool,
    /// pt_cpb_removal_delay_delta_enabled_flag.
    pub enabled: bool,
    /// pt_cpb_removal_delay_delta_idx.
    pub idx: u32,
    /// pt_cpb_removal_delay_minus1.
    pub delay: u32,
}

/// The removal delay of a sublayer below the highest at position `p`.
#[verifier::opaque]
pub open spec fn pt_delay_at(
    s: Seq<bool>,
    p: nat,
    deltas: bool,
    idx_len: u32,
    count: u64,
    removal_len: u32,
) -> Read<PtDelay> {
    let present = flag_at(s, p);
    let p = adv(p, 1);
    let enabled = flag_if(s, p, present && deltas, false);
    let p = adv_if(p, 1, present && deltas);
    let idx = u32_if(s, p, idx_len as nat, present && enabled && idx_len > 0, 0);
    let p = adv_if(p, idx_len as nat, present && enabled && idx_len > 0);
    if !(!(present && enabled && idx_len > 0) || (idx as u64) < count) { Err(Fault::Invalid) } else {
    let delay = u32_if(s, p, removal_len as nat, present && !enabled, 0);
    let p = adv_if(p, removal_len as nat, present && !enabled);
    Ok((PtDelay { present, enabled, idx, delay }, p))
    }
}

/// The bits `a` followed by the removal delay of a sublayer below the highest.
#[verifier::opaque]
pub open spec fn put_pt_delay(
    a: Seq<bool>,
    x: PtDelay,
    deltas: bool,
    idx_len: u32,
    count: u64,
    removal_len: u32,
) -> Seq<bool> {
    let a = put_flag(a, x.present);
    let a = put_flag_if(a, x.enabled, x.present && deltas);
    let a = put_u_if(a, x.idx as nat, idx_len as nat, x.present && x.enabled && idx_len > 0);
    let a = put_u_if(a, x.delay as nat, removal_len as nat, x.present && !x.enabled);
    a
}

/// The values of the removal delay of a sublayer below the highest that reading
/// can give.
#[verifier::opaque]
pub open spec fn pt_delay_ok(x: PtDelay, deltas: bool, idx_len: u32, count: u64, removal_len: u32) -> bool {
    &&& !(x.present && x.enabled) || deltas
    &&& x.present && deltas || !x.enabled
    &&& !(x.present && x.enabled) || (x.idx as u64) < (if count > 1 { count } else { 1u64 })
    &&& if x.present && x.enabled && idx_len > 0 { fits(x.idx as nat, idx_len as nat) } else { x.idx == 0 }
    &&& !(x.present && x.enabled && idx_len > 0) || (x.idx as u64) < count
    &&& if x.present && !x.enabled { fits(x.delay as nat, removal_len as nat) } else { x.delay == 0 }
}

/// The values of the removal delay of a sublayer below the highest that the
/// writer accepts.
#[verifier::opaque]
pub open spec fn pt_delay_can(x: PtDelay, deltas: bool, idx_len: u32, count: u64, removal_len: u32) -> bool {
    &&& !(x.present && x.enabled) || deltas
    &&& !(x.present && x.enabled) || (x.idx as u64) < (if count > 1 { count } else { 1u64 })
    &&& !(x.present && !x.enabled) || fits(x.delay as nat, removal_len as nat)
}

/// Parses the removal delay of a sublayer below the highest.
fn parse_pt_delay(
    r: &mut BitReader<'_>,
    deltas: bool,
    idx_len: u32,
    count: u64,
    removal_len: u32,
) -> (res: Result<PtDelay, BitstreamError>)
    requires
        idx_len <= 32,
        removal_len <= 32,
    ensures
        read_is(
            pt_delay_at(old(r).bits(), old(r).pos(), deltas, idx_len, count, removal_len),
            res,
            *old(r),
            *final(r),
        ),
{
    proof {
        reveal(pt_delay_at);
    }
    let present: bool = r.flag();
    let enabled: bool = r.flag_if(present && deltas, false);
    let idx: u32 = r.u_if(idx_len, present && enabled && idx_len > 0, 0);
    if !(!(present && enabled && idx_len > 0) || (idx as u64) < count) {
        return Err(
            BitstreamError::invalid("pt_cpb_removal_delay_delta_idx out of the BP delta list (§D.4.2)"),
        );
    }
    let delay: u32 = r.u_if(removal_len, present && !enabled, 0);
    Ok(PtDelay { present, enabled, idx, delay })
}

/// Emits the removal delay of a sublayer below the highest, the inverse of
/// [`parse_pt_delay`].
fn write_pt_delay(
    w: &mut BitWriter,
    x: &PtDelay,
    deltas: bool,
    idx_len: u32,
    count: u64,
    removal_len: u32,
) -> (res: Result<(), BitstreamError>)
    requires
        idx_len <= 32,
        removal_len <= 32,
    ensures
        write_is(
            pt_delay_can(*x, deltas, idx_len, count, removal_len),
            put_pt_delay(old(w)@, *x, deltas, idx_len, count, removal_len),
            res,
            final(w)@,
        ),
{
    proof {
        reveal(put_pt_delay);
        reveal(pt_delay_can);
    }
    w.write_flag(x.present);
    if !(!(x.present && x.enabled) || deltas) {
        return Err(
            BitstreamError::invalid(
                "pt_cpb_removal_delay_delta_enabled_flag requires BP removal-delay deltas (§D.4.1)",
            ),
        );
    }
    w.write_flag_if(x.enabled, x.present && deltas);
    if !(!(x.present && x.enabled) || (x.idx as u64) < (if count > 1 { count } else { 1u64 })) {
        return Err(
            BitstreamError::invalid("pt_cpb_removal_delay_delta_idx out of the BP delta list (§D.4.2)"),
        );
    }
    w.write_bits_if(x.idx, idx_len, x.present && x.enabled && idx_len > 0);
    if !(!(x.present && !x.enabled) || fits_bits(x.delay, removal_len)) {
        return Err(BitstreamError::invalid("pt_cpb_removal_delay_minus1 does not fit its length field"));
    }
    w.write_bits_if(x.delay, removal_len, x.present && !x.enabled);
    Ok(())
}

/// Writing the removal delay of a sublayer below the highest gives back the
/// bits it was read from.
pub broadcast proof fn law_put_pt_delay_at(
    s: Seq<bool>,
    p: nat,
    deltas: bool,
    idx_len: u32,
    count: u64,
    removal_len: u32,
)
    requires
        idx_len <= 32,
        removal_len <= 32,
    ensures
        #[trigger] pt_delay_at(s, p, deltas, idx_len, count, removal_len) matches Ok((x, q)) ==> {
            &&& pt_delay_ok(x, deltas, idx_len, count, removal_len)
            &&& pt_delay_can(x, deltas, idx_len, count, removal_len)
            &&& within(s, q)
                ==> within(s, p)
                && put_pt_delay(upto(s, p), x, deltas, idx_len, count, removal_len) == upto(s, q)
        },
{
    broadcast use crate::bits::group_write_read;

    reveal(pt_delay_at);
    reveal(put_pt_delay);
    reveal(pt_delay_ok);
    reveal(pt_delay_can);
}

/// Reading gives back the removal delay of a sublayer below the highest as it
/// was written.
pub broadcast proof fn law_pre_put_pt_delay(
    a: Seq<bool>,
    x: PtDelay,
    deltas: bool,
    idx_len: u32,
    count: u64,
    removal_len: u32,
    s: Seq<bool>,
)
    requires
        #[trigger] pre(put_pt_delay(a, x, deltas, idx_len, count, removal_len), s),
        pt_delay_ok(x, deltas, idx_len, count, removal_len),
        idx_len <= 32,
        removal_len <= 32,
    ensures
        pre(a, s),
        pt_delay_can(x, deltas, idx_len, count, removal_len),
        pt_delay_at(s, a.len(), deltas, idx_len, count, removal_len) == Ok::<(PtDelay, nat), Fault>(
            (x, put_pt_delay(a, x, deltas, idx_len, count, removal_len).len()),
        ),
{
    broadcast use crate::bits::group_read_written;

    reveal(pt_delay_at);
    reveal(put_pt_delay);
    reveal(pt_delay_ok);
    reveal(pt_delay_can);
}

/// The layout of the removal delay of a sublayer below the highest: reading at
/// `p` gives `x` and ends at `q` if and only if these elements stand there in
/// this order, and the values are allowed.
pub proof fn law_layout_pt_delay(
    s: Seq<bool>,
    p: nat,
    deltas: bool,
    idx_len: u32,
    count: u64,
    removal_len: u32,
    x: PtDelay,
    q: nat,
)
    ensures
        pt_delay_at(s, p, deltas, idx_len, count, removal_len) == Ok::<(PtDelay, nat), Fault>((x, q)) <==> ({
            &&& cursor(s, p)
                .flag(x.present)
                .flag_if(x.present && deltas, x.enabled, false)
                .u32_if(x.present && x.enabled && idx_len > 0, idx_len as nat, x.idx, 0)
                .u32_if(x.present && !x.enabled, removal_len as nat, x.delay, 0)
                .ends(q)
            &&& (!(x.present && x.enabled && idx_len > 0) || (x.idx as u64) < count)
        }),
{
    reveal(pt_delay_at);
    reveal(adv_if);
    reveal(flag_if);
    reveal(u32_if);
}

/// Reading the removal delay of a sublayer below the highest fails only with an
/// error of this class.
pub broadcast proof fn law_faults_pt_delay(
    s: Seq<bool>,
    p: nat,
    deltas: bool,
    idx_len: u32,
    count: u64,
    removal_len: u32,
)
    ensures
        #[trigger] pt_delay_at(s, p, deltas, idx_len, count, removal_len) matches Err(f)
            ==> f == Fault::Invalid,
{
    reveal(pt_delay_at);
}

/// What the writer accepts reads back: the removal delay of a sublayer below
/// the highest, where each field fits its width and what is not coded has the
/// value that is taken for it.
pub proof fn law_reads_pt_delay(
    a: Seq<bool>,
    x: PtDelay,
    deltas: bool,
    idx_len: u32,
    count: u64,
    removal_len: u32,
    s: Seq<bool>,
)
    requires
        pt_delay_can(x, deltas, idx_len, count, removal_len),
        !(x.present && deltas) ==> x.enabled == false,
        if x.present && x.enabled && idx_len > 0 { fits(x.idx as nat, idx_len as nat) } else { x.idx == 0 },
        !(x.present && !x.enabled) ==> x.delay == 0,
        count > 0,
        pre(put_pt_delay(a, x, deltas, idx_len, count, removal_len), s),
        idx_len <= 32,
        removal_len <= 32,
    ensures
        pt_delay_at(s, a.len(), deltas, idx_len, count, removal_len) == Ok::<(PtDelay, nat), Fault>(
            (x, put_pt_delay(a, x, deltas, idx_len, count, removal_len).len()),
        ),
{
    assert(pt_delay_ok(x, deltas, idx_len, count, removal_len)) by {
        broadcast use crate::bits::law_fits_small;

        reveal(pt_delay_ok);
        reveal(pt_delay_can);
    }
    law_pre_put_pt_delay(a, x, deltas, idx_len, count, removal_len, s);
}

/// Reads the removal delay of a sublayer below the highest, behind the items
/// before it.
pub open spec fn pt_delays_item(
    s: Seq<bool>,
    deltas: bool,
    idx_len: u32,
    count: u64,
    removal_len: u32,
) -> spec_fn(Seq<PtDelay>, nat) -> Read<PtDelay> {
    |done: Seq<PtDelay>, q: nat| pt_delay_at(s, q, deltas, idx_len, count, removal_len)
}

/// Writes the removal delay of a sublayer below the highest, behind the items
/// before it.
pub open spec fn put_pt_delays_item(
    deltas: bool,
    idx_len: u32,
    count: u64,
    removal_len: u32,
) -> spec_fn(Seq<bool>, Seq<PtDelay>, PtDelay) -> Seq<bool> {
    |a: Seq<bool>, done: Seq<PtDelay>, x: PtDelay| put_pt_delay(a, x, deltas, idx_len, count, removal_len)
}

/// Whether the removal delay of a sublayer below the highest may follow the
/// items before it.
pub open spec fn pt_delays_item_ok(
    deltas: bool,
    idx_len: u32,
    count: u64,
    removal_len: u32,
) -> spec_fn(Seq<PtDelay>, PtDelay) -> bool {
    |done: Seq<PtDelay>, x: PtDelay| pt_delay_ok(x, deltas, idx_len, count, removal_len)
        && pt_delay_can(x, deltas, idx_len, count, removal_len)
}

/// `n` items at position `p`, each the removal delay of a sublayer below the
/// highest.
#[verifier::opaque]
pub open spec fn pt_delays_at(
    s: Seq<bool>,
    p: nat,
    deltas: bool,
    idx_len: u32,
    count: u64,
    removal_len: u32,
    n: u64,
) -> Read<Seq<PtDelay>> {
    rep_at(pt_delays_item(s, deltas, idx_len, count, removal_len), p, n as nat)
}

/// The bits `a` followed by the items.
#[verifier::opaque]
pub open spec fn put_pt_delays(
    a: Seq<bool>,
    xs: Seq<PtDelay>,
    deltas: bool,
    idx_len: u32,
    count: u64,
    removal_len: u32,
    n: u64,
) -> Seq<bool> {
    put_rep(put_pt_delays_item(deltas, idx_len, count, removal_len), a, xs)
}

/// `n` items that reading can give.
#[verifier::opaque]
pub open spec fn pt_delays_ok(
    xs: Seq<PtDelay>,
    deltas: bool,
    idx_len: u32,
    count: u64,
    removal_len: u32,
    n: u64,
) -> bool {
    xs.len() == n
        && forall|i: int| 0 <= i < xs.len()
        ==> pt_delay_ok(#[trigger] xs[i], deltas, idx_len, count, removal_len)
        && pt_delay_can(xs[i], deltas, idx_len, count, removal_len)
}

/// `n` items that the writer accepts.
#[verifier::opaque]
pub open spec fn pt_delays_can(
    xs: Seq<PtDelay>,
    deltas: bool,
    idx_len: u32,
    count: u64,
    removal_len: u32,
    n: u64,
) -> bool {
    xs.len() == n
        && forall|i: int| 0 <= i < xs.len()
        ==> pt_delay_can(#[trigger] xs[i], deltas, idx_len, count, removal_len)
}

/// Parses `n` items, each the removal delay of a sublayer below the highest.
fn parse_pt_delays(
    r: &mut BitReader<'_>,
    deltas: bool,
    idx_len: u32,
    count: u64,
    removal_len: u32,
    n: u64,
) -> (res: Result<Vec<PtDelay>, BitstreamError>)
    requires
        idx_len <= 32,
        removal_len <= 32,
    ensures
        read_vec_is(
            pt_delays_at(old(r).bits(), old(r).pos(), deltas, idx_len, count, removal_len, n),
            res,
            *old(r),
            *final(r),
        ),
        res matches Ok(v) ==> v@.len() == n,
{
    let ghost s = r.bits();
    let ghost p = r.pos();
    let ghost reads = pt_delays_item(s, deltas, idx_len, count, removal_len);
    let mut xs: Vec<PtDelay> = Vec::new();
    let mut i: u64 = 0;
    proof {
        reveal(pt_delays_at);
    }
    while i < n
        invariant
            i <= n,
            xs@.len() == i,
                idx_len <= 32,
                removal_len <= 32,
            reads == pt_delays_item(s, deltas, idx_len, count, removal_len),
            s == r.bits(),
            s == old(r).bits(),
            p == old(r).pos(),
            r.bytes() == old(r).bytes(),
            rep_at(reads, p, i as nat) == Ok::<(Seq<PtDelay>, nat), Fault>((xs@, r.pos())),
        decreases n - i,
    {
        match parse_pt_delay(r, deltas, idx_len, count, removal_len) {
            Ok(x) => {
                xs.push(x);
            },
            Err(e) => {
                proof {
                    reveal(pt_delays_at);
                    lemma_rep_err(reads, p, (i + 1) as nat, n as nat);
                }
                return Err(e);
            },
        }
        i = i + 1;
    }
    Ok(xs)
}

/// Emits `n` items, each the removal delay of a sublayer below the highest.
fn write_pt_delays(
    w: &mut BitWriter,
    xs: &Vec<PtDelay>,
    deltas: bool,
    idx_len: u32,
    count: u64,
    removal_len: u32,
    n: u64,
) -> (res: Result<(), BitstreamError>)
    requires
        idx_len <= 32,
        removal_len <= 32,
    ensures
        write_is(
            pt_delays_can(xs@, deltas, idx_len, count, removal_len, n),
            put_pt_delays(old(w)@, xs@, deltas, idx_len, count, removal_len, n),
            res,
            final(w)@,
        ),
        res is Ok ==> xs@.len() == n,
{
    let ghost before = w@;
    let ghost puts = put_pt_delays_item(deltas, idx_len, count, removal_len);
    let ghost ys = xs@;
    proof {
        reveal(put_pt_delays);
        reveal(pt_delays_can);
        assert(ys.take(0) =~= Seq::empty());
    }
    if xs.len() as u64 != n {
        return Err(BitstreamError::invalid("unexpected number of entries"));
    }
    let mut i: usize = 0;
    while i < xs.len()
        invariant
            i <= xs@.len(),
            xs@.len() == n,
            ys == xs@,
            ys.len() == xs@.len(),
                idx_len <= 32,
                removal_len <= 32,
            before == old(w)@,
            puts == put_pt_delays_item(deltas, idx_len, count, removal_len),
            w@ == put_rep(puts, before, ys.take(i as int)),
            forall|j: int| 0 <= j < i ==> pt_delay_can(#[trigger] ys[j], deltas, idx_len, count, removal_len),
        ensures
            i == xs@.len(),
        decreases xs@.len() - i,
    {
        proof {
            assert(ys.take(i + 1).drop_last() =~= ys.take(i as int));
            assert(ys[i as int] == xs@[i as int]);
        }
        match write_pt_delay(w, &xs[i], deltas, idx_len, count, removal_len) {
            Ok(()) => {},
            Err(e) => {
                proof {
                    reveal(pt_delays_can);
                }
                return Err(e);
            },
        }
        i = i + 1;
    }
    proof {
        assert(ys.take(i as int) =~= ys);
    }
    Ok(())
}

/// Writing what was read gives back the bits that were read.
pub broadcast proof fn law_put_pt_delays_at(
    s: Seq<bool>,
    p: nat,
    deltas: bool,
    idx_len: u32,
    count: u64,
    removal_len: u32,
    n: u64,
)
    requires
        idx_len <= 32,
        removal_len <= 32,
    ensures
        #[trigger] pt_delays_at(s, p, deltas, idx_len, count, removal_len, n) matches Ok((xs, q)) ==> {
            &&& xs.len() == n
            &&& pt_delays_ok(xs, deltas, idx_len, count, removal_len, n)
            &&& pt_delays_can(xs, deltas, idx_len, count, removal_len, n)
            &&& within(s, q)
                ==> within(s, p)
                && put_pt_delays(upto(s, p), xs, deltas, idx_len, count, removal_len, n) == upto(s, q)
        },
{
    broadcast use law_put_pt_delay_at;

    reveal(pt_delays_at);
    reveal(put_pt_delays);
    reveal(pt_delays_ok);
    reveal(pt_delays_can);
    let ok = pt_delays_item_ok(deltas, idx_len, count, removal_len);
    law_put_rep_at(
        s,
        pt_delays_item(s, deltas, idx_len, count, removal_len),
        put_pt_delays_item(deltas, idx_len, count, removal_len),
        ok,
        p,
        n as nat,
    );
    if let Ok((xs, q)) = pt_delays_at(s, p, deltas, idx_len, count, removal_len, n) {
        assert forall|i: int| 0 <= i < xs.len() implies ok(xs.take(i), #[trigger] xs[i]) by {}
    }
}

/// What was written reads back as the items that were written.
pub broadcast proof fn law_pre_put_pt_delays(
    a: Seq<bool>,
    xs: Seq<PtDelay>,
    deltas: bool,
    idx_len: u32,
    count: u64,
    removal_len: u32,
    n: u64,
    s: Seq<bool>,
)
    requires
        #[trigger] pre(put_pt_delays(a, xs, deltas, idx_len, count, removal_len, n), s),
        pt_delays_ok(xs, deltas, idx_len, count, removal_len, n),
        idx_len <= 32,
        removal_len <= 32,
    ensures
        pre(a, s),
        pt_delays_can(xs, deltas, idx_len, count, removal_len, n),
        pt_delays_at(s, a.len(), deltas, idx_len, count, removal_len, n) == Ok::<(Seq<PtDelay>, nat), Fault>(
            (xs, put_pt_delays(a, xs, deltas, idx_len, count, removal_len, n).len()),
        ),
{
    broadcast use law_pre_put_pt_delay;

    reveal(pt_delays_at);
    reveal(put_pt_delays);
    reveal(pt_delays_ok);
    reveal(pt_delays_can);
    law_rep_at_put(
        s,
        pt_delays_item(s, deltas, idx_len, count, removal_len),
        put_pt_delays_item(deltas, idx_len, count, removal_len),
        pt_delays_item_ok(deltas, idx_len, count, removal_len),
        a,
        xs,
    );
}

/// `n` items stand one behind the other: `n - 1` items, and then the removal
/// delay of a sublayer below the highest.
pub proof fn law_layout_pt_delays(
    s: Seq<bool>,
    p: nat,
    deltas: bool,
    idx_len: u32,
    count: u64,
    removal_len: u32,
    n: u64,
    xs: Seq<PtDelay>,
    q: nat,
)
    ensures
        pt_delays_at(s, p, deltas, idx_len, count, removal_len, n) == Ok::<(Seq<PtDelay>, nat), Fault>((xs, q)) <==> if n == 0 {
            xs.len() == 0 && q == p
        } else {
            &&& xs.len() == n
            &&& cursor(s, p)
                .part(
                    |p: nat| pt_delays_at(s, p, deltas, idx_len, count, removal_len, (n - 1) as u64),
                    xs.drop_last(),
                )
                .part(|p: nat| pt_delay_at(s, p, deltas, idx_len, count, removal_len), xs.last())
                .ends(q)
        },
{
    reveal(pt_delays_at);
    lemma_rep_step(pt_delays_item(s, deltas, idx_len, count, removal_len), p, n as nat);
    if xs.len() == 0 {
        assert(xs =~= Seq::empty());
    } else {
        assert(xs =~= xs.drop_last().push(xs.last()));
    }
    if n > 0 {
        if let Ok((done, r)) = rep_at(pt_delays_item(s, deltas, idx_len, count, removal_len), p, (n - 1) as nat) {
            if let Ok((y, z)) = pt_delays_item(s, deltas, idx_len, count, removal_len)(done, r) {
                assert(done.push(y).drop_last() =~= done);
            }
        }
    }
}

/// What the writer accepts as `n` items reads back, where each of them is one that
/// reading can give.
pub proof fn law_reads_pt_delays(
    a: Seq<bool>,
    xs: Seq<PtDelay>,
    deltas: bool,
    idx_len: u32,
    count: u64,
    removal_len: u32,
    n: u64,
    s: Seq<bool>,
)
    requires
        pt_delays_can(xs, deltas, idx_len, count, removal_len, n),
        forall|i: int| 0 <= i < xs.len()
            ==> pt_delay_ok(#[trigger] xs[i], deltas, idx_len, count, removal_len),
        pre(put_pt_delays(a, xs, deltas, idx_len, count, removal_len, n), s),
        idx_len <= 32,
        removal_len <= 32,
    ensures
        xs.len() == n,
        pt_delays_at(s, a.len(), deltas, idx_len, count, removal_len, n) == Ok::<(Seq<PtDelay>, nat), Fault>(
            (xs, put_pt_delays(a, xs, deltas, idx_len, count, removal_len, n).len()),
        ),
{
    reveal(pt_delays_can);
    assert(pt_delays_ok(xs, deltas, idx_len, count, removal_len, n)) by {
        reveal(pt_delays_ok);
    }
    law_pre_put_pt_delays(a, xs, deltas, idx_len, count, removal_len, n, s);
}

/// Reading the items fails only with an error of this class.
pub broadcast proof fn law_faults_pt_delays(
    s: Seq<bool>,
    p: nat,
    deltas: bool,
    idx_len: u32,
    count: u64,
    removal_len: u32,
    n: u64,
)
    ensures
        #[trigger] pt_delays_at(s, p, deltas, idx_len, count, removal_len, n) matches Err(f)
            ==> f == Fault::Invalid,
{
    broadcast use law_faults_pt_delay;

    reveal(pt_delays_at);
    let f = pt_delays_item(s, deltas, idx_len, count, removal_len);
    assert forall|done: Seq<PtDelay>, q: nat| (#[trigger] f(done, q)) matches Err(e)
        ==> e == Fault::Invalid by {}
    lemma_rep_faults(f, p, n as nat, |f: Fault| f == Fault::Invalid);
}

/// The removal delay of the highest sublayer, and those of `num` sublayers
/// below it, at position `p`.
#[verifier::opaque]
pub open spec fn pt_head_at(
    s: Seq<bool>,
    p: nat,
    deltas: bool,
    idx_len: u32,
    count: u64,
    removal_len: u32,
    num: u64,
) -> Read<(u32, Seq<PtDelay>)> {
    let top = u32_at(s, p, removal_len as nat);
    let p = adv(p, removal_len as nat);
    match pt_delays_at(s, p, deltas, idx_len, count, removal_len, num) { Err(f) => Err(f), Ok((rest, p)) => {
    Ok(((top, rest), p)) }}
}

/// The bits `a` followed by the removal delay of the highest sublayer, and
/// those of `num` sublayers below it.
#[verifier::opaque]
pub open spec fn put_pt_head(
    a: Seq<bool>,
    x: (u32, Seq<PtDelay>),
    deltas: bool,
    idx_len: u32,
    count: u64,
    removal_len: u32,
    num: u64,
) -> Seq<bool> {
    let a = put_u(a, x.0 as nat, removal_len as nat);
    let a = put_pt_delays(a, x.1, deltas, idx_len, count, removal_len, num);
    a
}

/// The values of the removal delay of the highest sublayer, and those of `num`
/// sublayers below it that reading can give.
#[verifier::opaque]
pub open spec fn pt_head_ok(
    x: (u32, Seq<PtDelay>),
    deltas: bool,
    idx_len: u32,
    count: u64,
    removal_len: u32,
    num: u64,
) -> bool {
    &&& fits(x.0 as nat, removal_len as nat)
    &&& pt_delays_ok(x.1, deltas, idx_len, count, removal_len, num)
}

/// The values of the removal delay of the highest sublayer, and those of `num`
/// sublayers below it that the writer accepts.
#[verifier::opaque]
pub open spec fn pt_head_can(
    x: (u32, Seq<PtDelay>),
    deltas: bool,
    idx_len: u32,
    count: u64,
    removal_len: u32,
    num: u64,
) -> bool {
    &&& fits(x.0 as nat, removal_len as nat)
    &&& pt_delays_can(x.1, deltas, idx_len, count, removal_len, num)
}

/// Parses the removal delay of the highest sublayer, and those of `num` sublayers below it.
fn parse_pt_head(
    r: &mut BitReader<'_>,
    deltas: bool,
    idx_len: u32,
    count: u64,
    removal_len: u32,
    num: u64,
) -> (res: Result<(u32, Vec<PtDelay>), BitstreamError>)
    requires
        idx_len <= 32,
        removal_len <= 32,
    ensures
        read_view_is(
            pt_head_at(old(r).bits(), old(r).pos(), deltas, idx_len, count, removal_len, num),
            res,
            *old(r),
            *final(r),
        ),
{
    proof {
        reveal(pt_head_at);
    }
    let top: u32 = r.u(removal_len);
    let rest = parse_pt_delays(r, deltas, idx_len, count, removal_len, num)?;
    Ok((top, rest))
}

/// Emits the removal delay of the highest sublayer, and those of `num`
/// sublayers below it, the inverse of [`parse_pt_head`].
fn write_pt_head(
    w: &mut BitWriter,
    x: &(u32, Vec<PtDelay>),
    deltas: bool,
    idx_len: u32,
    count: u64,
    removal_len: u32,
    num: u64,
) -> (res: Result<(), BitstreamError>)
    requires
        idx_len <= 32,
        removal_len <= 32,
    ensures
        write_is(
            pt_head_can(x@, deltas, idx_len, count, removal_len, num),
            put_pt_head(old(w)@, x@, deltas, idx_len, count, removal_len, num),
            res,
            final(w)@,
        ),
{
    proof {
        reveal(put_pt_head);
        reveal(pt_head_can);
    }
    if !fits_bits(x.0, removal_len) {
        return Err(BitstreamError::invalid("pt_cpb_removal_delay_minus1 does not fit its length field"));
    }
    w.write_bits(x.0, removal_len);
    write_pt_delays(w, &x.1, deltas, idx_len, count, removal_len, num)?;
    Ok(())
}

/// Writing the removal delay of the highest sublayer, and those of `num`
/// sublayers below it gives back the bits it was read from.
pub broadcast proof fn law_put_pt_head_at(
    s: Seq<bool>,
    p: nat,
    deltas: bool,
    idx_len: u32,
    count: u64,
    removal_len: u32,
    num: u64,
)
    requires
        idx_len <= 32,
        removal_len <= 32,
    ensures
        #[trigger] pt_head_at(s, p, deltas, idx_len, count, removal_len, num) matches Ok((x, q)) ==> {
            &&& pt_head_ok(x, deltas, idx_len, count, removal_len, num)
            &&& pt_head_can(x, deltas, idx_len, count, removal_len, num)
            &&& within(s, q)
                ==> within(s, p)
                && put_pt_head(upto(s, p), x, deltas, idx_len, count, removal_len, num) == upto(s, q)
        },
{
    broadcast use {crate::bits::group_write_read, law_put_pt_delays_at};

    reveal(pt_head_at);
    reveal(put_pt_head);
    reveal(pt_head_ok);
    reveal(pt_head_can);
}

/// Reading gives back the removal delay of the highest sublayer, and those of
/// `num` sublayers below it as it was written.
pub broadcast proof fn law_pre_put_pt_head(
    a: Seq<bool>,
    x: (u32, Seq<PtDelay>),
    deltas: bool,
    idx_len: u32,
    count: u64,
    removal_len: u32,
    num: u64,
    s: Seq<bool>,
)
    requires
        #[trigger] pre(put_pt_head(a, x, deltas, idx_len, count, removal_len, num), s),
        pt_head_ok(x, deltas, idx_len, count, removal_len, num),
        idx_len <= 32,
        removal_len <= 32,
    ensures
        pre(a, s),
        pt_head_can(x, deltas, idx_len, count, removal_len, num),
        pt_head_at(s, a.len(), deltas, idx_len, count, removal_len, num) == Ok::<((u32, Seq<PtDelay>), nat), Fault>(
            (x, put_pt_head(a, x, deltas, idx_len, count, removal_len, num).len()),
        ),
{
    broadcast use {crate::bits::group_read_written, law_pre_put_pt_delays};

    reveal(pt_head_at);
    reveal(put_pt_head);
    reveal(pt_head_ok);
    reveal(pt_head_can);
}

/// The layout of the removal delay of the highest sublayer, and those of `num`
/// sublayers below it: reading at `p` gives `x` and ends at `q` if and only if
/// these elements stand there in this order.
pub proof fn law_layout_pt_head(
    s: Seq<bool>,
    p: nat,
    deltas: bool,
    idx_len: u32,
    count: u64,
    removal_len: u32,
    num: u64,
    x: (u32, Seq<PtDelay>),
    q: nat,
)
    ensures
        pt_head_at(
            s,
            p,
            deltas,
            idx_len,
            count,
            removal_len,
            num,
        ) == Ok::<((u32, Seq<PtDelay>), nat), Fault>((x, q))
            <==> cursor(s, p)
            .u32(removal_len as nat, x.0)
            .part(|p: nat| pt_delays_at(s, p, deltas, idx_len, count, removal_len, num), x.1)
            .ends(q),
{
    reveal(pt_head_at);
}

/// Reading the removal delay of the highest sublayer, and those of `num`
/// sublayers below it fails only with an error of this class.
pub broadcast proof fn law_faults_pt_head(
    s: Seq<bool>,
    p: nat,
    deltas: bool,
    idx_len: u32,
    count: u64,
    removal_len: u32,
    num: u64,
)
    ensures
        #[trigger] pt_head_at(s, p, deltas, idx_len, count, removal_len, num) matches Err(f)
            ==> f == Fault::Invalid,
{
    broadcast use law_faults_pt_delays;

    reveal(pt_head_at);
}

/// What the writer accepts reads back: the removal delay of the highest
/// sublayer, and those of `num` sublayers below it, where each field fits its
/// width and what is not coded has the value that is taken for it.
pub proof fn law_reads_pt_head(
    a: Seq<bool>,
    x: (u32, Seq<PtDelay>),
    deltas: bool,
    idx_len: u32,
    count: u64,
    removal_len: u32,
    num: u64,
    s: Seq<bool>,
)
    requires
        pt_head_can(x, deltas, idx_len, count, removal_len, num),
        pt_delays_ok(x.1, deltas, idx_len, count, removal_len, num),
        pre(put_pt_head(a, x, deltas, idx_len, count, removal_len, num), s),
        idx_len <= 32,
        removal_len <= 32,
    ensures
        pt_head_at(s, a.len(), deltas, idx_len, count, removal_len, num) == Ok::<((u32, Seq<PtDelay>), nat), Fault>(
            (x, put_pt_head(a, x, deltas, idx_len, count, removal_len, num).len()),
        ),
{
    assert(pt_head_ok(x, deltas, idx_len, count, removal_len, num)) by {
        broadcast use crate::bits::law_fits_small;

        reveal(pt_head_ok);
        reveal(pt_head_can);
    }
    law_pre_put_pt_head(a, x, deltas, idx_len, count, removal_len, num, s);
}

/// The tables of eight sublayers: the highest coded sublayer `last`, those from
/// `first` on below it, and zeros elsewhere.
pub open spec fn delays_of(
    b: (u32, Seq<PtDelay>),
    first: u8,
    last: u8,
) -> (Seq<u32>, Seq<bool>, Seq<bool>, Seq<u32>) {
    (
        Seq::new(
            8,
            |i: int|
                if i == last {
                    b.0
                } else if first <= i < last {
                    b.1[i - first].delay
                } else {
                    0u32
                },
        ),
        Seq::new(8, |i: int| i == last || (first <= i < last && b.1[i - first].present)),
        Seq::new(8, |i: int| first <= i < last && b.1[i - first].enabled),
        Seq::new(
            8,
            |i: int|
                if first <= i < last {
                    b.1[i - first].idx
                } else {
                    0u32
                },
        ),
    )
}

/// Entry `i` of the tables.
pub open spec fn delay_entry(x: (Seq<u32>, Seq<bool>, Seq<bool>, Seq<u32>), i: int) -> PtDelay {
    PtDelay { present: x.1[i], enabled: x.2[i], idx: x.3[i], delay: x.0[i] }
}

/// The coded entries of the tables.
pub open spec fn coded_delays(x: (Seq<u32>, Seq<bool>, Seq<bool>, Seq<u32>), first: u8, last: u8) -> (
    u32,
    Seq<PtDelay>,
) {
    (x.0[last as int], Seq::new((last - first) as nat, |k: int| delay_entry(x, first + k)))
}

/// Tables of eight; the delay of the highest sublayer is always present.
pub open spec fn delays_fit(x: (Seq<u32>, Seq<bool>, Seq<bool>, Seq<u32>), last: u8) -> bool {
    x.0.len() == 8 && x.1.len() == 8 && x.2.len() == 8 && x.3.len() == 8 && x.1[last as int]
}

proof fn lemma_pt_tables(
    b: (u32, Seq<PtDelay>),
    deltas: bool,
    idx_len: u32,
    count: u64,
    removal_len: u32,
    first: u8,
    last: u8,
)
    requires
        first <= last <= 7,
        pt_head_ok(b, deltas, idx_len, count, removal_len, (last - first) as u64),
    ensures
        coded_delays(delays_of(b, first, last), first, last) == b,
        delays_fit(delays_of(b, first, last), last),
{
    reveal(pt_head_ok);
    reveal(pt_delays_ok);
    assert(coded_delays(delays_of(b, first, last), first, last).1 =~= b.1);
}

/// The removal delays of the sublayers `temporal_id..=last` at position `p`, in tables of eight.
#[verifier::opaque]
pub open spec fn pt_tables_at(
    s: Seq<bool>,
    p: nat,
    deltas: bool,
    idx_len: u32,
    count: u64,
    removal_len: u32,
    temporal_id: u8,
    last: u8,
) -> Read<(Seq<u32>, Seq<bool>, Seq<bool>, Seq<u32>)> {
    match pt_head_at(s, p, deltas, idx_len, count, removal_len, (last - temporal_id) as u64) {
        Err(f) => Err(f),
        Ok((b, p)) => Ok((delays_of(b, temporal_id, last), p)),
    }
}

/// Writes the values.
#[verifier::opaque]
pub open spec fn put_pt_tables(
    a: Seq<bool>,
    x: (Seq<u32>, Seq<bool>, Seq<bool>, Seq<u32>),
    deltas: bool,
    idx_len: u32,
    count: u64,
    removal_len: u32,
    temporal_id: u8,
    last: u8,
) -> Seq<bool> {
    put_pt_head(
        a,
        coded_delays(x, temporal_id, last),
        deltas,
        idx_len,
        count,
        removal_len,
        (last - temporal_id) as u64,
    )
}

/// Values that reading can give.
#[verifier::opaque]
pub open spec fn pt_tables_ok(
    x: (Seq<u32>, Seq<bool>, Seq<bool>, Seq<u32>),
    deltas: bool,
    idx_len: u32,
    count: u64,
    removal_len: u32,
    temporal_id: u8,
    last: u8,
) -> bool {
    let b = coded_delays(x, temporal_id, last);
    delays_fit(x, last)
        && pt_head_ok(b, deltas, idx_len, count, removal_len, (last - temporal_id) as u64)
        && x == delays_of(b, temporal_id, last)
}

/// Values that the writer accepts.
#[verifier::opaque]
pub open spec fn pt_tables_can(
    x: (Seq<u32>, Seq<bool>, Seq<bool>, Seq<u32>),
    deltas: bool,
    idx_len: u32,
    count: u64,
    removal_len: u32,
    temporal_id: u8,
    last: u8,
) -> bool {
    delays_fit(x, last)
        && pt_head_can(
            coded_delays(x, temporal_id, last),
            deltas,
            idx_len,
            count,
            removal_len,
            (last - temporal_id) as u64,
        )
}

/// Writing what was read gives back the bits that were read.
pub broadcast proof fn law_put_pt_tables_at(
    s: Seq<bool>,
    p: nat,
    deltas: bool,
    idx_len: u32,
    count: u64,
    removal_len: u32,
    temporal_id: u8,
    last: u8,
)
    requires
        temporal_id <= last <= 7,
        idx_len <= 32,
        removal_len <= 32,
    ensures
        #[trigger] pt_tables_at(s, p, deltas, idx_len, count, removal_len, temporal_id, last) matches Ok((x, q)) ==> {
            &&& pt_tables_ok(x, deltas, idx_len, count, removal_len, temporal_id, last)
            &&& pt_tables_can(x, deltas, idx_len, count, removal_len, temporal_id, last)
            &&& within(s, q)
                ==> within(s, p)
                && put_pt_tables(
                    upto(s, p),
                    x,
                    deltas,
                    idx_len,
                    count,
                    removal_len,
                    temporal_id,
                    last,
                ) == upto(s, q)
        },
{
    broadcast use law_put_pt_head_at;

    reveal(pt_tables_at);
    reveal(put_pt_tables);
    reveal(pt_tables_ok);
    reveal(pt_tables_can);
    if let Ok((b, q)) = pt_head_at(s, p, deltas, idx_len, count, removal_len, (last - temporal_id) as u64) {
        lemma_pt_tables(b, deltas, idx_len, count, removal_len, temporal_id, last);
    }
}

/// What was written reads back as the values that were written.
pub broadcast proof fn law_pre_put_pt_tables(
    a: Seq<bool>,
    x: (Seq<u32>, Seq<bool>, Seq<bool>, Seq<u32>),
    deltas: bool,
    idx_len: u32,
    count: u64,
    removal_len: u32,
    temporal_id: u8,
    last: u8,
    s: Seq<bool>,
)
    requires
        #[trigger] pre(put_pt_tables(a, x, deltas, idx_len, count, removal_len, temporal_id, last), s),
        pt_tables_ok(x, deltas, idx_len, count, removal_len, temporal_id, last),
        temporal_id <= last <= 7,
        idx_len <= 32,
        removal_len <= 32,
    ensures
        pre(a, s),
        pt_tables_can(x, deltas, idx_len, count, removal_len, temporal_id, last),
        pt_tables_at(s, a.len(), deltas, idx_len, count, removal_len, temporal_id, last) == Ok::<((Seq<u32>, Seq<bool>, Seq<bool>, Seq<u32>), nat), Fault>(
            (x, put_pt_tables(a, x, deltas, idx_len, count, removal_len, temporal_id, last).len()),
        ),
{
    broadcast use law_pre_put_pt_head;

    reveal(pt_tables_at);
    reveal(put_pt_tables);
    reveal(pt_tables_ok);
    reveal(pt_tables_can);
}

/// What the writer accepts reads back, where the coded values are ones that reading can
/// give and the others are those that stand for what is not coded.
pub proof fn law_reads_pt_tables(
    a: Seq<bool>,
    x: (Seq<u32>, Seq<bool>, Seq<bool>, Seq<u32>),
    deltas: bool,
    idx_len: u32,
    count: u64,
    removal_len: u32,
    temporal_id: u8,
    last: u8,
    s: Seq<bool>,
)
    requires
        pt_tables_can(x, deltas, idx_len, count, removal_len, temporal_id, last),
        ({
            let b = coded_delays(x, temporal_id, last);
            pt_head_ok(b, deltas, idx_len, count, removal_len, (last - temporal_id) as u64)
                && x == delays_of(b, temporal_id, last)
        }),
        pre(put_pt_tables(a, x, deltas, idx_len, count, removal_len, temporal_id, last), s),
        temporal_id <= last <= 7,
        idx_len <= 32,
        removal_len <= 32,
    ensures
        pt_tables_at(s, a.len(), deltas, idx_len, count, removal_len, temporal_id, last) == Ok::<((Seq<u32>, Seq<bool>, Seq<bool>, Seq<u32>), nat), Fault>(
            (x, put_pt_tables(a, x, deltas, idx_len, count, removal_len, temporal_id, last).len()),
        ),
{
    assert(pt_tables_ok(x, deltas, idx_len, count, removal_len, temporal_id, last)) by {
        reveal(pt_tables_ok);
        reveal(pt_tables_can);
    }
    law_pre_put_pt_tables(a, x, deltas, idx_len, count, removal_len, temporal_id, last, s);
}

/// Reading them fails only with an error of this class.
pub broadcast proof fn law_faults_pt_tables(
    s: Seq<bool>,
    p: nat,
    deltas: bool,
    idx_len: u32,
    count: u64,
    removal_len: u32,
    temporal_id: u8,
    last: u8,
)
    ensures
        #[trigger] pt_tables_at(s, p, deltas, idx_len, count, removal_len, temporal_id, last) matches Err(f)
            ==> f == Fault::Invalid,
{
    broadcast use law_faults_pt_head;

    reveal(pt_tables_at);
}

fn parse_pt_tables(
    r: &mut BitReader<'_>,
    deltas: bool,
    idx_len: u32,
    count: u64,
    removal_len: u32,
    first: u8,
    last: u8,
) -> (res: Result<([u32; 8], [bool; 8], [bool; 8], [u32; 8]), BitstreamError>)
    requires
        first <= last <= 7,
        idx_len <= 32,
        removal_len <= 32,
    ensures
        final(r).bits() == old(r).bits(),
        final(r).bytes() == old(r).bytes(),
        match pt_tables_at(old(r).bits(), old(r).pos(), deltas, idx_len, count, removal_len, first, last) {
            Ok((x, p)) => {
                &&& res matches Ok(v)
                &&& (v.0@, v.1@, v.2@, v.3@) == x
                &&& final(r).pos() == p
            },
            Err(f) => res matches Err(e) && e.fault() == f,
        },
{
    proof {
        reveal(pt_tables_at);
    }
    let b = parse_pt_head(r, deltas, idx_len, count, removal_len, (last - first) as u64)?;
    let ghost want = delays_of(b@, first, last);
    proof {
        law_put_pt_head_at(
            old(r).bits(),
            old(r).pos(),
            deltas,
            idx_len,
            count,
            removal_len,
            (last - first) as u64,
        );
        reveal(pt_head_ok);
        reveal(pt_delays_ok);
    }
    let mut delay: [u32; 8] = [0; 8];
    let mut present: [bool; 8] = [false; 8];
    let mut enabled: [bool; 8] = [false; 8];
    let mut idx: [u32; 8] = [0; 8];
    let mut i: usize = 0;
    while i < 8
        invariant
            i <= 8,
            first <= last <= 7,
            b.1@.len() == last - first,
            want == delays_of(b@, first, last),
            forall|j: int| 0 <= j < i ==> #[trigger] delay@[j] == want.0[j],
            forall|j: int| 0 <= j < i ==> #[trigger] present@[j] == want.1[j],
            forall|j: int| 0 <= j < i ==> #[trigger] enabled@[j] == want.2[j],
            forall|j: int| 0 <= j < i ==> #[trigger] idx@[j] == want.3[j],
            forall|j: int| i <= j < 8 ==> #[trigger] delay@[j] == 0,
            forall|j: int| i <= j < 8 ==> !#[trigger] present@[j],
            forall|j: int| i <= j < 8 ==> !#[trigger] enabled@[j],
            forall|j: int| i <= j < 8 ==> #[trigger] idx@[j] == 0,
        decreases 8 - i,
    {
        if i == last as usize {
            delay[i] = b.0;
            present[i] = true;
        } else if first as usize <= i && i < last as usize {
            let d: PtDelay = b.1[i - first as usize];
            delay[i] = d.delay;
            present[i] = d.present;
            enabled[i] = d.enabled;
            idx[i] = d.idx;
        }
        i = i + 1;
    }
    proof {
        assert(delay@ =~= want.0);
        assert(present@ =~= want.1);
        assert(enabled@ =~= want.2);
        assert(idx@ =~= want.3);
    }
    Ok((delay, present, enabled, idx))
}

fn write_pt_tables(
    w: &mut BitWriter,
    x: &VvcPicTiming,
    deltas: bool,
    idx_len: u32,
    count: u64,
    removal_len: u32,
    first: u8,
    last: u8,
) -> (res: Result<(), BitstreamError>)
    requires
        first <= last <= 7,
        idx_len <= 32,
        removal_len <= 32,
    ensures
        write_is(
            pt_tables_can(x@.tables, deltas, idx_len, count, removal_len, first, last),
            put_pt_tables(old(w)@, x@.tables, deltas, idx_len, count, removal_len, first, last),
            res,
            final(w)@,
        ),
{
    let ghost m = x@.tables;
    proof {
        reveal(pt_tables_can);
        reveal(put_pt_tables);
    }
    if !x.pt_sublayer_delays_present_flag[last as usize] {
        return Err(
            BitstreamError::invalid(
                "pt_sublayer_delays_present_flag[bp_max_sublayers_minus1] is inferred 1 (§D.4.2)",
            ),
        );
    }
    let mut rest: Vec<PtDelay> = Vec::new();
    let mut i: usize = first as usize;
    while i < last as usize
        invariant
            first <= i <= last <= 7,
            m == x@.tables,
            rest@.len() == i - first,
            forall|k: int| 0 <= k < rest@.len() ==> #[trigger] rest@[k] == delay_entry(m, first + k),
        decreases last - i,
    {
        rest.push(
            PtDelay {
                present: x.pt_sublayer_delays_present_flag[i],
                enabled: x.pt_cpb_removal_delay_delta_enabled_flag[i],
                idx: x.pt_cpb_removal_delay_delta_idx[i],
                delay: x.pt_cpb_removal_delay_minus1[i],
            },
        );
        i = i + 1;
    }
    let b = (x.pt_cpb_removal_delay_minus1[last as usize], rest);
    proof {
        assert(b.1@ =~= coded_delays(m, first, last).1);
    }
    write_pt_head(w, &b, deltas, idx_len, count, removal_len, (last - first) as u64)
}

/// The mathematical model of a [`VvcPtAltCpb`].
pub struct VvcPtAltCpbModel {
    pub initial_deltas: Seq<(u32, u32)>,
    pub cpb_delay_offset: u32,
    pub dpb_delay_offset: u32,
}

impl View for VvcPtAltCpb {
    type V = VvcPtAltCpbModel;

    open spec fn view(&self) -> VvcPtAltCpbModel {
        VvcPtAltCpbModel {
            initial_deltas: self.initial_deltas@,
            cpb_delay_offset: self.cpb_delay_offset,
            dpb_delay_offset: self.dpb_delay_offset,
        }
    }
}

/// The alternative timing of one sublayer at position `p`.
#[verifier::opaque]
pub open spec fn pt_alt_at(
    s: Seq<bool>,
    p: nat,
    initial_len: u32,
    removal_len: u32,
    output_len: u32,
    cnt: u64,
) -> Read<VvcPtAltCpbModel> {
    match delay_pairs_at(s, p, initial_len, cnt) { Err(f) => Err(f), Ok((initial_deltas, p)) => {
    let cpb_delay_offset = u32_at(s, p, removal_len as nat);
    let p = adv(p, removal_len as nat);
    let dpb_delay_offset = u32_at(s, p, output_len as nat);
    let p = adv(p, output_len as nat);
    Ok((VvcPtAltCpbModel { initial_deltas, cpb_delay_offset, dpb_delay_offset }, p))
    }}
}

/// The bits `a` followed by the alternative timing of one sublayer.
#[verifier::opaque]
pub open spec fn put_pt_alt(
    a: Seq<bool>,
    x: VvcPtAltCpbModel,
    initial_len: u32,
    removal_len: u32,
    output_len: u32,
    cnt: u64,
) -> Seq<bool> {
    let a = put_delay_pairs(a, x.initial_deltas, initial_len, cnt);
    let a = put_u(a, x.cpb_delay_offset as nat, removal_len as nat);
    let a = put_u(a, x.dpb_delay_offset as nat, output_len as nat);
    a
}

/// The values of the alternative timing of one sublayer that reading can give.
#[verifier::opaque]
pub open spec fn pt_alt_ok(
    x: VvcPtAltCpbModel,
    initial_len: u32,
    removal_len: u32,
    output_len: u32,
    cnt: u64,
) -> bool {
    &&& delay_pairs_ok(x.initial_deltas, initial_len, cnt)
    &&& fits(x.cpb_delay_offset as nat, removal_len as nat)
    &&& fits(x.dpb_delay_offset as nat, output_len as nat)
}

/// The values of the alternative timing of one sublayer that the writer
/// accepts.
#[verifier::opaque]
pub open spec fn pt_alt_can(
    x: VvcPtAltCpbModel,
    initial_len: u32,
    removal_len: u32,
    output_len: u32,
    cnt: u64,
) -> bool {
    &&& delay_pairs_can(x.initial_deltas, initial_len, cnt)
    &&& fits(x.cpb_delay_offset as nat, removal_len as nat)
    &&& fits(x.dpb_delay_offset as nat, output_len as nat)
}

/// Parses the alternative timing of one sublayer.
fn parse_pt_alt(
    r: &mut BitReader<'_>,
    initial_len: u32,
    removal_len: u32,
    output_len: u32,
    cnt: u64,
) -> (res: Result<VvcPtAltCpb, BitstreamError>)
    requires
        initial_len <= 32,
        removal_len <= 32,
        output_len <= 32,
    ensures
        read_view_is(
            pt_alt_at(old(r).bits(), old(r).pos(), initial_len, removal_len, output_len, cnt),
            res,
            *old(r),
            *final(r),
        ),
{
    proof {
        reveal(pt_alt_at);
    }
    let initial_deltas = parse_delay_pairs(r, initial_len, cnt)?;
    let cpb_delay_offset: u32 = r.u(removal_len);
    let dpb_delay_offset: u32 = r.u(output_len);
    Ok(VvcPtAltCpb { initial_deltas, cpb_delay_offset, dpb_delay_offset })
}

/// Emits the alternative timing of one sublayer, the inverse of [`parse_pt_alt`].
fn write_pt_alt(
    w: &mut BitWriter,
    x: &VvcPtAltCpb,
    initial_len: u32,
    removal_len: u32,
    output_len: u32,
    cnt: u64,
    name: &str,
    sublayer: usize,
) -> (res: Result<(), BitstreamError>)
    requires
        initial_len <= 32,
        removal_len <= 32,
        output_len <= 32,
    ensures
        write_is(
            pt_alt_can(x@, initial_len, removal_len, output_len, cnt),
            put_pt_alt(old(w)@, x@, initial_len, removal_len, output_len, cnt),
            res,
            final(w)@,
        ),
{
    proof {
        reveal(put_pt_alt);
        reveal(pt_alt_can);
    }
    write_delay_pairs(
        w,
        &x.initial_deltas,
        initial_len,
        cnt,
        "pt alt initial delta does not fit its length field",
        name,
        sublayer,
    )?;
    if !fits_bits(x.cpb_delay_offset, removal_len) {
        return Err(BitstreamError::invalid("pt alt delay offset does not fit its length field"));
    }
    w.write_bits(x.cpb_delay_offset, removal_len);
    if !fits_bits(x.dpb_delay_offset, output_len) {
        return Err(BitstreamError::invalid("pt alt delay offset does not fit its length field"));
    }
    w.write_bits(x.dpb_delay_offset, output_len);
    Ok(())
}

/// Writing the alternative timing of one sublayer gives back the bits it was
/// read from.
pub broadcast proof fn law_put_pt_alt_at(
    s: Seq<bool>,
    p: nat,
    initial_len: u32,
    removal_len: u32,
    output_len: u32,
    cnt: u64,
)
    requires
        initial_len <= 32,
        removal_len <= 32,
        output_len <= 32,
    ensures
        #[trigger] pt_alt_at(s, p, initial_len, removal_len, output_len, cnt) matches Ok((x, q)) ==> {
            &&& pt_alt_ok(x, initial_len, removal_len, output_len, cnt)
            &&& pt_alt_can(x, initial_len, removal_len, output_len, cnt)
            &&& within(s, q)
                ==> within(s, p)
                && put_pt_alt(upto(s, p), x, initial_len, removal_len, output_len, cnt) == upto(s, q)
        },
{
    broadcast use {crate::bits::group_write_read, law_put_delay_pairs_at};

    reveal(pt_alt_at);
    reveal(put_pt_alt);
    reveal(pt_alt_ok);
    reveal(pt_alt_can);
}

/// Reading gives back the alternative timing of one sublayer as it was written.
pub broadcast proof fn law_pre_put_pt_alt(
    a: Seq<bool>,
    x: VvcPtAltCpbModel,
    initial_len: u32,
    removal_len: u32,
    output_len: u32,
    cnt: u64,
    s: Seq<bool>,
)
    requires
        #[trigger] pre(put_pt_alt(a, x, initial_len, removal_len, output_len, cnt), s),
        pt_alt_ok(x, initial_len, removal_len, output_len, cnt),
        initial_len <= 32,
        removal_len <= 32,
        output_len <= 32,
    ensures
        pre(a, s),
        pt_alt_can(x, initial_len, removal_len, output_len, cnt),
        pt_alt_at(s, a.len(), initial_len, removal_len, output_len, cnt) == Ok::<(VvcPtAltCpbModel, nat), Fault>(
            (x, put_pt_alt(a, x, initial_len, removal_len, output_len, cnt).len()),
        ),
{
    broadcast use {crate::bits::group_read_written, law_pre_put_delay_pairs};

    reveal(pt_alt_at);
    reveal(put_pt_alt);
    reveal(pt_alt_ok);
    reveal(pt_alt_can);
}

/// The layout of the alternative timing of one sublayer: reading at `p` gives
/// `x` and ends at `q` if and only if these elements stand there in this order.
pub proof fn law_layout_pt_alt(
    s: Seq<bool>,
    p: nat,
    initial_len: u32,
    removal_len: u32,
    output_len: u32,
    cnt: u64,
    x: VvcPtAltCpbModel,
    q: nat,
)
    ensures
        pt_alt_at(
            s,
            p,
            initial_len,
            removal_len,
            output_len,
            cnt,
        ) == Ok::<(VvcPtAltCpbModel, nat), Fault>((x, q))
            <==> cursor(s, p)
            .part(|p: nat| delay_pairs_at(s, p, initial_len, cnt), x.initial_deltas)
            .u32(removal_len as nat, x.cpb_delay_offset)
            .u32(output_len as nat, x.dpb_delay_offset)
            .ends(q),
{
    reveal(pt_alt_at);
}

/// Reading the alternative timing of one sublayer never fails.
pub broadcast proof fn law_faults_pt_alt(
    s: Seq<bool>,
    p: nat,
    initial_len: u32,
    removal_len: u32,
    output_len: u32,
    cnt: u64,
)
    ensures
        #[trigger] pt_alt_at(s, p, initial_len, removal_len, output_len, cnt) is Ok,
{
    broadcast use law_faults_delay_pairs;

    reveal(pt_alt_at);
}

/// What the writer accepts reads back: the alternative timing of one sublayer,
/// where each field fits its width and what is not coded has the value that is
/// taken for it.
pub proof fn law_reads_pt_alt(
    a: Seq<bool>,
    x: VvcPtAltCpbModel,
    initial_len: u32,
    removal_len: u32,
    output_len: u32,
    cnt: u64,
    s: Seq<bool>,
)
    requires
        pt_alt_can(x, initial_len, removal_len, output_len, cnt),
        delay_pairs_ok(x.initial_deltas, initial_len, cnt),
        pre(put_pt_alt(a, x, initial_len, removal_len, output_len, cnt), s),
        initial_len <= 32,
        removal_len <= 32,
        output_len <= 32,
    ensures
        pt_alt_at(s, a.len(), initial_len, removal_len, output_len, cnt) == Ok::<(VvcPtAltCpbModel, nat), Fault>(
            (x, put_pt_alt(a, x, initial_len, removal_len, output_len, cnt).len()),
        ),
{
    assert(pt_alt_ok(x, initial_len, removal_len, output_len, cnt)) by {
        broadcast use crate::bits::law_fits_small;

        reveal(pt_alt_ok);
        reveal(pt_alt_can);
    }
    law_pre_put_pt_alt(a, x, initial_len, removal_len, output_len, cnt, s);
}

/// Each field of the model of a [`VvcPtAltCpb`] is the field of that name.
pub proof fn law_view_pt_alt(x: VvcPtAltCpb)
    ensures
        x@.initial_deltas == x.initial_deltas@,
        x@.cpb_delay_offset == x.cpb_delay_offset,
        x@.dpb_delay_offset == x.dpb_delay_offset,
{
}

/// Reads the alternative timing of one sublayer, behind the items before it.
pub open spec fn pt_alts_item(
    s: Seq<bool>,
    initial_len: u32,
    removal_len: u32,
    output_len: u32,
    cnt: u64,
) -> spec_fn(Seq<VvcPtAltCpbModel>, nat) -> Read<VvcPtAltCpbModel> {
    |done: Seq<VvcPtAltCpbModel>, q: nat| pt_alt_at(s, q, initial_len, removal_len, output_len, cnt)
}

/// Writes the alternative timing of one sublayer, behind the items before it.
pub open spec fn put_pt_alts_item(
    initial_len: u32,
    removal_len: u32,
    output_len: u32,
    cnt: u64,
) -> spec_fn(Seq<bool>, Seq<VvcPtAltCpbModel>, VvcPtAltCpbModel) -> Seq<bool> {
    |a: Seq<bool>, done: Seq<VvcPtAltCpbModel>, x: VvcPtAltCpbModel| put_pt_alt(
        a,
        x,
        initial_len,
        removal_len,
        output_len,
        cnt,
    )
}

/// Whether the alternative timing of one sublayer may follow the items before
/// it.
pub open spec fn pt_alts_item_ok(
    initial_len: u32,
    removal_len: u32,
    output_len: u32,
    cnt: u64,
) -> spec_fn(Seq<VvcPtAltCpbModel>, VvcPtAltCpbModel) -> bool {
    |done: Seq<VvcPtAltCpbModel>, x: VvcPtAltCpbModel| pt_alt_ok(x, initial_len, removal_len, output_len, cnt)
        && pt_alt_can(x, initial_len, removal_len, output_len, cnt)
}

/// `n` items at position `p`, each the alternative timing of one sublayer.
#[verifier::opaque]
pub open spec fn pt_alts_at(
    s: Seq<bool>,
    p: nat,
    initial_len: u32,
    removal_len: u32,
    output_len: u32,
    cnt: u64,
    n: u64,
) -> Read<Seq<VvcPtAltCpbModel>> {
    rep_at(pt_alts_item(s, initial_len, removal_len, output_len, cnt), p, n as nat)
}

/// The bits `a` followed by the items.
#[verifier::opaque]
pub open spec fn put_pt_alts(
    a: Seq<bool>,
    xs: Seq<VvcPtAltCpbModel>,
    initial_len: u32,
    removal_len: u32,
    output_len: u32,
    cnt: u64,
    n: u64,
) -> Seq<bool> {
    put_rep(put_pt_alts_item(initial_len, removal_len, output_len, cnt), a, xs)
}

/// `n` items that reading can give.
#[verifier::opaque]
pub open spec fn pt_alts_ok(
    xs: Seq<VvcPtAltCpbModel>,
    initial_len: u32,
    removal_len: u32,
    output_len: u32,
    cnt: u64,
    n: u64,
) -> bool {
    xs.len() == n
        && forall|i: int| 0 <= i < xs.len()
        ==> pt_alt_ok(#[trigger] xs[i], initial_len, removal_len, output_len, cnt)
        && pt_alt_can(xs[i], initial_len, removal_len, output_len, cnt)
}

/// `n` items that the writer accepts.
#[verifier::opaque]
pub open spec fn pt_alts_can(
    xs: Seq<VvcPtAltCpbModel>,
    initial_len: u32,
    removal_len: u32,
    output_len: u32,
    cnt: u64,
    n: u64,
) -> bool {
    xs.len() == n
        && forall|i: int| 0 <= i < xs.len()
        ==> pt_alt_can(#[trigger] xs[i], initial_len, removal_len, output_len, cnt)
}

/// Writing what was read gives back the bits that were read.
pub broadcast proof fn law_put_pt_alts_at(
    s: Seq<bool>,
    p: nat,
    initial_len: u32,
    removal_len: u32,
    output_len: u32,
    cnt: u64,
    n: u64,
)
    requires
        initial_len <= 32,
        removal_len <= 32,
        output_len <= 32,
    ensures
        #[trigger] pt_alts_at(s, p, initial_len, removal_len, output_len, cnt, n) matches Ok((xs, q)) ==> {
            &&& xs.len() == n
            &&& pt_alts_ok(xs, initial_len, removal_len, output_len, cnt, n)
            &&& pt_alts_can(xs, initial_len, removal_len, output_len, cnt, n)
            &&& within(s, q)
                ==> within(s, p)
                && put_pt_alts(upto(s, p), xs, initial_len, removal_len, output_len, cnt, n) == upto(s, q)
        },
{
    broadcast use law_put_pt_alt_at;

    reveal(pt_alts_at);
    reveal(put_pt_alts);
    reveal(pt_alts_ok);
    reveal(pt_alts_can);
    let ok = pt_alts_item_ok(initial_len, removal_len, output_len, cnt);
    law_put_rep_at(
        s,
        pt_alts_item(s, initial_len, removal_len, output_len, cnt),
        put_pt_alts_item(initial_len, removal_len, output_len, cnt),
        ok,
        p,
        n as nat,
    );
    if let Ok((xs, q)) = pt_alts_at(s, p, initial_len, removal_len, output_len, cnt, n) {
        assert forall|i: int| 0 <= i < xs.len() implies ok(xs.take(i), #[trigger] xs[i]) by {}
    }
}

/// What was written reads back as the items that were written.
pub broadcast proof fn law_pre_put_pt_alts(
    a: Seq<bool>,
    xs: Seq<VvcPtAltCpbModel>,
    initial_len: u32,
    removal_len: u32,
    output_len: u32,
    cnt: u64,
    n: u64,
    s: Seq<bool>,
)
    requires
        #[trigger] pre(put_pt_alts(a, xs, initial_len, removal_len, output_len, cnt, n), s),
        pt_alts_ok(xs, initial_len, removal_len, output_len, cnt, n),
        initial_len <= 32,
        removal_len <= 32,
        output_len <= 32,
    ensures
        pre(a, s),
        pt_alts_can(xs, initial_len, removal_len, output_len, cnt, n),
        pt_alts_at(s, a.len(), initial_len, removal_len, output_len, cnt, n) == Ok::<(Seq<VvcPtAltCpbModel>, nat), Fault>(
            (xs, put_pt_alts(a, xs, initial_len, removal_len, output_len, cnt, n).len()),
        ),
{
    broadcast use law_pre_put_pt_alt;

    reveal(pt_alts_at);
    reveal(put_pt_alts);
    reveal(pt_alts_ok);
    reveal(pt_alts_can);
    law_rep_at_put(
        s,
        pt_alts_item(s, initial_len, removal_len, output_len, cnt),
        put_pt_alts_item(initial_len, removal_len, output_len, cnt),
        pt_alts_item_ok(initial_len, removal_len, output_len, cnt),
        a,
        xs,
    );
}

/// `n` items stand one behind the other: `n - 1` items, and then the
/// alternative timing of one sublayer.
pub proof fn law_layout_pt_alts(
    s: Seq<bool>,
    p: nat,
    initial_len: u32,
    removal_len: u32,
    output_len: u32,
    cnt: u64,
    n: u64,
    xs: Seq<VvcPtAltCpbModel>,
    q: nat,
)
    ensures
        pt_alts_at(s, p, initial_len, removal_len, output_len, cnt, n) == Ok::<(Seq<VvcPtAltCpbModel>, nat), Fault>((xs, q)) <==> if n == 0 {
            xs.len() == 0 && q == p
        } else {
            &&& xs.len() == n
            &&& cursor(s, p)
                .part(
                    |p: nat| pt_alts_at(s, p, initial_len, removal_len, output_len, cnt, (n - 1) as u64),
                    xs.drop_last(),
                )
                .part(|p: nat| pt_alt_at(s, p, initial_len, removal_len, output_len, cnt), xs.last())
                .ends(q)
        },
{
    reveal(pt_alts_at);
    lemma_rep_step(pt_alts_item(s, initial_len, removal_len, output_len, cnt), p, n as nat);
    if xs.len() == 0 {
        assert(xs =~= Seq::empty());
    } else {
        assert(xs =~= xs.drop_last().push(xs.last()));
    }
    if n > 0 {
        if let Ok((done, r)) = rep_at(pt_alts_item(s, initial_len, removal_len, output_len, cnt), p, (n - 1) as nat) {
            if let Ok((y, z)) = pt_alts_item(s, initial_len, removal_len, output_len, cnt)(done, r) {
                assert(done.push(y).drop_last() =~= done);
            }
        }
    }
}

/// What the writer accepts as `n` items reads back, where each of them is one that
/// reading can give.
pub proof fn law_reads_pt_alts(
    a: Seq<bool>,
    xs: Seq<VvcPtAltCpbModel>,
    initial_len: u32,
    removal_len: u32,
    output_len: u32,
    cnt: u64,
    n: u64,
    s: Seq<bool>,
)
    requires
        pt_alts_can(xs, initial_len, removal_len, output_len, cnt, n),
        forall|i: int| 0 <= i < xs.len()
            ==> pt_alt_ok(#[trigger] xs[i], initial_len, removal_len, output_len, cnt),
        pre(put_pt_alts(a, xs, initial_len, removal_len, output_len, cnt, n), s),
        initial_len <= 32,
        removal_len <= 32,
        output_len <= 32,
    ensures
        xs.len() == n,
        pt_alts_at(s, a.len(), initial_len, removal_len, output_len, cnt, n) == Ok::<(Seq<VvcPtAltCpbModel>, nat), Fault>(
            (xs, put_pt_alts(a, xs, initial_len, removal_len, output_len, cnt, n).len()),
        ),
{
    reveal(pt_alts_can);
    assert(pt_alts_ok(xs, initial_len, removal_len, output_len, cnt, n)) by {
        reveal(pt_alts_ok);
    }
    law_pre_put_pt_alts(a, xs, initial_len, removal_len, output_len, cnt, n, s);
}

/// Reading the items never fails.
pub broadcast proof fn law_faults_pt_alts(
    s: Seq<bool>,
    p: nat,
    initial_len: u32,
    removal_len: u32,
    output_len: u32,
    cnt: u64,
    n: u64,
)
    ensures
        #[trigger] pt_alts_at(s, p, initial_len, removal_len, output_len, cnt, n) is Ok,
{
    broadcast use law_faults_pt_alt;

    reveal(pt_alts_at);
    let f = pt_alts_item(s, initial_len, removal_len, output_len, cnt);
    assert forall|done: Seq<VvcPtAltCpbModel>, q: nat| (#[trigger] f(done, q)) is Ok by {}
    lemma_rep_faults_none(f, p, n as nat);
}

/// The models of a table.
pub open spec fn alts_view(v: Seq<Option<VvcPtAltCpb>>) -> Seq<Option<VvcPtAltCpbModel>> {
    Seq::new(v.len(), |i: int| opt_view(v[i]))
}

/// The table of eight sublayers: those coded, from `first` on, and none
/// elsewhere.
pub open spec fn alts_of(b: Seq<VvcPtAltCpbModel>, first: u8) -> Seq<Option<VvcPtAltCpbModel>> {
    Seq::new(
        8,
        |i: int|
            if first <= i < first + b.len() {
                Some(b[i - first])
            } else {
                None
            },
    )
}

/// The `num` entries from `first` on.
pub open spec fn coded_alts(x: Seq<Option<VvcPtAltCpbModel>>, first: u8, num: u64) -> Seq<VvcPtAltCpbModel> {
    Seq::new(num as nat, |k: int| x[first + k]->Some_0)
}

/// A table of eight with entries exactly for `num` sublayers from `first` on.
pub open spec fn alts_fit(x: Seq<Option<VvcPtAltCpbModel>>, first: u8, num: u64) -> bool {
    x.len() == 8 && forall|i: int| 0 <= i < 8 ==> ((#[trigger] x[i]) is Some <==> first <= i < first + num)
}

proof fn lemma_alt_table(
    b: Seq<VvcPtAltCpbModel>,
    initial_len: u32,
    removal_len: u32,
    output_len: u32,
    cnt: u64,
    first: u8,
    num: u64,
)
    requires
        first + num <= 8,
        pt_alts_ok(b, initial_len, removal_len, output_len, cnt, num),
    ensures
        coded_alts(alts_of(b, first), first, num) == b,
        alts_fit(alts_of(b, first), first, num),
{
    reveal(pt_alts_ok);
    assert(coded_alts(alts_of(b, first), first, num) =~= b);
}

/// The alternative timing of `num` sublayers from `first` on at position `p`, in a table of eight.
#[verifier::opaque]
pub open spec fn alt_table_at(
    s: Seq<bool>,
    p: nat,
    initial_len: u32,
    removal_len: u32,
    output_len: u32,
    cnt: u64,
    first: u8,
    num: u64,
) -> Read<Seq<Option<VvcPtAltCpbModel>>> {
    match pt_alts_at(s, p, initial_len, removal_len, output_len, cnt, num) {
        Err(f) => Err(f),
        Ok((b, p)) => Ok((alts_of(b, first), p)),
    }
}

/// Writes the values.
#[verifier::opaque]
pub open spec fn put_alt_table(
    a: Seq<bool>,
    x: Seq<Option<VvcPtAltCpbModel>>,
    initial_len: u32,
    removal_len: u32,
    output_len: u32,
    cnt: u64,
    first: u8,
    num: u64,
) -> Seq<bool> {
    put_pt_alts(a, coded_alts(x, first, num), initial_len, removal_len, output_len, cnt, num)
}

/// Values that reading can give.
#[verifier::opaque]
pub open spec fn alt_table_ok(
    x: Seq<Option<VvcPtAltCpbModel>>,
    initial_len: u32,
    removal_len: u32,
    output_len: u32,
    cnt: u64,
    first: u8,
    num: u64,
) -> bool {
    let b = coded_alts(x, first, num);
    alts_fit(x, first, num)
        && pt_alts_ok(b, initial_len, removal_len, output_len, cnt, num)
        && x == alts_of(b, first)
}

/// Values that the writer accepts.
#[verifier::opaque]
pub open spec fn alt_table_can(
    x: Seq<Option<VvcPtAltCpbModel>>,
    initial_len: u32,
    removal_len: u32,
    output_len: u32,
    cnt: u64,
    first: u8,
    num: u64,
) -> bool {
    alts_fit(x, first, num)
        && pt_alts_can(coded_alts(x, first, num), initial_len, removal_len, output_len, cnt, num)
}

/// Writing what was read gives back the bits that were read.
pub broadcast proof fn law_put_alt_table_at(
    s: Seq<bool>,
    p: nat,
    initial_len: u32,
    removal_len: u32,
    output_len: u32,
    cnt: u64,
    first: u8,
    num: u64,
)
    requires
        first + num <= 8,
        initial_len <= 32,
        removal_len <= 32,
        output_len <= 32,
    ensures
        #[trigger] alt_table_at(s, p, initial_len, removal_len, output_len, cnt, first, num) matches Ok((x, q)) ==> {
            &&& alt_table_ok(x, initial_len, removal_len, output_len, cnt, first, num)
            &&& alt_table_can(x, initial_len, removal_len, output_len, cnt, first, num)
            &&& within(s, q)
                ==> within(s, p)
                && put_alt_table(
                    upto(s, p),
                    x,
                    initial_len,
                    removal_len,
                    output_len,
                    cnt,
                    first,
                    num,
                ) == upto(s, q)
        },
{
    broadcast use law_put_pt_alts_at;

    reveal(alt_table_at);
    reveal(put_alt_table);
    reveal(alt_table_ok);
    reveal(alt_table_can);
    if let Ok((b, q)) = pt_alts_at(s, p, initial_len, removal_len, output_len, cnt, num) {
        lemma_alt_table(b, initial_len, removal_len, output_len, cnt, first, num);
    }
}

/// What was written reads back as the values that were written.
pub broadcast proof fn law_pre_put_alt_table(
    a: Seq<bool>,
    x: Seq<Option<VvcPtAltCpbModel>>,
    initial_len: u32,
    removal_len: u32,
    output_len: u32,
    cnt: u64,
    first: u8,
    num: u64,
    s: Seq<bool>,
)
    requires
        #[trigger] pre(put_alt_table(a, x, initial_len, removal_len, output_len, cnt, first, num), s),
        alt_table_ok(x, initial_len, removal_len, output_len, cnt, first, num),
        first + num <= 8,
        initial_len <= 32,
        removal_len <= 32,
        output_len <= 32,
    ensures
        pre(a, s),
        alt_table_can(x, initial_len, removal_len, output_len, cnt, first, num),
        alt_table_at(s, a.len(), initial_len, removal_len, output_len, cnt, first, num) == Ok::<(Seq<Option<VvcPtAltCpbModel>>, nat), Fault>(
            (x, put_alt_table(a, x, initial_len, removal_len, output_len, cnt, first, num).len()),
        ),
{
    broadcast use law_pre_put_pt_alts;

    reveal(alt_table_at);
    reveal(put_alt_table);
    reveal(alt_table_ok);
    reveal(alt_table_can);
}

/// What the writer accepts reads back, where the coded values are ones that reading can
/// give and the others are those that stand for what is not coded.
pub proof fn law_reads_alt_table(
    a: Seq<bool>,
    x: Seq<Option<VvcPtAltCpbModel>>,
    initial_len: u32,
    removal_len: u32,
    output_len: u32,
    cnt: u64,
    first: u8,
    num: u64,
    s: Seq<bool>,
)
    requires
        alt_table_can(x, initial_len, removal_len, output_len, cnt, first, num),
        ({
            let b = coded_alts(x, first, num);
            pt_alts_ok(b, initial_len, removal_len, output_len, cnt, num) && x == alts_of(b, first)
        }),
        pre(put_alt_table(a, x, initial_len, removal_len, output_len, cnt, first, num), s),
        first + num <= 8,
        initial_len <= 32,
        removal_len <= 32,
        output_len <= 32,
    ensures
        alt_table_at(s, a.len(), initial_len, removal_len, output_len, cnt, first, num) == Ok::<(Seq<Option<VvcPtAltCpbModel>>, nat), Fault>(
            (x, put_alt_table(a, x, initial_len, removal_len, output_len, cnt, first, num).len()),
        ),
{
    assert(alt_table_ok(x, initial_len, removal_len, output_len, cnt, first, num)) by {
        reveal(alt_table_ok);
        reveal(alt_table_can);
    }
    law_pre_put_alt_table(a, x, initial_len, removal_len, output_len, cnt, first, num, s);
}

/// Reading them never fails.
pub broadcast proof fn law_faults_alt_table(
    s: Seq<bool>,
    p: nat,
    initial_len: u32,
    removal_len: u32,
    output_len: u32,
    cnt: u64,
    first: u8,
    num: u64,
)
    ensures
        #[trigger] alt_table_at(s, p, initial_len, removal_len, output_len, cnt, first, num) is Ok,
{
    broadcast use law_faults_pt_alts;

    reveal(alt_table_at);
}

fn parse_alt_table(
    r: &mut BitReader<'_>,
    initial_len: u32,
    removal_len: u32,
    output_len: u32,
    cnt: u64,
    first: u8,
    num: u64,
) -> (res: Result<[Option<VvcPtAltCpb>; 8], BitstreamError>)
    requires
        first + num <= 8,
        initial_len <= 32,
        removal_len <= 32,
        output_len <= 32,
    ensures
        final(r).bits() == old(r).bits(),
        final(r).bytes() == old(r).bytes(),
        match alt_table_at(old(r).bits(), old(r).pos(), initial_len, removal_len, output_len, cnt, first, num) {
            Ok((x, p)) => {
                &&& res matches Ok(v)
                &&& alts_view(v@) == x
                &&& final(r).pos() == p
            },
            Err(f) => res matches Err(e) && e.fault() == f,
        },
{
    let ghost s = r.bits();
    let ghost p = r.pos();
    let ghost reads = pt_alts_item(s, initial_len, removal_len, output_len, cnt);
    let ghost mut done: Seq<VvcPtAltCpbModel> = Seq::empty();
    let mut table: [Option<VvcPtAltCpb>; 8] = [None, None, None, None, None, None, None, None];
    proof {
        reveal(alt_table_at);
        reveal(pt_alts_at);
        assert(alts_view(table@) =~= alts_of(done, first));
    }
    let mut i: u64 = 0;
    while i < num
        invariant
            i <= num,
            first + num <= 8,
            initial_len <= 32,
            removal_len <= 32,
            output_len <= 32,
            done.len() == i,
            reads == pt_alts_item(s, initial_len, removal_len, output_len, cnt),
            s == r.bits(),
            s == old(r).bits(),
            p == old(r).pos(),
            r.bytes() == old(r).bytes(),
            rep_at(reads, p, i as nat) == Ok::<(Seq<VvcPtAltCpbModel>, nat), Fault>((done, r.pos())),
            alts_view(table@) == alts_of(done, first),
        decreases num - i,
    {
        proof {
            if rep_at(reads, p, (i + 1) as nat) is Err {
                reveal(alt_table_at);
                reveal(pt_alts_at);
                lemma_rep_err(reads, p, (i + 1) as nat, num as nat);
            }
        }
        let alt = parse_pt_alt(r, initial_len, removal_len, output_len, cnt)?;
        let ghost before = done;
        let ghost table0 = table@;
        proof {
            done = done.push(alt@);
        }
        let at: usize = first as usize + i as usize;
        table[at] = Some(alt);
        proof {
            assert(alts_of(done, first) =~= alts_of(before, first).update(at as int, Some(alt@)));
            assert(alts_view(table@) =~= alts_view(table0).update(at as int, Some(alt@)));
        }
        i = i + 1;
    }
    Ok(table)
}

fn write_alt_table(
    w: &mut BitWriter,
    x: &[Option<VvcPtAltCpb>; 8],
    initial_len: u32,
    removal_len: u32,
    output_len: u32,
    cnt: u64,
    first: u8,
    num: u64,
    name: &str,
    on: bool,
) -> (res: Result<(), BitstreamError>)
    requires
        first + num <= 8,
        initial_len <= 32,
        removal_len <= 32,
        output_len <= 32,
    ensures
        write_is(
            alt_table_can(alts_view(x@), initial_len, removal_len, output_len, cnt, first, num),
            put_alt_table(old(w)@, alts_view(x@), initial_len, removal_len, output_len, cnt, first, num),
            res,
            final(w)@,
        ),
{
    let ghost m = alts_view(x@);
    let ghost ys = coded_alts(m, first, num);
    let ghost puts = put_pt_alts_item(initial_len, removal_len, output_len, cnt);
    proof {
        reveal(alt_table_can);
        reveal(put_alt_table);
        reveal(pt_alts_can);
        reveal(put_pt_alts);
        assert(ys.take(0) =~= Seq::empty());
    }
    let mut i: usize = 0;
    while i < 8
        invariant
            i <= 8,
            first + num <= 8,
            initial_len <= 32,
            removal_len <= 32,
            output_len <= 32,
            m == alts_view(x@),
            ys == coded_alts(m, first, num),
            puts == put_pt_alts_item(initial_len, removal_len, output_len, cnt),
            forall|j: int| 0 <= j < i ==> ((#[trigger] m[j]) is Some <==> first <= j < first + num),
            w@ == put_rep(
                puts,
                old(w)@,
                ys.take(
                    if i <= first {
                        0
                    } else if i <= first + num {
                        i - first
                    } else {
                        num as int
                    },
                ),
            ),
            forall|j: int|
                0 <= j < num && first + j < i ==> pt_alt_can(
                    #[trigger] ys[j],
                    initial_len,
                    removal_len,
                    output_len,
                    cnt,
                ),
        decreases 8 - i,
    {
        let expect: bool = first as usize <= i && (i - first as usize) < num as usize;
        proof {
            assert(m[i as int] == opt_view(x@[i as int]));
            if expect {
                let k = i - first;
                assert(ys.take(k + 1).drop_last() =~= ys.take(k));
                assert(ys[k] == m[first + k]->Some_0);
            }
            reveal(alt_table_can);
            reveal(pt_alts_can);
        }
        match &x[i] {
            Some(alt) => {
                if !expect {
                    return Err(
                        if on {
                            Message::new("pic_timing ")
                                .with(name)
                                .with(" alt sublayer ")
                                .num(i as i128)
                                .with(": presence does not match the BP context")
                                .invalid()
                        } else {
                            BitstreamError::invalid(
                                "pic_timing alt-timing blocks without pt_cpb_alt_timing_info_present_flag",
                            )
                        },
                    );
                }
                write_pt_alt(w, alt, initial_len, removal_len, output_len, cnt, name, i)?;
            },
            None => {
                if expect {
                    return Err(
                        if on {
                            Message::new("pic_timing ")
                                .with(name)
                                .with(" alt sublayer ")
                                .num(i as i128)
                                .with(": presence does not match the BP context")
                                .invalid()
                        } else {
                            BitstreamError::invalid(
                                "pic_timing alt-timing blocks without pt_cpb_alt_timing_info_present_flag",
                            )
                        },
                    );
                }
            },
        }
        i = i + 1;
    }
    proof {
        assert(ys.take(num as int) =~= ys);
    }
    Ok(())
}

/// An increment at position `p`, coded only for a sublayer with delays present.
#[verifier::opaque]
pub open spec fn masked_item_at(
    s: Seq<bool>,
    p: nat,
    k: u64,
    width: u32,
    temporal_id: u8,
    mask: Seq<bool>,
) -> Read<u32> {
    let coded = mask[temporal_id + k];
    let v = u32_if(s, p, width as nat, coded, 0);
    let p = adv_if(p, width as nat, coded);
    Ok((v, p))
}

/// The bits `a` followed by an increment.
#[verifier::opaque]
pub open spec fn put_masked_item(
    a: Seq<bool>,
    x: u32,
    k: u64,
    width: u32,
    temporal_id: u8,
    mask: Seq<bool>,
) -> Seq<bool> {
    let coded = mask[temporal_id + k];
    let a = put_u_if(a, x as nat, width as nat, coded);
    a
}

/// The values of an increment that reading can give.
#[verifier::opaque]
pub open spec fn masked_item_ok(x: u32, k: u64, width: u32, temporal_id: u8, mask: Seq<bool>) -> bool {
    let coded = mask[temporal_id + k];
    &&& if coded { fits(x as nat, width as nat) } else { x == 0 }
}

/// The values of an increment that the writer accepts.
#[verifier::opaque]
pub open spec fn masked_item_can(x: u32, k: u64, width: u32, temporal_id: u8, mask: Seq<bool>) -> bool {
    let coded = mask[temporal_id + k];
    &&& !coded || fits(x as nat, width as nat)
}

/// Parses an increment.
fn parse_masked_item(
    r: &mut BitReader<'_>,
    k: u64,
    width: u32,
    temporal_id: u8,
    mask: &[bool; 8],
) -> (res: Result<u32, BitstreamError>)
    requires
        width <= 32,
        temporal_id as u64 + k < 8,
    ensures
        read_is(
            masked_item_at(old(r).bits(), old(r).pos(), k, width, temporal_id, mask@),
            res,
            *old(r),
            *final(r),
        ),
{
    proof {
        reveal(masked_item_at);
    }
    let coded: bool = mask[(temporal_id as u64 + k) as usize];
    let v: u32 = r.u_if(width, coded, 0);
    Ok(v)
}

/// Emits an increment, the inverse of [`parse_masked_item`].
fn write_masked_item(
    w: &mut BitWriter,
    x: &u32,
    k: u64,
    width: u32,
    temporal_id: u8,
    mask: &[bool; 8],
    name: &str,
) -> (res: Result<(), BitstreamError>)
    requires
        width <= 32,
        temporal_id as u64 + k < 8,
    ensures
        write_is(
            masked_item_can(*x, k, width, temporal_id, mask@),
            put_masked_item(old(w)@, *x, k, width, temporal_id, mask@),
            res,
            final(w)@,
        ),
{
    proof {
        reveal(put_masked_item);
        reveal(masked_item_can);
    }
    let coded: bool = mask[(temporal_id as u64 + k) as usize];
    if !(!coded || fits_bits(*x, width)) {
        return Err(Message::new("").with(name).with(" does not fit its length field").invalid());
    }
    w.write_bits_if(*x, width, coded);
    Ok(())
}

/// Writing an increment gives back the bits it was read from.
pub broadcast proof fn law_put_masked_item_at(
    s: Seq<bool>,
    p: nat,
    k: u64,
    width: u32,
    temporal_id: u8,
    mask: Seq<bool>,
)
    requires
        width <= 32,
    ensures
        #[trigger] masked_item_at(s, p, k, width, temporal_id, mask) matches Ok((x, q)) ==> {
            &&& masked_item_ok(x, k, width, temporal_id, mask)
            &&& masked_item_can(x, k, width, temporal_id, mask)
            &&& within(s, q)
                ==> within(s, p)
                && put_masked_item(upto(s, p), x, k, width, temporal_id, mask) == upto(s, q)
        },
{
    broadcast use crate::bits::group_write_read;

    reveal(masked_item_at);
    reveal(put_masked_item);
    reveal(masked_item_ok);
    reveal(masked_item_can);
}

/// Reading gives back an increment as it was written.
pub broadcast proof fn law_pre_put_masked_item(
    a: Seq<bool>,
    x: u32,
    k: u64,
    width: u32,
    temporal_id: u8,
    mask: Seq<bool>,
    s: Seq<bool>,
)
    requires
        #[trigger] pre(put_masked_item(a, x, k, width, temporal_id, mask), s),
        masked_item_ok(x, k, width, temporal_id, mask),
        width <= 32,
    ensures
        pre(a, s),
        masked_item_can(x, k, width, temporal_id, mask),
        masked_item_at(s, a.len(), k, width, temporal_id, mask) == Ok::<(u32, nat), Fault>(
            (x, put_masked_item(a, x, k, width, temporal_id, mask).len()),
        ),
{
    broadcast use crate::bits::group_read_written;

    reveal(masked_item_at);
    reveal(put_masked_item);
    reveal(masked_item_ok);
    reveal(masked_item_can);
}

/// The layout of an increment: reading at `p` gives `x` and ends at `q` if and
/// only if these elements stand there in this order.
pub proof fn law_layout_masked_item(
    s: Seq<bool>,
    p: nat,
    k: u64,
    width: u32,
    temporal_id: u8,
    mask: Seq<bool>,
    x: u32,
    q: nat,
)
    ensures
        masked_item_at(s, p, k, width, temporal_id, mask) == Ok::<(u32, nat), Fault>((x, q)) <==> ({
            let coded = mask[temporal_id + k];
            &&& cursor(s, p).u32_if(coded, width as nat, x, 0).ends(q)
        }),
{
    reveal(masked_item_at);
    reveal(adv_if);
    reveal(u32_if);
}

/// Reading an increment never fails.
pub broadcast proof fn law_faults_masked_item(
    s: Seq<bool>,
    p: nat,
    k: u64,
    width: u32,
    temporal_id: u8,
    mask: Seq<bool>,
)
    ensures
        #[trigger] masked_item_at(s, p, k, width, temporal_id, mask) is Ok,
{
    reveal(masked_item_at);
}

/// What the writer accepts reads back: an increment, where each field fits its
/// width and what is not coded has the value that is taken for it.
pub proof fn law_reads_masked_item(
    a: Seq<bool>,
    x: u32,
    k: u64,
    width: u32,
    temporal_id: u8,
    mask: Seq<bool>,
    s: Seq<bool>,
)
    requires
        masked_item_can(x, k, width, temporal_id, mask),
        ({
            let coded = mask[temporal_id + k];
            &&& (!coded ==> x == 0)
        }),
        pre(put_masked_item(a, x, k, width, temporal_id, mask), s),
        width <= 32,
    ensures
        masked_item_at(s, a.len(), k, width, temporal_id, mask) == Ok::<(u32, nat), Fault>(
            (x, put_masked_item(a, x, k, width, temporal_id, mask).len()),
        ),
{
    assert(masked_item_ok(x, k, width, temporal_id, mask)) by {
        broadcast use crate::bits::law_fits_small;

        reveal(masked_item_ok);
        reveal(masked_item_can);
    }
    law_pre_put_masked_item(a, x, k, width, temporal_id, mask, s);
}

/// Reads an increment, behind the items before it.
pub open spec fn masked_items_item(
    s: Seq<bool>,
    width: u32,
    temporal_id: u8,
    mask: Seq<bool>,
) -> spec_fn(Seq<u32>, nat) -> Read<u32> {
    |done: Seq<u32>, q: nat| masked_item_at(s, q, done.len() as u64, width, temporal_id, mask)
}

/// Writes an increment, behind the items before it.
pub open spec fn put_masked_items_item(
    width: u32,
    temporal_id: u8,
    mask: Seq<bool>,
) -> spec_fn(Seq<bool>, Seq<u32>, u32) -> Seq<bool> {
    |a: Seq<bool>, done: Seq<u32>, x: u32| put_masked_item(a, x, done.len() as u64, width, temporal_id, mask)
}

/// Whether an increment may follow the items before it.
pub open spec fn masked_items_item_ok(
    width: u32,
    temporal_id: u8,
    mask: Seq<bool>,
) -> spec_fn(Seq<u32>, u32) -> bool {
    |done: Seq<u32>, x: u32| masked_item_ok(x, done.len() as u64, width, temporal_id, mask)
        && masked_item_can(x, done.len() as u64, width, temporal_id, mask)
}

/// `n` items at position `p`, each an increment.
#[verifier::opaque]
pub open spec fn masked_items_at(
    s: Seq<bool>,
    p: nat,
    width: u32,
    temporal_id: u8,
    mask: Seq<bool>,
    n: u64,
) -> Read<Seq<u32>> {
    rep_at(masked_items_item(s, width, temporal_id, mask), p, n as nat)
}

/// The bits `a` followed by the items.
#[verifier::opaque]
pub open spec fn put_masked_items(
    a: Seq<bool>,
    xs: Seq<u32>,
    width: u32,
    temporal_id: u8,
    mask: Seq<bool>,
    n: u64,
) -> Seq<bool> {
    put_rep(put_masked_items_item(width, temporal_id, mask), a, xs)
}

/// `n` items that reading can give.
#[verifier::opaque]
pub open spec fn masked_items_ok(xs: Seq<u32>, width: u32, temporal_id: u8, mask: Seq<bool>, n: u64) -> bool {
    xs.len() == n
        && forall|i: int| 0 <= i < xs.len()
        ==> masked_item_ok(#[trigger] xs[i], i as u64, width, temporal_id, mask)
        && masked_item_can(xs[i], i as u64, width, temporal_id, mask)
}

/// `n` items that the writer accepts.
#[verifier::opaque]
pub open spec fn masked_items_can(
    xs: Seq<u32>,
    width: u32,
    temporal_id: u8,
    mask: Seq<bool>,
    n: u64,
) -> bool {
    xs.len() == n
        && forall|i: int| 0 <= i < xs.len()
        ==> masked_item_can(#[trigger] xs[i], i as u64, width, temporal_id, mask)
}

/// Parses `n` items, each an increment.
fn parse_masked_items(
    r: &mut BitReader<'_>,
    width: u32,
    temporal_id: u8,
    mask: &[bool; 8],
    n: u64,
) -> (res: Result<Vec<u32>, BitstreamError>)
    requires
        width <= 32,
        temporal_id as u64 + n <= 8,
    ensures
        read_vec_is(
            masked_items_at(old(r).bits(), old(r).pos(), width, temporal_id, mask@, n),
            res,
            *old(r),
            *final(r),
        ),
        res matches Ok(v) ==> v@.len() == n,
{
    let ghost s = r.bits();
    let ghost p = r.pos();
    let ghost reads = masked_items_item(s, width, temporal_id, mask@);
    let mut xs: Vec<u32> = Vec::new();
    let mut i: u64 = 0;
    proof {
        reveal(masked_items_at);
    }
    while i < n
        invariant
            i <= n,
            xs@.len() == i,
                width <= 32,
                temporal_id as u64 + n <= 8,
            reads == masked_items_item(s, width, temporal_id, mask@),
            s == r.bits(),
            s == old(r).bits(),
            p == old(r).pos(),
            r.bytes() == old(r).bytes(),
            rep_at(reads, p, i as nat) == Ok::<(Seq<u32>, nat), Fault>((xs@, r.pos())),
        decreases n - i,
    {
        match parse_masked_item(r, i, width, temporal_id, mask) {
            Ok(x) => {
                xs.push(x);
            },
            Err(e) => {
                proof {
                    reveal(masked_items_at);
                    lemma_rep_err(reads, p, (i + 1) as nat, n as nat);
                }
                return Err(e);
            },
        }
        i = i + 1;
    }
    Ok(xs)
}

/// Emits `n` items, each an increment.
fn write_masked_items(
    w: &mut BitWriter,
    xs: &Vec<u32>,
    width: u32,
    temporal_id: u8,
    mask: &[bool; 8],
    n: u64,
    name: &str,
) -> (res: Result<(), BitstreamError>)
    requires
        width <= 32,
        temporal_id as u64 + n <= 8,
    ensures
        write_is(
            masked_items_can(xs@, width, temporal_id, mask@, n),
            put_masked_items(old(w)@, xs@, width, temporal_id, mask@, n),
            res,
            final(w)@,
        ),
        res is Ok ==> xs@.len() == n,
{
    let ghost before = w@;
    let ghost puts = put_masked_items_item(width, temporal_id, mask@);
    let ghost ys = xs@;
    proof {
        reveal(put_masked_items);
        reveal(masked_items_can);
        assert(ys.take(0) =~= Seq::empty());
    }
    if xs.len() as u64 != n {
        return Err(BitstreamError::invalid("unexpected number of entries"));
    }
    let mut i: usize = 0;
    while i < xs.len()
        invariant
            i <= xs@.len(),
            xs@.len() == n,
            ys == xs@,
            ys.len() == xs@.len(),
                width <= 32,
                temporal_id as u64 + n <= 8,
            before == old(w)@,
            puts == put_masked_items_item(width, temporal_id, mask@),
            w@ == put_rep(puts, before, ys.take(i as int)),
            forall|j: int| 0 <= j < i
                ==> masked_item_can(#[trigger] ys[j], j as u64, width, temporal_id, mask@),
        ensures
            i == xs@.len(),
        decreases xs@.len() - i,
    {
        proof {
            assert(ys.take(i + 1).drop_last() =~= ys.take(i as int));
            assert(ys[i as int] == xs@[i as int]);
        }
        match write_masked_item(w, &xs[i], i as u64, width, temporal_id, mask, name) {
            Ok(()) => {},
            Err(e) => {
                proof {
                    reveal(masked_items_can);
                }
                return Err(e);
            },
        }
        i = i + 1;
    }
    proof {
        assert(ys.take(i as int) =~= ys);
    }
    Ok(())
}

/// Writing what was read gives back the bits that were read.
pub broadcast proof fn law_put_masked_items_at(
    s: Seq<bool>,
    p: nat,
    width: u32,
    temporal_id: u8,
    mask: Seq<bool>,
    n: u64,
)
    requires
        width <= 32,
    ensures
        #[trigger] masked_items_at(s, p, width, temporal_id, mask, n) matches Ok((xs, q)) ==> {
            &&& xs.len() == n
            &&& masked_items_ok(xs, width, temporal_id, mask, n)
            &&& masked_items_can(xs, width, temporal_id, mask, n)
            &&& within(s, q)
                ==> within(s, p)
                && put_masked_items(upto(s, p), xs, width, temporal_id, mask, n) == upto(s, q)
        },
{
    broadcast use law_put_masked_item_at;

    reveal(masked_items_at);
    reveal(put_masked_items);
    reveal(masked_items_ok);
    reveal(masked_items_can);
    let ok = masked_items_item_ok(width, temporal_id, mask);
    law_put_rep_at(
        s,
        masked_items_item(s, width, temporal_id, mask),
        put_masked_items_item(width, temporal_id, mask),
        ok,
        p,
        n as nat,
    );
    if let Ok((xs, q)) = masked_items_at(s, p, width, temporal_id, mask, n) {
        assert forall|i: int| 0 <= i < xs.len() implies ok(xs.take(i), #[trigger] xs[i]) by {}
    }
}

/// What was written reads back as the items that were written.
pub broadcast proof fn law_pre_put_masked_items(
    a: Seq<bool>,
    xs: Seq<u32>,
    width: u32,
    temporal_id: u8,
    mask: Seq<bool>,
    n: u64,
    s: Seq<bool>,
)
    requires
        #[trigger] pre(put_masked_items(a, xs, width, temporal_id, mask, n), s),
        masked_items_ok(xs, width, temporal_id, mask, n),
        width <= 32,
    ensures
        pre(a, s),
        masked_items_can(xs, width, temporal_id, mask, n),
        masked_items_at(s, a.len(), width, temporal_id, mask, n) == Ok::<(Seq<u32>, nat), Fault>(
            (xs, put_masked_items(a, xs, width, temporal_id, mask, n).len()),
        ),
{
    broadcast use law_pre_put_masked_item;

    reveal(masked_items_at);
    reveal(put_masked_items);
    reveal(masked_items_ok);
    reveal(masked_items_can);
    law_rep_at_put(
        s,
        masked_items_item(s, width, temporal_id, mask),
        put_masked_items_item(width, temporal_id, mask),
        masked_items_item_ok(width, temporal_id, mask),
        a,
        xs,
    );
}

/// `n` items stand one behind the other: `n - 1` items, and then an increment.
pub proof fn law_layout_masked_items(
    s: Seq<bool>,
    p: nat,
    width: u32,
    temporal_id: u8,
    mask: Seq<bool>,
    n: u64,
    xs: Seq<u32>,
    q: nat,
)
    ensures
        masked_items_at(s, p, width, temporal_id, mask, n) == Ok::<(Seq<u32>, nat), Fault>((xs, q)) <==> if n == 0 {
            xs.len() == 0 && q == p
        } else {
            &&& xs.len() == n
            &&& cursor(s, p)
                .part(
                    |p: nat| masked_items_at(s, p, width, temporal_id, mask, (n - 1) as u64),
                    xs.drop_last(),
                )
                .part(|p: nat| masked_item_at(s, p, (n - 1) as u64, width, temporal_id, mask), xs.last())
                .ends(q)
        },
{
    reveal(masked_items_at);
    lemma_rep_step(masked_items_item(s, width, temporal_id, mask), p, n as nat);
    if xs.len() == 0 {
        assert(xs =~= Seq::empty());
    } else {
        assert(xs =~= xs.drop_last().push(xs.last()));
    }
    if n > 0 {
        if let Ok((done, r)) = rep_at(masked_items_item(s, width, temporal_id, mask), p, (n - 1) as nat) {
            if let Ok((y, z)) = masked_items_item(s, width, temporal_id, mask)(done, r) {
                assert(done.push(y).drop_last() =~= done);
            }
        }
    }
}

/// What the writer accepts as `n` items reads back, where each of them is one that
/// reading can give.
pub proof fn law_reads_masked_items(
    a: Seq<bool>,
    xs: Seq<u32>,
    width: u32,
    temporal_id: u8,
    mask: Seq<bool>,
    n: u64,
    s: Seq<bool>,
)
    requires
        masked_items_can(xs, width, temporal_id, mask, n),
        forall|i: int| 0 <= i < xs.len()
            ==> masked_item_ok(#[trigger] xs[i], i as u64, width, temporal_id, mask),
        pre(put_masked_items(a, xs, width, temporal_id, mask, n), s),
        width <= 32,
    ensures
        xs.len() == n,
        masked_items_at(s, a.len(), width, temporal_id, mask, n) == Ok::<(Seq<u32>, nat), Fault>(
            (xs, put_masked_items(a, xs, width, temporal_id, mask, n).len()),
        ),
{
    reveal(masked_items_can);
    assert(masked_items_ok(xs, width, temporal_id, mask, n)) by {
        reveal(masked_items_ok);
    }
    law_pre_put_masked_items(a, xs, width, temporal_id, mask, n, s);
}

/// Reading the items never fails.
pub broadcast proof fn law_faults_masked_items(
    s: Seq<bool>,
    p: nat,
    width: u32,
    temporal_id: u8,
    mask: Seq<bool>,
    n: u64,
)
    ensures
        #[trigger] masked_items_at(s, p, width, temporal_id, mask, n) is Ok,
{
    broadcast use law_faults_masked_item;

    reveal(masked_items_at);
    let f = masked_items_item(s, width, temporal_id, mask);
    assert forall|done: Seq<u32>, q: nat| (#[trigger] f(done, q)) is Ok by {}
    lemma_rep_faults_none(f, p, n as nat);
}

/// The row of eight sublayers: those from `first` on, and zeros elsewhere.
pub open spec fn row_of(b: Seq<u32>, first: u8) -> Seq<u32> {
    Seq::new(
        8,
        |i: int|
            if first <= i < first + b.len() {
                b[i - first]
            } else {
                0u32
            },
    )
}

/// The `num` entries from `first` on.
pub open spec fn coded_row(x: Seq<u32>, first: u8, num: u64) -> Seq<u32> {
    Seq::new(num as nat, |k: int| x[first + k])
}

proof fn lemma_masked_row(b: Seq<u32>, width: u32, first: u8, mask: Seq<bool>, num: u64)
    requires
        first + num <= 8,
        masked_items_ok(b, width, first, mask, num),
    ensures
        coded_row(row_of(b, first), first, num) == b,
        row_of(b, first).len() == 8,
{
    reveal(masked_items_ok);
    assert(coded_row(row_of(b, first), first, num) =~= b);
}

/// The increments of `num` sublayers from `temporal_id` on at position `p`, in a row of eight.
#[verifier::opaque]
pub open spec fn masked_row_at(
    s: Seq<bool>,
    p: nat,
    width: u32,
    temporal_id: u8,
    mask: Seq<bool>,
    num: u64,
) -> Read<Seq<u32>> {
    match masked_items_at(s, p, width, temporal_id, mask, num) {
        Err(f) => Err(f),
        Ok((b, p)) => Ok((row_of(b, temporal_id), p)),
    }
}

/// Writes the values.
#[verifier::opaque]
pub open spec fn put_masked_row(
    a: Seq<bool>,
    x: Seq<u32>,
    width: u32,
    temporal_id: u8,
    mask: Seq<bool>,
    num: u64,
) -> Seq<bool> {
    put_masked_items(a, coded_row(x, temporal_id, num), width, temporal_id, mask, num)
}

/// Values that reading can give.
#[verifier::opaque]
pub open spec fn masked_row_ok(x: Seq<u32>, width: u32, temporal_id: u8, mask: Seq<bool>, num: u64) -> bool {
    let b = coded_row(x, temporal_id, num);
    x.len() == 8 && masked_items_ok(b, width, temporal_id, mask, num) && x == row_of(b, temporal_id)
}

/// Values that the writer accepts.
#[verifier::opaque]
pub open spec fn masked_row_can(x: Seq<u32>, width: u32, temporal_id: u8, mask: Seq<bool>, num: u64) -> bool {
    x.len() == 8 && masked_items_can(coded_row(x, temporal_id, num), width, temporal_id, mask, num)
}

/// Writing what was read gives back the bits that were read.
pub broadcast proof fn law_put_masked_row_at(
    s: Seq<bool>,
    p: nat,
    width: u32,
    temporal_id: u8,
    mask: Seq<bool>,
    num: u64,
)
    requires
        temporal_id + num <= 8,
        width <= 32,
    ensures
        #[trigger] masked_row_at(s, p, width, temporal_id, mask, num) matches Ok((x, q)) ==> {
            &&& masked_row_ok(x, width, temporal_id, mask, num)
            &&& masked_row_can(x, width, temporal_id, mask, num)
            &&& within(s, q)
                ==> within(s, p)
                && put_masked_row(upto(s, p), x, width, temporal_id, mask, num) == upto(s, q)
        },
{
    broadcast use law_put_masked_items_at;

    reveal(masked_row_at);
    reveal(put_masked_row);
    reveal(masked_row_ok);
    reveal(masked_row_can);
    if let Ok((b, q)) = masked_items_at(s, p, width, temporal_id, mask, num) {
        lemma_masked_row(b, width, temporal_id, mask, num);
    }
}

/// What was written reads back as the values that were written.
pub broadcast proof fn law_pre_put_masked_row(
    a: Seq<bool>,
    x: Seq<u32>,
    width: u32,
    temporal_id: u8,
    mask: Seq<bool>,
    num: u64,
    s: Seq<bool>,
)
    requires
        #[trigger] pre(put_masked_row(a, x, width, temporal_id, mask, num), s),
        masked_row_ok(x, width, temporal_id, mask, num),
        temporal_id + num <= 8,
        width <= 32,
    ensures
        pre(a, s),
        masked_row_can(x, width, temporal_id, mask, num),
        masked_row_at(s, a.len(), width, temporal_id, mask, num) == Ok::<(Seq<u32>, nat), Fault>(
            (x, put_masked_row(a, x, width, temporal_id, mask, num).len()),
        ),
{
    broadcast use law_pre_put_masked_items;

    reveal(masked_row_at);
    reveal(put_masked_row);
    reveal(masked_row_ok);
    reveal(masked_row_can);
}

/// What the writer accepts reads back, where the coded values are ones that reading can
/// give and the others are those that stand for what is not coded.
pub proof fn law_reads_masked_row(
    a: Seq<bool>,
    x: Seq<u32>,
    width: u32,
    temporal_id: u8,
    mask: Seq<bool>,
    num: u64,
    s: Seq<bool>,
)
    requires
        masked_row_can(x, width, temporal_id, mask, num),
        ({
            let b = coded_row(x, temporal_id, num);
            masked_items_ok(b, width, temporal_id, mask, num) && x == row_of(b, temporal_id)
        }),
        pre(put_masked_row(a, x, width, temporal_id, mask, num), s),
        temporal_id + num <= 8,
        width <= 32,
    ensures
        masked_row_at(s, a.len(), width, temporal_id, mask, num) == Ok::<(Seq<u32>, nat), Fault>(
            (x, put_masked_row(a, x, width, temporal_id, mask, num).len()),
        ),
{
    assert(masked_row_ok(x, width, temporal_id, mask, num)) by {
        reveal(masked_row_ok);
        reveal(masked_row_can);
    }
    law_pre_put_masked_row(a, x, width, temporal_id, mask, num, s);
}

/// Reading them never fails.
pub broadcast proof fn law_faults_masked_row(
    s: Seq<bool>,
    p: nat,
    width: u32,
    temporal_id: u8,
    mask: Seq<bool>,
    num: u64,
)
    ensures
        #[trigger] masked_row_at(s, p, width, temporal_id, mask, num) is Ok,
{
    broadcast use law_faults_masked_items;

    reveal(masked_row_at);
}

fn parse_masked_row(r: &mut BitReader<'_>, width: u32, first: u8, mask: &[bool; 8], num: u64) -> (res: Result<
    [u32; 8],
    BitstreamError,
>)
    requires
        width <= 32,
        first + num <= 8,
    ensures
        read_view_is(
            masked_row_at(old(r).bits(), old(r).pos(), width, first, mask@, num),
            res,
            *old(r),
            *final(r),
        ),
{
    proof {
        reveal(masked_row_at);
    }
    let v = parse_masked_items(r, width, first, mask, num)?;
    let mut row: [u32; 8] = [0; 8];
    let mut i: usize = 0;
    while i < v.len()
        invariant
            i <= v@.len(),
            first + v@.len() <= 8,
            forall|k: int|
                0 <= k < 8 ==> #[trigger] row@[k] == (if first <= k < first + i {
                    v@[k - first]
                } else {
                    0u32
                }),
        decreases v@.len() - i,
    {
        row[first as usize + i] = v[i];
        i = i + 1;
    }
    proof {
        assert(row@ =~= row_of(v@, first));
    }
    Ok(row)
}

fn write_masked_row(
    w: &mut BitWriter,
    x: &[u32; 8],
    width: u32,
    first: u8,
    mask: &[bool; 8],
    num: u64,
    name: &str,
) -> (res: Result<(), BitstreamError>)
    requires
        width <= 32,
        first + num <= 8,
    ensures
        write_is(
            masked_row_can(x@, width, first, mask@, num),
            put_masked_row(old(w)@, x@, width, first, mask@, num),
            res,
            final(w)@,
        ),
{
    proof {
        reveal(masked_row_can);
        reveal(put_masked_row);
    }
    let mut v: Vec<u32> = Vec::new();
    let mut i: usize = 0;
    while i < num as usize
        invariant
            i <= num,
            first + num <= 8,
            v@.len() == i,
            forall|k: int| 0 <= k < i ==> #[trigger] v@[k] == x@[first + k],
        decreases num - i,
    {
        v.push(x[first as usize + i]);
        i = i + 1;
    }
    proof {
        assert(v@ =~= coded_row(x@, first, num));
    }
    write_masked_items(w, &v, width, first, mask, num, name)
}

proof fn lemma_masked_row_grows(a: Seq<bool>, x: Seq<u32>, width: u32, first: u8, mask: Seq<bool>, num: u64)
    ensures
        put_masked_row(a, x, width, first, mask, num).len() >= a.len(),
{
    reveal(put_masked_row);
    reveal(put_masked_items);
    let puts = put_masked_items_item(width, first, mask);
    assert forall|b: Seq<bool>, d: Seq<u32>, y: u32| (#[trigger] puts(b, d, y)).len() >= b.len() + 0 by {
        reveal(put_masked_item);
        lemma_put_u_if_grows(b, y as nat, width as nat, mask[first + d.len() as u64]);
    }
    lemma_put_rep_grows(puts, a, coded_row(x, first, num), 0);
}

/// One decoding unit of picture timing: its number of NAL units, and its row of
/// increments (zeros where none are coded).
pub struct DuItem {
    pub nalus: u32,
    pub row: [u32; 8],
}

/// The mathematical model of a [`DuItem`].
pub struct DuItemModel {
    pub nalus: u32,
    pub row: Seq<u32>,
}

impl View for DuItem {
    type V = DuItemModel;

    open spec fn view(&self) -> DuItemModel {
        DuItemModel {
            nalus: self.nalus,
            row: self.row@,
        }
    }
}

/// A decoding unit at position `p`.
#[verifier::opaque]
pub open spec fn du_item_at(
    s: Seq<bool>,
    p: nat,
    k: u64,
    width: u32,
    temporal_id: u8,
    mask: Seq<bool>,
    num: u64,
    rows: u64,
) -> Read<DuItemModel> {
    match ue_at(s, p) { Err(f) => Err(f), Ok((nalus, p)) => {
    match masked_row_at(s, p, width, temporal_id, mask, (if k < rows { num } else { 0u64 }))
    { Err(f) => Err(f), Ok((row, p)) => {
    Ok((DuItemModel { nalus, row }, p))
    }}}}
}

/// The bits `a` followed by a decoding unit.
#[verifier::opaque]
pub open spec fn put_du_item(
    a: Seq<bool>,
    x: DuItemModel,
    k: u64,
    width: u32,
    temporal_id: u8,
    mask: Seq<bool>,
    num: u64,
    rows: u64,
) -> Seq<bool> {
    let a = put_ue(a, x.nalus as nat);
    let a = put_masked_row(a, x.row, width, temporal_id, mask, (if k < rows { num } else { 0u64 }));
    a
}

/// The values of a decoding unit that reading can give.
#[verifier::opaque]
pub open spec fn du_item_ok(
    x: DuItemModel,
    k: u64,
    width: u32,
    temporal_id: u8,
    mask: Seq<bool>,
    num: u64,
    rows: u64,
) -> bool {
    &&& ue_fits(x.nalus as nat)
    &&& masked_row_ok(x.row, width, temporal_id, mask, (if k < rows { num } else { 0u64 }))
}

/// The values of a decoding unit that the writer accepts.
#[verifier::opaque]
pub open spec fn du_item_can(
    x: DuItemModel,
    k: u64,
    width: u32,
    temporal_id: u8,
    mask: Seq<bool>,
    num: u64,
    rows: u64,
) -> bool {
    &&& ue_fits(x.nalus as nat)
    &&& masked_row_can(x.row, width, temporal_id, mask, (if k < rows { num } else { 0u64 }))
}

/// Parses a decoding unit.
fn parse_du_item(
    r: &mut BitReader<'_>,
    k: u64,
    width: u32,
    temporal_id: u8,
    mask: &[bool; 8],
    num: u64,
    rows: u64,
) -> (res: Result<DuItem, BitstreamError>)
    requires
        width <= 32,
        temporal_id as u64 + num <= 8,
    ensures
        read_view_is(
            du_item_at(old(r).bits(), old(r).pos(), k, width, temporal_id, mask@, num, rows),
            res,
            *old(r),
            *final(r),
        ),
{
    proof {
        reveal(du_item_at);
    }
    let nalus: u32 = r.ue()?;
    let row = parse_masked_row(r, width, temporal_id, mask, (if k < rows { num } else { 0u64 }))?;
    Ok(DuItem { nalus, row })
}

/// Emits a decoding unit, the inverse of [`parse_du_item`].
fn write_du_item(
    w: &mut BitWriter,
    x: &DuItem,
    k: u64,
    width: u32,
    temporal_id: u8,
    mask: &[bool; 8],
    num: u64,
    rows: u64,
) -> (res: Result<(), BitstreamError>)
    requires
        width <= 32,
        temporal_id as u64 + num <= 8,
    ensures
        write_is(
            du_item_can(x@, k, width, temporal_id, mask@, num, rows),
            put_du_item(old(w)@, x@, k, width, temporal_id, mask@, num, rows),
            res,
            final(w)@,
        ),
{
    proof {
        reveal(put_du_item);
        reveal(du_item_can);
    }
    w.write_ue(x.nalus)?;
    write_masked_row(
        w,
        &x.row,
        width,
        temporal_id,
        mask,
        (if k < rows { num } else { 0u64 }),
        "pt_du_cpb_removal_delay_increment_minus1",
    )?;
    Ok(())
}

/// Writing a decoding unit gives back the bits it was read from.
pub broadcast proof fn law_put_du_item_at(
    s: Seq<bool>,
    p: nat,
    k: u64,
    width: u32,
    temporal_id: u8,
    mask: Seq<bool>,
    num: u64,
    rows: u64,
)
    requires
        width <= 32,
        temporal_id + num <= 8,
    ensures
        #[trigger] du_item_at(s, p, k, width, temporal_id, mask, num, rows) matches Ok((x, q)) ==> {
            &&& du_item_ok(x, k, width, temporal_id, mask, num, rows)
            &&& du_item_can(x, k, width, temporal_id, mask, num, rows)
            &&& within(s, q)
                ==> within(s, p)
                && put_du_item(upto(s, p), x, k, width, temporal_id, mask, num, rows) == upto(s, q)
        },
{
    broadcast use {crate::bits::group_write_read, law_put_masked_row_at};

    reveal(du_item_at);
    reveal(put_du_item);
    reveal(du_item_ok);
    reveal(du_item_can);
}

/// Reading gives back a decoding unit as it was written.
pub broadcast proof fn law_pre_put_du_item(
    a: Seq<bool>,
    x: DuItemModel,
    k: u64,
    width: u32,
    temporal_id: u8,
    mask: Seq<bool>,
    num: u64,
    rows: u64,
    s: Seq<bool>,
)
    requires
        #[trigger] pre(put_du_item(a, x, k, width, temporal_id, mask, num, rows), s),
        du_item_ok(x, k, width, temporal_id, mask, num, rows),
        width <= 32,
        temporal_id + num <= 8,
    ensures
        pre(a, s),
        du_item_can(x, k, width, temporal_id, mask, num, rows),
        du_item_at(s, a.len(), k, width, temporal_id, mask, num, rows) == Ok::<(DuItemModel, nat), Fault>(
            (x, put_du_item(a, x, k, width, temporal_id, mask, num, rows).len()),
        ),
{
    broadcast use {crate::bits::group_read_written, law_pre_put_masked_row};

    reveal(du_item_at);
    reveal(put_du_item);
    reveal(du_item_ok);
    reveal(du_item_can);
}

/// The layout of a decoding unit: reading at `p` gives `x` and ends at `q` if
/// and only if these elements stand there in this order.
pub proof fn law_layout_du_item(
    s: Seq<bool>,
    p: nat,
    k: u64,
    width: u32,
    temporal_id: u8,
    mask: Seq<bool>,
    num: u64,
    rows: u64,
    x: DuItemModel,
    q: nat,
)
    ensures
        du_item_at(s, p, k, width, temporal_id, mask, num, rows) == Ok::<(DuItemModel, nat), Fault>((x, q))
            <==> cursor(s, p)
            .ue(x.nalus)
            .part(
                |p: nat| masked_row_at(s, p, width, temporal_id, mask, (if k < rows { num } else { 0u64 })),
                x.row,
            )
            .ends(q),
{
    reveal(du_item_at);
}

/// Reading a decoding unit fails only with an error of this class.
pub broadcast proof fn law_faults_du_item(
    s: Seq<bool>,
    p: nat,
    k: u64,
    width: u32,
    temporal_id: u8,
    mask: Seq<bool>,
    num: u64,
    rows: u64,
)
    ensures
        #[trigger] du_item_at(s, p, k, width, temporal_id, mask, num, rows) matches Err(f)
            ==> f == Fault::Invalid,
{
    broadcast use {crate::bits::law_faults_ue, law_faults_masked_row};

    reveal(du_item_at);
}

/// What the writer accepts reads back: a decoding unit, where each field fits
/// its width and what is not coded has the value that is taken for it.
pub proof fn law_reads_du_item(
    a: Seq<bool>,
    x: DuItemModel,
    k: u64,
    width: u32,
    temporal_id: u8,
    mask: Seq<bool>,
    num: u64,
    rows: u64,
    s: Seq<bool>,
)
    requires
        du_item_can(x, k, width, temporal_id, mask, num, rows),
        masked_row_ok(x.row, width, temporal_id, mask, (if k < rows { num } else { 0u64 })),
        pre(put_du_item(a, x, k, width, temporal_id, mask, num, rows), s),
        width <= 32,
        temporal_id + num <= 8,
    ensures
        du_item_at(s, a.len(), k, width, temporal_id, mask, num, rows) == Ok::<(DuItemModel, nat), Fault>(
            (x, put_du_item(a, x, k, width, temporal_id, mask, num, rows).len()),
        ),
{
    assert(du_item_ok(x, k, width, temporal_id, mask, num, rows)) by {
        broadcast use crate::bits::law_fits_small;

        reveal(du_item_ok);
        reveal(du_item_can);
    }
    law_pre_put_du_item(a, x, k, width, temporal_id, mask, num, rows, s);
}

/// Each field of the model of a [`DuItem`] is the field of that name.
pub proof fn law_view_du_item(x: DuItem)
    ensures
        x@.nalus == x.nalus,
        x@.row == x.row@,
{
}

/// Reads a decoding unit, behind the items before it.
pub open spec fn du_items_item(
    s: Seq<bool>,
    width: u32,
    temporal_id: u8,
    mask: Seq<bool>,
    num: u64,
    rows: u64,
) -> spec_fn(Seq<DuItemModel>, nat) -> Read<DuItemModel> {
    |done: Seq<DuItemModel>, q: nat| du_item_at(s, q, done.len() as u64, width, temporal_id, mask, num, rows)
}

/// Writes a decoding unit, behind the items before it.
pub open spec fn put_du_items_item(
    width: u32,
    temporal_id: u8,
    mask: Seq<bool>,
    num: u64,
    rows: u64,
) -> spec_fn(Seq<bool>, Seq<DuItemModel>, DuItemModel) -> Seq<bool> {
    |a: Seq<bool>, done: Seq<DuItemModel>, x: DuItemModel| put_du_item(
        a,
        x,
        done.len() as u64,
        width,
        temporal_id,
        mask,
        num,
        rows,
    )
}

/// Whether a decoding unit may follow the items before it.
pub open spec fn du_items_item_ok(
    width: u32,
    temporal_id: u8,
    mask: Seq<bool>,
    num: u64,
    rows: u64,
) -> spec_fn(Seq<DuItemModel>, DuItemModel) -> bool {
    |done: Seq<DuItemModel>, x: DuItemModel| du_item_ok(
        x,
        done.len() as u64,
        width,
        temporal_id,
        mask,
        num,
        rows,
    )
        && du_item_can(x, done.len() as u64, width, temporal_id, mask, num, rows)
}

/// `n` items at position `p`, each a decoding unit.
#[verifier::opaque]
pub open spec fn du_items_at(
    s: Seq<bool>,
    p: nat,
    width: u32,
    temporal_id: u8,
    mask: Seq<bool>,
    num: u64,
    rows: u64,
    n: u64,
) -> Read<Seq<DuItemModel>> {
    rep_at(du_items_item(s, width, temporal_id, mask, num, rows), p, n as nat)
}

/// The bits `a` followed by the items.
#[verifier::opaque]
pub open spec fn put_du_items(
    a: Seq<bool>,
    xs: Seq<DuItemModel>,
    width: u32,
    temporal_id: u8,
    mask: Seq<bool>,
    num: u64,
    rows: u64,
    n: u64,
) -> Seq<bool> {
    put_rep(put_du_items_item(width, temporal_id, mask, num, rows), a, xs)
}

/// `n` items that reading can give.
#[verifier::opaque]
pub open spec fn du_items_ok(
    xs: Seq<DuItemModel>,
    width: u32,
    temporal_id: u8,
    mask: Seq<bool>,
    num: u64,
    rows: u64,
    n: u64,
) -> bool {
    xs.len() == n
        && forall|i: int| 0 <= i < xs.len()
        ==> du_item_ok(#[trigger] xs[i], i as u64, width, temporal_id, mask, num, rows)
        && du_item_can(xs[i], i as u64, width, temporal_id, mask, num, rows)
}

/// `n` items that the writer accepts.
#[verifier::opaque]
pub open spec fn du_items_can(
    xs: Seq<DuItemModel>,
    width: u32,
    temporal_id: u8,
    mask: Seq<bool>,
    num: u64,
    rows: u64,
    n: u64,
) -> bool {
    xs.len() == n
        && forall|i: int| 0 <= i < xs.len()
        ==> du_item_can(#[trigger] xs[i], i as u64, width, temporal_id, mask, num, rows)
}

/// Parses `n` items, each a decoding unit.
fn parse_du_items(
    r: &mut BitReader<'_>,
    width: u32,
    temporal_id: u8,
    mask: &[bool; 8],
    num: u64,
    rows: u64,
    n: u64,
) -> (res: Result<Vec<DuItem>, BitstreamError>)
    requires
        width <= 32,
        temporal_id as u64 + num <= 8,
    ensures
        read_seq_is(
            du_items_at(old(r).bits(), old(r).pos(), width, temporal_id, mask@, num, rows, n),
            res,
            *old(r),
            *final(r),
        ),
        res matches Ok(v) ==> v@.len() == n,
{
    let ghost s = r.bits();
    let ghost p = r.pos();
    let ghost reads = du_items_item(s, width, temporal_id, mask@, num, rows);
    let mut xs: Vec<DuItem> = Vec::new();
    let mut i: u64 = 0;
    proof {
        reveal(du_items_at);
        assert(seq_view(xs@) =~= Seq::empty());
    }
    while i < n
        invariant
            i <= n,
            xs@.len() == i,
                width <= 32,
                temporal_id as u64 + num <= 8,
            reads == du_items_item(s, width, temporal_id, mask@, num, rows),
            s == r.bits(),
            s == old(r).bits(),
            p == old(r).pos(),
            r.bytes() == old(r).bytes(),
            rep_at(reads, p, i as nat) == Ok::<(Seq<DuItemModel>, nat), Fault>((seq_view(xs@), r.pos())),
        decreases n - i,
    {
        match parse_du_item(r, i, width, temporal_id, mask, num, rows) {
            Ok(x) => {
                proof {
                lemma_seq_view_push(xs@, x);
            }
            xs.push(x);
            },
            Err(e) => {
                proof {
                    reveal(du_items_at);
                    lemma_rep_err(reads, p, (i + 1) as nat, n as nat);
                }
                return Err(e);
            },
        }
        i = i + 1;
    }
    Ok(xs)
}

/// Emits `n` items, each a decoding unit.
fn write_du_items(
    w: &mut BitWriter,
    xs: &Vec<DuItem>,
    width: u32,
    temporal_id: u8,
    mask: &[bool; 8],
    num: u64,
    rows: u64,
    n: u64,
) -> (res: Result<(), BitstreamError>)
    requires
        width <= 32,
        temporal_id as u64 + num <= 8,
    ensures
        write_is(
            du_items_can(seq_view(xs@), width, temporal_id, mask@, num, rows, n),
            put_du_items(old(w)@, seq_view(xs@), width, temporal_id, mask@, num, rows, n),
            res,
            final(w)@,
        ),
        res is Ok ==> xs@.len() == n,
{
    let ghost before = w@;
    let ghost puts = put_du_items_item(width, temporal_id, mask@, num, rows);
    let ghost ys = seq_view(xs@);
    proof {
        reveal(put_du_items);
        reveal(du_items_can);
        assert(ys.take(0) =~= Seq::empty());
    }
    if xs.len() as u64 != n {
        return Err(BitstreamError::invalid("unexpected number of entries"));
    }
    let mut i: usize = 0;
    while i < xs.len()
        invariant
            i <= xs@.len(),
            xs@.len() == n,
            ys == seq_view(xs@),
            ys.len() == xs@.len(),
                width <= 32,
                temporal_id as u64 + num <= 8,
            before == old(w)@,
            puts == put_du_items_item(width, temporal_id, mask@, num, rows),
            w@ == put_rep(puts, before, ys.take(i as int)),
            forall|j: int| 0 <= j < i
                ==> du_item_can(#[trigger] ys[j], j as u64, width, temporal_id, mask@, num, rows),
        ensures
            i == xs@.len(),
        decreases xs@.len() - i,
    {
        proof {
            assert(ys.take(i + 1).drop_last() =~= ys.take(i as int));
            assert(ys[i as int] == xs@[i as int]@);
        }
        match write_du_item(w, &xs[i], i as u64, width, temporal_id, mask, num, rows) {
            Ok(()) => {},
            Err(e) => {
                proof {
                    reveal(du_items_can);
                }
                return Err(e);
            },
        }
        i = i + 1;
    }
    proof {
        assert(ys.take(i as int) =~= ys);
    }
    Ok(())
}

/// Writing what was read gives back the bits that were read.
pub broadcast proof fn law_put_du_items_at(
    s: Seq<bool>,
    p: nat,
    width: u32,
    temporal_id: u8,
    mask: Seq<bool>,
    num: u64,
    rows: u64,
    n: u64,
)
    requires
        width <= 32,
        temporal_id + num <= 8,
    ensures
        #[trigger] du_items_at(s, p, width, temporal_id, mask, num, rows, n) matches Ok((xs, q)) ==> {
            &&& xs.len() == n
            &&& du_items_ok(xs, width, temporal_id, mask, num, rows, n)
            &&& du_items_can(xs, width, temporal_id, mask, num, rows, n)
            &&& within(s, q)
                ==> within(s, p)
                && put_du_items(upto(s, p), xs, width, temporal_id, mask, num, rows, n) == upto(s, q)
        },
{
    broadcast use law_put_du_item_at;

    reveal(du_items_at);
    reveal(put_du_items);
    reveal(du_items_ok);
    reveal(du_items_can);
    let ok = du_items_item_ok(width, temporal_id, mask, num, rows);
    law_put_rep_at(
        s,
        du_items_item(s, width, temporal_id, mask, num, rows),
        put_du_items_item(width, temporal_id, mask, num, rows),
        ok,
        p,
        n as nat,
    );
    if let Ok((xs, q)) = du_items_at(s, p, width, temporal_id, mask, num, rows, n) {
        assert forall|i: int| 0 <= i < xs.len() implies ok(xs.take(i), #[trigger] xs[i]) by {}
    }
}

/// What was written reads back as the items that were written.
pub broadcast proof fn law_pre_put_du_items(
    a: Seq<bool>,
    xs: Seq<DuItemModel>,
    width: u32,
    temporal_id: u8,
    mask: Seq<bool>,
    num: u64,
    rows: u64,
    n: u64,
    s: Seq<bool>,
)
    requires
        #[trigger] pre(put_du_items(a, xs, width, temporal_id, mask, num, rows, n), s),
        du_items_ok(xs, width, temporal_id, mask, num, rows, n),
        width <= 32,
        temporal_id + num <= 8,
    ensures
        pre(a, s),
        du_items_can(xs, width, temporal_id, mask, num, rows, n),
        du_items_at(s, a.len(), width, temporal_id, mask, num, rows, n) == Ok::<(Seq<DuItemModel>, nat), Fault>(
            (xs, put_du_items(a, xs, width, temporal_id, mask, num, rows, n).len()),
        ),
{
    broadcast use law_pre_put_du_item;

    reveal(du_items_at);
    reveal(put_du_items);
    reveal(du_items_ok);
    reveal(du_items_can);
    law_rep_at_put(
        s,
        du_items_item(s, width, temporal_id, mask, num, rows),
        put_du_items_item(width, temporal_id, mask, num, rows),
        du_items_item_ok(width, temporal_id, mask, num, rows),
        a,
        xs,
    );
}

/// `n` items stand one behind the other: `n - 1` items, and then a decoding
/// unit.
pub proof fn law_layout_du_items(
    s: Seq<bool>,
    p: nat,
    width: u32,
    temporal_id: u8,
    mask: Seq<bool>,
    num: u64,
    rows: u64,
    n: u64,
    xs: Seq<DuItemModel>,
    q: nat,
)
    ensures
        du_items_at(s, p, width, temporal_id, mask, num, rows, n) == Ok::<(Seq<DuItemModel>, nat), Fault>((xs, q)) <==> if n == 0 {
            xs.len() == 0 && q == p
        } else {
            &&& xs.len() == n
            &&& cursor(s, p)
                .part(
                    |p: nat| du_items_at(s, p, width, temporal_id, mask, num, rows, (n - 1) as u64),
                    xs.drop_last(),
                )
                .part(
                    |p: nat| du_item_at(s, p, (n - 1) as u64, width, temporal_id, mask, num, rows),
                    xs.last(),
                )
                .ends(q)
        },
{
    reveal(du_items_at);
    lemma_rep_step(du_items_item(s, width, temporal_id, mask, num, rows), p, n as nat);
    if xs.len() == 0 {
        assert(xs =~= Seq::empty());
    } else {
        assert(xs =~= xs.drop_last().push(xs.last()));
    }
    if n > 0 {
        if let Ok((done, r)) = rep_at(du_items_item(s, width, temporal_id, mask, num, rows), p, (n - 1) as nat) {
            if let Ok((y, z)) = du_items_item(s, width, temporal_id, mask, num, rows)(done, r) {
                assert(done.push(y).drop_last() =~= done);
            }
        }
    }
}

/// What the writer accepts as `n` items reads back, where each of them is one that
/// reading can give.
pub proof fn law_reads_du_items(
    a: Seq<bool>,
    xs: Seq<DuItemModel>,
    width: u32,
    temporal_id: u8,
    mask: Seq<bool>,
    num: u64,
    rows: u64,
    n: u64,
    s: Seq<bool>,
)
    requires
        du_items_can(xs, width, temporal_id, mask, num, rows, n),
        forall|i: int| 0 <= i < xs.len()
            ==> du_item_ok(#[trigger] xs[i], i as u64, width, temporal_id, mask, num, rows),
        pre(put_du_items(a, xs, width, temporal_id, mask, num, rows, n), s),
        width <= 32,
        temporal_id + num <= 8,
    ensures
        xs.len() == n,
        du_items_at(s, a.len(), width, temporal_id, mask, num, rows, n) == Ok::<(Seq<DuItemModel>, nat), Fault>(
            (xs, put_du_items(a, xs, width, temporal_id, mask, num, rows, n).len()),
        ),
{
    reveal(du_items_can);
    assert(du_items_ok(xs, width, temporal_id, mask, num, rows, n)) by {
        reveal(du_items_ok);
    }
    law_pre_put_du_items(a, xs, width, temporal_id, mask, num, rows, n, s);
}

/// Reading the items fails only with an error of this class.
pub broadcast proof fn law_faults_du_items(
    s: Seq<bool>,
    p: nat,
    width: u32,
    temporal_id: u8,
    mask: Seq<bool>,
    num: u64,
    rows: u64,
    n: u64,
)
    ensures
        #[trigger] du_items_at(s, p, width, temporal_id, mask, num, rows, n) matches Err(f)
            ==> f == Fault::Invalid,
{
    broadcast use law_faults_du_item;

    reveal(du_items_at);
    let f = du_items_item(s, width, temporal_id, mask, num, rows);
    assert forall|done: Seq<DuItemModel>, q: nat| (#[trigger] f(done, q)) matches Err(e)
        ==> e == Fault::Invalid by {}
    lemma_rep_faults(f, p, n as nat, |f: Fault| f == Fault::Invalid);
}

/// The NAL unit counts, and the rows of the first `rows` units.
pub open spec fn units_of(b: Seq<DuItemModel>, rows: u64) -> (Seq<u32>, Seq<Seq<u32>>) {
    (Seq::new(b.len(), |i: int| b[i].nalus), Seq::new(rows as nat, |i: int| b[i].row))
}

/// `n` decoding units of which the first `rows` have their rows.
pub open spec fn coded_units(x: (Seq<u32>, Seq<Seq<u32>>), rows: u64, n: u64) -> Seq<DuItemModel> {
    Seq::new(
        n as nat,
        |i: int|
            DuItemModel {
                nalus: x.0[i],
                row: if i < rows {
                    x.1[i]
                } else {
                    Seq::new(8, |j: int| 0u32)
                },
            },
    )
}

/// `n` counts; `rows` rows of eight, which a single unit does without.
pub open spec fn units_fit(x: (Seq<u32>, Seq<Seq<u32>>), rows: u64, n: u64) -> bool {
    &&& x.0.len() == n
    &&& n > 1 ==> x.1.len() == rows
    &&& forall|i: int| 0 <= i < rows ==> (#[trigger] x.1[i]).len() == 8
}

proof fn lemma_du_table(
    b: Seq<DuItemModel>,
    width: u32,
    first: u8,
    mask: Seq<bool>,
    num: u64,
    rows: u64,
    n: u64,
)
    requires
        rows <= n,
        first + num <= 8,
        du_items_ok(b, width, first, mask, num, rows, n),
    ensures
        coded_units(units_of(b, rows), rows, n) == b,
        units_fit(units_of(b, rows), rows, n),
{
    reveal(du_items_ok);
    reveal(du_item_ok);
    reveal(masked_row_ok);
    let c = coded_units(units_of(b, rows), rows, n);
    assert forall|i: int| 0 <= i < n implies #[trigger] c[i] == b[i] by {
        assert(du_item_ok(b[i], i as u64, width, first, mask, num, rows));
        if i >= rows {
            assert(c[i].row =~= b[i].row);
        }
    }
    assert(c =~= b);
}

/// `n` decoding units at position `p`, the first `rows` with increments.
#[verifier::opaque]
pub open spec fn du_table_at(
    s: Seq<bool>,
    p: nat,
    width: u32,
    temporal_id: u8,
    mask: Seq<bool>,
    num: u64,
    rows: u64,
    n: u64,
) -> Read<(Seq<u32>, Seq<Seq<u32>>)> {
    match du_items_at(s, p, width, temporal_id, mask, num, rows, n) {
        Err(f) => Err(f),
        Ok((b, p)) => Ok((units_of(b, rows), p)),
    }
}

/// Writes the values.
#[verifier::opaque]
pub open spec fn put_du_table(
    a: Seq<bool>,
    x: (Seq<u32>, Seq<Seq<u32>>),
    width: u32,
    temporal_id: u8,
    mask: Seq<bool>,
    num: u64,
    rows: u64,
    n: u64,
) -> Seq<bool> {
    put_du_items(a, coded_units(x, rows, n), width, temporal_id, mask, num, rows, n)
}

/// Values that reading can give.
#[verifier::opaque]
pub open spec fn du_table_ok(
    x: (Seq<u32>, Seq<Seq<u32>>),
    width: u32,
    temporal_id: u8,
    mask: Seq<bool>,
    num: u64,
    rows: u64,
    n: u64,
) -> bool {
    let b = coded_units(x, rows, n);
    units_fit(x, rows, n) && du_items_ok(b, width, temporal_id, mask, num, rows, n) && x == units_of(b, rows)
}

/// Values that the writer accepts.
#[verifier::opaque]
pub open spec fn du_table_can(
    x: (Seq<u32>, Seq<Seq<u32>>),
    width: u32,
    temporal_id: u8,
    mask: Seq<bool>,
    num: u64,
    rows: u64,
    n: u64,
) -> bool {
    units_fit(x, rows, n) && du_items_can(coded_units(x, rows, n), width, temporal_id, mask, num, rows, n)
}

/// Writing what was read gives back the bits that were read.
pub broadcast proof fn law_put_du_table_at(
    s: Seq<bool>,
    p: nat,
    width: u32,
    temporal_id: u8,
    mask: Seq<bool>,
    num: u64,
    rows: u64,
    n: u64,
)
    requires
        rows <= n,
        width <= 32,
        temporal_id + num <= 8,
    ensures
        #[trigger] du_table_at(s, p, width, temporal_id, mask, num, rows, n) matches Ok((x, q)) ==> {
            &&& du_table_ok(x, width, temporal_id, mask, num, rows, n)
            &&& du_table_can(x, width, temporal_id, mask, num, rows, n)
            &&& within(s, q)
                ==> within(s, p)
                && put_du_table(upto(s, p), x, width, temporal_id, mask, num, rows, n) == upto(s, q)
        },
{
    broadcast use law_put_du_items_at;

    reveal(du_table_at);
    reveal(put_du_table);
    reveal(du_table_ok);
    reveal(du_table_can);
    if let Ok((b, q)) = du_items_at(s, p, width, temporal_id, mask, num, rows, n) {
        lemma_du_table(b, width, temporal_id, mask, num, rows, n);
    }
}

/// What was written reads back as the values that were written.
pub broadcast proof fn law_pre_put_du_table(
    a: Seq<bool>,
    x: (Seq<u32>, Seq<Seq<u32>>),
    width: u32,
    temporal_id: u8,
    mask: Seq<bool>,
    num: u64,
    rows: u64,
    n: u64,
    s: Seq<bool>,
)
    requires
        #[trigger] pre(put_du_table(a, x, width, temporal_id, mask, num, rows, n), s),
        du_table_ok(x, width, temporal_id, mask, num, rows, n),
        rows <= n,
        width <= 32,
        temporal_id + num <= 8,
    ensures
        pre(a, s),
        du_table_can(x, width, temporal_id, mask, num, rows, n),
        du_table_at(s, a.len(), width, temporal_id, mask, num, rows, n) == Ok::<((Seq<u32>, Seq<Seq<u32>>), nat), Fault>(
            (x, put_du_table(a, x, width, temporal_id, mask, num, rows, n).len()),
        ),
{
    broadcast use law_pre_put_du_items;

    reveal(du_table_at);
    reveal(put_du_table);
    reveal(du_table_ok);
    reveal(du_table_can);
}

/// What the writer accepts reads back, where the coded values are ones that reading can
/// give and the others are those that stand for what is not coded.
pub proof fn law_reads_du_table(
    a: Seq<bool>,
    x: (Seq<u32>, Seq<Seq<u32>>),
    width: u32,
    temporal_id: u8,
    mask: Seq<bool>,
    num: u64,
    rows: u64,
    n: u64,
    s: Seq<bool>,
)
    requires
        du_table_can(x, width, temporal_id, mask, num, rows, n),
        ({
            let b = coded_units(x, rows, n);
            du_items_ok(b, width, temporal_id, mask, num, rows, n) && x == units_of(b, rows)
        }),
        pre(put_du_table(a, x, width, temporal_id, mask, num, rows, n), s),
        rows <= n,
        width <= 32,
        temporal_id + num <= 8,
    ensures
        du_table_at(s, a.len(), width, temporal_id, mask, num, rows, n) == Ok::<((Seq<u32>, Seq<Seq<u32>>), nat), Fault>(
            (x, put_du_table(a, x, width, temporal_id, mask, num, rows, n).len()),
        ),
{
    assert(du_table_ok(x, width, temporal_id, mask, num, rows, n)) by {
        reveal(du_table_ok);
        reveal(du_table_can);
    }
    law_pre_put_du_table(a, x, width, temporal_id, mask, num, rows, n, s);
}

/// Reading them fails only with an error of this class.
pub broadcast proof fn law_faults_du_table(
    s: Seq<bool>,
    p: nat,
    width: u32,
    temporal_id: u8,
    mask: Seq<bool>,
    num: u64,
    rows: u64,
    n: u64,
)
    ensures
        #[trigger] du_table_at(s, p, width, temporal_id, mask, num, rows, n) matches Err(f)
            ==> f == Fault::Invalid,
{
    broadcast use law_faults_du_items;

    reveal(du_table_at);
}

fn parse_du_table(
    r: &mut BitReader<'_>,
    width: u32,
    first: u8,
    mask: &[bool; 8],
    num: u64,
    rows: u64,
    n: u64,
) -> (res: Result<(Vec<u32>, Vec<[u32; 8]>), BitstreamError>)
    requires
        width <= 32,
        first + num <= 8,
        rows <= n,
    ensures
        final(r).bits() == old(r).bits(),
        final(r).bytes() == old(r).bytes(),
        match du_table_at(old(r).bits(), old(r).pos(), width, first, mask@, num, rows, n) {
            Ok((x, p)) => {
                &&& res matches Ok(v)
                &&& v.0@ == x.0
                &&& seq_view(v.1@) == x.1
                &&& final(r).pos() == p
            },
            Err(f) => res matches Err(e) && e.fault() == f,
        },
{
    proof {
        reveal(du_table_at);
    }
    let v = parse_du_items(r, width, first, mask, num, rows, n)?;
    let ghost b = seq_view(v@);
    let mut nalus: Vec<u32> = Vec::new();
    let mut table: Vec<[u32; 8]> = Vec::new();
    let mut i: usize = 0;
    while i < v.len()
        invariant
            i <= v@.len(),
            v@.len() == n,
            b == seq_view(v@),
            nalus@.len() == i,
            table@.len() == (if i <= rows {
                i as int
            } else {
                rows as int
            }),
            forall|k: int| 0 <= k < i ==> #[trigger] nalus@[k] == b[k].nalus,
            forall|k: int| 0 <= k < table@.len() ==> (#[trigger] table@[k])@ == b[k].row,
        decreases v@.len() - i,
    {
        assert(b[i as int] == v@[i as int]@);
        nalus.push(v[i].nalus);
        if (i as u64) < rows {
            table.push(v[i].row);
        }
        i = i + 1;
    }
    proof {
        assert(nalus@ =~= units_of(b, rows).0);
        assert(seq_view(table@) =~= units_of(b, rows).1);
    }
    Ok((nalus, table))
}

fn write_du_table(
    w: &mut BitWriter,
    x: &VvcPtDuInfo,
    width: u32,
    first: u8,
    mask: &[bool; 8],
    num: u64,
    rows: u64,
    n: u64,
) -> (res: Result<(), BitstreamError>)
    requires
        width <= 32,
        first + num <= 8,
        rows <= n,
        n == 1 ==> rows == 0,
    ensures
        write_is(
            du_table_can(x@.items, width, first, mask@, num, rows, n),
            put_du_table(old(w)@, x@.items, width, first, mask@, num, rows, n),
            res,
            final(w)@,
        ),
{
    let ghost m = x@.items;
    proof {
        reveal(du_table_can);
        reveal(put_du_table);
    }
    if x.num_nalus_in_du_minus1.len() as u64 != n || (n > 1 && x.du_increment_minus1.len() as u64 != rows) {
        return Err(
            BitstreamError::invalid(
                "pic_timing per-DU increment rows must cover every DU but the last (when the common flag is off)",
            ),
        );
    }
    let mut v: Vec<DuItem> = Vec::new();
    let mut i: usize = 0;
    while i < x.num_nalus_in_du_minus1.len()
        invariant
            i <= x.num_nalus_in_du_minus1@.len(),
            x.num_nalus_in_du_minus1@.len() == n,
            rows == 0 || x.du_increment_minus1@.len() == rows,
            m == x@.items,
            v@.len() == i,
            forall|k: int| 0 <= k < i ==> (#[trigger] v@[k])@ == coded_units(m, rows, n)[k],
        decreases x.num_nalus_in_du_minus1@.len() - i,
    {
        let mut row: [u32; 8] = [0; 8];
        if (i as u64) < rows {
            row = x.du_increment_minus1[i];
        }
        proof {
            assert(row@ =~= coded_units(m, rows, n)[i as int].row);
        }
        v.push(DuItem { nalus: x.num_nalus_in_du_minus1[i], row });
        i = i + 1;
    }
    proof {
        assert(seq_view(v@) =~= coded_units(m, rows, n));
        assert forall|k: int| 0 <= k < rows implies (#[trigger] m.1[k]).len() == 8 by {
            assert(m.1[k] == x.du_increment_minus1@[k]@);
        }
    }
    write_du_items(w, &v, width, first, mask, num, rows, n)
}

proof fn lemma_du_table_grows(
    a: Seq<bool>,
    x: (Seq<u32>, Seq<Seq<u32>>),
    width: u32,
    first: u8,
    mask: Seq<bool>,
    num: u64,
    rows: u64,
    n: u64,
)
    ensures
        put_du_table(a, x, width, first, mask, num, rows, n).len() >= a.len() + n,
{
    reveal(put_du_table);
    reveal(put_du_items);
    let puts = put_du_items_item(width, first, mask, num, rows);
    assert forall|b: Seq<bool>, d: Seq<DuItemModel>, y: DuItemModel| (#[trigger] puts(b, d, y)).len() >= b.len() + 1 by {
        reveal(put_du_item);
        let k = d.len() as u64;
        lemma_put_ue_grows(b, y.nalus as nat);
        lemma_masked_row_grows(
            put_ue(b, y.nalus as nat),
            y.row,
            width,
            first,
            mask,
            if k < rows {
                num
            } else {
                0u64
            },
        );
    }
    lemma_put_rep_grows(puts, a, coded_units(x, rows, n), 1);
}

/// The mathematical model of a [`VvcPtDuInfo`].
pub struct VvcPtDuInfoModel {
    pub pt_du_common_cpb_removal_delay_flag: bool,
    pub common_increment_minus1: Seq<u32>,
    pub items: (Seq<u32>, Seq<Seq<u32>>),
}

impl View for VvcPtDuInfo {
    type V = VvcPtDuInfoModel;

    open spec fn view(&self) -> VvcPtDuInfoModel {
        VvcPtDuInfoModel {
            pt_du_common_cpb_removal_delay_flag: self.pt_du_common_cpb_removal_delay_flag,
            common_increment_minus1: self.common_increment_minus1@,
            items: (self.num_nalus_in_du_minus1@, seq_view(self.du_increment_minus1@)),
        }
    }
}

/// The decoding unit block of `pic_timing()` at position `p`.
#[verifier::opaque]
pub open spec fn pt_du_at(
    s: Seq<bool>,
    p: nat,
    width: u32,
    temporal_id: u8,
    last: u8,
    mask: Seq<bool>,
) -> Read<VvcPtDuInfoModel> {
    match ue_at(s, p) { Err(f) => Err(f), Ok((num, p)) => {
    if num as int > bits_left(s, p) { Err(Fault::End) } else {
    let pt_du_common_cpb_removal_delay_flag = flag_if(s, p, num > 0, false);
    let p = adv_if(p, 1, num > 0);
    let span = (last - temporal_id + 1) as u64;
    let common = num > 0 && pt_du_common_cpb_removal_delay_flag;
    match masked_row_at(s, p, width, temporal_id, mask, (if common { span } else { 0u64 }))
    { Err(f) => Err(f), Ok((common_increment_minus1, p)) => {
    let rows = if num > 0 && !common { num as u64 } else { 0u64 };
    match du_table_at(s, p, width, temporal_id, mask, span, rows, (num as u64 + 1) as u64)
    { Err(f) => Err(f), Ok((items, p)) => {
    Ok((VvcPtDuInfoModel { pt_du_common_cpb_removal_delay_flag, common_increment_minus1, items }, p))
    }}}}}}}
}

/// The bits `a` followed by the decoding unit block of `pic_timing()`.
#[verifier::opaque]
pub open spec fn put_pt_du(
    a: Seq<bool>,
    x: VvcPtDuInfoModel,
    width: u32,
    temporal_id: u8,
    last: u8,
    mask: Seq<bool>,
) -> Seq<bool> {
    let num = (x.items.0.len() - 1) as u32;
    let a = put_ue(a, num as nat);
    let a = put_flag_if(a, x.pt_du_common_cpb_removal_delay_flag, num > 0);
    let span = (last - temporal_id + 1) as u64;
    let common = num > 0 && x.pt_du_common_cpb_removal_delay_flag;
    let a = put_masked_row(
        a,
        x.common_increment_minus1,
        width,
        temporal_id,
        mask,
        (if common { span } else { 0u64 }),
    );
    let rows = if num > 0 && !common { num as u64 } else { 0u64 };
    let a = put_du_table(a, x.items, width, temporal_id, mask, span, rows, (num as u64 + 1) as u64);
    a
}

/// The values of the decoding unit block of `pic_timing()` that reading can
/// give.
#[verifier::opaque]
pub open spec fn pt_du_ok(
    x: VvcPtDuInfoModel,
    width: u32,
    temporal_id: u8,
    last: u8,
    mask: Seq<bool>,
) -> bool {
    &&& 1 <= x.items.0.len() && x.items.0.len() <= 0xffff_ffff
    &&& {
        let num = (x.items.0.len() - 1) as u32;
        &&& ue_fits(num as nat)
        &&& num > 0 || !x.pt_du_common_cpb_removal_delay_flag
        &&& {
            let span = (last - temporal_id + 1) as u64;
            let common = num > 0 && x.pt_du_common_cpb_removal_delay_flag;
            &&& masked_row_ok(
                x.common_increment_minus1,
                width,
                temporal_id,
                mask,
                (if common { span } else { 0u64 }),
            )
            &&& {
                let rows = if num > 0 && !common { num as u64 } else { 0u64 };
                &&& du_table_ok(x.items, width, temporal_id, mask, span, rows, (num as u64 + 1) as u64)
            }
        }
    }
}

/// The values of the decoding unit block of `pic_timing()` that the writer
/// accepts.
#[verifier::opaque]
pub open spec fn pt_du_can(
    x: VvcPtDuInfoModel,
    width: u32,
    temporal_id: u8,
    last: u8,
    mask: Seq<bool>,
) -> bool {
    &&& 1 <= x.items.0.len() && x.items.0.len() <= 0xffff_ffff
    &&& {
        let num = (x.items.0.len() - 1) as u32;
        &&& ue_fits(num as nat)
        &&& {
            let span = (last - temporal_id + 1) as u64;
            let common = num > 0 && x.pt_du_common_cpb_removal_delay_flag;
            &&& masked_row_can(
                x.common_increment_minus1,
                width,
                temporal_id,
                mask,
                (if common { span } else { 0u64 }),
            )
            &&& {
                let rows = if num > 0 && !common { num as u64 } else { 0u64 };
                &&& du_table_can(x.items, width, temporal_id, mask, span, rows, (num as u64 + 1) as u64)
            }
        }
    }
}

/// Parses the decoding unit block of `pic_timing()`.
fn parse_pt_du(
    r: &mut BitReader<'_>,
    width: u32,
    temporal_id: u8,
    last: u8,
    mask: &[bool; 8],
) -> (res: Result<VvcPtDuInfo, BitstreamError>)
    requires
        width <= 32,
        temporal_id <= last <= 7,
    ensures
        read_view_is(
            pt_du_at(old(r).bits(), old(r).pos(), width, temporal_id, last, mask@),
            res,
            *old(r),
            *final(r),
        ),
{
    proof {
        reveal(pt_du_at);
    }
    let num: u32 = r.ue()?;
    if num as u128 > r.bits_remaining() {
        return Err(BitstreamError::unexpected_end("pt_num_decoding_units_minus1 exceeds remaining payload"));
    }
    let pt_du_common_cpb_removal_delay_flag: bool = r.flag_if(num > 0, false);
    let span: u64 = (last - temporal_id + 1) as u64;
    let common: bool = num > 0 && pt_du_common_cpb_removal_delay_flag;
    let common_increment_minus1 = parse_masked_row(
        r,
        width,
        temporal_id,
        mask,
        (if common { span } else { 0u64 }),
    )?;
    let rows: u64 = if num > 0 && !common { num as u64 } else { 0u64 };
    let items = parse_du_table(r, width, temporal_id, mask, span, rows, num as u64 + 1)?;
    Ok(VvcPtDuInfo {
        pt_du_common_cpb_removal_delay_flag,
        common_increment_minus1,
        num_nalus_in_du_minus1: items.0,
        du_increment_minus1: items.1,
    })
}

/// Emits the decoding unit block of `pic_timing()`, the inverse of [`parse_pt_du`].
fn write_pt_du(
    w: &mut BitWriter,
    x: &VvcPtDuInfo,
    width: u32,
    temporal_id: u8,
    last: u8,
    mask: &[bool; 8],
) -> (res: Result<(), BitstreamError>)
    requires
        width <= 32,
        temporal_id <= last <= 7,
    ensures
        write_is(
            pt_du_can(x@, width, temporal_id, last, mask@),
            put_pt_du(old(w)@, x@, width, temporal_id, last, mask@),
            res,
            final(w)@,
        ),
{
    proof {
        reveal(put_pt_du);
        reveal(pt_du_can);
    }
    if !(x.num_nalus_in_du_minus1.len() >= 1 && x.num_nalus_in_du_minus1.len() <= 0xffff_ffff) {
        return Err(BitstreamError::invalid("pic_timing DU block needs at least one decoding unit"));
    }
    let num: u32 = (x.num_nalus_in_du_minus1.len() - 1) as u32;
    w.write_ue(num)?;
    w.write_flag_if(x.pt_du_common_cpb_removal_delay_flag, num > 0);
    let span: u64 = (last - temporal_id + 1) as u64;
    let common: bool = num > 0 && x.pt_du_common_cpb_removal_delay_flag;
    write_masked_row(
        w,
        &x.common_increment_minus1,
        width,
        temporal_id,
        mask,
        (if common { span } else { 0u64 }),
        "pt_du_common_cpb_removal_delay_increment_minus1",
    )?;
    let rows: u64 = if num > 0 && !common { num as u64 } else { 0u64 };
    write_du_table(w, &(*x), width, temporal_id, mask, span, rows, num as u64 + 1)?;
    Ok(())
}

/// Writing the decoding unit block of `pic_timing()` gives back the bits it was
/// read from.
pub broadcast proof fn law_put_pt_du_at(
    s: Seq<bool>,
    p: nat,
    width: u32,
    temporal_id: u8,
    last: u8,
    mask: Seq<bool>,
)
    requires
        width <= 32,
        temporal_id <= last <= 7,
    ensures
        #[trigger] pt_du_at(s, p, width, temporal_id, last, mask) matches Ok((x, q)) ==> {
            &&& pt_du_ok(x, width, temporal_id, last, mask)
            &&& pt_du_can(x, width, temporal_id, last, mask)
            &&& within(s, q)
                ==> within(s, p)
                && put_pt_du(upto(s, p), x, width, temporal_id, last, mask) == upto(s, q)
        },
{
    broadcast use {crate::bits::group_write_read, law_put_masked_row_at, law_put_du_table_at};

    reveal(pt_du_at);
    reveal(put_pt_du);
    reveal(pt_du_ok);
    reveal(pt_du_can);
    if let Ok((num, q)) = ue_at(s, p) {
        reveal(du_table_ok);
        reveal(du_items_ok);
    }
}

/// Reading gives back the decoding unit block of `pic_timing()` as it was
/// written.
pub broadcast proof fn law_pre_put_pt_du(
    a: Seq<bool>,
    x: VvcPtDuInfoModel,
    width: u32,
    temporal_id: u8,
    last: u8,
    mask: Seq<bool>,
    s: Seq<bool>,
)
    requires
        #[trigger] pre(put_pt_du(a, x, width, temporal_id, last, mask), s),
        pt_du_ok(x, width, temporal_id, last, mask),
        width <= 32,
        temporal_id <= last <= 7,
    ensures
        pre(a, s),
        pt_du_can(x, width, temporal_id, last, mask),
        pt_du_at(s, a.len(), width, temporal_id, last, mask) == Ok::<(VvcPtDuInfoModel, nat), Fault>(
            (x, put_pt_du(a, x, width, temporal_id, last, mask).len()),
        ),
{
    broadcast use {crate::bits::group_read_written, law_pre_put_masked_row, law_pre_put_du_table};

    reveal(pt_du_at);
    reveal(put_pt_du);
    reveal(pt_du_ok);
    reveal(pt_du_can);
    let num = (x.items.0.len() - 1) as u32;
    let common = num > 0 && x.pt_du_common_cpb_removal_delay_flag;
    let span = (last - temporal_id + 1) as u64;
    let rows = if num > 0 && !common { num as u64 } else { 0u64 };
    let a1 = put_ue(a, num as nat);
    let a2 = put_flag_if(a1, x.pt_du_common_cpb_removal_delay_flag, num > 0);
    let a3 = put_masked_row(
        a2,
        x.common_increment_minus1,
        width,
        temporal_id,
        mask,
        if common { span } else { 0u64 },
    );
    lemma_put_flag_if_grows(a1, x.pt_du_common_cpb_removal_delay_flag, num > 0);
    lemma_masked_row_grows(
        a2,
        x.common_increment_minus1,
        width,
        temporal_id,
        mask,
        if common { span } else { 0u64 },
    );
    lemma_du_table_grows(a3, x.items, width, temporal_id, mask, span, rows, (num as u64 + 1) as u64);
    assert(bits_left(s, a1.len()) >= num) by {
        reveal(pre);
    }
}

/// The layout of the decoding unit block of `pic_timing()`: reading at `p`
/// gives `x` and ends at `q` if and only if these elements stand there in this
/// order.
pub proof fn law_layout_pt_du(
    s: Seq<bool>,
    p: nat,
    width: u32,
    temporal_id: u8,
    last: u8,
    mask: Seq<bool>,
    x: VvcPtDuInfoModel,
    q: nat,
)
    ensures
        pt_du_at(s, p, width, temporal_id, last, mask) == Ok::<(VvcPtDuInfoModel, nat), Fault>((x, q)) <==> ({
            let c = cursor(s, p);
            let num = c.next_ue();
            let span = (last - temporal_id + 1) as u64;
            let common = num > 0 && x.pt_du_common_cpb_removal_delay_flag;
            let rows = if num > 0 && !common { num as u64 } else { 0u64 };
            &&& c
                .ue(num)
                .room(num as int)
                .flag_if(num > 0, x.pt_du_common_cpb_removal_delay_flag, false)
                .part(
                    |p: nat| masked_row_at(
                        s,
                        p,
                        width,
                        temporal_id,
                        mask,
                        (if common { span } else { 0u64 }),
                    ),
                    x.common_increment_minus1,
                )
                .part(
                    |p: nat| du_table_at(s, p, width, temporal_id, mask, span, rows, (num as u64 + 1) as u64),
                    x.items,
                )
                .ends(q)
        }),
{
    reveal(pt_du_at);
    reveal(adv_if);
    reveal(flag_if);
}

/// What reads as the decoding unit block of `pic_timing()` up to this point,
/// and meets the last condition, is refused as too short.
pub proof fn law_refused_pt_du(
    s: Seq<bool>,
    p: nat,
    width: u32,
    temporal_id: u8,
    last: u8,
    mask: Seq<bool>,
    x: VvcPtDuInfoModel,
)
    ensures
        ({
            let c = cursor(s, p);
            let num = c.next_ue();
            let c = c.ue(num);
            &&& c.good
            &&& num as int > bits_left(s, c.pos)
        }) ==> pt_du_at(s, p, width, temporal_id, last, mask) == Err::<(VvcPtDuInfoModel, nat), Fault>(Fault::End),
{
    reveal(pt_du_at);
}

/// Reading the decoding unit block of `pic_timing()` never fails with an error
/// of this class.
pub broadcast proof fn law_faults_pt_du(
    s: Seq<bool>,
    p: nat,
    width: u32,
    temporal_id: u8,
    last: u8,
    mask: Seq<bool>,
)
    ensures
        #[trigger] pt_du_at(s, p, width, temporal_id, last, mask) matches Err(f) ==> f != Fault::Unsupported,
{
    broadcast use {crate::bits::law_faults_ue, law_faults_masked_row, law_faults_du_table};

    reveal(pt_du_at);
}

/// What the writer accepts reads back: the decoding unit block of
/// `pic_timing()`, where each field fits its width and what is not coded has
/// the value that is taken for it.
pub proof fn law_reads_pt_du(
    a: Seq<bool>,
    x: VvcPtDuInfoModel,
    width: u32,
    temporal_id: u8,
    last: u8,
    mask: Seq<bool>,
    s: Seq<bool>,
)
    requires
        pt_du_can(x, width, temporal_id, last, mask),
        ({
            let num = (x.items.0.len() - 1) as u32;
            &&& (!(num > 0) ==> x.pt_du_common_cpb_removal_delay_flag == false)
            &&& {
                let span = (last - temporal_id + 1) as u64;
                let common = num > 0 && x.pt_du_common_cpb_removal_delay_flag;
                &&& masked_row_ok(
                    x.common_increment_minus1,
                    width,
                    temporal_id,
                    mask,
                    (if common { span } else { 0u64 }),
                )
                &&& {
                    let rows = if num > 0 && !common { num as u64 } else { 0u64 };
                    &&& du_table_ok(x.items, width, temporal_id, mask, span, rows, (num as u64 + 1) as u64)
                }
            }
        }),
        pre(put_pt_du(a, x, width, temporal_id, last, mask), s),
        width <= 32,
        temporal_id <= last <= 7,
    ensures
        pt_du_at(s, a.len(), width, temporal_id, last, mask) == Ok::<(VvcPtDuInfoModel, nat), Fault>(
            (x, put_pt_du(a, x, width, temporal_id, last, mask).len()),
        ),
{
    assert(pt_du_ok(x, width, temporal_id, last, mask)) by {
        broadcast use crate::bits::law_fits_small;

        reveal(pt_du_ok);
        reveal(pt_du_can);
    }
    law_pre_put_pt_du(a, x, width, temporal_id, last, mask, s);
}

/// Each field of the model of a [`VvcPtDuInfo`] is the field of that name.
pub proof fn law_view_pt_du(x: VvcPtDuInfo)
    ensures
        x@.pt_du_common_cpb_removal_delay_flag == x.pt_du_common_cpb_removal_delay_flag,
        x@.common_increment_minus1 == x.common_increment_minus1@,
        x@.items == (x.num_nalus_in_du_minus1@, seq_view(x.du_increment_minus1@)),
{
}

/// The mathematical model of a [`VvcPicTiming`].
pub struct VvcPicTimingModel {
    pub tables: (Seq<u32>, Seq<bool>, Seq<bool>, Seq<u32>),
    pub pt_dpb_output_delay: u32,
    pub pt_cpb_alt_timing_info_present_flag: bool,
    pub nal_alt: Seq<Option<VvcPtAltCpbModel>>,
    pub vcl_alt: Seq<Option<VvcPtAltCpbModel>>,
    pub pt_dpb_output_du_delay: u32,
    pub du: Option<VvcPtDuInfoModel>,
    pub pt_delay_for_concatenation_ensured_flag: bool,
    pub pt_display_elemental_periods_minus1: u8,
}

impl View for VvcPicTiming {
    type V = VvcPicTimingModel;

    open spec fn view(&self) -> VvcPicTimingModel {
        VvcPicTimingModel {
            tables: (
                self.pt_cpb_removal_delay_minus1@,
                self.pt_sublayer_delays_present_flag@,
                self.pt_cpb_removal_delay_delta_enabled_flag@,
                self.pt_cpb_removal_delay_delta_idx@,
            ),
            pt_dpb_output_delay: self.pt_dpb_output_delay,
            pt_cpb_alt_timing_info_present_flag: self.pt_cpb_alt_timing_info_present_flag,
            nal_alt: alts_view(self.nal_alt@),
            vcl_alt: alts_view(self.vcl_alt@),
            pt_dpb_output_du_delay: self.pt_dpb_output_du_delay,
            du: opt_view(self.du),
            pt_delay_for_concatenation_ensured_flag: self.pt_delay_for_concatenation_ensured_flag,
            pt_display_elemental_periods_minus1: self.pt_display_elemental_periods_minus1,
        }
    }
}

/// `pic_timing()` (§D.4.1) at position `p`.
#[verifier::opaque]
pub open spec fn pt_at(
    s: Seq<bool>,
    p: nat,
    bp: VvcBufferingPeriodModel,
    temporal_id: u8,
) -> Read<VvcPicTimingModel> {
    if temporal_id > bp.bp_max_sublayers_minus1 { Err(Fault::Invalid) } else {
    let last = bp.bp_max_sublayers_minus1;
    let removal_len = (bp.bp_cpb_removal_delay_length_minus1 as u32 + 1) as u32;
    let output_len = (bp.bp_dpb_output_delay_length_minus1 as u32 + 1) as u32;
    let count = bp.bp_cpb_removal_delay_delta_vals.len() as u64;
    let idx_len = ceil_log2(count as nat) as u32;
    if !(last <= 7 && removal_len <= 32 && output_len <= 32 && idx_len <= 32) { Err(Fault::Invalid) } else {
    match pt_tables_at(
        s,
        p,
        bp.bp_cpb_removal_delay_deltas_present_flag,
        idx_len,
        count,
        removal_len,
        temporal_id,
        last,
    )
    { Err(f) => Err(f), Ok((tables, p)) => {
    let pt_dpb_output_delay = u32_at(s, p, output_len as nat);
    let p = adv(p, output_len as nat);
    let pt_cpb_alt_timing_info_present_flag = flag_if(s, p, bp.bp_alt_cpb_params_present_flag, false);
    let p = adv_if(p, 1, bp.bp_alt_cpb_params_present_flag);
    let with_alt = pt_cpb_alt_timing_info_present_flag && (
        bp.bp_nal_hrd_params_present_flag || bp.bp_vcl_hrd_params_present_flag
    );
    let initial_len = if with_alt {
        (bp.bp_cpb_initial_removal_delay_length_minus1 as u32 + 1) as u32
    } else {
        0
    };
    if initial_len > 32 { Err(Fault::Invalid) } else {
    let first = if bp.bp_sublayer_initial_cpb_removal_delay_present_flag { 0 } else { last };
    let span = (last - first + 1) as u64;
    let cnt = (bp.bp_cpb_cnt_minus1 as u64 + 1) as u64;
    match alt_table_at(
        s,
        p,
        initial_len,
        removal_len,
        output_len,
        cnt,
        first,
        (if pt_cpb_alt_timing_info_present_flag && bp.bp_nal_hrd_params_present_flag { span } else { 0u64 }),
    )
    { Err(f) => Err(f), Ok((nal_alt, p)) => {
    match alt_table_at(
        s,
        p,
        initial_len,
        removal_len,
        output_len,
        cnt,
        first,
        (if pt_cpb_alt_timing_info_present_flag && bp.bp_vcl_hrd_params_present_flag { span } else { 0u64 }),
    )
    { Err(f) => Err(f), Ok((vcl_alt, p)) => {
    let du_out = bp.bp_du_hrd_params_present_flag && bp.bp_du_dpb_params_in_pic_timing_sei_flag;
    let du_out_len = if du_out { (bp.bp_dpb_output_delay_du_length_minus1 as u32 + 1) as u32 } else { 0 };
    if du_out_len > 32 { Err(Fault::Invalid) } else {
    let pt_dpb_output_du_delay = u32_if(s, p, du_out_len as nat, du_out, 0);
    let p = adv_if(p, du_out_len as nat, du_out);
    let with_du = bp.bp_du_hrd_params_present_flag && bp.bp_du_cpb_params_in_pic_timing_sei_flag;
    let du_len = if with_du {
        (bp.bp_du_cpb_removal_delay_increment_length_minus1 as u32 + 1) as u32
    } else {
        0
    };
    if du_len > 32 { Err(Fault::Invalid) } else {
    match (if with_du {
        read_some(pt_du_at(s, p, du_len, temporal_id, last, tables.1))
    } else {
        Ok((None, p))
    })
    { Err(f) => Err(f), Ok((du, p)) => {
    let pt_delay_for_concatenation_ensured_flag = flag_if(
        s,
        p,
        bp.bp_additional_concatenation_info_present_flag,
        false,
    );
    let p = adv_if(p, 1, bp.bp_additional_concatenation_info_present_flag);
    let pt_display_elemental_periods_minus1 = u8_at(s, p, 8);
    let p = adv(p, 8);
    Ok((
        VvcPicTimingModel {
            tables,
            pt_dpb_output_delay,
            pt_cpb_alt_timing_info_present_flag,
            nal_alt,
            vcl_alt,
            pt_dpb_output_du_delay,
            du,
            pt_delay_for_concatenation_ensured_flag,
            pt_display_elemental_periods_minus1,
        },
        p,
    ))
    }}}}}}}}}}}}}
}

/// The bits `a` followed by `pic_timing()` (§D.4.1).
#[verifier::opaque]
pub open spec fn put_pt(
    a: Seq<bool>,
    x: VvcPicTimingModel,
    bp: VvcBufferingPeriodModel,
    temporal_id: u8,
) -> Seq<bool> {
    let last = bp.bp_max_sublayers_minus1;
    let removal_len = (bp.bp_cpb_removal_delay_length_minus1 as u32 + 1) as u32;
    let output_len = (bp.bp_dpb_output_delay_length_minus1 as u32 + 1) as u32;
    let count = bp.bp_cpb_removal_delay_delta_vals.len() as u64;
    let idx_len = ceil_log2(count as nat) as u32;
    let a = put_pt_tables(
        a,
        x.tables,
        bp.bp_cpb_removal_delay_deltas_present_flag,
        idx_len,
        count,
        removal_len,
        temporal_id,
        last,
    );
    let a = put_u(a, x.pt_dpb_output_delay as nat, output_len as nat);
    let a = put_flag_if(a, x.pt_cpb_alt_timing_info_present_flag, bp.bp_alt_cpb_params_present_flag);
    let with_alt = x.pt_cpb_alt_timing_info_present_flag && (
        bp.bp_nal_hrd_params_present_flag || bp.bp_vcl_hrd_params_present_flag
    );
    let initial_len = if with_alt {
        (bp.bp_cpb_initial_removal_delay_length_minus1 as u32 + 1) as u32
    } else {
        0
    };
    let first = if bp.bp_sublayer_initial_cpb_removal_delay_present_flag { 0 } else { last };
    let span = (last - first + 1) as u64;
    let cnt = (bp.bp_cpb_cnt_minus1 as u64 + 1) as u64;
    let a = put_alt_table(
        a,
        x.nal_alt,
        initial_len,
        removal_len,
        output_len,
        cnt,
        first,
        (
            if x.pt_cpb_alt_timing_info_present_flag && bp.bp_nal_hrd_params_present_flag {
                span
            } else {
                0u64
            }
        ),
    );
    let a = put_alt_table(
        a,
        x.vcl_alt,
        initial_len,
        removal_len,
        output_len,
        cnt,
        first,
        (
            if x.pt_cpb_alt_timing_info_present_flag && bp.bp_vcl_hrd_params_present_flag {
                span
            } else {
                0u64
            }
        ),
    );
    let du_out = bp.bp_du_hrd_params_present_flag && bp.bp_du_dpb_params_in_pic_timing_sei_flag;
    let du_out_len = if du_out { (bp.bp_dpb_output_delay_du_length_minus1 as u32 + 1) as u32 } else { 0 };
    let a = put_u_if(a, x.pt_dpb_output_du_delay as nat, du_out_len as nat, du_out);
    let with_du = bp.bp_du_hrd_params_present_flag && bp.bp_du_cpb_params_in_pic_timing_sei_flag;
    let du_len = if with_du {
        (bp.bp_du_cpb_removal_delay_increment_length_minus1 as u32 + 1) as u32
    } else {
        0
    };
    let a = match x.du { Some(y) => put_pt_du(a, y, du_len, temporal_id, last, x.tables.1), None => a };
    let a = put_flag_if(
        a,
        x.pt_delay_for_concatenation_ensured_flag,
        bp.bp_additional_concatenation_info_present_flag,
    );
    let a = put_u(a, x.pt_display_elemental_periods_minus1 as nat, 8);
    a
}

/// The values of `pic_timing()` (§D.4.1) that reading can give.
#[verifier::opaque]
pub open spec fn pt_ok(x: VvcPicTimingModel, bp: VvcBufferingPeriodModel, temporal_id: u8) -> bool {
    &&& temporal_id <= bp.bp_max_sublayers_minus1
    &&& {
        let last = bp.bp_max_sublayers_minus1;
        let removal_len = (bp.bp_cpb_removal_delay_length_minus1 as u32 + 1) as u32;
        let output_len = (bp.bp_dpb_output_delay_length_minus1 as u32 + 1) as u32;
        let count = bp.bp_cpb_removal_delay_delta_vals.len() as u64;
        let idx_len = ceil_log2(count as nat) as u32;
        &&& last <= 7 && removal_len <= 32 && output_len <= 32 && idx_len <= 32
        &&& pt_tables_ok(
            x.tables,
            bp.bp_cpb_removal_delay_deltas_present_flag,
            idx_len,
            count,
            removal_len,
            temporal_id,
            last,
        )
        &&& fits(x.pt_dpb_output_delay as nat, output_len as nat)
        &&& bp.bp_alt_cpb_params_present_flag || !x.pt_cpb_alt_timing_info_present_flag
        &&& {
            let with_alt = x.pt_cpb_alt_timing_info_present_flag && (
                bp.bp_nal_hrd_params_present_flag || bp.bp_vcl_hrd_params_present_flag
            );
            let initial_len = if with_alt {
                (bp.bp_cpb_initial_removal_delay_length_minus1 as u32 + 1) as u32
            } else {
                0
            };
            &&& initial_len <= 32
            &&& {
                let first = if bp.bp_sublayer_initial_cpb_removal_delay_present_flag { 0 } else { last };
                let span = (last - first + 1) as u64;
                let cnt = (bp.bp_cpb_cnt_minus1 as u64 + 1) as u64;
                &&& alt_table_ok(
                    x.nal_alt,
                    initial_len,
                    removal_len,
                    output_len,
                    cnt,
                    first,
                    (
                        if x.pt_cpb_alt_timing_info_present_flag && bp.bp_nal_hrd_params_present_flag {
                            span
                        } else {
                            0u64
                        }
                    ),
                )
                &&& alt_table_ok(
                    x.vcl_alt,
                    initial_len,
                    removal_len,
                    output_len,
                    cnt,
                    first,
                    (
                        if x.pt_cpb_alt_timing_info_present_flag && bp.bp_vcl_hrd_params_present_flag {
                            span
                        } else {
                            0u64
                        }
                    ),
                )
                &&& {
                    let du_out = bp.bp_du_hrd_params_present_flag
                        && bp.bp_du_dpb_params_in_pic_timing_sei_flag;
                    let du_out_len = if du_out {
                        (bp.bp_dpb_output_delay_du_length_minus1 as u32 + 1) as u32
                    } else {
                        0
                    };
                    &&& du_out_len <= 32
                    &&& if du_out {
                        fits(x.pt_dpb_output_du_delay as nat, du_out_len as nat)
                    } else {
                        x.pt_dpb_output_du_delay == 0
                    }
                    &&& {
                        let with_du = bp.bp_du_hrd_params_present_flag
                            && bp.bp_du_cpb_params_in_pic_timing_sei_flag;
                        let du_len = if with_du {
                            (bp.bp_du_cpb_removal_delay_increment_length_minus1 as u32 + 1) as u32
                        } else {
                            0
                        };
                        &&& du_len <= 32
                        &&& x.du is Some <==> with_du
                        &&& x.du matches Some(y) ==> pt_du_ok(y, du_len, temporal_id, last, x.tables.1)
                        &&& bp.bp_additional_concatenation_info_present_flag
                            || !x.pt_delay_for_concatenation_ensured_flag
                        &&& fits(x.pt_display_elemental_periods_minus1 as nat, 8)
                    }
                }
            }
        }
    }
}

/// The values of `pic_timing()` (§D.4.1) that the writer accepts.
#[verifier::opaque]
pub open spec fn pt_can(x: VvcPicTimingModel, bp: VvcBufferingPeriodModel, temporal_id: u8) -> bool {
    &&& temporal_id <= bp.bp_max_sublayers_minus1
    &&& {
        let last = bp.bp_max_sublayers_minus1;
        let removal_len = (bp.bp_cpb_removal_delay_length_minus1 as u32 + 1) as u32;
        let output_len = (bp.bp_dpb_output_delay_length_minus1 as u32 + 1) as u32;
        let count = bp.bp_cpb_removal_delay_delta_vals.len() as u64;
        let idx_len = ceil_log2(count as nat) as u32;
        &&& last <= 7 && removal_len <= 32 && output_len <= 32 && idx_len <= 32
        &&& pt_tables_can(
            x.tables,
            bp.bp_cpb_removal_delay_deltas_present_flag,
            idx_len,
            count,
            removal_len,
            temporal_id,
            last,
        )
        &&& fits(x.pt_dpb_output_delay as nat, output_len as nat)
        &&& bp.bp_alt_cpb_params_present_flag || !x.pt_cpb_alt_timing_info_present_flag
        &&& {
            let with_alt = x.pt_cpb_alt_timing_info_present_flag && (
                bp.bp_nal_hrd_params_present_flag || bp.bp_vcl_hrd_params_present_flag
            );
            let initial_len = if with_alt {
                (bp.bp_cpb_initial_removal_delay_length_minus1 as u32 + 1) as u32
            } else {
                0
            };
            &&& initial_len <= 32
            &&& {
                let first = if bp.bp_sublayer_initial_cpb_removal_delay_present_flag { 0 } else { last };
                let span = (last - first + 1) as u64;
                let cnt = (bp.bp_cpb_cnt_minus1 as u64 + 1) as u64;
                &&& alt_table_can(
                    x.nal_alt,
                    initial_len,
                    removal_len,
                    output_len,
                    cnt,
                    first,
                    (
                        if x.pt_cpb_alt_timing_info_present_flag && bp.bp_nal_hrd_params_present_flag {
                            span
                        } else {
                            0u64
                        }
                    ),
                )
                &&& alt_table_can(
                    x.vcl_alt,
                    initial_len,
                    removal_len,
                    output_len,
                    cnt,
                    first,
                    (
                        if x.pt_cpb_alt_timing_info_present_flag && bp.bp_vcl_hrd_params_present_flag {
                            span
                        } else {
                            0u64
                        }
                    ),
                )
                &&& {
                    let du_out = bp.bp_du_hrd_params_present_flag
                        && bp.bp_du_dpb_params_in_pic_timing_sei_flag;
                    let du_out_len = if du_out {
                        (bp.bp_dpb_output_delay_du_length_minus1 as u32 + 1) as u32
                    } else {
                        0
                    };
                    &&& du_out_len <= 32
                    &&& !du_out || fits(x.pt_dpb_output_du_delay as nat, du_out_len as nat)
                    &&& {
                        let with_du = bp.bp_du_hrd_params_present_flag
                            && bp.bp_du_cpb_params_in_pic_timing_sei_flag;
                        let du_len = if with_du {
                            (bp.bp_du_cpb_removal_delay_increment_length_minus1 as u32 + 1) as u32
                        } else {
                            0
                        };
                        &&& du_len <= 32
                        &&& x.du is Some <==> with_du
                        &&& x.du matches Some(y) ==> pt_du_can(y, du_len, temporal_id, last, x.tables.1)
                        &&& bp.bp_additional_concatenation_info_present_flag
                            || !x.pt_delay_for_concatenation_ensured_flag
                    }
                }
            }
        }
    }
}

/// Parses `pic_timing()` (§D.4.1).
#[verifier::rlimit(60)]
#[verifier::spinoff_prover]
fn parse_pt(
    r: &mut BitReader<'_>,
    bp: &VvcBufferingPeriod,
    temporal_id: u8,
) -> (res: Result<VvcPicTiming, BitstreamError>)
    ensures
        read_view_is(pt_at(old(r).bits(), old(r).pos(), bp@, temporal_id), res, *old(r), *final(r)),
{
    proof {
        reveal(pt_at);
    }
    if temporal_id > bp.bp_max_sublayers_minus1 {
        return Err(BitstreamError::invalid("pic_timing TemporalId exceeds bp_max_sublayers_minus1"));
    }
    let last: u8 = bp.bp_max_sublayers_minus1;
    let removal_len: u32 = bp.bp_cpb_removal_delay_length_minus1 as u32 + 1;
    let output_len: u32 = bp.bp_dpb_output_delay_length_minus1 as u32 + 1;
    let count: u64 = bp.bp_cpb_removal_delay_delta_vals.len() as u64;
    let idx_len: u32 = ceil_log2_u64(count);
    if !(last <= 7 && removal_len <= 32 && output_len <= 32 && idx_len <= 32) {
        return Err(
            BitstreamError::invalid(
                "pic_timing with a buffering period whose sublayers or lengths are out of range",
            ),
        );
    }
    let tables = parse_pt_tables(
        r,
        bp.bp_cpb_removal_delay_deltas_present_flag,
        idx_len,
        count,
        removal_len,
        temporal_id,
        last,
    )?;
    let pt_dpb_output_delay: u32 = r.u(output_len);
    let pt_cpb_alt_timing_info_present_flag: bool = r.flag_if(bp.bp_alt_cpb_params_present_flag, false);
    let with_alt: bool = pt_cpb_alt_timing_info_present_flag && (
        bp.bp_nal_hrd_params_present_flag || bp.bp_vcl_hrd_params_present_flag
    );
    let initial_len: u32 = if with_alt {
        bp.bp_cpb_initial_removal_delay_length_minus1 as u32 + 1
    } else {
        0
    };
    if initial_len > 32 {
        return Err(
            BitstreamError::invalid(
                "pic_timing with a buffering period whose initial removal delay length is out of range",
            ),
        );
    }
    let first: u8 = if bp.bp_sublayer_initial_cpb_removal_delay_present_flag { 0 } else { last };
    let span: u64 = (last - first + 1) as u64;
    let cnt: u64 = bp.bp_cpb_cnt_minus1 as u64 + 1;
    let nal_alt = parse_alt_table(
        r,
        initial_len,
        removal_len,
        output_len,
        cnt,
        first,
        (if pt_cpb_alt_timing_info_present_flag && bp.bp_nal_hrd_params_present_flag { span } else { 0u64 }),
    )?;
    let vcl_alt = parse_alt_table(
        r,
        initial_len,
        removal_len,
        output_len,
        cnt,
        first,
        (if pt_cpb_alt_timing_info_present_flag && bp.bp_vcl_hrd_params_present_flag { span } else { 0u64 }),
    )?;
    let du_out: bool = bp.bp_du_hrd_params_present_flag && bp.bp_du_dpb_params_in_pic_timing_sei_flag;
    let du_out_len: u32 = if du_out { bp.bp_dpb_output_delay_du_length_minus1 as u32 + 1 } else { 0 };
    if du_out_len > 32 {
        return Err(
            BitstreamError::invalid(
                "pic_timing with a buffering period whose DU output delay length is out of range",
            ),
        );
    }
    let pt_dpb_output_du_delay: u32 = r.u_if(du_out_len, du_out, 0);
    let with_du: bool = bp.bp_du_hrd_params_present_flag && bp.bp_du_cpb_params_in_pic_timing_sei_flag;
    let du_len: u32 = if with_du { bp.bp_du_cpb_removal_delay_increment_length_minus1 as u32 + 1 } else { 0 };
    if du_len > 32 {
        return Err(
            BitstreamError::invalid(
                "pic_timing with a buffering period whose DU increment length is out of range",
            ),
        );
    }
    let du = if with_du { Some(parse_pt_du(r, du_len, temporal_id, last, &tables.1)?) } else { None };
    let pt_delay_for_concatenation_ensured_flag: bool = r.flag_if(
        bp.bp_additional_concatenation_info_present_flag,
        false,
    );
    let pt_display_elemental_periods_minus1: u8 = r.u8(8);
    Ok(VvcPicTiming {
        pt_cpb_removal_delay_minus1: tables.0,
        pt_sublayer_delays_present_flag: tables.1,
        pt_cpb_removal_delay_delta_enabled_flag: tables.2,
        pt_cpb_removal_delay_delta_idx: tables.3,
        pt_dpb_output_delay,
        pt_cpb_alt_timing_info_present_flag,
        nal_alt,
        vcl_alt,
        pt_dpb_output_du_delay,
        du,
        pt_delay_for_concatenation_ensured_flag,
        pt_display_elemental_periods_minus1,
    })
}

/// Emits `pic_timing()` (§D.4.1), the inverse of [`parse_pt`].
#[verifier::rlimit(60)]
#[verifier::spinoff_prover]
fn write_pt(
    w: &mut BitWriter,
    x: &VvcPicTiming,
    bp: &VvcBufferingPeriod,
    temporal_id: u8,
) -> (res: Result<(), BitstreamError>)
    ensures
        write_is(pt_can(x@, bp@, temporal_id), put_pt(old(w)@, x@, bp@, temporal_id), res, final(w)@),
{
    proof {
        reveal(put_pt);
        reveal(pt_can);
    }
    if temporal_id > bp.bp_max_sublayers_minus1 {
        return Err(BitstreamError::invalid("pic_timing TemporalId exceeds bp_max_sublayers_minus1"));
    }
    let last: u8 = bp.bp_max_sublayers_minus1;
    let removal_len: u32 = bp.bp_cpb_removal_delay_length_minus1 as u32 + 1;
    let output_len: u32 = bp.bp_dpb_output_delay_length_minus1 as u32 + 1;
    let count: u64 = bp.bp_cpb_removal_delay_delta_vals.len() as u64;
    let idx_len: u32 = ceil_log2_u64(count);
    if !(last <= 7 && removal_len <= 32 && output_len <= 32 && idx_len <= 32) {
        return Err(
            BitstreamError::invalid(
                "pic_timing with a buffering period whose sublayers or lengths are out of range",
            ),
        );
    }
    write_pt_tables(
        w,
        &(*x),
        bp.bp_cpb_removal_delay_deltas_present_flag,
        idx_len,
        count,
        removal_len,
        temporal_id,
        last,
    )?;
    if !fits_bits(x.pt_dpb_output_delay, output_len) {
        return Err(BitstreamError::invalid("pt_dpb_output_delay does not fit its length field"));
    }
    w.write_bits(x.pt_dpb_output_delay, output_len);
    if !(bp.bp_alt_cpb_params_present_flag || !x.pt_cpb_alt_timing_info_present_flag) {
        return Err(
            BitstreamError::invalid(
                "pt_cpb_alt_timing_info_present_flag requires bp_alt_cpb_params_present_flag",
            ),
        );
    }
    w.write_flag_if(x.pt_cpb_alt_timing_info_present_flag, bp.bp_alt_cpb_params_present_flag);
    let with_alt: bool = x.pt_cpb_alt_timing_info_present_flag && (
        bp.bp_nal_hrd_params_present_flag || bp.bp_vcl_hrd_params_present_flag
    );
    let initial_len: u32 = if with_alt {
        bp.bp_cpb_initial_removal_delay_length_minus1 as u32 + 1
    } else {
        0
    };
    if initial_len > 32 {
        return Err(
            BitstreamError::invalid(
                "pic_timing with a buffering period whose initial removal delay length is out of range",
            ),
        );
    }
    let first: u8 = if bp.bp_sublayer_initial_cpb_removal_delay_present_flag { 0 } else { last };
    let span: u64 = (last - first + 1) as u64;
    let cnt: u64 = bp.bp_cpb_cnt_minus1 as u64 + 1;
    write_alt_table(
        w,
        &x.nal_alt,
        initial_len,
        removal_len,
        output_len,
        cnt,
        first,
        (
            if x.pt_cpb_alt_timing_info_present_flag && bp.bp_nal_hrd_params_present_flag {
                span
            } else {
                0u64
            }
        ),
        "NAL",
        x.pt_cpb_alt_timing_info_present_flag,
    )?;
    write_alt_table(
        w,
        &x.vcl_alt,
        initial_len,
        removal_len,
        output_len,
        cnt,
        first,
        (
            if x.pt_cpb_alt_timing_info_present_flag && bp.bp_vcl_hrd_params_present_flag {
                span
            } else {
                0u64
            }
        ),
        "VCL",
        x.pt_cpb_alt_timing_info_present_flag,
    )?;
    let du_out: bool = bp.bp_du_hrd_params_present_flag && bp.bp_du_dpb_params_in_pic_timing_sei_flag;
    let du_out_len: u32 = if du_out { bp.bp_dpb_output_delay_du_length_minus1 as u32 + 1 } else { 0 };
    if du_out_len > 32 {
        return Err(
            BitstreamError::invalid(
                "pic_timing with a buffering period whose DU output delay length is out of range",
            ),
        );
    }
    if !(!du_out || fits_bits(x.pt_dpb_output_du_delay, du_out_len)) {
        return Err(BitstreamError::invalid("pt_dpb_output_du_delay does not fit its length field"));
    }
    w.write_bits_if(x.pt_dpb_output_du_delay, du_out_len, du_out);
    let with_du: bool = bp.bp_du_hrd_params_present_flag && bp.bp_du_cpb_params_in_pic_timing_sei_flag;
    let du_len: u32 = if with_du { bp.bp_du_cpb_removal_delay_increment_length_minus1 as u32 + 1 } else { 0 };
    if du_len > 32 {
        return Err(
            BitstreamError::invalid(
                "pic_timing with a buffering period whose DU increment length is out of range",
            ),
        );
    }
    if x.du.is_some() != with_du {
        return Err(BitstreamError::invalid("pic_timing DU block presence must match the BP DU-in-PT flags"));
    }
    if let Some(y) = &x.du {
        write_pt_du(w, y, du_len, temporal_id, last, &x.pt_sublayer_delays_present_flag)?;
    }
    if !(bp.bp_additional_concatenation_info_present_flag || !x.pt_delay_for_concatenation_ensured_flag) {
        return Err(
            BitstreamError::invalid(
                "pt_delay_for_concatenation_ensured_flag requires the BP additional-concatenation flag",
            ),
        );
    }
    w.write_flag_if(
        x.pt_delay_for_concatenation_ensured_flag,
        bp.bp_additional_concatenation_info_present_flag,
    );
    w.write_bits(x.pt_display_elemental_periods_minus1 as u32, 8);
    Ok(())
}

/// Writing `pic_timing()` (§D.4.1) gives back the bits it was read from.
#[verifier::rlimit(60)]
#[verifier::spinoff_prover]
pub broadcast proof fn law_put_pt_at(s: Seq<bool>, p: nat, bp: VvcBufferingPeriodModel, temporal_id: u8)
    ensures
        #[trigger] pt_at(s, p, bp, temporal_id) matches Ok((x, q)) ==> {
            &&& pt_ok(x, bp, temporal_id)
            &&& pt_can(x, bp, temporal_id)
            &&& within(s, q) ==> within(s, p) && put_pt(upto(s, p), x, bp, temporal_id) == upto(s, q)
        },
{
    broadcast use {
        crate::bits::group_write_read,
        law_put_pt_tables_at,
        law_put_alt_table_at,
        law_put_pt_du_at,
    };

    reveal(pt_at);
    reveal(put_pt);
    reveal(pt_ok);
    reveal(pt_can);
}

/// Reading gives back `pic_timing()` (§D.4.1) as it was written.
#[verifier::rlimit(60)]
#[verifier::spinoff_prover]
pub broadcast proof fn law_pre_put_pt(
    a: Seq<bool>,
    x: VvcPicTimingModel,
    bp: VvcBufferingPeriodModel,
    temporal_id: u8,
    s: Seq<bool>,
)
    requires
        #[trigger] pre(put_pt(a, x, bp, temporal_id), s),
        pt_ok(x, bp, temporal_id),
    ensures
        pre(a, s),
        pt_can(x, bp, temporal_id),
        pt_at(s, a.len(), bp, temporal_id) == Ok::<(VvcPicTimingModel, nat), Fault>(
            (x, put_pt(a, x, bp, temporal_id).len()),
        ),
{
    broadcast use {
        crate::bits::group_read_written,
        law_pre_put_pt_tables,
        law_pre_put_alt_table,
        law_pre_put_pt_du,
    };

    reveal(pt_at);
    reveal(put_pt);
    reveal(pt_ok);
    reveal(pt_can);
}

/// The layout of `pic_timing()` (§D.4.1): reading at `p` gives `x` and ends at
/// `q` if and only if these elements stand there in this order, and the values
/// are allowed.
#[verifier::rlimit(60)]
#[verifier::spinoff_prover]
pub proof fn law_layout_pt(
    s: Seq<bool>,
    p: nat,
    bp: VvcBufferingPeriodModel,
    temporal_id: u8,
    x: VvcPicTimingModel,
    q: nat,
)
    ensures
        pt_at(s, p, bp, temporal_id) == Ok::<(VvcPicTimingModel, nat), Fault>((x, q)) <==> ({
            let last: u8 = bp.bp_max_sublayers_minus1;
            let removal_len = (bp.bp_cpb_removal_delay_length_minus1 as u32 + 1) as u32;
            let output_len = (bp.bp_dpb_output_delay_length_minus1 as u32 + 1) as u32;
            let count = bp.bp_cpb_removal_delay_delta_vals.len() as u64;
            let idx_len = ceil_log2(count as nat) as u32;
            let with_alt = x.pt_cpb_alt_timing_info_present_flag && (
                bp.bp_nal_hrd_params_present_flag || bp.bp_vcl_hrd_params_present_flag
            );
            let initial_len = if with_alt {
                (bp.bp_cpb_initial_removal_delay_length_minus1 as u32 + 1) as u32
            } else {
                0
            };
            let first: u8 = if bp.bp_sublayer_initial_cpb_removal_delay_present_flag { 0 } else { last };
            let span = (last - first + 1) as u64;
            let cnt = (bp.bp_cpb_cnt_minus1 as u64 + 1) as u64;
            let du_out = bp.bp_du_hrd_params_present_flag && bp.bp_du_dpb_params_in_pic_timing_sei_flag;
            let du_out_len = if du_out {
                (bp.bp_dpb_output_delay_du_length_minus1 as u32 + 1) as u32
            } else {
                0
            };
            let with_du = bp.bp_du_hrd_params_present_flag && bp.bp_du_cpb_params_in_pic_timing_sei_flag;
            let du_len = if with_du {
                (bp.bp_du_cpb_removal_delay_increment_length_minus1 as u32 + 1) as u32
            } else {
                0
            };
            &&& cursor(s, p)
                .part(
                    |p: nat| pt_tables_at(
                        s,
                        p,
                        bp.bp_cpb_removal_delay_deltas_present_flag,
                        idx_len,
                        count,
                        removal_len,
                        temporal_id,
                        last,
                    ),
                    x.tables,
                )
                .u32(output_len as nat, x.pt_dpb_output_delay)
                .flag_if(bp.bp_alt_cpb_params_present_flag, x.pt_cpb_alt_timing_info_present_flag, false)
                .part(
                    |p: nat| alt_table_at(
                        s,
                        p,
                        initial_len,
                        removal_len,
                        output_len,
                        cnt,
                        first,
                        (
                            if x.pt_cpb_alt_timing_info_present_flag && bp.bp_nal_hrd_params_present_flag {
                                span
                            } else {
                                0u64
                            }
                        ),
                    ),
                    x.nal_alt,
                )
                .part(
                    |p: nat| alt_table_at(
                        s,
                        p,
                        initial_len,
                        removal_len,
                        output_len,
                        cnt,
                        first,
                        (
                            if x.pt_cpb_alt_timing_info_present_flag && bp.bp_vcl_hrd_params_present_flag {
                                span
                            } else {
                                0u64
                            }
                        ),
                    ),
                    x.vcl_alt,
                )
                .u32_if(du_out, du_out_len as nat, x.pt_dpb_output_du_delay, 0)
                .part_if(with_du, |p: nat| pt_du_at(s, p, du_len, temporal_id, last, x.tables.1), x.du)
                .flag_if(
                    bp.bp_additional_concatenation_info_present_flag,
                    x.pt_delay_for_concatenation_ensured_flag,
                    false,
                )
                .u8(8, x.pt_display_elemental_periods_minus1)
                .ends(q)
            &&& temporal_id <= bp.bp_max_sublayers_minus1
            &&& last <= 7 && removal_len <= 32 && output_len <= 32 && idx_len <= 32
            &&& initial_len <= 32
            &&& du_out_len <= 32
            &&& du_len <= 32
        }),
{
    reveal(pt_at);
    reveal(adv_if);
    reveal(flag_if);
    reveal(u32_if);
}

/// Reading `pic_timing()` (§D.4.1) never fails with an error of this class.
#[verifier::rlimit(60)]
#[verifier::spinoff_prover]
pub broadcast proof fn law_faults_pt(s: Seq<bool>, p: nat, bp: VvcBufferingPeriodModel, temporal_id: u8)
    ensures
        #[trigger] pt_at(s, p, bp, temporal_id) matches Err(f) ==> f != Fault::Unsupported,
{
    broadcast use {law_faults_pt_tables, law_faults_alt_table, law_faults_pt_du};

    reveal(pt_at);
}

/// What the writer accepts reads back: `pic_timing()` (§D.4.1), where each
/// field fits its width and what is not coded has the value that is taken for
/// it.
#[verifier::rlimit(60)]
#[verifier::spinoff_prover]
pub proof fn law_reads_pt(
    a: Seq<bool>,
    x: VvcPicTimingModel,
    bp: VvcBufferingPeriodModel,
    temporal_id: u8,
    s: Seq<bool>,
)
    requires
        pt_can(x, bp, temporal_id),
        ({
            let last = bp.bp_max_sublayers_minus1;
            let removal_len = (bp.bp_cpb_removal_delay_length_minus1 as u32 + 1) as u32;
            let output_len = (bp.bp_dpb_output_delay_length_minus1 as u32 + 1) as u32;
            let count = bp.bp_cpb_removal_delay_delta_vals.len() as u64;
            let idx_len = ceil_log2(count as nat) as u32;
            &&& pt_tables_ok(
                x.tables,
                bp.bp_cpb_removal_delay_deltas_present_flag,
                idx_len,
                count,
                removal_len,
                temporal_id,
                last,
            )
            &&& (!bp.bp_alt_cpb_params_present_flag ==> x.pt_cpb_alt_timing_info_present_flag == false)
            &&& {
                let with_alt = x.pt_cpb_alt_timing_info_present_flag && (
                    bp.bp_nal_hrd_params_present_flag || bp.bp_vcl_hrd_params_present_flag
                );
                let initial_len = if with_alt {
                    (bp.bp_cpb_initial_removal_delay_length_minus1 as u32 + 1) as u32
                } else {
                    0
                };
                let first = if bp.bp_sublayer_initial_cpb_removal_delay_present_flag { 0 } else { last };
                let span = (last - first + 1) as u64;
                let cnt = (bp.bp_cpb_cnt_minus1 as u64 + 1) as u64;
                &&& alt_table_ok(
                    x.nal_alt,
                    initial_len,
                    removal_len,
                    output_len,
                    cnt,
                    first,
                    (
                        if x.pt_cpb_alt_timing_info_present_flag && bp.bp_nal_hrd_params_present_flag {
                            span
                        } else {
                            0u64
                        }
                    ),
                )
                &&& alt_table_ok(
                    x.vcl_alt,
                    initial_len,
                    removal_len,
                    output_len,
                    cnt,
                    first,
                    (
                        if x.pt_cpb_alt_timing_info_present_flag && bp.bp_vcl_hrd_params_present_flag {
                            span
                        } else {
                            0u64
                        }
                    ),
                )
                &&& {
                    let du_out = bp.bp_du_hrd_params_present_flag
                        && bp.bp_du_dpb_params_in_pic_timing_sei_flag;
                    &&& (!du_out ==> x.pt_dpb_output_du_delay == 0)
                    &&& {
                        let with_du = bp.bp_du_hrd_params_present_flag
                            && bp.bp_du_cpb_params_in_pic_timing_sei_flag;
                        let du_len = if with_du {
                            (bp.bp_du_cpb_removal_delay_increment_length_minus1 as u32 + 1) as u32
                        } else {
                            0
                        };
                        &&& x.du matches Some(y) ==> pt_du_ok(y, du_len, temporal_id, last, x.tables.1)
                        &&& (
                            !bp.bp_additional_concatenation_info_present_flag
                                ==> x.pt_delay_for_concatenation_ensured_flag == false
                        )
                        &&& fits(x.pt_display_elemental_periods_minus1 as nat, 8)
                    }
                }
            }
        }),
        pre(put_pt(a, x, bp, temporal_id), s),
    ensures
        pt_at(s, a.len(), bp, temporal_id) == Ok::<(VvcPicTimingModel, nat), Fault>(
            (x, put_pt(a, x, bp, temporal_id).len()),
        ),
{
    assert(pt_ok(x, bp, temporal_id)) by {
        broadcast use crate::bits::law_fits_small;

        reveal(pt_ok);
        reveal(pt_can);
    }
    law_pre_put_pt(a, x, bp, temporal_id, s);
}

/// Each field of the model of a [`VvcPicTiming`] is the field of that name.
pub proof fn law_view_pt(x: VvcPicTiming)
    ensures
        x@.tables == (
                x.pt_cpb_removal_delay_minus1@,
                x.pt_sublayer_delays_present_flag@,
                x.pt_cpb_removal_delay_delta_enabled_flag@,
                x.pt_cpb_removal_delay_delta_idx@,
            ),
        x@.pt_dpb_output_delay == x.pt_dpb_output_delay,
        x@.pt_cpb_alt_timing_info_present_flag == x.pt_cpb_alt_timing_info_present_flag,
        x@.nal_alt == alts_view(x.nal_alt@),
        x@.vcl_alt == alts_view(x.vcl_alt@),
        x@.pt_dpb_output_du_delay == x.pt_dpb_output_du_delay,
        x@.du == opt_view(x.du),
        x@.pt_delay_for_concatenation_ensured_flag == x.pt_delay_for_concatenation_ensured_flag,
        x@.pt_display_elemental_periods_minus1 == x.pt_display_elemental_periods_minus1,
{
}

/// The pic_timing that the message `m` holds.
pub open spec fn pt_of(
    m: SeiMessageModel,
    bp: VvcBufferingPeriodModel,
    temporal_id: u8,
) -> Result<VvcPicTimingModel, Fault> {
    if m.payload_type != SEI_TYPE_PIC_TIMING {
        Err(Fault::Invalid)
    } else {
        payload_read(bits_of(m.payload), pt_at(bits_of(m.payload), 0, bp, temporal_id))
    }
}

/// The bits of the payload that holds `x`.
pub open spec fn pt_payload(x: VvcPicTimingModel, bp: VvcBufferingPeriodModel, temporal_id: u8) -> Seq<bool> {
    put_payload_end(put_pt(Seq::empty(), x, bp, temporal_id))
}

/// Decode a `pic_timing()` payload (§D.4.1) against its
/// applicable buffering period and the SEI NAL's `TemporalId`.
pub fn decode_pic_timing(
    msg: &SeiMessage,
    bp: &VvcBufferingPeriod,
    temporal_id: u8,
) -> (res: Result<VvcPicTiming, BitstreamError>)
    ensures
        nal_read_is(pt_of(msg@, bp@, temporal_id), res),
{
    if msg.payload_type != SEI_TYPE_PIC_TIMING {
        return Err(
            Message::new("expected pic_timing payloadType ")
                .num(SEI_TYPE_PIC_TIMING as i128)
                .with(", got ")
                .num(msg.payload_type as i128)
                .invalid(),
        );
    }
    let mut r = BitReader::new(msg.payload.as_slice());
    let x = parse_pt(&mut r, bp, temporal_id)?;
    read_payload_alignment(&mut r, "pic_timing")?;
    Ok(x)
}

/// Encode a `pic_timing()` into a framed [`SeiMessage`], the
/// byte-exact inverse of [`decode_pic_timing`] under the same
/// context.
pub fn encode_pic_timing(
    x: &VvcPicTiming,
    bp: &VvcBufferingPeriod,
    temporal_id: u8,
) -> (res: Result<SeiMessage, BitstreamError>)
    ensures
        payload_write_is(
            pt_can(x@, bp@, temporal_id),
            SEI_TYPE_PIC_TIMING,
            pt_payload(x@, bp@, temporal_id),
            res,
        ),
{
    let mut w = BitWriter::new();
    write_pt(&mut w, x, bp, temporal_id)?;
    Ok(SeiMessage { payload_type: SEI_TYPE_PIC_TIMING, payload: finish_payload(w) })
}

/// A pic_timing message is one of type 1, whose payload is its
/// fields and the closing bits.
pub proof fn law_pt_message(
    m: SeiMessageModel,
    bp: VvcBufferingPeriodModel,
    temporal_id: u8,
    x: VvcPicTimingModel,
)
    ensures
        pt_of(m, bp, temporal_id) == Ok::<VvcPicTimingModel, Fault>(x) <==> ({
            let s = bits_of(m.payload);
            let c = cursor(s, 0).part(|p: nat| pt_at(s, p, bp, temporal_id), x);
            &&& m.payload_type == 1
            &&& c.good && c.pos <= s.len()
            &&& s == put_payload_end(upto(s, c.pos))
        }),
        m.payload_type != 1 ==> pt_of(m, bp, temporal_id) == Err::<VvcPicTimingModel, Fault>(Fault::Invalid),
{
}

/// [`decode_pic_timing`] gives the value that the message holds, or an error of its class,
/// and [`encode_pic_timing`] the message of type 1 with the bits of the value and
/// the closing bits.
pub proof fn law_decode_pic_timing(
    m: SeiMessage, bp: &VvcBufferingPeriod, temporal_id: u8,
    x: VvcPicTiming,
    decoded: Result<VvcPicTiming, BitstreamError>,
    encoded: Result<SeiMessage, BitstreamError>,
)
    requires
        call_ensures(decode_pic_timing, (&m, bp, temporal_id), decoded),
        call_ensures(encode_pic_timing, (&x, bp, temporal_id), encoded),
    ensures
        match decoded {
            Ok(v) => pt_of(m@, bp@, temporal_id) == Ok::<VvcPicTimingModel, Fault>(v@),
            Err(e) => pt_of(m@, bp@, temporal_id) == Err::<VvcPicTimingModel, Fault>(e.fault()),
        },
        match encoded {
            Ok(n) => {
                &&& pt_can(x@, bp@, temporal_id)
                &&& n.payload_type == 1
                &&& bits_of(n.payload@) == put_payload_end(put_pt(Seq::empty(), x@, bp@, temporal_id))
            },
            Err(e) => !pt_can(x@, bp@, temporal_id) && e.fault() == Fault::Invalid,
        },
{
}

/// Encoding what was decoded gives back the payload.
pub proof fn law_encode_decoded_pt(m: SeiMessageModel, bp: VvcBufferingPeriodModel, temporal_id: u8)
    requires
        m.payload.len() <= usize::MAX,
    ensures
        pt_of(m, bp, temporal_id) matches Ok(x) ==> {
            &&& pt_ok(x, bp, temporal_id)
            &&& pt_can(x, bp, temporal_id)
            &&& pt_payload(x, bp, temporal_id) == bits_of(m.payload)
            &&& forall|out: Seq<u8>| bits_of(out) == pt_payload(x, bp, temporal_id) ==> out == m.payload
        },
{
    let s = bits_of(m.payload);
    lemma_bits_of_len(m.payload);
    if let Ok((x, p)) = pt_at(s, 0, bp, temporal_id) {
        if payload_end_at(s, p) is Ok {
            law_put_pt_at(s, 0, bp, temporal_id);
            lemma_payload_end(s, p);
            assert(upto(s, 0) =~= Seq::empty()) by {
                reveal(upto);
            }
            assert forall|out: Seq<u8>| bits_of(out) == pt_payload(x, bp, temporal_id) implies out == m.payload by {
                lemma_bits_of_injective(out, m.payload);
            }
        }
    }
}

/// Decoding what was encoded gives back the value.
pub proof fn law_decode_encoded_pt(
    x: VvcPicTimingModel,
    m: SeiMessageModel,
    bp: VvcBufferingPeriodModel,
    temporal_id: u8,
)
    requires
        pt_ok(x, bp, temporal_id),
        m.payload_type == SEI_TYPE_PIC_TIMING,
        bits_of(m.payload) == pt_payload(x, bp, temporal_id),
        m.payload.len() <= usize::MAX,
    ensures
        pt_can(x, bp, temporal_id),
        pt_of(m, bp, temporal_id) == Ok::<VvcPicTimingModel, Fault>(x),
{
    let s = bits_of(m.payload);
    lemma_bits_of_len(m.payload);
    lemma_payload_closed(put_pt(Seq::empty(), x, bp, temporal_id), s);
    law_pre_put_pt(Seq::empty(), x, bp, temporal_id, s);
}

// ─────────────────────────── Decoding unit info (§D.5) ──────────────────────

/// `decoding_unit_info()` (§D.5.1).
#[derive(Debug, Clone, Default, PartialEq, Eq)]
pub struct VvcDecodingUnitInfo {
    pub dui_decoding_unit_idx: u32,
    /// `[bp_max_sublayers_minus1]` is inferred 1 when the BP has
    /// `bp_du_cpb_params_in_pic_timing_sei_flag == 0` (§D.5.2).
    pub dui_sublayer_delays_present_flag: [bool; 8],
    /// `u(bp_du_cpb_removal_delay_increment_length_minus1 + 1)`.
    pub dui_du_cpb_removal_delay_increment: [u32; 8],
    pub dui_dpb_output_du_delay_present_flag: bool,
    /// `u(bp_dpb_output_delay_du_length_minus1 + 1)`.
    pub dui_dpb_output_du_delay: u32,
}

/// The removal delay increment of a sublayer.
#[derive(Clone, Copy)]
pub struct DuiDelay {
    /// dui_sublayer_delays_present_flag.
    pub present: bool,
    /// dui_du_cpb_removal_delay_increment.
    pub increment: u32,
}

/// The removal delay increment of a sublayer at position `p`.
#[verifier::opaque]
pub open spec fn dui_delay_at(s: Seq<bool>, p: nat, k: u64, width: u32, top: u64) -> Read<DuiDelay> {
    let present = flag_if(s, p, k < top, true);
    let p = adv_if(p, 1, k < top);
    let increment = u32_if(s, p, width as nat, present, 0);
    let p = adv_if(p, width as nat, present);
    Ok((DuiDelay { present, increment }, p))
}

/// The bits `a` followed by the removal delay increment of a sublayer.
#[verifier::opaque]
pub open spec fn put_dui_delay(a: Seq<bool>, x: DuiDelay, k: u64, width: u32, top: u64) -> Seq<bool> {
    let a = put_flag_if(a, x.present, k < top);
    let a = put_u_if(a, x.increment as nat, width as nat, x.present);
    a
}

/// The values of the removal delay increment of a sublayer that reading can
/// give.
#[verifier::opaque]
pub open spec fn dui_delay_ok(x: DuiDelay, k: u64, width: u32, top: u64) -> bool {
    &&& k < top || x.present
    &&& if x.present { fits(x.increment as nat, width as nat) } else { x.increment == 0 }
}

/// The values of the removal delay increment of a sublayer that the writer
/// accepts.
#[verifier::opaque]
pub open spec fn dui_delay_can(x: DuiDelay, k: u64, width: u32, top: u64) -> bool {
    &&& k < top || x.present
    &&& !x.present || fits(x.increment as nat, width as nat)
}

/// Parses the removal delay increment of a sublayer.
fn parse_dui_delay(
    r: &mut BitReader<'_>,
    k: u64,
    width: u32,
    top: u64,
) -> (res: Result<DuiDelay, BitstreamError>)
    requires
        width <= 32,
    ensures
        read_is(dui_delay_at(old(r).bits(), old(r).pos(), k, width, top), res, *old(r), *final(r)),
{
    proof {
        reveal(dui_delay_at);
    }
    let present: bool = r.flag_if(k < top, true);
    let increment: u32 = r.u_if(width, present, 0);
    Ok(DuiDelay { present, increment })
}

/// Emits the removal delay increment of a sublayer, the inverse of [`parse_dui_delay`].
fn write_dui_delay(
    w: &mut BitWriter,
    x: &DuiDelay,
    k: u64,
    width: u32,
    top: u64,
) -> (res: Result<(), BitstreamError>)
    requires
        width <= 32,
    ensures
        write_is(dui_delay_can(*x, k, width, top), put_dui_delay(old(w)@, *x, k, width, top), res, final(w)@),
{
    proof {
        reveal(put_dui_delay);
        reveal(dui_delay_can);
    }
    if !(k < top || x.present) {
        return Err(
            BitstreamError::invalid(
                "dui_sublayer_delays_present_flag[bp_max_sublayers_minus1] is inferred 1 (§D.5.2)",
            ),
        );
    }
    w.write_flag_if(x.present, k < top);
    if !(!x.present || fits_bits(x.increment, width)) {
        return Err(
            BitstreamError::invalid("dui_du_cpb_removal_delay_increment does not fit its length field"),
        );
    }
    w.write_bits_if(x.increment, width, x.present);
    Ok(())
}

/// Writing the removal delay increment of a sublayer gives back the bits it was
/// read from.
pub broadcast proof fn law_put_dui_delay_at(s: Seq<bool>, p: nat, k: u64, width: u32, top: u64)
    requires
        width <= 32,
    ensures
        #[trigger] dui_delay_at(s, p, k, width, top) matches Ok((x, q)) ==> {
            &&& dui_delay_ok(x, k, width, top)
            &&& dui_delay_can(x, k, width, top)
            &&& within(s, q) ==> within(s, p) && put_dui_delay(upto(s, p), x, k, width, top) == upto(s, q)
        },
{
    broadcast use crate::bits::group_write_read;

    reveal(dui_delay_at);
    reveal(put_dui_delay);
    reveal(dui_delay_ok);
    reveal(dui_delay_can);
}

/// Reading gives back the removal delay increment of a sublayer as it was
/// written.
pub broadcast proof fn law_pre_put_dui_delay(
    a: Seq<bool>,
    x: DuiDelay,
    k: u64,
    width: u32,
    top: u64,
    s: Seq<bool>,
)
    requires
        #[trigger] pre(put_dui_delay(a, x, k, width, top), s),
        dui_delay_ok(x, k, width, top),
        width <= 32,
    ensures
        pre(a, s),
        dui_delay_can(x, k, width, top),
        dui_delay_at(s, a.len(), k, width, top) == Ok::<(DuiDelay, nat), Fault>(
            (x, put_dui_delay(a, x, k, width, top).len()),
        ),
{
    broadcast use crate::bits::group_read_written;

    reveal(dui_delay_at);
    reveal(put_dui_delay);
    reveal(dui_delay_ok);
    reveal(dui_delay_can);
}

/// The layout of the removal delay increment of a sublayer: reading at `p`
/// gives `x` and ends at `q` if and only if these elements stand there in this
/// order.
pub proof fn law_layout_dui_delay(s: Seq<bool>, p: nat, k: u64, width: u32, top: u64, x: DuiDelay, q: nat)
    ensures
        dui_delay_at(s, p, k, width, top) == Ok::<(DuiDelay, nat), Fault>((x, q)) <==> cursor(s, p)
            .flag_if(k < top, x.present, true)
            .u32_if(x.present, width as nat, x.increment, 0)
            .ends(q),
{
    reveal(dui_delay_at);
    reveal(adv_if);
    reveal(flag_if);
    reveal(u32_if);
}

/// Reading the removal delay increment of a sublayer never fails.
pub broadcast proof fn law_faults_dui_delay(s: Seq<bool>, p: nat, k: u64, width: u32, top: u64)
    ensures
        #[trigger] dui_delay_at(s, p, k, width, top) is Ok,
{
    reveal(dui_delay_at);
}

/// What the writer accepts reads back: the removal delay increment of a
/// sublayer, where each field fits its width and what is not coded has the
/// value that is taken for it.
pub proof fn law_reads_dui_delay(a: Seq<bool>, x: DuiDelay, k: u64, width: u32, top: u64, s: Seq<bool>)
    requires
        dui_delay_can(x, k, width, top),
        !(k < top) ==> x.present == true,
        !x.present ==> x.increment == 0,
        pre(put_dui_delay(a, x, k, width, top), s),
        width <= 32,
    ensures
        dui_delay_at(s, a.len(), k, width, top) == Ok::<(DuiDelay, nat), Fault>(
            (x, put_dui_delay(a, x, k, width, top).len()),
        ),
{
    assert(dui_delay_ok(x, k, width, top)) by {
        broadcast use crate::bits::law_fits_small;

        reveal(dui_delay_ok);
        reveal(dui_delay_can);
    }
    law_pre_put_dui_delay(a, x, k, width, top, s);
}

/// Reads the removal delay increment of a sublayer, behind the items before it.
pub open spec fn dui_delays_item(
    s: Seq<bool>,
    width: u32,
    top: u64,
) -> spec_fn(Seq<DuiDelay>, nat) -> Read<DuiDelay> {
    |done: Seq<DuiDelay>, q: nat| dui_delay_at(s, q, done.len() as u64, width, top)
}

/// Writes the removal delay increment of a sublayer, behind the items before
/// it.
pub open spec fn put_dui_delays_item(
    width: u32,
    top: u64,
) -> spec_fn(Seq<bool>, Seq<DuiDelay>, DuiDelay) -> Seq<bool> {
    |a: Seq<bool>, done: Seq<DuiDelay>, x: DuiDelay| put_dui_delay(a, x, done.len() as u64, width, top)
}

/// Whether the removal delay increment of a sublayer may follow the items
/// before it.
pub open spec fn dui_delays_item_ok(width: u32, top: u64) -> spec_fn(Seq<DuiDelay>, DuiDelay) -> bool {
    |done: Seq<DuiDelay>, x: DuiDelay| dui_delay_ok(x, done.len() as u64, width, top)
        && dui_delay_can(x, done.len() as u64, width, top)
}

/// `n` items at position `p`, each the removal delay increment of a sublayer.
#[verifier::opaque]
pub open spec fn dui_delays_at(s: Seq<bool>, p: nat, width: u32, top: u64, n: u64) -> Read<Seq<DuiDelay>> {
    rep_at(dui_delays_item(s, width, top), p, n as nat)
}

/// The bits `a` followed by the items.
#[verifier::opaque]
pub open spec fn put_dui_delays(a: Seq<bool>, xs: Seq<DuiDelay>, width: u32, top: u64, n: u64) -> Seq<bool> {
    put_rep(put_dui_delays_item(width, top), a, xs)
}

/// `n` items that reading can give.
#[verifier::opaque]
pub open spec fn dui_delays_ok(xs: Seq<DuiDelay>, width: u32, top: u64, n: u64) -> bool {
    xs.len() == n
        && forall|i: int| 0 <= i < xs.len()
        ==> dui_delay_ok(#[trigger] xs[i], i as u64, width, top)
        && dui_delay_can(xs[i], i as u64, width, top)
}

/// `n` items that the writer accepts.
#[verifier::opaque]
pub open spec fn dui_delays_can(xs: Seq<DuiDelay>, width: u32, top: u64, n: u64) -> bool {
    xs.len() == n
        && forall|i: int| 0 <= i < xs.len()
        ==> dui_delay_can(#[trigger] xs[i], i as u64, width, top)
}

/// Parses `n` items, each the removal delay increment of a sublayer.
fn parse_dui_delays(
    r: &mut BitReader<'_>,
    width: u32,
    top: u64,
    n: u64,
) -> (res: Result<Vec<DuiDelay>, BitstreamError>)
    requires
        width <= 32,
    ensures
        read_vec_is(dui_delays_at(old(r).bits(), old(r).pos(), width, top, n), res, *old(r), *final(r)),
        res matches Ok(v) ==> v@.len() == n,
{
    let ghost s = r.bits();
    let ghost p = r.pos();
    let ghost reads = dui_delays_item(s, width, top);
    let mut xs: Vec<DuiDelay> = Vec::new();
    let mut i: u64 = 0;
    proof {
        reveal(dui_delays_at);
    }
    while i < n
        invariant
            i <= n,
            xs@.len() == i,
                width <= 32,
            reads == dui_delays_item(s, width, top),
            s == r.bits(),
            s == old(r).bits(),
            p == old(r).pos(),
            r.bytes() == old(r).bytes(),
            rep_at(reads, p, i as nat) == Ok::<(Seq<DuiDelay>, nat), Fault>((xs@, r.pos())),
        decreases n - i,
    {
        match parse_dui_delay(r, i, width, top) {
            Ok(x) => {
                xs.push(x);
            },
            Err(e) => {
                proof {
                    reveal(dui_delays_at);
                    lemma_rep_err(reads, p, (i + 1) as nat, n as nat);
                }
                return Err(e);
            },
        }
        i = i + 1;
    }
    Ok(xs)
}

/// Emits `n` items, each the removal delay increment of a sublayer.
fn write_dui_delays(
    w: &mut BitWriter,
    xs: &Vec<DuiDelay>,
    width: u32,
    top: u64,
    n: u64,
) -> (res: Result<(), BitstreamError>)
    requires
        width <= 32,
    ensures
        write_is(
            dui_delays_can(xs@, width, top, n),
            put_dui_delays(old(w)@, xs@, width, top, n),
            res,
            final(w)@,
        ),
        res is Ok ==> xs@.len() == n,
{
    let ghost before = w@;
    let ghost puts = put_dui_delays_item(width, top);
    let ghost ys = xs@;
    proof {
        reveal(put_dui_delays);
        reveal(dui_delays_can);
        assert(ys.take(0) =~= Seq::empty());
    }
    if xs.len() as u64 != n {
        return Err(BitstreamError::invalid("unexpected number of entries"));
    }
    let mut i: usize = 0;
    while i < xs.len()
        invariant
            i <= xs@.len(),
            xs@.len() == n,
            ys == xs@,
            ys.len() == xs@.len(),
                width <= 32,
            before == old(w)@,
            puts == put_dui_delays_item(width, top),
            w@ == put_rep(puts, before, ys.take(i as int)),
            forall|j: int| 0 <= j < i ==> dui_delay_can(#[trigger] ys[j], j as u64, width, top),
        ensures
            i == xs@.len(),
        decreases xs@.len() - i,
    {
        proof {
            assert(ys.take(i + 1).drop_last() =~= ys.take(i as int));
            assert(ys[i as int] == xs@[i as int]);
        }
        match write_dui_delay(w, &xs[i], i as u64, width, top) {
            Ok(()) => {},
            Err(e) => {
                proof {
                    reveal(dui_delays_can);
                }
                return Err(e);
            },
        }
        i = i + 1;
    }
    proof {
        assert(ys.take(i as int) =~= ys);
    }
    Ok(())
}

/// Writing what was read gives back the bits that were read.
pub broadcast proof fn law_put_dui_delays_at(s: Seq<bool>, p: nat, width: u32, top: u64, n: u64)
    requires
        width <= 32,
    ensures
        #[trigger] dui_delays_at(s, p, width, top, n) matches Ok((xs, q)) ==> {
            &&& xs.len() == n
            &&& dui_delays_ok(xs, width, top, n)
            &&& dui_delays_can(xs, width, top, n)
            &&& within(s, q) ==> within(s, p) && put_dui_delays(upto(s, p), xs, width, top, n) == upto(s, q)
        },
{
    broadcast use law_put_dui_delay_at;

    reveal(dui_delays_at);
    reveal(put_dui_delays);
    reveal(dui_delays_ok);
    reveal(dui_delays_can);
    let ok = dui_delays_item_ok(width, top);
    law_put_rep_at(s, dui_delays_item(s, width, top), put_dui_delays_item(width, top), ok, p, n as nat);
    if let Ok((xs, q)) = dui_delays_at(s, p, width, top, n) {
        assert forall|i: int| 0 <= i < xs.len() implies ok(xs.take(i), #[trigger] xs[i]) by {}
    }
}

/// What was written reads back as the items that were written.
pub broadcast proof fn law_pre_put_dui_delays(
    a: Seq<bool>,
    xs: Seq<DuiDelay>,
    width: u32,
    top: u64,
    n: u64,
    s: Seq<bool>,
)
    requires
        #[trigger] pre(put_dui_delays(a, xs, width, top, n), s),
        dui_delays_ok(xs, width, top, n),
        width <= 32,
    ensures
        pre(a, s),
        dui_delays_can(xs, width, top, n),
        dui_delays_at(s, a.len(), width, top, n) == Ok::<(Seq<DuiDelay>, nat), Fault>(
            (xs, put_dui_delays(a, xs, width, top, n).len()),
        ),
{
    broadcast use law_pre_put_dui_delay;

    reveal(dui_delays_at);
    reveal(put_dui_delays);
    reveal(dui_delays_ok);
    reveal(dui_delays_can);
    law_rep_at_put(
        s,
        dui_delays_item(s, width, top),
        put_dui_delays_item(width, top),
        dui_delays_item_ok(width, top),
        a,
        xs,
    );
}

/// `n` items stand one behind the other: `n - 1` items, and then the removal
/// delay increment of a sublayer.
pub proof fn law_layout_dui_delays(
    s: Seq<bool>,
    p: nat,
    width: u32,
    top: u64,
    n: u64,
    xs: Seq<DuiDelay>,
    q: nat,
)
    ensures
        dui_delays_at(s, p, width, top, n) == Ok::<(Seq<DuiDelay>, nat), Fault>((xs, q)) <==> if n == 0 {
            xs.len() == 0 && q == p
        } else {
            &&& xs.len() == n
            &&& cursor(s, p)
                .part(|p: nat| dui_delays_at(s, p, width, top, (n - 1) as u64), xs.drop_last())
                .part(|p: nat| dui_delay_at(s, p, (n - 1) as u64, width, top), xs.last())
                .ends(q)
        },
{
    reveal(dui_delays_at);
    lemma_rep_step(dui_delays_item(s, width, top), p, n as nat);
    if xs.len() == 0 {
        assert(xs =~= Seq::empty());
    } else {
        assert(xs =~= xs.drop_last().push(xs.last()));
    }
    if n > 0 {
        if let Ok((done, r)) = rep_at(dui_delays_item(s, width, top), p, (n - 1) as nat) {
            if let Ok((y, z)) = dui_delays_item(s, width, top)(done, r) {
                assert(done.push(y).drop_last() =~= done);
            }
        }
    }
}

/// What the writer accepts as `n` items reads back, where each of them is one that
/// reading can give.
pub proof fn law_reads_dui_delays(a: Seq<bool>, xs: Seq<DuiDelay>, width: u32, top: u64, n: u64, s: Seq<bool>)
    requires
        dui_delays_can(xs, width, top, n),
        forall|i: int| 0 <= i < xs.len() ==> dui_delay_ok(#[trigger] xs[i], i as u64, width, top),
        pre(put_dui_delays(a, xs, width, top, n), s),
        width <= 32,
    ensures
        xs.len() == n,
        dui_delays_at(s, a.len(), width, top, n) == Ok::<(Seq<DuiDelay>, nat), Fault>(
            (xs, put_dui_delays(a, xs, width, top, n).len()),
        ),
{
    reveal(dui_delays_can);
    assert(dui_delays_ok(xs, width, top, n)) by {
        reveal(dui_delays_ok);
    }
    law_pre_put_dui_delays(a, xs, width, top, n, s);
}

/// Reading the items never fails.
pub broadcast proof fn law_faults_dui_delays(s: Seq<bool>, p: nat, width: u32, top: u64, n: u64)
    ensures
        #[trigger] dui_delays_at(s, p, width, top, n) is Ok,
{
    broadcast use law_faults_dui_delay;

    reveal(dui_delays_at);
    let f = dui_delays_item(s, width, top);
    assert forall|done: Seq<DuiDelay>, q: nat| (#[trigger] f(done, q)) is Ok by {}
    lemma_rep_faults_none(f, p, n as nat);
}

/// The tables of eight sublayers: those from `first` on, and zeros elsewhere.
pub open spec fn increments_of(b: Seq<DuiDelay>, first: u8) -> (Seq<bool>, Seq<u32>) {
    (
        Seq::new(8, |i: int| first <= i < first + b.len() && b[i - first].present),
        Seq::new(
            8,
            |i: int|
                if first <= i < first + b.len() {
                    b[i - first].increment
                } else {
                    0u32
                },
        ),
    )
}

/// The entries of the sublayers `first..=last` if they are coded.
pub open spec fn coded_increments(
    x: (Seq<bool>, Seq<u32>),
    first: u8,
    last: u8,
    coded: bool,
) -> Seq<DuiDelay> {
    if coded {
        Seq::new(
            (last - first + 1) as nat,
            |k: int| DuiDelay { present: x.0[first + k], increment: x.1[first + k] },
        )
    } else {
        Seq::empty()
    }
}

proof fn lemma_dui_tables(b: Seq<DuiDelay>, width: u32, first: u8, last: u8, coded: bool)
    requires
        first <= last <= 7,
        dui_delays_ok(
            b,
            width,
            (last - first) as u64,
            if coded {
                (last - first + 1) as u64
            } else {
                0
            },
        ),
    ensures
        coded_increments(increments_of(b, first), first, last, coded) == b,
{
    reveal(dui_delays_ok);
    assert(coded_increments(increments_of(b, first), first, last, coded) =~= b);
}

/// The increments of the sublayers `temporal_id..=last` at position `p`, in tables of eight.
#[verifier::opaque]
pub open spec fn dui_tables_at(
    s: Seq<bool>,
    p: nat,
    width: u32,
    temporal_id: u8,
    last: u8,
    coded: bool,
) -> Read<(Seq<bool>, Seq<u32>)> {
    match dui_delays_at(s, p, width, (last - temporal_id) as u64, (if coded { (last - temporal_id + 1) as u64 } else { 0 })) {
        Err(f) => Err(f),
        Ok((b, p)) => Ok((increments_of(b, temporal_id), p)),
    }
}

/// Writes the values.
#[verifier::opaque]
pub open spec fn put_dui_tables(
    a: Seq<bool>,
    x: (Seq<bool>, Seq<u32>),
    width: u32,
    temporal_id: u8,
    last: u8,
    coded: bool,
) -> Seq<bool> {
    put_dui_delays(
        a,
        coded_increments(x, temporal_id, last, coded),
        width,
        (last - temporal_id) as u64,
        (if coded { (last - temporal_id + 1) as u64 } else { 0 }),
    )
}

/// Values that reading can give.
#[verifier::opaque]
pub open spec fn dui_tables_ok(
    x: (Seq<bool>, Seq<u32>),
    width: u32,
    temporal_id: u8,
    last: u8,
    coded: bool,
) -> bool {
    let b = coded_increments(x, temporal_id, last, coded);
    (x.0.len() == 8 && x.1.len() == 8)
        && dui_delays_ok(
            b,
            width,
            (last - temporal_id) as u64,
            (if coded { (last - temporal_id + 1) as u64 } else { 0 }),
        )
        && x == increments_of(b, temporal_id)
}

/// Values that the writer accepts.
#[verifier::opaque]
pub open spec fn dui_tables_can(
    x: (Seq<bool>, Seq<u32>),
    width: u32,
    temporal_id: u8,
    last: u8,
    coded: bool,
) -> bool {
    (x.0.len() == 8 && x.1.len() == 8)
        && dui_delays_can(
            coded_increments(x, temporal_id, last, coded),
            width,
            (last - temporal_id) as u64,
            (if coded { (last - temporal_id + 1) as u64 } else { 0 }),
        )
}

/// Writing what was read gives back the bits that were read.
pub broadcast proof fn law_put_dui_tables_at(
    s: Seq<bool>,
    p: nat,
    width: u32,
    temporal_id: u8,
    last: u8,
    coded: bool,
)
    requires
        temporal_id <= last <= 7,
        width <= 32,
    ensures
        #[trigger] dui_tables_at(s, p, width, temporal_id, last, coded) matches Ok((x, q)) ==> {
            &&& dui_tables_ok(x, width, temporal_id, last, coded)
            &&& dui_tables_can(x, width, temporal_id, last, coded)
            &&& within(s, q)
                ==> within(s, p)
                && put_dui_tables(upto(s, p), x, width, temporal_id, last, coded) == upto(s, q)
        },
{
    broadcast use law_put_dui_delays_at;

    reveal(dui_tables_at);
    reveal(put_dui_tables);
    reveal(dui_tables_ok);
    reveal(dui_tables_can);
    if let Ok((b, q)) = dui_delays_at(s, p, width, (last - temporal_id) as u64, (if coded { (last - temporal_id + 1) as u64 } else { 0 })) {
        lemma_dui_tables(b, width, temporal_id, last, coded);
    }
}

/// What was written reads back as the values that were written.
pub broadcast proof fn law_pre_put_dui_tables(
    a: Seq<bool>,
    x: (Seq<bool>, Seq<u32>),
    width: u32,
    temporal_id: u8,
    last: u8,
    coded: bool,
    s: Seq<bool>,
)
    requires
        #[trigger] pre(put_dui_tables(a, x, width, temporal_id, last, coded), s),
        dui_tables_ok(x, width, temporal_id, last, coded),
        temporal_id <= last <= 7,
        width <= 32,
    ensures
        pre(a, s),
        dui_tables_can(x, width, temporal_id, last, coded),
        dui_tables_at(s, a.len(), width, temporal_id, last, coded) == Ok::<((Seq<bool>, Seq<u32>), nat), Fault>(
            (x, put_dui_tables(a, x, width, temporal_id, last, coded).len()),
        ),
{
    broadcast use law_pre_put_dui_delays;

    reveal(dui_tables_at);
    reveal(put_dui_tables);
    reveal(dui_tables_ok);
    reveal(dui_tables_can);
}

/// What the writer accepts reads back, where the coded values are ones that reading can
/// give and the others are those that stand for what is not coded.
pub proof fn law_reads_dui_tables(
    a: Seq<bool>,
    x: (Seq<bool>, Seq<u32>),
    width: u32,
    temporal_id: u8,
    last: u8,
    coded: bool,
    s: Seq<bool>,
)
    requires
        dui_tables_can(x, width, temporal_id, last, coded),
        ({
            let b = coded_increments(x, temporal_id, last, coded);
            dui_delays_ok(
                b,
                width,
                (last - temporal_id) as u64,
                (if coded { (last - temporal_id + 1) as u64 } else { 0 }),
            )
                && x == increments_of(b, temporal_id)
        }),
        pre(put_dui_tables(a, x, width, temporal_id, last, coded), s),
        temporal_id <= last <= 7,
        width <= 32,
    ensures
        dui_tables_at(s, a.len(), width, temporal_id, last, coded) == Ok::<((Seq<bool>, Seq<u32>), nat), Fault>(
            (x, put_dui_tables(a, x, width, temporal_id, last, coded).len()),
        ),
{
    assert(dui_tables_ok(x, width, temporal_id, last, coded)) by {
        reveal(dui_tables_ok);
        reveal(dui_tables_can);
    }
    law_pre_put_dui_tables(a, x, width, temporal_id, last, coded, s);
}

/// Reading them never fails.
pub broadcast proof fn law_faults_dui_tables(
    s: Seq<bool>,
    p: nat,
    width: u32,
    temporal_id: u8,
    last: u8,
    coded: bool,
)
    ensures
        #[trigger] dui_tables_at(s, p, width, temporal_id, last, coded) is Ok,
{
    broadcast use law_faults_dui_delays;

    reveal(dui_tables_at);
}

fn parse_dui_tables(r: &mut BitReader<'_>, width: u32, first: u8, last: u8, coded: bool) -> (res: Result<
    ([bool; 8], [u32; 8]),
    BitstreamError,
>)
    requires
        first <= last <= 7,
        width <= 32,
    ensures
        read_view_is(
            dui_tables_at(old(r).bits(), old(r).pos(), width, first, last, coded),
            res,
            *old(r),
            *final(r),
        ),
{
    proof {
        reveal(dui_tables_at);
    }
    let n: u64 = if coded {
        (last - first + 1) as u64
    } else {
        0
    };
    let v = parse_dui_delays(r, width, (last - first) as u64, n)?;
    let ghost want = increments_of(v@, first);
    let mut present: [bool; 8] = [false; 8];
    let mut increment: [u32; 8] = [0; 8];
    let mut i: usize = 0;
    while i < v.len()
        invariant
            i <= v@.len(),
            first + v@.len() <= 8,
            forall|k: int| 0 <= k < 8
                ==> #[trigger] present@[k] == (first <= k < first + i && v@[k - first].present),
            forall|k: int|
                0 <= k < 8 ==> #[trigger] increment@[k] == (if first <= k < first + i {
                    v@[k - first].increment
                } else {
                    0u32
                }),
        decreases v@.len() - i,
    {
        let d: DuiDelay = v[i];
        present[first as usize + i] = d.present;
        increment[first as usize + i] = d.increment;
        i = i + 1;
    }
    proof {
        assert(present@ =~= want.0);
        assert(increment@ =~= want.1);
    }
    Ok((present, increment))
}

fn write_dui_tables(
    w: &mut BitWriter,
    x: &VvcDecodingUnitInfo,
    width: u32,
    first: u8,
    last: u8,
    coded: bool,
) -> (res: Result<
    (),
    BitstreamError,
>)
    requires
        first <= last <= 7,
        width <= 32,
    ensures
        write_is(
            dui_tables_can(x@.tables, width, first, last, coded),
            put_dui_tables(old(w)@, x@.tables, width, first, last, coded),
            res,
            final(w)@,
        ),
{
    let ghost m = x@.tables;
    proof {
        reveal(dui_tables_can);
        reveal(put_dui_tables);
    }
    let n: u64 = if coded {
        (last - first + 1) as u64
    } else {
        0
    };
    let mut v: Vec<DuiDelay> = Vec::new();
    let mut i: usize = 0;
    while i < n as usize
        invariant
            i <= n,
            first + n <= 8,
            m == x@.tables,
            v@.len() == i,
            forall|k: int|
                0 <= k < i
                    ==> #[trigger] v@[k] == (DuiDelay { present: m.0[first + k], increment: m.1[first + k] }),
        decreases n - i,
    {
        v.push(
            DuiDelay {
                present: x.dui_sublayer_delays_present_flag[first as usize + i],
                increment: x.dui_du_cpb_removal_delay_increment[first as usize + i],
            },
        );
        i = i + 1;
    }
    proof {
        assert(v@ =~= coded_increments(m, first, last, coded));
    }
    write_dui_delays(w, &v, width, (last - first) as u64, n)
}

/// The mathematical model of a [`VvcDecodingUnitInfo`].
pub struct VvcDecodingUnitInfoModel {
    pub dui_decoding_unit_idx: u32,
    pub tables: (Seq<bool>, Seq<u32>),
    pub dui_dpb_output_du_delay_present_flag: bool,
    pub dui_dpb_output_du_delay: u32,
}

impl View for VvcDecodingUnitInfo {
    type V = VvcDecodingUnitInfoModel;

    open spec fn view(&self) -> VvcDecodingUnitInfoModel {
        VvcDecodingUnitInfoModel {
            dui_decoding_unit_idx: self.dui_decoding_unit_idx,
            tables: (self.dui_sublayer_delays_present_flag@, self.dui_du_cpb_removal_delay_increment@),
            dui_dpb_output_du_delay_present_flag: self.dui_dpb_output_du_delay_present_flag,
            dui_dpb_output_du_delay: self.dui_dpb_output_du_delay,
        }
    }
}

/// `decoding_unit_info()` (§D.5.1) at position `p`.
#[verifier::opaque]
pub open spec fn dui_at(
    s: Seq<bool>,
    p: nat,
    bp: VvcBufferingPeriodModel,
    temporal_id: u8,
) -> Read<VvcDecodingUnitInfoModel> {
    if temporal_id > bp.bp_max_sublayers_minus1 { Err(Fault::Invalid) } else {
    let coded = !bp.bp_du_cpb_params_in_pic_timing_sei_flag;
    let first = if coded { temporal_id } else { 0 };
    let last = if coded { bp.bp_max_sublayers_minus1 } else { 0 };
    let du_len = if coded {
        (bp.bp_du_cpb_removal_delay_increment_length_minus1 as u32 + 1) as u32
    } else {
        0
    };
    match ue_at(s, p) { Err(f) => Err(f), Ok((dui_decoding_unit_idx, p)) => {
    if !(last <= 7 && du_len <= 32) { Err(Fault::Invalid) } else {
    match dui_tables_at(s, p, du_len, first, last, coded) { Err(f) => Err(f), Ok((tables, p)) => {
    let dui_dpb_output_du_delay_present_flag = flag_if(
        s,
        p,
        !bp.bp_du_dpb_params_in_pic_timing_sei_flag,
        false,
    );
    let p = adv_if(p, 1, !bp.bp_du_dpb_params_in_pic_timing_sei_flag);
    let out_len = if dui_dpb_output_du_delay_present_flag {
        (bp.bp_dpb_output_delay_du_length_minus1 as u32 + 1) as u32
    } else {
        0
    };
    if out_len > 32 { Err(Fault::Invalid) } else {
    let dui_dpb_output_du_delay = u32_if(s, p, out_len as nat, dui_dpb_output_du_delay_present_flag, 0);
    let p = adv_if(p, out_len as nat, dui_dpb_output_du_delay_present_flag);
    Ok((
        VvcDecodingUnitInfoModel {
            dui_decoding_unit_idx,
            tables,
            dui_dpb_output_du_delay_present_flag,
            dui_dpb_output_du_delay,
        },
        p,
    ))
    }}}}}}}
}

/// The bits `a` followed by `decoding_unit_info()` (§D.5.1).
#[verifier::opaque]
pub open spec fn put_dui(
    a: Seq<bool>,
    x: VvcDecodingUnitInfoModel,
    bp: VvcBufferingPeriodModel,
    temporal_id: u8,
) -> Seq<bool> {
    let coded = !bp.bp_du_cpb_params_in_pic_timing_sei_flag;
    let first = if coded { temporal_id } else { 0 };
    let last = if coded { bp.bp_max_sublayers_minus1 } else { 0 };
    let du_len = if coded {
        (bp.bp_du_cpb_removal_delay_increment_length_minus1 as u32 + 1) as u32
    } else {
        0
    };
    let a = put_ue(a, x.dui_decoding_unit_idx as nat);
    let a = put_dui_tables(a, x.tables, du_len, first, last, coded);
    let a = put_flag_if(
        a,
        x.dui_dpb_output_du_delay_present_flag,
        !bp.bp_du_dpb_params_in_pic_timing_sei_flag,
    );
    let out_len = if x.dui_dpb_output_du_delay_present_flag {
        (bp.bp_dpb_output_delay_du_length_minus1 as u32 + 1) as u32
    } else {
        0
    };
    let a = put_u_if(
        a,
        x.dui_dpb_output_du_delay as nat,
        out_len as nat,
        x.dui_dpb_output_du_delay_present_flag,
    );
    a
}

/// The values of `decoding_unit_info()` (§D.5.1) that reading can give.
#[verifier::opaque]
pub open spec fn dui_ok(x: VvcDecodingUnitInfoModel, bp: VvcBufferingPeriodModel, temporal_id: u8) -> bool {
    &&& temporal_id <= bp.bp_max_sublayers_minus1
    &&& {
        let coded = !bp.bp_du_cpb_params_in_pic_timing_sei_flag;
        let first = if coded { temporal_id } else { 0 };
        let last = if coded { bp.bp_max_sublayers_minus1 } else { 0 };
        let du_len = if coded {
            (bp.bp_du_cpb_removal_delay_increment_length_minus1 as u32 + 1) as u32
        } else {
            0
        };
        &&& ue_fits(x.dui_decoding_unit_idx as nat)
        &&& last <= 7 && du_len <= 32
        &&& dui_tables_ok(x.tables, du_len, first, last, coded)
        &&& !bp.bp_du_dpb_params_in_pic_timing_sei_flag || !x.dui_dpb_output_du_delay_present_flag
        &&& {
            let out_len = if x.dui_dpb_output_du_delay_present_flag {
                (bp.bp_dpb_output_delay_du_length_minus1 as u32 + 1) as u32
            } else {
                0
            };
            &&& out_len <= 32
            &&& if x.dui_dpb_output_du_delay_present_flag {
                fits(x.dui_dpb_output_du_delay as nat, out_len as nat)
            } else {
                x.dui_dpb_output_du_delay == 0
            }
        }
    }
}

/// The values of `decoding_unit_info()` (§D.5.1) that the writer accepts.
#[verifier::opaque]
pub open spec fn dui_can(x: VvcDecodingUnitInfoModel, bp: VvcBufferingPeriodModel, temporal_id: u8) -> bool {
    &&& temporal_id <= bp.bp_max_sublayers_minus1
    &&& {
        let coded = !bp.bp_du_cpb_params_in_pic_timing_sei_flag;
        let first = if coded { temporal_id } else { 0 };
        let last = if coded { bp.bp_max_sublayers_minus1 } else { 0 };
        let du_len = if coded {
            (bp.bp_du_cpb_removal_delay_increment_length_minus1 as u32 + 1) as u32
        } else {
            0
        };
        &&& ue_fits(x.dui_decoding_unit_idx as nat)
        &&& last <= 7 && du_len <= 32
        &&& dui_tables_can(x.tables, du_len, first, last, coded)
        &&& !bp.bp_du_dpb_params_in_pic_timing_sei_flag || !x.dui_dpb_output_du_delay_present_flag
        &&& {
            let out_len = if x.dui_dpb_output_du_delay_present_flag {
                (bp.bp_dpb_output_delay_du_length_minus1 as u32 + 1) as u32
            } else {
                0
            };
            &&& out_len <= 32
            &&& !x.dui_dpb_output_du_delay_present_flag
                || fits(x.dui_dpb_output_du_delay as nat, out_len as nat)
        }
    }
}

/// Parses `decoding_unit_info()` (§D.5.1).
fn parse_dui(
    r: &mut BitReader<'_>,
    bp: &VvcBufferingPeriod,
    temporal_id: u8,
) -> (res: Result<VvcDecodingUnitInfo, BitstreamError>)
    ensures
        read_view_is(dui_at(old(r).bits(), old(r).pos(), bp@, temporal_id), res, *old(r), *final(r)),
{
    proof {
        reveal(dui_at);
    }
    if temporal_id > bp.bp_max_sublayers_minus1 {
        return Err(BitstreamError::invalid("decoding_unit_info TemporalId exceeds bp_max_sublayers_minus1"));
    }
    let coded: bool = !bp.bp_du_cpb_params_in_pic_timing_sei_flag;
    let first: u8 = if coded { temporal_id } else { 0 };
    let last: u8 = if coded { bp.bp_max_sublayers_minus1 } else { 0 };
    let du_len: u32 = if coded { bp.bp_du_cpb_removal_delay_increment_length_minus1 as u32 + 1 } else { 0 };
    let dui_decoding_unit_idx: u32 = r.ue()?;
    if !(last <= 7 && du_len <= 32) {
        return Err(
            BitstreamError::invalid(
                "decoding_unit_info with a buffering period whose sublayers or lengths are out of range",
            ),
        );
    }
    let tables = parse_dui_tables(r, du_len, first, last, coded)?;
    let dui_dpb_output_du_delay_present_flag: bool = r.flag_if(
        !bp.bp_du_dpb_params_in_pic_timing_sei_flag,
        false,
    );
    let out_len: u32 = if dui_dpb_output_du_delay_present_flag {
        bp.bp_dpb_output_delay_du_length_minus1 as u32 + 1
    } else {
        0
    };
    if out_len > 32 {
        return Err(
            BitstreamError::invalid(
                "decoding_unit_info with a buffering period whose DU output delay length is out of range",
            ),
        );
    }
    let dui_dpb_output_du_delay: u32 = r.u_if(out_len, dui_dpb_output_du_delay_present_flag, 0);
    Ok(VvcDecodingUnitInfo {
        dui_decoding_unit_idx,
        dui_sublayer_delays_present_flag: tables.0,
        dui_du_cpb_removal_delay_increment: tables.1,
        dui_dpb_output_du_delay_present_flag,
        dui_dpb_output_du_delay,
    })
}

/// Emits `decoding_unit_info()` (§D.5.1), the inverse of [`parse_dui`].
fn write_dui(
    w: &mut BitWriter,
    x: &VvcDecodingUnitInfo,
    bp: &VvcBufferingPeriod,
    temporal_id: u8,
) -> (res: Result<(), BitstreamError>)
    ensures
        write_is(dui_can(x@, bp@, temporal_id), put_dui(old(w)@, x@, bp@, temporal_id), res, final(w)@),
{
    proof {
        reveal(put_dui);
        reveal(dui_can);
    }
    if temporal_id > bp.bp_max_sublayers_minus1 {
        return Err(BitstreamError::invalid("decoding_unit_info TemporalId exceeds bp_max_sublayers_minus1"));
    }
    let coded: bool = !bp.bp_du_cpb_params_in_pic_timing_sei_flag;
    let first: u8 = if coded { temporal_id } else { 0 };
    let last: u8 = if coded { bp.bp_max_sublayers_minus1 } else { 0 };
    let du_len: u32 = if coded { bp.bp_du_cpb_removal_delay_increment_length_minus1 as u32 + 1 } else { 0 };
    w.write_ue(x.dui_decoding_unit_idx)?;
    if !(last <= 7 && du_len <= 32) {
        return Err(
            BitstreamError::invalid(
                "decoding_unit_info with a buffering period whose sublayers or lengths are out of range",
            ),
        );
    }
    write_dui_tables(w, &(*x), du_len, first, last, coded)?;
    if !(!bp.bp_du_dpb_params_in_pic_timing_sei_flag || !x.dui_dpb_output_du_delay_present_flag) {
        return Err(
            BitstreamError::invalid(
                "dui_dpb_output_du_delay_present_flag is inferred 0 when the BP carries DU DPB params in pic timing (§D.5.1)",
            ),
        );
    }
    w.write_flag_if(x.dui_dpb_output_du_delay_present_flag, !bp.bp_du_dpb_params_in_pic_timing_sei_flag);
    let out_len: u32 = if x.dui_dpb_output_du_delay_present_flag {
        bp.bp_dpb_output_delay_du_length_minus1 as u32 + 1
    } else {
        0
    };
    if out_len > 32 {
        return Err(
            BitstreamError::invalid(
                "decoding_unit_info with a buffering period whose DU output delay length is out of range",
            ),
        );
    }
    if !(!x.dui_dpb_output_du_delay_present_flag || fits_bits(x.dui_dpb_output_du_delay, out_len)) {
        return Err(BitstreamError::invalid("dui_dpb_output_du_delay does not fit its length field"));
    }
    w.write_bits_if(x.dui_dpb_output_du_delay, out_len, x.dui_dpb_output_du_delay_present_flag);
    Ok(())
}

/// Writing `decoding_unit_info()` (§D.5.1) gives back the bits it was read
/// from.
pub broadcast proof fn law_put_dui_at(s: Seq<bool>, p: nat, bp: VvcBufferingPeriodModel, temporal_id: u8)
    ensures
        #[trigger] dui_at(s, p, bp, temporal_id) matches Ok((x, q)) ==> {
            &&& dui_ok(x, bp, temporal_id)
            &&& dui_can(x, bp, temporal_id)
            &&& within(s, q) ==> within(s, p) && put_dui(upto(s, p), x, bp, temporal_id) == upto(s, q)
        },
{
    broadcast use {crate::bits::group_write_read, law_put_dui_tables_at};

    reveal(dui_at);
    reveal(put_dui);
    reveal(dui_ok);
    reveal(dui_can);
}

/// Reading gives back `decoding_unit_info()` (§D.5.1) as it was written.
pub broadcast proof fn law_pre_put_dui(
    a: Seq<bool>,
    x: VvcDecodingUnitInfoModel,
    bp: VvcBufferingPeriodModel,
    temporal_id: u8,
    s: Seq<bool>,
)
    requires
        #[trigger] pre(put_dui(a, x, bp, temporal_id), s),
        dui_ok(x, bp, temporal_id),
    ensures
        pre(a, s),
        dui_can(x, bp, temporal_id),
        dui_at(s, a.len(), bp, temporal_id) == Ok::<(VvcDecodingUnitInfoModel, nat), Fault>(
            (x, put_dui(a, x, bp, temporal_id).len()),
        ),
{
    broadcast use {crate::bits::group_read_written, law_pre_put_dui_tables};

    reveal(dui_at);
    reveal(put_dui);
    reveal(dui_ok);
    reveal(dui_can);
}

/// The layout of `decoding_unit_info()` (§D.5.1): reading at `p` gives `x` and
/// ends at `q` if and only if these elements stand there in this order, and the
/// values are allowed.
pub proof fn law_layout_dui(
    s: Seq<bool>,
    p: nat,
    bp: VvcBufferingPeriodModel,
    temporal_id: u8,
    x: VvcDecodingUnitInfoModel,
    q: nat,
)
    ensures
        dui_at(s, p, bp, temporal_id) == Ok::<(VvcDecodingUnitInfoModel, nat), Fault>((x, q)) <==> ({
            let coded = !bp.bp_du_cpb_params_in_pic_timing_sei_flag;
            let first: u8 = if coded { temporal_id } else { 0 };
            let last: u8 = if coded { bp.bp_max_sublayers_minus1 } else { 0 };
            let du_len = if coded {
                (bp.bp_du_cpb_removal_delay_increment_length_minus1 as u32 + 1) as u32
            } else {
                0
            };
            let out_len = if x.dui_dpb_output_du_delay_present_flag {
                (bp.bp_dpb_output_delay_du_length_minus1 as u32 + 1) as u32
            } else {
                0
            };
            &&& cursor(s, p)
                .ue(x.dui_decoding_unit_idx)
                .part(|p: nat| dui_tables_at(s, p, du_len, first, last, coded), x.tables)
                .flag_if(
                    !bp.bp_du_dpb_params_in_pic_timing_sei_flag,
                    x.dui_dpb_output_du_delay_present_flag,
                    false,
                )
                .u32_if(x.dui_dpb_output_du_delay_present_flag, out_len as nat, x.dui_dpb_output_du_delay, 0)
                .ends(q)
            &&& temporal_id <= bp.bp_max_sublayers_minus1
            &&& last <= 7 && du_len <= 32
            &&& out_len <= 32
        }),
{
    reveal(dui_at);
    reveal(adv_if);
    reveal(flag_if);
    reveal(u32_if);
}

/// Reading `decoding_unit_info()` (§D.5.1) fails only with an error of this
/// class.
pub broadcast proof fn law_faults_dui(s: Seq<bool>, p: nat, bp: VvcBufferingPeriodModel, temporal_id: u8)
    ensures
        #[trigger] dui_at(s, p, bp, temporal_id) matches Err(f) ==> f == Fault::Invalid,
{
    broadcast use {crate::bits::law_faults_ue, law_faults_dui_tables};

    reveal(dui_at);
}

/// What the writer accepts reads back: `decoding_unit_info()` (§D.5.1), where
/// each field fits its width and what is not coded has the value that is taken
/// for it.
pub proof fn law_reads_dui(
    a: Seq<bool>,
    x: VvcDecodingUnitInfoModel,
    bp: VvcBufferingPeriodModel,
    temporal_id: u8,
    s: Seq<bool>,
)
    requires
        dui_can(x, bp, temporal_id),
        ({
            let coded = !bp.bp_du_cpb_params_in_pic_timing_sei_flag;
            let first = if coded { temporal_id } else { 0 };
            let last = if coded { bp.bp_max_sublayers_minus1 } else { 0 };
            let du_len = if coded {
                (bp.bp_du_cpb_removal_delay_increment_length_minus1 as u32 + 1) as u32
            } else {
                0
            };
            &&& dui_tables_ok(x.tables, du_len, first, last, coded)
            &&& (
                !(!bp.bp_du_dpb_params_in_pic_timing_sei_flag)
                    ==> x.dui_dpb_output_du_delay_present_flag == false
            )
            &&& (!x.dui_dpb_output_du_delay_present_flag ==> x.dui_dpb_output_du_delay == 0)
        }),
        pre(put_dui(a, x, bp, temporal_id), s),
    ensures
        dui_at(s, a.len(), bp, temporal_id) == Ok::<(VvcDecodingUnitInfoModel, nat), Fault>(
            (x, put_dui(a, x, bp, temporal_id).len()),
        ),
{
    assert(dui_ok(x, bp, temporal_id)) by {
        broadcast use crate::bits::law_fits_small;

        reveal(dui_ok);
        reveal(dui_can);
    }
    law_pre_put_dui(a, x, bp, temporal_id, s);
}

/// Each field of the model of a [`VvcDecodingUnitInfo`] is the field of that name.
pub proof fn law_view_dui(x: VvcDecodingUnitInfo)
    ensures
        x@.dui_decoding_unit_idx == x.dui_decoding_unit_idx,
        x@.tables == (x.dui_sublayer_delays_present_flag@, x.dui_du_cpb_removal_delay_increment@),
        x@.dui_dpb_output_du_delay_present_flag == x.dui_dpb_output_du_delay_present_flag,
        x@.dui_dpb_output_du_delay == x.dui_dpb_output_du_delay,
{
}

/// The decoding_unit_info that the message `m` holds.
pub open spec fn dui_of(
    m: SeiMessageModel,
    bp: VvcBufferingPeriodModel,
    temporal_id: u8,
) -> Result<VvcDecodingUnitInfoModel, Fault> {
    if m.payload_type != SEI_TYPE_DECODING_UNIT_INFO {
        Err(Fault::Invalid)
    } else {
        payload_read(bits_of(m.payload), dui_at(bits_of(m.payload), 0, bp, temporal_id))
    }
}

/// The bits of the payload that holds `x`.
pub open spec fn dui_payload(
    x: VvcDecodingUnitInfoModel,
    bp: VvcBufferingPeriodModel,
    temporal_id: u8,
) -> Seq<bool> {
    put_payload_end(put_dui(Seq::empty(), x, bp, temporal_id))
}

/// Decode a `decoding_unit_info()` payload (§D.5.1) against its
/// applicable buffering period and the SEI NAL's `TemporalId`.
pub fn decode_decoding_unit_info(
    msg: &SeiMessage,
    bp: &VvcBufferingPeriod,
    temporal_id: u8,
) -> (res: Result<VvcDecodingUnitInfo, BitstreamError>)
    ensures
        nal_read_is(dui_of(msg@, bp@, temporal_id), res),
{
    if msg.payload_type != SEI_TYPE_DECODING_UNIT_INFO {
        return Err(
            Message::new("expected decoding_unit_info payloadType ")
                .num(SEI_TYPE_DECODING_UNIT_INFO as i128)
                .with(", got ")
                .num(msg.payload_type as i128)
                .invalid(),
        );
    }
    let mut r = BitReader::new(msg.payload.as_slice());
    let x = parse_dui(&mut r, bp, temporal_id)?;
    read_payload_alignment(&mut r, "decoding_unit_info")?;
    Ok(x)
}

/// Encode a `decoding_unit_info()` into a framed [`SeiMessage`], the
/// byte-exact inverse of [`decode_decoding_unit_info`] under the same
/// context.
pub fn encode_decoding_unit_info(
    x: &VvcDecodingUnitInfo,
    bp: &VvcBufferingPeriod,
    temporal_id: u8,
) -> (res: Result<SeiMessage, BitstreamError>)
    ensures
        payload_write_is(
            dui_can(x@, bp@, temporal_id),
            SEI_TYPE_DECODING_UNIT_INFO,
            dui_payload(x@, bp@, temporal_id),
            res,
        ),
{
    let mut w = BitWriter::new();
    write_dui(&mut w, x, bp, temporal_id)?;
    Ok(SeiMessage { payload_type: SEI_TYPE_DECODING_UNIT_INFO, payload: finish_payload(w) })
}

/// A decoding_unit_info message is one of type 130, whose payload is its
/// fields and the closing bits.
pub proof fn law_dui_message(
    m: SeiMessageModel,
    bp: VvcBufferingPeriodModel,
    temporal_id: u8,
    x: VvcDecodingUnitInfoModel,
)
    ensures
        dui_of(m, bp, temporal_id) == Ok::<VvcDecodingUnitInfoModel, Fault>(x) <==> ({
            let s = bits_of(m.payload);
            let c = cursor(s, 0).part(|p: nat| dui_at(s, p, bp, temporal_id), x);
            &&& m.payload_type == 130
            &&& c.good && c.pos <= s.len()
            &&& s == put_payload_end(upto(s, c.pos))
        }),
        m.payload_type != 130
            ==> dui_of(m, bp, temporal_id) == Err::<VvcDecodingUnitInfoModel, Fault>(Fault::Invalid),
{
}

/// [`decode_decoding_unit_info`] gives the value that the message holds, or an error of its class,
/// and [`encode_decoding_unit_info`] the message of type 130 with the bits of the value and
/// the closing bits.
pub proof fn law_decode_decoding_unit_info(
    m: SeiMessage, bp: &VvcBufferingPeriod, temporal_id: u8,
    x: VvcDecodingUnitInfo,
    decoded: Result<VvcDecodingUnitInfo, BitstreamError>,
    encoded: Result<SeiMessage, BitstreamError>,
)
    requires
        call_ensures(decode_decoding_unit_info, (&m, bp, temporal_id), decoded),
        call_ensures(encode_decoding_unit_info, (&x, bp, temporal_id), encoded),
    ensures
        match decoded {
            Ok(v) => dui_of(m@, bp@, temporal_id) == Ok::<VvcDecodingUnitInfoModel, Fault>(v@),
            Err(e) => dui_of(m@, bp@, temporal_id) == Err::<VvcDecodingUnitInfoModel, Fault>(e.fault()),
        },
        match encoded {
            Ok(n) => {
                &&& dui_can(x@, bp@, temporal_id)
                &&& n.payload_type == 130
                &&& bits_of(n.payload@) == put_payload_end(put_dui(Seq::empty(), x@, bp@, temporal_id))
            },
            Err(e) => !dui_can(x@, bp@, temporal_id) && e.fault() == Fault::Invalid,
        },
{
}

/// Encoding what was decoded gives back the payload.
pub proof fn law_encode_decoded_dui(m: SeiMessageModel, bp: VvcBufferingPeriodModel, temporal_id: u8)
    requires
        m.payload.len() <= usize::MAX,
    ensures
        dui_of(m, bp, temporal_id) matches Ok(x) ==> {
            &&& dui_ok(x, bp, temporal_id)
            &&& dui_can(x, bp, temporal_id)
            &&& dui_payload(x, bp, temporal_id) == bits_of(m.payload)
            &&& forall|out: Seq<u8>| bits_of(out) == dui_payload(x, bp, temporal_id) ==> out == m.payload
        },
{
    let s = bits_of(m.payload);
    lemma_bits_of_len(m.payload);
    if let Ok((x, p)) = dui_at(s, 0, bp, temporal_id) {
        if payload_end_at(s, p) is Ok {
            law_put_dui_at(s, 0, bp, temporal_id);
            lemma_payload_end(s, p);
            assert(upto(s, 0) =~= Seq::empty()) by {
                reveal(upto);
            }
            assert forall|out: Seq<u8>| bits_of(out) == dui_payload(x, bp, temporal_id) implies out == m.payload by {
                lemma_bits_of_injective(out, m.payload);
            }
        }
    }
}

/// Decoding what was encoded gives back the value.
pub proof fn law_decode_encoded_dui(
    x: VvcDecodingUnitInfoModel,
    m: SeiMessageModel,
    bp: VvcBufferingPeriodModel,
    temporal_id: u8,
)
    requires
        dui_ok(x, bp, temporal_id),
        m.payload_type == SEI_TYPE_DECODING_UNIT_INFO,
        bits_of(m.payload) == dui_payload(x, bp, temporal_id),
        m.payload.len() <= usize::MAX,
    ensures
        dui_can(x, bp, temporal_id),
        dui_of(m, bp, temporal_id) == Ok::<VvcDecodingUnitInfoModel, Fault>(x),
{
    let s = bits_of(m.payload);
    lemma_bits_of_len(m.payload);
    lemma_payload_closed(put_dui(Seq::empty(), x, bp, temporal_id), s);
    law_pre_put_dui(Seq::empty(), x, bp, temporal_id, s);
}

// ─────────────────────────── SEI manifest / prefix (§D.8/§D.9) ──────────────

/// `sei_manifest()` (§D.8.1): `(payloadType, description)` pairs.
/// Description values per §D.8.2: 0 unknown, 1 necessary,
/// 2 unnecessary, 3 undetermined (4..=255 reserved).
#[derive(Debug, Clone, Default, PartialEq, Eq)]
pub struct VvcSeiManifest {
    pub entries: Vec<(u16, u8)>,
}

/// A manifest entry at position `p`.
#[verifier::opaque]
pub open spec fn manifest_entry_at(s: Seq<bool>, p: nat) -> Read<(u16, u8)> {
    let t = u16_at(s, p, 16);
    let p = adv(p, 16);
    let d = u8_at(s, p, 8);
    let p = adv(p, 8);
    Ok(((t, d), p))
}

/// The bits `a` followed by a manifest entry.
#[verifier::opaque]
pub open spec fn put_manifest_entry(a: Seq<bool>, x: (u16, u8)) -> Seq<bool> {
    let a = put_u(a, x.0 as nat, 16);
    let a = put_u(a, x.1 as nat, 8);
    a
}

/// The values of a manifest entry that reading can give.
#[verifier::opaque]
pub open spec fn manifest_entry_ok(x: (u16, u8)) -> bool {
    &&& fits(x.0 as nat, 16)
    &&& fits(x.1 as nat, 8)
}

/// The values of a manifest entry that the writer accepts.
#[verifier::opaque]
pub open spec fn manifest_entry_can(x: (u16, u8)) -> bool {
    true
}

/// Parses a manifest entry.
fn parse_manifest_entry(r: &mut BitReader<'_>) -> (res: Result<(u16, u8), BitstreamError>)
    ensures
        read_is(manifest_entry_at(old(r).bits(), old(r).pos()), res, *old(r), *final(r)),
{
    proof {
        reveal(manifest_entry_at);
    }
    let t: u16 = r.u16(16);
    let d: u8 = r.u8(8);
    Ok((t, d))
}

/// Emits a manifest entry, the inverse of [`parse_manifest_entry`].
fn write_manifest_entry(w: &mut BitWriter, x: &(u16, u8)) -> (res: Result<(), BitstreamError>)
    ensures
        write_is(manifest_entry_can(*x), put_manifest_entry(old(w)@, *x), res, final(w)@),
{
    proof {
        reveal(put_manifest_entry);
        reveal(manifest_entry_can);
    }
    w.write_bits(x.0 as u32, 16);
    w.write_bits(x.1 as u32, 8);
    Ok(())
}

/// Writing a manifest entry gives back the bits it was read from.
pub broadcast proof fn law_put_manifest_entry_at(s: Seq<bool>, p: nat)
    ensures
        #[trigger] manifest_entry_at(s, p) matches Ok((x, q)) ==> {
            &&& manifest_entry_ok(x)
            &&& manifest_entry_can(x)
            &&& within(s, q) ==> within(s, p) && put_manifest_entry(upto(s, p), x) == upto(s, q)
        },
{
    broadcast use crate::bits::group_write_read;

    reveal(manifest_entry_at);
    reveal(put_manifest_entry);
    reveal(manifest_entry_ok);
    reveal(manifest_entry_can);
}

/// Reading gives back a manifest entry as it was written.
pub broadcast proof fn law_pre_put_manifest_entry(a: Seq<bool>, x: (u16, u8), s: Seq<bool>)
    requires
        #[trigger] pre(put_manifest_entry(a, x), s),
        manifest_entry_ok(x),
    ensures
        pre(a, s),
        manifest_entry_can(x),
        manifest_entry_at(s, a.len()) == Ok::<((u16, u8), nat), Fault>((x, put_manifest_entry(a, x).len())),
{
    broadcast use crate::bits::group_read_written;

    reveal(manifest_entry_at);
    reveal(put_manifest_entry);
    reveal(manifest_entry_ok);
    reveal(manifest_entry_can);
}

/// The layout of a manifest entry: reading at `p` gives `x` and ends at `q` if
/// and only if these elements stand there in this order.
pub proof fn law_layout_manifest_entry(s: Seq<bool>, p: nat, x: (u16, u8), q: nat)
    ensures
        manifest_entry_at(s, p) == Ok::<((u16, u8), nat), Fault>((x, q)) <==> cursor(s, p)
            .u16(16, x.0)
            .u8(8, x.1)
            .ends(q),
{
    reveal(manifest_entry_at);
}

/// Reading a manifest entry never fails.
pub broadcast proof fn law_faults_manifest_entry(s: Seq<bool>, p: nat)
    ensures
        #[trigger] manifest_entry_at(s, p) is Ok,
{
    reveal(manifest_entry_at);
}

/// What the writer accepts reads back: a manifest entry, where each field fits
/// its width and what is not coded has the value that is taken for it.
pub proof fn law_reads_manifest_entry(a: Seq<bool>, x: (u16, u8), s: Seq<bool>)
    requires
        manifest_entry_can(x),
        fits(x.0 as nat, 16),
        fits(x.1 as nat, 8),
        pre(put_manifest_entry(a, x), s),
    ensures
        manifest_entry_at(s, a.len()) == Ok::<((u16, u8), nat), Fault>((x, put_manifest_entry(a, x).len())),
{
    assert(manifest_entry_ok(x)) by {
        broadcast use crate::bits::law_fits_small;

        reveal(manifest_entry_ok);
        reveal(manifest_entry_can);
    }
    law_pre_put_manifest_entry(a, x, s);
}

/// Reads a manifest entry, behind the items before it.
pub open spec fn manifest_entries_item(s: Seq<bool>) -> spec_fn(Seq<(u16, u8)>, nat) -> Read<(u16, u8)> {
    |done: Seq<(u16, u8)>, q: nat| manifest_entry_at(s, q)
}

/// Writes a manifest entry, behind the items before it.
pub open spec fn put_manifest_entries_item() -> spec_fn(Seq<bool>, Seq<(u16, u8)>, (u16, u8)) -> Seq<bool> {
    |a: Seq<bool>, done: Seq<(u16, u8)>, x: (u16, u8)| put_manifest_entry(a, x)
}

/// Whether a manifest entry may follow the items before it.
pub open spec fn manifest_entries_item_ok() -> spec_fn(Seq<(u16, u8)>, (u16, u8)) -> bool {
    |done: Seq<(u16, u8)>, x: (u16, u8)| manifest_entry_ok(x) && manifest_entry_can(x)
}

/// `n` items at position `p`, each a manifest entry.
#[verifier::opaque]
pub open spec fn manifest_entries_at(s: Seq<bool>, p: nat, n: u64) -> Read<Seq<(u16, u8)>> {
    rep_at(manifest_entries_item(s), p, n as nat)
}

/// The bits `a` followed by the items.
#[verifier::opaque]
pub open spec fn put_manifest_entries(a: Seq<bool>, xs: Seq<(u16, u8)>, n: u64) -> Seq<bool> {
    put_rep(put_manifest_entries_item(), a, xs)
}

/// `n` items that reading can give.
#[verifier::opaque]
pub open spec fn manifest_entries_ok(xs: Seq<(u16, u8)>, n: u64) -> bool {
    xs.len() == n
        && forall|i: int| 0 <= i < xs.len()
        ==> manifest_entry_ok(#[trigger] xs[i])
        && manifest_entry_can(xs[i])
}

/// `n` items that the writer accepts.
#[verifier::opaque]
pub open spec fn manifest_entries_can(xs: Seq<(u16, u8)>, n: u64) -> bool {
    xs.len() == n && forall|i: int| 0 <= i < xs.len() ==> manifest_entry_can(#[trigger] xs[i])
}

/// Parses `n` items, each a manifest entry.
fn parse_manifest_entries(r: &mut BitReader<'_>, n: u64) -> (res: Result<Vec<(u16, u8)>, BitstreamError>)
    ensures
        read_vec_is(manifest_entries_at(old(r).bits(), old(r).pos(), n), res, *old(r), *final(r)),
        res matches Ok(v) ==> v@.len() == n,
{
    let ghost s = r.bits();
    let ghost p = r.pos();
    let ghost reads = manifest_entries_item(s);
    let mut xs: Vec<(u16, u8)> = Vec::new();
    let mut i: u64 = 0;
    proof {
        reveal(manifest_entries_at);
    }
    while i < n
        invariant
            i <= n,
            xs@.len() == i,
            reads == manifest_entries_item(s),
            s == r.bits(),
            s == old(r).bits(),
            p == old(r).pos(),
            r.bytes() == old(r).bytes(),
            rep_at(reads, p, i as nat) == Ok::<(Seq<(u16, u8)>, nat), Fault>((xs@, r.pos())),
        decreases n - i,
    {
        match parse_manifest_entry(r) {
            Ok(x) => {
                xs.push(x);
            },
            Err(e) => {
                proof {
                    reveal(manifest_entries_at);
                    lemma_rep_err(reads, p, (i + 1) as nat, n as nat);
                }
                return Err(e);
            },
        }
        i = i + 1;
    }
    Ok(xs)
}

/// Emits `n` items, each a manifest entry.
fn write_manifest_entries(w: &mut BitWriter, xs: &Vec<(u16, u8)>, n: u64) -> (res: Result<(), BitstreamError>)
    ensures
        write_is(manifest_entries_can(xs@, n), put_manifest_entries(old(w)@, xs@, n), res, final(w)@),
        res is Ok ==> xs@.len() == n,
{
    let ghost before = w@;
    let ghost puts = put_manifest_entries_item();
    let ghost ys = xs@;
    proof {
        reveal(put_manifest_entries);
        reveal(manifest_entries_can);
        assert(ys.take(0) =~= Seq::empty());
    }
    if xs.len() as u64 != n {
        return Err(BitstreamError::invalid("unexpected number of entries"));
    }
    let mut i: usize = 0;
    while i < xs.len()
        invariant
            i <= xs@.len(),
            xs@.len() == n,
            ys == xs@,
            ys.len() == xs@.len(),
            before == old(w)@,
            puts == put_manifest_entries_item(),
            w@ == put_rep(puts, before, ys.take(i as int)),
            forall|j: int| 0 <= j < i ==> manifest_entry_can(#[trigger] ys[j]),
        ensures
            i == xs@.len(),
        decreases xs@.len() - i,
    {
        proof {
            assert(ys.take(i + 1).drop_last() =~= ys.take(i as int));
            assert(ys[i as int] == xs@[i as int]);
        }
        match write_manifest_entry(w, &xs[i]) {
            Ok(()) => {},
            Err(e) => {
                proof {
                    reveal(manifest_entries_can);
                }
                return Err(e);
            },
        }
        i = i + 1;
    }
    proof {
        assert(ys.take(i as int) =~= ys);
    }
    Ok(())
}

/// Writing what was read gives back the bits that were read.
pub broadcast proof fn law_put_manifest_entries_at(s: Seq<bool>, p: nat, n: u64)
    ensures
        #[trigger] manifest_entries_at(s, p, n) matches Ok((xs, q)) ==> {
            &&& xs.len() == n
            &&& manifest_entries_ok(xs, n)
            &&& manifest_entries_can(xs, n)
            &&& within(s, q) ==> within(s, p) && put_manifest_entries(upto(s, p), xs, n) == upto(s, q)
        },
{
    broadcast use law_put_manifest_entry_at;

    reveal(manifest_entries_at);
    reveal(put_manifest_entries);
    reveal(manifest_entries_ok);
    reveal(manifest_entries_can);
    let ok = manifest_entries_item_ok();
    law_put_rep_at(s, manifest_entries_item(s), put_manifest_entries_item(), ok, p, n as nat);
    if let Ok((xs, q)) = manifest_entries_at(s, p, n) {
        assert forall|i: int| 0 <= i < xs.len() implies ok(xs.take(i), #[trigger] xs[i]) by {}
    }
}

/// What was written reads back as the items that were written.
pub broadcast proof fn law_pre_put_manifest_entries(a: Seq<bool>, xs: Seq<(u16, u8)>, n: u64, s: Seq<bool>)
    requires
        #[trigger] pre(put_manifest_entries(a, xs, n), s),
        manifest_entries_ok(xs, n),
    ensures
        pre(a, s),
        manifest_entries_can(xs, n),
        manifest_entries_at(s, a.len(), n) == Ok::<(Seq<(u16, u8)>, nat), Fault>(
            (xs, put_manifest_entries(a, xs, n).len()),
        ),
{
    broadcast use law_pre_put_manifest_entry;

    reveal(manifest_entries_at);
    reveal(put_manifest_entries);
    reveal(manifest_entries_ok);
    reveal(manifest_entries_can);
    law_rep_at_put(
        s,
        manifest_entries_item(s),
        put_manifest_entries_item(),
        manifest_entries_item_ok(),
        a,
        xs,
    );
}

/// `n` items stand one behind the other: `n - 1` items, and then a manifest
/// entry.
pub proof fn law_layout_manifest_entries(s: Seq<bool>, p: nat, n: u64, xs: Seq<(u16, u8)>, q: nat)
    ensures
        manifest_entries_at(s, p, n) == Ok::<(Seq<(u16, u8)>, nat), Fault>((xs, q)) <==> if n == 0 {
            xs.len() == 0 && q == p
        } else {
            &&& xs.len() == n
            &&& cursor(s, p)
                .part(|p: nat| manifest_entries_at(s, p, (n - 1) as u64), xs.drop_last())
                .part(|p: nat| manifest_entry_at(s, p), xs.last())
                .ends(q)
        },
{
    reveal(manifest_entries_at);
    lemma_rep_step(manifest_entries_item(s), p, n as nat);
    if xs.len() == 0 {
        assert(xs =~= Seq::empty());
    } else {
        assert(xs =~= xs.drop_last().push(xs.last()));
    }
    if n > 0 {
        if let Ok((done, r)) = rep_at(manifest_entries_item(s), p, (n - 1) as nat) {
            if let Ok((y, z)) = manifest_entries_item(s)(done, r) {
                assert(done.push(y).drop_last() =~= done);
            }
        }
    }
}

/// What the writer accepts as `n` items reads back, where each of them is one that
/// reading can give.
pub proof fn law_reads_manifest_entries(a: Seq<bool>, xs: Seq<(u16, u8)>, n: u64, s: Seq<bool>)
    requires
        manifest_entries_can(xs, n),
        forall|i: int| 0 <= i < xs.len() ==> manifest_entry_ok(#[trigger] xs[i]),
        pre(put_manifest_entries(a, xs, n), s),
    ensures
        xs.len() == n,
        manifest_entries_at(s, a.len(), n) == Ok::<(Seq<(u16, u8)>, nat), Fault>(
            (xs, put_manifest_entries(a, xs, n).len()),
        ),
{
    reveal(manifest_entries_can);
    assert(manifest_entries_ok(xs, n)) by {
        reveal(manifest_entries_ok);
    }
    law_pre_put_manifest_entries(a, xs, n, s);
}

/// Reading the items never fails.
pub broadcast proof fn law_faults_manifest_entries(s: Seq<bool>, p: nat, n: u64)
    ensures
        #[trigger] manifest_entries_at(s, p, n) is Ok,
{
    broadcast use law_faults_manifest_entry;

    reveal(manifest_entries_at);
    let f = manifest_entries_item(s);
    assert forall|done: Seq<(u16, u8)>, q: nat| (#[trigger] f(done, q)) is Ok by {}
    lemma_rep_faults_none(f, p, n as nat);
}

proof fn lemma_manifest_grows(a: Seq<bool>, xs: Seq<(u16, u8)>)
    ensures
        put_manifest_entries(a, xs, xs.len() as u64).len() >= a.len() + 24 * xs.len(),
{
    reveal(put_manifest_entries);
    let g = put_manifest_entries_item();
    assert forall|b: Seq<bool>, d: Seq<(u16, u8)>, x: (u16, u8)| (#[trigger] g(b, d, x)).len() >= b.len() + 24 by {
        reveal(put_manifest_entry);
        lemma_put_u_shape(b, x.0 as nat, 16);
        lemma_put_u_shape(put_u(b, x.0 as nat, 16), x.1 as nat, 8);
    }
    lemma_put_rep_grows(g, a, xs, 24);
}

/// The mathematical model of a [`VvcSeiManifest`].
pub struct VvcSeiManifestModel {
    pub entries: Seq<(u16, u8)>,
}

impl View for VvcSeiManifest {
    type V = VvcSeiManifestModel;

    open spec fn view(&self) -> VvcSeiManifestModel {
        VvcSeiManifestModel {
            entries: self.entries@,
        }
    }
}

/// `sei_manifest()` (§D.8.1) at position `p`.
#[verifier::opaque]
pub open spec fn manifest_at(s: Seq<bool>, p: nat) -> Read<VvcSeiManifestModel> {
    let num = u32_at(s, p, 16);
    let p = adv(p, 16);
    if 24 * num > bits_left(s, p) { Err(Fault::End) } else {
    match manifest_entries_at(s, p, num as u64) { Err(f) => Err(f), Ok((entries, p)) => {
    Ok((VvcSeiManifestModel { entries }, p))
    }}}
}

/// The bits `a` followed by `sei_manifest()` (§D.8.1).
#[verifier::opaque]
pub open spec fn put_manifest(a: Seq<bool>, x: VvcSeiManifestModel) -> Seq<bool> {
    let num = x.entries.len() as u32;
    let a = put_u(a, num as nat, 16);
    let a = put_manifest_entries(a, x.entries, num as u64);
    a
}

/// The values of `sei_manifest()` (§D.8.1) that reading can give.
#[verifier::opaque]
pub open spec fn manifest_ok(x: VvcSeiManifestModel) -> bool {
    &&& x.entries.len() <= 65535
    &&& {
        let num = x.entries.len() as u32;
        &&& fits(num as nat, 16)
        &&& manifest_entries_ok(x.entries, num as u64)
    }
}

/// The values of `sei_manifest()` (§D.8.1) that the writer accepts.
#[verifier::opaque]
pub open spec fn manifest_can(x: VvcSeiManifestModel) -> bool {
    &&& x.entries.len() <= 65535
    &&& {
        let num = x.entries.len() as u32;
        &&& manifest_entries_can(x.entries, num as u64)
    }
}

/// Parses `sei_manifest()` (§D.8.1).
fn parse_manifest(r: &mut BitReader<'_>) -> (res: Result<VvcSeiManifest, BitstreamError>)
    ensures
        read_view_is(manifest_at(old(r).bits(), old(r).pos()), res, *old(r), *final(r)),
{
    proof {
        reveal(manifest_at);
    }
    let num: u32 = r.u(16);
    if 24 * num as u128 > r.bits_remaining() {
        return Err(BitstreamError::unexpected_end("manifest_num_sei_msg_types exceeds remaining payload"));
    }
    let entries = parse_manifest_entries(r, num as u64)?;
    Ok(VvcSeiManifest { entries })
}

/// Emits `sei_manifest()` (§D.8.1), the inverse of [`parse_manifest`].
fn write_manifest(w: &mut BitWriter, x: &VvcSeiManifest) -> (res: Result<(), BitstreamError>)
    ensures
        write_is(manifest_can(x@), put_manifest(old(w)@, x@), res, final(w)@),
{
    proof {
        reveal(put_manifest);
        reveal(manifest_can);
    }
    if !(x.entries.len() <= 65535) {
        return Err(BitstreamError::invalid("sei_manifest entry count does not fit u(16)"));
    }
    let num: u32 = x.entries.len() as u32;
    w.write_bits(num, 16);
    write_manifest_entries(w, &x.entries, num as u64)?;
    Ok(())
}

/// Writing `sei_manifest()` (§D.8.1) gives back the bits it was read from.
pub broadcast proof fn law_put_manifest_at(s: Seq<bool>, p: nat)
    ensures
        #[trigger] manifest_at(s, p) matches Ok((x, q)) ==> {
            &&& manifest_ok(x)
            &&& manifest_can(x)
            &&& within(s, q) ==> within(s, p) && put_manifest(upto(s, p), x) == upto(s, q)
        },
{
    broadcast use {crate::bits::group_write_read, law_put_manifest_entries_at};

    reveal(manifest_at);
    reveal(put_manifest);
    reveal(manifest_ok);
    reveal(manifest_can);
}

/// Reading gives back `sei_manifest()` (§D.8.1) as it was written.
pub broadcast proof fn law_pre_put_manifest(a: Seq<bool>, x: VvcSeiManifestModel, s: Seq<bool>)
    requires
        #[trigger] pre(put_manifest(a, x), s),
        manifest_ok(x),
    ensures
        pre(a, s),
        manifest_can(x),
        manifest_at(s, a.len()) == Ok::<(VvcSeiManifestModel, nat), Fault>((x, put_manifest(a, x).len())),
{
    broadcast use {crate::bits::group_read_written, law_pre_put_manifest_entries};

    reveal(manifest_at);
    reveal(put_manifest);
    reveal(manifest_ok);
    reveal(manifest_can);
    let a1 = put_u(a, x.entries.len() as nat, 16);
    lemma_manifest_grows(a1, x.entries);
    assert(bits_left(s, a1.len()) >= 24 * x.entries.len()) by {
        reveal(pre);
    }
}

/// The layout of `sei_manifest()` (§D.8.1): reading at `p` gives `x` and ends
/// at `q` if and only if these elements stand there in this order.
pub proof fn law_layout_manifest(s: Seq<bool>, p: nat, x: VvcSeiManifestModel, q: nat)
    ensures
        manifest_at(s, p) == Ok::<(VvcSeiManifestModel, nat), Fault>((x, q)) <==> ({
            let c = cursor(s, p);
            let num = c.next_u32(16);
            &&& c
                .u32(16, num)
                .room(24 * num)
                .part(|p: nat| manifest_entries_at(s, p, num as u64), x.entries)
                .ends(q)
        }),
{
    reveal(manifest_at);
}

/// What reads as `sei_manifest()` (§D.8.1) up to this point, and meets the last
/// condition, is refused as too short.
pub proof fn law_refused_manifest(s: Seq<bool>, p: nat, x: VvcSeiManifestModel)
    ensures
        ({
            let c = cursor(s, p);
            let num = c.next_u32(16);
            let c = c.u32(16, num);
            &&& c.good
            &&& 24 * num > bits_left(s, c.pos)
        }) ==> manifest_at(s, p) == Err::<(VvcSeiManifestModel, nat), Fault>(Fault::End),
{
    reveal(manifest_at);
}

/// Reading `sei_manifest()` (§D.8.1) fails only with an error of this class.
pub broadcast proof fn law_faults_manifest(s: Seq<bool>, p: nat)
    ensures
        #[trigger] manifest_at(s, p) matches Err(f) ==> f == Fault::End,
{
    broadcast use law_faults_manifest_entries;

    reveal(manifest_at);
}

/// What the writer accepts reads back: `sei_manifest()` (§D.8.1), where each
/// field fits its width and what is not coded has the value that is taken for
/// it.
pub proof fn law_reads_manifest(a: Seq<bool>, x: VvcSeiManifestModel, s: Seq<bool>)
    requires
        manifest_can(x),
        ({
            let num = x.entries.len() as u32;
            &&& manifest_entries_ok(x.entries, num as u64)
        }),
        pre(put_manifest(a, x), s),
    ensures
        manifest_at(s, a.len()) == Ok::<(VvcSeiManifestModel, nat), Fault>((x, put_manifest(a, x).len())),
{
    assert(manifest_ok(x)) by {
        broadcast use crate::bits::law_fits_small;

        reveal(manifest_ok);
        reveal(manifest_can);
    }
    law_pre_put_manifest(a, x, s);
}

/// Each field of the model of a [`VvcSeiManifest`] is the field of that name.
pub proof fn law_view_manifest(x: VvcSeiManifest)
    ensures
        x@.entries == x.entries@,
{
}

/// The sei_manifest that the message `m` holds.
pub open spec fn manifest_of(m: SeiMessageModel) -> Result<VvcSeiManifestModel, Fault> {
    if m.payload_type != SEI_TYPE_SEI_MANIFEST {
        Err(Fault::Invalid)
    } else {
        payload_read(bits_of(m.payload), manifest_at(bits_of(m.payload), 0))
    }
}

/// The bits of the payload that holds `x`.
pub open spec fn manifest_payload(x: VvcSeiManifestModel) -> Seq<bool> {
    put_payload_end(put_manifest(Seq::empty(), x))
}

/// Decode a `sei_manifest()` payload (§D.8.1).
pub fn decode_sei_manifest(msg: &SeiMessage) -> (res: Result<VvcSeiManifest, BitstreamError>)
    ensures
        nal_read_is(manifest_of(msg@), res),
{
    if msg.payload_type != SEI_TYPE_SEI_MANIFEST {
        return Err(
            Message::new("expected sei_manifest payloadType ")
                .num(SEI_TYPE_SEI_MANIFEST as i128)
                .with(", got ")
                .num(msg.payload_type as i128)
                .invalid(),
        );
    }
    let mut r = BitReader::new(msg.payload.as_slice());
    let x = parse_manifest(&mut r)?;
    read_payload_alignment(&mut r, "sei_manifest")?;
    Ok(x)
}

/// Encode a `sei_manifest()` into a framed [`SeiMessage`], the
/// byte-exact inverse of [`decode_sei_manifest`].
pub fn encode_sei_manifest(x: &VvcSeiManifest) -> (res: Result<SeiMessage, BitstreamError>)
    ensures
        payload_write_is(manifest_can(x@), SEI_TYPE_SEI_MANIFEST, manifest_payload(x@), res),
{
    let mut w = BitWriter::new();
    write_manifest(&mut w, x)?;
    Ok(SeiMessage { payload_type: SEI_TYPE_SEI_MANIFEST, payload: finish_payload(w) })
}

/// A sei_manifest message is one of type 200, whose payload is its
/// fields and the closing bits.
pub proof fn law_manifest_message(m: SeiMessageModel, x: VvcSeiManifestModel)
    ensures
        manifest_of(m) == Ok::<VvcSeiManifestModel, Fault>(x) <==> ({
            let s = bits_of(m.payload);
            let c = cursor(s, 0).part(|p: nat| manifest_at(s, p), x);
            &&& m.payload_type == 200
            &&& c.good && c.pos <= s.len()
            &&& s == put_payload_end(upto(s, c.pos))
        }),
        m.payload_type != 200 ==> manifest_of(m) == Err::<VvcSeiManifestModel, Fault>(Fault::Invalid),
{
}

/// [`decode_sei_manifest`] gives the value that the message holds, or an error of its class,
/// and [`encode_sei_manifest`] the message of type 200 with the bits of the value and
/// the closing bits.
pub proof fn law_decode_sei_manifest(
    m: SeiMessage,
    x: VvcSeiManifest,
    decoded: Result<VvcSeiManifest, BitstreamError>,
    encoded: Result<SeiMessage, BitstreamError>,
)
    requires
        call_ensures(decode_sei_manifest, (&m, ), decoded),
        call_ensures(encode_sei_manifest, (&x, ), encoded),
    ensures
        match decoded {
            Ok(v) => manifest_of(m@) == Ok::<VvcSeiManifestModel, Fault>(v@),
            Err(e) => manifest_of(m@) == Err::<VvcSeiManifestModel, Fault>(e.fault()),
        },
        match encoded {
            Ok(n) => {
                &&& manifest_can(x@)
                &&& n.payload_type == 200
                &&& bits_of(n.payload@) == put_payload_end(put_manifest(Seq::empty(), x@))
            },
            Err(e) => !manifest_can(x@) && e.fault() == Fault::Invalid,
        },
{
}

/// Encoding what was decoded gives back the payload.
pub proof fn law_encode_decoded_manifest(m: SeiMessageModel)
    requires
        m.payload.len() <= usize::MAX,
    ensures
        manifest_of(m) matches Ok(x) ==> {
            &&& manifest_ok(x)
            &&& manifest_can(x)
            &&& manifest_payload(x) == bits_of(m.payload)
            &&& forall|out: Seq<u8>| bits_of(out) == manifest_payload(x) ==> out == m.payload
        },
{
    let s = bits_of(m.payload);
    lemma_bits_of_len(m.payload);
    if let Ok((x, p)) = manifest_at(s, 0) {
        if payload_end_at(s, p) is Ok {
            law_put_manifest_at(s, 0);
            lemma_payload_end(s, p);
            assert(upto(s, 0) =~= Seq::empty()) by {
                reveal(upto);
            }
            assert forall|out: Seq<u8>| bits_of(out) == manifest_payload(x) implies out == m.payload by {
                lemma_bits_of_injective(out, m.payload);
            }
        }
    }
}

/// Decoding what was encoded gives back the value.
pub proof fn law_decode_encoded_manifest(x: VvcSeiManifestModel, m: SeiMessageModel)
    requires
        manifest_ok(x),
        m.payload_type == SEI_TYPE_SEI_MANIFEST,
        bits_of(m.payload) == manifest_payload(x),
        m.payload.len() <= usize::MAX,
    ensures
        manifest_can(x),
        manifest_of(m) == Ok::<VvcSeiManifestModel, Fault>(x),
{
    let s = bits_of(m.payload);
    lemma_bits_of_len(m.payload);
    lemma_payload_closed(put_manifest(Seq::empty(), x), s);
    law_pre_put_manifest(Seq::empty(), x, s);
}

/// `sei_prefix_indication()` (§D.9.1): bit-string prefixes of an SEI
/// payload of type `prefix_sei_payload_type`.
#[derive(Debug, Clone, Default, PartialEq, Eq)]
pub struct VvcSeiPrefixIndication {
    pub prefix_sei_payload_type: u16,
    /// Each indication is a bit string; stored as the bit values in
    /// coded order (1..=65536 bits each per the u(16) length field).
    pub indications: Vec<Vec<bool>>,
}

/// The bits of a prefix indication at position `p`.
#[verifier::opaque]
pub open spec fn prefix_flags_at(s: Seq<bool>, p: nat) -> Read<Seq<bool>> {
    let num = u32_at(s, p, 16);
    let p = adv(p, 16);
    let count = (num as u64 + 1) as u64;
    if count as int > bits_left(s, p) { Err(Fault::End) } else {
    match flags_at(s, p, count as nat) { Err(f) => Err(f), Ok((v, p)) => {
    Ok((v, p)) }}}
}

/// The bits `a` followed by the bits of a prefix indication.
#[verifier::opaque]
pub open spec fn put_prefix_flags(a: Seq<bool>, x: Seq<bool>) -> Seq<bool> {
    let num = (x.len() - 1) as u32;
    let a = put_u(a, num as nat, 16);
    let a = put_flags(a, x);
    a
}

/// The values of the bits of a prefix indication that reading can give.
#[verifier::opaque]
pub open spec fn prefix_flags_ok(x: Seq<bool>) -> bool {
    &&& 1 <= x.len() && x.len() <= 65536
    &&& {
        let num = (x.len() - 1) as u32;
        &&& fits(num as nat, 16)
        &&& {
            let count = (num as u64 + 1) as u64;
            &&& x.len() == count
            &&& flags_ok(x)
        }
    }
}

/// The values of the bits of a prefix indication that the writer accepts.
#[verifier::opaque]
pub open spec fn prefix_flags_can(x: Seq<bool>) -> bool {
    &&& 1 <= x.len() && x.len() <= 65536
}

/// Parses the bits of a prefix indication.
fn parse_prefix_flags(r: &mut BitReader<'_>) -> (res: Result<Vec<bool>, BitstreamError>)
    ensures
        read_view_is(prefix_flags_at(old(r).bits(), old(r).pos()), res, *old(r), *final(r)),
{
    proof {
        reveal(prefix_flags_at);
    }
    let num: u32 = r.u(16);
    let count: u64 = num as u64 + 1;
    if count as u128 > r.bits_remaining() {
        return Err(
            BitstreamError::unexpected_end("num_bits_in_prefix_indication_minus1 exceeds remaining payload"),
        );
    }
    let v = r.read_flags(count);
    Ok(v)
}

/// Emits the bits of a prefix indication, the inverse of [`parse_prefix_flags`].
fn write_prefix_flags(w: &mut BitWriter, x: &Vec<bool>) -> (res: Result<(), BitstreamError>)
    ensures
        write_is(prefix_flags_can(x@), put_prefix_flags(old(w)@, x@), res, final(w)@),
{
    proof {
        reveal(put_prefix_flags);
        reveal(prefix_flags_can);
    }
    if !(1 <= (*x).len() && (*x).len() <= 65536) {
        return Err(BitstreamError::invalid("each SEI prefix indication needs 1..=65536 bits (u(16) length)"));
    }
    let num: u32 = ((*x).len() - 1) as u32;
    w.write_bits(num, 16);
    w.write_flags(x.as_slice());
    Ok(())
}

/// Writing the bits of a prefix indication gives back the bits it was read
/// from.
pub broadcast proof fn law_put_prefix_flags_at(s: Seq<bool>, p: nat)
    ensures
        #[trigger] prefix_flags_at(s, p) matches Ok((x, q)) ==> {
            &&& prefix_flags_ok(x)
            &&& prefix_flags_can(x)
            &&& within(s, q) ==> within(s, p) && put_prefix_flags(upto(s, p), x) == upto(s, q)
        },
{
    broadcast use {crate::bits::group_write_read, crate::bits::group_write_read_lists};

    reveal(prefix_flags_at);
    reveal(put_prefix_flags);
    reveal(prefix_flags_ok);
    reveal(prefix_flags_can);
}

/// Reading gives back the bits of a prefix indication as it was written.
pub broadcast proof fn law_pre_put_prefix_flags(a: Seq<bool>, x: Seq<bool>, s: Seq<bool>)
    requires
        #[trigger] pre(put_prefix_flags(a, x), s),
        prefix_flags_ok(x),
    ensures
        pre(a, s),
        prefix_flags_can(x),
        prefix_flags_at(s, a.len()) == Ok::<(Seq<bool>, nat), Fault>((x, put_prefix_flags(a, x).len())),
{
    broadcast use {crate::bits::group_read_written, crate::bits::group_read_written_lists};

    reveal(prefix_flags_at);
    reveal(put_prefix_flags);
    reveal(prefix_flags_ok);
    reveal(prefix_flags_can);
    let a1 = put_u(a, (x.len() - 1) as nat, 16);
    lemma_put_flags_len(a1, x);
    assert(bits_left(s, a1.len()) >= x.len()) by {
        reveal(pre);
    }
}

/// The layout of the bits of a prefix indication: reading at `p` gives `x` and
/// ends at `q` if and only if these elements stand there in this order.
pub proof fn law_layout_prefix_flags(s: Seq<bool>, p: nat, x: Seq<bool>, q: nat)
    ensures
        prefix_flags_at(s, p) == Ok::<(Seq<bool>, nat), Fault>((x, q)) <==> ({
            let c = cursor(s, p);
            let num = c.next_u32(16);
            let count = (num as u64 + 1) as u64;
            &&& c
                .u32(16, num)
                .room(count as int)
                .part(|p: nat| flags_at(s, p, count as nat), x)
                .ends(q)
        }),
{
    reveal(prefix_flags_at);
}

/// What reads as the bits of a prefix indication up to this point, and meets
/// the last condition, is refused as too short.
pub proof fn law_refused_prefix_flags(s: Seq<bool>, p: nat, x: Seq<bool>)
    ensures
        ({
            let c = cursor(s, p);
            let num = c.next_u32(16);
            let count = (num as u64 + 1) as u64;
            let c = c.u32(16, num);
            &&& c.good
            &&& count as int > bits_left(s, c.pos)
        }) ==> prefix_flags_at(s, p) == Err::<(Seq<bool>, nat), Fault>(Fault::End),
{
    reveal(prefix_flags_at);
}

/// Reading the bits of a prefix indication fails only with an error of this
/// class.
pub broadcast proof fn law_faults_prefix_flags(s: Seq<bool>, p: nat)
    ensures
        #[trigger] prefix_flags_at(s, p) matches Err(f) ==> f == Fault::End,
{
    broadcast use crate::bits::law_faults_flags;

    reveal(prefix_flags_at);
}

/// What the writer accepts reads back: the bits of a prefix indication, where
/// each field fits its width and what is not coded has the value that is taken
/// for it.
pub proof fn law_reads_prefix_flags(a: Seq<bool>, x: Seq<bool>, s: Seq<bool>)
    requires
        prefix_flags_can(x),
        pre(put_prefix_flags(a, x), s),
    ensures
        prefix_flags_at(s, a.len()) == Ok::<(Seq<bool>, nat), Fault>((x, put_prefix_flags(a, x).len())),
{
    assert(prefix_flags_ok(x)) by {
        broadcast use crate::bits::law_fits_small;

        reveal(prefix_flags_ok);
        reveal(prefix_flags_can);
    }
    law_pre_put_prefix_flags(a, x, s);
}

/// `n` one bits as a number.
pub open spec fn ones(n: nat) -> nat {
    (pow2(n) - 1) as nat
}

/// The bits of an indication and the one bits up to the next byte boundary, at
/// position `p`.
#[verifier::opaque]
pub open spec fn prefix_bits_at(s: Seq<bool>, p: nat) -> Read<Seq<bool>> {
    match prefix_flags_at(s, p) {
        Err(f) => Err(f),
        Ok((v, p)) => if uval(s, p, pad_len(p)) == ones(pad_len(p)) {
            Ok((v, adv(p, pad_len(p))))
        } else {
            Err(Fault::Invalid)
        },
    }
}

/// Writes an indication.
#[verifier::opaque]
pub open spec fn put_prefix_bits(a: Seq<bool>, x: Seq<bool>) -> Seq<bool> {
    let a = put_prefix_flags(a, x);
    put_u(a, ones(pad_len(a.len())), pad_len(a.len()))
}

/// An indication that reading can give.
pub open spec fn prefix_bits_ok(x: Seq<bool>) -> bool {
    prefix_flags_ok(x)
}

/// An indication that the writer accepts.
pub open spec fn prefix_bits_can(x: Seq<bool>) -> bool {
    prefix_flags_can(x)
}

fn ones_of(n: u32) -> (v: u32)
    requires
        n < 8,
    ensures
        v == ones(n as nat),
{
    proof {
        lemma2_to64();
    }
    if n == 0 {
        0
    } else if n == 1 {
        1
    } else if n == 2 {
        3
    } else if n == 3 {
        7
    } else if n == 4 {
        15
    } else if n == 5 {
        31
    } else if n == 6 {
        63
    } else {
        127
    }
}

fn parse_prefix_bits(r: &mut BitReader<'_>) -> (res: Result<Vec<bool>, BitstreamError>)
    ensures
        read_view_is(prefix_bits_at(old(r).bits(), old(r).pos()), res, *old(r), *final(r)),
{
    proof {
        reveal(prefix_bits_at);
    }
    let v = parse_prefix_flags(r)?;
    let n: u32 = (8 - (r.bit_pos() % 8) as u32) % 8;
    proof {
        reveal(u32_at);
        lemma2_to64();
        lemma_uval_bound(r.bits(), r.pos(), n as nat);
    }
    if r.u(n) != ones_of(n) {
        return Err(
            BitstreamError::invalid("sei_prefix_indication byte_alignment_bit_equal_to_one was 0 (§D.9.1)"),
        );
    }
    Ok(v)
}

fn write_prefix_bits(w: &mut BitWriter, x: &Vec<bool>) -> (res: Result<(), BitstreamError>)
    ensures
        write_is(prefix_bits_can(x@), put_prefix_bits(old(w)@, x@), res, final(w)@),
{
    proof {
        reveal(put_prefix_bits);
    }
    write_prefix_flags(w, x)?;
    let ghost a = w@;
    let mut i: u32 = 0;
    proof {
        lemma2_to64();
        reveal(put_u);
    }
    while !w.byte_aligned()
        invariant
            w@ == put_u(a, ones(i as nat), i as nat),
            w@.len() == a.len() + i,
            i <= pad_len(a.len()),
        decreases pad_len(a.len()) - i,
    {
        proof {
            lemma_ones_push(a, i as nat);
            lemma_put_u_shape(a, ones((i + 1) as nat), (i + 1) as nat);
        }
        w.write_flag(true);
        proof {
            reveal(put_flag);
        }
        i = i + 1;
    }
    Ok(())
}

proof fn lemma_ones_push(a: Seq<bool>, n: nat)
    ensures
        put_u(a, ones(n + 1), n + 1) == put_u(a, ones(n), n).push(true),
{
    reveal(put_u);
    lemma_pow2_unfold(n + 1);
    lemma_pow2_pos(n);
}

/// Writing what was read gives back the bits that were read.
pub broadcast proof fn law_put_prefix_bits_at(s: Seq<bool>, p: nat)
    ensures
        #[trigger] prefix_bits_at(s, p) matches Ok((x, q)) ==> {
            &&& prefix_bits_ok(x)
            &&& prefix_bits_can(x)
            &&& within(s, q) ==> within(s, p) && put_prefix_bits(upto(s, p), x) == upto(s, q)
        },
{
    reveal(prefix_bits_at);
    reveal(put_prefix_bits);
    law_put_prefix_flags_at(s, p);
    if let Ok((x, q)) = prefix_flags_at(s, p) {
        let n = pad_len(q);
        law_adv_within(s, q, n);
        if within(s, adv(q, n)) && uval(s, q, n) == ones(n) {
            law_put_u_at(s, q, ones(n), n);
            assert(upto(s, q).len() == q) by {
                reveal(upto);
                reveal(within);
            }
        }
    }
}

/// What was written reads back as the indication that was written.
pub broadcast proof fn law_pre_put_prefix_bits(a: Seq<bool>, x: Seq<bool>, s: Seq<bool>)
    requires
        #[trigger] pre(put_prefix_bits(a, x), s),
        prefix_bits_ok(x),
    ensures
        pre(a, s),
        prefix_bits_can(x),
        prefix_bits_at(s, a.len()) == Ok::<(Seq<bool>, nat), Fault>((x, put_prefix_bits(a, x).len())),
{
    reveal(prefix_bits_at);
    reveal(put_prefix_bits);
    let b = put_prefix_flags(a, x);
    let n = pad_len(b.len());
    lemma_pow2_pos(n);
    lemma_pre_put_u(b, ones(n), n, s);
    law_pre_put_prefix_flags(a, x, s);
}

/// Reads an item, behind the items before it.
pub open spec fn prefix_list_item(s: Seq<bool>) -> spec_fn(Seq<Seq<bool>>, nat) -> Read<Seq<bool>> {
    |done: Seq<Seq<bool>>, q: nat| prefix_bits_at(s, q)
}

/// Writes an item, behind the items before it.
pub open spec fn put_prefix_list_item() -> spec_fn(Seq<bool>, Seq<Seq<bool>>, Seq<bool>) -> Seq<bool> {
    |a: Seq<bool>, done: Seq<Seq<bool>>, x: Seq<bool>| put_prefix_bits(a, x)
}

/// Whether an item may follow the items before it.
pub open spec fn prefix_list_item_ok() -> spec_fn(Seq<Seq<bool>>, Seq<bool>) -> bool {
    |done: Seq<Seq<bool>>, x: Seq<bool>| prefix_bits_ok(x) && prefix_bits_can(x)
}

/// `n` items at position `p`, each an item.
#[verifier::opaque]
pub open spec fn prefix_list_at(s: Seq<bool>, p: nat, n: u64) -> Read<Seq<Seq<bool>>> {
    rep_at(prefix_list_item(s), p, n as nat)
}

/// The bits `a` followed by the items.
#[verifier::opaque]
pub open spec fn put_prefix_list(a: Seq<bool>, xs: Seq<Seq<bool>>, n: u64) -> Seq<bool> {
    put_rep(put_prefix_list_item(), a, xs)
}

/// `n` items that reading can give.
#[verifier::opaque]
pub open spec fn prefix_list_ok(xs: Seq<Seq<bool>>, n: u64) -> bool {
    xs.len() == n
        && forall|i: int| 0 <= i < xs.len()
        ==> prefix_bits_ok(#[trigger] xs[i])
        && prefix_bits_can(xs[i])
}

/// `n` items that the writer accepts.
#[verifier::opaque]
pub open spec fn prefix_list_can(xs: Seq<Seq<bool>>, n: u64) -> bool {
    xs.len() == n && forall|i: int| 0 <= i < xs.len() ==> prefix_bits_can(#[trigger] xs[i])
}

/// Parses `n` items, each an item.
fn parse_prefix_list(r: &mut BitReader<'_>, n: u64) -> (res: Result<Vec<Vec<bool>>, BitstreamError>)
    ensures
        read_seq_is(prefix_list_at(old(r).bits(), old(r).pos(), n), res, *old(r), *final(r)),
        res matches Ok(v) ==> v@.len() == n,
{
    let ghost s = r.bits();
    let ghost p = r.pos();
    let ghost reads = prefix_list_item(s);
    let mut xs: Vec<Vec<bool>> = Vec::new();
    let mut i: u64 = 0;
    proof {
        reveal(prefix_list_at);
        assert(seq_view(xs@) =~= Seq::empty());
    }
    while i < n
        invariant
            i <= n,
            xs@.len() == i,
            reads == prefix_list_item(s),
            s == r.bits(),
            s == old(r).bits(),
            p == old(r).pos(),
            r.bytes() == old(r).bytes(),
            rep_at(reads, p, i as nat) == Ok::<(Seq<Seq<bool>>, nat), Fault>((seq_view(xs@), r.pos())),
        decreases n - i,
    {
        match parse_prefix_bits(r) {
            Ok(x) => {
                proof {
                lemma_seq_view_push(xs@, x);
            }
            xs.push(x);
            },
            Err(e) => {
                proof {
                    reveal(prefix_list_at);
                    lemma_rep_err(reads, p, (i + 1) as nat, n as nat);
                }
                return Err(e);
            },
        }
        i = i + 1;
    }
    Ok(xs)
}

/// Emits `n` items, each an item.
fn write_prefix_list(w: &mut BitWriter, xs: &Vec<Vec<bool>>, n: u64) -> (res: Result<(), BitstreamError>)
    ensures
        write_is(
            prefix_list_can(seq_view(xs@), n),
            put_prefix_list(old(w)@, seq_view(xs@), n),
            res,
            final(w)@,
        ),
        res is Ok ==> xs@.len() == n,
{
    let ghost before = w@;
    let ghost puts = put_prefix_list_item();
    let ghost ys = seq_view(xs@);
    proof {
        reveal(put_prefix_list);
        reveal(prefix_list_can);
        assert(ys.take(0) =~= Seq::empty());
    }
    if xs.len() as u64 != n {
        return Err(BitstreamError::invalid("unexpected number of entries"));
    }
    let mut i: usize = 0;
    while i < xs.len()
        invariant
            i <= xs@.len(),
            xs@.len() == n,
            ys == seq_view(xs@),
            ys.len() == xs@.len(),
            before == old(w)@,
            puts == put_prefix_list_item(),
            w@ == put_rep(puts, before, ys.take(i as int)),
            forall|j: int| 0 <= j < i ==> prefix_bits_can(#[trigger] ys[j]),
        ensures
            i == xs@.len(),
        decreases xs@.len() - i,
    {
        proof {
            assert(ys.take(i + 1).drop_last() =~= ys.take(i as int));
            assert(ys[i as int] == xs@[i as int]@);
        }
        match write_prefix_bits(w, &xs[i]) {
            Ok(()) => {},
            Err(e) => {
                proof {
                    reveal(prefix_list_can);
                }
                return Err(e);
            },
        }
        i = i + 1;
    }
    proof {
        assert(ys.take(i as int) =~= ys);
    }
    Ok(())
}

/// Writing what was read gives back the bits that were read.
pub broadcast proof fn law_put_prefix_list_at(s: Seq<bool>, p: nat, n: u64)
    ensures
        #[trigger] prefix_list_at(s, p, n) matches Ok((xs, q)) ==> {
            &&& xs.len() == n
            &&& prefix_list_ok(xs, n)
            &&& prefix_list_can(xs, n)
            &&& within(s, q) ==> within(s, p) && put_prefix_list(upto(s, p), xs, n) == upto(s, q)
        },
{
    broadcast use law_put_prefix_bits_at;

    reveal(prefix_list_at);
    reveal(put_prefix_list);
    reveal(prefix_list_ok);
    reveal(prefix_list_can);
    let ok = prefix_list_item_ok();
    law_put_rep_at(s, prefix_list_item(s), put_prefix_list_item(), ok, p, n as nat);
    if let Ok((xs, q)) = prefix_list_at(s, p, n) {
        assert forall|i: int| 0 <= i < xs.len() implies ok(xs.take(i), #[trigger] xs[i]) by {}
    }
}

/// What was written reads back as the items that were written.
pub broadcast proof fn law_pre_put_prefix_list(a: Seq<bool>, xs: Seq<Seq<bool>>, n: u64, s: Seq<bool>)
    requires
        #[trigger] pre(put_prefix_list(a, xs, n), s),
        prefix_list_ok(xs, n),
    ensures
        pre(a, s),
        prefix_list_can(xs, n),
        prefix_list_at(s, a.len(), n) == Ok::<(Seq<Seq<bool>>, nat), Fault>(
            (xs, put_prefix_list(a, xs, n).len()),
        ),
{
    broadcast use law_pre_put_prefix_bits;

    reveal(prefix_list_at);
    reveal(put_prefix_list);
    reveal(prefix_list_ok);
    reveal(prefix_list_can);
    law_rep_at_put(s, prefix_list_item(s), put_prefix_list_item(), prefix_list_item_ok(), a, xs);
}

/// `n` items stand one behind the other: `n - 1` items, and then an item.
pub proof fn law_layout_prefix_list(s: Seq<bool>, p: nat, n: u64, xs: Seq<Seq<bool>>, q: nat)
    ensures
        prefix_list_at(s, p, n) == Ok::<(Seq<Seq<bool>>, nat), Fault>((xs, q)) <==> if n == 0 {
            xs.len() == 0 && q == p
        } else {
            &&& xs.len() == n
            &&& cursor(s, p)
                .part(|p: nat| prefix_list_at(s, p, (n - 1) as u64), xs.drop_last())
                .part(|p: nat| prefix_bits_at(s, p), xs.last())
                .ends(q)
        },
{
    reveal(prefix_list_at);
    lemma_rep_step(prefix_list_item(s), p, n as nat);
    if xs.len() == 0 {
        assert(xs =~= Seq::empty());
    } else {
        assert(xs =~= xs.drop_last().push(xs.last()));
    }
    if n > 0 {
        if let Ok((done, r)) = rep_at(prefix_list_item(s), p, (n - 1) as nat) {
            if let Ok((y, z)) = prefix_list_item(s)(done, r) {
                assert(done.push(y).drop_last() =~= done);
            }
        }
    }
}

/// What the writer accepts as `n` items reads back, where each of them is one that
/// reading can give.
pub proof fn law_reads_prefix_list(a: Seq<bool>, xs: Seq<Seq<bool>>, n: u64, s: Seq<bool>)
    requires
        prefix_list_can(xs, n),
        forall|i: int| 0 <= i < xs.len() ==> prefix_bits_ok(#[trigger] xs[i]),
        pre(put_prefix_list(a, xs, n), s),
    ensures
        xs.len() == n,
        prefix_list_at(s, a.len(), n) == Ok::<(Seq<Seq<bool>>, nat), Fault>(
            (xs, put_prefix_list(a, xs, n).len()),
        ),
{
    reveal(prefix_list_can);
    assert(prefix_list_ok(xs, n)) by {
        reveal(prefix_list_ok);
    }
    law_pre_put_prefix_list(a, xs, n, s);
}

/// Reading the items never fails with an error of this class.
pub broadcast proof fn law_faults_prefix_list(s: Seq<bool>, p: nat, n: u64)
    ensures
        #[trigger] prefix_list_at(s, p, n) matches Err(f) ==> f != Fault::Unsupported,
{
    broadcast use law_faults_prefix_bits;

    reveal(prefix_list_at);
    let f = prefix_list_item(s);
    assert forall|done: Seq<Seq<bool>>, q: nat| (#[trigger] f(done, q)) matches Err(e)
        ==> e != Fault::Unsupported by {}
    lemma_rep_faults(f, p, n as nat, |f: Fault| f != Fault::Unsupported);
}

/// The mathematical model of a [`VvcSeiPrefixIndication`].
pub struct VvcSeiPrefixIndicationModel {
    pub prefix_sei_payload_type: u16,
    pub indications: Seq<Seq<bool>>,
}

impl View for VvcSeiPrefixIndication {
    type V = VvcSeiPrefixIndicationModel;

    open spec fn view(&self) -> VvcSeiPrefixIndicationModel {
        VvcSeiPrefixIndicationModel {
            prefix_sei_payload_type: self.prefix_sei_payload_type,
            indications: seq_view(self.indications@),
        }
    }
}

/// `sei_prefix_indication()` (§D.9.1) at position `p`.
#[verifier::opaque]
pub open spec fn prefix_at(s: Seq<bool>, p: nat) -> Read<VvcSeiPrefixIndicationModel> {
    let prefix_sei_payload_type = u16_at(s, p, 16);
    let p = adv(p, 16);
    let num = u32_at(s, p, 8);
    let p = adv(p, 8);
    match prefix_list_at(s, p, (num as u64 + 1) as u64) { Err(f) => Err(f), Ok((indications, p)) => {
    Ok((VvcSeiPrefixIndicationModel { prefix_sei_payload_type, indications }, p))
    }}
}

/// The bits `a` followed by `sei_prefix_indication()` (§D.9.1).
#[verifier::opaque]
pub open spec fn put_prefix(a: Seq<bool>, x: VvcSeiPrefixIndicationModel) -> Seq<bool> {
    let a = put_u(a, x.prefix_sei_payload_type as nat, 16);
    let num = (x.indications.len() - 1) as u32;
    let a = put_u(a, num as nat, 8);
    let a = put_prefix_list(a, x.indications, (num as u64 + 1) as u64);
    a
}

/// The values of `sei_prefix_indication()` (§D.9.1) that reading can give.
#[verifier::opaque]
pub open spec fn prefix_ok(x: VvcSeiPrefixIndicationModel) -> bool {
    &&& fits(x.prefix_sei_payload_type as nat, 16)
    &&& 1 <= x.indications.len() && x.indications.len() <= 256
    &&& {
        let num = (x.indications.len() - 1) as u32;
        &&& fits(num as nat, 8)
        &&& prefix_list_ok(x.indications, (num as u64 + 1) as u64)
    }
}

/// The values of `sei_prefix_indication()` (§D.9.1) that the writer accepts.
#[verifier::opaque]
pub open spec fn prefix_can(x: VvcSeiPrefixIndicationModel) -> bool {
    &&& 1 <= x.indications.len() && x.indications.len() <= 256
    &&& {
        let num = (x.indications.len() - 1) as u32;
        &&& prefix_list_can(x.indications, (num as u64 + 1) as u64)
    }
}

/// Parses `sei_prefix_indication()` (§D.9.1).
fn parse_prefix(r: &mut BitReader<'_>) -> (res: Result<VvcSeiPrefixIndication, BitstreamError>)
    ensures
        read_view_is(prefix_at(old(r).bits(), old(r).pos()), res, *old(r), *final(r)),
{
    proof {
        reveal(prefix_at);
    }
    let prefix_sei_payload_type: u16 = r.u16(16);
    let num: u32 = r.u(8);
    let indications = parse_prefix_list(r, num as u64 + 1)?;
    Ok(VvcSeiPrefixIndication { prefix_sei_payload_type, indications })
}

/// Emits `sei_prefix_indication()` (§D.9.1), the inverse of [`parse_prefix`].
fn write_prefix(w: &mut BitWriter, x: &VvcSeiPrefixIndication) -> (res: Result<(), BitstreamError>)
    ensures
        write_is(prefix_can(x@), put_prefix(old(w)@, x@), res, final(w)@),
{
    proof {
        reveal(put_prefix);
        reveal(prefix_can);
    }
    w.write_bits(x.prefix_sei_payload_type as u32, 16);
    if !(1 <= x.indications.len() && x.indications.len() <= 256) {
        return Err(BitstreamError::invalid("sei_prefix_indication needs 1..=256 indications (u(8) count)"));
    }
    let num: u32 = (x.indications.len() - 1) as u32;
    w.write_bits(num, 8);
    write_prefix_list(w, &x.indications, num as u64 + 1)?;
    Ok(())
}

/// Writing `sei_prefix_indication()` (§D.9.1) gives back the bits it was read
/// from.
pub broadcast proof fn law_put_prefix_at(s: Seq<bool>, p: nat)
    ensures
        #[trigger] prefix_at(s, p) matches Ok((x, q)) ==> {
            &&& prefix_ok(x)
            &&& prefix_can(x)
            &&& within(s, q) ==> within(s, p) && put_prefix(upto(s, p), x) == upto(s, q)
        },
{
    broadcast use {crate::bits::group_write_read, law_put_prefix_list_at};

    reveal(prefix_at);
    reveal(put_prefix);
    reveal(prefix_ok);
    reveal(prefix_can);
}

/// Reading gives back `sei_prefix_indication()` (§D.9.1) as it was written.
pub broadcast proof fn law_pre_put_prefix(a: Seq<bool>, x: VvcSeiPrefixIndicationModel, s: Seq<bool>)
    requires
        #[trigger] pre(put_prefix(a, x), s),
        prefix_ok(x),
    ensures
        pre(a, s),
        prefix_can(x),
        prefix_at(s, a.len()) == Ok::<(VvcSeiPrefixIndicationModel, nat), Fault>((x, put_prefix(a, x).len())),
{
    broadcast use {crate::bits::group_read_written, law_pre_put_prefix_list};

    reveal(prefix_at);
    reveal(put_prefix);
    reveal(prefix_ok);
    reveal(prefix_can);
}

/// The layout of `sei_prefix_indication()` (§D.9.1): reading at `p` gives `x`
/// and ends at `q` if and only if these elements stand there in this order.
pub proof fn law_layout_prefix(s: Seq<bool>, p: nat, x: VvcSeiPrefixIndicationModel, q: nat)
    ensures
        prefix_at(s, p) == Ok::<(VvcSeiPrefixIndicationModel, nat), Fault>((x, q)) <==> ({
            let c = cursor(s, p).u16(16, x.prefix_sei_payload_type);
            let num = c.next_u32(8);
            &&& c
                .u32(8, num)
                .part(|p: nat| prefix_list_at(s, p, (num as u64 + 1) as u64), x.indications)
                .ends(q)
        }),
{
    reveal(prefix_at);
}

/// Reading `sei_prefix_indication()` (§D.9.1) never fails with an error of this
/// class.
pub broadcast proof fn law_faults_prefix(s: Seq<bool>, p: nat)
    ensures
        #[trigger] prefix_at(s, p) matches Err(f) ==> f != Fault::Unsupported,
{
    broadcast use law_faults_prefix_list;

    reveal(prefix_at);
}

/// What the writer accepts reads back: `sei_prefix_indication()` (§D.9.1),
/// where each field fits its width and what is not coded has the value that is
/// taken for it.
pub proof fn law_reads_prefix(a: Seq<bool>, x: VvcSeiPrefixIndicationModel, s: Seq<bool>)
    requires
        prefix_can(x),
        ({
            &&& fits(x.prefix_sei_payload_type as nat, 16)
            &&& {
                let num = (x.indications.len() - 1) as u32;
                &&& prefix_list_ok(x.indications, (num as u64 + 1) as u64)
            }
        }),
        pre(put_prefix(a, x), s),
    ensures
        prefix_at(s, a.len()) == Ok::<(VvcSeiPrefixIndicationModel, nat), Fault>((x, put_prefix(a, x).len())),
{
    assert(prefix_ok(x)) by {
        broadcast use crate::bits::law_fits_small;

        reveal(prefix_ok);
        reveal(prefix_can);
    }
    law_pre_put_prefix(a, x, s);
}

/// Each field of the model of a [`VvcSeiPrefixIndication`] is the field of that name.
pub proof fn law_view_prefix(x: VvcSeiPrefixIndication)
    ensures
        x@.prefix_sei_payload_type == x.prefix_sei_payload_type,
        x@.indications == seq_view(x.indications@),
{
}

/// The sei_prefix_indication that the message `m` holds.
pub open spec fn prefix_of(m: SeiMessageModel) -> Result<VvcSeiPrefixIndicationModel, Fault> {
    if m.payload_type != SEI_TYPE_SEI_PREFIX_INDICATION {
        Err(Fault::Invalid)
    } else {
        payload_read(bits_of(m.payload), prefix_at(bits_of(m.payload), 0))
    }
}

/// The bits of the payload that holds `x`.
pub open spec fn prefix_payload(x: VvcSeiPrefixIndicationModel) -> Seq<bool> {
    put_payload_end(put_prefix(Seq::empty(), x))
}

/// Decode a `sei_prefix_indication()` payload (§D.9.1).
pub fn decode_sei_prefix_indication(msg: &SeiMessage) -> (res: Result<VvcSeiPrefixIndication, BitstreamError>)
    ensures
        nal_read_is(prefix_of(msg@), res),
{
    if msg.payload_type != SEI_TYPE_SEI_PREFIX_INDICATION {
        return Err(
            Message::new("expected sei_prefix_indication payloadType ")
                .num(SEI_TYPE_SEI_PREFIX_INDICATION as i128)
                .with(", got ")
                .num(msg.payload_type as i128)
                .invalid(),
        );
    }
    let mut r = BitReader::new(msg.payload.as_slice());
    let x = parse_prefix(&mut r)?;
    read_payload_alignment(&mut r, "sei_prefix_indication")?;
    Ok(x)
}

/// Encode a `sei_prefix_indication()` into a framed [`SeiMessage`], the
/// byte-exact inverse of [`decode_sei_prefix_indication`].
pub fn encode_sei_prefix_indication(x: &VvcSeiPrefixIndication) -> (res: Result<SeiMessage, BitstreamError>)
    ensures
        payload_write_is(prefix_can(x@), SEI_TYPE_SEI_PREFIX_INDICATION, prefix_payload(x@), res),
{
    let mut w = BitWriter::new();
    write_prefix(&mut w, x)?;
    Ok(SeiMessage { payload_type: SEI_TYPE_SEI_PREFIX_INDICATION, payload: finish_payload(w) })
}

/// A sei_prefix_indication message is one of type 201, whose payload is its
/// fields and the closing bits.
pub proof fn law_prefix_message(m: SeiMessageModel, x: VvcSeiPrefixIndicationModel)
    ensures
        prefix_of(m) == Ok::<VvcSeiPrefixIndicationModel, Fault>(x) <==> ({
            let s = bits_of(m.payload);
            let c = cursor(s, 0).part(|p: nat| prefix_at(s, p), x);
            &&& m.payload_type == 201
            &&& c.good && c.pos <= s.len()
            &&& s == put_payload_end(upto(s, c.pos))
        }),
        m.payload_type != 201 ==> prefix_of(m) == Err::<VvcSeiPrefixIndicationModel, Fault>(Fault::Invalid),
{
}

/// [`decode_sei_prefix_indication`] gives the value that the message holds, or an error of its class,
/// and [`encode_sei_prefix_indication`] the message of type 201 with the bits of the value and
/// the closing bits.
pub proof fn law_decode_sei_prefix_indication(
    m: SeiMessage,
    x: VvcSeiPrefixIndication,
    decoded: Result<VvcSeiPrefixIndication, BitstreamError>,
    encoded: Result<SeiMessage, BitstreamError>,
)
    requires
        call_ensures(decode_sei_prefix_indication, (&m, ), decoded),
        call_ensures(encode_sei_prefix_indication, (&x, ), encoded),
    ensures
        match decoded {
            Ok(v) => prefix_of(m@) == Ok::<VvcSeiPrefixIndicationModel, Fault>(v@),
            Err(e) => prefix_of(m@) == Err::<VvcSeiPrefixIndicationModel, Fault>(e.fault()),
        },
        match encoded {
            Ok(n) => {
                &&& prefix_can(x@)
                &&& n.payload_type == 201
                &&& bits_of(n.payload@) == put_payload_end(put_prefix(Seq::empty(), x@))
            },
            Err(e) => !prefix_can(x@) && e.fault() == Fault::Invalid,
        },
{
}

/// Encoding what was decoded gives back the payload.
pub proof fn law_encode_decoded_prefix(m: SeiMessageModel)
    requires
        m.payload.len() <= usize::MAX,
    ensures
        prefix_of(m) matches Ok(x) ==> {
            &&& prefix_ok(x)
            &&& prefix_can(x)
            &&& prefix_payload(x) == bits_of(m.payload)
            &&& forall|out: Seq<u8>| bits_of(out) == prefix_payload(x) ==> out == m.payload
        },
{
    let s = bits_of(m.payload);
    lemma_bits_of_len(m.payload);
    if let Ok((x, p)) = prefix_at(s, 0) {
        if payload_end_at(s, p) is Ok {
            law_put_prefix_at(s, 0);
            lemma_payload_end(s, p);
            assert(upto(s, 0) =~= Seq::empty()) by {
                reveal(upto);
            }
            assert forall|out: Seq<u8>| bits_of(out) == prefix_payload(x) implies out == m.payload by {
                lemma_bits_of_injective(out, m.payload);
            }
        }
    }
}

/// Decoding what was encoded gives back the value.
pub proof fn law_decode_encoded_prefix(x: VvcSeiPrefixIndicationModel, m: SeiMessageModel)
    requires
        prefix_ok(x),
        m.payload_type == SEI_TYPE_SEI_PREFIX_INDICATION,
        bits_of(m.payload) == prefix_payload(x),
        m.payload.len() <= usize::MAX,
    ensures
        prefix_can(x),
        prefix_of(m) == Ok::<VvcSeiPrefixIndicationModel, Fault>(x),
{
    let s = bits_of(m.payload);
    lemma_bits_of_len(m.payload);
    lemma_payload_closed(put_prefix(Seq::empty(), x), s);
    law_pre_put_prefix(Seq::empty(), x, s);
}

// ─────────────────────────── Subpicture level info (§D.7) ───────────────────

/// `subpic_level_info()` (§D.7.1).
#[derive(Debug, Clone, Default, PartialEq, Eq)]
pub struct VvcSubpicLevelInfo {
    pub sli_cbr_constraint_flag: bool,
    pub sli_explicit_fraction_present_flag: bool,
    /// Coded iff the explicit-fraction flag is set.
    pub sli_num_subpics_minus1: u32,
    pub sli_max_sublayers_minus1: u8,
    pub sli_sublayer_info_present_flag: bool,
    /// `[k][i]` → `(sli_non_subpic_layers_fraction, sli_ref_level_idc,
    /// per-subpic sli_ref_level_fraction_minus1)`. One row per coded
    /// sublayer `k` (all of `0..=sli_max_sublayers_minus1` when the
    /// sublayer-info flag is set, else just the highest), each with
    /// `sli_num_ref_levels_minus1 + 1` entries.
    pub sublayers: Vec<Vec<VvcSliRefLevel>>,
}

/// One reference level entry of `subpic_level_info()`.
#[derive(Debug, Clone, Default, PartialEq, Eq)]
pub struct VvcSliRefLevel {
    pub non_subpic_layers_fraction: u8,
    pub ref_level_idc: u8,
    /// `sli_num_subpics_minus1 + 1` entries iff the explicit-fraction
    /// flag is set.
    pub ref_level_fraction_minus1: Vec<u8>,
}

/// The models of a table of reference levels.
pub open spec fn rows_view(v: Seq<Vec<VvcSliRefLevel>>) -> Seq<Seq<VvcSliRefLevelModel>> {
    Seq::new(v.len(), |i: int| seq_view(v[i]@))
}

/// The mathematical model of a [`VvcSliRefLevel`].
pub struct VvcSliRefLevelModel {
    pub non_subpic_layers_fraction: u8,
    pub ref_level_idc: u8,
    pub ref_level_fraction_minus1: Seq<u8>,
}

impl View for VvcSliRefLevel {
    type V = VvcSliRefLevelModel;

    open spec fn view(&self) -> VvcSliRefLevelModel {
        VvcSliRefLevelModel {
            non_subpic_layers_fraction: self.non_subpic_layers_fraction,
            ref_level_idc: self.ref_level_idc,
            ref_level_fraction_minus1: self.ref_level_fraction_minus1@,
        }
    }
}

/// A reference level at position `p`.
#[verifier::opaque]
pub open spec fn sli_level_at(s: Seq<bool>, p: nat, fractions: u64) -> Read<VvcSliRefLevelModel> {
    let non_subpic_layers_fraction = u8_at(s, p, 8);
    let p = adv(p, 8);
    let ref_level_idc = u8_at(s, p, 8);
    let p = adv(p, 8);
    match u8s_at(s, p, 8, fractions as nat) { Err(f) => Err(f), Ok((ref_level_fraction_minus1, p)) => {
    Ok((VvcSliRefLevelModel { non_subpic_layers_fraction, ref_level_idc, ref_level_fraction_minus1 }, p))
    }}
}

/// The bits `a` followed by a reference level.
#[verifier::opaque]
pub open spec fn put_sli_level(a: Seq<bool>, x: VvcSliRefLevelModel, fractions: u64) -> Seq<bool> {
    let a = put_u(a, x.non_subpic_layers_fraction as nat, 8);
    let a = put_u(a, x.ref_level_idc as nat, 8);
    let a = put_u8s(a, x.ref_level_fraction_minus1, 8);
    a
}

/// The values of a reference level that reading can give.
#[verifier::opaque]
pub open spec fn sli_level_ok(x: VvcSliRefLevelModel, fractions: u64) -> bool {
    &&& fits(x.non_subpic_layers_fraction as nat, 8)
    &&& fits(x.ref_level_idc as nat, 8)
    &&& x.ref_level_fraction_minus1.len() == fractions
    &&& u8s_ok(x.ref_level_fraction_minus1, 8)
}

/// The values of a reference level that the writer accepts.
#[verifier::opaque]
pub open spec fn sli_level_can(x: VvcSliRefLevelModel, fractions: u64) -> bool {
    &&& x.ref_level_fraction_minus1.len() as u64 == fractions
}

/// Parses a reference level.
fn parse_sli_level(r: &mut BitReader<'_>, fractions: u64) -> (res: Result<VvcSliRefLevel, BitstreamError>)
    ensures
        read_view_is(sli_level_at(old(r).bits(), old(r).pos(), fractions), res, *old(r), *final(r)),
{
    proof {
        reveal(sli_level_at);
    }
    let non_subpic_layers_fraction: u8 = r.u8(8);
    let ref_level_idc: u8 = r.u8(8);
    let ref_level_fraction_minus1 = r.read_u8s(fractions, 8);
    Ok(VvcSliRefLevel { non_subpic_layers_fraction, ref_level_idc, ref_level_fraction_minus1 })
}

/// Emits a reference level, the inverse of [`parse_sli_level`].
fn write_sli_level(w: &mut BitWriter, x: &VvcSliRefLevel, fractions: u64) -> (res: Result<(), BitstreamError>)
    ensures
        write_is(sli_level_can(x@, fractions), put_sli_level(old(w)@, x@, fractions), res, final(w)@),
{
    proof {
        reveal(put_sli_level);
        reveal(sli_level_can);
    }
    w.write_bits(x.non_subpic_layers_fraction as u32, 8);
    w.write_bits(x.ref_level_idc as u32, 8);
    if !(x.ref_level_fraction_minus1.len() as u64 == fractions) {
        return Err(
            BitstreamError::invalid(
                "sli_ref_level_fraction_minus1 entries must match sli_num_subpics_minus1 + 1",
            ),
        );
    }
    w.write_u8s(x.ref_level_fraction_minus1.as_slice(), 8);
    Ok(())
}

/// Writing a reference level gives back the bits it was read from.
pub broadcast proof fn law_put_sli_level_at(s: Seq<bool>, p: nat, fractions: u64)
    ensures
        #[trigger] sli_level_at(s, p, fractions) matches Ok((x, q)) ==> {
            &&& sli_level_ok(x, fractions)
            &&& sli_level_can(x, fractions)
            &&& within(s, q) ==> within(s, p) && put_sli_level(upto(s, p), x, fractions) == upto(s, q)
        },
{
    broadcast use {crate::bits::group_write_read, crate::bits::group_write_read_lists};

    reveal(sli_level_at);
    reveal(put_sli_level);
    reveal(sli_level_ok);
    reveal(sli_level_can);
}

/// Reading gives back a reference level as it was written.
pub broadcast proof fn law_pre_put_sli_level(
    a: Seq<bool>,
    x: VvcSliRefLevelModel,
    fractions: u64,
    s: Seq<bool>,
)
    requires
        #[trigger] pre(put_sli_level(a, x, fractions), s),
        sli_level_ok(x, fractions),
    ensures
        pre(a, s),
        sli_level_can(x, fractions),
        sli_level_at(s, a.len(), fractions) == Ok::<(VvcSliRefLevelModel, nat), Fault>(
            (x, put_sli_level(a, x, fractions).len()),
        ),
{
    broadcast use {crate::bits::group_read_written, crate::bits::group_read_written_lists};

    reveal(sli_level_at);
    reveal(put_sli_level);
    reveal(sli_level_ok);
    reveal(sli_level_can);
}

/// The layout of a reference level: reading at `p` gives `x` and ends at `q` if
/// and only if these elements stand there in this order.
pub proof fn law_layout_sli_level(s: Seq<bool>, p: nat, fractions: u64, x: VvcSliRefLevelModel, q: nat)
    ensures
        sli_level_at(s, p, fractions) == Ok::<(VvcSliRefLevelModel, nat), Fault>((x, q)) <==> cursor(s, p)
            .u8(8, x.non_subpic_layers_fraction)
            .u8(8, x.ref_level_idc)
            .part(|p: nat| u8s_at(s, p, 8, fractions as nat), x.ref_level_fraction_minus1)
            .ends(q),
{
    reveal(sli_level_at);
}

/// Reading a reference level never fails.
pub broadcast proof fn law_faults_sli_level(s: Seq<bool>, p: nat, fractions: u64)
    ensures
        #[trigger] sli_level_at(s, p, fractions) is Ok,
{
    broadcast use crate::bits::law_faults_u8s;

    reveal(sli_level_at);
}

/// What the writer accepts reads back: a reference level, where each field fits
/// its width and what is not coded has the value that is taken for it.
pub proof fn law_reads_sli_level(a: Seq<bool>, x: VvcSliRefLevelModel, fractions: u64, s: Seq<bool>)
    requires
        sli_level_can(x, fractions),
        fits(x.non_subpic_layers_fraction as nat, 8),
        fits(x.ref_level_idc as nat, 8),
        u8s_ok(x.ref_level_fraction_minus1, 8),
        x.ref_level_fraction_minus1.len() <= usize::MAX,
        pre(put_sli_level(a, x, fractions), s),
    ensures
        sli_level_at(s, a.len(), fractions) == Ok::<(VvcSliRefLevelModel, nat), Fault>(
            (x, put_sli_level(a, x, fractions).len()),
        ),
{
    assert(sli_level_ok(x, fractions)) by {
        broadcast use crate::bits::law_fits_small;

        reveal(sli_level_ok);
        reveal(sli_level_can);
    }
    law_pre_put_sli_level(a, x, fractions, s);
}

/// Each field of the model of a [`VvcSliRefLevel`] is the field of that name.
pub proof fn law_view_sli_level(x: VvcSliRefLevel)
    ensures
        x@.non_subpic_layers_fraction == x.non_subpic_layers_fraction,
        x@.ref_level_idc == x.ref_level_idc,
        x@.ref_level_fraction_minus1 == x.ref_level_fraction_minus1@,
{
}

/// Reads a reference level, behind the items before it.
pub open spec fn sli_levels_item(
    s: Seq<bool>,
    fractions: u64,
) -> spec_fn(Seq<VvcSliRefLevelModel>, nat) -> Read<VvcSliRefLevelModel> {
    |done: Seq<VvcSliRefLevelModel>, q: nat| sli_level_at(s, q, fractions)
}

/// Writes a reference level, behind the items before it.
pub open spec fn put_sli_levels_item(
    fractions: u64,
) -> spec_fn(Seq<bool>, Seq<VvcSliRefLevelModel>, VvcSliRefLevelModel) -> Seq<bool> {
    |a: Seq<bool>, done: Seq<VvcSliRefLevelModel>, x: VvcSliRefLevelModel| put_sli_level(a, x, fractions)
}

/// Whether a reference level may follow the items before it.
pub open spec fn sli_levels_item_ok(
    fractions: u64,
) -> spec_fn(Seq<VvcSliRefLevelModel>, VvcSliRefLevelModel) -> bool {
    |done: Seq<VvcSliRefLevelModel>, x: VvcSliRefLevelModel| sli_level_ok(x, fractions)
        && sli_level_can(x, fractions)
}

/// `n` items at position `p`, each a reference level.
#[verifier::opaque]
pub open spec fn sli_levels_at(
    s: Seq<bool>,
    p: nat,
    fractions: u64,
    n: u64,
) -> Read<Seq<VvcSliRefLevelModel>> {
    rep_at(sli_levels_item(s, fractions), p, n as nat)
}

/// The bits `a` followed by the items.
#[verifier::opaque]
pub open spec fn put_sli_levels(
    a: Seq<bool>,
    xs: Seq<VvcSliRefLevelModel>,
    fractions: u64,
    n: u64,
) -> Seq<bool> {
    put_rep(put_sli_levels_item(fractions), a, xs)
}

/// `n` items that reading can give.
#[verifier::opaque]
pub open spec fn sli_levels_ok(xs: Seq<VvcSliRefLevelModel>, fractions: u64, n: u64) -> bool {
    xs.len() == n
        && forall|i: int| 0 <= i < xs.len()
        ==> sli_level_ok(#[trigger] xs[i], fractions)
        && sli_level_can(xs[i], fractions)
}

/// `n` items that the writer accepts.
#[verifier::opaque]
pub open spec fn sli_levels_can(xs: Seq<VvcSliRefLevelModel>, fractions: u64, n: u64) -> bool {
    xs.len() == n && forall|i: int| 0 <= i < xs.len() ==> sli_level_can(#[trigger] xs[i], fractions)
}

/// Parses `n` items, each a reference level.
fn parse_sli_levels(
    r: &mut BitReader<'_>,
    fractions: u64,
    n: u64,
) -> (res: Result<Vec<VvcSliRefLevel>, BitstreamError>)
    ensures
        read_seq_is(sli_levels_at(old(r).bits(), old(r).pos(), fractions, n), res, *old(r), *final(r)),
        res matches Ok(v) ==> v@.len() == n,
{
    let ghost s = r.bits();
    let ghost p = r.pos();
    let ghost reads = sli_levels_item(s, fractions);
    let mut xs: Vec<VvcSliRefLevel> = Vec::new();
    let mut i: u64 = 0;
    proof {
        reveal(sli_levels_at);
        assert(seq_view(xs@) =~= Seq::empty());
    }
    while i < n
        invariant
            i <= n,
            xs@.len() == i,
            reads == sli_levels_item(s, fractions),
            s == r.bits(),
            s == old(r).bits(),
            p == old(r).pos(),
            r.bytes() == old(r).bytes(),
            rep_at(reads, p, i as nat) == Ok::<(
                Seq<VvcSliRefLevelModel>,
                nat,
            ), Fault>((seq_view(xs@), r.pos())),
        decreases n - i,
    {
        match parse_sli_level(r, fractions) {
            Ok(x) => {
                proof {
                lemma_seq_view_push(xs@, x);
            }
            xs.push(x);
            },
            Err(e) => {
                proof {
                    reveal(sli_levels_at);
                    lemma_rep_err(reads, p, (i + 1) as nat, n as nat);
                }
                return Err(e);
            },
        }
        i = i + 1;
    }
    Ok(xs)
}

/// Emits `n` items, each a reference level.
fn write_sli_levels(
    w: &mut BitWriter,
    xs: &Vec<VvcSliRefLevel>,
    fractions: u64,
    n: u64,
) -> (res: Result<(), BitstreamError>)
    ensures
        write_is(
            sli_levels_can(seq_view(xs@), fractions, n),
            put_sli_levels(old(w)@, seq_view(xs@), fractions, n),
            res,
            final(w)@,
        ),
        res is Ok ==> xs@.len() == n,
{
    let ghost before = w@;
    let ghost puts = put_sli_levels_item(fractions);
    let ghost ys = seq_view(xs@);
    proof {
        reveal(put_sli_levels);
        reveal(sli_levels_can);
        assert(ys.take(0) =~= Seq::empty());
    }
    if xs.len() as u64 != n {
        return Err(
            BitstreamError::invalid("subpic_level_info rows must all have the same reference-level count"),
        );
    }
    let mut i: usize = 0;
    while i < xs.len()
        invariant
            i <= xs@.len(),
            xs@.len() == n,
            ys == seq_view(xs@),
            ys.len() == xs@.len(),
            before == old(w)@,
            puts == put_sli_levels_item(fractions),
            w@ == put_rep(puts, before, ys.take(i as int)),
            forall|j: int| 0 <= j < i ==> sli_level_can(#[trigger] ys[j], fractions),
        ensures
            i == xs@.len(),
        decreases xs@.len() - i,
    {
        proof {
            assert(ys.take(i + 1).drop_last() =~= ys.take(i as int));
            assert(ys[i as int] == xs@[i as int]@);
        }
        match write_sli_level(w, &xs[i], fractions) {
            Ok(()) => {},
            Err(e) => {
                proof {
                    reveal(sli_levels_can);
                }
                return Err(e);
            },
        }
        i = i + 1;
    }
    proof {
        assert(ys.take(i as int) =~= ys);
    }
    Ok(())
}

/// Writing what was read gives back the bits that were read.
pub broadcast proof fn law_put_sli_levels_at(s: Seq<bool>, p: nat, fractions: u64, n: u64)
    ensures
        #[trigger] sli_levels_at(s, p, fractions, n) matches Ok((xs, q)) ==> {
            &&& xs.len() == n
            &&& sli_levels_ok(xs, fractions, n)
            &&& sli_levels_can(xs, fractions, n)
            &&& within(s, q) ==> within(s, p) && put_sli_levels(upto(s, p), xs, fractions, n) == upto(s, q)
        },
{
    broadcast use law_put_sli_level_at;

    reveal(sli_levels_at);
    reveal(put_sli_levels);
    reveal(sli_levels_ok);
    reveal(sli_levels_can);
    let ok = sli_levels_item_ok(fractions);
    law_put_rep_at(s, sli_levels_item(s, fractions), put_sli_levels_item(fractions), ok, p, n as nat);
    if let Ok((xs, q)) = sli_levels_at(s, p, fractions, n) {
        assert forall|i: int| 0 <= i < xs.len() implies ok(xs.take(i), #[trigger] xs[i]) by {}
    }
}

/// What was written reads back as the items that were written.
pub broadcast proof fn law_pre_put_sli_levels(
    a: Seq<bool>,
    xs: Seq<VvcSliRefLevelModel>,
    fractions: u64,
    n: u64,
    s: Seq<bool>,
)
    requires
        #[trigger] pre(put_sli_levels(a, xs, fractions, n), s),
        sli_levels_ok(xs, fractions, n),
    ensures
        pre(a, s),
        sli_levels_can(xs, fractions, n),
        sli_levels_at(s, a.len(), fractions, n) == Ok::<(Seq<VvcSliRefLevelModel>, nat), Fault>(
            (xs, put_sli_levels(a, xs, fractions, n).len()),
        ),
{
    broadcast use law_pre_put_sli_level;

    reveal(sli_levels_at);
    reveal(put_sli_levels);
    reveal(sli_levels_ok);
    reveal(sli_levels_can);
    law_rep_at_put(
        s,
        sli_levels_item(s, fractions),
        put_sli_levels_item(fractions),
        sli_levels_item_ok(fractions),
        a,
        xs,
    );
}

/// `n` items stand one behind the other: `n - 1` items, and then a reference
/// level.
pub proof fn law_layout_sli_levels(
    s: Seq<bool>,
    p: nat,
    fractions: u64,
    n: u64,
    xs: Seq<VvcSliRefLevelModel>,
    q: nat,
)
    ensures
        sli_levels_at(s, p, fractions, n) == Ok::<(Seq<VvcSliRefLevelModel>, nat), Fault>((xs, q)) <==> if n == 0 {
            xs.len() == 0 && q == p
        } else {
            &&& xs.len() == n
            &&& cursor(s, p)
                .part(|p: nat| sli_levels_at(s, p, fractions, (n - 1) as u64), xs.drop_last())
                .part(|p: nat| sli_level_at(s, p, fractions), xs.last())
                .ends(q)
        },
{
    reveal(sli_levels_at);
    lemma_rep_step(sli_levels_item(s, fractions), p, n as nat);
    if xs.len() == 0 {
        assert(xs =~= Seq::empty());
    } else {
        assert(xs =~= xs.drop_last().push(xs.last()));
    }
    if n > 0 {
        if let Ok((done, r)) = rep_at(sli_levels_item(s, fractions), p, (n - 1) as nat) {
            if let Ok((y, z)) = sli_levels_item(s, fractions)(done, r) {
                assert(done.push(y).drop_last() =~= done);
            }
        }
    }
}

/// What the writer accepts as `n` items reads back, where each of them is one that
/// reading can give.
pub proof fn law_reads_sli_levels(
    a: Seq<bool>,
    xs: Seq<VvcSliRefLevelModel>,
    fractions: u64,
    n: u64,
    s: Seq<bool>,
)
    requires
        sli_levels_can(xs, fractions, n),
        forall|i: int| 0 <= i < xs.len() ==> sli_level_ok(#[trigger] xs[i], fractions),
        pre(put_sli_levels(a, xs, fractions, n), s),
    ensures
        xs.len() == n,
        sli_levels_at(s, a.len(), fractions, n) == Ok::<(Seq<VvcSliRefLevelModel>, nat), Fault>(
            (xs, put_sli_levels(a, xs, fractions, n).len()),
        ),
{
    reveal(sli_levels_can);
    assert(sli_levels_ok(xs, fractions, n)) by {
        reveal(sli_levels_ok);
    }
    law_pre_put_sli_levels(a, xs, fractions, n, s);
}

/// Reading the items never fails.
pub broadcast proof fn law_faults_sli_levels(s: Seq<bool>, p: nat, fractions: u64, n: u64)
    ensures
        #[trigger] sli_levels_at(s, p, fractions, n) is Ok,
{
    broadcast use law_faults_sli_level;

    reveal(sli_levels_at);
    let f = sli_levels_item(s, fractions);
    assert forall|done: Seq<VvcSliRefLevelModel>, q: nat| (#[trigger] f(done, q)) is Ok by {}
    lemma_rep_faults_none(f, p, n as nat);
}

/// The reference levels of one sublayer at position `p`.
#[verifier::opaque]
pub open spec fn sli_row_at(
    s: Seq<bool>,
    p: nat,
    fractions: u64,
    levels: u64,
) -> Read<Seq<VvcSliRefLevelModel>> {
    match sli_levels_at(s, p, fractions, levels) { Err(f) => Err(f), Ok((v, p)) => {
    Ok((v, p)) }}
}

/// The bits `a` followed by the reference levels of one sublayer.
#[verifier::opaque]
pub open spec fn put_sli_row(
    a: Seq<bool>,
    x: Seq<VvcSliRefLevelModel>,
    fractions: u64,
    levels: u64,
) -> Seq<bool> {
    let a = put_sli_levels(a, x, fractions, levels);
    a
}

/// The values of the reference levels of one sublayer that reading can give.
#[verifier::opaque]
pub open spec fn sli_row_ok(x: Seq<VvcSliRefLevelModel>, fractions: u64, levels: u64) -> bool {
    &&& sli_levels_ok(x, fractions, levels)
}

/// The values of the reference levels of one sublayer that the writer accepts.
#[verifier::opaque]
pub open spec fn sli_row_can(x: Seq<VvcSliRefLevelModel>, fractions: u64, levels: u64) -> bool {
    &&& sli_levels_can(x, fractions, levels)
}

/// Writing the reference levels of one sublayer gives back the bits it was read
/// from.
pub broadcast proof fn law_put_sli_row_at(s: Seq<bool>, p: nat, fractions: u64, levels: u64)
    ensures
        #[trigger] sli_row_at(s, p, fractions, levels) matches Ok((x, q)) ==> {
            &&& sli_row_ok(x, fractions, levels)
            &&& sli_row_can(x, fractions, levels)
            &&& within(s, q) ==> within(s, p) && put_sli_row(upto(s, p), x, fractions, levels) == upto(s, q)
        },
{
    broadcast use {crate::bits::group_write_read, law_put_sli_levels_at};

    reveal(sli_row_at);
    reveal(put_sli_row);
    reveal(sli_row_ok);
    reveal(sli_row_can);
}

/// Reading gives back the reference levels of one sublayer as it was written.
pub broadcast proof fn law_pre_put_sli_row(
    a: Seq<bool>,
    x: Seq<VvcSliRefLevelModel>,
    fractions: u64,
    levels: u64,
    s: Seq<bool>,
)
    requires
        #[trigger] pre(put_sli_row(a, x, fractions, levels), s),
        sli_row_ok(x, fractions, levels),
    ensures
        pre(a, s),
        sli_row_can(x, fractions, levels),
        sli_row_at(s, a.len(), fractions, levels) == Ok::<(Seq<VvcSliRefLevelModel>, nat), Fault>(
            (x, put_sli_row(a, x, fractions, levels).len()),
        ),
{
    broadcast use {crate::bits::group_read_written, law_pre_put_sli_levels};

    reveal(sli_row_at);
    reveal(put_sli_row);
    reveal(sli_row_ok);
    reveal(sli_row_can);
}

/// The layout of the reference levels of one sublayer: reading at `p` gives `x`
/// and ends at `q` if and only if these elements stand there in this order.
pub proof fn law_layout_sli_row(
    s: Seq<bool>,
    p: nat,
    fractions: u64,
    levels: u64,
    x: Seq<VvcSliRefLevelModel>,
    q: nat,
)
    ensures
        sli_row_at(s, p, fractions, levels) == Ok::<(Seq<VvcSliRefLevelModel>, nat), Fault>((x, q))
            <==> cursor(s, p).part(|p: nat| sli_levels_at(s, p, fractions, levels), x).ends(q),
{
    reveal(sli_row_at);
}

/// Reading the reference levels of one sublayer never fails.
pub broadcast proof fn law_faults_sli_row(s: Seq<bool>, p: nat, fractions: u64, levels: u64)
    ensures
        #[trigger] sli_row_at(s, p, fractions, levels) is Ok,
{
    broadcast use law_faults_sli_levels;

    reveal(sli_row_at);
}

/// What the writer accepts reads back: the reference levels of one sublayer,
/// where each field fits its width and what is not coded has the value that is
/// taken for it.
pub proof fn law_reads_sli_row(
    a: Seq<bool>,
    x: Seq<VvcSliRefLevelModel>,
    fractions: u64,
    levels: u64,
    s: Seq<bool>,
)
    requires
        sli_row_can(x, fractions, levels),
        sli_levels_ok(x, fractions, levels),
        pre(put_sli_row(a, x, fractions, levels), s),
    ensures
        sli_row_at(s, a.len(), fractions, levels) == Ok::<(Seq<VvcSliRefLevelModel>, nat), Fault>(
            (x, put_sli_row(a, x, fractions, levels).len()),
        ),
{
    assert(sli_row_ok(x, fractions, levels)) by {
        broadcast use crate::bits::law_fits_small;

        reveal(sli_row_ok);
        reveal(sli_row_can);
    }
    law_pre_put_sli_row(a, x, fractions, levels, s);
}

/// Reads the reference levels of one sublayer, behind the items before it.
pub open spec fn sli_table_item(
    s: Seq<bool>,
    fractions: u64,
    levels: u64,
) -> spec_fn(Seq<Seq<VvcSliRefLevelModel>>, nat) -> Read<Seq<VvcSliRefLevelModel>> {
    |done: Seq<Seq<VvcSliRefLevelModel>>, q: nat| sli_row_at(s, q, fractions, levels)
}

/// Writes the reference levels of one sublayer, behind the items before it.
pub open spec fn put_sli_table_item(
    fractions: u64,
    levels: u64,
) -> spec_fn(Seq<bool>, Seq<Seq<VvcSliRefLevelModel>>, Seq<VvcSliRefLevelModel>) -> Seq<bool> {
    |a: Seq<bool>, done: Seq<Seq<VvcSliRefLevelModel>>, x: Seq<VvcSliRefLevelModel>| put_sli_row(
        a,
        x,
        fractions,
        levels,
    )
}

/// Whether the reference levels of one sublayer may follow the items before it.
pub open spec fn sli_table_item_ok(
    fractions: u64,
    levels: u64,
) -> spec_fn(Seq<Seq<VvcSliRefLevelModel>>, Seq<VvcSliRefLevelModel>) -> bool {
    |done: Seq<Seq<VvcSliRefLevelModel>>, x: Seq<VvcSliRefLevelModel>| sli_row_ok(x, fractions, levels)
        && sli_row_can(x, fractions, levels)
}

/// `n` items at position `p`, each the reference levels of one sublayer.
#[verifier::opaque]
pub open spec fn sli_table_at(
    s: Seq<bool>,
    p: nat,
    fractions: u64,
    levels: u64,
    n: u64,
) -> Read<Seq<Seq<VvcSliRefLevelModel>>> {
    rep_at(sli_table_item(s, fractions, levels), p, n as nat)
}

/// The bits `a` followed by the items.
#[verifier::opaque]
pub open spec fn put_sli_table(
    a: Seq<bool>,
    xs: Seq<Seq<VvcSliRefLevelModel>>,
    fractions: u64,
    levels: u64,
    n: u64,
) -> Seq<bool> {
    put_rep(put_sli_table_item(fractions, levels), a, xs)
}

/// `n` items that reading can give.
#[verifier::opaque]
pub open spec fn sli_table_ok(
    xs: Seq<Seq<VvcSliRefLevelModel>>,
    fractions: u64,
    levels: u64,
    n: u64,
) -> bool {
    xs.len() == n
        && forall|i: int| 0 <= i < xs.len()
        ==> sli_row_ok(#[trigger] xs[i], fractions, levels)
        && sli_row_can(xs[i], fractions, levels)
}

/// `n` items that the writer accepts.
#[verifier::opaque]
pub open spec fn sli_table_can(
    xs: Seq<Seq<VvcSliRefLevelModel>>,
    fractions: u64,
    levels: u64,
    n: u64,
) -> bool {
    xs.len() == n && forall|i: int| 0 <= i < xs.len() ==> sli_row_can(#[trigger] xs[i], fractions, levels)
}

/// Writing what was read gives back the bits that were read.
pub broadcast proof fn law_put_sli_table_at(s: Seq<bool>, p: nat, fractions: u64, levels: u64, n: u64)
    ensures
        #[trigger] sli_table_at(s, p, fractions, levels, n) matches Ok((xs, q)) ==> {
            &&& xs.len() == n
            &&& sli_table_ok(xs, fractions, levels, n)
            &&& sli_table_can(xs, fractions, levels, n)
            &&& within(s, q)
                ==> within(s, p)
                && put_sli_table(upto(s, p), xs, fractions, levels, n) == upto(s, q)
        },
{
    broadcast use law_put_sli_row_at;

    reveal(sli_table_at);
    reveal(put_sli_table);
    reveal(sli_table_ok);
    reveal(sli_table_can);
    let ok = sli_table_item_ok(fractions, levels);
    law_put_rep_at(
        s,
        sli_table_item(s, fractions, levels),
        put_sli_table_item(fractions, levels),
        ok,
        p,
        n as nat,
    );
    if let Ok((xs, q)) = sli_table_at(s, p, fractions, levels, n) {
        assert forall|i: int| 0 <= i < xs.len() implies ok(xs.take(i), #[trigger] xs[i]) by {}
    }
}

/// What was written reads back as the items that were written.
pub broadcast proof fn law_pre_put_sli_table(
    a: Seq<bool>,
    xs: Seq<Seq<VvcSliRefLevelModel>>,
    fractions: u64,
    levels: u64,
    n: u64,
    s: Seq<bool>,
)
    requires
        #[trigger] pre(put_sli_table(a, xs, fractions, levels, n), s),
        sli_table_ok(xs, fractions, levels, n),
    ensures
        pre(a, s),
        sli_table_can(xs, fractions, levels, n),
        sli_table_at(s, a.len(), fractions, levels, n) == Ok::<(Seq<Seq<VvcSliRefLevelModel>>, nat), Fault>(
            (xs, put_sli_table(a, xs, fractions, levels, n).len()),
        ),
{
    broadcast use law_pre_put_sli_row;

    reveal(sli_table_at);
    reveal(put_sli_table);
    reveal(sli_table_ok);
    reveal(sli_table_can);
    law_rep_at_put(
        s,
        sli_table_item(s, fractions, levels),
        put_sli_table_item(fractions, levels),
        sli_table_item_ok(fractions, levels),
        a,
        xs,
    );
}

/// `n` items stand one behind the other: `n - 1` items, and then the reference
/// levels of one sublayer.
pub proof fn law_layout_sli_table(
    s: Seq<bool>,
    p: nat,
    fractions: u64,
    levels: u64,
    n: u64,
    xs: Seq<Seq<VvcSliRefLevelModel>>,
    q: nat,
)
    ensures
        sli_table_at(s, p, fractions, levels, n) == Ok::<(Seq<Seq<VvcSliRefLevelModel>>, nat), Fault>((xs, q)) <==> if n == 0 {
            xs.len() == 0 && q == p
        } else {
            &&& xs.len() == n
            &&& cursor(s, p)
                .part(|p: nat| sli_table_at(s, p, fractions, levels, (n - 1) as u64), xs.drop_last())
                .part(|p: nat| sli_row_at(s, p, fractions, levels), xs.last())
                .ends(q)
        },
{
    reveal(sli_table_at);
    lemma_rep_step(sli_table_item(s, fractions, levels), p, n as nat);
    if xs.len() == 0 {
        assert(xs =~= Seq::empty());
    } else {
        assert(xs =~= xs.drop_last().push(xs.last()));
    }
    if n > 0 {
        if let Ok((done, r)) = rep_at(sli_table_item(s, fractions, levels), p, (n - 1) as nat) {
            if let Ok((y, z)) = sli_table_item(s, fractions, levels)(done, r) {
                assert(done.push(y).drop_last() =~= done);
            }
        }
    }
}

/// What the writer accepts as `n` items reads back, where each of them is one that
/// reading can give.
pub proof fn law_reads_sli_table(
    a: Seq<bool>,
    xs: Seq<Seq<VvcSliRefLevelModel>>,
    fractions: u64,
    levels: u64,
    n: u64,
    s: Seq<bool>,
)
    requires
        sli_table_can(xs, fractions, levels, n),
        forall|i: int| 0 <= i < xs.len() ==> sli_row_ok(#[trigger] xs[i], fractions, levels),
        pre(put_sli_table(a, xs, fractions, levels, n), s),
    ensures
        xs.len() == n,
        sli_table_at(s, a.len(), fractions, levels, n) == Ok::<(Seq<Seq<VvcSliRefLevelModel>>, nat), Fault>(
            (xs, put_sli_table(a, xs, fractions, levels, n).len()),
        ),
{
    reveal(sli_table_can);
    assert(sli_table_ok(xs, fractions, levels, n)) by {
        reveal(sli_table_ok);
    }
    law_pre_put_sli_table(a, xs, fractions, levels, n, s);
}

/// Reading the items never fails.
pub broadcast proof fn law_faults_sli_table(s: Seq<bool>, p: nat, fractions: u64, levels: u64, n: u64)
    ensures
        #[trigger] sli_table_at(s, p, fractions, levels, n) is Ok,
{
    broadcast use law_faults_sli_row;

    reveal(sli_table_at);
    let f = sli_table_item(s, fractions, levels);
    assert forall|done: Seq<Seq<VvcSliRefLevelModel>>, q: nat| (#[trigger] f(done, q)) is Ok by {}
    lemma_rep_faults_none(f, p, n as nat);
}

fn parse_sli_table(r: &mut BitReader<'_>, fractions: u64, levels: u64, n: u64) -> (res: Result<
    Vec<Vec<VvcSliRefLevel>>,
    BitstreamError,
>)
    ensures
        final(r).bits() == old(r).bits(),
        final(r).bytes() == old(r).bytes(),
        match sli_table_at(old(r).bits(), old(r).pos(), fractions, levels, n) {
            Ok((x, p)) => res matches Ok(v) && rows_view(v@) == x && final(r).pos() == p,
            Err(f) => res matches Err(e) && e.fault() == f,
        },
{
    let ghost s = r.bits();
    let ghost p = r.pos();
    let ghost reads = sli_table_item(s, fractions, levels);
    let mut rows: Vec<Vec<VvcSliRefLevel>> = Vec::new();
    proof {
        reveal(sli_table_at);
        assert(rows_view(rows@) =~= Seq::empty());
    }
    let mut i: u64 = 0;
    while i < n
        invariant
            i <= n,
            reads == sli_table_item(s, fractions, levels),
            s == r.bits(),
            s == old(r).bits(),
            p == old(r).pos(),
            r.bytes() == old(r).bytes(),
            rep_at(reads, p, i as nat) == Ok::<(Seq<Seq<VvcSliRefLevelModel>>, nat), Fault>(
                (rows_view(rows@), r.pos()),
            ),
        decreases n - i,
    {
        let ghost before = rows@;
        proof {
            reveal(sli_row_at);
            if rep_at(reads, p, (i + 1) as nat) is Err {
                reveal(sli_table_at);
                lemma_rep_err(reads, p, (i + 1) as nat, n as nat);
            }
        }
        let row = parse_sli_levels(r, fractions, levels)?;
        rows.push(row);
        proof {
            assert(rows_view(rows@) =~= rows_view(before).push(seq_view(row@)));
        }
        i = i + 1;
    }
    Ok(rows)
}

fn write_sli_table(
    w: &mut BitWriter,
    x: &Vec<Vec<VvcSliRefLevel>>,
    fractions: u64,
    levels: u64,
    n: u64,
) -> (res: Result<
    (),
    BitstreamError,
>)
    ensures
        write_is(
            sli_table_can(rows_view(x@), fractions, levels, n),
            put_sli_table(old(w)@, rows_view(x@), fractions, levels, n),
            res,
            final(w)@,
        ),
{
    let ghost ys = rows_view(x@);
    let ghost puts = put_sli_table_item(fractions, levels);
    proof {
        reveal(sli_table_can);
        reveal(put_sli_table);
        assert(ys.take(0) =~= Seq::empty());
    }
    if x.len() as u64 != n {
        return Err(
            BitstreamError::invalid("subpic_level_info sublayer rows must match the sublayer-info flag"),
        );
    }
    let mut i: usize = 0;
    while i < x.len()
        invariant
            i <= x@.len(),
            ys == rows_view(x@),
            puts == put_sli_table_item(fractions, levels),
            w@ == put_rep(puts, old(w)@, ys.take(i as int)),
            forall|j: int| 0 <= j < i ==> sli_row_can(#[trigger] ys[j], fractions, levels),
        decreases x@.len() - i,
    {
        proof {
            reveal(sli_row_can);
            reveal(put_sli_row);
            assert(ys.take(i + 1).drop_last() =~= ys.take(i as int));
            assert(ys[i as int] == seq_view(x@[i as int]@));
            if !sli_row_can(ys[i as int], fractions, levels) {
                reveal(sli_table_can);
            }
        }
        write_sli_levels(w, &x[i], fractions, levels)?;
        i = i + 1;
    }
    proof {
        assert(ys.take(i as int) =~= ys);
    }
    Ok(())
}

proof fn lemma_sli_row_grows(a: Seq<bool>, row: Seq<VvcSliRefLevelModel>, fractions: u64, levels: u64)
    ensures
        put_sli_row(a, row, fractions, levels).len() >= a.len(),
        row.len() > 0 && row.last().ref_level_fraction_minus1.len() == fractions ==> put_sli_row(
            a,
            row,
            fractions,
            levels,
        ).len() >= a.len() + 8 * fractions,
{
    reveal(put_sli_row);
    reveal(put_sli_levels);
    let g = put_sli_levels_item(fractions);
    assert forall|b: Seq<bool>, d: Seq<VvcSliRefLevelModel>, x: VvcSliRefLevelModel|
        (#[trigger] g(b, d, x)).len() >= b.len() + 0 && g(b, d, x).len() >= b.len() + 8
            * x.ref_level_fraction_minus1.len() by {
        reveal(put_sli_level);
        let b1 = put_u(b, x.non_subpic_layers_fraction as nat, 8);
        let b2 = put_u(b1, x.ref_level_idc as nat, 8);
        lemma_put_u_shape(b, x.non_subpic_layers_fraction as nat, 8);
        lemma_put_u_shape(b1, x.ref_level_idc as nat, 8);
        lemma_put_u8s_len(b2, x.ref_level_fraction_minus1, 8);
    }
    lemma_put_rep_grows(g, a, row, 0);
    if row.len() > 0 {
        lemma_put_rep_grows(g, a, row.drop_last(), 0);
    }
}

proof fn lemma_sli_table_grows(
    a: Seq<bool>,
    t: Seq<Seq<VvcSliRefLevelModel>>,
    fractions: u64,
    levels: u64,
    n: u64,
)
    requires
        t.len() > 0,
        t.last().len() > 0,
        t.last().last().ref_level_fraction_minus1.len() == fractions,
    ensures
        put_sli_table(a, t, fractions, levels, n).len() >= a.len() + 8 * fractions,
{
    reveal(put_sli_table);
    let g = put_sli_table_item(fractions, levels);
    assert forall|b: Seq<bool>, d: Seq<Seq<VvcSliRefLevelModel>>, x: Seq<VvcSliRefLevelModel>|
        (#[trigger] g(b, d, x)).len() >= b.len() + 0 by {
        lemma_sli_row_grows(b, x, fractions, levels);
    }
    lemma_put_rep_grows(g, a, t.drop_last(), 0);
    lemma_sli_row_grows(put_rep(g, a, t.drop_last()), t.last(), fractions, levels);
}

proof fn lemma_sli_room(a: Seq<bool>, x: VvcSubpicLevelInfoModel, s: Seq<bool>)
    requires
        pre(put_sli(a, x), s),
        sli_ok(x),
    ensures
        ({
            let a1 = put_u(a, (x.sublayers[0].len() - 1) as u32 as nat, 3);
            let a2 = put_flag(a1, x.sli_cbr_constraint_flag);
            let a3 = put_flag(a2, x.sli_explicit_fraction_present_flag);
            let a4 = put_ue_if(a3, x.sli_num_subpics_minus1 as nat, x.sli_explicit_fraction_present_flag);
            bits_left(s, a4.len()) >= 8 * x.sli_num_subpics_minus1
        }),
{
    reveal(put_sli);
    reveal(sli_ok);
    reveal(sli_table_ok);
    reveal(sli_row_ok);
    reveal(sli_levels_ok);
    reveal(sli_level_ok);
    let a1 = put_u(a, (x.sublayers[0].len() - 1) as u32 as nat, 3);
    let a2 = put_flag(a1, x.sli_cbr_constraint_flag);
    let a3 = put_flag(a2, x.sli_explicit_fraction_present_flag);
    let a4 = put_ue_if(a3, x.sli_num_subpics_minus1 as nat, x.sli_explicit_fraction_present_flag);
    let a5 = put_u(a4, x.sli_max_sublayers_minus1 as nat, 3);
    let a6 = put_flag(a5, x.sli_sublayer_info_present_flag);
    let a7 = put_align(a6);
    lemma_put_u_shape(a4, x.sli_max_sublayers_minus1 as nat, 3);
    assert(a7.len() >= a6.len() && a6.len() >= a5.len()) by {
        reveal(put_flag);
        reveal(put_align);
        lemma_put_u_shape(a6, 0, pad_len(a6.len()));
    }
    let fractions = if x.sli_explicit_fraction_present_flag {
        (x.sli_num_subpics_minus1 as u64 + 1) as u64
    } else {
        0u64
    };
    let levels = ((x.sublayers[0].len() - 1) as u32 as u64 + 1) as u64;
    let n = if x.sli_sublayer_info_present_flag {
        (x.sli_max_sublayers_minus1 as u64 + 1) as u64
    } else {
        1u64
    };
    let t = x.sublayers;
    assert(sli_row_ok(t[t.len() - 1], fractions, levels));
    assert(sli_level_ok(t.last()[t.last().len() - 1], fractions));
    lemma_sli_table_grows(a7, t, fractions, levels, n);
    assert(bits_left(s, a4.len()) >= 8 * x.sli_num_subpics_minus1) by {
        reveal(pre);
    }
}

/// The mathematical model of a [`VvcSubpicLevelInfo`].
pub struct VvcSubpicLevelInfoModel {
    pub sli_cbr_constraint_flag: bool,
    pub sli_explicit_fraction_present_flag: bool,
    pub sli_num_subpics_minus1: u32,
    pub sli_max_sublayers_minus1: u8,
    pub sli_sublayer_info_present_flag: bool,
    pub sublayers: Seq<Seq<VvcSliRefLevelModel>>,
}

impl View for VvcSubpicLevelInfo {
    type V = VvcSubpicLevelInfoModel;

    open spec fn view(&self) -> VvcSubpicLevelInfoModel {
        VvcSubpicLevelInfoModel {
            sli_cbr_constraint_flag: self.sli_cbr_constraint_flag,
            sli_explicit_fraction_present_flag: self.sli_explicit_fraction_present_flag,
            sli_num_subpics_minus1: self.sli_num_subpics_minus1,
            sli_max_sublayers_minus1: self.sli_max_sublayers_minus1,
            sli_sublayer_info_present_flag: self.sli_sublayer_info_present_flag,
            sublayers: rows_view(self.sublayers@),
        }
    }
}

/// `subpic_level_info()` (§D.7.1) at position `p`.
#[verifier::opaque]
pub open spec fn sli_at(s: Seq<bool>, p: nat) -> Read<VvcSubpicLevelInfoModel> {
    let num = u32_at(s, p, 3);
    let p = adv(p, 3);
    let sli_cbr_constraint_flag = flag_at(s, p);
    let p = adv(p, 1);
    let sli_explicit_fraction_present_flag = flag_at(s, p);
    let p = adv(p, 1);
    match ue_if(s, p, sli_explicit_fraction_present_flag, 0)
    { Err(f) => Err(f), Ok((sli_num_subpics_minus1, p)) => {
    if 8 * sli_num_subpics_minus1 > bits_left(s, p) { Err(Fault::End) } else {
    let sli_max_sublayers_minus1 = u8_at(s, p, 3);
    let p = adv(p, 3);
    let sli_sublayer_info_present_flag = flag_at(s, p);
    let p = adv(p, 1);
    match align_at(s, p) { Err(f) => Err(f), Ok(p) => {
    let fractions = if sli_explicit_fraction_present_flag {
        (sli_num_subpics_minus1 as u64 + 1) as u64
    } else {
        0u64
    };
    match sli_table_at(
        s,
        p,
        fractions,
        (num as u64 + 1) as u64,
        (if sli_sublayer_info_present_flag { (sli_max_sublayers_minus1 as u64 + 1) as u64 } else { 1u64 }),
    )
    { Err(f) => Err(f), Ok((sublayers, p)) => {
    Ok((
        VvcSubpicLevelInfoModel {
            sli_cbr_constraint_flag,
            sli_explicit_fraction_present_flag,
            sli_num_subpics_minus1,
            sli_max_sublayers_minus1,
            sli_sublayer_info_present_flag,
            sublayers,
        },
        p,
    ))
    }}}}}}}
}

/// The bits `a` followed by `subpic_level_info()` (§D.7.1).
#[verifier::opaque]
pub open spec fn put_sli(a: Seq<bool>, x: VvcSubpicLevelInfoModel) -> Seq<bool> {
    let num = (x.sublayers[0].len() - 1) as u32;
    let a = put_u(a, num as nat, 3);
    let a = put_flag(a, x.sli_cbr_constraint_flag);
    let a = put_flag(a, x.sli_explicit_fraction_present_flag);
    let a = put_ue_if(a, x.sli_num_subpics_minus1 as nat, x.sli_explicit_fraction_present_flag);
    let a = put_u(a, x.sli_max_sublayers_minus1 as nat, 3);
    let a = put_flag(a, x.sli_sublayer_info_present_flag);
    let a = put_align(a);
    let fractions = if x.sli_explicit_fraction_present_flag {
        (x.sli_num_subpics_minus1 as u64 + 1) as u64
    } else {
        0u64
    };
    let a = put_sli_table(
        a,
        x.sublayers,
        fractions,
        (num as u64 + 1) as u64,
        (
            if x.sli_sublayer_info_present_flag {
                (x.sli_max_sublayers_minus1 as u64 + 1) as u64
            } else {
                1u64
            }
        ),
    );
    a
}

/// The values of `subpic_level_info()` (§D.7.1) that reading can give.
#[verifier::opaque]
pub open spec fn sli_ok(x: VvcSubpicLevelInfoModel) -> bool {
    &&& x.sublayers.len() == (
        if x.sli_sublayer_info_present_flag { x.sli_max_sublayers_minus1 + 1 } else { 1 }
    )
    &&& 1 <= x.sublayers[0].len() && x.sublayers[0].len() <= 8
    &&& {
        let num = (x.sublayers[0].len() - 1) as u32;
        &&& fits(num as nat, 3)
        &&& if x.sli_explicit_fraction_present_flag {
            ue_fits(x.sli_num_subpics_minus1 as nat)
        } else {
            x.sli_num_subpics_minus1 == 0
        }
        &&& fits(x.sli_max_sublayers_minus1 as nat, 3)
        &&& {
            let fractions = if x.sli_explicit_fraction_present_flag {
                (x.sli_num_subpics_minus1 as u64 + 1) as u64
            } else {
                0u64
            };
            &&& sli_table_ok(
                x.sublayers,
                fractions,
                (num as u64 + 1) as u64,
                (
                    if x.sli_sublayer_info_present_flag {
                        (x.sli_max_sublayers_minus1 as u64 + 1) as u64
                    } else {
                        1u64
                    }
                ),
            )
        }
    }
}

/// The values of `subpic_level_info()` (§D.7.1) that the writer accepts.
#[verifier::opaque]
pub open spec fn sli_can(x: VvcSubpicLevelInfoModel) -> bool {
    &&& x.sublayers.len() == (
        if x.sli_sublayer_info_present_flag { x.sli_max_sublayers_minus1 + 1 } else { 1 }
    )
    &&& 1 <= x.sublayers[0].len() && x.sublayers[0].len() <= 8
    &&& {
        let num = (x.sublayers[0].len() - 1) as u32;
        &&& x.sli_explicit_fraction_present_flag || x.sli_num_subpics_minus1 == 0
        &&& x.sli_explicit_fraction_present_flag ==> ue_fits(x.sli_num_subpics_minus1 as nat)
        &&& x.sli_max_sublayers_minus1 <= 7
        &&& {
            let fractions = if x.sli_explicit_fraction_present_flag {
                (x.sli_num_subpics_minus1 as u64 + 1) as u64
            } else {
                0u64
            };
            &&& sli_table_can(
                x.sublayers,
                fractions,
                (num as u64 + 1) as u64,
                (
                    if x.sli_sublayer_info_present_flag {
                        (x.sli_max_sublayers_minus1 as u64 + 1) as u64
                    } else {
                        1u64
                    }
                ),
            )
        }
    }
}

/// Parses `subpic_level_info()` (§D.7.1).
fn parse_sli(r: &mut BitReader<'_>) -> (res: Result<VvcSubpicLevelInfo, BitstreamError>)
    ensures
        read_view_is(sli_at(old(r).bits(), old(r).pos()), res, *old(r), *final(r)),
{
    proof {
        reveal(sli_at);
    }
    let num: u32 = r.u(3);
    let sli_cbr_constraint_flag: bool = r.flag();
    let sli_explicit_fraction_present_flag: bool = r.flag();
    let sli_num_subpics_minus1: u32 = r.ue_if(sli_explicit_fraction_present_flag, 0)?;
    if 8 * sli_num_subpics_minus1 as u128 > r.bits_remaining() {
        return Err(BitstreamError::unexpected_end("sli_num_subpics_minus1 exceeds remaining payload"));
    }
    let sli_max_sublayers_minus1: u8 = r.u8(3);
    let sli_sublayer_info_present_flag: bool = r.flag();
    r.read_align("subpic_level_info sli_alignment_zero_bit was 1 (§D.7.1)")?;
    let fractions: u64 = if sli_explicit_fraction_present_flag {
        sli_num_subpics_minus1 as u64 + 1
    } else {
        0u64
    };
    let sublayers = parse_sli_table(
        r,
        fractions,
        num as u64 + 1,
        (if sli_sublayer_info_present_flag { sli_max_sublayers_minus1 as u64 + 1 } else { 1u64 }),
    )?;
    Ok(VvcSubpicLevelInfo {
        sli_cbr_constraint_flag,
        sli_explicit_fraction_present_flag,
        sli_num_subpics_minus1,
        sli_max_sublayers_minus1,
        sli_sublayer_info_present_flag,
        sublayers,
    })
}

/// Emits `subpic_level_info()` (§D.7.1), the inverse of [`parse_sli`].
fn write_sli(w: &mut BitWriter, x: &VvcSubpicLevelInfo) -> (res: Result<(), BitstreamError>)
    ensures
        write_is(sli_can(x@), put_sli(old(w)@, x@), res, final(w)@),
{
    proof {
        reveal(put_sli);
        reveal(sli_can);
    }
    if !(x.sublayers.len() == (if x.sli_sublayer_info_present_flag { x.sli_max_sublayers_minus1 as usize + 1 } else { 1 })) {
        return Err(
            BitstreamError::invalid("subpic_level_info sublayer rows must match the sublayer-info flag"),
        );
    }
    if !(1 <= x.sublayers[0].len() && x.sublayers[0].len() <= 8) {
        return Err(
            BitstreamError::invalid("sli_num_ref_levels_minus1 must fit u(3) with at least one level"),
        );
    }
    let num: u32 = (x.sublayers[0].len() - 1) as u32;
    w.write_bits(num, 3);
    w.write_flag(x.sli_cbr_constraint_flag);
    w.write_flag(x.sli_explicit_fraction_present_flag);
    if !(x.sli_explicit_fraction_present_flag || x.sli_num_subpics_minus1 == 0) {
        return Err(BitstreamError::invalid("sli_num_subpics_minus1 is only coded with explicit fractions"));
    }
    w.write_ue_if(x.sli_num_subpics_minus1, x.sli_explicit_fraction_present_flag)?;
    if x.sli_max_sublayers_minus1 > 7 {
        return Err(BitstreamError::invalid("sli_max_sublayers_minus1 does not fit u(3)"));
    }
    w.write_bits(x.sli_max_sublayers_minus1 as u32, 3);
    w.write_flag(x.sli_sublayer_info_present_flag);
    w.align_to_byte();
    let fractions: u64 = if x.sli_explicit_fraction_present_flag {
        x.sli_num_subpics_minus1 as u64 + 1
    } else {
        0u64
    };
    write_sli_table(
        w,
        &x.sublayers,
        fractions,
        num as u64 + 1,
        (if x.sli_sublayer_info_present_flag { x.sli_max_sublayers_minus1 as u64 + 1 } else { 1u64 }),
    )?;
    Ok(())
}

/// Writing `subpic_level_info()` (§D.7.1) gives back the bits it was read from.
pub broadcast proof fn law_put_sli_at(s: Seq<bool>, p: nat)
    ensures
        #[trigger] sli_at(s, p) matches Ok((x, q)) ==> {
            &&& sli_ok(x)
            &&& sli_can(x)
            &&& within(s, q) ==> within(s, p) && put_sli(upto(s, p), x) == upto(s, q)
        },
{
    broadcast use {crate::bits::group_write_read, law_put_sli_table_at};

    reveal(sli_at);
    reveal(put_sli);
    reveal(sli_ok);
    reveal(sli_can);
    reveal(sli_table_ok);
    reveal(sli_row_ok);
    reveal(sli_levels_ok);
}

/// Reading gives back `subpic_level_info()` (§D.7.1) as it was written.
pub broadcast proof fn law_pre_put_sli(a: Seq<bool>, x: VvcSubpicLevelInfoModel, s: Seq<bool>)
    requires
        #[trigger] pre(put_sli(a, x), s),
        sli_ok(x),
    ensures
        pre(a, s),
        sli_can(x),
        sli_at(s, a.len()) == Ok::<(VvcSubpicLevelInfoModel, nat), Fault>((x, put_sli(a, x).len())),
{
    broadcast use {crate::bits::group_read_written, law_pre_put_sli_table};

    reveal(sli_at);
    reveal(put_sli);
    reveal(sli_ok);
    reveal(sli_can);
    reveal(sli_table_ok);
    reveal(sli_row_ok);
    reveal(sli_levels_ok);
    lemma_sli_room(a, x, s);
}

/// The layout of `subpic_level_info()` (§D.7.1): reading at `p` gives `x` and
/// ends at `q` if and only if these elements stand there in this order.
pub proof fn law_layout_sli(s: Seq<bool>, p: nat, x: VvcSubpicLevelInfoModel, q: nat)
    ensures
        sli_at(s, p) == Ok::<(VvcSubpicLevelInfoModel, nat), Fault>((x, q)) <==> ({
            let c = cursor(s, p);
            let num = c.next_u32(3);
            let fractions = if x.sli_explicit_fraction_present_flag {
                (x.sli_num_subpics_minus1 as u64 + 1) as u64
            } else {
                0u64
            };
            &&& c
                .u32(3, num)
                .flag(x.sli_cbr_constraint_flag)
                .flag(x.sli_explicit_fraction_present_flag)
                .ue_if(x.sli_explicit_fraction_present_flag, x.sli_num_subpics_minus1, 0)
                .room(8 * x.sli_num_subpics_minus1)
                .u8(3, x.sli_max_sublayers_minus1)
                .flag(x.sli_sublayer_info_present_flag)
                .align()
                .part(
                    |p: nat| sli_table_at(
                        s,
                        p,
                        fractions,
                        (num as u64 + 1) as u64,
                        (
                            if x.sli_sublayer_info_present_flag {
                                (x.sli_max_sublayers_minus1 as u64 + 1) as u64
                            } else {
                                1u64
                            }
                        ),
                    ),
                    x.sublayers,
                )
                .ends(q)
        }),
{
    reveal(sli_at);
    reveal(ue_if);
}

/// What reads as `subpic_level_info()` (§D.7.1) up to this point, and meets the
/// last condition, is refused as too short.
pub proof fn law_refused_sli(s: Seq<bool>, p: nat, x: VvcSubpicLevelInfoModel)
    ensures
        ({
            let c = cursor(s, p);
            let num = c.next_u32(3);
            let c = c
                .u32(3, num)
                .flag(x.sli_cbr_constraint_flag)
                .flag(x.sli_explicit_fraction_present_flag)
                .ue_if(x.sli_explicit_fraction_present_flag, x.sli_num_subpics_minus1, 0);
            &&& c.good
            &&& 8 * x.sli_num_subpics_minus1 > bits_left(s, c.pos)
        }) ==> sli_at(s, p) == Err::<(VvcSubpicLevelInfoModel, nat), Fault>(Fault::End),
{
    reveal(sli_at);
    reveal(ue_if);
}

/// Reading `subpic_level_info()` (§D.7.1) never fails with an error of this
/// class.
pub broadcast proof fn law_faults_sli(s: Seq<bool>, p: nat)
    ensures
        #[trigger] sli_at(s, p) matches Err(f) ==> f != Fault::Unsupported,
{
    broadcast use {crate::bits::law_faults_ue, law_faults_sli_table};

    reveal(sli_at);
    reveal(align_at);
    reveal(ue_if);
}

/// What the writer accepts reads back: `subpic_level_info()` (§D.7.1), where
/// each field fits its width and what is not coded has the value that is taken
/// for it.
pub proof fn law_reads_sli(a: Seq<bool>, x: VvcSubpicLevelInfoModel, s: Seq<bool>)
    requires
        sli_can(x),
        ({
            let num = (x.sublayers[0].len() - 1) as u32;
            &&& (!x.sli_explicit_fraction_present_flag ==> x.sli_num_subpics_minus1 == 0)
            &&& {
                let fractions = if x.sli_explicit_fraction_present_flag {
                    (x.sli_num_subpics_minus1 as u64 + 1) as u64
                } else {
                    0u64
                };
                &&& sli_table_ok(
                    x.sublayers,
                    fractions,
                    (num as u64 + 1) as u64,
                    (
                        if x.sli_sublayer_info_present_flag {
                            (x.sli_max_sublayers_minus1 as u64 + 1) as u64
                        } else {
                            1u64
                        }
                    ),
                )
            }
        }),
        pre(put_sli(a, x), s),
    ensures
        sli_at(s, a.len()) == Ok::<(VvcSubpicLevelInfoModel, nat), Fault>((x, put_sli(a, x).len())),
{
    assert(sli_ok(x)) by {
        broadcast use crate::bits::law_fits_small;

        reveal(sli_ok);
        reveal(sli_can);
    }
    law_pre_put_sli(a, x, s);
}

/// Each field of the model of a [`VvcSubpicLevelInfo`] is the field of that name.
pub proof fn law_view_sli(x: VvcSubpicLevelInfo)
    ensures
        x@.sli_cbr_constraint_flag == x.sli_cbr_constraint_flag,
        x@.sli_explicit_fraction_present_flag == x.sli_explicit_fraction_present_flag,
        x@.sli_num_subpics_minus1 == x.sli_num_subpics_minus1,
        x@.sli_max_sublayers_minus1 == x.sli_max_sublayers_minus1,
        x@.sli_sublayer_info_present_flag == x.sli_sublayer_info_present_flag,
        x@.sublayers == rows_view(x.sublayers@),
{
}

/// The subpic_level_info that the message `m` holds.
pub open spec fn sli_of(m: SeiMessageModel) -> Result<VvcSubpicLevelInfoModel, Fault> {
    if m.payload_type != SEI_TYPE_SUBPIC_LEVEL_INFO {
        Err(Fault::Invalid)
    } else {
        payload_read(bits_of(m.payload), sli_at(bits_of(m.payload), 0))
    }
}

/// The bits of the payload that holds `x`.
pub open spec fn sli_payload(x: VvcSubpicLevelInfoModel) -> Seq<bool> {
    put_payload_end(put_sli(Seq::empty(), x))
}

/// Decode a `subpic_level_info()` payload (§D.7.1).
pub fn decode_subpic_level_info(msg: &SeiMessage) -> (res: Result<VvcSubpicLevelInfo, BitstreamError>)
    ensures
        nal_read_is(sli_of(msg@), res),
{
    if msg.payload_type != SEI_TYPE_SUBPIC_LEVEL_INFO {
        return Err(
            Message::new("expected subpic_level_info payloadType ")
                .num(SEI_TYPE_SUBPIC_LEVEL_INFO as i128)
                .with(", got ")
                .num(msg.payload_type as i128)
                .invalid(),
        );
    }
    let mut r = BitReader::new(msg.payload.as_slice());
    let x = parse_sli(&mut r)?;
    read_payload_alignment(&mut r, "subpic_level_info")?;
    Ok(x)
}

/// Encode a `subpic_level_info()` into a framed [`SeiMessage`], the
/// byte-exact inverse of [`decode_subpic_level_info`].
pub fn encode_subpic_level_info(x: &VvcSubpicLevelInfo) -> (res: Result<SeiMessage, BitstreamError>)
    ensures
        payload_write_is(sli_can(x@), SEI_TYPE_SUBPIC_LEVEL_INFO, sli_payload(x@), res),
{
    let mut w = BitWriter::new();
    write_sli(&mut w, x)?;
    Ok(SeiMessage { payload_type: SEI_TYPE_SUBPIC_LEVEL_INFO, payload: finish_payload(w) })
}

/// A subpic_level_info message is one of type 203, whose payload is its
/// fields and the closing bits.
pub proof fn law_sli_message(m: SeiMessageModel, x: VvcSubpicLevelInfoModel)
    ensures
        sli_of(m) == Ok::<VvcSubpicLevelInfoModel, Fault>(x) <==> ({
            let s = bits_of(m.payload);
            let c = cursor(s, 0).part(|p: nat| sli_at(s, p), x);
            &&& m.payload_type == 203
            &&& c.good && c.pos <= s.len()
            &&& s == put_payload_end(upto(s, c.pos))
        }),
        m.payload_type != 203 ==> sli_of(m) == Err::<VvcSubpicLevelInfoModel, Fault>(Fault::Invalid),
{
}

/// [`decode_subpic_level_info`] gives the value that the message holds, or an error of its class,
/// and [`encode_subpic_level_info`] the message of type 203 with the bits of the value and
/// the closing bits.
pub proof fn law_decode_subpic_level_info(
    m: SeiMessage,
    x: VvcSubpicLevelInfo,
    decoded: Result<VvcSubpicLevelInfo, BitstreamError>,
    encoded: Result<SeiMessage, BitstreamError>,
)
    requires
        call_ensures(decode_subpic_level_info, (&m, ), decoded),
        call_ensures(encode_subpic_level_info, (&x, ), encoded),
    ensures
        match decoded {
            Ok(v) => sli_of(m@) == Ok::<VvcSubpicLevelInfoModel, Fault>(v@),
            Err(e) => sli_of(m@) == Err::<VvcSubpicLevelInfoModel, Fault>(e.fault()),
        },
        match encoded {
            Ok(n) => {
                &&& sli_can(x@)
                &&& n.payload_type == 203
                &&& bits_of(n.payload@) == put_payload_end(put_sli(Seq::empty(), x@))
            },
            Err(e) => !sli_can(x@) && e.fault() == Fault::Invalid,
        },
{
}

/// Encoding what was decoded gives back the payload.
pub proof fn law_encode_decoded_sli(m: SeiMessageModel)
    requires
        m.payload.len() <= usize::MAX,
    ensures
        sli_of(m) matches Ok(x) ==> {
            &&& sli_ok(x)
            &&& sli_can(x)
            &&& sli_payload(x) == bits_of(m.payload)
            &&& forall|out: Seq<u8>| bits_of(out) == sli_payload(x) ==> out == m.payload
        },
{
    let s = bits_of(m.payload);
    lemma_bits_of_len(m.payload);
    if let Ok((x, p)) = sli_at(s, 0) {
        if payload_end_at(s, p) is Ok {
            law_put_sli_at(s, 0);
            lemma_payload_end(s, p);
            assert(upto(s, 0) =~= Seq::empty()) by {
                reveal(upto);
            }
            assert forall|out: Seq<u8>| bits_of(out) == sli_payload(x) implies out == m.payload by {
                lemma_bits_of_injective(out, m.payload);
            }
        }
    }
}

/// Decoding what was encoded gives back the value.
pub proof fn law_decode_encoded_sli(x: VvcSubpicLevelInfoModel, m: SeiMessageModel)
    requires
        sli_ok(x),
        m.payload_type == SEI_TYPE_SUBPIC_LEVEL_INFO,
        bits_of(m.payload) == sli_payload(x),
        m.payload.len() <= usize::MAX,
    ensures
        sli_can(x),
        sli_of(m) == Ok::<VvcSubpicLevelInfoModel, Fault>(x),
{
    let s = bits_of(m.payload);
    lemma_bits_of_len(m.payload);
    lemma_payload_closed(put_sli(Seq::empty(), x), s);
    law_pre_put_sli(Seq::empty(), x, s);
}

// ─────────────────────────── Scalable nesting (§D.6) ────────────────────────

/// `scalable_nesting()` (§D.6.1). Nested SEI messages are surfaced as
/// raw [`SeiMessage`]s (decode them with the same typed decoders).
#[derive(Debug, Clone, Default, PartialEq, Eq)]
pub struct VvcScalableNesting {
    pub sn_ols_flag: bool,
    pub sn_subpic_flag: bool,
    /// `sn_ols_idx_delta_minus1[i]` — coded iff `sn_ols_flag`.
    pub sn_ols_idx_delta_minus1: Vec<u32>,
    /// Coded iff `!sn_ols_flag`.
    pub sn_all_layers_flag: bool,
    /// `sn_layer_id[1..=sn_num_layers_minus1]` — coded iff
    /// `!sn_ols_flag && !sn_all_layers_flag` (`sn_layer_id[0]` is the
    /// current layer and never coded).
    pub sn_layer_ids: Vec<u8>,
    /// Coded iff `sn_subpic_flag`.
    pub sn_subpic_id_len_minus1: u32,
    pub sn_subpic_ids: Vec<u32>,
    pub messages: Vec<SeiMessage>,
}

/// sn_num_seis_minus1 for `n` nested messages; 64 if it cannot be coded.
pub open spec fn nested_minus1(n: nat) -> u32 {
    if 1 <= n <= 64 {
        (n - 1) as u32
    } else {
        64
    }
}

/// The mathematical model of a [`VvcScalableNesting`].
pub struct VvcScalableNestingModel {
    pub head: SnHeadModel,
    pub messages: Seq<SeiMessageModel>,
}

impl View for VvcScalableNesting {
    type V = VvcScalableNestingModel;

    open spec fn view(&self) -> VvcScalableNestingModel {
        VvcScalableNestingModel {
            head: SnHeadModel {
                sn_ols_flag: self.sn_ols_flag,
                sn_subpic_flag: self.sn_subpic_flag,
                sn_ols_idx_delta_minus1: self.sn_ols_idx_delta_minus1@,
                sn_all_layers_flag: self.sn_all_layers_flag,
                sn_layer_ids: self.sn_layer_ids@,
                sn_subpic_id_len_minus1: self.sn_subpic_id_len_minus1,
                sn_subpic_ids: self.sn_subpic_ids@,
                num_seis: nested_minus1(self.messages@.len()),
            },
            messages: seq_view(self.messages@),
        }
    }
}

/// The OLS indices at position `p`, none unless `present`.
#[verifier::opaque]
pub open spec fn ols_idx_at(s: Seq<bool>, p: nat, present: bool) -> Read<Seq<u32>> {
    match ue_if(s, p, present, 0) { Err(f) => Err(f), Ok((num, p)) => {
    let count = if present { (num as u64 + 1) as u64 } else { 0u64 };
    if count as int > bits_left(s, p) { Err(Fault::End) } else {
    match ues_at(s, p, count as nat) { Err(f) => Err(f), Ok((v, p)) => {
    Ok((v, p)) }}}}}
}

/// The bits `a` followed by the OLS indices.
#[verifier::opaque]
pub open spec fn put_ols_idx(a: Seq<bool>, x: Seq<u32>, present: bool) -> Seq<bool> {
    let num = if present { (x.len() - 1) as u32 } else { 0 };
    let a = put_ue_if(a, num as nat, present);
    let a = put_ues(a, x);
    a
}

/// The values of the OLS indices that reading can give.
#[verifier::opaque]
pub open spec fn ols_idx_ok(x: Seq<u32>, present: bool) -> bool {
    &&& if present { 1 <= x.len() && x.len() <= 0xffff_ffff } else { x.len() == 0 }
    &&& {
        let num = if present { (x.len() - 1) as u32 } else { 0 };
        &&& if present { ue_fits(num as nat) } else { num == 0 }
        &&& {
            let count = if present { (num as u64 + 1) as u64 } else { 0u64 };
            &&& x.len() == count
            &&& ues_ok(x)
        }
    }
}

/// The values of the OLS indices that the writer accepts.
#[verifier::opaque]
pub open spec fn ols_idx_can(x: Seq<u32>, present: bool) -> bool {
    &&& if present { 1 <= x.len() && x.len() <= 0xffff_ffff } else { x.len() == 0 }
    &&& {
        let num = if present { (x.len() - 1) as u32 } else { 0 };
        &&& present ==> ue_fits(num as nat)
        &&& ues_ok(x)
    }
}

/// Parses the OLS indices.
fn parse_ols_idx(r: &mut BitReader<'_>, present: bool) -> (res: Result<Vec<u32>, BitstreamError>)
    ensures
        read_view_is(ols_idx_at(old(r).bits(), old(r).pos(), present), res, *old(r), *final(r)),
{
    proof {
        reveal(ols_idx_at);
    }
    let num: u32 = r.ue_if(present, 0)?;
    let count: u64 = if present { num as u64 + 1 } else { 0u64 };
    if count as u128 > r.bits_remaining() {
        return Err(BitstreamError::unexpected_end("sn_num_olss_minus1 exceeds remaining payload"));
    }
    let v = r.read_ues(count)?;
    Ok(v)
}

/// Emits the OLS indices, the inverse of [`parse_ols_idx`].
fn write_ols_idx(w: &mut BitWriter, x: &Vec<u32>, present: bool) -> (res: Result<(), BitstreamError>)
    ensures
        write_is(ols_idx_can(x@, present), put_ols_idx(old(w)@, x@, present), res, final(w)@),
{
    proof {
        reveal(put_ols_idx);
        reveal(ols_idx_can);
    }
    if !(if present { 1 <= (*x).len() && (*x).len() <= 0xffff_ffff } else { (*x).len() == 0 }) {
        return Err(
            if present {
                BitstreamError::invalid("scalable_nesting OLS mode needs at least one OLS index")
            } else {
                BitstreamError::invalid("scalable_nesting OLS indices are not coded in layer mode")
            },
        );
    }
    let num: u32 = if present { ((*x).len() - 1) as u32 } else { 0 };
    w.write_ue_if(num, present)?;
    w.write_ues(x.as_slice())?;
    Ok(())
}

/// Writing the OLS indices gives back the bits it was read from.
pub broadcast proof fn law_put_ols_idx_at(s: Seq<bool>, p: nat, present: bool)
    ensures
        #[trigger] ols_idx_at(s, p, present) matches Ok((x, q)) ==> {
            &&& ols_idx_ok(x, present)
            &&& ols_idx_can(x, present)
            &&& within(s, q) ==> within(s, p) && put_ols_idx(upto(s, p), x, present) == upto(s, q)
        },
{
    broadcast use {crate::bits::group_write_read, crate::bits::group_write_read_lists};

    reveal(ols_idx_at);
    reveal(put_ols_idx);
    reveal(ols_idx_ok);
    reveal(ols_idx_can);
}

/// Reading gives back the OLS indices as it was written.
pub broadcast proof fn law_pre_put_ols_idx(a: Seq<bool>, x: Seq<u32>, present: bool, s: Seq<bool>)
    requires
        #[trigger] pre(put_ols_idx(a, x, present), s),
        ols_idx_ok(x, present),
    ensures
        pre(a, s),
        ols_idx_can(x, present),
        ols_idx_at(s, a.len(), present) == Ok::<(Seq<u32>, nat), Fault>(
            (x, put_ols_idx(a, x, present).len()),
        ),
{
    broadcast use {crate::bits::group_read_written, crate::bits::group_read_written_lists};

    reveal(ols_idx_at);
    reveal(put_ols_idx);
    reveal(ols_idx_ok);
    reveal(ols_idx_can);
    let num = if present { (x.len() - 1) as u32 } else { 0 };
    let a1 = put_ue_if(a, num as nat, present);
    lemma_put_ues_grows(a1, x);
    assert(bits_left(s, a1.len()) >= x.len()) by {
        reveal(pre);
    }
}

/// The layout of the OLS indices: reading at `p` gives `x` and ends at `q` if
/// and only if these elements stand there in this order.
pub proof fn law_layout_ols_idx(s: Seq<bool>, p: nat, present: bool, x: Seq<u32>, q: nat)
    ensures
        ols_idx_at(s, p, present) == Ok::<(Seq<u32>, nat), Fault>((x, q)) <==> ({
            let c = cursor(s, p);
            let num = if present { c.next_ue() } else { 0 };
            let count = if present { (num as u64 + 1) as u64 } else { 0u64 };
            &&& c
                .ue_if(present, num, 0)
                .room(count as int)
                .part(|p: nat| ues_at(s, p, count as nat), x)
                .ends(q)
        }),
{
    reveal(ols_idx_at);
    reveal(ue_if);
}

/// What reads as the OLS indices up to this point, and meets the last
/// condition, is refused as too short.
pub proof fn law_refused_ols_idx(s: Seq<bool>, p: nat, present: bool, x: Seq<u32>)
    ensures
        ({
            let c = cursor(s, p);
            let num = if present { c.next_ue() } else { 0 };
            let count = if present { (num as u64 + 1) as u64 } else { 0u64 };
            let c = c.ue_if(present, num, 0);
            &&& c.good
            &&& count as int > bits_left(s, c.pos)
        }) ==> ols_idx_at(s, p, present) == Err::<(Seq<u32>, nat), Fault>(Fault::End),
{
    reveal(ols_idx_at);
    reveal(ue_if);
}

/// Reading the OLS indices never fails with an error of this class.
pub broadcast proof fn law_faults_ols_idx(s: Seq<bool>, p: nat, present: bool)
    ensures
        #[trigger] ols_idx_at(s, p, present) matches Err(f) ==> f != Fault::Unsupported,
{
    broadcast use {crate::bits::law_faults_ue, crate::bits::law_faults_ues};

    reveal(ols_idx_at);
    reveal(ue_if);
}

/// What the writer accepts reads back: the OLS indices, where each field fits
/// its width and what is not coded has the value that is taken for it.
pub proof fn law_reads_ols_idx(a: Seq<bool>, x: Seq<u32>, present: bool, s: Seq<bool>)
    requires
        ols_idx_can(x, present),
        pre(put_ols_idx(a, x, present), s),
    ensures
        ols_idx_at(s, a.len(), present) == Ok::<(Seq<u32>, nat), Fault>(
            (x, put_ols_idx(a, x, present).len()),
        ),
{
    assert(ols_idx_ok(x, present)) by {
        broadcast use crate::bits::law_fits_small;

        reveal(ols_idx_ok);
        reveal(ols_idx_can);
    }
    law_pre_put_ols_idx(a, x, present, s);
}

/// The layer ids behind the first at position `p`, none unless `present`.
#[verifier::opaque]
pub open spec fn layer_ids_at(s: Seq<bool>, p: nat, present: bool) -> Read<Seq<u8>> {
    match ue_if(s, p, present, 0) { Err(f) => Err(f), Ok((num, p)) => {
    if num > 63 { Err(Fault::Invalid) } else {
    match u8s_at(s, p, 6, (num as u64) as nat) { Err(f) => Err(f), Ok((v, p)) => {
    Ok((v, p)) }}}}}
}

/// The bits `a` followed by the layer ids behind the first.
#[verifier::opaque]
pub open spec fn put_layer_ids(a: Seq<bool>, x: Seq<u8>, present: bool) -> Seq<bool> {
    let num = if present { x.len() as u32 } else { 0 };
    let a = put_ue_if(a, num as nat, present);
    let a = put_u8s(a, x, 6);
    a
}

/// The values of the layer ids behind the first that reading can give.
#[verifier::opaque]
pub open spec fn layer_ids_ok(x: Seq<u8>, present: bool) -> bool {
    &&& if present { x.len() <= 63 } else { x.len() == 0 }
    &&& all_at_most(x, 63)
    &&& {
        let num = if present { x.len() as u32 } else { 0 };
        &&& if present { ue_fits(num as nat) } else { num == 0 }
        &&& num <= 63
        &&& x.len() == num as u64
        &&& u8s_ok(x, 6)
    }
}

/// The values of the layer ids behind the first that the writer accepts.
#[verifier::opaque]
pub open spec fn layer_ids_can(x: Seq<u8>, present: bool) -> bool {
    &&& if present { x.len() <= 63 } else { x.len() == 0 }
    &&& all_at_most(x, 63)
    &&& {
        let num = if present { x.len() as u32 } else { 0 };
        &&& present ==> ue_fits(num as nat)
    }
}

/// Parses the layer ids behind the first.
fn parse_layer_ids(r: &mut BitReader<'_>, present: bool) -> (res: Result<Vec<u8>, BitstreamError>)
    ensures
        read_view_is(layer_ids_at(old(r).bits(), old(r).pos(), present), res, *old(r), *final(r)),
{
    proof {
        reveal(layer_ids_at);
    }
    let num: u32 = r.ue_if(present, 0)?;
    if num > 63 {
        return Err(
            Message::new("sn_num_layers_minus1=")
                .num(num as i128)
                .with(" exceeds the 64-layer nuh_layer_id space")
                .invalid(),
        );
    }
    let v = r.read_u8s(num as u64, 6);
    Ok(v)
}

/// Emits the layer ids behind the first, the inverse of [`parse_layer_ids`].
fn write_layer_ids(
    w: &mut BitWriter,
    x: &Vec<u8>,
    present: bool,
    ols: bool,
) -> (res: Result<(), BitstreamError>)
    ensures
        write_is(layer_ids_can(x@, present), put_layer_ids(old(w)@, x@, present), res, final(w)@),
{
    proof {
        reveal(put_layer_ids);
        reveal(layer_ids_can);
    }
    if !(if present { (*x).len() <= 63 } else { (*x).len() == 0 }) {
        return Err(
            if present {
                BitstreamError::invalid("scalable_nesting layer list exceeds the 64-layer nuh_layer_id space")
            } else if ols {
                BitstreamError::invalid("scalable_nesting layer-mode fields are not coded in OLS mode")
            } else {
                BitstreamError::invalid(
                    "scalable_nesting layer ids are not coded when sn_all_layers_flag is set",
                )
            },
        );
    }
    if !are_at_most((*x).as_slice(), 63) {
        return Err(BitstreamError::invalid("sn_layer_id does not fit u(6)"));
    }
    let num: u32 = if present { (*x).len() as u32 } else { 0 };
    w.write_ue_if(num, present)?;
    w.write_u8s(x.as_slice(), 6);
    Ok(())
}

/// Writing the layer ids behind the first gives back the bits it was read from.
pub broadcast proof fn law_put_layer_ids_at(s: Seq<bool>, p: nat, present: bool)
    ensures
        #[trigger] layer_ids_at(s, p, present) matches Ok((x, q)) ==> {
            &&& layer_ids_ok(x, present)
            &&& layer_ids_can(x, present)
            &&& within(s, q) ==> within(s, p) && put_layer_ids(upto(s, p), x, present) == upto(s, q)
        },
{
    broadcast use {crate::bits::group_write_read, crate::bits::group_write_read_lists};

    reveal(layer_ids_at);
    reveal(put_layer_ids);
    reveal(layer_ids_ok);
    reveal(layer_ids_can);
}

/// Reading gives back the layer ids behind the first as it was written.
pub broadcast proof fn law_pre_put_layer_ids(a: Seq<bool>, x: Seq<u8>, present: bool, s: Seq<bool>)
    requires
        #[trigger] pre(put_layer_ids(a, x, present), s),
        layer_ids_ok(x, present),
    ensures
        pre(a, s),
        layer_ids_can(x, present),
        layer_ids_at(s, a.len(), present) == Ok::<(Seq<u8>, nat), Fault>(
            (x, put_layer_ids(a, x, present).len()),
        ),
{
    broadcast use {crate::bits::group_read_written, crate::bits::group_read_written_lists};

    reveal(layer_ids_at);
    reveal(put_layer_ids);
    reveal(layer_ids_ok);
    reveal(layer_ids_can);
}

/// The layout of the layer ids behind the first: reading at `p` gives `x` and
/// ends at `q` if and only if these elements stand there in this order, and the
/// values are allowed.
pub proof fn law_layout_layer_ids(s: Seq<bool>, p: nat, present: bool, x: Seq<u8>, q: nat)
    ensures
        layer_ids_at(s, p, present) == Ok::<(Seq<u8>, nat), Fault>((x, q)) <==> ({
            let c = cursor(s, p);
            let num = if present { c.next_ue() } else { 0 };
            &&& c
                .ue_if(present, num, 0)
                .part(|p: nat| u8s_at(s, p, 6, (num as u64) as nat), x)
                .ends(q)
            &&& num <= 63
        }),
{
    reveal(layer_ids_at);
    reveal(ue_if);
}

/// Reading the layer ids behind the first fails only with an error of this
/// class.
pub broadcast proof fn law_faults_layer_ids(s: Seq<bool>, p: nat, present: bool)
    ensures
        #[trigger] layer_ids_at(s, p, present) matches Err(f) ==> f == Fault::Invalid,
{
    broadcast use {crate::bits::law_faults_ue, crate::bits::law_faults_u8s};

    reveal(layer_ids_at);
    reveal(ue_if);
}

/// What the writer accepts reads back: the layer ids behind the first, where
/// each field fits its width and what is not coded has the value that is taken
/// for it.
pub proof fn law_reads_layer_ids(a: Seq<bool>, x: Seq<u8>, present: bool, s: Seq<bool>)
    requires
        layer_ids_can(x, present),
        pre(put_layer_ids(a, x, present), s),
    ensures
        layer_ids_at(s, a.len(), present) == Ok::<(Seq<u8>, nat), Fault>(
            (x, put_layer_ids(a, x, present).len()),
        ),
{
    assert(layer_ids_ok(x, present)) by {
        broadcast use crate::bits::law_fits_small;

        reveal(layer_ids_ok);
        reveal(layer_ids_can);
    }
    law_pre_put_layer_ids(a, x, present, s);
}

proof fn lemma_room(n: u64, w: u32)
    requires
        w <= 16,
    ensures
        n as u128 * w as u128 == n * w,
        n * w <= 0xffff_ffff_ffff_ffff * 16,
{
    assert(n * w <= 0xffff_ffff_ffff_ffff * 16) by (nonlinear_arith)
        requires
            n <= 0xffff_ffff_ffff_ffff,
            w <= 16,
    ;
}

proof fn lemma_sn_room(a: Seq<bool>, x: SnHeadModel, s: Seq<bool>)
    requires
        pre(put_sn_head(a, x), s),
        sn_head_ok(x),
    ensures
        ({
            let a1 = put_flag(put_flag(a, x.sn_ols_flag), x.sn_subpic_flag);
            let a2 = put_ols_idx(a1, x.sn_ols_idx_delta_minus1, x.sn_ols_flag);
            let a3 = put_flag_if(a2, x.sn_all_layers_flag, !x.sn_ols_flag);
            let a4 = put_layer_ids(a3, x.sn_layer_ids, !x.sn_ols_flag && !x.sn_all_layers_flag);
            let num = if x.sn_subpic_flag {
                (x.sn_subpic_ids.len() - 1) as u32
            } else {
                0
            };
            let a5 = put_ue_if(a4, num as nat, x.sn_subpic_flag);
            let a6 = put_ue_if(a5, x.sn_subpic_id_len_minus1 as nat, x.sn_subpic_flag);
            bits_left(s, a6.len()) >= x.sn_subpic_ids.len() * ((x.sn_subpic_id_len_minus1 + 1) as u32)
        }),
{
    reveal(put_sn_head);
    reveal(sn_head_ok);
    let a1 = put_flag(put_flag(a, x.sn_ols_flag), x.sn_subpic_flag);
    let a2 = put_ols_idx(a1, x.sn_ols_idx_delta_minus1, x.sn_ols_flag);
    let a3 = put_flag_if(a2, x.sn_all_layers_flag, !x.sn_ols_flag);
    let a4 = put_layer_ids(a3, x.sn_layer_ids, !x.sn_ols_flag && !x.sn_all_layers_flag);
    let num = if x.sn_subpic_flag {
        (x.sn_subpic_ids.len() - 1) as u32
    } else {
        0
    };
    let a5 = put_ue_if(a4, num as nat, x.sn_subpic_flag);
    let a6 = put_ue_if(a5, x.sn_subpic_id_len_minus1 as nat, x.sn_subpic_flag);
    let w = (x.sn_subpic_id_len_minus1 + 1) as u32;
    let a7 = put_us(a6, x.sn_subpic_ids, w as nat);
    let a8 = put_ue(a7, x.num_seis as nat);
    lemma_put_us_len(a6, x.sn_subpic_ids, w as nat);
    lemma_put_ue_grows(a7, x.num_seis as nat);
    assert(put_align(a8).len() >= a8.len()) by {
        reveal(put_align);
        lemma_put_u_shape(a8, 0, pad_len(a8.len()));
    }
    assert(bits_left(s, a6.len()) >= x.sn_subpic_ids.len() * w) by {
        reveal(pre);
    }
}

/// The fields of a [`VvcScalableNesting`] before the nested messages.
pub struct SnHead {
    pub sn_ols_flag: bool,
    pub sn_subpic_flag: bool,
    pub sn_ols_idx_delta_minus1: Vec<u32>,
    pub sn_all_layers_flag: bool,
    pub sn_layer_ids: Vec<u8>,
    pub sn_subpic_id_len_minus1: u32,
    pub sn_subpic_ids: Vec<u32>,
    pub num_seis: u32,
}

/// The mathematical model of a [`SnHead`].
pub struct SnHeadModel {
    pub sn_ols_flag: bool,
    pub sn_subpic_flag: bool,
    pub sn_ols_idx_delta_minus1: Seq<u32>,
    pub sn_all_layers_flag: bool,
    pub sn_layer_ids: Seq<u8>,
    pub sn_subpic_id_len_minus1: u32,
    pub sn_subpic_ids: Seq<u32>,
    pub num_seis: u32,
}

impl View for SnHead {
    type V = SnHeadModel;

    open spec fn view(&self) -> SnHeadModel {
        SnHeadModel {
            sn_ols_flag: self.sn_ols_flag,
            sn_subpic_flag: self.sn_subpic_flag,
            sn_ols_idx_delta_minus1: self.sn_ols_idx_delta_minus1@,
            sn_all_layers_flag: self.sn_all_layers_flag,
            sn_layer_ids: self.sn_layer_ids@,
            sn_subpic_id_len_minus1: self.sn_subpic_id_len_minus1,
            sn_subpic_ids: self.sn_subpic_ids@,
            num_seis: self.num_seis,
        }
    }
}

/// The fields of `scalable_nesting()` (§D.6.1) before the nested messages at
/// position `p`.
#[verifier::opaque]
pub open spec fn sn_head_at(s: Seq<bool>, p: nat) -> Read<SnHeadModel> {
    let sn_ols_flag = flag_at(s, p);
    let p = adv(p, 1);
    let sn_subpic_flag = flag_at(s, p);
    let p = adv(p, 1);
    match ols_idx_at(s, p, sn_ols_flag) { Err(f) => Err(f), Ok((sn_ols_idx_delta_minus1, p)) => {
    let sn_all_layers_flag = flag_if(s, p, !sn_ols_flag, false);
    let p = adv_if(p, 1, !sn_ols_flag);
    match layer_ids_at(s, p, !sn_ols_flag && !sn_all_layers_flag)
    { Err(f) => Err(f), Ok((sn_layer_ids, p)) => {
    match ue_if(s, p, sn_subpic_flag, 0) { Err(f) => Err(f), Ok((num_subpics, p)) => {
    match ue_if(s, p, sn_subpic_flag, 0) { Err(f) => Err(f), Ok((sn_subpic_id_len_minus1, p)) => {
    if sn_subpic_id_len_minus1 > 15 { Err(Fault::Invalid) } else {
    let id_bits = (sn_subpic_id_len_minus1 + 1) as u32;
    let count = if sn_subpic_flag { (num_subpics as u64 + 1) as u64 } else { 0u64 };
    if count * id_bits > bits_left(s, p) { Err(Fault::End) } else {
    match us_at(s, p, id_bits as nat, count as nat) { Err(f) => Err(f), Ok((sn_subpic_ids, p)) => {
    match ue_at(s, p) { Err(f) => Err(f), Ok((num_seis, p)) => {
    if num_seis > 63 { Err(Fault::Invalid) } else {
    match align_at(s, p) { Err(f) => Err(f), Ok(p) => {
    Ok((
        SnHeadModel {
            sn_ols_flag,
            sn_subpic_flag,
            sn_ols_idx_delta_minus1,
            sn_all_layers_flag,
            sn_layer_ids,
            sn_subpic_id_len_minus1,
            sn_subpic_ids,
            num_seis,
        },
        p,
    ))
    }}}}}}}}}}}}}}}}}
}

/// The bits `a` followed by the fields of `scalable_nesting()` (§D.6.1) before
/// the nested messages.
#[verifier::opaque]
pub open spec fn put_sn_head(a: Seq<bool>, x: SnHeadModel) -> Seq<bool> {
    let a = put_flag(a, x.sn_ols_flag);
    let a = put_flag(a, x.sn_subpic_flag);
    let a = put_ols_idx(a, x.sn_ols_idx_delta_minus1, x.sn_ols_flag);
    let a = put_flag_if(a, x.sn_all_layers_flag, !x.sn_ols_flag);
    let a = put_layer_ids(a, x.sn_layer_ids, !x.sn_ols_flag && !x.sn_all_layers_flag);
    let num_subpics = if x.sn_subpic_flag { (x.sn_subpic_ids.len() - 1) as u32 } else { 0 };
    let a = put_ue_if(a, num_subpics as nat, x.sn_subpic_flag);
    let a = put_ue_if(a, x.sn_subpic_id_len_minus1 as nat, x.sn_subpic_flag);
    let id_bits = (x.sn_subpic_id_len_minus1 + 1) as u32;
    let a = put_us(a, x.sn_subpic_ids, id_bits as nat);
    let a = put_ue(a, x.num_seis as nat);
    let a = put_align(a);
    a
}

/// The values of the fields of `scalable_nesting()` (§D.6.1) before the nested
/// messages that reading can give.
#[verifier::opaque]
pub open spec fn sn_head_ok(x: SnHeadModel) -> bool {
    &&& ols_idx_ok(x.sn_ols_idx_delta_minus1, x.sn_ols_flag)
    &&& !x.sn_ols_flag || !x.sn_all_layers_flag
    &&& layer_ids_ok(x.sn_layer_ids, !x.sn_ols_flag && !x.sn_all_layers_flag)
    &&& if x.sn_subpic_flag {
        1 <= x.sn_subpic_ids.len() && x.sn_subpic_ids.len() <= 0xffff_ffff && x.sn_subpic_id_len_minus1 <= 15
    } else {
        x.sn_subpic_ids.len() == 0 && x.sn_subpic_id_len_minus1 == 0
    }
    &&& {
        let num_subpics = if x.sn_subpic_flag { (x.sn_subpic_ids.len() - 1) as u32 } else { 0 };
        &&& if x.sn_subpic_flag { ue_fits(num_subpics as nat) } else { num_subpics == 0 }
        &&& if x.sn_subpic_flag {
            ue_fits(x.sn_subpic_id_len_minus1 as nat)
        } else {
            x.sn_subpic_id_len_minus1 == 0
        }
        &&& x.sn_subpic_id_len_minus1 <= 15
        &&& {
            let id_bits = (x.sn_subpic_id_len_minus1 + 1) as u32;
            let count = if x.sn_subpic_flag { (num_subpics as u64 + 1) as u64 } else { 0u64 };
            &&& us_ok(x.sn_subpic_ids, id_bits as nat)
            &&& x.sn_subpic_ids.len() == count
            &&& x.num_seis <= 63
        }
    }
}

/// The values of the fields of `scalable_nesting()` (§D.6.1) before the nested
/// messages that the writer accepts.
#[verifier::opaque]
pub open spec fn sn_head_can(x: SnHeadModel) -> bool {
    &&& ols_idx_can(x.sn_ols_idx_delta_minus1, x.sn_ols_flag)
    &&& !x.sn_ols_flag || !x.sn_all_layers_flag
    &&& layer_ids_can(x.sn_layer_ids, !x.sn_ols_flag && !x.sn_all_layers_flag)
    &&& if x.sn_subpic_flag {
        1 <= x.sn_subpic_ids.len() && x.sn_subpic_ids.len() <= 0xffff_ffff && x.sn_subpic_id_len_minus1 <= 15
    } else {
        x.sn_subpic_ids.len() == 0 && x.sn_subpic_id_len_minus1 == 0
    }
    &&& {
        let num_subpics = if x.sn_subpic_flag { (x.sn_subpic_ids.len() - 1) as u32 } else { 0 };
        &&& x.sn_subpic_flag ==> ue_fits(num_subpics as nat)
        &&& x.sn_subpic_flag ==> ue_fits(x.sn_subpic_id_len_minus1 as nat)
        &&& {
            let id_bits = (x.sn_subpic_id_len_minus1 + 1) as u32;
            &&& us_ok(x.sn_subpic_ids, id_bits as nat)
            &&& x.num_seis <= 63
        }
    }
}

/// Parses the fields of `scalable_nesting()` (§D.6.1) before the nested messages.
fn parse_sn_head(r: &mut BitReader<'_>) -> (res: Result<SnHead, BitstreamError>)
    ensures
        read_view_is(sn_head_at(old(r).bits(), old(r).pos()), res, *old(r), *final(r)),
{
    proof {
        reveal(sn_head_at);
        assert forall|n: u64, w: u32| w <= 16 implies #[trigger] (n as u128 * w as u128) == n * w
            && n * w <= 0xffff_ffff_ffff_ffff * 16 by { lemma_room(n, w); }
    }
    let sn_ols_flag: bool = r.flag();
    let sn_subpic_flag: bool = r.flag();
    let sn_ols_idx_delta_minus1 = parse_ols_idx(r, sn_ols_flag)?;
    let sn_all_layers_flag: bool = r.flag_if(!sn_ols_flag, false);
    let sn_layer_ids = parse_layer_ids(r, !sn_ols_flag && !sn_all_layers_flag)?;
    let num_subpics: u32 = r.ue_if(sn_subpic_flag, 0)?;
    let sn_subpic_id_len_minus1: u32 = r.ue_if(sn_subpic_flag, 0)?;
    if sn_subpic_id_len_minus1 > 15 {
        return Err(
            Message::new("sn_subpic_id_len_minus1=")
                .num(sn_subpic_id_len_minus1 as i128)
                .with(" (must be 0..=15, §D.6.2)")
                .invalid(),
        );
    }
    let id_bits: u32 = (sn_subpic_id_len_minus1 + 1) as u32;
    let count: u64 = if sn_subpic_flag { num_subpics as u64 + 1 } else { 0u64 };
    if count as u128 * id_bits as u128 > r.bits_remaining() {
        return Err(BitstreamError::unexpected_end("sn_num_subpics_minus1 exceeds remaining payload"));
    }
    let sn_subpic_ids = r.read_us(count, id_bits);
    let num_seis: u32 = r.ue()?;
    if num_seis > 63 {
        return Err(
            Message::new("sn_num_seis_minus1=")
                .num(num_seis as i128)
                .with(" (must be 0..=63, §D.6.2)")
                .invalid(),
        );
    }
    r.read_align("scalable_nesting sn_zero_bit was 1 (§D.6.1)")?;
    Ok(
        SnHead {
            sn_ols_flag,
            sn_subpic_flag,
            sn_ols_idx_delta_minus1,
            sn_all_layers_flag,
            sn_layer_ids,
            sn_subpic_id_len_minus1,
            sn_subpic_ids,
            num_seis,
        },
    )
}

/// Emits the fields of `scalable_nesting()` (§D.6.1) before the nested
/// messages, the inverse of [`parse_sn_head`].
fn write_sn_head(w: &mut BitWriter, x: &VvcScalableNesting) -> (res: Result<(), BitstreamError>)
    ensures
        write_is(sn_head_can(x@.head), put_sn_head(old(w)@, x@.head), res, final(w)@),
{
    proof {
        reveal(put_sn_head);
        reveal(sn_head_can);
    }
    w.write_flag(x.sn_ols_flag);
    w.write_flag(x.sn_subpic_flag);
    write_ols_idx(w, &x.sn_ols_idx_delta_minus1, x.sn_ols_flag)?;
    if !(!x.sn_ols_flag || !x.sn_all_layers_flag) {
        return Err(BitstreamError::invalid("scalable_nesting layer-mode fields are not coded in OLS mode"));
    }
    w.write_flag_if(x.sn_all_layers_flag, !x.sn_ols_flag);
    write_layer_ids(w, &x.sn_layer_ids, !x.sn_ols_flag && !x.sn_all_layers_flag, x.sn_ols_flag)?;
    if !(
        if x.sn_subpic_flag {
            1 <= x.sn_subpic_ids.len() && x.sn_subpic_ids.len() <= 0xffff_ffff && x.sn_subpic_id_len_minus1 <= 15
        } else {
            x.sn_subpic_ids.len() == 0 && x.sn_subpic_id_len_minus1 == 0
        }
    ) {
        return Err(
            if x.sn_subpic_flag && x.sn_subpic_ids.len() == 0 {
                BitstreamError::invalid("scalable_nesting subpic mode needs at least one subpicture id")
            } else if x.sn_subpic_flag {
                BitstreamError::invalid("sn_subpic_id_len_minus1 must be 0..=15 (§D.6.2)")
            } else {
                BitstreamError::invalid(
                    "scalable_nesting subpicture fields are not coded without sn_subpic_flag",
                )
            },
        );
    }
    let num_subpics: u32 = if x.sn_subpic_flag { (x.sn_subpic_ids.len() - 1) as u32 } else { 0 };
    w.write_ue_if(num_subpics, x.sn_subpic_flag)?;
    w.write_ue_if(x.sn_subpic_id_len_minus1, x.sn_subpic_flag)?;
    let id_bits: u32 = (x.sn_subpic_id_len_minus1 + 1) as u32;
    if !us_fit(x.sn_subpic_ids.as_slice(), id_bits) {
        return Err(BitstreamError::invalid("sn_subpic_id does not fit its declared length"));
    }
    w.write_us(x.sn_subpic_ids.as_slice(), id_bits);
    if !(1 <= x.messages.len() && x.messages.len() <= 64) {
        return Err(BitstreamError::invalid("scalable_nesting must nest 1..=64 SEI messages (§D.6.2)"));
    }
    w.write_ue((x.messages.len() - 1) as u32)?;
    w.align_to_byte();
    Ok(())
}

/// Writing the fields of `scalable_nesting()` (§D.6.1) before the nested
/// messages gives back the bits it was read from.
pub broadcast proof fn law_put_sn_head_at(s: Seq<bool>, p: nat)
    ensures
        #[trigger] sn_head_at(s, p) matches Ok((x, q)) ==> {
            &&& sn_head_ok(x)
            &&& sn_head_can(x)
            &&& within(s, q) ==> within(s, p) && put_sn_head(upto(s, p), x) == upto(s, q)
        },
{
    broadcast use {
        crate::bits::group_write_read,
        crate::bits::group_write_read_lists,
        law_put_ols_idx_at,
        law_put_layer_ids_at,
    };

    reveal(sn_head_at);
    reveal(put_sn_head);
    reveal(sn_head_ok);
    reveal(sn_head_can);
}

/// Reading gives back the fields of `scalable_nesting()` (§D.6.1) before the
/// nested messages as it was written.
pub broadcast proof fn law_pre_put_sn_head(a: Seq<bool>, x: SnHeadModel, s: Seq<bool>)
    requires
        #[trigger] pre(put_sn_head(a, x), s),
        sn_head_ok(x),
    ensures
        pre(a, s),
        sn_head_can(x),
        sn_head_at(s, a.len()) == Ok::<(SnHeadModel, nat), Fault>((x, put_sn_head(a, x).len())),
{
    broadcast use {
        crate::bits::group_read_written,
        crate::bits::group_read_written_lists,
        law_pre_put_ols_idx,
        law_pre_put_layer_ids,
    };

    reveal(sn_head_at);
    reveal(put_sn_head);
    reveal(sn_head_ok);
    reveal(sn_head_can);
    lemma_sn_room(a, x, s);
}

/// The layout of the fields of `scalable_nesting()` (§D.6.1) before the nested
/// messages: reading at `p` gives `x` and ends at `q` if and only if these
/// elements stand there in this order, and the values are allowed.
pub proof fn law_layout_sn_head(s: Seq<bool>, p: nat, x: SnHeadModel, q: nat)
    ensures
        sn_head_at(s, p) == Ok::<(SnHeadModel, nat), Fault>((x, q)) <==> ({
            let c = cursor(s, p)
                .flag(x.sn_ols_flag)
                .flag(x.sn_subpic_flag)
                .part(|p: nat| ols_idx_at(s, p, x.sn_ols_flag), x.sn_ols_idx_delta_minus1)
                .flag_if(!x.sn_ols_flag, x.sn_all_layers_flag, false)
                .part(|p: nat| layer_ids_at(s, p, !x.sn_ols_flag && !x.sn_all_layers_flag), x.sn_layer_ids);
            let num_subpics = if x.sn_subpic_flag { c.next_ue() } else { 0 };
            let id_bits = (x.sn_subpic_id_len_minus1 + 1) as u32;
            let count = if x.sn_subpic_flag { (num_subpics as u64 + 1) as u64 } else { 0u64 };
            &&& c
                .ue_if(x.sn_subpic_flag, num_subpics, 0)
                .ue_if(x.sn_subpic_flag, x.sn_subpic_id_len_minus1, 0)
                .room(count * id_bits)
                .part(|p: nat| us_at(s, p, id_bits as nat, count as nat), x.sn_subpic_ids)
                .ue(x.num_seis)
                .align()
                .ends(q)
            &&& x.sn_subpic_id_len_minus1 <= 15
            &&& x.num_seis <= 63
        }),
{
    reveal(sn_head_at);
    reveal(adv_if);
    reveal(flag_if);
    reveal(ue_if);
}

/// What reads as the fields of `scalable_nesting()` (§D.6.1) before the nested
/// messages up to this point, and meets the last condition, is refused as too
/// short.
pub proof fn law_refused_sn_head(s: Seq<bool>, p: nat, x: SnHeadModel)
    ensures
        ({
            let c = cursor(s, p)
                .flag(x.sn_ols_flag)
                .flag(x.sn_subpic_flag)
                .part(|p: nat| ols_idx_at(s, p, x.sn_ols_flag), x.sn_ols_idx_delta_minus1)
                .flag_if(!x.sn_ols_flag, x.sn_all_layers_flag, false)
                .part(|p: nat| layer_ids_at(s, p, !x.sn_ols_flag && !x.sn_all_layers_flag), x.sn_layer_ids);
            let num_subpics = if x.sn_subpic_flag { c.next_ue() } else { 0 };
            let id_bits = (x.sn_subpic_id_len_minus1 + 1) as u32;
            let count = if x.sn_subpic_flag { (num_subpics as u64 + 1) as u64 } else { 0u64 };
            let c = c
                .ue_if(x.sn_subpic_flag, num_subpics, 0)
                .ue_if(x.sn_subpic_flag, x.sn_subpic_id_len_minus1, 0);
            &&& c.good
            &&& x.sn_subpic_id_len_minus1 <= 15
            &&& count * id_bits > bits_left(s, c.pos)
        }) ==> sn_head_at(s, p) == Err::<(SnHeadModel, nat), Fault>(Fault::End),
{
    reveal(sn_head_at);
    reveal(adv_if);
    reveal(flag_if);
    reveal(ue_if);
}

/// Reading the fields of `scalable_nesting()` (§D.6.1) before the nested
/// messages never fails with an error of this class.
pub broadcast proof fn law_faults_sn_head(s: Seq<bool>, p: nat)
    ensures
        #[trigger] sn_head_at(s, p) matches Err(f) ==> f != Fault::Unsupported,
{
    broadcast use {
        law_faults_ols_idx,
        law_faults_layer_ids,
        crate::bits::law_faults_ue,
        crate::bits::law_faults_us,
    };

    reveal(sn_head_at);
    reveal(align_at);
    reveal(ue_if);
}

/// What the writer accepts reads back: the fields of `scalable_nesting()`
/// (§D.6.1) before the nested messages, where each field fits its width and
/// what is not coded has the value that is taken for it.
pub proof fn law_reads_sn_head(a: Seq<bool>, x: SnHeadModel, s: Seq<bool>)
    requires
        sn_head_can(x),
        ols_idx_ok(x.sn_ols_idx_delta_minus1, x.sn_ols_flag),
        !(!x.sn_ols_flag) ==> x.sn_all_layers_flag == false,
        layer_ids_ok(x.sn_layer_ids, !x.sn_ols_flag && !x.sn_all_layers_flag),
        !x.sn_subpic_flag ==> x.sn_subpic_id_len_minus1 == 0,
        pre(put_sn_head(a, x), s),
    ensures
        sn_head_at(s, a.len()) == Ok::<(SnHeadModel, nat), Fault>((x, put_sn_head(a, x).len())),
{
    assert(sn_head_ok(x)) by {
        broadcast use crate::bits::law_fits_small;

        reveal(sn_head_ok);
        reveal(sn_head_can);
    }
    law_pre_put_sn_head(a, x, s);
}

/// Each field of the model of a [`SnHead`] is the field of that name.
pub proof fn law_view_sn_head(x: SnHead)
    ensures
        x@.sn_ols_flag == x.sn_ols_flag,
        x@.sn_subpic_flag == x.sn_subpic_flag,
        x@.sn_ols_idx_delta_minus1 == x.sn_ols_idx_delta_minus1@,
        x@.sn_all_layers_flag == x.sn_all_layers_flag,
        x@.sn_layer_ids == x.sn_layer_ids@,
        x@.sn_subpic_id_len_minus1 == x.sn_subpic_id_len_minus1,
        x@.sn_subpic_ids == x.sn_subpic_ids@,
        x@.num_seis == x.num_seis,
{
}

/// The scalable nesting that the message `m` holds.
pub open spec fn sn_of(m: SeiMessageModel) -> Result<VvcScalableNestingModel, Fault> {
    let s = bits_of(m.payload);
    if m.payload_type != SEI_TYPE_SCALABLE_NESTING {
        Err(Fault::Invalid)
    } else {
        match sn_head_at(s, 0) {
            Err(f) => Err(f),
            Ok((head, p)) => if p > s.len() {
                Err(Fault::End)
            } else {
                match sei_messages_at(m.payload, p / 8, (head.num_seis + 1) as nat) {
                    Err(f) => Err(f),
                    Ok((messages, i)) => if i != m.payload.len() {
                        Err(Fault::Invalid)
                    } else {
                        Ok(VvcScalableNestingModel { head, messages })
                    },
                }
            },
        }
    }
}

/// The bits of the payload that holds `x`.
pub open spec fn sn_payload(x: VvcScalableNestingModel) -> Seq<bool> {
    put_sn_head(Seq::empty(), x.head) + bits_of(sei_messages_bytes(x.messages))
}

/// A scalable nesting that decoding can give.
pub open spec fn sn_ok(x: VvcScalableNestingModel) -> bool {
    sn_head_ok(x.head) && x.messages.len() == x.head.num_seis + 1
}

/// A scalable nesting that the encoder accepts.
pub open spec fn sn_can(x: VvcScalableNestingModel) -> bool {
    sn_head_can(x.head)
}

/// Decode a `scalable_nesting()` payload (§D.6.1).
pub fn decode_scalable_nesting(msg: &SeiMessage) -> (res: Result<VvcScalableNesting, BitstreamError>)
    ensures
        nal_read_is(sn_of(msg@), res),
{
    if msg.payload_type != SEI_TYPE_SCALABLE_NESTING {
        return Err(
            Message::new("expected scalable_nesting payloadType ")
                .num(SEI_TYPE_SCALABLE_NESTING as i128)
                .with(", got ")
                .num(msg.payload_type as i128)
                .invalid(),
        );
    }
    let mut r = BitReader::new(msg.payload.as_slice());
    let ghost s = r.bits();
    let head = parse_sn_head(&mut r)?;
    let pos = r.bit_pos();
    let total = r.total_bits();
    if pos > total {
        return Err(BitstreamError::unexpected_end("scalable_nesting payload too short"));
    }
    let len = msg.payload.len();
    assert(pos / 8 <= len);
    let mut i: usize = (pos / 8) as usize;
    proof {
        law_put_sn_head_at(s, 0);
        reveal(sn_head_ok);
    }
    let messages = parse_sei_messages(msg.payload.as_slice(), &mut i, head.num_seis as u64 + 1)?;
    if i != len {
        return Err(BitstreamError::invalid("scalable_nesting: trailing bytes after the nested SEI messages"));
    }
    proof {
        lemma_messages_read(msg.payload@, (pos / 8) as nat, (head.num_seis + 1) as nat);
    }
    Ok(
        VvcScalableNesting {
            sn_ols_flag: head.sn_ols_flag,
            sn_subpic_flag: head.sn_subpic_flag,
            sn_ols_idx_delta_minus1: head.sn_ols_idx_delta_minus1,
            sn_all_layers_flag: head.sn_all_layers_flag,
            sn_layer_ids: head.sn_layer_ids,
            sn_subpic_id_len_minus1: head.sn_subpic_id_len_minus1,
            sn_subpic_ids: head.sn_subpic_ids,
            messages,
        },
    )
}

/// Encode a `scalable_nesting()` into a framed [`SeiMessage`], the
/// byte-exact inverse of [`decode_scalable_nesting`].
pub fn encode_scalable_nesting(sn: &VvcScalableNesting) -> (res: Result<SeiMessage, BitstreamError>)
    ensures
        payload_write_is(sn_can(sn@), SEI_TYPE_SCALABLE_NESTING, sn_payload(sn@), res),
{
    let mut w = BitWriter::new();
    write_sn_head(&mut w, sn)?;
    proof {
        lemma_sn_head_aligned(sn@.head);
        lemma_pad_aligned(w@);
    }
    let mut payload = w.finish();
    let ghost head = payload@;
    write_sei_messages(&mut payload, sn.messages.as_slice());
    proof {
        lemma_bits_of_concat(head, sei_messages_bytes(sn@.messages));
    }
    Ok(SeiMessage { payload_type: SEI_TYPE_SCALABLE_NESTING, payload })
}

proof fn lemma_sn_head_aligned(x: SnHeadModel)
    ensures
        put_sn_head(Seq::empty(), x).len() % 8 == 0,
{
    reveal(put_sn_head);
    assert forall|a: Seq<bool>| (#[trigger] put_align(a)).len() % 8 == 0 by {
        reveal(put_align);
        lemma_put_u_shape(a, 0, pad_len(a.len()));
    }
}

/// Encoding what was decoded gives back the payload.
pub proof fn law_encode_decoded_sn(m: SeiMessageModel)
    requires
        m.payload.len() <= usize::MAX,
    ensures
        sn_of(m) matches Ok(x) ==> {
            &&& sn_ok(x)
            &&& sn_can(x)
            &&& sn_payload(x) == bits_of(m.payload)
            &&& forall|out: Seq<u8>| bits_of(out) == sn_payload(x) ==> out == m.payload
        },
{
    let b = m.payload;
    let s = bits_of(b);
    lemma_bits_of_len(b);
    if let Ok(x) = sn_of(m) {
        law_put_sn_head_at(s, 0);
        let p = sn_head_at(s, 0)->Ok_0.1;
        assert(within(s, p)) by {
            reveal(within);
        }
        assert(upto(s, 0) =~= Seq::empty() && upto(s, p).len() == p) by {
            reveal(upto);
        }
        lemma_sn_head_aligned(x.head);
        let k = p / 8;
        lemma_messages_read(b, k, (x.head.num_seis + 1) as nat);
        assert(b =~= b.take(k as int) + b.subrange(k as int, b.len() as int));
        lemma_bits_of_concat(b.take(k as int), b.subrange(k as int, b.len() as int));
        lemma_bits_of_len(b.take(k as int));
        assert(upto(s, p) =~= bits_of(b.take(k as int))) by {
            reveal(upto);
        }
        assert forall|out: Seq<u8>| bits_of(out) == sn_payload(x) implies out == b by {
            lemma_bits_of_injective(out, b);
        }
    }
}

/// Decoding what was encoded gives back the value.
pub proof fn law_decode_encoded_sn(x: VvcScalableNestingModel, m: SeiMessageModel)
    requires
        sn_ok(x),
        m.payload_type == SEI_TYPE_SCALABLE_NESTING,
        bits_of(m.payload) == sn_payload(x),
        m.payload.len() <= usize::MAX,
    ensures
        sn_can(x),
        sn_of(m) == Ok::<VvcScalableNestingModel, Fault>(x),
{
    let b = m.payload;
    let s = bits_of(b);
    let a = put_sn_head(Seq::empty(), x.head);
    let bytes = sei_messages_bytes(x.messages);
    lemma_bits_of_len(b);
    lemma_bits_of_len(bytes);
    assert(pre(a, s)) by {
        reveal(pre);
        assert(s.take(a.len() as int) =~= a);
    }
    law_pre_put_sn_head(Seq::empty(), x.head, s);
    lemma_sn_head_aligned(x.head);
    let k = a.len() / 8;
    let rest = b.subrange(k as int, b.len() as int);
    assert(b =~= b.take(k as int) + rest);
    lemma_bits_of_concat(b.take(k as int), rest);
    lemma_bits_of_len(b.take(k as int));
    assert(bits_of(rest) =~= s.skip(a.len() as int));
    assert(bits_of(bytes) =~= s.skip(a.len() as int));
    lemma_bits_of_injective(rest, bytes);
    lemma_messages_written(b, k, x.messages);
}

// ─────────────────────────── Typed dispatch ─────────────────────────────────

/// A decoded H.266 SEI payload (context-free families only — decode
/// `pic_timing` / `decoding_unit_info` with their buffering-period
/// context via [`decode_pic_timing`] / [`decode_decoding_unit_info`]).
#[derive(Debug, Clone, PartialEq, Eq)]
pub enum VvcSei {
    BufferingPeriod(Box<VvcBufferingPeriod>),
    ScalableNesting(VvcScalableNesting),
    SubpicLevelInfo(VvcSubpicLevelInfo),
    SeiManifest(VvcSeiManifest),
    SeiPrefixIndication(VvcSeiPrefixIndication),
    /// §D.10 — the payload is intentionally empty; presence is the
    /// signal.
    ConstrainedRaslEncoding,
    /// Everything else (including the H.274-specified families and
    /// the context-dependent PT/DUI) surfaced raw — §D.2.2 requires
    /// decoders to skip unrecognised SEI payloads.
    Unknown {
        payload_type: u32,
        payload: Vec<u8>,
    },
}

/// The mathematical model of a [`VvcSei`].
pub enum VvcSeiModel {
    BufferingPeriod(VvcBufferingPeriodModel),
    ScalableNesting(VvcScalableNestingModel),
    SubpicLevelInfo(VvcSubpicLevelInfoModel),
    SeiManifest(VvcSeiManifestModel),
    SeiPrefixIndication(VvcSeiPrefixIndicationModel),
    ConstrainedRaslEncoding,
    Unknown { payload_type: u32, payload: Seq<u8> },
}

impl View for VvcSei {
    type V = VvcSeiModel;

    open spec fn view(&self) -> VvcSeiModel {
        match self {
            VvcSei::BufferingPeriod(x) => VvcSeiModel::BufferingPeriod(x@),
            VvcSei::ScalableNesting(x) => VvcSeiModel::ScalableNesting(x@),
            VvcSei::SubpicLevelInfo(x) => VvcSeiModel::SubpicLevelInfo(x@),
            VvcSei::SeiManifest(x) => VvcSeiModel::SeiManifest(x@),
            VvcSei::SeiPrefixIndication(x) => VvcSeiModel::SeiPrefixIndication(x@),
            VvcSei::ConstrainedRaslEncoding => VvcSeiModel::ConstrainedRaslEncoding,
            VvcSei::Unknown { payload_type, payload } => VvcSeiModel::Unknown {
                payload_type: *payload_type,
                payload: payload@,
            },
        }
    }
}

/// The decoded message.
pub open spec fn sei_of(m: SeiMessageModel) -> Result<VvcSeiModel, Fault> {
    if m.payload_type == SEI_TYPE_BUFFERING_PERIOD {
        match bp_of(m) {
            Err(f) => Err(f),
            Ok(x) => Ok(VvcSeiModel::BufferingPeriod(x)),
        }
    } else if m.payload_type == SEI_TYPE_SCALABLE_NESTING {
        match sn_of(m) {
            Err(f) => Err(f),
            Ok(x) => Ok(VvcSeiModel::ScalableNesting(x)),
        }
    } else if m.payload_type == SEI_TYPE_SUBPIC_LEVEL_INFO {
        match sli_of(m) {
            Err(f) => Err(f),
            Ok(x) => Ok(VvcSeiModel::SubpicLevelInfo(x)),
        }
    } else if m.payload_type == SEI_TYPE_SEI_MANIFEST {
        match manifest_of(m) {
            Err(f) => Err(f),
            Ok(x) => Ok(VvcSeiModel::SeiManifest(x)),
        }
    } else if m.payload_type == SEI_TYPE_SEI_PREFIX_INDICATION {
        match prefix_of(m) {
            Err(f) => Err(f),
            Ok(x) => Ok(VvcSeiModel::SeiPrefixIndication(x)),
        }
    } else if m.payload_type == SEI_TYPE_CONSTRAINED_RASL_ENCODING {
        if m.payload.len() == 0 {
            Ok(VvcSeiModel::ConstrainedRaslEncoding)
        } else {
            Err(Fault::Invalid)
        }
    } else {
        Ok(VvcSeiModel::Unknown { payload_type: m.payload_type, payload: m.payload })
    }
}

/// Decode one raw [`SeiMessage`] into a typed [`VvcSei`].
pub fn decode_sei_message(msg: &SeiMessage) -> (res: Result<VvcSei, BitstreamError>)
    ensures
        nal_read_is(sei_of(msg@), res),
{
    if msg.payload_type == SEI_TYPE_BUFFERING_PERIOD {
        let x = decode_buffering_period(msg)?;
        Ok(VvcSei::BufferingPeriod(Box::new(x)))
    } else if msg.payload_type == SEI_TYPE_SCALABLE_NESTING {
        let x = decode_scalable_nesting(msg)?;
        Ok(VvcSei::ScalableNesting(x))
    } else if msg.payload_type == SEI_TYPE_SUBPIC_LEVEL_INFO {
        let x = decode_subpic_level_info(msg)?;
        Ok(VvcSei::SubpicLevelInfo(x))
    } else if msg.payload_type == SEI_TYPE_SEI_MANIFEST {
        let x = decode_sei_manifest(msg)?;
        Ok(VvcSei::SeiManifest(x))
    } else if msg.payload_type == SEI_TYPE_SEI_PREFIX_INDICATION {
        let x = decode_sei_prefix_indication(msg)?;
        Ok(VvcSei::SeiPrefixIndication(x))
    } else if msg.payload_type == SEI_TYPE_CONSTRAINED_RASL_ENCODING {
        if msg.payload.len() != 0 {
            return Err(
                BitstreamError::invalid("constrained_rasl_encoding_indication carries no syntax (§D.10.1)"),
            );
        }
        Ok(VvcSei::ConstrainedRaslEncoding)
    } else {
        let payload = copy_bytes(msg.payload.as_slice(), 0, msg.payload.len());
        proof {
            assert(payload@ =~= msg.payload@);
        }
        Ok(VvcSei::Unknown { payload_type: msg.payload_type, payload })
    }
}

/// The initial CPB entries are coded for the sublayers `first..=last`, and the others
/// have none.
pub proof fn law_layout_cpb_tables(
    s: Seq<bool>,
    p: nat,
    width: u32,
    du: bool,
    nal_n: u64,
    vcl_n: u64,
    first: u8,
    last: u8,
    x: (Seq<Seq<VvcInitialCpbDelays>>, Seq<Seq<VvcInitialCpbDelays>>),
    q: nat,
)
    requires
        first <= last <= 7,
    ensures
        cpb_tables_at(s, p, width, du, nal_n, vcl_n, first, last) is Ok
            <==> cpb_pairs_at(s, p, width, du, nal_n, vcl_n, (last - first + 1) as u64) is Ok,
        cpb_tables_at(s, p, width, du, nal_n, vcl_n, first, last) == Ok::<((Seq<Seq<VvcInitialCpbDelays>>, Seq<Seq<VvcInitialCpbDelays>>), nat), Fault>((x, q)) ==> ({
            let b = cursor(s, p).next(
                |p: nat| cpb_pairs_at(s, p, width, du, nal_n, vcl_n, (last - first + 1) as u64),
            );
            &&& cursor(s, p).part(
                |p: nat| cpb_pairs_at(s, p, width, du, nal_n, vcl_n, (last - first + 1) as u64),
                b,
            ).ends(q)
            &&& x.0.len() == 8 && x.1.len() == 8 && b.len() == last - first + 1
            &&& forall|i: int|
                0 <= i < 8 ==> if first <= i <= last {
                    (#[trigger] x.0[i], x.1[i]) == b[i - first]
                } else {
                    x.0[i].len() == 0 && x.1[i].len() == 0
                }
        }),
{
    reveal(cpb_tables_at);
    reveal(cpb_pairs_at);
    lemma_rep_step(cpb_pairs_item(s, width, du, nal_n, vcl_n), p, (last - first + 1) as nat);
}

/// The removal delays are coded for the highest sublayer, which has one always, and
/// then for those from `temporal_id` on below it. The others have none.
pub proof fn law_layout_pt_tables(
    s: Seq<bool>,
    p: nat,
    deltas: bool,
    idx_len: u32,
    count: u64,
    removal_len: u32,
    temporal_id: u8,
    last: u8,
    x: (Seq<u32>, Seq<bool>, Seq<bool>, Seq<u32>),
    q: nat,
)
    requires
        temporal_id <= last <= 7,
    ensures
        pt_tables_at(s, p, deltas, idx_len, count, removal_len, temporal_id, last) is Ok
            <==> pt_head_at(s, p, deltas, idx_len, count, removal_len, (last - temporal_id) as u64) is Ok,
        pt_tables_at(s, p, deltas, idx_len, count, removal_len, temporal_id, last) == Ok::<((Seq<u32>, Seq<bool>, Seq<bool>, Seq<u32>), nat), Fault>((x, q)) ==> ({
            let b = cursor(s, p).next(
                |p: nat| pt_head_at(s, p, deltas, idx_len, count, removal_len, (last - temporal_id) as u64),
            );
            &&& cursor(s, p).part(
                |p: nat| pt_head_at(s, p, deltas, idx_len, count, removal_len, (last - temporal_id) as u64),
                b,
            ).ends(q)
            &&& x.0.len() == 8 && x.1.len() == 8 && x.2.len() == 8 && x.3.len() == 8
            &&& x.0[last as int] == b.0 && x.1[last as int] && !x.2[last as int] && x.3[last as int] == 0
            &&& forall|i: int|
                temporal_id <= i < last ==> {
                    let d = b.1[i - temporal_id];
                    &&& #[trigger] x.0[i] == d.delay
                    &&& x.1[i] == d.present
                    &&& x.2[i] == d.enabled
                    &&& x.3[i] == d.idx
                }
            &&& forall|i: int|
                0 <= i < 8 && !(temporal_id <= i <= last) ==> #[trigger] x.0[i] == 0 && !x.1[i] && !x.2[i]
                    && x.3[i] == 0
        }),
{
    reveal(pt_tables_at);
}

/// The alternative timing is coded for `num` sublayers from `first` on, and the others
/// have none.
pub proof fn law_layout_alt_table(
    s: Seq<bool>,
    p: nat,
    initial_len: u32,
    removal_len: u32,
    output_len: u32,
    cnt: u64,
    first: u8,
    num: u64,
    x: Seq<Option<VvcPtAltCpbModel>>,
    q: nat,
)
    requires
        first + num <= 8,
    ensures
        alt_table_at(s, p, initial_len, removal_len, output_len, cnt, first, num) is Ok
            <==> pt_alts_at(s, p, initial_len, removal_len, output_len, cnt, num) is Ok,
        alt_table_at(s, p, initial_len, removal_len, output_len, cnt, first, num) == Ok::<(Seq<Option<VvcPtAltCpbModel>>, nat), Fault>((x, q)) ==> ({
            let b = cursor(s, p).next(
                |p: nat| pt_alts_at(s, p, initial_len, removal_len, output_len, cnt, num),
            );
            &&& cursor(s, p).part(
                |p: nat| pt_alts_at(s, p, initial_len, removal_len, output_len, cnt, num),
                b,
            ).ends(q)
            &&& x.len() == 8 && b.len() == num
            &&& forall|i: int|
                0 <= i < 8 ==> #[trigger] x[i] == if first <= i < first + num {
                    Some(b[i - first])
                } else {
                    None
                }
        }),
{
    reveal(alt_table_at);
    reveal(pt_alts_at);
    lemma_rep_step(pt_alts_item(s, initial_len, removal_len, output_len, cnt), p, num as nat);
}

/// The increments are coded for `num` sublayers from `temporal_id` on, and are zero for
/// the others.
pub proof fn law_layout_masked_row(
    s: Seq<bool>,
    p: nat,
    width: u32,
    temporal_id: u8,
    mask: Seq<bool>,
    num: u64,
    x: Seq<u32>,
    q: nat,
)
    requires
        temporal_id + num <= 8,
    ensures
        masked_row_at(s, p, width, temporal_id, mask, num) is Ok
            <==> masked_items_at(s, p, width, temporal_id, mask, num) is Ok,
        masked_row_at(s, p, width, temporal_id, mask, num) == Ok::<(Seq<u32>, nat), Fault>((x, q)) ==> ({
            let b = cursor(s, p).next(|p: nat| masked_items_at(s, p, width, temporal_id, mask, num));
            &&& cursor(s, p).part(|p: nat| masked_items_at(s, p, width, temporal_id, mask, num), b).ends(q)
            &&& x.len() == 8 && b.len() == num
            &&& forall|i: int|
                0 <= i < 8 ==> #[trigger] x[i] == if temporal_id <= i < temporal_id + num {
                    b[i - temporal_id]
                } else {
                    0
                }
        }),
{
    reveal(masked_row_at);
    reveal(masked_items_at);
    lemma_rep_step(masked_items_item(s, width, temporal_id, mask), p, num as nat);
}

/// Each decoding unit has its number of NAL units, and the first `rows` have their
/// increments.
pub proof fn law_layout_du_table(
    s: Seq<bool>,
    p: nat,
    width: u32,
    temporal_id: u8,
    mask: Seq<bool>,
    num: u64,
    rows: u64,
    n: u64,
    x: (Seq<u32>, Seq<Seq<u32>>),
    q: nat,
)
    requires
        rows <= n,
    ensures
        du_table_at(s, p, width, temporal_id, mask, num, rows, n) is Ok
            <==> du_items_at(s, p, width, temporal_id, mask, num, rows, n) is Ok,
        du_table_at(s, p, width, temporal_id, mask, num, rows, n) == Ok::<((Seq<u32>, Seq<Seq<u32>>), nat), Fault>((x, q)) ==> ({
            let b = cursor(s, p).next(|p: nat| du_items_at(s, p, width, temporal_id, mask, num, rows, n));
            &&& cursor(s, p).part(
                |p: nat| du_items_at(s, p, width, temporal_id, mask, num, rows, n),
                b,
            ).ends(q)
            &&& x.0.len() == n && x.1.len() == rows && b.len() == n
            &&& forall|i: int| 0 <= i < n ==> #[trigger] x.0[i] == b[i].nalus
            &&& forall|i: int| 0 <= i < rows ==> #[trigger] x.1[i] == b[i].row
        }),
{
    reveal(du_table_at);
    reveal(du_items_at);
    lemma_rep_step(du_items_item(s, width, temporal_id, mask, num, rows), p, n as nat);
}

/// The increments of a decoding unit are coded for the sublayers
/// `temporal_id..=last`, if at all, and the others have none.
pub proof fn law_layout_dui_tables(
    s: Seq<bool>,
    p: nat,
    width: u32,
    temporal_id: u8,
    last: u8,
    coded: bool,
    x: (Seq<bool>, Seq<u32>),
    q: nat,
)
    requires
        temporal_id <= last <= 7,
    ensures
        dui_tables_at(s, p, width, temporal_id, last, coded) is Ok
            <==> dui_delays_at(
                s,
                p,
                width,
                (last - temporal_id) as u64,
                if coded { (last - temporal_id + 1) as u64 } else { 0 },
            ) is Ok,
        dui_tables_at(s, p, width, temporal_id, last, coded) == Ok::<((Seq<bool>, Seq<u32>), nat), Fault>((x, q)) ==> ({
            let b = cursor(s, p).next(
                |p: nat| dui_delays_at(
                    s,
                    p,
                    width,
                    (last - temporal_id) as u64,
                    if coded { (last - temporal_id + 1) as u64 } else { 0 },
                ),
            );
            &&& cursor(s, p).part(
                |p: nat| dui_delays_at(
                    s,
                    p,
                    width,
                    (last - temporal_id) as u64,
                    if coded { (last - temporal_id + 1) as u64 } else { 0 },
                ),
                b,
            ).ends(q)
            &&& x.0.len() == 8 && x.1.len() == 8
            &&& coded ==> b.len() == last - temporal_id + 1
            &&& forall|i: int|
                0 <= i < 8 ==> (#[trigger] x.0[i], x.1[i]) == if coded && temporal_id <= i <= last {
                    (b[i - temporal_id].present, b[i - temporal_id].increment)
                } else {
                    (false, 0u32)
                }
        }),
{
    reveal(dui_tables_at);
    reveal(dui_delays_at);
    let n: u64 = if coded {
        (last - temporal_id + 1) as u64
    } else {
        0
    };
    lemma_rep_step(dui_delays_item(s, width, (last - temporal_id) as u64), p, n as nat);
}

/// An indication ends with one bits up to the next byte boundary.
pub proof fn law_layout_prefix_bits(s: Seq<bool>, p: nat, x: Seq<bool>, q: nat)
    requires
        s.len() < 0x1_0000_0000_0000_0000,
        prefix_flags_at(s, p) matches Ok((_, r)) ==> r <= s.len(),
    ensures
        prefix_bits_at(s, p) == Ok::<(Seq<bool>, nat), Fault>((x, q)) <==> ({
            let c = cursor(s, p).part(|p: nat| prefix_flags_at(s, p), x);
            &&& c.good
            &&& c.pos <= q < c.pos + 8 && q % 8 == 0
            &&& forall|i: nat| c.pos <= i < q ==> #[trigger] bit_val(s, i) == 1
        }),
{
    reveal(prefix_bits_at);
    if let Ok((v, r)) = prefix_flags_at(s, p) {
        reveal(adv);
        let n = pad_len(r);
        assert(r + n < POS_CAP);
        lemma_ones(s, r, n);
        assert((r + n) % 8 == 0);
        if r <= q < r + 8 && q % 8 == 0 {
            assert(q == r + n);
        }
    }
}

proof fn lemma_ones(s: Seq<bool>, p: nat, n: nat)
    ensures
        uval(s, p, n) <= ones(n),
        uval(s, p, n) == ones(n) <==> forall|i: nat| p <= i < p + n ==> #[trigger] bit_val(s, i) == 1,
    decreases n,
{
    reveal(uval);
    lemma_pow2_pos(n);
    if n > 0 {
        lemma_ones(s, p, (n - 1) as nat);
        lemma_pow2_pos((n - 1) as nat);
        vstd::arithmetic::power2::lemma_pow2_unfold(n);
        let last = (p + n - 1) as nat;
        assert(bit_val(s, last) <= 1);
        if forall|i: nat| p <= i < p + n ==> #[trigger] bit_val(s, i) == 1 {
            assert(bit_val(s, last) == 1);
        }
    } else {
        lemma2_to64();
    }
}

/// A scalable nesting message is one of type 133. Its messages stand behind its
/// fields, as many as the fields say, and nothing stands behind them.
pub proof fn law_sn_message(m: SeiMessageModel, x: VvcScalableNestingModel)
    ensures
        sn_of(m) == Ok::<VvcScalableNestingModel, Fault>(x) <==> ({
            let s = bits_of(m.payload);
            let c = cursor(s, 0).part(|p: nat| sn_head_at(s, p), x.head);
            &&& m.payload_type == 133
            &&& c.good && c.pos <= s.len()
            &&& sei_messages_at(m.payload, c.pos / 8, (x.head.num_seis + 1) as nat) == Ok::<
                (Seq<SeiMessageModel>, nat),
                Fault,
            >((x.messages, m.payload.len()))
        }),
        m.payload_type != 133 ==> sn_of(m) == Err::<VvcScalableNestingModel, Fault>(Fault::Invalid),
{
}

/// The number of nested messages is coded less one, for 1 to 64 of them.
pub proof fn law_nested_minus1(n: nat)
    ensures
        nested_minus1(n) <= 63 <==> 1 <= n <= 64,
        nested_minus1(n) <= 63 ==> nested_minus1(n) + 1 == n,
{
}

/// A message is decoded by its type. One of another type is kept as it is.
pub proof fn law_decoded_by_type(m: SeiMessageModel)
    ensures
        match sei_of(m) {
            Ok(VvcSeiModel::BufferingPeriod(x)) => m.payload_type == 0 && bp_of(m) == Ok::<
                VvcBufferingPeriodModel,
                Fault,
            >(x),
            Ok(VvcSeiModel::ScalableNesting(x)) => m.payload_type == 133 && sn_of(m) == Ok::<
                VvcScalableNestingModel,
                Fault,
            >(x),
            Ok(VvcSeiModel::SeiManifest(x)) => m.payload_type == 200 && manifest_of(m) == Ok::<
                VvcSeiManifestModel,
                Fault,
            >(x),
            Ok(VvcSeiModel::SeiPrefixIndication(x)) => m.payload_type == 201 && prefix_of(m) == Ok::<
                VvcSeiPrefixIndicationModel,
                Fault,
            >(x),
            Ok(VvcSeiModel::SubpicLevelInfo(x)) => m.payload_type == 203 && sli_of(m) == Ok::<
                VvcSubpicLevelInfoModel,
                Fault,
            >(x),
            Ok(VvcSeiModel::ConstrainedRaslEncoding) => m.payload_type == 207 && m.payload.len() == 0,
            Ok(VvcSeiModel::Unknown { payload_type, payload }) => {
                &&& payload_type == m.payload_type && payload == m.payload
                &&& !(m.payload_type == 0 || m.payload_type == 133 || m.payload_type == 200 || m.payload_type
                    == 201 || m.payload_type == 203 || m.payload_type == 207)
            },
            Err(f) => {
                ||| m.payload_type == 0 && bp_of(m) == Err::<VvcBufferingPeriodModel, Fault>(f)
                ||| m.payload_type == 133 && sn_of(m) == Err::<VvcScalableNestingModel, Fault>(f)
                ||| m.payload_type == 200 && manifest_of(m) == Err::<VvcSeiManifestModel, Fault>(f)
                ||| m.payload_type == 201 && prefix_of(m) == Err::<VvcSeiPrefixIndicationModel, Fault>(f)
                ||| m.payload_type == 203 && sli_of(m) == Err::<VvcSubpicLevelInfoModel, Fault>(f)
                ||| m.payload_type == 207 && m.payload.len() > 0 && f == Fault::Invalid
            },
        },
{
}

/// SEI messages are what stands behind the two header bytes of a NAL unit of type 23
/// or 24.
pub proof fn law_sei_nal(b: Seq<u8>)
    ensures
        sei_of_nal(b) == if b.len() < 2 {
            Err(Fault::End)
        } else if b[0] >= 128 || (b[1] / 8 != 23 && b[1] / 8 != 24) {
            Err(Fault::Invalid)
        } else {
            sei_messages_of(unescape(b.skip(2)))
        },
{
}

/// Reading an indication fails only as too short or as invalid.
pub broadcast proof fn law_faults_prefix_bits(s: Seq<bool>, p: nat)
    ensures
        #[trigger] prefix_bits_at(s, p) matches Err(f) ==> f != Fault::Unsupported,
{
    broadcast use law_faults_prefix_flags;

    reveal(prefix_bits_at);
}

/// Each field of the model of a [`VvcScalableNesting`] is the field of that name.
pub proof fn law_fields_of_scalable_nesting(x: VvcScalableNesting)
    ensures
        x@.head.sn_ols_flag == x.sn_ols_flag,
        x@.head.sn_subpic_flag == x.sn_subpic_flag,
        x@.head.sn_ols_idx_delta_minus1 == x.sn_ols_idx_delta_minus1@,
        x@.head.sn_all_layers_flag == x.sn_all_layers_flag,
        x@.head.sn_layer_ids == x.sn_layer_ids@,
        x@.head.sn_subpic_id_len_minus1 == x.sn_subpic_id_len_minus1,
        x@.head.sn_subpic_ids == x.sn_subpic_ids@,
        x@.head.num_seis == nested_minus1(x.messages@.len()),
        x@.messages == seq_view(x.messages@),
{
}

/// Each kind of [`VvcSei`] has the model of that kind, with the same contents.
pub proof fn law_fields_of_sei(x: VvcSei)
    ensures
        match x {
            VvcSei::BufferingPeriod(y) => x@ == VvcSeiModel::BufferingPeriod(y@),
            VvcSei::ScalableNesting(y) => x@ == VvcSeiModel::ScalableNesting(y@),
            VvcSei::SubpicLevelInfo(y) => x@ == VvcSeiModel::SubpicLevelInfo(y@),
            VvcSei::SeiManifest(y) => x@ == VvcSeiModel::SeiManifest(y@),
            VvcSei::SeiPrefixIndication(y) => x@ == VvcSeiModel::SeiPrefixIndication(y@),
            VvcSei::ConstrainedRaslEncoding => x@ == VvcSeiModel::ConstrainedRaslEncoding,
            VvcSei::Unknown { payload_type, payload } => x@ == (VvcSeiModel::Unknown {
                payload_type: payload_type,
                payload: payload@,
            }),
        },
{
}

/// The first sublayer with initial removal delays is 0 if all of them have some, else the
/// highest one.
pub proof fn law_first_coded_sublayer(x: VvcBufferingPeriod, n: usize)
    requires
        call_ensures(VvcBufferingPeriod::first_coded_sublayer, (&x,), n),
    ensures
        x.bp_sublayer_initial_cpb_removal_delay_present_flag ==> n == 0,
        !x.bp_sublayer_initial_cpb_removal_delay_present_flag ==> n == x.bp_max_sublayers_minus1,
{
}

} // verus!
