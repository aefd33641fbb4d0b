//! H.266 / VVC video parameter set (§7.3.2.3): complete walk, parse and
//! byte-exact write.
//!
//! [`parse_vps`] walks every syntax element of
//! `video_parameter_set_rbsp()` through `rbsp_trailing_bits()`,
//! including the multi-layer dependency block, the output layer set
//! derivation that its loop bounds depend on, and the DPB and timing/HRD
//! blocks; [`write_vps`] is its byte-exact inverse (see
//! [`law_write_parsed_vps`]).
use crate::bit_reader::{BitReader, read_is, read_seq_is, read_vec_is, read_view_is};
use crate::bit_writer::{BitWriter, write_is};
use crate::bits::{
    Read, adv, adv_if, align_at, bitlist_at, bitlist_ok, bits_of, fits, flag_if,
    group_read_written, group_read_written_lists, group_write_read, group_write_read_lists,
    law_faults_bitlist, law_faults_tail, law_faults_ue, law_fits_small, law_pre_put_tail,
    law_put_rep_at, law_put_tail_at, law_rep_at_put, lemma_bits_of_injective, lemma_bits_of_len,
    lemma_pad_aligned, lemma_rep_err, lemma_rep_faults, lemma_rep_faults_none, lemma_rep_step,
    lemma_seq_view_push, lemma_trailing_aligned, opt_view, pre, put_align, put_bit, put_bit_if,
    put_bitlist, put_flag_if, put_rep, put_tail, put_u, put_u_if, put_ue, put_ue_if, read_some,
    rep_at, seq_view, tail_at, tail_can, tail_ok, u8_at, u8_if, ue_at, ue_fits, ue_if, upto,
    whole, within,
};
use crate::layout::cursor;
use crate::h266::params::{
    VvcDpbParameters, VvcDpbParametersModel, VvcGeneralTimingHrd, VvcOlsTimingHrd,
    VvcOlsTimingHrdModel, dpb_parameters_at, dpb_parameters_can, dpb_parameters_ok,
    general_timing_hrd_at, general_timing_hrd_can, general_timing_hrd_ok,
    law_faults_dpb_parameters, law_faults_general_timing_hrd, law_faults_ols_timing_hrd,
    law_pre_put_dpb_parameters, law_pre_put_general_timing_hrd, law_pre_put_ols_timing_hrd,
    law_put_dpb_parameters_at, law_put_general_timing_hrd_at, law_put_ols_timing_hrd_at,
    ols_timing_hrd_at, ols_timing_hrd_can, ols_timing_hrd_ok, parse_dpb_parameters,
    parse_general_timing_hrd, parse_ols_timing_hrd, put_dpb_parameters, put_general_timing_hrd,
    put_ols_timing_hrd, write_dpb_parameters, write_general_timing_hrd, write_ols_timing_hrd,
};
use crate::h266::{
    NAL_TYPE_VPS, VvcProfileTierLevel, VvcProfileTierLevelModel, canonical_nal, frame_nal,
    law_faults_ptl, law_framed_rbsp_of_nal, law_pre_put_ptl, law_put_ptl_at,
    law_rbsp_of_framed_nal, nal_of_rbsp, nal_rbsp, nal_read_is, nal_write_is,
    parse_profile_tier_level, ptl_at, ptl_can, ptl_ok, put_ptl, rbsp_of_nal, rbsp_write_is,
    write_profile_tier_level,
};
use crate::nal::{escape, lemma_unescape_len, unescape};
use crate::rbsp::{parse_tail, write_tail};
use crate::message::Message;
use crate::{BitstreamError, Fault};
use vstd::prelude::*;

verus! {

// ─────────────────────────── Layers ──────────────────────────────────────────

/// One layer's entry in the VPS layer loop (§7.3.2.3). Uncoded fields
/// carry their §7.4.3.3 inferred values.
#[derive(Debug, Clone, PartialEq, Eq, Default)]
pub struct VvcVpsLayer {
    /// `vps_layer_id[i]` u(6) — strictly increasing across layers.
    pub vps_layer_id: u8,
    /// `vps_independent_layer_flag[i]` u(1) — coded only for `i > 0`
    /// when `!vps_all_independent_layers_flag`; inferred 1.
    pub vps_independent_layer_flag: u8,
    /// `vps_max_tid_ref_present_flag[i]` u(1) — coded only for
    /// dependent layers; inferred 0.
    pub vps_max_tid_ref_present_flag: u8,
    /// `vps_direct_ref_layer_flag[i][j]` for `j < i` — empty (all
    /// inferred 0) for independent layers.
    pub vps_direct_ref_layer_flag: Vec<u8>,
    /// `vps_max_tid_il_ref_pics_plus1[i][j]` for `j < i` — parallel
    /// to the direct-ref flags; coded only where the max-tid-ref
    /// present flag and the direct-ref flag are both set, inferred
    /// `vps_max_sublayers_minus1 + 1` otherwise. Empty for
    /// independent layers.
    pub vps_max_tid_il_ref_pics_plus1: Vec<u8>,
}

/// The reference of a layer to one lower layer at position `p`.
#[verifier::opaque]
pub open spec fn ref_pair_at(s: Seq<bool>, p: nat, present: u8, dflt: u8) -> Read<(u8, u8)> {
    let direct = u8_at(s, p, 1);
    let p = adv(p, 1);
    let max_tid = u8_if(s, p, 3, present != 0 && direct != 0, dflt);
    let p = adv_if(p, 3, present != 0 && direct != 0);
    Ok(((direct, max_tid), p))
}

/// The bits `a` followed by the reference of a layer to one lower layer.
#[verifier::opaque]
pub open spec fn put_ref_pair(a: Seq<bool>, x: (u8, u8), present: u8, dflt: u8) -> Seq<bool> {
    let a = put_bit(a, x.0 as nat);
    let a = put_u_if(a, x.1 as nat, 3, present != 0 && x.0 != 0);
    a
}

/// The values of the reference of a layer to one lower layer that reading can
/// give.
#[verifier::opaque]
pub open spec fn ref_pair_ok(x: (u8, u8), present: u8, dflt: u8) -> bool {
    &&& fits(x.0 as nat, 1)
    &&& if present != 0 && x.0 != 0 { fits(x.1 as nat, 3) } else { x.1 == dflt }
}

/// The values of the reference of a layer to one lower layer that the writer
/// accepts.
#[verifier::opaque]
pub open spec fn ref_pair_can(x: (u8, u8), present: u8, dflt: u8) -> bool {
    &&& if present != 0 && x.0 != 0 { x.1 <= 7 } else { x.1 == dflt }
}

/// Parses the reference of a layer to one lower layer.
fn parse_ref_pair(r: &mut BitReader<'_>, present: u8, dflt: u8) -> (res: Result<(u8, u8), BitstreamError>)
    ensures
        read_is(ref_pair_at(old(r).bits(), old(r).pos(), present, dflt), res, *old(r), *final(r)),
{
    proof {
        reveal(ref_pair_at);
    }
    let direct: u8 = r.bit();
    let max_tid: u8 = r.u8_if(3, present != 0 && direct != 0, dflt);
    Ok((direct, max_tid))
}

/// Emits the reference of a layer to one lower layer, the inverse of [`parse_ref_pair`].
fn write_ref_pair(w: &mut BitWriter, x: &(u8, u8), present: u8, dflt: u8) -> (res: Result<(), BitstreamError>)
    ensures
        write_is(ref_pair_can(*x, present, dflt), put_ref_pair(old(w)@, *x, present, dflt), res, final(w)@),
{
    proof {
        reveal(put_ref_pair);
        reveal(ref_pair_can);
    }
    w.write_bit(x.0 as u32);
    if !(if present != 0 && x.0 != 0 { x.1 <= 7 } else { x.1 == dflt }) {
        return Err(
            if present != 0 && x.0 != 0 {
                BitstreamError::invalid("vps_max_tid_il_ref_pics_plus1 does not fit u(3)")
            } else {
                BitstreamError::invalid(
                    "uncoded vps_max_tid_il_ref_pics_plus1 must carry its inferred value (7.4.3.3)",
                )
            },
        );
    }
    w.write_bits_if(x.1 as u32, 3, present != 0 && x.0 != 0);
    Ok(())
}

/// Writing the reference of a layer to one lower layer gives back the bits it
/// was read from.
pub broadcast proof fn law_put_ref_pair_at(s: Seq<bool>, p: nat, present: u8, dflt: u8)
    ensures
        #[trigger] ref_pair_at(s, p, present, dflt) matches Ok((x, q)) ==> {
            &&& ref_pair_ok(x, present, dflt)
            &&& ref_pair_can(x, present, dflt)
            &&& within(s, q) ==> within(s, p) && put_ref_pair(upto(s, p), x, present, dflt) == upto(s, q)
        },
{
    broadcast use crate::bits::group_write_read;

    reveal(ref_pair_at);
    reveal(put_ref_pair);
    reveal(ref_pair_ok);
    reveal(ref_pair_can);
}

/// Reading gives back the reference of a layer to one lower layer as it was
/// written.
pub broadcast proof fn law_pre_put_ref_pair(a: Seq<bool>, x: (u8, u8), present: u8, dflt: u8, s: Seq<bool>)
    requires
        #[trigger] pre(put_ref_pair(a, x, present, dflt), s),
        ref_pair_ok(x, present, dflt),
    ensures
        pre(a, s),
        ref_pair_can(x, present, dflt),
        ref_pair_at(s, a.len(), present, dflt) == Ok::<((u8, u8), nat), Fault>(
            (x, put_ref_pair(a, x, present, dflt).len()),
        ),
{
    broadcast use crate::bits::group_read_written;

    reveal(ref_pair_at);
    reveal(put_ref_pair);
    reveal(ref_pair_ok);
    reveal(ref_pair_can);
}

/// The layout of the reference of a layer to one lower layer: reading at `p`
/// gives `x` and ends at `q` if and only if these elements stand there in this
/// order.
pub proof fn law_layout_ref_pair(s: Seq<bool>, p: nat, present: u8, dflt: u8, x: (u8, u8), q: nat)
    ensures
        ref_pair_at(s, p, present, dflt) == Ok::<((u8, u8), nat), Fault>((x, q)) <==> cursor(s, p)
            .u8(1, x.0)
            .u8_if(present != 0 && x.0 != 0, 3, x.1, dflt)
            .ends(q),
{
    reveal(ref_pair_at);
    reveal(adv_if);
    reveal(u8_if);
}

/// Reading the reference of a layer to one lower layer never fails.
pub broadcast proof fn law_faults_ref_pair(s: Seq<bool>, p: nat, present: u8, dflt: u8)
    ensures
        #[trigger] ref_pair_at(s, p, present, dflt) is Ok,
{
    reveal(ref_pair_at);
}

/// What the writer accepts reads back: the reference of a layer to one lower
/// layer, where each field fits its width and what is not coded has the value
/// that is taken for it.
pub proof fn law_reads_ref_pair(a: Seq<bool>, x: (u8, u8), present: u8, dflt: u8, s: Seq<bool>)
    requires
        ref_pair_can(x, present, dflt),
        fits(x.0 as nat, 1),
        !(present != 0 && x.0 != 0) ==> x.1 == dflt,
        pre(put_ref_pair(a, x, present, dflt), s),
    ensures
        ref_pair_at(s, a.len(), present, dflt) == Ok::<((u8, u8), nat), Fault>(
            (x, put_ref_pair(a, x, present, dflt).len()),
        ),
{
    assert(ref_pair_ok(x, present, dflt)) by {
        broadcast use crate::bits::law_fits_small;

        reveal(ref_pair_ok);
        reveal(ref_pair_can);
    }
    law_pre_put_ref_pair(a, x, present, dflt, s);
}

/// Reads the reference of a layer to one lower layer, behind the items before
/// it.
pub open spec fn ref_pairs_item(
    s: Seq<bool>,
    present: u8,
    dflt: u8,
) -> spec_fn(Seq<(u8, u8)>, nat) -> Read<(u8, u8)> {
    |done: Seq<(u8, u8)>, q: nat| ref_pair_at(s, q, present, dflt)
}

/// Writes the reference of a layer to one lower layer, behind the items before
/// it.
pub open spec fn put_ref_pairs_item(
    present: u8,
    dflt: u8,
) -> spec_fn(Seq<bool>, Seq<(u8, u8)>, (u8, u8)) -> Seq<bool> {
    |a: Seq<bool>, done: Seq<(u8, u8)>, x: (u8, u8)| put_ref_pair(a, x, present, dflt)
}

/// Whether the reference of a layer to one lower layer may follow the items
/// before it.
pub open spec fn ref_pairs_item_ok(present: u8, dflt: u8) -> spec_fn(Seq<(u8, u8)>, (u8, u8)) -> bool {
    |done: Seq<(u8, u8)>, x: (u8, u8)| ref_pair_ok(x, present, dflt) && ref_pair_can(x, present, dflt)
}

/// `n` items at position `p`, each the reference of a layer to one lower layer.
#[verifier::opaque]
pub open spec fn ref_pairs_at(s: Seq<bool>, p: nat, present: u8, dflt: u8, n: u64) -> Read<Seq<(u8, u8)>> {
    rep_at(ref_pairs_item(s, present, dflt), p, n as nat)
}

/// The bits `a` followed by the items.
#[verifier::opaque]
pub open spec fn put_ref_pairs(a: Seq<bool>, xs: Seq<(u8, u8)>, present: u8, dflt: u8, n: u64) -> Seq<bool> {
    put_rep(put_ref_pairs_item(present, dflt), a, xs)
}

/// `n` items that reading can give.
#[verifier::opaque]
pub open spec fn ref_pairs_ok(xs: Seq<(u8, u8)>, present: u8, dflt: u8, n: u64) -> bool {
    xs.len() == n
        && forall|i: int| 0 <= i < xs.len()
        ==> ref_pair_ok(#[trigger] xs[i], present, dflt)
        && ref_pair_can(xs[i], present, dflt)
}

/// `n` items that the writer accepts.
#[verifier::opaque]
pub open spec fn ref_pairs_can(xs: Seq<(u8, u8)>, present: u8, dflt: u8, n: u64) -> bool {
    xs.len() == n && forall|i: int| 0 <= i < xs.len() ==> ref_pair_can(#[trigger] xs[i], present, dflt)
}

/// Writing what was read gives back the bits that were read.
pub broadcast proof fn law_put_ref_pairs_at(s: Seq<bool>, p: nat, present: u8, dflt: u8, n: u64)
    ensures
        #[trigger] ref_pairs_at(s, p, present, dflt, n) matches Ok((xs, q)) ==> {
            &&& xs.len() == n
            &&& ref_pairs_ok(xs, present, dflt, n)
            &&& ref_pairs_can(xs, present, dflt, n)
            &&& within(s, q) ==> within(s, p) && put_ref_pairs(upto(s, p), xs, present, dflt, n) == upto(s, q)
        },
{
    broadcast use law_put_ref_pair_at;

    reveal(ref_pairs_at);
    reveal(put_ref_pairs);
    reveal(ref_pairs_ok);
    reveal(ref_pairs_can);
    let ok = ref_pairs_item_ok(present, dflt);
    law_put_rep_at(s, ref_pairs_item(s, present, dflt), put_ref_pairs_item(present, dflt), ok, p, n as nat);
    if let Ok((xs, q)) = ref_pairs_at(s, p, present, dflt, n) {
        assert forall|i: int| 0 <= i < xs.len() implies ok(xs.take(i), #[trigger] xs[i]) by {}
    }
}

/// What was written reads back as the items that were written.
pub broadcast proof fn law_pre_put_ref_pairs(
    a: Seq<bool>,
    xs: Seq<(u8, u8)>,
    present: u8,
    dflt: u8,
    n: u64,
    s: Seq<bool>,
)
    requires
        #[trigger] pre(put_ref_pairs(a, xs, present, dflt, n), s),
        ref_pairs_ok(xs, present, dflt, n),
    ensures
        pre(a, s),
        ref_pairs_can(xs, present, dflt, n),
        ref_pairs_at(s, a.len(), present, dflt, n) == Ok::<(Seq<(u8, u8)>, nat), Fault>(
            (xs, put_ref_pairs(a, xs, present, dflt, n).len()),
        ),
{
    broadcast use law_pre_put_ref_pair;

    reveal(ref_pairs_at);
    reveal(put_ref_pairs);
    reveal(ref_pairs_ok);
    reveal(ref_pairs_can);
    law_rep_at_put(
        s,
        ref_pairs_item(s, present, dflt),
        put_ref_pairs_item(present, dflt),
        ref_pairs_item_ok(present, dflt),
        a,
        xs,
    );
}

/// `n` items stand one behind the other: `n - 1` items, and then the reference
/// of a layer to one lower layer.
pub proof fn law_layout_ref_pairs(
    s: Seq<bool>,
    p: nat,
    present: u8,
    dflt: u8,
    n: u64,
    xs: Seq<(u8, u8)>,
    q: nat,
)
    ensures
        ref_pairs_at(s, p, present, dflt, n) == Ok::<(Seq<(u8, u8)>, nat), Fault>((xs, q)) <==> if n == 0 {
            xs.len() == 0 && q == p
        } else {
            &&& xs.len() == n
            &&& cursor(s, p)
                .part(|p: nat| ref_pairs_at(s, p, present, dflt, (n - 1) as u64), xs.drop_last())
                .part(|p: nat| ref_pair_at(s, p, present, dflt), xs.last())
                .ends(q)
        },
{
    reveal(ref_pairs_at);
    lemma_rep_step(ref_pairs_item(s, present, dflt), p, n as nat);
    if xs.len() == 0 {
        assert(xs =~= Seq::empty());
    } else {
        assert(xs =~= xs.drop_last().push(xs.last()));
    }
    if n > 0 {
        if let Ok((done, r)) = rep_at(ref_pairs_item(s, present, dflt), p, (n - 1) as nat) {
            if let Ok((y, z)) = ref_pairs_item(s, present, dflt)(done, r) {
                assert(done.push(y).drop_last() =~= done);
            }
        }
    }
}

/// What the writer accepts as `n` items reads back, where each of them is one that
/// reading can give.
pub proof fn law_reads_ref_pairs(a: Seq<bool>, xs: Seq<(u8, u8)>, present: u8, dflt: u8, n: u64, s: Seq<bool>)
    requires
        ref_pairs_can(xs, present, dflt, n),
        forall|i: int| 0 <= i < xs.len() ==> ref_pair_ok(#[trigger] xs[i], present, dflt),
        pre(put_ref_pairs(a, xs, present, dflt, n), s),
    ensures
        xs.len() == n,
        ref_pairs_at(s, a.len(), present, dflt, n) == Ok::<(Seq<(u8, u8)>, nat), Fault>(
            (xs, put_ref_pairs(a, xs, present, dflt, n).len()),
        ),
{
    reveal(ref_pairs_can);
    assert(ref_pairs_ok(xs, present, dflt, n)) by {
        reveal(ref_pairs_ok);
    }
    law_pre_put_ref_pairs(a, xs, present, dflt, n, s);
}

/// Reading the items never fails.
pub broadcast proof fn law_faults_ref_pairs(s: Seq<bool>, p: nat, present: u8, dflt: u8, n: u64)
    ensures
        #[trigger] ref_pairs_at(s, p, present, dflt, n) is Ok,
{
    broadcast use law_faults_ref_pair;

    reveal(ref_pairs_at);
    let f = ref_pairs_item(s, present, dflt);
    assert forall|done: Seq<(u8, u8)>, q: nat| (#[trigger] f(done, q)) is Ok by {}
    lemma_rep_faults_none(f, p, n as nat);
}

/// The first components of pairs.
pub open spec fn firsts(ps: Seq<(u8, u8)>) -> Seq<u8> {
    Seq::new(ps.len(), |j: int| ps[j].0)
}

/// The second components of pairs.
pub open spec fn seconds(ps: Seq<(u8, u8)>) -> Seq<u8> {
    Seq::new(ps.len(), |j: int| ps[j].1)
}

/// Pairs from their components.
pub open spec fn pairs(d: Seq<u8>, m: Seq<u8>) -> Seq<(u8, u8)> {
    Seq::new(d.len(), |j: int| (d[j], m[j]))
}

/// Some entry is 1.
pub open spec fn has_one(d: Seq<u8>) -> bool {
    exists|j: int| 0 <= j < d.len() && #[trigger] d[j] == 1
}

/// The direct reference flags and the sublayer limits of layer `i` at position
/// `p`, both empty for an independent layer.
#[verifier::opaque]
pub open spec fn layer_refs_at(
    s: Seq<bool>,
    p: nat,
    dependent: bool,
    i: u64,
    present: u8,
    dflt: u8,
) -> Read<(Seq<u8>, Seq<u8>)> {
    if dependent {
        match ref_pairs_at(s, p, present, dflt, i) {
            Err(f) => Err(f),
            Ok((ps, p)) => if has_one(firsts(ps)) {
                Ok(((firsts(ps), seconds(ps)), p))
            } else {
                Err(Fault::Invalid)
            },
        }
    } else {
        Ok(((Seq::empty(), Seq::empty()), p))
    }
}

/// Writes them.
#[verifier::opaque]
pub open spec fn put_layer_refs(
    a: Seq<bool>,
    x: (Seq<u8>, Seq<u8>),
    dependent: bool,
    i: u64,
    present: u8,
    dflt: u8,
) -> Seq<bool> {
    if dependent {
        put_ref_pairs(a, pairs(x.0, x.1), present, dflt, i)
    } else {
        a
    }
}

/// Values that reading can give.
#[verifier::opaque]
pub open spec fn layer_refs_ok(
    x: (Seq<u8>, Seq<u8>),
    dependent: bool,
    i: u64,
    present: u8,
    dflt: u8,
) -> bool {
    if dependent {
        x.0.len() == i && x.1.len() == i && ref_pairs_ok(pairs(x.0, x.1), present, dflt, i)
            && has_one(x.0)
    } else {
        x.0.len() == 0 && x.1.len() == 0
    }
}

/// Values that the writer accepts.
#[verifier::opaque]
pub open spec fn layer_refs_can(
    x: (Seq<u8>, Seq<u8>),
    dependent: bool,
    i: u64,
    present: u8,
    dflt: u8,
) -> bool {
    if dependent {
        x.0.len() == i && x.1.len() == i && ref_pairs_can(pairs(x.0, x.1), present, dflt, i)
    } else {
        x.0.len() == 0
    }
}

/// Parses the references of layer `i`.
fn parse_layer_refs(
    r: &mut BitReader<'_>,
    dependent: bool,
    i: u64,
    present: u8,
    dflt: u8,
) -> (res: Result<(Vec<u8>, Vec<u8>), BitstreamError>)
    ensures
        final(r).bits() == old(r).bits(),
        final(r).bytes() == old(r).bytes(),
        match layer_refs_at(old(r).bits(), old(r).pos(), dependent, i, present, dflt) {
            Ok((x, p)) => res matches Ok(v) && (v.0@, v.1@) == x && final(r).pos() == p,
            Err(f) => res matches Err(e) && e.fault() == f,
        },
{
    let ghost s = r.bits();
    let ghost p = r.pos();
    let ghost reads = ref_pairs_item(s, present, dflt);
    let mut direct: Vec<u8> = Vec::new();
    let mut max_tid: Vec<u8> = Vec::new();
    let mut one: bool = false;
    proof {
        reveal(layer_refs_at);
        reveal(ref_pairs_at);
    }
    if !dependent {
        return Ok((direct, max_tid));
    }
    let mut j: u64 = 0;
    proof {
        assert(pairs(direct@, max_tid@) =~= Seq::empty());
    }
    while j < i
        invariant
            dependent,
            j <= i,
            direct@.len() == j,
            max_tid@.len() == j,
            one == has_one(direct@),
            reads == ref_pairs_item(s, present, dflt),
            s == r.bits(),
            s == old(r).bits(),
            p == old(r).pos(),
            r.bytes() == old(r).bytes(),
            rep_at(reads, p, j as nat) == Ok::<(Seq<(u8, u8)>, nat), Fault>(
                (pairs(direct@, max_tid@), r.pos()),
            ),
        decreases i - j,
    {
        match parse_ref_pair(r, present, dflt) {
            Ok((d, m)) => {
                proof {
                    assert(pairs(direct@, max_tid@).push((d, m)) =~= pairs(
                        direct@.push(d),
                        max_tid@.push(m),
                    ));
                    let before = direct@;
                    let after = direct@.push(d);
                    if has_one(before) {
                        let k = choose|k: int| 0 <= k < before.len() && #[trigger] before[k] == 1;
                        assert(after[k] == 1);
                    }
                    if has_one(after) {
                        let k = choose|k: int| 0 <= k < after.len() && #[trigger] after[k] == 1;
                        if k < before.len() {
                            assert(before[k] == 1);
                        }
                    }
                    if d == 1 {
                        assert(after[before.len() as int] == 1);
                    }
                }
                direct.push(d);
                max_tid.push(m);
                one = one || d == 1;
            },
            Err(e) => {
                proof {
                    reveal(layer_refs_at);
                    reveal(ref_pairs_at);
                    lemma_rep_err(reads, p, (j + 1) as nat, i as nat);
                }
                return Err(e);
            },
        }
        j = j + 1;
    }
    proof {
        assert(firsts(pairs(direct@, max_tid@)) =~= direct@);
        assert(seconds(pairs(direct@, max_tid@)) =~= max_tid@);
    }
    if !one {
        return Err(
            BitstreamError::invalid(
                "a dependent layer needs at least one direct reference layer (7.4.3.3)",
            ),
        );
    }
    Ok((direct, max_tid))
}

/// Emits the references of layer `i`.
fn write_layer_refs(
    w: &mut BitWriter,
    x: &VvcVpsLayer,
    dependent: bool,
    i: u64,
    present: u8,
    dflt: u8,
    text: &str,
) -> (res: Result<(), BitstreamError>)
    ensures
        write_is(
            layer_refs_can(
                (x.vps_direct_ref_layer_flag@, x.vps_max_tid_il_ref_pics_plus1@),
                dependent,
                i,
                present,
                dflt,
            ),
            put_layer_refs(
                old(w)@,
                (x.vps_direct_ref_layer_flag@, x.vps_max_tid_il_ref_pics_plus1@),
                dependent,
                i,
                present,
                dflt,
            ),
            res,
            final(w)@,
        ),
{
    let ghost d = x.vps_direct_ref_layer_flag@;
    let ghost m = x.vps_max_tid_il_ref_pics_plus1@;
    let ghost ys = pairs(d, m);
    let ghost before = w@;
    let ghost puts = put_ref_pairs_item(present, dflt);
    proof {
        reveal(put_layer_refs);
        reveal(layer_refs_can);
        reveal(put_ref_pairs);
        reveal(ref_pairs_can);
        assert(ys.take(0) =~= Seq::empty());
    }
    if !dependent {
        if x.vps_direct_ref_layer_flag.len() != 0 {
            return Err(
                BitstreamError::invalid(text),
            );
        }
        return Ok(());
    }
    if x.vps_direct_ref_layer_flag.len() as u64 != i || x.vps_max_tid_il_ref_pics_plus1.len() as u64
        != i {
        return Err(
            BitstreamError::invalid(
                "dependent layer needs exactly i direct-ref / max-tid entries (7.3.2.3)",
            ),
        );
    }
    let mut j: usize = 0;
    while j < x.vps_direct_ref_layer_flag.len()
        invariant
            dependent,
            j <= ys.len(),
            ys == pairs(d, m),
            d == x.vps_direct_ref_layer_flag@,
            m == x.vps_max_tid_il_ref_pics_plus1@,
            d.len() == i,
            m.len() == i,
            puts == put_ref_pairs_item(present, dflt),
            w@ == put_rep(puts, before, ys.take(j as int)),
            forall|k: int| 0 <= k < j ==> ref_pair_can(#[trigger] ys[k], present, dflt),
        decreases ys.len() - j,
    {
        proof {
            assert(ys.take(j + 1).drop_last() =~= ys.take(j as int));
        }
        let pair: (u8, u8) = (x.vps_direct_ref_layer_flag[j], x.vps_max_tid_il_ref_pics_plus1[j]);
        assert(ys[j as int] == pair);
        match write_ref_pair(w, &pair, present, dflt) {
            Ok(()) => {},
            Err(e) => {
                proof {
                    reveal(layer_refs_can);
                    reveal(ref_pairs_can);
                }
                return Err(e);
            },
        }
        j = j + 1;
    }
    proof {
        assert(ys.take(j as int) =~= ys);
    }
    Ok(())
}

/// Writing what was read gives back the bits that were read.
pub broadcast proof fn law_put_layer_refs_at(
    s: Seq<bool>,
    p: nat,
    dependent: bool,
    i: u64,
    present: u8,
    dflt: u8,
)
    ensures
        #[trigger] layer_refs_at(s, p, dependent, i, present, dflt) matches Ok((x, q)) ==> {
            &&& layer_refs_ok(x, dependent, i, present, dflt)
            &&& layer_refs_can(x, dependent, i, present, dflt)
            &&& within(s, q) ==> within(s, p) && put_layer_refs(
                upto(s, p),
                x,
                dependent,
                i,
                present,
                dflt,
            ) == upto(s, q)
        },
{
    broadcast use law_put_ref_pairs_at;

    reveal(layer_refs_at);
    reveal(put_layer_refs);
    reveal(layer_refs_ok);
    reveal(layer_refs_can);
    if dependent {
        if let Ok((ps, q)) = ref_pairs_at(s, p, present, dflt, i) {
            assert(pairs(firsts(ps), seconds(ps)) =~= ps);
        }
    }
}

/// What was written reads back as the value that was written.
pub broadcast proof fn law_pre_put_layer_refs(
    a: Seq<bool>,
    x: (Seq<u8>, Seq<u8>),
    dependent: bool,
    i: u64,
    present: u8,
    dflt: u8,
    s: Seq<bool>,
)
    requires
        #[trigger] pre(put_layer_refs(a, x, dependent, i, present, dflt), s),
        layer_refs_ok(x, dependent, i, present, dflt),
    ensures
        pre(a, s),
        layer_refs_can(x, dependent, i, present, dflt),
        layer_refs_at(s, a.len(), dependent, i, present, dflt) == Ok::<
            ((Seq<u8>, Seq<u8>), nat),
            Fault,
        >((x, put_layer_refs(a, x, dependent, i, present, dflt).len())),
{
    broadcast use law_pre_put_ref_pairs;

    reveal(layer_refs_at);
    reveal(put_layer_refs);
    reveal(layer_refs_ok);
    reveal(layer_refs_can);
    if dependent {
        assert(firsts(pairs(x.0, x.1)) =~= x.0);
        assert(seconds(pairs(x.0, x.1)) =~= x.1);
    } else {
        assert(x.0 =~= Seq::empty());
        assert(x.1 =~= Seq::empty());
    }
}

/// The mathematical model of a [`VvcVpsLayer`].
pub struct VvcVpsLayerModel {
    pub vps_layer_id: u8,
    pub vps_independent_layer_flag: u8,
    pub vps_max_tid_ref_present_flag: u8,
    pub refs: (Seq<u8>, Seq<u8>),
}

impl View for VvcVpsLayer {
    type V = VvcVpsLayerModel;

    open spec fn view(&self) -> VvcVpsLayerModel {
        VvcVpsLayerModel {
            vps_layer_id: self.vps_layer_id,
            vps_independent_layer_flag: self.vps_independent_layer_flag,
            vps_max_tid_ref_present_flag: self.vps_max_tid_ref_present_flag,
            refs: (self.vps_direct_ref_layer_flag@, self.vps_max_tid_il_ref_pics_plus1@),
        }
    }
}

/// Layer number `i` at position `p`.
#[verifier::opaque]
pub open spec fn vps_layer_at(
    s: Seq<bool>,
    p: nat,
    i: u64,
    all_independent: u8,
    dflt: u8,
) -> Read<VvcVpsLayerModel> {
    let vps_layer_id = u8_at(s, p, 6);
    let p = adv(p, 6);
    let dep = i > 0 && all_independent == 0;
    let vps_independent_layer_flag = u8_if(s, p, 1, dep, 1);
    let p = adv_if(p, 1, dep);
    let dependent = dep && vps_independent_layer_flag == 0;
    let vps_max_tid_ref_present_flag = u8_if(s, p, 1, dependent, 0);
    let p = adv_if(p, 1, dependent);
    match layer_refs_at(s, p, dependent, i, vps_max_tid_ref_present_flag, dflt)
    { Err(f) => Err(f), Ok((refs, p)) => {
    Ok((VvcVpsLayerModel { vps_layer_id, vps_independent_layer_flag, vps_max_tid_ref_present_flag, refs }, p))
    }}
}

/// The bits `a` followed by layer number `i`.
#[verifier::opaque]
pub open spec fn put_vps_layer(
    a: Seq<bool>,
    x: VvcVpsLayerModel,
    i: u64,
    all_independent: u8,
    dflt: u8,
) -> Seq<bool> {
    let a = put_u(a, x.vps_layer_id as nat, 6);
    let dep = i > 0 && all_independent == 0;
    let a = put_bit_if(a, x.vps_independent_layer_flag as nat, dep);
    let dependent = dep && x.vps_independent_layer_flag == 0;
    let a = put_bit_if(a, x.vps_max_tid_ref_present_flag as nat, dependent);
    let a = put_layer_refs(a, x.refs, dependent, i, x.vps_max_tid_ref_present_flag, dflt);
    a
}

/// The values of layer number `i` that reading can give.
#[verifier::opaque]
pub open spec fn vps_layer_ok(x: VvcVpsLayerModel, i: u64, all_independent: u8, dflt: u8) -> bool {
    &&& fits(x.vps_layer_id as nat, 6)
    &&& {
        let dep = i > 0 && all_independent == 0;
        &&& if dep { fits(x.vps_independent_layer_flag as nat, 1) } else { x.vps_independent_layer_flag == 1 }
        &&& {
            let dependent = dep && x.vps_independent_layer_flag == 0;
            &&& if dependent {
                fits(x.vps_max_tid_ref_present_flag as nat, 1)
            } else {
                x.vps_max_tid_ref_present_flag == 0
            }
            &&& layer_refs_ok(x.refs, dependent, i, x.vps_max_tid_ref_present_flag, dflt)
        }
    }
}

/// The values of layer number `i` that the writer accepts.
#[verifier::opaque]
pub open spec fn vps_layer_can(x: VvcVpsLayerModel, i: u64, all_independent: u8, dflt: u8) -> bool {
    &&& x.vps_layer_id <= 63
    &&& {
        let dep = i > 0 && all_independent == 0;
        &&& dep || x.vps_independent_layer_flag == 1
        &&& {
            let dependent = dep && x.vps_independent_layer_flag == 0;
            &&& layer_refs_can(x.refs, dependent, i, x.vps_max_tid_ref_present_flag, dflt)
        }
    }
}

/// Parses layer number `i`.
fn parse_vps_layer(
    r: &mut BitReader<'_>,
    i: u64,
    all_independent: u8,
    dflt: u8,
) -> (res: Result<VvcVpsLayer, BitstreamError>)
    ensures
        read_view_is(
            vps_layer_at(old(r).bits(), old(r).pos(), i, all_independent, dflt),
            res,
            *old(r),
            *final(r),
        ),
{
    proof {
        reveal(vps_layer_at);
    }
    let vps_layer_id: u8 = r.u8(6);
    let dep: bool = i > 0 && all_independent == 0;
    let vps_independent_layer_flag: u8 = r.bit_if(dep, 1);
    let dependent: bool = dep && vps_independent_layer_flag == 0;
    let vps_max_tid_ref_present_flag: u8 = r.bit_if(dependent, 0);
    let refs = parse_layer_refs(r, dependent, i, vps_max_tid_ref_present_flag, dflt)?;
    Ok(VvcVpsLayer {
        vps_layer_id,
        vps_independent_layer_flag,
        vps_max_tid_ref_present_flag,
        vps_direct_ref_layer_flag: refs.0, vps_max_tid_il_ref_pics_plus1: refs.1,
    })
}

/// Emits layer number `i`, the inverse of [`parse_vps_layer`].
fn write_vps_layer(
    w: &mut BitWriter,
    x: &VvcVpsLayer,
    i: u64,
    all_independent: u8,
    dflt: u8,
) -> (res: Result<(), BitstreamError>)
    ensures
        write_is(
            vps_layer_can(x@, i, all_independent, dflt),
            put_vps_layer(old(w)@, x@, i, all_independent, dflt),
            res,
            final(w)@,
        ),
{
    proof {
        reveal(put_vps_layer);
        reveal(vps_layer_can);
    }
    if x.vps_layer_id > 63 {
        return Err(BitstreamError::invalid("vps_layer_id does not fit u(6)"));
    }
    w.write_bits(x.vps_layer_id as u32, 6);
    let dep: bool = i > 0 && all_independent == 0;
    if !(dep || x.vps_independent_layer_flag == 1) {
        return Err(
            BitstreamError::invalid(
                "layer 0 / all-independent layers must carry the inferred independent flag and no direct-ref flags (7.4.3.3)",
            ),
        );
    }
    w.write_bit_if(x.vps_independent_layer_flag as u32, dep);
    let dependent: bool = dep && x.vps_independent_layer_flag == 0;
    w.write_bit_if(x.vps_max_tid_ref_present_flag as u32, dependent);
    write_layer_refs(
        w,
        &(*x),
        dependent,
        i,
        x.vps_max_tid_ref_present_flag,
        dflt,
        if dep {
            "independent layers carry no direct-ref flags (7.3.2.3)"
        } else {
            "layer 0 / all-independent layers must carry the inferred independent flag and no direct-ref flags (7.4.3.3)"
        },
    )?;
    Ok(())
}

/// Writing layer number `i` gives back the bits it was read from.
pub broadcast proof fn law_put_vps_layer_at(s: Seq<bool>, p: nat, i: u64, all_independent: u8, dflt: u8)
    ensures
        #[trigger] vps_layer_at(s, p, i, all_independent, dflt) matches Ok((x, q)) ==> {
            &&& vps_layer_ok(x, i, all_independent, dflt)
            &&& vps_layer_can(x, i, all_independent, dflt)
            &&& within(s, q)
                ==> within(s, p)
                && put_vps_layer(upto(s, p), x, i, all_independent, dflt) == upto(s, q)
        },
{
    broadcast use {crate::bits::group_write_read, law_put_layer_refs_at};

    reveal(vps_layer_at);
    reveal(put_vps_layer);
    reveal(vps_layer_ok);
    reveal(vps_layer_can);
}

/// Reading gives back layer number `i` as it was written.
pub broadcast proof fn law_pre_put_vps_layer(
    a: Seq<bool>,
    x: VvcVpsLayerModel,
    i: u64,
    all_independent: u8,
    dflt: u8,
    s: Seq<bool>,
)
    requires
        #[trigger] pre(put_vps_layer(a, x, i, all_independent, dflt), s),
        vps_layer_ok(x, i, all_independent, dflt),
    ensures
        pre(a, s),
        vps_layer_can(x, i, all_independent, dflt),
        vps_layer_at(s, a.len(), i, all_independent, dflt) == Ok::<(VvcVpsLayerModel, nat), Fault>(
            (x, put_vps_layer(a, x, i, all_independent, dflt).len()),
        ),
{
    broadcast use {crate::bits::group_read_written, law_pre_put_layer_refs};

    reveal(vps_layer_at);
    reveal(put_vps_layer);
    reveal(vps_layer_ok);
    reveal(vps_layer_can);
}

/// The layout of layer number `i`: reading at `p` gives `x` and ends at `q` if
/// and only if these elements stand there in this order.
pub proof fn law_layout_vps_layer(
    s: Seq<bool>,
    p: nat,
    i: u64,
    all_independent: u8,
    dflt: u8,
    x: VvcVpsLayerModel,
    q: nat,
)
    ensures
        vps_layer_at(s, p, i, all_independent, dflt) == Ok::<(VvcVpsLayerModel, nat), Fault>((x, q)) <==> ({
            let dep = i > 0 && all_independent == 0;
            let dependent = dep && x.vps_independent_layer_flag == 0;
            &&& cursor(s, p)
                .u8(6, x.vps_layer_id)
                .u8_if(dep, 1, x.vps_independent_layer_flag, 1)
                .u8_if(dependent, 1, x.vps_max_tid_ref_present_flag, 0)
                .part(
                    |p: nat| layer_refs_at(s, p, dependent, i, x.vps_max_tid_ref_present_flag, dflt),
                    x.refs,
                )
                .ends(q)
        }),
{
    reveal(vps_layer_at);
    reveal(adv_if);
    reveal(u8_if);
}

/// Reading layer number `i` fails only with an error of this class.
pub broadcast proof fn law_faults_vps_layer(s: Seq<bool>, p: nat, i: u64, all_independent: u8, dflt: u8)
    ensures
        #[trigger] vps_layer_at(s, p, i, all_independent, dflt) matches Err(f) ==> f == Fault::Invalid,
{
    broadcast use law_faults_layer_refs;

    reveal(vps_layer_at);
}

/// What the writer accepts reads back: layer number `i`, where each field fits
/// its width and what is not coded has the value that is taken for it.
pub proof fn law_reads_vps_layer(
    a: Seq<bool>,
    x: VvcVpsLayerModel,
    i: u64,
    all_independent: u8,
    dflt: u8,
    s: Seq<bool>,
)
    requires
        vps_layer_can(x, i, all_independent, dflt),
        ({
            let dep = i > 0 && all_independent == 0;
            &&& if dep {
                fits(x.vps_independent_layer_flag as nat, 1)
            } else {
                x.vps_independent_layer_flag == 1
            }
            &&& {
                let dependent = dep && x.vps_independent_layer_flag == 0;
                &&& if dependent {
                    fits(x.vps_max_tid_ref_present_flag as nat, 1)
                } else {
                    x.vps_max_tid_ref_present_flag == 0
                }
                &&& layer_refs_ok(x.refs, dependent, i, x.vps_max_tid_ref_present_flag, dflt)
            }
        }),
        pre(put_vps_layer(a, x, i, all_independent, dflt), s),
    ensures
        vps_layer_at(s, a.len(), i, all_independent, dflt) == Ok::<(VvcVpsLayerModel, nat), Fault>(
            (x, put_vps_layer(a, x, i, all_independent, dflt).len()),
        ),
{
    assert(vps_layer_ok(x, i, all_independent, dflt)) by {
        broadcast use crate::bits::law_fits_small;

        reveal(vps_layer_ok);
        reveal(vps_layer_can);
    }
    law_pre_put_vps_layer(a, x, i, all_independent, dflt, s);
}

/// Each field of the model of a [`VvcVpsLayer`] is the field of that name.
pub proof fn law_view_vps_layer(x: VvcVpsLayer)
    ensures
        x@.vps_layer_id == x.vps_layer_id,
        x@.vps_independent_layer_flag == x.vps_independent_layer_flag,
        x@.vps_max_tid_ref_present_flag == x.vps_max_tid_ref_present_flag,
        x@.refs == (x.vps_direct_ref_layer_flag@, x.vps_max_tid_il_ref_pics_plus1@),
{
}

/// Reads layer number `i`, behind the items before it.
pub open spec fn vps_layers_item(
    s: Seq<bool>,
    all_independent: u8,
    dflt: u8,
) -> spec_fn(Seq<VvcVpsLayerModel>, nat) -> Read<VvcVpsLayerModel> {
    |done: Seq<VvcVpsLayerModel>, q: nat| vps_layer_at(s, q, done.len() as u64, all_independent, dflt)
}

/// Writes layer number `i`, behind the items before it.
pub open spec fn put_vps_layers_item(
    all_independent: u8,
    dflt: u8,
) -> spec_fn(Seq<bool>, Seq<VvcVpsLayerModel>, VvcVpsLayerModel) -> Seq<bool> {
    |a: Seq<bool>, done: Seq<VvcVpsLayerModel>, x: VvcVpsLayerModel| put_vps_layer(
        a,
        x,
        done.len() as u64,
        all_independent,
        dflt,
    )
}

/// Whether layer number `i` may follow the items before it.
pub open spec fn vps_layers_item_ok(
    all_independent: u8,
    dflt: u8,
) -> spec_fn(Seq<VvcVpsLayerModel>, VvcVpsLayerModel) -> bool {
    |done: Seq<VvcVpsLayerModel>, x: VvcVpsLayerModel| vps_layer_ok(
        x,
        done.len() as u64,
        all_independent,
        dflt,
    )
        && vps_layer_can(x, done.len() as u64, all_independent, dflt)
}

/// `n` items at position `p`, each layer number `i`.
#[verifier::opaque]
pub open spec fn vps_layers_at(
    s: Seq<bool>,
    p: nat,
    all_independent: u8,
    dflt: u8,
    n: u64,
) -> Read<Seq<VvcVpsLayerModel>> {
    rep_at(vps_layers_item(s, all_independent, dflt), p, n as nat)
}

/// The bits `a` followed by the items.
#[verifier::opaque]
pub open spec fn put_vps_layers(
    a: Seq<bool>,
    xs: Seq<VvcVpsLayerModel>,
    all_independent: u8,
    dflt: u8,
    n: u64,
) -> Seq<bool> {
    put_rep(put_vps_layers_item(all_independent, dflt), a, xs)
}

/// `n` items that reading can give.
#[verifier::opaque]
pub open spec fn vps_layers_ok(xs: Seq<VvcVpsLayerModel>, all_independent: u8, dflt: u8, n: u64) -> bool {
    xs.len() == n
        && forall|i: int| 0 <= i < xs.len()
        ==> vps_layer_ok(#[trigger] xs[i], i as u64, all_independent, dflt)
        && vps_layer_can(xs[i], i as u64, all_independent, dflt)
}

/// `n` items that the writer accepts.
#[verifier::opaque]
pub open spec fn vps_layers_can(xs: Seq<VvcVpsLayerModel>, all_independent: u8, dflt: u8, n: u64) -> bool {
    xs.len() == n
        && forall|i: int| 0 <= i < xs.len()
        ==> vps_layer_can(#[trigger] xs[i], i as u64, all_independent, dflt)
}

/// Parses `n` items, each layer number `i`.
fn parse_vps_layers(
    r: &mut BitReader<'_>,
    all_independent: u8,
    dflt: u8,
    n: u64,
) -> (res: Result<Vec<VvcVpsLayer>, BitstreamError>)
    ensures
        read_seq_is(
            vps_layers_at(old(r).bits(), old(r).pos(), all_independent, dflt, n),
            res,
            *old(r),
            *final(r),
        ),
        res matches Ok(v) ==> v@.len() == n,
{
    let ghost s = r.bits();
    let ghost p = r.pos();
    let ghost reads = vps_layers_item(s, all_independent, dflt);
    let mut xs: Vec<VvcVpsLayer> = Vec::new();
    let mut i: u64 = 0;
    proof {
        reveal(vps_layers_at);
        assert(seq_view(xs@) =~= Seq::empty());
    }
    while i < n
        invariant
            i <= n,
            xs@.len() == i,
            reads == vps_layers_item(s, all_independent, dflt),
            s == r.bits(),
            s == old(r).bits(),
            p == old(r).pos(),
            r.bytes() == old(r).bytes(),
            rep_at(reads, p, i as nat) == Ok::<(Seq<VvcVpsLayerModel>, nat), Fault>((seq_view(xs@), r.pos())),
        decreases n - i,
    {
        match parse_vps_layer(r, i, all_independent, dflt) {
            Ok(x) => {
                proof {
                lemma_seq_view_push(xs@, x);
            }
            xs.push(x);
            },
            Err(e) => {
                proof {
                    reveal(vps_layers_at);
                    lemma_rep_err(reads, p, (i + 1) as nat, n as nat);
                }
                return Err(e);
            },
        }
        i = i + 1;
    }
    Ok(xs)
}

/// Emits `n` items, each layer number `i`.
fn write_vps_layers(
    w: &mut BitWriter,
    xs: &Vec<VvcVpsLayer>,
    all_independent: u8,
    dflt: u8,
    n: u64,
) -> (res: Result<(), BitstreamError>)
    ensures
        write_is(
            vps_layers_can(seq_view(xs@), all_independent, dflt, n),
            put_vps_layers(old(w)@, seq_view(xs@), all_independent, dflt, n),
            res,
            final(w)@,
        ),
        res is Ok ==> xs@.len() == n,
{
    let ghost before = w@;
    let ghost puts = put_vps_layers_item(all_independent, dflt);
    let ghost ys = seq_view(xs@);
    proof {
        reveal(put_vps_layers);
        reveal(vps_layers_can);
        assert(ys.take(0) =~= Seq::empty());
    }
    if xs.len() as u64 != n {
        return Err(BitstreamError::invalid("unexpected number of entries"));
    }
    let mut i: usize = 0;
    while i < xs.len()
        invariant
            i <= xs@.len(),
            xs@.len() == n,
            ys == seq_view(xs@),
            ys.len() == xs@.len(),
            before == old(w)@,
            puts == put_vps_layers_item(all_independent, dflt),
            w@ == put_rep(puts, before, ys.take(i as int)),
            forall|j: int| 0 <= j < i ==> vps_layer_can(#[trigger] ys[j], j as u64, all_independent, dflt),
        ensures
            i == xs@.len(),
        decreases xs@.len() - i,
    {
        proof {
            assert(ys.take(i + 1).drop_last() =~= ys.take(i as int));
            assert(ys[i as int] == xs@[i as int]@);
        }
        match write_vps_layer(w, &xs[i], i as u64, all_independent, dflt) {
            Ok(()) => {},
            Err(e) => {
                proof {
                    reveal(vps_layers_can);
                }
                return Err(e);
            },
        }
        i = i + 1;
    }
    proof {
        assert(ys.take(i as int) =~= ys);
    }
    Ok(())
}

/// Writing what was read gives back the bits that were read.
pub broadcast proof fn law_put_vps_layers_at(s: Seq<bool>, p: nat, all_independent: u8, dflt: u8, n: u64)
    ensures
        #[trigger] vps_layers_at(s, p, all_independent, dflt, n) matches Ok((xs, q)) ==> {
            &&& xs.len() == n
            &&& vps_layers_ok(xs, all_independent, dflt, n)
            &&& vps_layers_can(xs, all_independent, dflt, n)
            &&& within(s, q)
                ==> within(s, p)
                && put_vps_layers(upto(s, p), xs, all_independent, dflt, n) == upto(s, q)
        },
{
    broadcast use law_put_vps_layer_at;

    reveal(vps_layers_at);
    reveal(put_vps_layers);
    reveal(vps_layers_ok);
    reveal(vps_layers_can);
    let ok = vps_layers_item_ok(all_independent, dflt);
    law_put_rep_at(
        s,
        vps_layers_item(s, all_independent, dflt),
        put_vps_layers_item(all_independent, dflt),
        ok,
        p,
        n as nat,
    );
    if let Ok((xs, q)) = vps_layers_at(s, p, all_independent, dflt, n) {
        assert forall|i: int| 0 <= i < xs.len() implies ok(xs.take(i), #[trigger] xs[i]) by {}
    }
}

/// What was written reads back as the items that were written.
pub broadcast proof fn law_pre_put_vps_layers(
    a: Seq<bool>,
    xs: Seq<VvcVpsLayerModel>,
    all_independent: u8,
    dflt: u8,
    n: u64,
    s: Seq<bool>,
)
    requires
        #[trigger] pre(put_vps_layers(a, xs, all_independent, dflt, n), s),
        vps_layers_ok(xs, all_independent, dflt, n),
    ensures
        pre(a, s),
        vps_layers_can(xs, all_independent, dflt, n),
        vps_layers_at(s, a.len(), all_independent, dflt, n) == Ok::<(Seq<VvcVpsLayerModel>, nat), Fault>(
            (xs, put_vps_layers(a, xs, all_independent, dflt, n).len()),
        ),
{
    broadcast use law_pre_put_vps_layer;

    reveal(vps_layers_at);
    reveal(put_vps_layers);
    reveal(vps_layers_ok);
    reveal(vps_layers_can);
    law_rep_at_put(
        s,
        vps_layers_item(s, all_independent, dflt),
        put_vps_layers_item(all_independent, dflt),
        vps_layers_item_ok(all_independent, dflt),
        a,
        xs,
    );
}

/// `n` items stand one behind the other: `n - 1` items, and then layer number
/// `i`.
pub proof fn law_layout_vps_layers(
    s: Seq<bool>,
    p: nat,
    all_independent: u8,
    dflt: u8,
    n: u64,
    xs: Seq<VvcVpsLayerModel>,
    q: nat,
)
    ensures
        vps_layers_at(s, p, all_independent, dflt, n) == Ok::<(Seq<VvcVpsLayerModel>, nat), Fault>((xs, q)) <==> if n == 0 {
            xs.len() == 0 && q == p
        } else {
            &&& xs.len() == n
            &&& cursor(s, p)
                .part(|p: nat| vps_layers_at(s, p, all_independent, dflt, (n - 1) as u64), xs.drop_last())
                .part(|p: nat| vps_layer_at(s, p, (n - 1) as u64, all_independent, dflt), xs.last())
                .ends(q)
        },
{
    reveal(vps_layers_at);
    lemma_rep_step(vps_layers_item(s, all_independent, dflt), p, n as nat);
    if xs.len() == 0 {
        assert(xs =~= Seq::empty());
    } else {
        assert(xs =~= xs.drop_last().push(xs.last()));
    }
    if n > 0 {
        if let Ok((done, r)) = rep_at(vps_layers_item(s, all_independent, dflt), p, (n - 1) as nat) {
            if let Ok((y, z)) = vps_layers_item(s, all_independent, dflt)(done, r) {
                assert(done.push(y).drop_last() =~= done);
            }
        }
    }
}

/// What the writer accepts as `n` items reads back, where each of them is one that
/// reading can give.
pub proof fn law_reads_vps_layers(
    a: Seq<bool>,
    xs: Seq<VvcVpsLayerModel>,
    all_independent: u8,
    dflt: u8,
    n: u64,
    s: Seq<bool>,
)
    requires
        vps_layers_can(xs, all_independent, dflt, n),
        forall|i: int| 0 <= i < xs.len() ==> vps_layer_ok(#[trigger] xs[i], i as u64, all_independent, dflt),
        pre(put_vps_layers(a, xs, all_independent, dflt, n), s),
    ensures
        xs.len() == n,
        vps_layers_at(s, a.len(), all_independent, dflt, n) == Ok::<(Seq<VvcVpsLayerModel>, nat), Fault>(
            (xs, put_vps_layers(a, xs, all_independent, dflt, n).len()),
        ),
{
    reveal(vps_layers_can);
    assert(vps_layers_ok(xs, all_independent, dflt, n)) by {
        reveal(vps_layers_ok);
    }
    law_pre_put_vps_layers(a, xs, all_independent, dflt, n, s);
}

/// Reading the items fails only with an error of this class.
pub broadcast proof fn law_faults_vps_layers(s: Seq<bool>, p: nat, all_independent: u8, dflt: u8, n: u64)
    ensures
        #[trigger] vps_layers_at(s, p, all_independent, dflt, n) matches Err(f) ==> f == Fault::Invalid,
{
    broadcast use law_faults_vps_layer;

    reveal(vps_layers_at);
    let f = vps_layers_item(s, all_independent, dflt);
    assert forall|done: Seq<VvcVpsLayerModel>, q: nat| (#[trigger] f(done, q)) matches Err(e)
        ==> e == Fault::Invalid by {}
    lemma_rep_faults(f, p, n as nat, |f: Fault| f == Fault::Invalid);
}

/// The output layer flags of one OLS at position `p`.
#[verifier::opaque]
pub open spec fn ols_row_at(s: Seq<bool>, p: nat, n_layers: u64) -> Read<Seq<u8>> {
    match bitlist_at(s, p, n_layers as nat) { Err(f) => Err(f), Ok((bits, p)) => {
    Ok((bits, p)) }}
}

/// The bits `a` followed by the output layer flags of one OLS.
#[verifier::opaque]
pub open spec fn put_ols_row(a: Seq<bool>, x: Seq<u8>, n_layers: u64) -> Seq<bool> {
    let a = put_bitlist(a, x);
    a
}

/// The values of the output layer flags of one OLS that reading can give.
#[verifier::opaque]
pub open spec fn ols_row_ok(x: Seq<u8>, n_layers: u64) -> bool {
    &&& x.len() == n_layers
    &&& bitlist_ok(x)
}

/// The values of the output layer flags of one OLS that the writer accepts.
#[verifier::opaque]
pub open spec fn ols_row_can(x: Seq<u8>, n_layers: u64) -> bool {
    &&& x.len() as u64 == n_layers
}

/// Parses the output layer flags of one OLS.
fn parse_ols_row(r: &mut BitReader<'_>, n_layers: u64) -> (res: Result<Vec<u8>, BitstreamError>)
    ensures
        read_view_is(ols_row_at(old(r).bits(), old(r).pos(), n_layers), res, *old(r), *final(r)),
{
    proof {
        reveal(ols_row_at);
    }
    let bits = r.read_bitlist(n_layers);
    Ok(bits)
}

/// Emits the output layer flags of one OLS, the inverse of [`parse_ols_row`].
fn write_ols_row(w: &mut BitWriter, x: &Vec<u8>, n_layers: u64) -> (res: Result<(), BitstreamError>)
    ensures
        write_is(ols_row_can(x@, n_layers), put_ols_row(old(w)@, x@, n_layers), res, final(w)@),
{
    proof {
        reveal(put_ols_row);
        reveal(ols_row_can);
    }
    if !((*x).len() as u64 == n_layers) {
        return Err(BitstreamError::invalid("vps_ols_output_layer_flag row length != layer count (7.3.2.3)"));
    }
    w.write_bitlist(x.as_slice());
    Ok(())
}

/// Writing the output layer flags of one OLS gives back the bits it was read
/// from.
pub broadcast proof fn law_put_ols_row_at(s: Seq<bool>, p: nat, n_layers: u64)
    ensures
        #[trigger] ols_row_at(s, p, n_layers) matches Ok((x, q)) ==> {
            &&& ols_row_ok(x, n_layers)
            &&& ols_row_can(x, n_layers)
            &&& within(s, q) ==> within(s, p) && put_ols_row(upto(s, p), x, n_layers) == upto(s, q)
        },
{
    broadcast use {crate::bits::group_write_read, crate::bits::group_write_read_lists};

    reveal(ols_row_at);
    reveal(put_ols_row);
    reveal(ols_row_ok);
    reveal(ols_row_can);
}

/// Reading gives back the output layer flags of one OLS as it was written.
pub broadcast proof fn law_pre_put_ols_row(a: Seq<bool>, x: Seq<u8>, n_layers: u64, s: Seq<bool>)
    requires
        #[trigger] pre(put_ols_row(a, x, n_layers), s),
        ols_row_ok(x, n_layers),
    ensures
        pre(a, s),
        ols_row_can(x, n_layers),
        ols_row_at(s, a.len(), n_layers) == Ok::<(Seq<u8>, nat), Fault>(
            (x, put_ols_row(a, x, n_layers).len()),
        ),
{
    broadcast use {crate::bits::group_read_written, crate::bits::group_read_written_lists};

    reveal(ols_row_at);
    reveal(put_ols_row);
    reveal(ols_row_ok);
    reveal(ols_row_can);
}

/// The layout of the output layer flags of one OLS: reading at `p` gives `x`
/// and ends at `q` if and only if these elements stand there in this order.
pub proof fn law_layout_ols_row(s: Seq<bool>, p: nat, n_layers: u64, x: Seq<u8>, q: nat)
    ensures
        ols_row_at(s, p, n_layers) == Ok::<(Seq<u8>, nat), Fault>((x, q))
            <==> cursor(s, p).part(|p: nat| bitlist_at(s, p, n_layers as nat), x).ends(q),
{
    reveal(ols_row_at);
}

/// Reading the output layer flags of one OLS never fails.
pub broadcast proof fn law_faults_ols_row(s: Seq<bool>, p: nat, n_layers: u64)
    ensures
        #[trigger] ols_row_at(s, p, n_layers) is Ok,
{
    broadcast use crate::bits::law_faults_bitlist;

    reveal(ols_row_at);
}

/// What the writer accepts reads back: the output layer flags of one OLS, where
/// each field fits its width and what is not coded has the value that is taken
/// for it.
pub proof fn law_reads_ols_row(a: Seq<bool>, x: Seq<u8>, n_layers: u64, s: Seq<bool>)
    requires
        ols_row_can(x, n_layers),
        bitlist_ok(x),
        x.len() <= usize::MAX,
        pre(put_ols_row(a, x, n_layers), s),
    ensures
        ols_row_at(s, a.len(), n_layers) == Ok::<(Seq<u8>, nat), Fault>(
            (x, put_ols_row(a, x, n_layers).len()),
        ),
{
    assert(ols_row_ok(x, n_layers)) by {
        broadcast use crate::bits::law_fits_small;

        reveal(ols_row_ok);
        reveal(ols_row_can);
    }
    law_pre_put_ols_row(a, x, n_layers, s);
}

/// Reads the output layer flags of one OLS, behind the items before it.
pub open spec fn ols_rows_item(s: Seq<bool>, n_layers: u64) -> spec_fn(Seq<Seq<u8>>, nat) -> Read<Seq<u8>> {
    |done: Seq<Seq<u8>>, q: nat| ols_row_at(s, q, n_layers)
}

/// Writes the output layer flags of one OLS, behind the items before it.
pub open spec fn put_ols_rows_item(n_layers: u64) -> spec_fn(Seq<bool>, Seq<Seq<u8>>, Seq<u8>) -> Seq<bool> {
    |a: Seq<bool>, done: Seq<Seq<u8>>, x: Seq<u8>| put_ols_row(a, x, n_layers)
}

/// Whether the output layer flags of one OLS may follow the items before it.
pub open spec fn ols_rows_item_ok(n_layers: u64) -> spec_fn(Seq<Seq<u8>>, Seq<u8>) -> bool {
    |done: Seq<Seq<u8>>, x: Seq<u8>| ols_row_ok(x, n_layers) && ols_row_can(x, n_layers)
}

/// `n` items at position `p`, each the output layer flags of one OLS.
#[verifier::opaque]
pub open spec fn ols_rows_at(s: Seq<bool>, p: nat, n_layers: u64, n: u64) -> Read<Seq<Seq<u8>>> {
    rep_at(ols_rows_item(s, n_layers), p, n as nat)
}

/// The bits `a` followed by the items.
#[verifier::opaque]
pub open spec fn put_ols_rows(a: Seq<bool>, xs: Seq<Seq<u8>>, n_layers: u64, n: u64) -> Seq<bool> {
    put_rep(put_ols_rows_item(n_layers), a, xs)
}

/// `n` items that reading can give.
#[verifier::opaque]
pub open spec fn ols_rows_ok(xs: Seq<Seq<u8>>, n_layers: u64, n: u64) -> bool {
    xs.len() == n
        && forall|i: int| 0 <= i < xs.len()
        ==> ols_row_ok(#[trigger] xs[i], n_layers)
        && ols_row_can(xs[i], n_layers)
}

/// `n` items that the writer accepts.
#[verifier::opaque]
pub open spec fn ols_rows_can(xs: Seq<Seq<u8>>, n_layers: u64, n: u64) -> bool {
    xs.len() == n && forall|i: int| 0 <= i < xs.len() ==> ols_row_can(#[trigger] xs[i], n_layers)
}

/// Parses `n` items, each the output layer flags of one OLS.
fn parse_ols_rows(r: &mut BitReader<'_>, n_layers: u64, n: u64) -> (res: Result<Vec<Vec<u8>>, BitstreamError>)
    ensures
        read_seq_is(ols_rows_at(old(r).bits(), old(r).pos(), n_layers, n), res, *old(r), *final(r)),
        res matches Ok(v) ==> v@.len() == n,
{
    let ghost s = r.bits();
    let ghost p = r.pos();
    let ghost reads = ols_rows_item(s, n_layers);
    let mut xs: Vec<Vec<u8>> = Vec::new();
    let mut i: u64 = 0;
    proof {
        reveal(ols_rows_at);
        assert(seq_view(xs@) =~= Seq::empty());
    }
    while i < n
        invariant
            i <= n,
            xs@.len() == i,
            reads == ols_rows_item(s, n_layers),
            s == r.bits(),
            s == old(r).bits(),
            p == old(r).pos(),
            r.bytes() == old(r).bytes(),
            rep_at(reads, p, i as nat) == Ok::<(Seq<Seq<u8>>, nat), Fault>((seq_view(xs@), r.pos())),
        decreases n - i,
    {
        match parse_ols_row(r, n_layers) {
            Ok(x) => {
                proof {
                lemma_seq_view_push(xs@, x);
            }
            xs.push(x);
            },
            Err(e) => {
                proof {
                    reveal(ols_rows_at);
                    lemma_rep_err(reads, p, (i + 1) as nat, n as nat);
                }
                return Err(e);
            },
        }
        i = i + 1;
    }
    Ok(xs)
}

/// Emits `n` items, each the output layer flags of one OLS.
fn write_ols_rows(
    w: &mut BitWriter,
    xs: &Vec<Vec<u8>>,
    n_layers: u64,
    n: u64,
    text: &str,
) -> (res: Result<(), BitstreamError>)
    ensures
        write_is(
            ols_rows_can(seq_view(xs@), n_layers, n),
            put_ols_rows(old(w)@, seq_view(xs@), n_layers, n),
            res,
            final(w)@,
        ),
        res is Ok ==> xs@.len() == n,
{
    let ghost before = w@;
    let ghost puts = put_ols_rows_item(n_layers);
    let ghost ys = seq_view(xs@);
    proof {
        reveal(put_ols_rows);
        reveal(ols_rows_can);
        assert(ys.take(0) =~= Seq::empty());
    }
    if xs.len() as u64 != n {
        return Err(Message::new("").with(text).invalid());
    }
    let mut i: usize = 0;
    while i < xs.len()
        invariant
            i <= xs@.len(),
            xs@.len() == n,
            ys == seq_view(xs@),
            ys.len() == xs@.len(),
            before == old(w)@,
            puts == put_ols_rows_item(n_layers),
            w@ == put_rep(puts, before, ys.take(i as int)),
            forall|j: int| 0 <= j < i ==> ols_row_can(#[trigger] ys[j], n_layers),
        ensures
            i == xs@.len(),
        decreases xs@.len() - i,
    {
        proof {
            assert(ys.take(i + 1).drop_last() =~= ys.take(i as int));
            assert(ys[i as int] == xs@[i as int]@);
        }
        match write_ols_row(w, &xs[i], n_layers) {
            Ok(()) => {},
            Err(e) => {
                proof {
                    reveal(ols_rows_can);
                }
                return Err(e);
            },
        }
        i = i + 1;
    }
    proof {
        assert(ys.take(i as int) =~= ys);
    }
    Ok(())
}

/// Writing what was read gives back the bits that were read.
pub broadcast proof fn law_put_ols_rows_at(s: Seq<bool>, p: nat, n_layers: u64, n: u64)
    ensures
        #[trigger] ols_rows_at(s, p, n_layers, n) matches Ok((xs, q)) ==> {
            &&& xs.len() == n
            &&& ols_rows_ok(xs, n_layers, n)
            &&& ols_rows_can(xs, n_layers, n)
            &&& within(s, q) ==> within(s, p) && put_ols_rows(upto(s, p), xs, n_layers, n) == upto(s, q)
        },
{
    broadcast use law_put_ols_row_at;

    reveal(ols_rows_at);
    reveal(put_ols_rows);
    reveal(ols_rows_ok);
    reveal(ols_rows_can);
    let ok = ols_rows_item_ok(n_layers);
    law_put_rep_at(s, ols_rows_item(s, n_layers), put_ols_rows_item(n_layers), ok, p, n as nat);
    if let Ok((xs, q)) = ols_rows_at(s, p, n_layers, n) {
        assert forall|i: int| 0 <= i < xs.len() implies ok(xs.take(i), #[trigger] xs[i]) by {}
    }
}

/// What was written reads back as the items that were written.
pub broadcast proof fn law_pre_put_ols_rows(
    a: Seq<bool>,
    xs: Seq<Seq<u8>>,
    n_layers: u64,
    n: u64,
    s: Seq<bool>,
)
    requires
        #[trigger] pre(put_ols_rows(a, xs, n_layers, n), s),
        ols_rows_ok(xs, n_layers, n),
    ensures
        pre(a, s),
        ols_rows_can(xs, n_layers, n),
        ols_rows_at(s, a.len(), n_layers, n) == Ok::<(Seq<Seq<u8>>, nat), Fault>(
            (xs, put_ols_rows(a, xs, n_layers, n).len()),
        ),
{
    broadcast use law_pre_put_ols_row;

    reveal(ols_rows_at);
    reveal(put_ols_rows);
    reveal(ols_rows_ok);
    reveal(ols_rows_can);
    law_rep_at_put(
        s,
        ols_rows_item(s, n_layers),
        put_ols_rows_item(n_layers),
        ols_rows_item_ok(n_layers),
        a,
        xs,
    );
}

/// `n` items stand one behind the other: `n - 1` items, and then the output
/// layer flags of one OLS.
pub proof fn law_layout_ols_rows(s: Seq<bool>, p: nat, n_layers: u64, n: u64, xs: Seq<Seq<u8>>, q: nat)
    ensures
        ols_rows_at(s, p, n_layers, n) == Ok::<(Seq<Seq<u8>>, nat), Fault>((xs, q)) <==> if n == 0 {
            xs.len() == 0 && q == p
        } else {
            &&& xs.len() == n
            &&& cursor(s, p)
                .part(|p: nat| ols_rows_at(s, p, n_layers, (n - 1) as u64), xs.drop_last())
                .part(|p: nat| ols_row_at(s, p, n_layers), xs.last())
                .ends(q)
        },
{
    reveal(ols_rows_at);
    lemma_rep_step(ols_rows_item(s, n_layers), p, n as nat);
    if xs.len() == 0 {
        assert(xs =~= Seq::empty());
    } else {
        assert(xs =~= xs.drop_last().push(xs.last()));
    }
    if n > 0 {
        if let Ok((done, r)) = rep_at(ols_rows_item(s, n_layers), p, (n - 1) as nat) {
            if let Ok((y, z)) = ols_rows_item(s, n_layers)(done, r) {
                assert(done.push(y).drop_last() =~= done);
            }
        }
    }
}

/// What the writer accepts as `n` items reads back, where each of them is one that
/// reading can give.
pub proof fn law_reads_ols_rows(a: Seq<bool>, xs: Seq<Seq<u8>>, n_layers: u64, n: u64, s: Seq<bool>)
    requires
        ols_rows_can(xs, n_layers, n),
        forall|i: int| 0 <= i < xs.len() ==> ols_row_ok(#[trigger] xs[i], n_layers),
        pre(put_ols_rows(a, xs, n_layers, n), s),
    ensures
        xs.len() == n,
        ols_rows_at(s, a.len(), n_layers, n) == Ok::<(Seq<Seq<u8>>, nat), Fault>(
            (xs, put_ols_rows(a, xs, n_layers, n).len()),
        ),
{
    reveal(ols_rows_can);
    assert(ols_rows_ok(xs, n_layers, n)) by {
        reveal(ols_rows_ok);
    }
    law_pre_put_ols_rows(a, xs, n_layers, n, s);
}

/// Reading the items never fails.
pub broadcast proof fn law_faults_ols_rows(s: Seq<bool>, p: nat, n_layers: u64, n: u64)
    ensures
        #[trigger] ols_rows_at(s, p, n_layers, n) is Ok,
{
    broadcast use law_faults_ols_row;

    reveal(ols_rows_at);
    let f = ols_rows_item(s, n_layers);
    assert forall|done: Seq<Seq<u8>>, q: nat| (#[trigger] f(done, q)) is Ok by {}
    lemma_rep_faults_none(f, p, n as nat);
}

/// The layer ids are strictly increasing.
pub open spec fn increasing(layers: Seq<VvcVpsLayerModel>) -> bool {
    forall|j: int|
        0 < j < layers.len() ==> layers[j - 1].vps_layer_id < (#[trigger] layers[j]).vps_layer_id
}

/// Whether the layer ids are strictly increasing.
fn ids_increase(layers: &Vec<VvcVpsLayer>) -> (b: bool)
    ensures
        b == increasing(seq_view(layers@)),
{
    let ghost ms = seq_view(layers@);
    let mut j: usize = 1;
    while j < layers.len()
        invariant
            ms == seq_view(layers@),
            1 <= j,
            forall|k: int|
                0 < k < j && k < ms.len() ==> ms[k - 1].vps_layer_id < (#[trigger] ms[k]).vps_layer_id,
        decreases layers@.len() - j,
    {
        if layers[j].vps_layer_id <= layers[j - 1].vps_layer_id {
            assert(!(ms[j - 1].vps_layer_id < ms[j as int].vps_layer_id));
            return false;
        }
        j = j + 1;
    }
    true
}

// ─────────────────────────── OLS derivations (7.4.3.3) ───────────────────────

/// The derived OLS counts the parse/write conditions need.
#[derive(Clone, Copy)]
pub struct OlsInfo {
    /// `TotalNumOlss` (eq. (31)).
    pub total: u64,
    /// `NumMultiLayerOlss` (eq. (33)).
    pub multi: u64,
}

/// Layer `i` refers directly to layer `j`.
pub open spec fn refers(layers: Seq<VvcVpsLayerModel>, i: nat, j: nat) -> bool {
    let d = layers[i as int].refs.0;
    j < d.len() && d[j as int] != 0
}

/// Layer `i` depends on layer `j`, directly or through other layers (eq. (28)).
pub open spec fn depends(layers: Seq<VvcVpsLayerModel>, i: nat, j: nat) -> bool
    decreases i,
{
    j < i && (refers(layers, i, j) || exists|k: nat|
        k < i && #[trigger] refers(layers, i, k) && depends(layers, k, j))
}

/// The OLS with the output layers `row` includes layer `j`.
pub open spec fn includes(layers: Seq<VvcVpsLayerModel>, row: Seq<u8>, j: nat) -> bool {
    exists|k: int|
        0 <= k < row.len() && #[trigger] row[k] != 0 && (k == j || depends(layers, k as nat, j))
}

/// The OLS with the output layers `row` includes more than one layer.
pub open spec fn is_multi(layers: Seq<VvcVpsLayerModel>, row: Seq<u8>) -> bool {
    exists|i: nat, j: nat|
        i < j < layers.len() && #[trigger] includes(layers, row, i) && #[trigger] includes(
            layers,
            row,
            j,
        )
}

/// The number of rows that give a multi-layer OLS.
pub open spec fn count_multi(layers: Seq<VvcVpsLayerModel>, rows: Seq<Seq<u8>>) -> nat
    decreases rows.len(),
{
    if rows.len() == 0 {
        0
    } else {
        count_multi(layers, rows.drop_last()) + if is_multi(layers, rows.last()) {
            1nat
        } else {
            0nat
        }
    }
}

/// A row has one flag per layer, and at least one output layer.
pub open spec fn row_ok(n: nat, row: Seq<u8>) -> bool {
    row.len() == n && exists|k: int| 0 <= k < row.len() && #[trigger] row[k] != 0
}

/// The OLS counts can be derived.
#[verifier::opaque]
pub open spec fn ols_ok(
    each_layer: u8,
    mode: u8,
    layers: Seq<VvcVpsLayerModel>,
    rows: Seq<Seq<u8>>,
) -> bool {
    ||| each_layer != 0
    ||| mode <= 1
    ||| mode == 2 && forall|i: int|
        0 <= i < rows.len() ==> row_ok(layers.len(), #[trigger] rows[i])
}

/// The OLS counts (eqs. (28)–(33)).
#[verifier::opaque]
pub open spec fn ols_of(
    each_layer: u8,
    mode: u8,
    layers: Seq<VvcVpsLayerModel>,
    rows: Seq<Seq<u8>>,
) -> OlsInfo {
    if each_layer != 0 {
        OlsInfo { total: layers.len() as u64, multi: 0 }
    } else if mode <= 1 {
        OlsInfo { total: layers.len() as u64, multi: (layers.len() - 1) as u64 }
    } else {
        OlsInfo { total: (rows.len() + 1) as u64, multi: count_multi(layers, rows) as u64 }
    }
}

proof fn lemma_count_multi(layers: Seq<VvcVpsLayerModel>, rows: Seq<Seq<u8>>)
    ensures
        count_multi(layers, rows) <= rows.len(),
    decreases rows.len(),
{
    if rows.len() > 0 {
        lemma_count_multi(layers, rows.drop_last());
    }
}

/// The number of multi-layer OLSs is bounded.
pub broadcast proof fn lemma_ols(
    each_layer: u8,
    mode: u8,
    layers: Seq<VvcVpsLayerModel>,
    rows: Seq<Seq<u8>>,
)
    ensures
        1 <= layers.len() <= 64 && rows.len() <= 256 ==> (#[trigger] ols_of(
            each_layer,
            mode,
            layers,
            rows,
        )).multi <= 256,
{
    reveal(ols_of);
    lemma_count_multi(layers, rows);
}

/// The layers that layer `i` depends on.
pub open spec fn depends_row(layers: Seq<VvcVpsLayerModel>, i: nat) -> Seq<bool> {
    Seq::new(layers.len(), |j: int| depends(layers, i, j as nat))
}

/// `dep` holds the dependencies of the first `m` layers.
pub open spec fn dep_is(dep: Seq<Vec<bool>>, layers: Seq<VvcVpsLayerModel>, m: int) -> bool {
    dep.len() == m && forall|k: int|
        0 <= k < m ==> (#[trigger] dep[k])@ == depends_row(layers, k as nat)
}

/// Whether layer `i` depends on layer `j`, from the dependencies of the layers
/// before it.
fn layer_depends(layers: &Vec<VvcVpsLayer>, dep: &Vec<Vec<bool>>, i: usize, j: usize) -> (b: bool)
    requires
        i < layers@.len(),
        dep_is(dep@, seq_view(layers@), i as int),
        j < layers@.len(),
    ensures
        b == depends(seq_view(layers@), i as nat, j as nat),
{
    let ghost ms = seq_view(layers@);
    if j >= i {
        return false;
    }
    let direct: &Vec<u8> = &layers[i].vps_direct_ref_layer_flag;
    if j < direct.len() && direct[j] != 0 {
        assert(refers(ms, i as nat, j as nat));
        return true;
    }
    let mut k: usize = 0;
    while k < i
        invariant
            j < i < layers@.len(),
            k <= i,
            ms == seq_view(layers@),
            direct@ == ms[i as int].refs.0,
            !refers(ms, i as nat, j as nat),
            dep_is(dep@, ms, i as int),
            forall|m: nat| m < k && #[trigger] refers(ms, i as nat, m) ==> !depends(ms, m, j as nat),
        decreases i - k,
    {
        assert(dep@[k as int]@ == depends_row(ms, k as nat));
        if k < direct.len() && direct[k] != 0 && dep[k][j] {
            assert(refers(ms, i as nat, k as nat) && depends(ms, k as nat, j as nat));
            return true;
        }
        k = k + 1;
    }
    false
}

/// The dependencies between the layers: entry `[i][j]` tells whether layer `i`
/// depends on layer `j`.
fn dependencies(layers: &Vec<VvcVpsLayer>) -> (dep: Vec<Vec<bool>>)
    ensures
        dep_is(dep@, seq_view(layers@), layers@.len() as int),
{
    let n: usize = layers.len();
    let mut dep: Vec<Vec<bool>> = Vec::new();
    let mut i: usize = 0;
    while i < n
        invariant
            i <= n,
            n == layers@.len(),
            dep_is(dep@, seq_view(layers@), i as int),
        decreases n - i,
    {
        let mut row: Vec<bool> = Vec::new();
        let mut j: usize = 0;
        while j < n
            invariant
                i < n,
                j <= n,
                n == layers@.len(),
                dep_is(dep@, seq_view(layers@), i as int),
                row@.len() == j,
                forall|l: int|
                    0 <= l < j ==> (#[trigger] row@[l]) == depends(
                        seq_view(layers@),
                        i as nat,
                        l as nat,
                    ),
            decreases n - j,
        {
            let b: bool = layer_depends(layers, &dep, i, j);
            row.push(b);
            j = j + 1;
        }
        assert(row@ =~= depends_row(seq_view(layers@), i as nat));
        dep.push(row);
        i = i + 1;
    }
    dep
}

/// Whether the OLS with the output layers `row` includes layer `j`.
fn row_includes(
    layers: &Vec<VvcVpsLayer>,
    dep: &Vec<Vec<bool>>,
    row: &Vec<u8>,
    j: usize,
) -> (b: bool)
    requires
        dep_is(dep@, seq_view(layers@), layers@.len() as int),
        row@.len() == layers@.len(),
        j < layers@.len(),
    ensures
        b == includes(seq_view(layers@), row@, j as nat),
{
    let ghost ms = seq_view(layers@);
    let mut k: usize = 0;
    while k < row.len()
        invariant
            ms == seq_view(layers@),
            dep_is(dep@, seq_view(layers@), layers@.len() as int),
            row@.len() == layers@.len(),
            j < layers@.len(),
            k <= row@.len(),
            forall|m: int|
                0 <= m < k && #[trigger] row@[m] != 0 ==> m != j && !depends(
                    ms,
                    m as nat,
                    j as nat,
                ),
        decreases row@.len() - k,
    {
        assert(dep@[k as int]@ == depends_row(ms, k as nat));
        if row[k] != 0 && (k == j || dep[k][j]) {
            assert(row@[k as int] != 0);
            return true;
        }
        k = k + 1;
    }
    false
}

/// Whether the OLS with the output layers `row` includes more than one layer.
fn row_is_multi(layers: &Vec<VvcVpsLayer>, dep: &Vec<Vec<bool>>, row: &Vec<u8>) -> (b: bool)
    requires
        dep_is(dep@, seq_view(layers@), layers@.len() as int),
        row@.len() == layers@.len(),
    ensures
        b == is_multi(seq_view(layers@), row@),
{
    let ghost ms = seq_view(layers@);
    let mut j: usize = 0;
    let mut found: bool = false;
    let mut first: usize = 0;
    while j < layers.len()
        invariant
            ms == seq_view(layers@),
            dep_is(dep@, seq_view(layers@), layers@.len() as int),
            row@.len() == layers@.len(),
            j <= layers@.len(),
            found ==> first < j && includes(ms, row@, first as nat),
            forall|m: nat|
                m < j && #[trigger] includes(ms, row@, m) ==> found && m == first,
        decreases layers@.len() - j,
    {
        if row_includes(layers, dep, row, j) {
            if found {
                assert(includes(ms, row@, first as nat) && includes(ms, row@, j as nat));
                return true;
            }
            found = true;
            first = j;
        }
        j = j + 1;
    }
    false
}

/// Replay eqs. (28)–(33) far enough to know `TotalNumOlss` and
/// `NumMultiLayerOlss`. For mode 2 this includes the transitive
/// dependency closure of the explicitly-signalled output layers.
fn derive_ols_info(
    each_layer: u8,
    mode: u8,
    layers: &Vec<VvcVpsLayer>,
    rows: &Vec<Vec<u8>>,
) -> (res: Result<OlsInfo, BitstreamError>)
    requires
        1 <= layers@.len() <= 64,
        rows@.len() <= 256,
    ensures
        match res {
            Ok(o) => ols_ok(each_layer, mode, seq_view(layers@), seq_view(rows@)) && o == ols_of(
                each_layer,
                mode,
                seq_view(layers@),
                seq_view(rows@),
            ) && o.multi <= 256,
            Err(e) => e.fault() == Fault::Invalid && !ols_ok(
                each_layer,
                mode,
                seq_view(layers@),
                seq_view(rows@),
            ),
        },
{
    let ghost ms = seq_view(layers@);
    let ghost rs = seq_view(rows@);
    proof {
        reveal(ols_ok);
        reveal(ols_of);
        lemma_ols(each_layer, mode, ms, rs);
    }
    let n: usize = layers.len();
    if each_layer != 0 {
        return Ok(OlsInfo { total: n as u64, multi: 0 });
    }
    if mode <= 1 {
        return Ok(OlsInfo { total: n as u64, multi: n as u64 - 1 });
    }
    if mode > 2 {
        return Err(BitstreamError::invalid("vps_ols_mode_idc = 3 is reserved (7.4.3.3)"));
    }
    let dep: Vec<Vec<bool>> = dependencies(layers);
    let mut multi: u64 = 0;
    let mut i: usize = 0;
    proof {
        assert(rs.take(0) =~= Seq::empty());
    }
    while i < rows.len()
        invariant
            ms == seq_view(layers@),
            rs == seq_view(rows@),
            n == layers@.len(),
            each_layer == 0,
            mode == 2,
            i <= rows@.len() <= 256,
            dep_is(dep@, seq_view(layers@), layers@.len() as int),
            multi <= i,
            multi == count_multi(ms, rs.take(i as int)),
            forall|k: int| 0 <= k < i ==> row_ok(n as nat, #[trigger] rs[k]),
        decreases rows@.len() - i,
    {
        let row: &Vec<u8> = &rows[i];
        proof {
            reveal(ols_ok);
            assert(rs[i as int] == row@);
            assert(rs.take(i + 1).drop_last() =~= rs.take(i as int));
        }
        if row.len() != n {
            return Err(
                BitstreamError::invalid(
                    "vps_ols_output_layer_flag row length != layer count (7.3.2.3)",
                ),
            );
        }
        let mut any: bool = false;
        let mut k: usize = 0;
        while k < n
            invariant
                n == row@.len(),
                k <= n,
                any ==> exists|m: int| 0 <= m < row@.len() && #[trigger] row@[m] != 0,
                !any ==> forall|m: int| 0 <= m < k ==> #[trigger] row@[m] == 0,
            decreases n - k,
        {
            if row[k] != 0 {
                assert(row@[k as int] != 0);
                any = true;
            }
            k = k + 1;
        }
        if !any {
            return Err(
                BitstreamError::invalid("every OLS needs at least one output layer (7.4.3.3)"),
            );
        }
        if row_is_multi(layers, &dep, row) {
            multi = multi + 1;
        }
        i = i + 1;
    }
    proof {
        assert(rs.take(i as int) =~= rs);
    }
    Ok(OlsInfo { total: rows.len() as u64 + 1, multi })
}

// ─────────────────────────── PTL slots ───────────────────────────────────────

/// One `profile_tier_level()` slot in the VPS (§7.3.2.3).
#[derive(Debug, Clone, PartialEq, Eq)]
pub struct VvcVpsPtl {
    /// `vps_pt_present_flag[i]` u(1) — coded only for `i > 0`;
    /// inferred 1 for `i == 0`.
    pub vps_pt_present_flag: u8,
    /// `vps_ptl_max_tid[i]` u(3) — coded only when
    /// `!vps_default_ptl_dpb_hrd_max_tid_flag`; inferred
    /// `vps_max_sublayers_minus1`. Range 0..=`vps_max_sublayers_minus1`.
    pub vps_ptl_max_tid: u8,
    /// The `profile_tier_level(vps_pt_present_flag[i],
    /// vps_ptl_max_tid[i])` structure.
    pub ptl: VvcProfileTierLevel,
}

/// The mathematical model of a [`VvcVpsPtl`].
pub struct VvcVpsPtlModel {
    pub vps_pt_present_flag: u8,
    pub vps_ptl_max_tid: u8,
    pub ptl: VvcProfileTierLevelModel,
}

impl View for VvcVpsPtl {
    type V = VvcVpsPtlModel;

    open spec fn view(&self) -> VvcVpsPtlModel {
        VvcVpsPtlModel {
            vps_pt_present_flag: self.vps_pt_present_flag,
            vps_ptl_max_tid: self.vps_ptl_max_tid,
            ptl: self.ptl@,
        }
    }
}

/// The header of PTL slot `i` at position `p`.
#[verifier::opaque]
pub open spec fn ptl_head_at(s: Seq<bool>, p: nat, i: u64, dflt: u8, max_sub: u8) -> Read<(u8, u8)> {
    let pt_present = u8_if(s, p, 1, i > 0, 1);
    let p = adv_if(p, 1, i > 0);
    let max_tid = u8_if(s, p, 3, dflt == 0, max_sub);
    let p = adv_if(p, 3, dflt == 0);
    if max_tid > max_sub { Err(Fault::Invalid) } else {
    Ok(((pt_present, max_tid), p)) }
}

/// The bits `a` followed by the header of PTL slot `i`.
#[verifier::opaque]
pub open spec fn put_ptl_head(a: Seq<bool>, x: (u8, u8), i: u64, dflt: u8, max_sub: u8) -> Seq<bool> {
    let a = put_bit_if(a, x.0 as nat, i > 0);
    let a = put_u_if(a, x.1 as nat, 3, dflt == 0);
    a
}

/// The values of the header of PTL slot `i` that reading can give.
#[verifier::opaque]
pub open spec fn ptl_head_ok(x: (u8, u8), i: u64, dflt: u8, max_sub: u8) -> bool {
    &&& if i > 0 { fits(x.0 as nat, 1) } else { x.0 == 1 }
    &&& if dflt == 0 { fits(x.1 as nat, 3) && x.1 <= max_sub } else { x.1 == max_sub }
}

/// The values of the header of PTL slot `i` that the writer accepts.
#[verifier::opaque]
pub open spec fn ptl_head_can(x: (u8, u8), i: u64, dflt: u8, max_sub: u8) -> bool {
    &&& i > 0 || x.0 == 1
    &&& if dflt == 0 { x.1 <= max_sub } else { x.1 == max_sub }
}

/// Parses the header of PTL slot `i`.
fn parse_ptl_head(
    r: &mut BitReader<'_>,
    i: u64,
    dflt: u8,
    max_sub: u8,
) -> (res: Result<(u8, u8), BitstreamError>)
    ensures
        read_is(ptl_head_at(old(r).bits(), old(r).pos(), i, dflt, max_sub), res, *old(r), *final(r)),
{
    proof {
        reveal(ptl_head_at);
    }
    let pt_present: u8 = r.bit_if(i > 0, 1);
    let max_tid: u8 = r.u8_if(3, dflt == 0, max_sub);
    if max_tid > max_sub {
        return Err(BitstreamError::invalid("vps_ptl_max_tid exceeds vps_max_sublayers_minus1 (7.4.3.3)"));
    }
    Ok((pt_present, max_tid))
}

/// Emits the header of PTL slot `i`, the inverse of [`parse_ptl_head`].
fn write_ptl_head(
    w: &mut BitWriter,
    x: &(u8, u8),
    i: u64,
    dflt: u8,
    max_sub: u8,
) -> (res: Result<(), BitstreamError>)
    ensures
        write_is(
            ptl_head_can(*x, i, dflt, max_sub),
            put_ptl_head(old(w)@, *x, i, dflt, max_sub),
            res,
            final(w)@,
        ),
{
    proof {
        reveal(put_ptl_head);
        reveal(ptl_head_can);
    }
    w.write_bit_if(x.0 as u32, i > 0);
    if !(i > 0 || x.0 == 1) {
        return Err(
            BitstreamError::invalid("vps_pt_present_flag[0] must carry its inferred value 1 (7.4.3.3)"),
        );
    }
    w.write_bits_if(x.1 as u32, 3, dflt == 0);
    if !(if dflt == 0 { x.1 <= max_sub } else { x.1 == max_sub }) {
        return Err(
            if dflt == 0 {
                BitstreamError::invalid("vps_ptl_max_tid exceeds vps_max_sublayers_minus1 (7.4.3.3)")
            } else {
                BitstreamError::invalid("uncoded vps_ptl_max_tid must carry its inferred value (7.4.3.3)")
            },
        );
    }
    Ok(())
}

/// Writing the header of PTL slot `i` gives back the bits it was read from.
pub broadcast proof fn law_put_ptl_head_at(s: Seq<bool>, p: nat, i: u64, dflt: u8, max_sub: u8)
    ensures
        #[trigger] ptl_head_at(s, p, i, dflt, max_sub) matches Ok((x, q)) ==> {
            &&& ptl_head_ok(x, i, dflt, max_sub)
            &&& ptl_head_can(x, i, dflt, max_sub)
            &&& within(s, q) ==> within(s, p) && put_ptl_head(upto(s, p), x, i, dflt, max_sub) == upto(s, q)
        },
{
    broadcast use crate::bits::group_write_read;

    reveal(ptl_head_at);
    reveal(put_ptl_head);
    reveal(ptl_head_ok);
    reveal(ptl_head_can);
}

/// Reading gives back the header of PTL slot `i` as it was written.
pub broadcast proof fn law_pre_put_ptl_head(
    a: Seq<bool>,
    x: (u8, u8),
    i: u64,
    dflt: u8,
    max_sub: u8,
    s: Seq<bool>,
)
    requires
        #[trigger] pre(put_ptl_head(a, x, i, dflt, max_sub), s),
        ptl_head_ok(x, i, dflt, max_sub),
    ensures
        pre(a, s),
        ptl_head_can(x, i, dflt, max_sub),
        ptl_head_at(s, a.len(), i, dflt, max_sub) == Ok::<((u8, u8), nat), Fault>(
            (x, put_ptl_head(a, x, i, dflt, max_sub).len()),
        ),
{
    broadcast use crate::bits::group_read_written;

    reveal(ptl_head_at);
    reveal(put_ptl_head);
    reveal(ptl_head_ok);
    reveal(ptl_head_can);
}

/// The layout of the header of PTL slot `i`: reading at `p` gives `x` and ends
/// at `q` if and only if these elements stand there in this order, and the
/// values are allowed.
pub proof fn law_layout_ptl_head(s: Seq<bool>, p: nat, i: u64, dflt: u8, max_sub: u8, x: (u8, u8), q: nat)
    ensures
        ptl_head_at(s, p, i, dflt, max_sub) == Ok::<((u8, u8), nat), Fault>((x, q)) <==> ({
            &&& cursor(s, p)
                .u8_if(i > 0, 1, x.0, 1)
                .u8_if(dflt == 0, 3, x.1, max_sub)
                .ends(q)
            &&& x.1 <= max_sub
        }),
{
    reveal(ptl_head_at);
    reveal(adv_if);
    reveal(u8_if);
}

/// Reading the header of PTL slot `i` fails only with an error of this class.
pub broadcast proof fn law_faults_ptl_head(s: Seq<bool>, p: nat, i: u64, dflt: u8, max_sub: u8)
    ensures
        #[trigger] ptl_head_at(s, p, i, dflt, max_sub) matches Err(f) ==> f == Fault::Invalid,
{
    reveal(ptl_head_at);
}

/// What the writer accepts reads back: the header of PTL slot `i`, where each
/// field fits its width and what is not coded has the value that is taken for
/// it.
pub proof fn law_reads_ptl_head(a: Seq<bool>, x: (u8, u8), i: u64, dflt: u8, max_sub: u8, s: Seq<bool>)
    requires
        ptl_head_can(x, i, dflt, max_sub),
        if i > 0 { fits(x.0 as nat, 1) } else { x.0 == 1 },
        if dflt == 0 { fits(x.1 as nat, 3) } else { x.1 == max_sub },
        pre(put_ptl_head(a, x, i, dflt, max_sub), s),
    ensures
        ptl_head_at(s, a.len(), i, dflt, max_sub) == Ok::<((u8, u8), nat), Fault>(
            (x, put_ptl_head(a, x, i, dflt, max_sub).len()),
        ),
{
    assert(ptl_head_ok(x, i, dflt, max_sub)) by {
        broadcast use crate::bits::law_fits_small;

        reveal(ptl_head_ok);
        reveal(ptl_head_can);
    }
    law_pre_put_ptl_head(a, x, i, dflt, max_sub, s);
}

/// Reads the header of PTL slot `i`, behind the items before it.
pub open spec fn ptl_heads_item(
    s: Seq<bool>,
    dflt: u8,
    max_sub: u8,
) -> spec_fn(Seq<(u8, u8)>, nat) -> Read<(u8, u8)> {
    |done: Seq<(u8, u8)>, q: nat| ptl_head_at(s, q, done.len() as u64, dflt, max_sub)
}

/// Writes the header of PTL slot `i`, behind the items before it.
pub open spec fn put_ptl_heads_item(
    dflt: u8,
    max_sub: u8,
) -> spec_fn(Seq<bool>, Seq<(u8, u8)>, (u8, u8)) -> Seq<bool> {
    |a: Seq<bool>, done: Seq<(u8, u8)>, x: (u8, u8)| put_ptl_head(a, x, done.len() as u64, dflt, max_sub)
}

/// Whether the header of PTL slot `i` may follow the items before it.
pub open spec fn ptl_heads_item_ok(dflt: u8, max_sub: u8) -> spec_fn(Seq<(u8, u8)>, (u8, u8)) -> bool {
    |done: Seq<(u8, u8)>, x: (u8, u8)| ptl_head_ok(x, done.len() as u64, dflt, max_sub)
        && ptl_head_can(x, done.len() as u64, dflt, max_sub)
}

/// `n` items at position `p`, each the header of PTL slot `i`.
#[verifier::opaque]
pub open spec fn ptl_heads_at(s: Seq<bool>, p: nat, dflt: u8, max_sub: u8, n: u64) -> Read<Seq<(u8, u8)>> {
    rep_at(ptl_heads_item(s, dflt, max_sub), p, n as nat)
}

/// The bits `a` followed by the items.
#[verifier::opaque]
pub open spec fn put_ptl_heads(a: Seq<bool>, xs: Seq<(u8, u8)>, dflt: u8, max_sub: u8, n: u64) -> Seq<bool> {
    put_rep(put_ptl_heads_item(dflt, max_sub), a, xs)
}

/// `n` items that reading can give.
#[verifier::opaque]
pub open spec fn ptl_heads_ok(xs: Seq<(u8, u8)>, dflt: u8, max_sub: u8, n: u64) -> bool {
    xs.len() == n
        && forall|i: int| 0 <= i < xs.len()
        ==> ptl_head_ok(#[trigger] xs[i], i as u64, dflt, max_sub)
        && ptl_head_can(xs[i], i as u64, dflt, max_sub)
}

/// `n` items that the writer accepts.
#[verifier::opaque]
pub open spec fn ptl_heads_can(xs: Seq<(u8, u8)>, dflt: u8, max_sub: u8, n: u64) -> bool {
    xs.len() == n
        && forall|i: int| 0 <= i < xs.len()
        ==> ptl_head_can(#[trigger] xs[i], i as u64, dflt, max_sub)
}

/// Parses `n` items, each the header of PTL slot `i`.
fn parse_ptl_heads(
    r: &mut BitReader<'_>,
    dflt: u8,
    max_sub: u8,
    n: u64,
) -> (res: Result<Vec<(u8, u8)>, BitstreamError>)
    ensures
        read_vec_is(ptl_heads_at(old(r).bits(), old(r).pos(), dflt, max_sub, n), res, *old(r), *final(r)),
        res matches Ok(v) ==> v@.len() == n,
{
    let ghost s = r.bits();
    let ghost p = r.pos();
    let ghost reads = ptl_heads_item(s, dflt, max_sub);
    let mut xs: Vec<(u8, u8)> = Vec::new();
    let mut i: u64 = 0;
    proof {
        reveal(ptl_heads_at);
    }
    while i < n
        invariant
            i <= n,
            xs@.len() == i,
            reads == ptl_heads_item(s, dflt, max_sub),
            s == r.bits(),
            s == old(r).bits(),
            p == old(r).pos(),
            r.bytes() == old(r).bytes(),
            rep_at(reads, p, i as nat) == Ok::<(Seq<(u8, u8)>, nat), Fault>((xs@, r.pos())),
        decreases n - i,
    {
        match parse_ptl_head(r, i, dflt, max_sub) {
            Ok(x) => {
                xs.push(x);
            },
            Err(e) => {
                proof {
                    reveal(ptl_heads_at);
                    lemma_rep_err(reads, p, (i + 1) as nat, n as nat);
                }
                return Err(e);
            },
        }
        i = i + 1;
    }
    Ok(xs)
}

/// Emits `n` items, each the header of PTL slot `i`.
fn write_ptl_heads(
    w: &mut BitWriter,
    xs: &Vec<(u8, u8)>,
    dflt: u8,
    max_sub: u8,
    n: u64,
) -> (res: Result<(), BitstreamError>)
    ensures
        write_is(
            ptl_heads_can(xs@, dflt, max_sub, n),
            put_ptl_heads(old(w)@, xs@, dflt, max_sub, n),
            res,
            final(w)@,
        ),
        res is Ok ==> xs@.len() == n,
{
    let ghost before = w@;
    let ghost puts = put_ptl_heads_item(dflt, max_sub);
    let ghost ys = xs@;
    proof {
        reveal(put_ptl_heads);
        reveal(ptl_heads_can);
        assert(ys.take(0) =~= Seq::empty());
    }
    if xs.len() as u64 != n {
        return Err(BitstreamError::invalid("unexpected number of entries"));
    }
    let mut i: usize = 0;
    while i < xs.len()
        invariant
            i <= xs@.len(),
            xs@.len() == n,
            ys == xs@,
            ys.len() == xs@.len(),
            before == old(w)@,
            puts == put_ptl_heads_item(dflt, max_sub),
            w@ == put_rep(puts, before, ys.take(i as int)),
            forall|j: int| 0 <= j < i ==> ptl_head_can(#[trigger] ys[j], j as u64, dflt, max_sub),
        ensures
            i == xs@.len(),
        decreases xs@.len() - i,
    {
        proof {
            assert(ys.take(i + 1).drop_last() =~= ys.take(i as int));
            assert(ys[i as int] == xs@[i as int]);
        }
        match write_ptl_head(w, &xs[i], i as u64, dflt, max_sub) {
            Ok(()) => {},
            Err(e) => {
                proof {
                    reveal(ptl_heads_can);
                }
                return Err(e);
            },
        }
        i = i + 1;
    }
    proof {
        assert(ys.take(i as int) =~= ys);
    }
    Ok(())
}

/// Writing what was read gives back the bits that were read.
pub broadcast proof fn law_put_ptl_heads_at(s: Seq<bool>, p: nat, dflt: u8, max_sub: u8, n: u64)
    ensures
        #[trigger] ptl_heads_at(s, p, dflt, max_sub, n) matches Ok((xs, q)) ==> {
            &&& xs.len() == n
            &&& ptl_heads_ok(xs, dflt, max_sub, n)
            &&& ptl_heads_can(xs, dflt, max_sub, n)
            &&& within(s, q) ==> within(s, p) && put_ptl_heads(upto(s, p), xs, dflt, max_sub, n) == upto(s, q)
        },
{
    broadcast use law_put_ptl_head_at;

    reveal(ptl_heads_at);
    reveal(put_ptl_heads);
    reveal(ptl_heads_ok);
    reveal(ptl_heads_can);
    let ok = ptl_heads_item_ok(dflt, max_sub);
    law_put_rep_at(s, ptl_heads_item(s, dflt, max_sub), put_ptl_heads_item(dflt, max_sub), ok, p, n as nat);
    if let Ok((xs, q)) = ptl_heads_at(s, p, dflt, max_sub, n) {
        assert forall|i: int| 0 <= i < xs.len() implies ok(xs.take(i), #[trigger] xs[i]) by {}
    }
}

/// What was written reads back as the items that were written.
pub broadcast proof fn law_pre_put_ptl_heads(
    a: Seq<bool>,
    xs: Seq<(u8, u8)>,
    dflt: u8,
    max_sub: u8,
    n: u64,
    s: Seq<bool>,
)
    requires
        #[trigger] pre(put_ptl_heads(a, xs, dflt, max_sub, n), s),
        ptl_heads_ok(xs, dflt, max_sub, n),
    ensures
        pre(a, s),
        ptl_heads_can(xs, dflt, max_sub, n),
        ptl_heads_at(s, a.len(), dflt, max_sub, n) == Ok::<(Seq<(u8, u8)>, nat), Fault>(
            (xs, put_ptl_heads(a, xs, dflt, max_sub, n).len()),
        ),
{
    broadcast use law_pre_put_ptl_head;

    reveal(ptl_heads_at);
    reveal(put_ptl_heads);
    reveal(ptl_heads_ok);
    reveal(ptl_heads_can);
    law_rep_at_put(
        s,
        ptl_heads_item(s, dflt, max_sub),
        put_ptl_heads_item(dflt, max_sub),
        ptl_heads_item_ok(dflt, max_sub),
        a,
        xs,
    );
}

/// `n` items stand one behind the other: `n - 1` items, and then the header of
/// PTL slot `i`.
pub proof fn law_layout_ptl_heads(
    s: Seq<bool>,
    p: nat,
    dflt: u8,
    max_sub: u8,
    n: u64,
    xs: Seq<(u8, u8)>,
    q: nat,
)
    ensures
        ptl_heads_at(s, p, dflt, max_sub, n) == Ok::<(Seq<(u8, u8)>, nat), Fault>((xs, q)) <==> if n == 0 {
            xs.len() == 0 && q == p
        } else {
            &&& xs.len() == n
            &&& cursor(s, p)
                .part(|p: nat| ptl_heads_at(s, p, dflt, max_sub, (n - 1) as u64), xs.drop_last())
                .part(|p: nat| ptl_head_at(s, p, (n - 1) as u64, dflt, max_sub), xs.last())
                .ends(q)
        },
{
    reveal(ptl_heads_at);
    lemma_rep_step(ptl_heads_item(s, dflt, max_sub), p, n as nat);
    if xs.len() == 0 {
        assert(xs =~= Seq::empty());
    } else {
        assert(xs =~= xs.drop_last().push(xs.last()));
    }
    if n > 0 {
        if let Ok((done, r)) = rep_at(ptl_heads_item(s, dflt, max_sub), p, (n - 1) as nat) {
            if let Ok((y, z)) = ptl_heads_item(s, dflt, max_sub)(done, r) {
                assert(done.push(y).drop_last() =~= done);
            }
        }
    }
}

/// What the writer accepts as `n` items reads back, where each of them is one that
/// reading can give.
pub proof fn law_reads_ptl_heads(a: Seq<bool>, xs: Seq<(u8, u8)>, dflt: u8, max_sub: u8, n: u64, s: Seq<bool>)
    requires
        ptl_heads_can(xs, dflt, max_sub, n),
        forall|i: int| 0 <= i < xs.len() ==> ptl_head_ok(#[trigger] xs[i], i as u64, dflt, max_sub),
        pre(put_ptl_heads(a, xs, dflt, max_sub, n), s),
    ensures
        xs.len() == n,
        ptl_heads_at(s, a.len(), dflt, max_sub, n) == Ok::<(Seq<(u8, u8)>, nat), Fault>(
            (xs, put_ptl_heads(a, xs, dflt, max_sub, n).len()),
        ),
{
    reveal(ptl_heads_can);
    assert(ptl_heads_ok(xs, dflt, max_sub, n)) by {
        reveal(ptl_heads_ok);
    }
    law_pre_put_ptl_heads(a, xs, dflt, max_sub, n, s);
}

/// Reading the items fails only with an error of this class.
pub broadcast proof fn law_faults_ptl_heads(s: Seq<bool>, p: nat, dflt: u8, max_sub: u8, n: u64)
    ensures
        #[trigger] ptl_heads_at(s, p, dflt, max_sub, n) matches Err(f) ==> f == Fault::Invalid,
{
    broadcast use law_faults_ptl_head;

    reveal(ptl_heads_at);
    let f = ptl_heads_item(s, dflt, max_sub);
    assert forall|done: Seq<(u8, u8)>, q: nat| (#[trigger] f(done, q)) matches Err(e)
        ==> e == Fault::Invalid by {}
    lemma_rep_faults(f, p, n as nat, |f: Fault| f == Fault::Invalid);
}

/// The profile_tier_level() structure of slot `i` at position `p`.
#[verifier::opaque]
pub open spec fn ptl_body_at(
    s: Seq<bool>,
    p: nat,
    i: u64,
    heads: Seq<(u8, u8)>,
) -> Read<VvcProfileTierLevelModel> {
    ptl_at(s, p, heads[i as int].0 != 0, heads[i as int].1 as u32)
}

/// Writes the structure of slot `i`.
#[verifier::opaque]
pub open spec fn put_ptl_body(
    a: Seq<bool>,
    x: VvcProfileTierLevelModel,
    i: u64,
    heads: Seq<(u8, u8)>,
) -> Seq<bool> {
    put_ptl(a, x, heads[i as int].0 != 0, heads[i as int].1 as u32)
}

/// A structure that reading can give.
#[verifier::opaque]
pub open spec fn ptl_body_ok(x: VvcProfileTierLevelModel, i: u64, heads: Seq<(u8, u8)>) -> bool {
    ptl_ok(x, heads[i as int].0 != 0, heads[i as int].1 as u32)
}

/// A structure that the writer accepts.
#[verifier::opaque]
pub open spec fn ptl_body_can(x: VvcProfileTierLevelModel, i: u64, heads: Seq<(u8, u8)>) -> bool {
    ptl_can(x, heads[i as int].0 != 0, heads[i as int].1 as u32)
}

broadcast proof fn law_put_ptl_body_at(s: Seq<bool>, p: nat, i: u64, heads: Seq<(u8, u8)>)
    ensures
        #[trigger] ptl_body_at(s, p, i, heads) matches Ok((x, q)) ==> {
            &&& ptl_body_ok(x, i, heads)
            &&& ptl_body_can(x, i, heads)
            &&& within(s, q) ==> within(s, p) && put_ptl_body(upto(s, p), x, i, heads) == upto(s, q)
        },
{
    broadcast use law_put_ptl_at;

    reveal(ptl_body_at);
    reveal(put_ptl_body);
    reveal(ptl_body_ok);
    reveal(ptl_body_can);
}

broadcast proof fn law_pre_put_ptl_body(
    a: Seq<bool>,
    x: VvcProfileTierLevelModel,
    i: u64,
    heads: Seq<(u8, u8)>,
    s: Seq<bool>,
)
    requires
        #[trigger] pre(put_ptl_body(a, x, i, heads), s),
        ptl_body_ok(x, i, heads),
    ensures
        pre(a, s),
        ptl_body_can(x, i, heads),
        ptl_body_at(s, a.len(), i, heads) == Ok::<(VvcProfileTierLevelModel, nat), Fault>(
            (x, put_ptl_body(a, x, i, heads).len()),
        ),
{
    broadcast use law_pre_put_ptl;

    reveal(ptl_body_at);
    reveal(put_ptl_body);
    reveal(ptl_body_ok);
    reveal(ptl_body_can);
}

/// Reads an item, behind the items before it.
pub open spec fn ptl_bodies_item(
    s: Seq<bool>,
    heads: Seq<(u8, u8)>,
) -> spec_fn(Seq<VvcProfileTierLevelModel>, nat) -> Read<VvcProfileTierLevelModel> {
    |done: Seq<VvcProfileTierLevelModel>, q: nat| ptl_body_at(s, q, done.len() as u64, heads)
}

/// Writes an item, behind the items before it.
pub open spec fn put_ptl_bodies_item(
    heads: Seq<(u8, u8)>,
) -> spec_fn(Seq<bool>, Seq<VvcProfileTierLevelModel>, VvcProfileTierLevelModel) -> Seq<bool> {
    |a: Seq<bool>, done: Seq<VvcProfileTierLevelModel>, x: VvcProfileTierLevelModel| put_ptl_body(
        a,
        x,
        done.len() as u64,
        heads,
    )
}

/// Whether an item may follow the items before it.
pub open spec fn ptl_bodies_item_ok(
    heads: Seq<(u8, u8)>,
) -> spec_fn(Seq<VvcProfileTierLevelModel>, VvcProfileTierLevelModel) -> bool {
    |done: Seq<VvcProfileTierLevelModel>, x: VvcProfileTierLevelModel| ptl_body_ok(
        x,
        done.len() as u64,
        heads,
    )
        && ptl_body_can(x, done.len() as u64, heads)
}

/// `n` items at position `p`, each an item.
#[verifier::opaque]
pub open spec fn ptl_bodies_at(
    s: Seq<bool>,
    p: nat,
    heads: Seq<(u8, u8)>,
    n: u64,
) -> Read<Seq<VvcProfileTierLevelModel>> {
    rep_at(ptl_bodies_item(s, heads), p, n as nat)
}

/// The bits `a` followed by the items.
#[verifier::opaque]
pub open spec fn put_ptl_bodies(
    a: Seq<bool>,
    xs: Seq<VvcProfileTierLevelModel>,
    heads: Seq<(u8, u8)>,
    n: u64,
) -> Seq<bool> {
    put_rep(put_ptl_bodies_item(heads), a, xs)
}

/// `n` items that reading can give.
#[verifier::opaque]
pub open spec fn ptl_bodies_ok(xs: Seq<VvcProfileTierLevelModel>, heads: Seq<(u8, u8)>, n: u64) -> bool {
    xs.len() == n
        && forall|i: int| 0 <= i < xs.len()
        ==> ptl_body_ok(#[trigger] xs[i], i as u64, heads)
        && ptl_body_can(xs[i], i as u64, heads)
}

/// `n` items that the writer accepts.
#[verifier::opaque]
pub open spec fn ptl_bodies_can(xs: Seq<VvcProfileTierLevelModel>, heads: Seq<(u8, u8)>, n: u64) -> bool {
    xs.len() == n && forall|i: int| 0 <= i < xs.len() ==> ptl_body_can(#[trigger] xs[i], i as u64, heads)
}

/// Writing what was read gives back the bits that were read.
pub broadcast proof fn law_put_ptl_bodies_at(s: Seq<bool>, p: nat, heads: Seq<(u8, u8)>, n: u64)
    ensures
        #[trigger] ptl_bodies_at(s, p, heads, n) matches Ok((xs, q)) ==> {
            &&& xs.len() == n
            &&& ptl_bodies_ok(xs, heads, n)
            &&& ptl_bodies_can(xs, heads, n)
            &&& within(s, q) ==> within(s, p) && put_ptl_bodies(upto(s, p), xs, heads, n) == upto(s, q)
        },
{
    broadcast use law_put_ptl_body_at;

    reveal(ptl_bodies_at);
    reveal(put_ptl_bodies);
    reveal(ptl_bodies_ok);
    reveal(ptl_bodies_can);
    let ok = ptl_bodies_item_ok(heads);
    law_put_rep_at(s, ptl_bodies_item(s, heads), put_ptl_bodies_item(heads), ok, p, n as nat);
    if let Ok((xs, q)) = ptl_bodies_at(s, p, heads, n) {
        assert forall|i: int| 0 <= i < xs.len() implies ok(xs.take(i), #[trigger] xs[i]) by {}
    }
}

/// What was written reads back as the items that were written.
pub broadcast proof fn law_pre_put_ptl_bodies(
    a: Seq<bool>,
    xs: Seq<VvcProfileTierLevelModel>,
    heads: Seq<(u8, u8)>,
    n: u64,
    s: Seq<bool>,
)
    requires
        #[trigger] pre(put_ptl_bodies(a, xs, heads, n), s),
        ptl_bodies_ok(xs, heads, n),
    ensures
        pre(a, s),
        ptl_bodies_can(xs, heads, n),
        ptl_bodies_at(s, a.len(), heads, n) == Ok::<(Seq<VvcProfileTierLevelModel>, nat), Fault>(
            (xs, put_ptl_bodies(a, xs, heads, n).len()),
        ),
{
    broadcast use law_pre_put_ptl_body;

    reveal(ptl_bodies_at);
    reveal(put_ptl_bodies);
    reveal(ptl_bodies_ok);
    reveal(ptl_bodies_can);
    law_rep_at_put(
        s,
        ptl_bodies_item(s, heads),
        put_ptl_bodies_item(heads),
        ptl_bodies_item_ok(heads),
        a,
        xs,
    );
}

/// `n` items stand one behind the other: `n - 1` items, and then an item.
pub proof fn law_layout_ptl_bodies(
    s: Seq<bool>,
    p: nat,
    heads: Seq<(u8, u8)>,
    n: u64,
    xs: Seq<VvcProfileTierLevelModel>,
    q: nat,
)
    ensures
        ptl_bodies_at(s, p, heads, n) == Ok::<(Seq<VvcProfileTierLevelModel>, nat), Fault>((xs, q)) <==> if n == 0 {
            xs.len() == 0 && q == p
        } else {
            &&& xs.len() == n
            &&& cursor(s, p)
                .part(|p: nat| ptl_bodies_at(s, p, heads, (n - 1) as u64), xs.drop_last())
                .part(|p: nat| ptl_body_at(s, p, (n - 1) as u64, heads), xs.last())
                .ends(q)
        },
{
    reveal(ptl_bodies_at);
    lemma_rep_step(ptl_bodies_item(s, heads), p, n as nat);
    if xs.len() == 0 {
        assert(xs =~= Seq::empty());
    } else {
        assert(xs =~= xs.drop_last().push(xs.last()));
    }
    if n > 0 {
        if let Ok((done, r)) = rep_at(ptl_bodies_item(s, heads), p, (n - 1) as nat) {
            if let Ok((y, z)) = ptl_bodies_item(s, heads)(done, r) {
                assert(done.push(y).drop_last() =~= done);
            }
        }
    }
}

/// What the writer accepts as `n` items reads back, where each of them is one that
/// reading can give.
pub proof fn law_reads_ptl_bodies(
    a: Seq<bool>,
    xs: Seq<VvcProfileTierLevelModel>,
    heads: Seq<(u8, u8)>,
    n: u64,
    s: Seq<bool>,
)
    requires
        ptl_bodies_can(xs, heads, n),
        forall|i: int| 0 <= i < xs.len() ==> ptl_body_ok(#[trigger] xs[i], i as u64, heads),
        pre(put_ptl_bodies(a, xs, heads, n), s),
    ensures
        xs.len() == n,
        ptl_bodies_at(s, a.len(), heads, n) == Ok::<(Seq<VvcProfileTierLevelModel>, nat), Fault>(
            (xs, put_ptl_bodies(a, xs, heads, n).len()),
        ),
{
    reveal(ptl_bodies_can);
    assert(ptl_bodies_ok(xs, heads, n)) by {
        reveal(ptl_bodies_ok);
    }
    law_pre_put_ptl_bodies(a, xs, heads, n, s);
}

/// Reading the items fails only with an error of this class.
pub broadcast proof fn law_faults_ptl_bodies(s: Seq<bool>, p: nat, heads: Seq<(u8, u8)>, n: u64)
    ensures
        #[trigger] ptl_bodies_at(s, p, heads, n) matches Err(f) ==> f == Fault::Invalid,
{
    broadcast use law_faults_ptl_body;

    reveal(ptl_bodies_at);
    let f = ptl_bodies_item(s, heads);
    assert forall|done: Seq<VvcProfileTierLevelModel>, q: nat| (#[trigger] f(done, q)) matches Err(e)
        ==> e == Fault::Invalid by {}
    lemma_rep_faults(f, p, n as nat, |f: Fault| f == Fault::Invalid);
}

/// The headers of PTL slots.
pub open spec fn heads_of(xs: Seq<VvcVpsPtlModel>) -> Seq<(u8, u8)> {
    Seq::new(xs.len(), |i: int| (xs[i].vps_pt_present_flag, xs[i].vps_ptl_max_tid))
}

/// The structures of PTL slots.
pub open spec fn bodies_of(xs: Seq<VvcVpsPtlModel>) -> Seq<VvcProfileTierLevelModel> {
    Seq::new(xs.len(), |i: int| xs[i].ptl)
}

/// PTL slots from their headers and structures.
pub open spec fn ptl_slots(
    hs: Seq<(u8, u8)>,
    bs: Seq<VvcProfileTierLevelModel>,
) -> Seq<VvcVpsPtlModel> {
    Seq::new(
        bs.len(),
        |i: int|
            VvcVpsPtlModel {
                vps_pt_present_flag: hs[i].0,
                vps_ptl_max_tid: hs[i].1,
                ptl: bs[i],
            },
    )
}

/// `n` PTL slots at position `p`: the headers, alignment, and the structures.
#[verifier::opaque]
pub open spec fn vps_ptls_at(
    s: Seq<bool>,
    p: nat,
    dflt: u8,
    max_sub: u8,
    n: u64,
) -> Read<Seq<VvcVpsPtlModel>> {
    match ptl_heads_at(s, p, dflt, max_sub, n) {
        Err(f) => Err(f),
        Ok((hs, p)) => match align_at(s, p) {
            Err(f) => Err(f),
            Ok(p) => match ptl_bodies_at(s, p, hs, n) {
                Err(f) => Err(f),
                Ok((bs, p)) => Ok((ptl_slots(hs, bs), p)),
            },
        },
    }
}

/// Writes the PTL slots.
#[verifier::opaque]
pub open spec fn put_vps_ptls(
    a: Seq<bool>,
    xs: Seq<VvcVpsPtlModel>,
    dflt: u8,
    max_sub: u8,
    n: u64,
) -> Seq<bool> {
    let a = put_ptl_heads(a, heads_of(xs), dflt, max_sub, n);
    put_ptl_bodies(put_align(a), bodies_of(xs), heads_of(xs), n)
}

/// PTL slots that reading can give.
#[verifier::opaque]
pub open spec fn vps_ptls_ok(xs: Seq<VvcVpsPtlModel>, dflt: u8, max_sub: u8, n: u64) -> bool {
    &&& ptl_heads_ok(heads_of(xs), dflt, max_sub, n)
    &&& ptl_bodies_ok(bodies_of(xs), heads_of(xs), n)
    &&& xs.len() == n
}

/// PTL slots that the writer accepts.
#[verifier::opaque]
pub open spec fn vps_ptls_can(xs: Seq<VvcVpsPtlModel>, dflt: u8, max_sub: u8, n: u64) -> bool {
    &&& ptl_heads_can(heads_of(xs), dflt, max_sub, n)
    &&& ptl_bodies_can(bodies_of(xs), heads_of(xs), n)
}

/// Parses `n` PTL slots.
fn parse_vps_ptls(r: &mut BitReader<'_>, dflt: u8, max_sub: u8, n: u64) -> (res: Result<
    Vec<VvcVpsPtl>,
    BitstreamError,
>)
    ensures
        read_seq_is(
            vps_ptls_at(old(r).bits(), old(r).pos(), dflt, max_sub, n),
            res,
            *old(r),
            *final(r),
        ),
        res matches Ok(v) ==> v@.len() == n,
{
    let ghost s = r.bits();
    proof {
        reveal(vps_ptls_at);
        broadcast use law_put_ptl_heads_at;

    }
    let heads: Vec<(u8, u8)> = parse_ptl_heads(r, dflt, max_sub, n)?;
    r.read_align("vps_ptl_alignment_zero_bit must be 0 (7.3.2.3)")?;
    let ghost p = r.pos();
    let ghost hs = heads@;
    let ghost reads = ptl_bodies_item(s, hs);
    let mut xs: Vec<VvcVpsPtl> = Vec::new();
    let mut i: u64 = 0;
    proof {
        reveal(ptl_bodies_at);
        law_put_ptl_heads_at(s, old(r).pos(), dflt, max_sub, n);
        assert(bodies_of(seq_view(xs@)) =~= Seq::empty());
    }
    while i < n
        invariant
            i <= n,
            xs@.len() == i,
            hs == heads@,
            hs.len() == n,
            reads == ptl_bodies_item(s, hs),
            s == r.bits(),
            s == old(r).bits(),
            r.bytes() == old(r).bytes(),
            rep_at(reads, p, i as nat) == Ok::<(Seq<VvcProfileTierLevelModel>, nat), Fault>(
                (bodies_of(seq_view(xs@)), r.pos()),
            ),
            forall|j: int|
                0 <= j < i ==> (#[trigger] xs@[j]).vps_pt_present_flag == hs[j].0
                    && xs@[j].vps_ptl_max_tid == hs[j].1,
            vps_ptls_at(s, old(r).pos(), dflt, max_sub, n) == match rep_at(reads, p, n as nat) {
                Ok((bs, q)) => Ok((ptl_slots(hs, bs), q)),
                Err(f) => Err(f),
            },
        decreases n - i,
    {
        let head: (u8, u8) = heads[i as usize];
        proof {
            reveal(ptl_body_at);
        }
        match parse_profile_tier_level(r, head.0 != 0, head.1 as u32) {
            Ok(ptl) => {
                let x = VvcVpsPtl { vps_pt_present_flag: head.0, vps_ptl_max_tid: head.1, ptl };
                proof {
                    assert(bodies_of(seq_view(xs@.push(x))) =~= bodies_of(seq_view(xs@)).push(
                        x.ptl@,
                    ));
                }
                xs.push(x);
            },
            Err(e) => {
                proof {
                    lemma_rep_err(reads, p, (i + 1) as nat, n as nat);
                }
                return Err(e);
            },
        }
        i = i + 1;
    }
    proof {
        assert(ptl_slots(hs, bodies_of(seq_view(xs@))) =~= seq_view(xs@));
    }
    Ok(xs)
}

/// Emits the PTL slots.
fn write_vps_ptls(w: &mut BitWriter, xs: &Vec<VvcVpsPtl>, dflt: u8, max_sub: u8, n: u64) -> (res:
    Result<(), BitstreamError>)
    ensures
        write_is(
            vps_ptls_can(seq_view(xs@), dflt, max_sub, n),
            put_vps_ptls(old(w)@, seq_view(xs@), dflt, max_sub, n),
            res,
            final(w)@,
        ),
{
    let ghost ms = seq_view(xs@);
    let ghost ys = bodies_of(ms);
    proof {
        reveal(put_vps_ptls);
        reveal(vps_ptls_can);
        reveal(ptl_heads_can);
    }
    let mut heads: Vec<(u8, u8)> = Vec::new();
    let mut k: usize = 0;
    while k < xs.len()
        invariant
            k <= xs@.len(),
            ms == seq_view(xs@),
            heads@.len() == k,
            forall|j: int| 0 <= j < k ==> #[trigger] heads@[j] == heads_of(ms)[j],
        decreases xs@.len() - k,
    {
        heads.push((xs[k].vps_pt_present_flag, xs[k].vps_ptl_max_tid));
        k = k + 1;
    }
    proof {
        assert(heads@ =~= heads_of(ms));
    }
    write_ptl_heads(w, &heads, dflt, max_sub, n)?;
    w.align_to_byte();
    let ghost before = w@;
    let ghost hs = heads@;
    let ghost puts = put_ptl_bodies_item(hs);
    proof {
        reveal(put_ptl_bodies);
        reveal(ptl_bodies_can);
        assert(ys.take(0) =~= Seq::empty());
    }
    let mut i: usize = 0;
    while i < xs.len()
        invariant
            i <= xs@.len(),
            ms == seq_view(xs@),
            ys == bodies_of(ms),
            ys.len() == xs@.len(),
            hs == heads@,
            hs == heads_of(ms),
            puts == put_ptl_bodies_item(hs),
            w@ == put_rep(puts, before, ys.take(i as int)),
            forall|j: int| 0 <= j < i ==> ptl_body_can(#[trigger] ys[j], j as u64, hs),
        decreases xs@.len() - i,
    {
        proof {
            assert(ys.take(i + 1).drop_last() =~= ys.take(i as int));
            reveal(put_ptl_body);
            reveal(ptl_body_can);
        }
        let x: &VvcVpsPtl = &xs[i];
        assert(ys[i as int] == x.ptl@);
        match write_profile_tier_level(
            w,
            &x.ptl,
            x.vps_pt_present_flag != 0,
            x.vps_ptl_max_tid as u32,
        ) {
            Ok(()) => {},
            Err(e) => {
                proof {
                    reveal(vps_ptls_can);
                    reveal(ptl_bodies_can);
                    assert(!ptl_body_can(ys[i as int], i as u64, hs));
                }
                return Err(e);
            },
        }
        i = i + 1;
    }
    proof {
        assert(ys.take(i as int) =~= ys);
    }
    Ok(())
}

/// Writing what was read gives back the bits that were read.
pub broadcast proof fn law_put_vps_ptls_at(s: Seq<bool>, p: nat, dflt: u8, max_sub: u8, n: u64)
    ensures
        #[trigger] vps_ptls_at(s, p, dflt, max_sub, n) matches Ok((xs, q)) ==> {
            &&& xs.len() == n
            &&& vps_ptls_ok(xs, dflt, max_sub, n)
            &&& vps_ptls_can(xs, dflt, max_sub, n)
            &&& within(s, q) ==> within(s, p) && put_vps_ptls(upto(s, p), xs, dflt, max_sub, n)
                == upto(s, q)
        },
{
    broadcast use {
        crate::bits::group_write_read,
        law_put_ptl_heads_at,
        law_put_ptl_bodies_at,
    };

    reveal(vps_ptls_at);
    reveal(put_vps_ptls);
    reveal(vps_ptls_ok);
    reveal(vps_ptls_can);
    if let Ok((hs, q)) = ptl_heads_at(s, p, dflt, max_sub, n) {
        if let Ok(q) = align_at(s, q) {
            if let Ok((bs, _)) = ptl_bodies_at(s, q, hs, n) {
                assert(heads_of(ptl_slots(hs, bs)) =~= hs);
                assert(bodies_of(ptl_slots(hs, bs)) =~= bs);
            }
        }
    }
}

/// What was written reads back as the slots that were written.
pub broadcast proof fn law_pre_put_vps_ptls(
    a: Seq<bool>,
    xs: Seq<VvcVpsPtlModel>,
    dflt: u8,
    max_sub: u8,
    n: u64,
    s: Seq<bool>,
)
    requires
        #[trigger] pre(put_vps_ptls(a, xs, dflt, max_sub, n), s),
        vps_ptls_ok(xs, dflt, max_sub, n),
    ensures
        pre(a, s),
        vps_ptls_can(xs, dflt, max_sub, n),
        vps_ptls_at(s, a.len(), dflt, max_sub, n) == Ok::<(Seq<VvcVpsPtlModel>, nat), Fault>(
            (xs, put_vps_ptls(a, xs, dflt, max_sub, n).len()),
        ),
{
    broadcast use {
        crate::bits::group_read_written,
        law_pre_put_ptl_heads,
        law_pre_put_ptl_bodies,
    };

    reveal(vps_ptls_at);
    reveal(put_vps_ptls);
    reveal(vps_ptls_ok);
    reveal(vps_ptls_can);
    assert(ptl_slots(heads_of(xs), bodies_of(xs)) =~= xs);
}

// ─────────────────────────── DPB and timing blocks ───────────────────────────

/// The parameter index of OLS `i` at position `p`.
#[verifier::opaque]
pub open spec fn param_idx_at(s: Seq<bool>, p: nat, i: u64, last: u64, total: u64) -> Read<u32> {
    let coded = last > 0 && last + 1 != total;
    match ue_if(s, p, coded, (if last == 0 { 0u32 } else { i as u32 })) { Err(f) => Err(f), Ok((idx, p)) => {
    if !(!coded || idx as u64 <= last) { Err(Fault::Invalid) } else {
    Ok((idx, p)) }}}
}

/// The bits `a` followed by the parameter index of OLS `i`.
#[verifier::opaque]
pub open spec fn put_param_idx(a: Seq<bool>, x: u32, i: u64, last: u64, total: u64) -> Seq<bool> {
    let coded = last > 0 && last + 1 != total;
    let a = put_ue_if(a, x as nat, coded);
    a
}

/// The values of the parameter index of OLS `i` that reading can give.
#[verifier::opaque]
pub open spec fn param_idx_ok(x: u32, i: u64, last: u64, total: u64) -> bool {
    let coded = last > 0 && last + 1 != total;
    &&& if coded {
        x as u64 <= last && ue_fits(x as nat)
    } else {
        x == (if last == 0 { 0u32 } else { i as u32 })
    }
}

/// The values of the parameter index of OLS `i` that the writer accepts.
#[verifier::opaque]
pub open spec fn param_idx_can(x: u32, i: u64, last: u64, total: u64) -> bool {
    let coded = last > 0 && last + 1 != total;
    &&& if coded { x as u64 <= last } else { x == (if last == 0 { 0u32 } else { i as u32 }) }
    &&& coded ==> ue_fits(x as nat)
}

/// Parses the parameter index of OLS `i`.
fn parse_param_idx(
    r: &mut BitReader<'_>,
    i: u64,
    last: u64,
    total: u64,
    beyond: &str,
) -> (res: Result<u32, BitstreamError>)
    requires
        last <= 256,
    ensures
        read_is(param_idx_at(old(r).bits(), old(r).pos(), i, last, total), res, *old(r), *final(r)),
{
    proof {
        reveal(param_idx_at);
    }
    let coded: bool = last > 0 && last + 1 != total;
    let idx: u32 = r.ue_if(coded, (if last == 0 { 0u32 } else { i as u32 }))?;
    if !(!coded || idx as u64 <= last) {
        return Err(Message::new("").with(beyond).invalid());
    }
    Ok(idx)
}

/// Emits the parameter index of OLS `i`, the inverse of [`parse_param_idx`].
fn write_param_idx(
    w: &mut BitWriter,
    x: &u32,
    i: u64,
    last: u64,
    total: u64,
    beyond: &str,
    uncoded: &str,
) -> (res: Result<(), BitstreamError>)
    requires
        last <= 256,
    ensures
        write_is(
            param_idx_can(*x, i, last, total),
            put_param_idx(old(w)@, *x, i, last, total),
            res,
            final(w)@,
        ),
{
    proof {
        reveal(put_param_idx);
        reveal(param_idx_can);
    }
    let coded: bool = last > 0 && last + 1 != total;
    if !(if coded { (*x) as u64 <= last } else { (*x) == (if last == 0 { 0u32 } else { i as u32 }) }) {
        return Err(
            if coded {
                Message::new("").with(beyond).invalid()
            } else {
                Message::new("").with(uncoded).invalid()
            },
        );
    }
    w.write_ue_if(*x, coded)?;
    Ok(())
}

/// Writing the parameter index of OLS `i` gives back the bits it was read from.
pub broadcast proof fn law_put_param_idx_at(s: Seq<bool>, p: nat, i: u64, last: u64, total: u64)
    ensures
        #[trigger] param_idx_at(s, p, i, last, total) matches Ok((x, q)) ==> {
            &&& param_idx_ok(x, i, last, total)
            &&& param_idx_can(x, i, last, total)
            &&& within(s, q) ==> within(s, p) && put_param_idx(upto(s, p), x, i, last, total) == upto(s, q)
        },
{
    broadcast use crate::bits::group_write_read;

    reveal(param_idx_at);
    reveal(put_param_idx);
    reveal(param_idx_ok);
    reveal(param_idx_can);
}

/// Reading gives back the parameter index of OLS `i` as it was written.
pub broadcast proof fn law_pre_put_param_idx(
    a: Seq<bool>,
    x: u32,
    i: u64,
    last: u64,
    total: u64,
    s: Seq<bool>,
)
    requires
        #[trigger] pre(put_param_idx(a, x, i, last, total), s),
        param_idx_ok(x, i, last, total),
    ensures
        pre(a, s),
        param_idx_can(x, i, last, total),
        param_idx_at(s, a.len(), i, last, total) == Ok::<(u32, nat), Fault>(
            (x, put_param_idx(a, x, i, last, total).len()),
        ),
{
    broadcast use crate::bits::group_read_written;

    reveal(param_idx_at);
    reveal(put_param_idx);
    reveal(param_idx_ok);
    reveal(param_idx_can);
}

/// The layout of the parameter index of OLS `i`: reading at `p` gives `x` and
/// ends at `q` if and only if these elements stand there in this order, and the
/// values are allowed.
pub proof fn law_layout_param_idx(s: Seq<bool>, p: nat, i: u64, last: u64, total: u64, x: u32, q: nat)
    ensures
        param_idx_at(s, p, i, last, total) == Ok::<(u32, nat), Fault>((x, q)) <==> ({
            let coded = last > 0 && last + 1 != total;
            &&& cursor(s, p).ue_if(coded, x, (if last == 0 { 0u32 } else { i as u32 })).ends(q)
            &&& (!coded || x as u64 <= last)
        }),
{
    reveal(param_idx_at);
    reveal(ue_if);
}

/// Reading the parameter index of OLS `i` fails only with an error of this
/// class.
pub broadcast proof fn law_faults_param_idx(s: Seq<bool>, p: nat, i: u64, last: u64, total: u64)
    ensures
        #[trigger] param_idx_at(s, p, i, last, total) matches Err(f) ==> f == Fault::Invalid,
{
    broadcast use crate::bits::law_faults_ue;

    reveal(param_idx_at);
    reveal(ue_if);
}

/// What the writer accepts reads back: the parameter index of OLS `i`, where
/// each field fits its width and what is not coded has the value that is taken
/// for it.
pub proof fn law_reads_param_idx(a: Seq<bool>, x: u32, i: u64, last: u64, total: u64, s: Seq<bool>)
    requires
        param_idx_can(x, i, last, total),
        ({
            let coded = last > 0 && last + 1 != total;
            &&& (!coded ==> x == (if last == 0 { 0u32 } else { i as u32 }))
        }),
        pre(put_param_idx(a, x, i, last, total), s),
    ensures
        param_idx_at(s, a.len(), i, last, total) == Ok::<(u32, nat), Fault>(
            (x, put_param_idx(a, x, i, last, total).len()),
        ),
{
    assert(param_idx_ok(x, i, last, total)) by {
        broadcast use crate::bits::law_fits_small;

        reveal(param_idx_ok);
        reveal(param_idx_can);
    }
    law_pre_put_param_idx(a, x, i, last, total, s);
}

/// Reads the parameter index of OLS `i`, behind the items before it.
pub open spec fn param_idxs_item(s: Seq<bool>, last: u64, total: u64) -> spec_fn(Seq<u32>, nat) -> Read<u32> {
    |done: Seq<u32>, q: nat| param_idx_at(s, q, done.len() as u64, last, total)
}

/// Writes the parameter index of OLS `i`, behind the items before it.
pub open spec fn put_param_idxs_item(
    last: u64,
    total: u64,
) -> spec_fn(Seq<bool>, Seq<u32>, u32) -> Seq<bool> {
    |a: Seq<bool>, done: Seq<u32>, x: u32| put_param_idx(a, x, done.len() as u64, last, total)
}

/// Whether the parameter index of OLS `i` may follow the items before it.
pub open spec fn param_idxs_item_ok(last: u64, total: u64) -> spec_fn(Seq<u32>, u32) -> bool {
    |done: Seq<u32>, x: u32| param_idx_ok(x, done.len() as u64, last, total)
        && param_idx_can(x, done.len() as u64, last, total)
}

/// `n` items at position `p`, each the parameter index of OLS `i`.
#[verifier::opaque]
pub open spec fn param_idxs_at(s: Seq<bool>, p: nat, last: u64, total: u64, n: u64) -> Read<Seq<u32>> {
    rep_at(param_idxs_item(s, last, total), p, n as nat)
}

/// The bits `a` followed by the items.
#[verifier::opaque]
pub open spec fn put_param_idxs(a: Seq<bool>, xs: Seq<u32>, last: u64, total: u64, n: u64) -> Seq<bool> {
    put_rep(put_param_idxs_item(last, total), a, xs)
}

/// `n` items that reading can give.
#[verifier::opaque]
pub open spec fn param_idxs_ok(xs: Seq<u32>, last: u64, total: u64, n: u64) -> bool {
    xs.len() == n
        && forall|i: int| 0 <= i < xs.len()
        ==> param_idx_ok(#[trigger] xs[i], i as u64, last, total)
        && param_idx_can(xs[i], i as u64, last, total)
}

/// `n` items that the writer accepts.
#[verifier::opaque]
pub open spec fn param_idxs_can(xs: Seq<u32>, last: u64, total: u64, n: u64) -> bool {
    xs.len() == n
        && forall|i: int| 0 <= i < xs.len()
        ==> param_idx_can(#[trigger] xs[i], i as u64, last, total)
}

/// Parses `n` items, each the parameter index of OLS `i`.
fn parse_param_idxs(
    r: &mut BitReader<'_>,
    last: u64,
    total: u64,
    n: u64,
    beyond: &str,
) -> (res: Result<Vec<u32>, BitstreamError>)
    requires
        last <= 256,
    ensures
        read_vec_is(param_idxs_at(old(r).bits(), old(r).pos(), last, total, n), res, *old(r), *final(r)),
        res matches Ok(v) ==> v@.len() == n,
{
    let ghost s = r.bits();
    let ghost p = r.pos();
    let ghost reads = param_idxs_item(s, last, total);
    let mut xs: Vec<u32> = Vec::new();
    let mut i: u64 = 0;
    proof {
        reveal(param_idxs_at);
    }
    while i < n
        invariant
            i <= n,
            xs@.len() == i,
                last <= 256,
            reads == param_idxs_item(s, last, total),
            s == r.bits(),
            s == old(r).bits(),
            p == old(r).pos(),
            r.bytes() == old(r).bytes(),
            rep_at(reads, p, i as nat) == Ok::<(Seq<u32>, nat), Fault>((xs@, r.pos())),
        decreases n - i,
    {
        match parse_param_idx(r, i, last, total, beyond) {
            Ok(x) => {
                xs.push(x);
            },
            Err(e) => {
                proof {
                    reveal(param_idxs_at);
                    lemma_rep_err(reads, p, (i + 1) as nat, n as nat);
                }
                return Err(e);
            },
        }
        i = i + 1;
    }
    Ok(xs)
}

/// Emits `n` items, each the parameter index of OLS `i`.
fn write_param_idxs(
    w: &mut BitWriter,
    xs: &Vec<u32>,
    last: u64,
    total: u64,
    n: u64,
    beyond: &str,
    uncoded: &str,
    count_text: &str,
) -> (res: Result<(), BitstreamError>)
    requires
        last <= 256,
    ensures
        write_is(
            param_idxs_can(xs@, last, total, n),
            put_param_idxs(old(w)@, xs@, last, total, n),
            res,
            final(w)@,
        ),
        res is Ok ==> xs@.len() == n,
{
    let ghost before = w@;
    let ghost puts = put_param_idxs_item(last, total);
    let ghost ys = xs@;
    proof {
        reveal(put_param_idxs);
        reveal(param_idxs_can);
        assert(ys.take(0) =~= Seq::empty());
    }
    if xs.len() as u64 != n {
        return Err(Message::new("").with(count_text).invalid());
    }
    let mut i: usize = 0;
    while i < xs.len()
        invariant
            i <= xs@.len(),
            xs@.len() == n,
            ys == xs@,
            ys.len() == xs@.len(),
                last <= 256,
            before == old(w)@,
            puts == put_param_idxs_item(last, total),
            w@ == put_rep(puts, before, ys.take(i as int)),
            forall|j: int| 0 <= j < i ==> param_idx_can(#[trigger] ys[j], j as u64, last, total),
        ensures
            i == xs@.len(),
        decreases xs@.len() - i,
    {
        proof {
            assert(ys.take(i + 1).drop_last() =~= ys.take(i as int));
            assert(ys[i as int] == xs@[i as int]);
        }
        match write_param_idx(w, &xs[i], i as u64, last, total, beyond, uncoded) {
            Ok(()) => {},
            Err(e) => {
                proof {
                    reveal(param_idxs_can);
                }
                return Err(e);
            },
        }
        i = i + 1;
    }
    proof {
        assert(ys.take(i as int) =~= ys);
    }
    Ok(())
}

/// Writing what was read gives back the bits that were read.
pub broadcast proof fn law_put_param_idxs_at(s: Seq<bool>, p: nat, last: u64, total: u64, n: u64)
    ensures
        #[trigger] param_idxs_at(s, p, last, total, n) matches Ok((xs, q)) ==> {
            &&& xs.len() == n
            &&& param_idxs_ok(xs, last, total, n)
            &&& param_idxs_can(xs, last, total, n)
            &&& within(s, q) ==> within(s, p) && put_param_idxs(upto(s, p), xs, last, total, n) == upto(s, q)
        },
{
    broadcast use law_put_param_idx_at;

    reveal(param_idxs_at);
    reveal(put_param_idxs);
    reveal(param_idxs_ok);
    reveal(param_idxs_can);
    let ok = param_idxs_item_ok(last, total);
    law_put_rep_at(s, param_idxs_item(s, last, total), put_param_idxs_item(last, total), ok, p, n as nat);
    if let Ok((xs, q)) = param_idxs_at(s, p, last, total, n) {
        assert forall|i: int| 0 <= i < xs.len() implies ok(xs.take(i), #[trigger] xs[i]) by {}
    }
}

/// What was written reads back as the items that were written.
pub broadcast proof fn law_pre_put_param_idxs(
    a: Seq<bool>,
    xs: Seq<u32>,
    last: u64,
    total: u64,
    n: u64,
    s: Seq<bool>,
)
    requires
        #[trigger] pre(put_param_idxs(a, xs, last, total, n), s),
        param_idxs_ok(xs, last, total, n),
    ensures
        pre(a, s),
        param_idxs_can(xs, last, total, n),
        param_idxs_at(s, a.len(), last, total, n) == Ok::<(Seq<u32>, nat), Fault>(
            (xs, put_param_idxs(a, xs, last, total, n).len()),
        ),
{
    broadcast use law_pre_put_param_idx;

    reveal(param_idxs_at);
    reveal(put_param_idxs);
    reveal(param_idxs_ok);
    reveal(param_idxs_can);
    law_rep_at_put(
        s,
        param_idxs_item(s, last, total),
        put_param_idxs_item(last, total),
        param_idxs_item_ok(last, total),
        a,
        xs,
    );
}

/// `n` items stand one behind the other: `n - 1` items, and then the parameter
/// index of OLS `i`.
pub proof fn law_layout_param_idxs(s: Seq<bool>, p: nat, last: u64, total: u64, n: u64, xs: Seq<u32>, q: nat)
    ensures
        param_idxs_at(s, p, last, total, n) == Ok::<(Seq<u32>, nat), Fault>((xs, q)) <==> if n == 0 {
            xs.len() == 0 && q == p
        } else {
            &&& xs.len() == n
            &&& cursor(s, p)
                .part(|p: nat| param_idxs_at(s, p, last, total, (n - 1) as u64), xs.drop_last())
                .part(|p: nat| param_idx_at(s, p, (n - 1) as u64, last, total), xs.last())
                .ends(q)
        },
{
    reveal(param_idxs_at);
    lemma_rep_step(param_idxs_item(s, last, total), p, n as nat);
    if xs.len() == 0 {
        assert(xs =~= Seq::empty());
    } else {
        assert(xs =~= xs.drop_last().push(xs.last()));
    }
    if n > 0 {
        if let Ok((done, r)) = rep_at(param_idxs_item(s, last, total), p, (n - 1) as nat) {
            if let Ok((y, z)) = param_idxs_item(s, last, total)(done, r) {
                assert(done.push(y).drop_last() =~= done);
            }
        }
    }
}

/// What the writer accepts as `n` items reads back, where each of them is one that
/// reading can give.
pub proof fn law_reads_param_idxs(a: Seq<bool>, xs: Seq<u32>, last: u64, total: u64, n: u64, s: Seq<bool>)
    requires
        param_idxs_can(xs, last, total, n),
        forall|i: int| 0 <= i < xs.len() ==> param_idx_ok(#[trigger] xs[i], i as u64, last, total),
        pre(put_param_idxs(a, xs, last, total, n), s),
    ensures
        xs.len() == n,
        param_idxs_at(s, a.len(), last, total, n) == Ok::<(Seq<u32>, nat), Fault>(
            (xs, put_param_idxs(a, xs, last, total, n).len()),
        ),
{
    reveal(param_idxs_can);
    assert(param_idxs_ok(xs, last, total, n)) by {
        reveal(param_idxs_ok);
    }
    law_pre_put_param_idxs(a, xs, last, total, n, s);
}

/// Reading the items fails only with an error of this class.
pub broadcast proof fn law_faults_param_idxs(s: Seq<bool>, p: nat, last: u64, total: u64, n: u64)
    ensures
        #[trigger] param_idxs_at(s, p, last, total, n) matches Err(f) ==> f == Fault::Invalid,
{
    broadcast use law_faults_param_idx;

    reveal(param_idxs_at);
    let f = param_idxs_item(s, last, total);
    assert forall|done: Seq<u32>, q: nat| (#[trigger] f(done, q)) matches Err(e) ==> e == Fault::Invalid by {}
    lemma_rep_faults(f, p, n as nat, |f: Fault| f == Fault::Invalid);
}

/// One `dpb_parameters()` slot in the VPS (§7.3.2.3).
#[derive(Debug, Clone, PartialEq, Eq, Default)]
pub struct VvcVpsDpb {
    /// `vps_dpb_max_tid[i]` u(3) — coded only when
    /// `!vps_default_ptl_dpb_hrd_max_tid_flag`; inferred
    /// `vps_max_sublayers_minus1`.
    pub vps_dpb_max_tid: u8,
    /// `dpb_parameters(vps_dpb_max_tid[i],
    /// vps_sublayer_dpb_params_present_flag)`.
    pub dpb: VvcDpbParameters,
}

/// The mathematical model of a [`VvcVpsDpb`].
pub struct VvcVpsDpbModel {
    pub vps_dpb_max_tid: u8,
    pub dpb: VvcDpbParametersModel,
}

impl View for VvcVpsDpb {
    type V = VvcVpsDpbModel;

    open spec fn view(&self) -> VvcVpsDpbModel {
        VvcVpsDpbModel {
            vps_dpb_max_tid: self.vps_dpb_max_tid,
            dpb: self.dpb@,
        }
    }
}

/// One DPB slot at position `p`.
#[verifier::opaque]
pub open spec fn vps_dpb_at(
    s: Seq<bool>,
    p: nat,
    dflt: u8,
    max_sub: u8,
    sublayer_params: bool,
) -> Read<VvcVpsDpbModel> {
    let vps_dpb_max_tid = u8_if(s, p, 3, dflt == 0, max_sub);
    let p = adv_if(p, 3, dflt == 0);
    if vps_dpb_max_tid > max_sub { Err(Fault::Invalid) } else {
    match dpb_parameters_at(s, p, vps_dpb_max_tid as u32, sublayer_params)
    { Err(f) => Err(f), Ok((dpb, p)) => {
    Ok((VvcVpsDpbModel { vps_dpb_max_tid, dpb }, p))
    }}}
}

/// The bits `a` followed by one DPB slot.
#[verifier::opaque]
pub open spec fn put_vps_dpb(
    a: Seq<bool>,
    x: VvcVpsDpbModel,
    dflt: u8,
    max_sub: u8,
    sublayer_params: bool,
) -> Seq<bool> {
    let a = put_u_if(a, x.vps_dpb_max_tid as nat, 3, dflt == 0);
    let a = put_dpb_parameters(a, x.dpb, x.vps_dpb_max_tid as u32, sublayer_params);
    a
}

/// The values of one DPB slot that reading can give.
#[verifier::opaque]
pub open spec fn vps_dpb_ok(x: VvcVpsDpbModel, dflt: u8, max_sub: u8, sublayer_params: bool) -> bool {
    &&& if dflt == 0 {
        fits(x.vps_dpb_max_tid as nat, 3) && x.vps_dpb_max_tid <= max_sub
    } else {
        x.vps_dpb_max_tid == max_sub
    }
    &&& dpb_parameters_ok(x.dpb, x.vps_dpb_max_tid as u32, sublayer_params)
}

/// The values of one DPB slot that the writer accepts.
#[verifier::opaque]
pub open spec fn vps_dpb_can(x: VvcVpsDpbModel, dflt: u8, max_sub: u8, sublayer_params: bool) -> bool {
    &&& if dflt == 0 { x.vps_dpb_max_tid <= max_sub } else { x.vps_dpb_max_tid == max_sub }
    &&& dpb_parameters_can(x.dpb, x.vps_dpb_max_tid as u32, sublayer_params)
}

/// Parses one DPB slot.
fn parse_vps_dpb(
    r: &mut BitReader<'_>,
    dflt: u8,
    max_sub: u8,
    sublayer_params: bool,
) -> (res: Result<VvcVpsDpb, BitstreamError>)
    ensures
        read_view_is(
            vps_dpb_at(old(r).bits(), old(r).pos(), dflt, max_sub, sublayer_params),
            res,
            *old(r),
            *final(r),
        ),
{
    proof {
        reveal(vps_dpb_at);
    }
    let vps_dpb_max_tid: u8 = r.u8_if(3, dflt == 0, max_sub);
    if vps_dpb_max_tid > max_sub {
        return Err(BitstreamError::invalid("vps_dpb_max_tid exceeds vps_max_sublayers_minus1 (7.4.3.3)"));
    }
    let dpb = parse_dpb_parameters(r, vps_dpb_max_tid as u32, sublayer_params)?;
    Ok(VvcVpsDpb { vps_dpb_max_tid, dpb })
}

/// Emits one DPB slot, the inverse of [`parse_vps_dpb`].
fn write_vps_dpb(
    w: &mut BitWriter,
    x: &VvcVpsDpb,
    dflt: u8,
    max_sub: u8,
    sublayer_params: bool,
) -> (res: Result<(), BitstreamError>)
    ensures
        write_is(
            vps_dpb_can(x@, dflt, max_sub, sublayer_params),
            put_vps_dpb(old(w)@, x@, dflt, max_sub, sublayer_params),
            res,
            final(w)@,
        ),
{
    proof {
        reveal(put_vps_dpb);
        reveal(vps_dpb_can);
    }
    w.write_bits_if(x.vps_dpb_max_tid as u32, 3, dflt == 0);
    if !(if dflt == 0 { x.vps_dpb_max_tid <= max_sub } else { x.vps_dpb_max_tid == max_sub }) {
        return Err(
            if dflt == 0 {
                BitstreamError::invalid("vps_dpb_max_tid exceeds vps_max_sublayers_minus1 (7.4.3.3)")
            } else {
                BitstreamError::invalid("uncoded vps_dpb_max_tid must carry its inferred value (7.4.3.3)")
            },
        );
    }
    write_dpb_parameters(w, &x.dpb, x.vps_dpb_max_tid as u32, sublayer_params)?;
    Ok(())
}

/// Writing one DPB slot gives back the bits it was read from.
pub broadcast proof fn law_put_vps_dpb_at(s: Seq<bool>, p: nat, dflt: u8, max_sub: u8, sublayer_params: bool)
    ensures
        #[trigger] vps_dpb_at(s, p, dflt, max_sub, sublayer_params) matches Ok((x, q)) ==> {
            &&& vps_dpb_ok(x, dflt, max_sub, sublayer_params)
            &&& vps_dpb_can(x, dflt, max_sub, sublayer_params)
            &&& within(s, q)
                ==> within(s, p)
                && put_vps_dpb(upto(s, p), x, dflt, max_sub, sublayer_params) == upto(s, q)
        },
{
    broadcast use {crate::bits::group_write_read, law_put_dpb_parameters_at};

    reveal(vps_dpb_at);
    reveal(put_vps_dpb);
    reveal(vps_dpb_ok);
    reveal(vps_dpb_can);
}

/// Reading gives back one DPB slot as it was written.
pub broadcast proof fn law_pre_put_vps_dpb(
    a: Seq<bool>,
    x: VvcVpsDpbModel,
    dflt: u8,
    max_sub: u8,
    sublayer_params: bool,
    s: Seq<bool>,
)
    requires
        #[trigger] pre(put_vps_dpb(a, x, dflt, max_sub, sublayer_params), s),
        vps_dpb_ok(x, dflt, max_sub, sublayer_params),
    ensures
        pre(a, s),
        vps_dpb_can(x, dflt, max_sub, sublayer_params),
        vps_dpb_at(s, a.len(), dflt, max_sub, sublayer_params) == Ok::<(VvcVpsDpbModel, nat), Fault>(
            (x, put_vps_dpb(a, x, dflt, max_sub, sublayer_params).len()),
        ),
{
    broadcast use {crate::bits::group_read_written, law_pre_put_dpb_parameters};

    reveal(vps_dpb_at);
    reveal(put_vps_dpb);
    reveal(vps_dpb_ok);
    reveal(vps_dpb_can);
}

/// The layout of one DPB slot: reading at `p` gives `x` and ends at `q` if and
/// only if these elements stand there in this order, and the values are
/// allowed.
pub proof fn law_layout_vps_dpb(
    s: Seq<bool>,
    p: nat,
    dflt: u8,
    max_sub: u8,
    sublayer_params: bool,
    x: VvcVpsDpbModel,
    q: nat,
)
    ensures
        vps_dpb_at(s, p, dflt, max_sub, sublayer_params) == Ok::<(VvcVpsDpbModel, nat), Fault>((x, q)) <==> ({
            &&& cursor(s, p)
                .u8_if(dflt == 0, 3, x.vps_dpb_max_tid, max_sub)
                .part(|p: nat| dpb_parameters_at(s, p, x.vps_dpb_max_tid as u32, sublayer_params), x.dpb)
                .ends(q)
            &&& x.vps_dpb_max_tid <= max_sub
        }),
{
    reveal(vps_dpb_at);
    reveal(adv_if);
    reveal(u8_if);
}

/// Reading one DPB slot fails only with an error of this class.
pub broadcast proof fn law_faults_vps_dpb(s: Seq<bool>, p: nat, dflt: u8, max_sub: u8, sublayer_params: bool)
    ensures
        #[trigger] vps_dpb_at(s, p, dflt, max_sub, sublayer_params) matches Err(f) ==> f == Fault::Invalid,
{
    broadcast use law_faults_dpb_parameters;

    reveal(vps_dpb_at);
}

/// What the writer accepts reads back: one DPB slot, where each field fits its
/// width and what is not coded has the value that is taken for it.
pub proof fn law_reads_vps_dpb(
    a: Seq<bool>,
    x: VvcVpsDpbModel,
    dflt: u8,
    max_sub: u8,
    sublayer_params: bool,
    s: Seq<bool>,
)
    requires
        vps_dpb_can(x, dflt, max_sub, sublayer_params),
        if dflt == 0 { fits(x.vps_dpb_max_tid as nat, 3) } else { x.vps_dpb_max_tid == max_sub },
        dpb_parameters_ok(x.dpb, x.vps_dpb_max_tid as u32, sublayer_params),
        pre(put_vps_dpb(a, x, dflt, max_sub, sublayer_params), s),
    ensures
        vps_dpb_at(s, a.len(), dflt, max_sub, sublayer_params) == Ok::<(VvcVpsDpbModel, nat), Fault>(
            (x, put_vps_dpb(a, x, dflt, max_sub, sublayer_params).len()),
        ),
{
    assert(vps_dpb_ok(x, dflt, max_sub, sublayer_params)) by {
        broadcast use crate::bits::law_fits_small;

        reveal(vps_dpb_ok);
        reveal(vps_dpb_can);
    }
    law_pre_put_vps_dpb(a, x, dflt, max_sub, sublayer_params, s);
}

/// Each field of the model of a [`VvcVpsDpb`] is the field of that name.
pub proof fn law_view_vps_dpb(x: VvcVpsDpb)
    ensures
        x@.vps_dpb_max_tid == x.vps_dpb_max_tid,
        x@.dpb == x.dpb@,
{
}

/// Reads one DPB slot, behind the items before it.
pub open spec fn vps_dpbs_item(
    s: Seq<bool>,
    dflt: u8,
    max_sub: u8,
    sublayer_params: bool,
) -> spec_fn(Seq<VvcVpsDpbModel>, nat) -> Read<VvcVpsDpbModel> {
    |done: Seq<VvcVpsDpbModel>, q: nat| vps_dpb_at(s, q, dflt, max_sub, sublayer_params)
}

/// Writes one DPB slot, behind the items before it.
pub open spec fn put_vps_dpbs_item(
    dflt: u8,
    max_sub: u8,
    sublayer_params: bool,
) -> spec_fn(Seq<bool>, Seq<VvcVpsDpbModel>, VvcVpsDpbModel) -> Seq<bool> {
    |a: Seq<bool>, done: Seq<VvcVpsDpbModel>, x: VvcVpsDpbModel| put_vps_dpb(
        a,
        x,
        dflt,
        max_sub,
        sublayer_params,
    )
}

/// Whether one DPB slot may follow the items before it.
pub open spec fn vps_dpbs_item_ok(
    dflt: u8,
    max_sub: u8,
    sublayer_params: bool,
) -> spec_fn(Seq<VvcVpsDpbModel>, VvcVpsDpbModel) -> bool {
    |done: Seq<VvcVpsDpbModel>, x: VvcVpsDpbModel| vps_dpb_ok(x, dflt, max_sub, sublayer_params)
        && vps_dpb_can(x, dflt, max_sub, sublayer_params)
}

/// `n` items at position `p`, each one DPB slot.
#[verifier::opaque]
pub open spec fn vps_dpbs_at(
    s: Seq<bool>,
    p: nat,
    dflt: u8,
    max_sub: u8,
    sublayer_params: bool,
    n: u64,
) -> Read<Seq<VvcVpsDpbModel>> {
    rep_at(vps_dpbs_item(s, dflt, max_sub, sublayer_params), p, n as nat)
}

/// The bits `a` followed by the items.
#[verifier::opaque]
pub open spec fn put_vps_dpbs(
    a: Seq<bool>,
    xs: Seq<VvcVpsDpbModel>,
    dflt: u8,
    max_sub: u8,
    sublayer_params: bool,
    n: u64,
) -> Seq<bool> {
    put_rep(put_vps_dpbs_item(dflt, max_sub, sublayer_params), a, xs)
}

/// `n` items that reading can give.
#[verifier::opaque]
pub open spec fn vps_dpbs_ok(
    xs: Seq<VvcVpsDpbModel>,
    dflt: u8,
    max_sub: u8,
    sublayer_params: bool,
    n: u64,
) -> bool {
    xs.len() == n
        && forall|i: int| 0 <= i < xs.len()
        ==> vps_dpb_ok(#[trigger] xs[i], dflt, max_sub, sublayer_params)
        && vps_dpb_can(xs[i], dflt, max_sub, sublayer_params)
}

/// `n` items that the writer accepts.
#[verifier::opaque]
pub open spec fn vps_dpbs_can(
    xs: Seq<VvcVpsDpbModel>,
    dflt: u8,
    max_sub: u8,
    sublayer_params: bool,
    n: u64,
) -> bool {
    xs.len() == n
        && forall|i: int| 0 <= i < xs.len()
        ==> vps_dpb_can(#[trigger] xs[i], dflt, max_sub, sublayer_params)
}

/// Parses `n` items, each one DPB slot.
fn parse_vps_dpbs(
    r: &mut BitReader<'_>,
    dflt: u8,
    max_sub: u8,
    sublayer_params: bool,
    n: u64,
) -> (res: Result<Vec<VvcVpsDpb>, BitstreamError>)
    ensures
        read_seq_is(
            vps_dpbs_at(old(r).bits(), old(r).pos(), dflt, max_sub, sublayer_params, n),
            res,
            *old(r),
            *final(r),
        ),
        res matches Ok(v) ==> v@.len() == n,
{
    let ghost s = r.bits();
    let ghost p = r.pos();
    let ghost reads = vps_dpbs_item(s, dflt, max_sub, sublayer_params);
    let mut xs: Vec<VvcVpsDpb> = Vec::new();
    let mut i: u64 = 0;
    proof {
        reveal(vps_dpbs_at);
        assert(seq_view(xs@) =~= Seq::empty());
    }
    while i < n
        invariant
            i <= n,
            xs@.len() == i,
            reads == vps_dpbs_item(s, dflt, max_sub, sublayer_params),
            s == r.bits(),
            s == old(r).bits(),
            p == old(r).pos(),
            r.bytes() == old(r).bytes(),
            rep_at(reads, p, i as nat) == Ok::<(Seq<VvcVpsDpbModel>, nat), Fault>((seq_view(xs@), r.pos())),
        decreases n - i,
    {
        match parse_vps_dpb(r, dflt, max_sub, sublayer_params) {
            Ok(x) => {
                proof {
                lemma_seq_view_push(xs@, x);
            }
            xs.push(x);
            },
            Err(e) => {
                proof {
                    reveal(vps_dpbs_at);
                    lemma_rep_err(reads, p, (i + 1) as nat, n as nat);
                }
                return Err(e);
            },
        }
        i = i + 1;
    }
    Ok(xs)
}

/// Emits `n` items, each one DPB slot.
fn write_vps_dpbs(
    w: &mut BitWriter,
    xs: &Vec<VvcVpsDpb>,
    dflt: u8,
    max_sub: u8,
    sublayer_params: bool,
    n: u64,
) -> (res: Result<(), BitstreamError>)
    ensures
        write_is(
            vps_dpbs_can(seq_view(xs@), dflt, max_sub, sublayer_params, n),
            put_vps_dpbs(old(w)@, seq_view(xs@), dflt, max_sub, sublayer_params, n),
            res,
            final(w)@,
        ),
        res is Ok ==> xs@.len() == n,
{
    let ghost before = w@;
    let ghost puts = put_vps_dpbs_item(dflt, max_sub, sublayer_params);
    let ghost ys = seq_view(xs@);
    proof {
        reveal(put_vps_dpbs);
        reveal(vps_dpbs_can);
        assert(ys.take(0) =~= Seq::empty());
    }
    if xs.len() as u64 != n {
        return Err(
            BitstreamError::invalid(
                "DPB / timing-HRD blocks require a multi-layer OLS configuration (7.3.2.3)",
            ),
        );
    }
    let mut i: usize = 0;
    while i < xs.len()
        invariant
            i <= xs@.len(),
            xs@.len() == n,
            ys == seq_view(xs@),
            ys.len() == xs@.len(),
            before == old(w)@,
            puts == put_vps_dpbs_item(dflt, max_sub, sublayer_params),
            w@ == put_rep(puts, before, ys.take(i as int)),
            forall|j: int| 0 <= j < i ==> vps_dpb_can(#[trigger] ys[j], dflt, max_sub, sublayer_params),
        ensures
            i == xs@.len(),
        decreases xs@.len() - i,
    {
        proof {
            assert(ys.take(i + 1).drop_last() =~= ys.take(i as int));
            assert(ys[i as int] == xs@[i as int]@);
        }
        match write_vps_dpb(w, &xs[i], dflt, max_sub, sublayer_params) {
            Ok(()) => {},
            Err(e) => {
                proof {
                    reveal(vps_dpbs_can);
                }
                return Err(e);
            },
        }
        i = i + 1;
    }
    proof {
        assert(ys.take(i as int) =~= ys);
    }
    Ok(())
}

/// Writing what was read gives back the bits that were read.
pub broadcast proof fn law_put_vps_dpbs_at(
    s: Seq<bool>,
    p: nat,
    dflt: u8,
    max_sub: u8,
    sublayer_params: bool,
    n: u64,
)
    ensures
        #[trigger] vps_dpbs_at(s, p, dflt, max_sub, sublayer_params, n) matches Ok((xs, q)) ==> {
            &&& xs.len() == n
            &&& vps_dpbs_ok(xs, dflt, max_sub, sublayer_params, n)
            &&& vps_dpbs_can(xs, dflt, max_sub, sublayer_params, n)
            &&& within(s, q)
                ==> within(s, p)
                && put_vps_dpbs(upto(s, p), xs, dflt, max_sub, sublayer_params, n) == upto(s, q)
        },
{
    broadcast use law_put_vps_dpb_at;

    reveal(vps_dpbs_at);
    reveal(put_vps_dpbs);
    reveal(vps_dpbs_ok);
    reveal(vps_dpbs_can);
    let ok = vps_dpbs_item_ok(dflt, max_sub, sublayer_params);
    law_put_rep_at(
        s,
        vps_dpbs_item(s, dflt, max_sub, sublayer_params),
        put_vps_dpbs_item(dflt, max_sub, sublayer_params),
        ok,
        p,
        n as nat,
    );
    if let Ok((xs, q)) = vps_dpbs_at(s, p, dflt, max_sub, sublayer_params, n) {
        assert forall|i: int| 0 <= i < xs.len() implies ok(xs.take(i), #[trigger] xs[i]) by {}
    }
}

/// What was written reads back as the items that were written.
pub broadcast proof fn law_pre_put_vps_dpbs(
    a: Seq<bool>,
    xs: Seq<VvcVpsDpbModel>,
    dflt: u8,
    max_sub: u8,
    sublayer_params: bool,
    n: u64,
    s: Seq<bool>,
)
    requires
        #[trigger] pre(put_vps_dpbs(a, xs, dflt, max_sub, sublayer_params, n), s),
        vps_dpbs_ok(xs, dflt, max_sub, sublayer_params, n),
    ensures
        pre(a, s),
        vps_dpbs_can(xs, dflt, max_sub, sublayer_params, n),
        vps_dpbs_at(s, a.len(), dflt, max_sub, sublayer_params, n) == Ok::<(Seq<VvcVpsDpbModel>, nat), Fault>(
            (xs, put_vps_dpbs(a, xs, dflt, max_sub, sublayer_params, n).len()),
        ),
{
    broadcast use law_pre_put_vps_dpb;

    reveal(vps_dpbs_at);
    reveal(put_vps_dpbs);
    reveal(vps_dpbs_ok);
    reveal(vps_dpbs_can);
    law_rep_at_put(
        s,
        vps_dpbs_item(s, dflt, max_sub, sublayer_params),
        put_vps_dpbs_item(dflt, max_sub, sublayer_params),
        vps_dpbs_item_ok(dflt, max_sub, sublayer_params),
        a,
        xs,
    );
}

/// `n` items stand one behind the other: `n - 1` items, and then one DPB slot.
pub proof fn law_layout_vps_dpbs(
    s: Seq<bool>,
    p: nat,
    dflt: u8,
    max_sub: u8,
    sublayer_params: bool,
    n: u64,
    xs: Seq<VvcVpsDpbModel>,
    q: nat,
)
    ensures
        vps_dpbs_at(s, p, dflt, max_sub, sublayer_params, n) == Ok::<(Seq<VvcVpsDpbModel>, nat), Fault>((xs, q)) <==> if n == 0 {
            xs.len() == 0 && q == p
        } else {
            &&& xs.len() == n
            &&& cursor(s, p)
                .part(
                    |p: nat| vps_dpbs_at(s, p, dflt, max_sub, sublayer_params, (n - 1) as u64),
                    xs.drop_last(),
                )
                .part(|p: nat| vps_dpb_at(s, p, dflt, max_sub, sublayer_params), xs.last())
                .ends(q)
        },
{
    reveal(vps_dpbs_at);
    lemma_rep_step(vps_dpbs_item(s, dflt, max_sub, sublayer_params), p, n as nat);
    if xs.len() == 0 {
        assert(xs =~= Seq::empty());
    } else {
        assert(xs =~= xs.drop_last().push(xs.last()));
    }
    if n > 0 {
        if let Ok((done, r)) = rep_at(vps_dpbs_item(s, dflt, max_sub, sublayer_params), p, (n - 1) as nat) {
            if let Ok((y, z)) = vps_dpbs_item(s, dflt, max_sub, sublayer_params)(done, r) {
                assert(done.push(y).drop_last() =~= done);
            }
        }
    }
}

/// What the writer accepts as `n` items reads back, where each of them is one that
/// reading can give.
pub proof fn law_reads_vps_dpbs(
    a: Seq<bool>,
    xs: Seq<VvcVpsDpbModel>,
    dflt: u8,
    max_sub: u8,
    sublayer_params: bool,
    n: u64,
    s: Seq<bool>,
)
    requires
        vps_dpbs_can(xs, dflt, max_sub, sublayer_params, n),
        forall|i: int| 0 <= i < xs.len() ==> vps_dpb_ok(#[trigger] xs[i], dflt, max_sub, sublayer_params),
        pre(put_vps_dpbs(a, xs, dflt, max_sub, sublayer_params, n), s),
    ensures
        xs.len() == n,
        vps_dpbs_at(s, a.len(), dflt, max_sub, sublayer_params, n) == Ok::<(Seq<VvcVpsDpbModel>, nat), Fault>(
            (xs, put_vps_dpbs(a, xs, dflt, max_sub, sublayer_params, n).len()),
        ),
{
    reveal(vps_dpbs_can);
    assert(vps_dpbs_ok(xs, dflt, max_sub, sublayer_params, n)) by {
        reveal(vps_dpbs_ok);
    }
    law_pre_put_vps_dpbs(a, xs, dflt, max_sub, sublayer_params, n, s);
}

/// Reading the items fails only with an error of this class.
pub broadcast proof fn law_faults_vps_dpbs(
    s: Seq<bool>,
    p: nat,
    dflt: u8,
    max_sub: u8,
    sublayer_params: bool,
    n: u64,
)
    ensures
        #[trigger] vps_dpbs_at(s, p, dflt, max_sub, sublayer_params, n) matches Err(f)
            ==> f == Fault::Invalid,
{
    broadcast use law_faults_vps_dpb;

    reveal(vps_dpbs_at);
    let f = vps_dpbs_item(s, dflt, max_sub, sublayer_params);
    assert forall|done: Seq<VvcVpsDpbModel>, q: nat| (#[trigger] f(done, q)) matches Err(e)
        ==> e == Fault::Invalid by {}
    lemma_rep_faults(f, p, n as nat, |f: Fault| f == Fault::Invalid);
}

/// Per-multi-layer-OLS DPB sizing (§7.3.2.3).
#[derive(Debug, Clone, PartialEq, Eq, Default)]
pub struct VvcVpsOlsDpb {
    /// `vps_ols_dpb_pic_width[i]` ue(v).
    pub vps_ols_dpb_pic_width: u32,
    /// `vps_ols_dpb_pic_height[i]` ue(v).
    pub vps_ols_dpb_pic_height: u32,
    /// `vps_ols_dpb_chroma_format[i]` u(2).
    pub vps_ols_dpb_chroma_format: u8,
    /// `vps_ols_dpb_bitdepth_minus8[i]` ue(v) — 0..=8.
    pub vps_ols_dpb_bitdepth_minus8: u32,
    /// `vps_ols_dpb_params_idx[i]` ue(v) — coded only when
    /// `VpsNumDpbParams > 1` and `!= NumMultiLayerOlss`; inferred 0
    /// (one DPB set) or `i` (one per OLS). Range
    /// 0..`VpsNumDpbParams`.
    pub vps_ols_dpb_params_idx: u32,
}

/// The DPB sizing of multi-layer OLS `i` at position `p`.
#[verifier::opaque]
pub open spec fn ols_dpb_at(s: Seq<bool>, p: nat, i: u64, last: u64, total: u64) -> Read<VvcVpsOlsDpb> {
    match ue_at(s, p) { Err(f) => Err(f), Ok((vps_ols_dpb_pic_width, p)) => {
    match ue_at(s, p) { Err(f) => Err(f), Ok((vps_ols_dpb_pic_height, p)) => {
    let vps_ols_dpb_chroma_format = u8_at(s, p, 2);
    let p = adv(p, 2);
    match ue_at(s, p) { Err(f) => Err(f), Ok((vps_ols_dpb_bitdepth_minus8, p)) => {
    if vps_ols_dpb_bitdepth_minus8 > 8 { Err(Fault::Invalid) } else {
    match param_idx_at(s, p, i, last, total) { Err(f) => Err(f), Ok((vps_ols_dpb_params_idx, p)) => {
    Ok((
        VvcVpsOlsDpb {
            vps_ols_dpb_pic_width,
            vps_ols_dpb_pic_height,
            vps_ols_dpb_chroma_format,
            vps_ols_dpb_bitdepth_minus8,
            vps_ols_dpb_params_idx,
        },
        p,
    ))
    }}}}}}}}}
}

/// The bits `a` followed by the DPB sizing of multi-layer OLS `i`.
#[verifier::opaque]
pub open spec fn put_ols_dpb(a: Seq<bool>, x: VvcVpsOlsDpb, i: u64, last: u64, total: u64) -> Seq<bool> {
    let a = put_ue(a, x.vps_ols_dpb_pic_width as nat);
    let a = put_ue(a, x.vps_ols_dpb_pic_height as nat);
    let a = put_u(a, x.vps_ols_dpb_chroma_format as nat, 2);
    let a = put_ue(a, x.vps_ols_dpb_bitdepth_minus8 as nat);
    let a = put_param_idx(a, x.vps_ols_dpb_params_idx, i, last, total);
    a
}

/// The values of the DPB sizing of multi-layer OLS `i` that reading can give.
#[verifier::opaque]
pub open spec fn ols_dpb_ok(x: VvcVpsOlsDpb, i: u64, last: u64, total: u64) -> bool {
    &&& ue_fits(x.vps_ols_dpb_pic_width as nat)
    &&& ue_fits(x.vps_ols_dpb_pic_height as nat)
    &&& fits(x.vps_ols_dpb_chroma_format as nat, 2)
    &&& x.vps_ols_dpb_bitdepth_minus8 <= 8
    &&& param_idx_ok(x.vps_ols_dpb_params_idx, i, last, total)
}

/// The values of the DPB sizing of multi-layer OLS `i` that the writer accepts.
#[verifier::opaque]
pub open spec fn ols_dpb_can(x: VvcVpsOlsDpb, i: u64, last: u64, total: u64) -> bool {
    &&& ue_fits(x.vps_ols_dpb_pic_width as nat)
    &&& ue_fits(x.vps_ols_dpb_pic_height as nat)
    &&& x.vps_ols_dpb_bitdepth_minus8 <= 8
    &&& param_idx_can(x.vps_ols_dpb_params_idx, i, last, total)
}

/// Parses the DPB sizing of multi-layer OLS `i`.
fn parse_ols_dpb(
    r: &mut BitReader<'_>,
    i: u64,
    last: u64,
    total: u64,
) -> (res: Result<VvcVpsOlsDpb, BitstreamError>)
    requires
        last <= 256,
    ensures
        read_is(ols_dpb_at(old(r).bits(), old(r).pos(), i, last, total), res, *old(r), *final(r)),
{
    proof {
        reveal(ols_dpb_at);
    }
    let vps_ols_dpb_pic_width: u32 = r.ue()?;
    let vps_ols_dpb_pic_height: u32 = r.ue()?;
    let vps_ols_dpb_chroma_format: u8 = r.u8(2);
    let vps_ols_dpb_bitdepth_minus8: u32 = r.ue()?;
    if vps_ols_dpb_bitdepth_minus8 > 8 {
        return Err(BitstreamError::invalid("vps_ols_dpb_bitdepth_minus8 > 8 (BitDepth ≤ 16)"));
    }
    let vps_ols_dpb_params_idx = parse_param_idx(
        r,
        i,
        last,
        total,
        "vps_ols_dpb_params_idx exceeds VpsNumDpbParams - 1 (7.4.3.3)",
    )?;
    Ok(
        VvcVpsOlsDpb {
            vps_ols_dpb_pic_width,
            vps_ols_dpb_pic_height,
            vps_ols_dpb_chroma_format,
            vps_ols_dpb_bitdepth_minus8,
            vps_ols_dpb_params_idx,
        },
    )
}

/// Emits the DPB sizing of multi-layer OLS `i`, the inverse of [`parse_ols_dpb`].
fn write_ols_dpb(
    w: &mut BitWriter,
    x: &VvcVpsOlsDpb,
    i: u64,
    last: u64,
    total: u64,
) -> (res: Result<(), BitstreamError>)
    requires
        last <= 256,
    ensures
        write_is(ols_dpb_can(*x, i, last, total), put_ols_dpb(old(w)@, *x, i, last, total), res, final(w)@),
{
    proof {
        reveal(put_ols_dpb);
        reveal(ols_dpb_can);
    }
    w.write_ue(x.vps_ols_dpb_pic_width)?;
    w.write_ue(x.vps_ols_dpb_pic_height)?;
    w.write_bits(x.vps_ols_dpb_chroma_format as u32, 2);
    w.write_ue(x.vps_ols_dpb_bitdepth_minus8)?;
    if x.vps_ols_dpb_bitdepth_minus8 > 8 {
        return Err(BitstreamError::invalid("vps_ols_dpb_bitdepth_minus8 > 8 (BitDepth ≤ 16)"));
    }
    write_param_idx(
        w,
        &x.vps_ols_dpb_params_idx,
        i,
        last,
        total,
        "vps_ols_dpb_params_idx exceeds VpsNumDpbParams - 1 (7.4.3.3)",
        "uncoded vps_ols_dpb_params_idx must carry its inferred value (7.4.3.3)",
    )?;
    Ok(())
}

/// Writing the DPB sizing of multi-layer OLS `i` gives back the bits it was
/// read from.
pub broadcast proof fn law_put_ols_dpb_at(s: Seq<bool>, p: nat, i: u64, last: u64, total: u64)
    ensures
        #[trigger] ols_dpb_at(s, p, i, last, total) matches Ok((x, q)) ==> {
            &&& ols_dpb_ok(x, i, last, total)
            &&& ols_dpb_can(x, i, last, total)
            &&& within(s, q) ==> within(s, p) && put_ols_dpb(upto(s, p), x, i, last, total) == upto(s, q)
        },
{
    broadcast use {crate::bits::group_write_read, law_put_param_idx_at};

    reveal(ols_dpb_at);
    reveal(put_ols_dpb);
    reveal(ols_dpb_ok);
    reveal(ols_dpb_can);
}

/// Reading gives back the DPB sizing of multi-layer OLS `i` as it was written.
pub broadcast proof fn law_pre_put_ols_dpb(
    a: Seq<bool>,
    x: VvcVpsOlsDpb,
    i: u64,
    last: u64,
    total: u64,
    s: Seq<bool>,
)
    requires
        #[trigger] pre(put_ols_dpb(a, x, i, last, total), s),
        ols_dpb_ok(x, i, last, total),
    ensures
        pre(a, s),
        ols_dpb_can(x, i, last, total),
        ols_dpb_at(s, a.len(), i, last, total) == Ok::<(VvcVpsOlsDpb, nat), Fault>(
            (x, put_ols_dpb(a, x, i, last, total).len()),
        ),
{
    broadcast use {crate::bits::group_read_written, law_pre_put_param_idx};

    reveal(ols_dpb_at);
    reveal(put_ols_dpb);
    reveal(ols_dpb_ok);
    reveal(ols_dpb_can);
}

/// The layout of the DPB sizing of multi-layer OLS `i`: reading at `p` gives
/// `x` and ends at `q` if and only if these elements stand there in this order,
/// and the values are allowed.
pub proof fn law_layout_ols_dpb(s: Seq<bool>, p: nat, i: u64, last: u64, total: u64, x: VvcVpsOlsDpb, q: nat)
    ensures
        ols_dpb_at(s, p, i, last, total) == Ok::<(VvcVpsOlsDpb, nat), Fault>((x, q)) <==> ({
            &&& cursor(s, p)
                .ue(x.vps_ols_dpb_pic_width)
                .ue(x.vps_ols_dpb_pic_height)
                .u8(2, x.vps_ols_dpb_chroma_format)
                .ue(x.vps_ols_dpb_bitdepth_minus8)
                .part(|p: nat| param_idx_at(s, p, i, last, total), x.vps_ols_dpb_params_idx)
                .ends(q)
            &&& x.vps_ols_dpb_bitdepth_minus8 <= 8
        }),
{
    reveal(ols_dpb_at);
}

/// Reading the DPB sizing of multi-layer OLS `i` fails only with an error of
/// this class.
pub broadcast proof fn law_faults_ols_dpb(s: Seq<bool>, p: nat, i: u64, last: u64, total: u64)
    ensures
        #[trigger] ols_dpb_at(s, p, i, last, total) matches Err(f) ==> f == Fault::Invalid,
{
    broadcast use {crate::bits::law_faults_ue, law_faults_param_idx};

    reveal(ols_dpb_at);
}

/// What the writer accepts reads back: the DPB sizing of multi-layer OLS `i`,
/// where each field fits its width and what is not coded has the value that is
/// taken for it.
pub proof fn law_reads_ols_dpb(a: Seq<bool>, x: VvcVpsOlsDpb, i: u64, last: u64, total: u64, s: Seq<bool>)
    requires
        ols_dpb_can(x, i, last, total),
        fits(x.vps_ols_dpb_chroma_format as nat, 2),
        param_idx_ok(x.vps_ols_dpb_params_idx, i, last, total),
        pre(put_ols_dpb(a, x, i, last, total), s),
    ensures
        ols_dpb_at(s, a.len(), i, last, total) == Ok::<(VvcVpsOlsDpb, nat), Fault>(
            (x, put_ols_dpb(a, x, i, last, total).len()),
        ),
{
    assert(ols_dpb_ok(x, i, last, total)) by {
        broadcast use crate::bits::law_fits_small;

        reveal(ols_dpb_ok);
        reveal(ols_dpb_can);
    }
    law_pre_put_ols_dpb(a, x, i, last, total, s);
}

/// Reads the DPB sizing of multi-layer OLS `i`, behind the items before it.
pub open spec fn ols_dpbs_item(
    s: Seq<bool>,
    last: u64,
    total: u64,
) -> spec_fn(Seq<VvcVpsOlsDpb>, nat) -> Read<VvcVpsOlsDpb> {
    |done: Seq<VvcVpsOlsDpb>, q: nat| ols_dpb_at(s, q, done.len() as u64, last, total)
}

/// Writes the DPB sizing of multi-layer OLS `i`, behind the items before it.
pub open spec fn put_ols_dpbs_item(
    last: u64,
    total: u64,
) -> spec_fn(Seq<bool>, Seq<VvcVpsOlsDpb>, VvcVpsOlsDpb) -> Seq<bool> {
    |a: Seq<bool>, done: Seq<VvcVpsOlsDpb>, x: VvcVpsOlsDpb| put_ols_dpb(a, x, done.len() as u64, last, total)
}

/// Whether the DPB sizing of multi-layer OLS `i` may follow the items before
/// it.
pub open spec fn ols_dpbs_item_ok(last: u64, total: u64) -> spec_fn(Seq<VvcVpsOlsDpb>, VvcVpsOlsDpb) -> bool {
    |done: Seq<VvcVpsOlsDpb>, x: VvcVpsOlsDpb| ols_dpb_ok(x, done.len() as u64, last, total)
        && ols_dpb_can(x, done.len() as u64, last, total)
}

/// `n` items at position `p`, each the DPB sizing of multi-layer OLS `i`.
#[verifier::opaque]
pub open spec fn ols_dpbs_at(s: Seq<bool>, p: nat, last: u64, total: u64, n: u64) -> Read<Seq<VvcVpsOlsDpb>> {
    rep_at(ols_dpbs_item(s, last, total), p, n as nat)
}

/// The bits `a` followed by the items.
#[verifier::opaque]
pub open spec fn put_ols_dpbs(
    a: Seq<bool>,
    xs: Seq<VvcVpsOlsDpb>,
    last: u64,
    total: u64,
    n: u64,
) -> Seq<bool> {
    put_rep(put_ols_dpbs_item(last, total), a, xs)
}

/// `n` items that reading can give.
#[verifier::opaque]
pub open spec fn ols_dpbs_ok(xs: Seq<VvcVpsOlsDpb>, last: u64, total: u64, n: u64) -> bool {
    xs.len() == n
        && forall|i: int| 0 <= i < xs.len()
        ==> ols_dpb_ok(#[trigger] xs[i], i as u64, last, total)
        && ols_dpb_can(xs[i], i as u64, last, total)
}

/// `n` items that the writer accepts.
#[verifier::opaque]
pub open spec fn ols_dpbs_can(xs: Seq<VvcVpsOlsDpb>, last: u64, total: u64, n: u64) -> bool {
    xs.len() == n && forall|i: int| 0 <= i < xs.len() ==> ols_dpb_can(#[trigger] xs[i], i as u64, last, total)
}

/// Parses `n` items, each the DPB sizing of multi-layer OLS `i`.
fn parse_ols_dpbs(
    r: &mut BitReader<'_>,
    last: u64,
    total: u64,
    n: u64,
) -> (res: Result<Vec<VvcVpsOlsDpb>, BitstreamError>)
    requires
        last <= 256,
    ensures
        read_vec_is(ols_dpbs_at(old(r).bits(), old(r).pos(), last, total, n), res, *old(r), *final(r)),
        res matches Ok(v) ==> v@.len() == n,
{
    let ghost s = r.bits();
    let ghost p = r.pos();
    let ghost reads = ols_dpbs_item(s, last, total);
    let mut xs: Vec<VvcVpsOlsDpb> = Vec::new();
    let mut i: u64 = 0;
    proof {
        reveal(ols_dpbs_at);
    }
    while i < n
        invariant
            i <= n,
            xs@.len() == i,
                last <= 256,
            reads == ols_dpbs_item(s, last, total),
            s == r.bits(),
            s == old(r).bits(),
            p == old(r).pos(),
            r.bytes() == old(r).bytes(),
            rep_at(reads, p, i as nat) == Ok::<(Seq<VvcVpsOlsDpb>, nat), Fault>((xs@, r.pos())),
        decreases n - i,
    {
        match parse_ols_dpb(r, i, last, total) {
            Ok(x) => {
                xs.push(x);
            },
            Err(e) => {
                proof {
                    reveal(ols_dpbs_at);
                    lemma_rep_err(reads, p, (i + 1) as nat, n as nat);
                }
                return Err(e);
            },
        }
        i = i + 1;
    }
    Ok(xs)
}

/// Emits `n` items, each the DPB sizing of multi-layer OLS `i`.
fn write_ols_dpbs(
    w: &mut BitWriter,
    xs: &Vec<VvcVpsOlsDpb>,
    last: u64,
    total: u64,
    n: u64,
) -> (res: Result<(), BitstreamError>)
    requires
        last <= 256,
    ensures
        write_is(
            ols_dpbs_can(xs@, last, total, n),
            put_ols_dpbs(old(w)@, xs@, last, total, n),
            res,
            final(w)@,
        ),
        res is Ok ==> xs@.len() == n,
{
    let ghost before = w@;
    let ghost puts = put_ols_dpbs_item(last, total);
    let ghost ys = xs@;
    proof {
        reveal(put_ols_dpbs);
        reveal(ols_dpbs_can);
        assert(ys.take(0) =~= Seq::empty());
    }
    if xs.len() as u64 != n {
        return Err(
            if n == 0 {
                BitstreamError::invalid(
                    "DPB / timing-HRD blocks require a multi-layer OLS configuration (7.3.2.3)",
                )
            } else {
                BitstreamError::invalid("one vps_ols_dpb entry per multi-layer OLS required (7.3.2.3)")
            },
        );
    }
    let mut i: usize = 0;
    while i < xs.len()
        invariant
            i <= xs@.len(),
            xs@.len() == n,
            ys == xs@,
            ys.len() == xs@.len(),
                last <= 256,
            before == old(w)@,
            puts == put_ols_dpbs_item(last, total),
            w@ == put_rep(puts, before, ys.take(i as int)),
            forall|j: int| 0 <= j < i ==> ols_dpb_can(#[trigger] ys[j], j as u64, last, total),
        ensures
            i == xs@.len(),
        decreases xs@.len() - i,
    {
        proof {
            assert(ys.take(i + 1).drop_last() =~= ys.take(i as int));
            assert(ys[i as int] == xs@[i as int]);
        }
        match write_ols_dpb(w, &xs[i], i as u64, last, total) {
            Ok(()) => {},
            Err(e) => {
                proof {
                    reveal(ols_dpbs_can);
                }
                return Err(e);
            },
        }
        i = i + 1;
    }
    proof {
        assert(ys.take(i as int) =~= ys);
    }
    Ok(())
}

/// Writing what was read gives back the bits that were read.
pub broadcast proof fn law_put_ols_dpbs_at(s: Seq<bool>, p: nat, last: u64, total: u64, n: u64)
    ensures
        #[trigger] ols_dpbs_at(s, p, last, total, n) matches Ok((xs, q)) ==> {
            &&& xs.len() == n
            &&& ols_dpbs_ok(xs, last, total, n)
            &&& ols_dpbs_can(xs, last, total, n)
            &&& within(s, q) ==> within(s, p) && put_ols_dpbs(upto(s, p), xs, last, total, n) == upto(s, q)
        },
{
    broadcast use law_put_ols_dpb_at;

    reveal(ols_dpbs_at);
    reveal(put_ols_dpbs);
    reveal(ols_dpbs_ok);
    reveal(ols_dpbs_can);
    let ok = ols_dpbs_item_ok(last, total);
    law_put_rep_at(s, ols_dpbs_item(s, last, total), put_ols_dpbs_item(last, total), ok, p, n as nat);
    if let Ok((xs, q)) = ols_dpbs_at(s, p, last, total, n) {
        assert forall|i: int| 0 <= i < xs.len() implies ok(xs.take(i), #[trigger] xs[i]) by {}
    }
}

/// What was written reads back as the items that were written.
pub broadcast proof fn law_pre_put_ols_dpbs(
    a: Seq<bool>,
    xs: Seq<VvcVpsOlsDpb>,
    last: u64,
    total: u64,
    n: u64,
    s: Seq<bool>,
)
    requires
        #[trigger] pre(put_ols_dpbs(a, xs, last, total, n), s),
        ols_dpbs_ok(xs, last, total, n),
    ensures
        pre(a, s),
        ols_dpbs_can(xs, last, total, n),
        ols_dpbs_at(s, a.len(), last, total, n) == Ok::<(Seq<VvcVpsOlsDpb>, nat), Fault>(
            (xs, put_ols_dpbs(a, xs, last, total, n).len()),
        ),
{
    broadcast use law_pre_put_ols_dpb;

    reveal(ols_dpbs_at);
    reveal(put_ols_dpbs);
    reveal(ols_dpbs_ok);
    reveal(ols_dpbs_can);
    law_rep_at_put(
        s,
        ols_dpbs_item(s, last, total),
        put_ols_dpbs_item(last, total),
        ols_dpbs_item_ok(last, total),
        a,
        xs,
    );
}

/// `n` items stand one behind the other: `n - 1` items, and then the DPB sizing
/// of multi-layer OLS `i`.
pub proof fn law_layout_ols_dpbs(
    s: Seq<bool>,
    p: nat,
    last: u64,
    total: u64,
    n: u64,
    xs: Seq<VvcVpsOlsDpb>,
    q: nat,
)
    ensures
        ols_dpbs_at(s, p, last, total, n) == Ok::<(Seq<VvcVpsOlsDpb>, nat), Fault>((xs, q)) <==> if n == 0 {
            xs.len() == 0 && q == p
        } else {
            &&& xs.len() == n
            &&& cursor(s, p)
                .part(|p: nat| ols_dpbs_at(s, p, last, total, (n - 1) as u64), xs.drop_last())
                .part(|p: nat| ols_dpb_at(s, p, (n - 1) as u64, last, total), xs.last())
                .ends(q)
        },
{
    reveal(ols_dpbs_at);
    lemma_rep_step(ols_dpbs_item(s, last, total), p, n as nat);
    if xs.len() == 0 {
        assert(xs =~= Seq::empty());
    } else {
        assert(xs =~= xs.drop_last().push(xs.last()));
    }
    if n > 0 {
        if let Ok((done, r)) = rep_at(ols_dpbs_item(s, last, total), p, (n - 1) as nat) {
            if let Ok((y, z)) = ols_dpbs_item(s, last, total)(done, r) {
                assert(done.push(y).drop_last() =~= done);
            }
        }
    }
}

/// What the writer accepts as `n` items reads back, where each of them is one that
/// reading can give.
pub proof fn law_reads_ols_dpbs(
    a: Seq<bool>,
    xs: Seq<VvcVpsOlsDpb>,
    last: u64,
    total: u64,
    n: u64,
    s: Seq<bool>,
)
    requires
        ols_dpbs_can(xs, last, total, n),
        forall|i: int| 0 <= i < xs.len() ==> ols_dpb_ok(#[trigger] xs[i], i as u64, last, total),
        pre(put_ols_dpbs(a, xs, last, total, n), s),
    ensures
        xs.len() == n,
        ols_dpbs_at(s, a.len(), last, total, n) == Ok::<(Seq<VvcVpsOlsDpb>, nat), Fault>(
            (xs, put_ols_dpbs(a, xs, last, total, n).len()),
        ),
{
    reveal(ols_dpbs_can);
    assert(ols_dpbs_ok(xs, last, total, n)) by {
        reveal(ols_dpbs_ok);
    }
    law_pre_put_ols_dpbs(a, xs, last, total, n, s);
}

/// Reading the items fails only with an error of this class.
pub broadcast proof fn law_faults_ols_dpbs(s: Seq<bool>, p: nat, last: u64, total: u64, n: u64)
    ensures
        #[trigger] ols_dpbs_at(s, p, last, total, n) matches Err(f) ==> f == Fault::Invalid,
{
    broadcast use law_faults_ols_dpb;

    reveal(ols_dpbs_at);
    let f = ols_dpbs_item(s, last, total);
    assert forall|done: Seq<VvcVpsOlsDpb>, q: nat| (#[trigger] f(done, q)) matches Err(e)
        ==> e == Fault::Invalid by {}
    lemma_rep_faults(f, p, n as nat, |f: Fault| f == Fault::Invalid);
}

/// One `ols_timing_hrd_parameters()` slot in the VPS timing block.
#[derive(Debug, Clone, PartialEq, Eq, Default)]
pub struct VvcVpsOlsHrd {
    /// `vps_hrd_max_tid[i]` u(3) — coded only when
    /// `!vps_default_ptl_dpb_hrd_max_tid_flag`; inferred
    /// `vps_max_sublayers_minus1`.
    pub vps_hrd_max_tid: u8,
    /// `ols_timing_hrd_parameters(firstSubLayer, vps_hrd_max_tid[i])`.
    pub ols: VvcOlsTimingHrd,
}

/// The mathematical model of a [`VvcVpsOlsHrd`].
pub struct VvcVpsOlsHrdModel {
    pub vps_hrd_max_tid: u8,
    pub ols: VvcOlsTimingHrdModel,
}

impl View for VvcVpsOlsHrd {
    type V = VvcVpsOlsHrdModel;

    open spec fn view(&self) -> VvcVpsOlsHrdModel {
        VvcVpsOlsHrdModel {
            vps_hrd_max_tid: self.vps_hrd_max_tid,
            ols: self.ols@,
        }
    }
}

/// One OLS HRD slot at position `p`.
#[verifier::opaque]
pub open spec fn vps_ols_hrd_at(
    s: Seq<bool>,
    p: nat,
    dflt: u8,
    max_sub: u8,
    sublayer_cpb: u8,
    g: VvcGeneralTimingHrd,
) -> Read<VvcVpsOlsHrdModel> {
    let vps_hrd_max_tid = u8_if(s, p, 3, dflt == 0, max_sub);
    let p = adv_if(p, 3, dflt == 0);
    if vps_hrd_max_tid > max_sub { Err(Fault::Invalid) } else {
    let first = if sublayer_cpb != 0 { 0 } else { vps_hrd_max_tid as u32 };
    match ols_timing_hrd_at(s, p, first, vps_hrd_max_tid as u32, g) { Err(f) => Err(f), Ok((ols, p)) => {
    Ok((VvcVpsOlsHrdModel { vps_hrd_max_tid, ols }, p))
    }}}
}

/// The bits `a` followed by one OLS HRD slot.
#[verifier::opaque]
pub open spec fn put_vps_ols_hrd(
    a: Seq<bool>,
    x: VvcVpsOlsHrdModel,
    dflt: u8,
    max_sub: u8,
    sublayer_cpb: u8,
    g: VvcGeneralTimingHrd,
) -> Seq<bool> {
    let a = put_u_if(a, x.vps_hrd_max_tid as nat, 3, dflt == 0);
    let first = if sublayer_cpb != 0 { 0 } else { x.vps_hrd_max_tid as u32 };
    let a = put_ols_timing_hrd(a, x.ols, first, x.vps_hrd_max_tid as u32, g);
    a
}

/// The values of one OLS HRD slot that reading can give.
#[verifier::opaque]
pub open spec fn vps_ols_hrd_ok(
    x: VvcVpsOlsHrdModel,
    dflt: u8,
    max_sub: u8,
    sublayer_cpb: u8,
    g: VvcGeneralTimingHrd,
) -> bool {
    &&& if dflt == 0 {
        fits(x.vps_hrd_max_tid as nat, 3) && x.vps_hrd_max_tid <= max_sub
    } else {
        x.vps_hrd_max_tid == max_sub
    }
    &&& {
        let first = if sublayer_cpb != 0 { 0 } else { x.vps_hrd_max_tid as u32 };
        &&& ols_timing_hrd_ok(x.ols, first, x.vps_hrd_max_tid as u32, g)
    }
}

/// The values of one OLS HRD slot that the writer accepts.
#[verifier::opaque]
pub open spec fn vps_ols_hrd_can(
    x: VvcVpsOlsHrdModel,
    dflt: u8,
    max_sub: u8,
    sublayer_cpb: u8,
    g: VvcGeneralTimingHrd,
) -> bool {
    &&& if dflt == 0 { x.vps_hrd_max_tid <= max_sub } else { x.vps_hrd_max_tid == max_sub }
    &&& {
        let first = if sublayer_cpb != 0 { 0 } else { x.vps_hrd_max_tid as u32 };
        &&& ols_timing_hrd_can(x.ols, first, x.vps_hrd_max_tid as u32, g)
    }
}

/// Parses one OLS HRD slot.
fn parse_vps_ols_hrd(
    r: &mut BitReader<'_>,
    dflt: u8,
    max_sub: u8,
    sublayer_cpb: u8,
    g: &VvcGeneralTimingHrd,
) -> (res: Result<VvcVpsOlsHrd, BitstreamError>)
    ensures
        read_view_is(
            vps_ols_hrd_at(old(r).bits(), old(r).pos(), dflt, max_sub, sublayer_cpb, *g),
            res,
            *old(r),
            *final(r),
        ),
{
    proof {
        reveal(vps_ols_hrd_at);
    }
    let vps_hrd_max_tid: u8 = r.u8_if(3, dflt == 0, max_sub);
    if vps_hrd_max_tid > max_sub {
        return Err(BitstreamError::invalid("vps_hrd_max_tid exceeds vps_max_sublayers_minus1 (7.4.3.3)"));
    }
    let first: u32 = if sublayer_cpb != 0 { 0 } else { vps_hrd_max_tid as u32 };
    let ols = parse_ols_timing_hrd(r, first, vps_hrd_max_tid as u32, g)?;
    Ok(VvcVpsOlsHrd { vps_hrd_max_tid, ols })
}

/// Emits one OLS HRD slot, the inverse of [`parse_vps_ols_hrd`].
fn write_vps_ols_hrd(
    w: &mut BitWriter,
    x: &VvcVpsOlsHrd,
    dflt: u8,
    max_sub: u8,
    sublayer_cpb: u8,
    g: &VvcGeneralTimingHrd,
) -> (res: Result<(), BitstreamError>)
    ensures
        write_is(
            vps_ols_hrd_can(x@, dflt, max_sub, sublayer_cpb, *g),
            put_vps_ols_hrd(old(w)@, x@, dflt, max_sub, sublayer_cpb, *g),
            res,
            final(w)@,
        ),
{
    proof {
        reveal(put_vps_ols_hrd);
        reveal(vps_ols_hrd_can);
    }
    w.write_bits_if(x.vps_hrd_max_tid as u32, 3, dflt == 0);
    if !(if dflt == 0 { x.vps_hrd_max_tid <= max_sub } else { x.vps_hrd_max_tid == max_sub }) {
        return Err(
            if dflt == 0 {
                BitstreamError::invalid("vps_hrd_max_tid exceeds vps_max_sublayers_minus1 (7.4.3.3)")
            } else {
                BitstreamError::invalid("uncoded vps_hrd_max_tid must carry its inferred value (7.4.3.3)")
            },
        );
    }
    let first: u32 = if sublayer_cpb != 0 { 0 } else { x.vps_hrd_max_tid as u32 };
    write_ols_timing_hrd(w, &x.ols, first, x.vps_hrd_max_tid as u32, g)?;
    Ok(())
}

/// Writing one OLS HRD slot gives back the bits it was read from.
pub broadcast proof fn law_put_vps_ols_hrd_at(
    s: Seq<bool>,
    p: nat,
    dflt: u8,
    max_sub: u8,
    sublayer_cpb: u8,
    g: VvcGeneralTimingHrd,
)
    ensures
        #[trigger] vps_ols_hrd_at(s, p, dflt, max_sub, sublayer_cpb, g) matches Ok((x, q)) ==> {
            &&& vps_ols_hrd_ok(x, dflt, max_sub, sublayer_cpb, g)
            &&& vps_ols_hrd_can(x, dflt, max_sub, sublayer_cpb, g)
            &&& within(s, q)
                ==> within(s, p)
                && put_vps_ols_hrd(upto(s, p), x, dflt, max_sub, sublayer_cpb, g) == upto(s, q)
        },
{
    broadcast use {crate::bits::group_write_read, law_put_ols_timing_hrd_at};

    reveal(vps_ols_hrd_at);
    reveal(put_vps_ols_hrd);
    reveal(vps_ols_hrd_ok);
    reveal(vps_ols_hrd_can);
}

/// Reading gives back one OLS HRD slot as it was written.
pub broadcast proof fn law_pre_put_vps_ols_hrd(
    a: Seq<bool>,
    x: VvcVpsOlsHrdModel,
    dflt: u8,
    max_sub: u8,
    sublayer_cpb: u8,
    g: VvcGeneralTimingHrd,
    s: Seq<bool>,
)
    requires
        #[trigger] pre(put_vps_ols_hrd(a, x, dflt, max_sub, sublayer_cpb, g), s),
        vps_ols_hrd_ok(x, dflt, max_sub, sublayer_cpb, g),
    ensures
        pre(a, s),
        vps_ols_hrd_can(x, dflt, max_sub, sublayer_cpb, g),
        vps_ols_hrd_at(s, a.len(), dflt, max_sub, sublayer_cpb, g) == Ok::<(VvcVpsOlsHrdModel, nat), Fault>(
            (x, put_vps_ols_hrd(a, x, dflt, max_sub, sublayer_cpb, g).len()),
        ),
{
    broadcast use {crate::bits::group_read_written, law_pre_put_ols_timing_hrd};

    reveal(vps_ols_hrd_at);
    reveal(put_vps_ols_hrd);
    reveal(vps_ols_hrd_ok);
    reveal(vps_ols_hrd_can);
}

/// The layout of one OLS HRD slot: reading at `p` gives `x` and ends at `q` if
/// and only if these elements stand there in this order, and the values are
/// allowed.
pub proof fn law_layout_vps_ols_hrd(
    s: Seq<bool>,
    p: nat,
    dflt: u8,
    max_sub: u8,
    sublayer_cpb: u8,
    g: VvcGeneralTimingHrd,
    x: VvcVpsOlsHrdModel,
    q: nat,
)
    ensures
        vps_ols_hrd_at(s, p, dflt, max_sub, sublayer_cpb, g) == Ok::<(VvcVpsOlsHrdModel, nat), Fault>((x, q)) <==> ({
            let first = if sublayer_cpb != 0 { 0 } else { x.vps_hrd_max_tid as u32 };
            &&& cursor(s, p)
                .u8_if(dflt == 0, 3, x.vps_hrd_max_tid, max_sub)
                .part(|p: nat| ols_timing_hrd_at(s, p, first, x.vps_hrd_max_tid as u32, g), x.ols)
                .ends(q)
            &&& x.vps_hrd_max_tid <= max_sub
        }),
{
    reveal(vps_ols_hrd_at);
    reveal(adv_if);
    reveal(u8_if);
}

/// Reading one OLS HRD slot fails only with an error of this class.
pub broadcast proof fn law_faults_vps_ols_hrd(
    s: Seq<bool>,
    p: nat,
    dflt: u8,
    max_sub: u8,
    sublayer_cpb: u8,
    g: VvcGeneralTimingHrd,
)
    ensures
        #[trigger] vps_ols_hrd_at(s, p, dflt, max_sub, sublayer_cpb, g) matches Err(f)
            ==> f == Fault::Invalid,
{
    broadcast use law_faults_ols_timing_hrd;

    reveal(vps_ols_hrd_at);
}

/// What the writer accepts reads back: one OLS HRD slot, where each field fits
/// its width and what is not coded has the value that is taken for it.
pub proof fn law_reads_vps_ols_hrd(
    a: Seq<bool>,
    x: VvcVpsOlsHrdModel,
    dflt: u8,
    max_sub: u8,
    sublayer_cpb: u8,
    g: VvcGeneralTimingHrd,
    s: Seq<bool>,
)
    requires
        vps_ols_hrd_can(x, dflt, max_sub, sublayer_cpb, g),
        ({
            &&& if dflt == 0 { fits(x.vps_hrd_max_tid as nat, 3) } else { x.vps_hrd_max_tid == max_sub }
            &&& {
                let first = if sublayer_cpb != 0 { 0 } else { x.vps_hrd_max_tid as u32 };
                &&& ols_timing_hrd_ok(x.ols, first, x.vps_hrd_max_tid as u32, g)
            }
        }),
        pre(put_vps_ols_hrd(a, x, dflt, max_sub, sublayer_cpb, g), s),
    ensures
        vps_ols_hrd_at(s, a.len(), dflt, max_sub, sublayer_cpb, g) == Ok::<(VvcVpsOlsHrdModel, nat), Fault>(
            (x, put_vps_ols_hrd(a, x, dflt, max_sub, sublayer_cpb, g).len()),
        ),
{
    assert(vps_ols_hrd_ok(x, dflt, max_sub, sublayer_cpb, g)) by {
        broadcast use crate::bits::law_fits_small;

        reveal(vps_ols_hrd_ok);
        reveal(vps_ols_hrd_can);
    }
    law_pre_put_vps_ols_hrd(a, x, dflt, max_sub, sublayer_cpb, g, s);
}

/// Each field of the model of a [`VvcVpsOlsHrd`] is the field of that name.
pub proof fn law_view_vps_ols_hrd(x: VvcVpsOlsHrd)
    ensures
        x@.vps_hrd_max_tid == x.vps_hrd_max_tid,
        x@.ols == x.ols@,
{
}

/// Reads one OLS HRD slot, behind the items before it.
pub open spec fn vps_ols_hrds_item(
    s: Seq<bool>,
    dflt: u8,
    max_sub: u8,
    sublayer_cpb: u8,
    g: VvcGeneralTimingHrd,
) -> spec_fn(Seq<VvcVpsOlsHrdModel>, nat) -> Read<VvcVpsOlsHrdModel> {
    |done: Seq<VvcVpsOlsHrdModel>, q: nat| vps_ols_hrd_at(s, q, dflt, max_sub, sublayer_cpb, g)
}

/// Writes one OLS HRD slot, behind the items before it.
pub open spec fn put_vps_ols_hrds_item(
    dflt: u8,
    max_sub: u8,
    sublayer_cpb: u8,
    g: VvcGeneralTimingHrd,
) -> spec_fn(Seq<bool>, Seq<VvcVpsOlsHrdModel>, VvcVpsOlsHrdModel) -> Seq<bool> {
    |a: Seq<bool>, done: Seq<VvcVpsOlsHrdModel>, x: VvcVpsOlsHrdModel| put_vps_ols_hrd(
        a,
        x,
        dflt,
        max_sub,
        sublayer_cpb,
        g,
    )
}

/// Whether one OLS HRD slot may follow the items before it.
pub open spec fn vps_ols_hrds_item_ok(
    dflt: u8,
    max_sub: u8,
    sublayer_cpb: u8,
    g: VvcGeneralTimingHrd,
) -> spec_fn(Seq<VvcVpsOlsHrdModel>, VvcVpsOlsHrdModel) -> bool {
    |done: Seq<VvcVpsOlsHrdModel>, x: VvcVpsOlsHrdModel| vps_ols_hrd_ok(x, dflt, max_sub, sublayer_cpb, g)
        && vps_ols_hrd_can(x, dflt, max_sub, sublayer_cpb, g)
}

/// `n` items at position `p`, each one OLS HRD slot.
#[verifier::opaque]
pub open spec fn vps_ols_hrds_at(
    s: Seq<bool>,
    p: nat,
    dflt: u8,
    max_sub: u8,
    sublayer_cpb: u8,
    g: VvcGeneralTimingHrd,
    n: u64,
) -> Read<Seq<VvcVpsOlsHrdModel>> {
    rep_at(vps_ols_hrds_item(s, dflt, max_sub, sublayer_cpb, g), p, n as nat)
}

/// The bits `a` followed by the items.
#[verifier::opaque]
pub open spec fn put_vps_ols_hrds(
    a: Seq<bool>,
    xs: Seq<VvcVpsOlsHrdModel>,
    dflt: u8,
    max_sub: u8,
    sublayer_cpb: u8,
    g: VvcGeneralTimingHrd,
    n: u64,
) -> Seq<bool> {
    put_rep(put_vps_ols_hrds_item(dflt, max_sub, sublayer_cpb, g), a, xs)
}

/// `n` items that reading can give.
#[verifier::opaque]
pub open spec fn vps_ols_hrds_ok(
    xs: Seq<VvcVpsOlsHrdModel>,
    dflt: u8,
    max_sub: u8,
    sublayer_cpb: u8,
    g: VvcGeneralTimingHrd,
    n: u64,
) -> bool {
    xs.len() == n
        && forall|i: int| 0 <= i < xs.len()
        ==> vps_ols_hrd_ok(#[trigger] xs[i], dflt, max_sub, sublayer_cpb, g)
        && vps_ols_hrd_can(xs[i], dflt, max_sub, sublayer_cpb, g)
}

/// `n` items that the writer accepts.
#[verifier::opaque]
pub open spec fn vps_ols_hrds_can(
    xs: Seq<VvcVpsOlsHrdModel>,
    dflt: u8,
    max_sub: u8,
    sublayer_cpb: u8,
    g: VvcGeneralTimingHrd,
    n: u64,
) -> bool {
    xs.len() == n
        && forall|i: int| 0 <= i < xs.len()
        ==> vps_ols_hrd_can(#[trigger] xs[i], dflt, max_sub, sublayer_cpb, g)
}

/// Parses `n` items, each one OLS HRD slot.
fn parse_vps_ols_hrds(
    r: &mut BitReader<'_>,
    dflt: u8,
    max_sub: u8,
    sublayer_cpb: u8,
    g: &VvcGeneralTimingHrd,
    n: u64,
) -> (res: Result<Vec<VvcVpsOlsHrd>, BitstreamError>)
    ensures
        read_seq_is(
            vps_ols_hrds_at(old(r).bits(), old(r).pos(), dflt, max_sub, sublayer_cpb, *g, n),
            res,
            *old(r),
            *final(r),
        ),
        res matches Ok(v) ==> v@.len() == n,
{
    let ghost s = r.bits();
    let ghost p = r.pos();
    let ghost reads = vps_ols_hrds_item(s, dflt, max_sub, sublayer_cpb, *g);
    let mut xs: Vec<VvcVpsOlsHrd> = Vec::new();
    let mut i: u64 = 0;
    proof {
        reveal(vps_ols_hrds_at);
        assert(seq_view(xs@) =~= Seq::empty());
    }
    while i < n
        invariant
            i <= n,
            xs@.len() == i,
            reads == vps_ols_hrds_item(s, dflt, max_sub, sublayer_cpb, *g),
            s == r.bits(),
            s == old(r).bits(),
            p == old(r).pos(),
            r.bytes() == old(r).bytes(),
            rep_at(reads, p, i as nat) == Ok::<(
                Seq<VvcVpsOlsHrdModel>,
                nat,
            ), Fault>((seq_view(xs@), r.pos())),
        decreases n - i,
    {
        match parse_vps_ols_hrd(r, dflt, max_sub, sublayer_cpb, g) {
            Ok(x) => {
                proof {
                lemma_seq_view_push(xs@, x);
            }
            xs.push(x);
            },
            Err(e) => {
                proof {
                    reveal(vps_ols_hrds_at);
                    lemma_rep_err(reads, p, (i + 1) as nat, n as nat);
                }
                return Err(e);
            },
        }
        i = i + 1;
    }
    Ok(xs)
}

/// Emits `n` items, each one OLS HRD slot.
fn write_vps_ols_hrds(
    w: &mut BitWriter,
    xs: &Vec<VvcVpsOlsHrd>,
    dflt: u8,
    max_sub: u8,
    sublayer_cpb: u8,
    g: &VvcGeneralTimingHrd,
    n: u64,
) -> (res: Result<(), BitstreamError>)
    ensures
        write_is(
            vps_ols_hrds_can(seq_view(xs@), dflt, max_sub, sublayer_cpb, *g, n),
            put_vps_ols_hrds(old(w)@, seq_view(xs@), dflt, max_sub, sublayer_cpb, *g, n),
            res,
            final(w)@,
        ),
        res is Ok ==> xs@.len() == n,
{
    let ghost before = w@;
    let ghost puts = put_vps_ols_hrds_item(dflt, max_sub, sublayer_cpb, *g);
    let ghost ys = seq_view(xs@);
    proof {
        reveal(put_vps_ols_hrds);
        reveal(vps_ols_hrds_can);
        assert(ys.take(0) =~= Seq::empty());
    }
    if xs.len() as u64 != n {
        return Err(BitstreamError::invalid("unexpected number of entries"));
    }
    let mut i: usize = 0;
    while i < xs.len()
        invariant
            i <= xs@.len(),
            xs@.len() == n,
            ys == seq_view(xs@),
            ys.len() == xs@.len(),
            before == old(w)@,
            puts == put_vps_ols_hrds_item(dflt, max_sub, sublayer_cpb, *g),
            w@ == put_rep(puts, before, ys.take(i as int)),
            forall|j: int| 0 <= j < i ==> vps_ols_hrd_can(#[trigger] ys[j], dflt, max_sub, sublayer_cpb, *g),
        ensures
            i == xs@.len(),
        decreases xs@.len() - i,
    {
        proof {
            assert(ys.take(i + 1).drop_last() =~= ys.take(i as int));
            assert(ys[i as int] == xs@[i as int]@);
        }
        match write_vps_ols_hrd(w, &xs[i], dflt, max_sub, sublayer_cpb, g) {
            Ok(()) => {},
            Err(e) => {
                proof {
                    reveal(vps_ols_hrds_can);
                }
                return Err(e);
            },
        }
        i = i + 1;
    }
    proof {
        assert(ys.take(i as int) =~= ys);
    }
    Ok(())
}

/// Writing what was read gives back the bits that were read.
pub broadcast proof fn law_put_vps_ols_hrds_at(
    s: Seq<bool>,
    p: nat,
    dflt: u8,
    max_sub: u8,
    sublayer_cpb: u8,
    g: VvcGeneralTimingHrd,
    n: u64,
)
    ensures
        #[trigger] vps_ols_hrds_at(s, p, dflt, max_sub, sublayer_cpb, g, n) matches Ok((xs, q)) ==> {
            &&& xs.len() == n
            &&& vps_ols_hrds_ok(xs, dflt, max_sub, sublayer_cpb, g, n)
            &&& vps_ols_hrds_can(xs, dflt, max_sub, sublayer_cpb, g, n)
            &&& within(s, q)
                ==> within(s, p)
                && put_vps_ols_hrds(upto(s, p), xs, dflt, max_sub, sublayer_cpb, g, n) == upto(s, q)
        },
{
    broadcast use law_put_vps_ols_hrd_at;

    reveal(vps_ols_hrds_at);
    reveal(put_vps_ols_hrds);
    reveal(vps_ols_hrds_ok);
    reveal(vps_ols_hrds_can);
    let ok = vps_ols_hrds_item_ok(dflt, max_sub, sublayer_cpb, g);
    law_put_rep_at(
        s,
        vps_ols_hrds_item(s, dflt, max_sub, sublayer_cpb, g),
        put_vps_ols_hrds_item(dflt, max_sub, sublayer_cpb, g),
        ok,
        p,
        n as nat,
    );
    if let Ok((xs, q)) = vps_ols_hrds_at(s, p, dflt, max_sub, sublayer_cpb, g, n) {
        assert forall|i: int| 0 <= i < xs.len() implies ok(xs.take(i), #[trigger] xs[i]) by {}
    }
}

/// What was written reads back as the items that were written.
pub broadcast proof fn law_pre_put_vps_ols_hrds(
    a: Seq<bool>,
    xs: Seq<VvcVpsOlsHrdModel>,
    dflt: u8,
    max_sub: u8,
    sublayer_cpb: u8,
    g: VvcGeneralTimingHrd,
    n: u64,
    s: Seq<bool>,
)
    requires
        #[trigger] pre(put_vps_ols_hrds(a, xs, dflt, max_sub, sublayer_cpb, g, n), s),
        vps_ols_hrds_ok(xs, dflt, max_sub, sublayer_cpb, g, n),
    ensures
        pre(a, s),
        vps_ols_hrds_can(xs, dflt, max_sub, sublayer_cpb, g, n),
        vps_ols_hrds_at(s, a.len(), dflt, max_sub, sublayer_cpb, g, n) == Ok::<(Seq<VvcVpsOlsHrdModel>, nat), Fault>(
            (xs, put_vps_ols_hrds(a, xs, dflt, max_sub, sublayer_cpb, g, n).len()),
        ),
{
    broadcast use law_pre_put_vps_ols_hrd;

    reveal(vps_ols_hrds_at);
    reveal(put_vps_ols_hrds);
    reveal(vps_ols_hrds_ok);
    reveal(vps_ols_hrds_can);
    law_rep_at_put(
        s,
        vps_ols_hrds_item(s, dflt, max_sub, sublayer_cpb, g),
        put_vps_ols_hrds_item(dflt, max_sub, sublayer_cpb, g),
        vps_ols_hrds_item_ok(dflt, max_sub, sublayer_cpb, g),
        a,
        xs,
    );
}

/// `n` items stand one behind the other: `n - 1` items, and then one OLS HRD
/// slot.
pub proof fn law_layout_vps_ols_hrds(
    s: Seq<bool>,
    p: nat,
    dflt: u8,
    max_sub: u8,
    sublayer_cpb: u8,
    g: VvcGeneralTimingHrd,
    n: u64,
    xs: Seq<VvcVpsOlsHrdModel>,
    q: nat,
)
    ensures
        vps_ols_hrds_at(s, p, dflt, max_sub, sublayer_cpb, g, n) == Ok::<(Seq<VvcVpsOlsHrdModel>, nat), Fault>((xs, q)) <==> if n == 0 {
            xs.len() == 0 && q == p
        } else {
            &&& xs.len() == n
            &&& cursor(s, p)
                .part(
                    |p: nat| vps_ols_hrds_at(s, p, dflt, max_sub, sublayer_cpb, g, (n - 1) as u64),
                    xs.drop_last(),
                )
                .part(|p: nat| vps_ols_hrd_at(s, p, dflt, max_sub, sublayer_cpb, g), xs.last())
                .ends(q)
        },
{
    reveal(vps_ols_hrds_at);
    lemma_rep_step(vps_ols_hrds_item(s, dflt, max_sub, sublayer_cpb, g), p, n as nat);
    if xs.len() == 0 {
        assert(xs =~= Seq::empty());
    } else {
        assert(xs =~= xs.drop_last().push(xs.last()));
    }
    if n > 0 {
        if let Ok((done, r)) = rep_at(vps_ols_hrds_item(s, dflt, max_sub, sublayer_cpb, g), p, (n - 1) as nat) {
            if let Ok((y, z)) = vps_ols_hrds_item(s, dflt, max_sub, sublayer_cpb, g)(done, r) {
                assert(done.push(y).drop_last() =~= done);
            }
        }
    }
}

/// What the writer accepts as `n` items reads back, where each of them is one that
/// reading can give.
pub proof fn law_reads_vps_ols_hrds(
    a: Seq<bool>,
    xs: Seq<VvcVpsOlsHrdModel>,
    dflt: u8,
    max_sub: u8,
    sublayer_cpb: u8,
    g: VvcGeneralTimingHrd,
    n: u64,
    s: Seq<bool>,
)
    requires
        vps_ols_hrds_can(xs, dflt, max_sub, sublayer_cpb, g, n),
        forall|i: int| 0 <= i < xs.len() ==> vps_ols_hrd_ok(#[trigger] xs[i], dflt, max_sub, sublayer_cpb, g),
        pre(put_vps_ols_hrds(a, xs, dflt, max_sub, sublayer_cpb, g, n), s),
    ensures
        xs.len() == n,
        vps_ols_hrds_at(s, a.len(), dflt, max_sub, sublayer_cpb, g, n) == Ok::<(Seq<VvcVpsOlsHrdModel>, nat), Fault>(
            (xs, put_vps_ols_hrds(a, xs, dflt, max_sub, sublayer_cpb, g, n).len()),
        ),
{
    reveal(vps_ols_hrds_can);
    assert(vps_ols_hrds_ok(xs, dflt, max_sub, sublayer_cpb, g, n)) by {
        reveal(vps_ols_hrds_ok);
    }
    law_pre_put_vps_ols_hrds(a, xs, dflt, max_sub, sublayer_cpb, g, n, s);
}

/// Reading the items fails only with an error of this class.
pub broadcast proof fn law_faults_vps_ols_hrds(
    s: Seq<bool>,
    p: nat,
    dflt: u8,
    max_sub: u8,
    sublayer_cpb: u8,
    g: VvcGeneralTimingHrd,
    n: u64,
)
    ensures
        #[trigger] vps_ols_hrds_at(s, p, dflt, max_sub, sublayer_cpb, g, n) matches Err(f)
            ==> f == Fault::Invalid,
{
    broadcast use law_faults_vps_ols_hrd;

    reveal(vps_ols_hrds_at);
    let f = vps_ols_hrds_item(s, dflt, max_sub, sublayer_cpb, g);
    assert forall|done: Seq<VvcVpsOlsHrdModel>, q: nat| (#[trigger] f(done, q)) matches Err(e)
        ==> e == Fault::Invalid by {}
    lemma_rep_faults(f, p, n as nat, |f: Fault| f == Fault::Invalid);
}

/// The VPS timing/HRD block (§7.3.2.3, present iff
/// `vps_timing_hrd_params_present_flag`).
#[derive(Debug, Clone, PartialEq, Eq, Default)]
pub struct VvcVpsTimingHrd {
    /// `general_timing_hrd_parameters()` (§7.3.5.1).
    pub general: VvcGeneralTimingHrd,
    /// `vps_sublayer_cpb_params_present_flag` u(1) — coded only when
    /// `vps_max_sublayers_minus1 > 0`; inferred 0.
    pub vps_sublayer_cpb_params_present_flag: u8,
    /// `vps_num_ols_timing_hrd_params_minus1 + 1` entries.
    pub entries: Vec<VvcVpsOlsHrd>,
    /// `vps_ols_timing_hrd_idx[i]` per multi-layer OLS — coded only
    /// when the entry count is > 1 and != `NumMultiLayerOlss`;
    /// otherwise carries the inferred values (all 0, or `i`).
    pub vps_ols_timing_hrd_idx: Vec<u32>,
}

/// The mathematical model of a [`VvcVpsTimingHrd`].
pub struct VvcVpsTimingHrdModel {
    pub general: VvcGeneralTimingHrd,
    pub vps_sublayer_cpb_params_present_flag: u8,
    pub entries: Seq<VvcVpsOlsHrdModel>,
    pub vps_ols_timing_hrd_idx: Seq<u32>,
}

impl View for VvcVpsTimingHrd {
    type V = VvcVpsTimingHrdModel;

    open spec fn view(&self) -> VvcVpsTimingHrdModel {
        VvcVpsTimingHrdModel {
            general: self.general,
            vps_sublayer_cpb_params_present_flag: self.vps_sublayer_cpb_params_present_flag,
            entries: seq_view(self.entries@),
            vps_ols_timing_hrd_idx: self.vps_ols_timing_hrd_idx@,
        }
    }
}

/// The VPS timing/HRD block at position `p`.
#[verifier::opaque]
pub open spec fn vps_timing_at(
    s: Seq<bool>,
    p: nat,
    dflt: u8,
    max_sub: u8,
    multi: u64,
) -> Read<VvcVpsTimingHrdModel> {
    match general_timing_hrd_at(s, p) { Err(f) => Err(f), Ok((general, p)) => {
    let vps_sublayer_cpb_params_present_flag = u8_if(s, p, 1, max_sub > 0, 0);
    let p = adv_if(p, 1, max_sub > 0);
    match ue_at(s, p) { Err(f) => Err(f), Ok((num_hrd_minus1, p)) => {
    if !((num_hrd_minus1 as u64) < multi) { Err(Fault::Invalid) } else {
    match vps_ols_hrds_at(
        s,
        p,
        dflt,
        max_sub,
        vps_sublayer_cpb_params_present_flag,
        general,
        (num_hrd_minus1 as u64 + 1) as u64,
    )
    { Err(f) => Err(f), Ok((entries, p)) => {
    match param_idxs_at(s, p, num_hrd_minus1 as u64, multi, multi)
    { Err(f) => Err(f), Ok((vps_ols_timing_hrd_idx, p)) => {
    Ok((
        VvcVpsTimingHrdModel {
            general,
            vps_sublayer_cpb_params_present_flag,
            entries,
            vps_ols_timing_hrd_idx,
        },
        p,
    ))
    }}}}}}}}}
}

/// The bits `a` followed by the VPS timing/HRD block.
#[verifier::opaque]
pub open spec fn put_vps_timing(
    a: Seq<bool>,
    x: VvcVpsTimingHrdModel,
    dflt: u8,
    max_sub: u8,
    multi: u64,
) -> Seq<bool> {
    let a = put_general_timing_hrd(a, x.general);
    let a = put_bit_if(a, x.vps_sublayer_cpb_params_present_flag as nat, max_sub > 0);
    let num_hrd_minus1 = (x.entries.len() - 1) as u32;
    let a = put_ue(a, num_hrd_minus1 as nat);
    let a = put_vps_ols_hrds(
        a,
        x.entries,
        dflt,
        max_sub,
        x.vps_sublayer_cpb_params_present_flag,
        x.general,
        (num_hrd_minus1 as u64 + 1) as u64,
    );
    let a = put_param_idxs(a, x.vps_ols_timing_hrd_idx, num_hrd_minus1 as u64, multi, multi);
    a
}

/// The values of the VPS timing/HRD block that reading can give.
#[verifier::opaque]
pub open spec fn vps_timing_ok(x: VvcVpsTimingHrdModel, dflt: u8, max_sub: u8, multi: u64) -> bool {
    &&& general_timing_hrd_ok(x.general)
    &&& if max_sub > 0 {
        fits(x.vps_sublayer_cpb_params_present_flag as nat, 1)
    } else {
        x.vps_sublayer_cpb_params_present_flag == 0
    }
    &&& x.entries.len() >= 1 && x.entries.len() <= 256 && x.entries.len() as u64 <= multi
    &&& {
        let num_hrd_minus1 = (x.entries.len() - 1) as u32;
        &&& ue_fits(num_hrd_minus1 as nat)
        &&& (num_hrd_minus1 as u64) < multi
        &&& vps_ols_hrds_ok(
            x.entries,
            dflt,
            max_sub,
            x.vps_sublayer_cpb_params_present_flag,
            x.general,
            (num_hrd_minus1 as u64 + 1) as u64,
        )
        &&& param_idxs_ok(x.vps_ols_timing_hrd_idx, num_hrd_minus1 as u64, multi, multi)
    }
}

/// The values of the VPS timing/HRD block that the writer accepts.
#[verifier::opaque]
pub open spec fn vps_timing_can(x: VvcVpsTimingHrdModel, dflt: u8, max_sub: u8, multi: u64) -> bool {
    &&& general_timing_hrd_can(x.general)
    &&& x.entries.len() >= 1 && x.entries.len() <= 256 && x.entries.len() as u64 <= multi
    &&& {
        let num_hrd_minus1 = (x.entries.len() - 1) as u32;
        &&& ue_fits(num_hrd_minus1 as nat)
        &&& vps_ols_hrds_can(
            x.entries,
            dflt,
            max_sub,
            x.vps_sublayer_cpb_params_present_flag,
            x.general,
            (num_hrd_minus1 as u64 + 1) as u64,
        )
        &&& param_idxs_can(x.vps_ols_timing_hrd_idx, num_hrd_minus1 as u64, multi, multi)
    }
}

/// Parses the VPS timing/HRD block.
fn parse_vps_timing(
    r: &mut BitReader<'_>,
    dflt: u8,
    max_sub: u8,
    multi: u64,
) -> (res: Result<VvcVpsTimingHrd, BitstreamError>)
    requires
        multi <= 256,
    ensures
        read_view_is(
            vps_timing_at(old(r).bits(), old(r).pos(), dflt, max_sub, multi),
            res,
            *old(r),
            *final(r),
        ),
{
    proof {
        reveal(vps_timing_at);
    }
    let general = parse_general_timing_hrd(r)?;
    let vps_sublayer_cpb_params_present_flag: u8 = r.bit_if(max_sub > 0, 0);
    let num_hrd_minus1: u32 = r.ue()?;
    if !((num_hrd_minus1 as u64) < multi) {
        return Err(
            BitstreamError::invalid(
                "vps_num_ols_timing_hrd_params_minus1 must be < NumMultiLayerOlss (7.4.3.3)",
            ),
        );
    }
    let entries = parse_vps_ols_hrds(
        r,
        dflt,
        max_sub,
        vps_sublayer_cpb_params_present_flag,
        &general,
        num_hrd_minus1 as u64 + 1,
    )?;
    let vps_ols_timing_hrd_idx = parse_param_idxs(
        r,
        num_hrd_minus1 as u64,
        multi,
        multi,
        "vps_ols_timing_hrd_idx exceeds the entry count (7.4.3.3)",
    )?;
    Ok(VvcVpsTimingHrd { general, vps_sublayer_cpb_params_present_flag, entries, vps_ols_timing_hrd_idx })
}

/// Emits the VPS timing/HRD block, the inverse of [`parse_vps_timing`].
fn write_vps_timing(
    w: &mut BitWriter,
    x: &VvcVpsTimingHrd,
    dflt: u8,
    max_sub: u8,
    multi: u64,
) -> (res: Result<(), BitstreamError>)
    requires
        multi <= 256,
    ensures
        write_is(
            vps_timing_can(x@, dflt, max_sub, multi),
            put_vps_timing(old(w)@, x@, dflt, max_sub, multi),
            res,
            final(w)@,
        ),
{
    proof {
        reveal(put_vps_timing);
        reveal(vps_timing_can);
    }
    write_general_timing_hrd(w, &x.general)?;
    w.write_bit_if(x.vps_sublayer_cpb_params_present_flag as u32, max_sub > 0);
    if !(x.entries.len() >= 1 && x.entries.len() <= 256 && x.entries.len() as u64 <= multi) {
        return Err(
            BitstreamError::invalid(
                "vps_num_ols_timing_hrd_params_minus1 must be < NumMultiLayerOlss (7.4.3.3)",
            ),
        );
    }
    let num_hrd_minus1: u32 = (x.entries.len() - 1) as u32;
    w.write_ue(num_hrd_minus1)?;
    write_vps_ols_hrds(
        w,
        &x.entries,
        dflt,
        max_sub,
        x.vps_sublayer_cpb_params_present_flag,
        &x.general,
        num_hrd_minus1 as u64 + 1,
    )?;
    write_param_idxs(
        w,
        &x.vps_ols_timing_hrd_idx,
        num_hrd_minus1 as u64,
        multi,
        multi,
        "vps_ols_timing_hrd_idx exceeds the entry count (7.4.3.3)",
        "uncoded vps_ols_timing_hrd_idx must carry its inferred value",
        "vps_ols_timing_hrd_idx must carry one entry per multi-layer OLS",
    )?;
    Ok(())
}

/// Writing the VPS timing/HRD block gives back the bits it was read from.
pub broadcast proof fn law_put_vps_timing_at(s: Seq<bool>, p: nat, dflt: u8, max_sub: u8, multi: u64)
    requires
        multi <= 256,
    ensures
        #[trigger] vps_timing_at(s, p, dflt, max_sub, multi) matches Ok((x, q)) ==> {
            &&& vps_timing_ok(x, dflt, max_sub, multi)
            &&& vps_timing_can(x, dflt, max_sub, multi)
            &&& within(s, q)
                ==> within(s, p)
                && put_vps_timing(upto(s, p), x, dflt, max_sub, multi) == upto(s, q)
        },
{
    broadcast use {
        crate::bits::group_write_read,
        law_put_general_timing_hrd_at,
        law_put_vps_ols_hrds_at,
        law_put_param_idxs_at,
    };

    reveal(vps_timing_at);
    reveal(put_vps_timing);
    reveal(vps_timing_ok);
    reveal(vps_timing_can);
}

/// Reading gives back the VPS timing/HRD block as it was written.
pub broadcast proof fn law_pre_put_vps_timing(
    a: Seq<bool>,
    x: VvcVpsTimingHrdModel,
    dflt: u8,
    max_sub: u8,
    multi: u64,
    s: Seq<bool>,
)
    requires
        #[trigger] pre(put_vps_timing(a, x, dflt, max_sub, multi), s),
        vps_timing_ok(x, dflt, max_sub, multi),
        multi <= 256,
    ensures
        pre(a, s),
        vps_timing_can(x, dflt, max_sub, multi),
        vps_timing_at(s, a.len(), dflt, max_sub, multi) == Ok::<(VvcVpsTimingHrdModel, nat), Fault>(
            (x, put_vps_timing(a, x, dflt, max_sub, multi).len()),
        ),
{
    broadcast use {
        crate::bits::group_read_written,
        law_pre_put_general_timing_hrd,
        law_pre_put_vps_ols_hrds,
        law_pre_put_param_idxs,
    };

    reveal(vps_timing_at);
    reveal(put_vps_timing);
    reveal(vps_timing_ok);
    reveal(vps_timing_can);
}

/// The layout of the VPS timing/HRD block: reading at `p` gives `x` and ends at
/// `q` if and only if these elements stand there in this order, and the values
/// are allowed.
pub proof fn law_layout_vps_timing(
    s: Seq<bool>,
    p: nat,
    dflt: u8,
    max_sub: u8,
    multi: u64,
    x: VvcVpsTimingHrdModel,
    q: nat,
)
    ensures
        vps_timing_at(s, p, dflt, max_sub, multi) == Ok::<(VvcVpsTimingHrdModel, nat), Fault>((x, q)) <==> ({
            let c = cursor(s, p)
                .part(|p: nat| general_timing_hrd_at(s, p), x.general)
                .u8_if(max_sub > 0, 1, x.vps_sublayer_cpb_params_present_flag, 0);
            let num_hrd_minus1 = c.next_ue();
            &&& c
                .ue(num_hrd_minus1)
                .part(
                    |p: nat| vps_ols_hrds_at(
                        s,
                        p,
                        dflt,
                        max_sub,
                        x.vps_sublayer_cpb_params_present_flag,
                        x.general,
                        (num_hrd_minus1 as u64 + 1) as u64,
                    ),
                    x.entries,
                )
                .part(
                    |p: nat| param_idxs_at(s, p, num_hrd_minus1 as u64, multi, multi),
                    x.vps_ols_timing_hrd_idx,
                )
                .ends(q)
            &&& (num_hrd_minus1 as u64) < multi
        }),
{
    reveal(vps_timing_at);
    reveal(adv_if);
    reveal(u8_if);
}

/// Reading the VPS timing/HRD block fails only with an error of this class.
pub broadcast proof fn law_faults_vps_timing(s: Seq<bool>, p: nat, dflt: u8, max_sub: u8, multi: u64)
    ensures
        #[trigger] vps_timing_at(s, p, dflt, max_sub, multi) matches Err(f) ==> f == Fault::Invalid,
{
    broadcast use {
        law_faults_general_timing_hrd,
        crate::bits::law_faults_ue,
        law_faults_vps_ols_hrds,
        law_faults_param_idxs,
    };

    reveal(vps_timing_at);
}

/// What the writer accepts reads back: the VPS timing/HRD block, where each
/// field fits its width and what is not coded has the value that is taken for
/// it.
pub proof fn law_reads_vps_timing(
    a: Seq<bool>,
    x: VvcVpsTimingHrdModel,
    dflt: u8,
    max_sub: u8,
    multi: u64,
    s: Seq<bool>,
)
    requires
        vps_timing_can(x, dflt, max_sub, multi),
        ({
            &&& general_timing_hrd_ok(x.general)
            &&& if max_sub > 0 {
                fits(x.vps_sublayer_cpb_params_present_flag as nat, 1)
            } else {
                x.vps_sublayer_cpb_params_present_flag == 0
            }
            &&& {
                let num_hrd_minus1 = (x.entries.len() - 1) as u32;
                &&& vps_ols_hrds_ok(
                    x.entries,
                    dflt,
                    max_sub,
                    x.vps_sublayer_cpb_params_present_flag,
                    x.general,
                    (num_hrd_minus1 as u64 + 1) as u64,
                )
                &&& param_idxs_ok(x.vps_ols_timing_hrd_idx, num_hrd_minus1 as u64, multi, multi)
            }
        }),
        pre(put_vps_timing(a, x, dflt, max_sub, multi), s),
        multi <= 256,
    ensures
        vps_timing_at(s, a.len(), dflt, max_sub, multi) == Ok::<(VvcVpsTimingHrdModel, nat), Fault>(
            (x, put_vps_timing(a, x, dflt, max_sub, multi).len()),
        ),
{
    assert(vps_timing_ok(x, dflt, max_sub, multi)) by {
        broadcast use crate::bits::law_fits_small;

        reveal(vps_timing_ok);
        reveal(vps_timing_can);
    }
    law_pre_put_vps_timing(a, x, dflt, max_sub, multi, s);
}

/// Each field of the model of a [`VvcVpsTimingHrd`] is the field of that name.
pub proof fn law_view_vps_timing(x: VvcVpsTimingHrd)
    ensures
        x@.general == x.general,
        x@.vps_sublayer_cpb_params_present_flag == x.vps_sublayer_cpb_params_present_flag,
        x@.entries == seq_view(x.entries@),
        x@.vps_ols_timing_hrd_idx == x.vps_ols_timing_hrd_idx@,
{
}

// ─────────────────────────── The VPS itself ──────────────────────────────────

/// A completely-walked VVC VPS (§7.3.2.3). Every syntax element is
/// retained (or inferred when absent) so [`write_vps`] can
/// re-emit the RBSP byte-exactly.
#[derive(Debug, Clone, PartialEq, Eq, Default)]
pub struct VvcVps {
    /// `vps_video_parameter_set_id` u(4) — the standard requires > 0;
    /// surfaced rather than rejected so callers can decide.
    pub vps_video_parameter_set_id: u8,
    /// `vps_max_sublayers_minus1` u(3) — 0..=6.
    pub vps_max_sublayers_minus1: u8,
    /// `vps_default_ptl_dpb_hrd_max_tid_flag` u(1) — coded only when
    /// both layer and sublayer counts exceed 1; inferred 1.
    pub vps_default_ptl_dpb_hrd_max_tid_flag: u8,
    /// `vps_all_independent_layers_flag` u(1) — coded only for
    /// multi-layer VPSs; inferred 1.
    pub vps_all_independent_layers_flag: u8,
    /// The `vps_max_layers_minus1 + 1` layer entries.
    pub layers: Vec<VvcVpsLayer>,
    /// `vps_each_layer_is_an_ols_flag` u(1) — coded only for
    /// all-independent multi-layer VPSs; inferred 1 (single layer) or
    /// 0 (dependent layers).
    pub vps_each_layer_is_an_ols_flag: u8,
    /// `vps_ols_mode_idc` u(2) — 0..=2 (3 reserved); coded only when
    /// `!vps_each_layer_is_an_ols_flag` and
    /// `!vps_all_independent_layers_flag`; inferred 2 otherwise
    /// (meaningless when each layer is an OLS).
    pub vps_ols_mode_idc: u8,
    /// `vps_ols_output_layer_flag[i][j]` rows for OLS `i` in
    /// 1..`TotalNumOlss` (mode 2 only) — each row has one flag per
    /// layer.
    pub vps_ols_output_layer_flags: Vec<Vec<u8>>,
    /// The `vps_num_ptls_minus1 + 1` PTL slots.
    pub ptls: Vec<VvcVpsPtl>,
    /// `vps_ols_ptl_idx[i]` for every OLS — carries the §7.4.3.3
    /// inferred values when the field is not coded.
    pub vps_ols_ptl_idx: Vec<u32>,
    /// `vps_sublayer_dpb_params_present_flag` u(1) — coded only when
    /// the DPB block is present and `vps_max_sublayers_minus1 > 0`;
    /// inferred 0.
    pub vps_sublayer_dpb_params_present_flag: u8,
    /// The `VpsNumDpbParams` DPB slots (empty when each layer is an
    /// OLS).
    pub dpb_params: Vec<VvcVpsDpb>,
    /// Per-multi-layer-OLS DPB sizing entries (`NumMultiLayerOlss` of
    /// them).
    pub ols_dpbs: Vec<VvcVpsOlsDpb>,
    /// Timing/HRD block — present iff
    /// `vps_timing_hrd_params_present_flag` (only coded when the DPB
    /// block is).
    pub timing_hrd: Option<VvcVpsTimingHrd>,
    /// `vps_extension_flag` u(1).
    pub vps_extension_flag: u8,
    /// `vps_extension_data_flag` bits — retained verbatim; must end
    /// in a 1 bit.
    pub vps_extension_data: Vec<u8>,
}

impl VvcVps {
    /// `vps_max_layers_minus1` (u(6)), one less than the layer count.
    pub fn vps_max_layers_minus1(&self) -> (n: u8)
        ensures
            n == (if self.layers@.len() >= 1 {
                (self.layers@.len() - 1) as u8
            } else {
                0u8
            }),
    {
        if self.layers.len() >= 1 {
            (self.layers.len() - 1) as u8
        } else {
            0
        }
    }

    /// The per-layer `nuh_layer_id` values.
    pub fn layer_ids(&self) -> (ids: Vec<u8>)
        ensures
            ids@ == Seq::new(self.layers@.len(), |i: int| self.layers@[i].vps_layer_id),
    {
        let mut ids: Vec<u8> = Vec::new();
        let mut i: usize = 0;
        while i < self.layers.len()
            invariant
                i <= self.layers@.len(),
                ids@.len() == i,
                forall|j: int| 0 <= j < i ==> #[trigger] ids@[j] == self.layers@[j].vps_layer_id,
            decreases self.layers@.len() - i,
        {
            ids.push(self.layers[i].vps_layer_id);
            i = i + 1;
        }
        ids
    }
}

/// The fields of a VPS up to the output layer sets.
pub struct VpsFront {
    pub vps_video_parameter_set_id: u8,
    pub vps_max_sublayers_minus1: u8,
    pub vps_default_ptl_dpb_hrd_max_tid_flag: u8,
    pub vps_all_independent_layers_flag: u8,
    pub layers: Vec<VvcVpsLayer>,
    pub vps_each_layer_is_an_ols_flag: u8,
    pub vps_ols_mode_idc: u8,
    pub vps_ols_output_layer_flags: Vec<Vec<u8>>,
}

/// The mathematical model of a [`VpsFront`].
pub struct VpsFrontModel {
    pub vps_video_parameter_set_id: u8,
    pub vps_max_sublayers_minus1: u8,
    pub vps_default_ptl_dpb_hrd_max_tid_flag: u8,
    pub vps_all_independent_layers_flag: u8,
    pub layers: Seq<VvcVpsLayerModel>,
    pub vps_each_layer_is_an_ols_flag: u8,
    pub vps_ols_mode_idc: u8,
    pub vps_ols_output_layer_flags: Seq<Seq<u8>>,
}

impl View for VpsFront {
    type V = VpsFrontModel;

    open spec fn view(&self) -> VpsFrontModel {
        VpsFrontModel {
            vps_video_parameter_set_id: self.vps_video_parameter_set_id,
            vps_max_sublayers_minus1: self.vps_max_sublayers_minus1,
            vps_default_ptl_dpb_hrd_max_tid_flag: self.vps_default_ptl_dpb_hrd_max_tid_flag,
            vps_all_independent_layers_flag: self.vps_all_independent_layers_flag,
            layers: seq_view(self.layers@),
            vps_each_layer_is_an_ols_flag: self.vps_each_layer_is_an_ols_flag,
            vps_ols_mode_idc: self.vps_ols_mode_idc,
            vps_ols_output_layer_flags: seq_view(self.vps_ols_output_layer_flags@),
        }
    }
}

/// The fields of a VPS up to the output layer sets at position `p`.
#[verifier::opaque]
pub open spec fn vps_front_at(s: Seq<bool>, p: nat) -> Read<VpsFrontModel> {
    let vps_video_parameter_set_id = u8_at(s, p, 4);
    let p = adv(p, 4);
    let max_layers_minus1 = u8_at(s, p, 6);
    let p = adv(p, 6);
    let vps_max_sublayers_minus1 = u8_at(s, p, 3);
    let p = adv(p, 3);
    if vps_max_sublayers_minus1 > 6 { Err(Fault::Invalid) } else {
    let many = max_layers_minus1 > 0;
    let vps_default_ptl_dpb_hrd_max_tid_flag = u8_if(s, p, 1, many && vps_max_sublayers_minus1 > 0, 1);
    let p = adv_if(p, 1, many && vps_max_sublayers_minus1 > 0);
    let vps_all_independent_layers_flag = u8_if(s, p, 1, many, 1);
    let p = adv_if(p, 1, many);
    match vps_layers_at(
        s,
        p,
        vps_all_independent_layers_flag,
        (vps_max_sublayers_minus1 + 1) as u8,
        (max_layers_minus1 as u64 + 1) as u64,
    )
    { Err(f) => Err(f), Ok((layers, p)) => {
    if !increasing(layers) { Err(Fault::Invalid) } else {
    let vps_each_layer_is_an_ols_flag = u8_if(
        s,
        p,
        1,
        many && vps_all_independent_layers_flag != 0,
        (if many { 0u8 } else { 1u8 }),
    );
    let p = adv_if(p, 1, many && vps_all_independent_layers_flag != 0);
    let modal = many && vps_each_layer_is_an_ols_flag == 0;
    let vps_ols_mode_idc = u8_if(s, p, 2, modal && vps_all_independent_layers_flag == 0, 2);
    let p = adv_if(p, 2, modal && vps_all_independent_layers_flag == 0);
    if vps_ols_mode_idc > 2 { Err(Fault::Invalid) } else {
    let explicit = modal && vps_ols_mode_idc == 2;
    let num_olss_minus2 = u8_if(s, p, 8, explicit, 0);
    let p = adv_if(p, 8, explicit);
    let num_rows = (if explicit { (num_olss_minus2 as u64 + 1) as u64 } else { 0 });
    match ols_rows_at(s, p, (max_layers_minus1 as u64 + 1) as u64, num_rows)
    { Err(f) => Err(f), Ok((vps_ols_output_layer_flags, p)) => {
    Ok((
        VpsFrontModel {
            vps_video_parameter_set_id,
            vps_max_sublayers_minus1,
            vps_default_ptl_dpb_hrd_max_tid_flag,
            vps_all_independent_layers_flag,
            layers,
            vps_each_layer_is_an_ols_flag,
            vps_ols_mode_idc,
            vps_ols_output_layer_flags,
        },
        p,
    ))
    }}}}}}}
}

/// The bits `a` followed by the fields of a VPS up to the output layer sets.
#[verifier::opaque]
pub open spec fn put_vps_front(a: Seq<bool>, x: VpsFrontModel) -> Seq<bool> {
    let a = put_u(a, x.vps_video_parameter_set_id as nat, 4);
    let max_layers_minus1 = (x.layers.len() - 1) as u8;
    let a = put_u(a, max_layers_minus1 as nat, 6);
    let a = put_u(a, x.vps_max_sublayers_minus1 as nat, 3);
    let many = max_layers_minus1 > 0;
    let a = put_bit_if(
        a,
        x.vps_default_ptl_dpb_hrd_max_tid_flag as nat,
        many && x.vps_max_sublayers_minus1 > 0,
    );
    let a = put_bit_if(a, x.vps_all_independent_layers_flag as nat, many);
    let a = put_vps_layers(
        a,
        x.layers,
        x.vps_all_independent_layers_flag,
        (x.vps_max_sublayers_minus1 + 1) as u8,
        (max_layers_minus1 as u64 + 1) as u64,
    );
    let a = put_bit_if(
        a,
        x.vps_each_layer_is_an_ols_flag as nat,
        many && x.vps_all_independent_layers_flag != 0,
    );
    let modal = many && x.vps_each_layer_is_an_ols_flag == 0;
    let a = put_u_if(a, x.vps_ols_mode_idc as nat, 2, modal && x.vps_all_independent_layers_flag == 0);
    let explicit = modal && x.vps_ols_mode_idc == 2;
    let num_olss_minus2 = (if explicit { (x.vps_ols_output_layer_flags.len() - 1) as u8 } else { 0 });
    let a = put_u_if(a, num_olss_minus2 as nat, 8, explicit);
    let num_rows = (if explicit { (num_olss_minus2 as u64 + 1) as u64 } else { 0 });
    let a = put_ols_rows(a, x.vps_ols_output_layer_flags, (max_layers_minus1 as u64 + 1) as u64, num_rows);
    a
}

/// The values of the fields of a VPS up to the output layer sets that reading
/// can give.
#[verifier::opaque]
pub open spec fn vps_front_ok(x: VpsFrontModel) -> bool {
    &&& x.layers.len() >= 1 && x.layers.len() <= 64
    &&& x.vps_max_sublayers_minus1 <= 6
    &&& fits(x.vps_video_parameter_set_id as nat, 4)
    &&& {
        let max_layers_minus1 = (x.layers.len() - 1) as u8;
        &&& fits(max_layers_minus1 as nat, 6)
        &&& fits(x.vps_max_sublayers_minus1 as nat, 3)
        &&& {
            let many = max_layers_minus1 > 0;
            &&& if many
                && x.vps_max_sublayers_minus1 > 0 {
                    fits(x.vps_default_ptl_dpb_hrd_max_tid_flag as nat, 1)
                } else {
                    x.vps_default_ptl_dpb_hrd_max_tid_flag == 1
                }
            &&& if many {
                fits(x.vps_all_independent_layers_flag as nat, 1)
            } else {
                x.vps_all_independent_layers_flag == 1
            }
            &&& vps_layers_ok(
                x.layers,
                x.vps_all_independent_layers_flag,
                (x.vps_max_sublayers_minus1 + 1) as u8,
                (max_layers_minus1 as u64 + 1) as u64,
            )
            &&& increasing(x.layers)
            &&& if many
                && x.vps_all_independent_layers_flag != 0 {
                    fits(x.vps_each_layer_is_an_ols_flag as nat, 1)
                } else {
                    x.vps_each_layer_is_an_ols_flag == (if many { 0u8 } else { 1u8 })
                }
            &&& !many || x.vps_all_independent_layers_flag != 0 || x.vps_each_layer_is_an_ols_flag == 0
            &&& {
                let modal = many && x.vps_each_layer_is_an_ols_flag == 0;
                &&& !modal
                    || (
                        if x.vps_all_independent_layers_flag == 0 {
                            x.vps_ols_mode_idc <= 2
                        } else {
                            x.vps_ols_mode_idc == 2
                        }
                    )
                &&& if modal
                    && x.vps_all_independent_layers_flag == 0 {
                        fits(x.vps_ols_mode_idc as nat, 2)
                    } else {
                        x.vps_ols_mode_idc == 2
                    }
                &&& x.vps_ols_mode_idc <= 2
                &&& {
                    let explicit = modal && x.vps_ols_mode_idc == 2;
                    &&& !explicit
                        || (
                            x.vps_ols_output_layer_flags.len() >= 1
                                && x.vps_ols_output_layer_flags.len() <= 256
                        )
                    &&& {
                        let num_olss_minus2 = (
                            if explicit { (x.vps_ols_output_layer_flags.len() - 1) as u8 } else { 0 }
                        );
                        &&& if explicit { fits(num_olss_minus2 as nat, 8) } else { num_olss_minus2 == 0 }
                        &&& {
                            let num_rows = (if explicit { (num_olss_minus2 as u64 + 1) as u64 } else { 0 });
                            &&& ols_rows_ok(
                                x.vps_ols_output_layer_flags,
                                (max_layers_minus1 as u64 + 1) as u64,
                                num_rows,
                            )
                        }
                    }
                }
            }
        }
    }
}

/// The values of the fields of a VPS up to the output layer sets that the
/// writer accepts.
#[verifier::opaque]
pub open spec fn vps_front_can(x: VpsFrontModel) -> bool {
    &&& x.layers.len() >= 1 && x.layers.len() <= 64
    &&& x.vps_video_parameter_set_id <= 15 && x.vps_max_sublayers_minus1 <= 6
    &&& {
        let max_layers_minus1 = (x.layers.len() - 1) as u8;
        let many = max_layers_minus1 > 0;
        &&& (many && x.vps_max_sublayers_minus1 > 0) || x.vps_default_ptl_dpb_hrd_max_tid_flag == 1
        &&& many || x.vps_all_independent_layers_flag == 1
        &&& vps_layers_can(
            x.layers,
            x.vps_all_independent_layers_flag,
            (x.vps_max_sublayers_minus1 + 1) as u8,
            (max_layers_minus1 as u64 + 1) as u64,
        )
        &&& increasing(x.layers)
        &&& !many || x.vps_all_independent_layers_flag != 0 || x.vps_each_layer_is_an_ols_flag == 0
        &&& {
            let modal = many && x.vps_each_layer_is_an_ols_flag == 0;
            &&& !modal
                || (
                    if x.vps_all_independent_layers_flag == 0 {
                        x.vps_ols_mode_idc <= 2
                    } else {
                        x.vps_ols_mode_idc == 2
                    }
                )
            &&& {
                let explicit = modal && x.vps_ols_mode_idc == 2;
                &&& !explicit
                    || (x.vps_ols_output_layer_flags.len() >= 1 && x.vps_ols_output_layer_flags.len() <= 256)
                &&& {
                    let num_olss_minus2 = (
                        if explicit { (x.vps_ols_output_layer_flags.len() - 1) as u8 } else { 0 }
                    );
                    let num_rows = (if explicit { (num_olss_minus2 as u64 + 1) as u64 } else { 0 });
                    &&& ols_rows_can(
                        x.vps_ols_output_layer_flags,
                        (max_layers_minus1 as u64 + 1) as u64,
                        num_rows,
                    )
                }
            }
        }
    }
}

/// Parses the fields of a VPS up to the output layer sets.
#[verifier::rlimit(40)]
#[verifier::spinoff_prover]
fn parse_vps_front(r: &mut BitReader<'_>) -> (res: Result<VpsFront, BitstreamError>)
    ensures
        read_view_is(vps_front_at(old(r).bits(), old(r).pos()), res, *old(r), *final(r)),
        res matches Ok(x)
            ==> 1 <= x.layers@.len() <= 64
            && x.vps_max_sublayers_minus1 <= 6
            && x.vps_ols_output_layer_flags@.len() <= 256,
{
    proof {
        reveal(vps_front_at);
    }
    let vps_video_parameter_set_id: u8 = r.u8(4);
    let max_layers_minus1: u8 = r.u8(6);
    proof { law_fits_small(max_layers_minus1 as nat, 6); }
    let vps_max_sublayers_minus1: u8 = r.u8(3);
    if vps_max_sublayers_minus1 > 6 {
        return Err(
            Message::new("vps_max_sublayers_minus1 = ")
                .num(vps_max_sublayers_minus1 as i128)
                .with(" > 6 (spec range 0..=6)")
                .invalid(),
        );
    }
    let many: bool = max_layers_minus1 > 0;
    let vps_default_ptl_dpb_hrd_max_tid_flag: u8 = r.bit_if(many && vps_max_sublayers_minus1 > 0, 1);
    let vps_all_independent_layers_flag: u8 = r.bit_if(many, 1);
    let layers = parse_vps_layers(
        r,
        vps_all_independent_layers_flag,
        (vps_max_sublayers_minus1 + 1) as u8,
        max_layers_minus1 as u64 + 1,
    )?;
    if !ids_increase(&layers) {
        return Err(BitstreamError::invalid("vps_layer_id values must be strictly increasing (7.4.3.3)"));
    }
    let vps_each_layer_is_an_ols_flag: u8 = r.bit_if(
        many && vps_all_independent_layers_flag != 0,
        (if many { 0u8 } else { 1u8 }),
    );
    let modal: bool = many && vps_each_layer_is_an_ols_flag == 0;
    let vps_ols_mode_idc: u8 = r.u8_if(2, modal && vps_all_independent_layers_flag == 0, 2);
    if vps_ols_mode_idc > 2 {
        return Err(BitstreamError::invalid("vps_ols_mode_idc = 3 is reserved (7.4.3.3)"));
    }
    let explicit: bool = modal && vps_ols_mode_idc == 2;
    let num_olss_minus2: u8 = r.u8_if(8, explicit, 0);
    let num_rows: u64 = (if explicit { num_olss_minus2 as u64 + 1 } else { 0 });
    let vps_ols_output_layer_flags = parse_ols_rows(r, max_layers_minus1 as u64 + 1, num_rows)?;
    Ok(
        VpsFront {
            vps_video_parameter_set_id,
            vps_max_sublayers_minus1,
            vps_default_ptl_dpb_hrd_max_tid_flag,
            vps_all_independent_layers_flag,
            layers,
            vps_each_layer_is_an_ols_flag,
            vps_ols_mode_idc,
            vps_ols_output_layer_flags,
        },
    )
}

/// Emits the fields of a VPS up to the output layer sets, the inverse of [`parse_vps_front`].
#[verifier::rlimit(40)]
#[verifier::spinoff_prover]
fn write_vps_front(w: &mut BitWriter, x: &VvcVps) -> (res: Result<(), BitstreamError>)
    ensures
        write_is(vps_front_can(x@.front), put_vps_front(old(w)@, x@.front), res, final(w)@),
        res is Ok
            ==> 1 <= x.layers@.len() <= 64
            && x.vps_max_sublayers_minus1 <= 6
            && x.vps_ols_output_layer_flags@.len() <= 256,
{
    proof {
        reveal(put_vps_front);
        reveal(vps_front_can);
    }
    if !(x.layers.len() >= 1 && x.layers.len() <= 64) {
        return Err(
            BitstreamError::invalid("VPS must describe 1..=64 layers (vps_max_layers_minus1 is u(6))"),
        );
    }
    if !(x.vps_video_parameter_set_id <= 15 && x.vps_max_sublayers_minus1 <= 6) {
        return Err(
            BitstreamError::invalid("vps_video_parameter_set_id / vps_max_sublayers_minus1 out of range"),
        );
    }
    w.write_bits(x.vps_video_parameter_set_id as u32, 4);
    let max_layers_minus1: u8 = (x.layers.len() - 1) as u8;
    w.write_bits(max_layers_minus1 as u32, 6);
    w.write_bits(x.vps_max_sublayers_minus1 as u32, 3);
    let many: bool = max_layers_minus1 > 0;
    w.write_bit_if(x.vps_default_ptl_dpb_hrd_max_tid_flag as u32, many && x.vps_max_sublayers_minus1 > 0);
    if !((many && x.vps_max_sublayers_minus1 > 0) || x.vps_default_ptl_dpb_hrd_max_tid_flag == 1) {
        return Err(
            BitstreamError::invalid(
                "vps_default_ptl_dpb_hrd_max_tid_flag must carry its inferred value 1 (7.4.3.3)",
            ),
        );
    }
    w.write_bit_if(x.vps_all_independent_layers_flag as u32, many);
    if !(many || x.vps_all_independent_layers_flag == 1) {
        return Err(
            BitstreamError::invalid(
                "vps_all_independent_layers_flag must carry its inferred value 1 (7.4.3.3)",
            ),
        );
    }
    write_vps_layers(
        w,
        &x.layers,
        x.vps_all_independent_layers_flag,
        (x.vps_max_sublayers_minus1 + 1) as u8,
        max_layers_minus1 as u64 + 1,
    )?;
    if !ids_increase(&x.layers) {
        return Err(BitstreamError::invalid("vps_layer_id values must be strictly increasing (7.4.3.3)"));
    }
    w.write_bit_if(x.vps_each_layer_is_an_ols_flag as u32, many && x.vps_all_independent_layers_flag != 0);
    if !(!many || x.vps_all_independent_layers_flag != 0 || x.vps_each_layer_is_an_ols_flag == 0) {
        return Err(
            BitstreamError::invalid(
                "vps_each_layer_is_an_ols_flag must carry its inferred value 0 (7.4.3.3)",
            ),
        );
    }
    let modal: bool = many && x.vps_each_layer_is_an_ols_flag == 0;
    if !(
        !modal
        || (if x.vps_all_independent_layers_flag == 0 { x.vps_ols_mode_idc <= 2 } else { x.vps_ols_mode_idc == 2 })
    ) {
        return Err(
            if x.vps_all_independent_layers_flag == 0 {
                BitstreamError::invalid("vps_ols_mode_idc = 3 is reserved (7.4.3.3)")
            } else {
                BitstreamError::invalid("vps_ols_mode_idc must carry its inferred value 2 (7.4.3.3)")
            },
        );
    }
    w.write_bits_if(x.vps_ols_mode_idc as u32, 2, modal && x.vps_all_independent_layers_flag == 0);
    let explicit: bool = modal && x.vps_ols_mode_idc == 2;
    if !(
        !explicit
        || (x.vps_ols_output_layer_flags.len() >= 1 && x.vps_ols_output_layer_flags.len() <= 256)
    ) {
        return Err(BitstreamError::invalid("mode-2 VPS needs 1..=256 explicit OLS rows (u(8) count)"));
    }
    let num_olss_minus2: u8 = if explicit { (x.vps_ols_output_layer_flags.len() - 1) as u8 } else { 0 };
    w.write_bits_if(num_olss_minus2 as u32, 8, explicit);
    let num_rows: u64 = (if explicit { num_olss_minus2 as u64 + 1 } else { 0 });
    write_ols_rows(
        w,
        &x.vps_ols_output_layer_flags,
        max_layers_minus1 as u64 + 1,
        num_rows,
        if many {
            "explicit OLS rows are mode-2 only (7.3.2.3)"
        } else {
            "single-layer VPS carries exactly one inferred PTL slot (7.4.3.3)"
        },
    )?;
    Ok(())
}

/// Writing the fields of a VPS up to the output layer sets gives back the bits
/// it was read from.
#[verifier::rlimit(40)]
#[verifier::spinoff_prover]
pub broadcast proof fn law_put_vps_front_at(s: Seq<bool>, p: nat)
    ensures
        #[trigger] vps_front_at(s, p) matches Ok((x, q)) ==> {
            &&& vps_front_ok(x)
            &&& vps_front_can(x)
            &&& within(s, q) ==> within(s, p) && put_vps_front(upto(s, p), x) == upto(s, q)
        },
{
    broadcast use {crate::bits::group_write_read, law_put_vps_layers_at, law_put_ols_rows_at};

    reveal(vps_front_at);
    reveal(put_vps_front);
    reveal(vps_front_ok);
    reveal(vps_front_can);
}

/// Reading gives back the fields of a VPS up to the output layer sets as it was
/// written.
#[verifier::rlimit(40)]
#[verifier::spinoff_prover]
pub broadcast proof fn law_pre_put_vps_front(a: Seq<bool>, x: VpsFrontModel, s: Seq<bool>)
    requires
        #[trigger] pre(put_vps_front(a, x), s),
        vps_front_ok(x),
    ensures
        pre(a, s),
        vps_front_can(x),
        vps_front_at(s, a.len()) == Ok::<(VpsFrontModel, nat), Fault>((x, put_vps_front(a, x).len())),
{
    broadcast use {crate::bits::group_read_written, law_pre_put_vps_layers, law_pre_put_ols_rows};

    reveal(vps_front_at);
    reveal(put_vps_front);
    reveal(vps_front_ok);
    reveal(vps_front_can);
}

/// The layout of the fields of a VPS up to the output layer sets: reading at
/// `p` gives `x` and ends at `q` if and only if these elements stand there in
/// this order, and the values are allowed.
#[verifier::rlimit(40)]
#[verifier::spinoff_prover]
pub proof fn law_layout_vps_front(s: Seq<bool>, p: nat, x: VpsFrontModel, q: nat)
    ensures
        vps_front_at(s, p) == Ok::<(VpsFrontModel, nat), Fault>((x, q)) <==> ({
            let c = cursor(s, p).u8(4, x.vps_video_parameter_set_id);
            let max_layers_minus1 = c.next_u8(6);
            let many = max_layers_minus1 > 0;
            let modal = many && x.vps_each_layer_is_an_ols_flag == 0;
            let explicit = modal && x.vps_ols_mode_idc == 2;
            let c = c
                .u8(6, max_layers_minus1)
                .u8(3, x.vps_max_sublayers_minus1)
                .u8_if(many && x.vps_max_sublayers_minus1 > 0, 1, x.vps_default_ptl_dpb_hrd_max_tid_flag, 1)
                .u8_if(many, 1, x.vps_all_independent_layers_flag, 1)
                .part(
                    |p: nat| vps_layers_at(
                        s,
                        p,
                        x.vps_all_independent_layers_flag,
                        (x.vps_max_sublayers_minus1 + 1) as u8,
                        (max_layers_minus1 as u64 + 1) as u64,
                    ),
                    x.layers,
                )
                .u8_if(
                    many && x.vps_all_independent_layers_flag != 0,
                    1,
                    x.vps_each_layer_is_an_ols_flag,
                    (if many { 0u8 } else { 1u8 }),
                )
                .u8_if(modal && x.vps_all_independent_layers_flag == 0, 2, x.vps_ols_mode_idc, 2);
            let num_olss_minus2 = if explicit { c.next_u8(8) } else { 0 };
            let num_rows = (if explicit { (num_olss_minus2 as u64 + 1) as u64 } else { 0 });
            &&& c
                .u8_if(explicit, 8, num_olss_minus2, 0)
                .part(
                    |p: nat| ols_rows_at(s, p, (max_layers_minus1 as u64 + 1) as u64, num_rows),
                    x.vps_ols_output_layer_flags,
                )
                .ends(q)
            &&& x.vps_max_sublayers_minus1 <= 6
            &&& increasing(x.layers)
            &&& x.vps_ols_mode_idc <= 2
        }),
{
    reveal(vps_front_at);
    reveal(adv_if);
    reveal(u8_if);
}

/// Reading the fields of a VPS up to the output layer sets fails only with an
/// error of this class.
#[verifier::rlimit(40)]
#[verifier::spinoff_prover]
pub broadcast proof fn law_faults_vps_front(s: Seq<bool>, p: nat)
    ensures
        #[trigger] vps_front_at(s, p) matches Err(f) ==> f == Fault::Invalid,
{
    broadcast use {law_faults_vps_layers, law_faults_ols_rows};

    reveal(vps_front_at);
}

/// What the writer accepts reads back: the fields of a VPS up to the output
/// layer sets, where each field fits its width and what is not coded has the
/// value that is taken for it.
#[verifier::rlimit(40)]
#[verifier::spinoff_prover]
pub proof fn law_reads_vps_front(a: Seq<bool>, x: VpsFrontModel, s: Seq<bool>)
    requires
        vps_front_can(x),
        ({
            let max_layers_minus1 = (x.layers.len() - 1) as u8;
            let many = max_layers_minus1 > 0;
            &&& if many
                && x.vps_max_sublayers_minus1 > 0 {
                    fits(x.vps_default_ptl_dpb_hrd_max_tid_flag as nat, 1)
                } else {
                    x.vps_default_ptl_dpb_hrd_max_tid_flag == 1
                }
            &&& if many {
                fits(x.vps_all_independent_layers_flag as nat, 1)
            } else {
                x.vps_all_independent_layers_flag == 1
            }
            &&& vps_layers_ok(
                x.layers,
                x.vps_all_independent_layers_flag,
                (x.vps_max_sublayers_minus1 + 1) as u8,
                (max_layers_minus1 as u64 + 1) as u64,
            )
            &&& if many
                && x.vps_all_independent_layers_flag != 0 {
                    fits(x.vps_each_layer_is_an_ols_flag as nat, 1)
                } else {
                    x.vps_each_layer_is_an_ols_flag == (if many { 0u8 } else { 1u8 })
                }
            &&& {
                let modal = many && x.vps_each_layer_is_an_ols_flag == 0;
                &&& (!(modal && x.vps_all_independent_layers_flag == 0) ==> x.vps_ols_mode_idc == 2)
                &&& {
                    let explicit = modal && x.vps_ols_mode_idc == 2;
                    let num_olss_minus2 = (
                        if explicit { (x.vps_ols_output_layer_flags.len() - 1) as u8 } else { 0 }
                    );
                    let num_rows = (if explicit { (num_olss_minus2 as u64 + 1) as u64 } else { 0 });
                    &&& ols_rows_ok(
                        x.vps_ols_output_layer_flags,
                        (max_layers_minus1 as u64 + 1) as u64,
                        num_rows,
                    )
                }
            }
        }),
        pre(put_vps_front(a, x), s),
    ensures
        vps_front_at(s, a.len()) == Ok::<(VpsFrontModel, nat), Fault>((x, put_vps_front(a, x).len())),
{
    assert(vps_front_ok(x)) by {
        broadcast use crate::bits::law_fits_small;

        reveal(vps_front_ok);
        reveal(vps_front_can);
    }
    law_pre_put_vps_front(a, x, s);
}

/// Each field of the model of a [`VpsFront`] is the field of that name.
pub proof fn law_view_vps_front(x: VpsFront)
    ensures
        x@.vps_video_parameter_set_id == x.vps_video_parameter_set_id,
        x@.vps_max_sublayers_minus1 == x.vps_max_sublayers_minus1,
        x@.vps_default_ptl_dpb_hrd_max_tid_flag == x.vps_default_ptl_dpb_hrd_max_tid_flag,
        x@.vps_all_independent_layers_flag == x.vps_all_independent_layers_flag,
        x@.layers == seq_view(x.layers@),
        x@.vps_each_layer_is_an_ols_flag == x.vps_each_layer_is_an_ols_flag,
        x@.vps_ols_mode_idc == x.vps_ols_mode_idc,
        x@.vps_ols_output_layer_flags == seq_view(x.vps_ols_output_layer_flags@),
{
}

broadcast proof fn lemma_vps_front_bounds(x: VpsFrontModel)
    ensures
        #[trigger] vps_front_ok(x) ==> 1 <= x.layers.len() <= 64
            && x.vps_ols_output_layer_flags.len() <= 256,
{
    reveal(vps_front_ok);
    reveal(vps_layers_ok);
    reveal(ols_rows_ok);
}

/// The PTL slots of a VPS and the PTL index of each OLS.
pub struct VpsSlots {
    pub ptls: Vec<VvcVpsPtl>,
    pub vps_ols_ptl_idx: Vec<u32>,
}

/// The mathematical model of a [`VpsSlots`].
pub struct VpsSlotsModel {
    pub ptls: Seq<VvcVpsPtlModel>,
    pub vps_ols_ptl_idx: Seq<u32>,
}

impl View for VpsSlots {
    type V = VpsSlotsModel;

    open spec fn view(&self) -> VpsSlotsModel {
        VpsSlotsModel {
            ptls: seq_view(self.ptls@),
            vps_ols_ptl_idx: self.vps_ols_ptl_idx@,
        }
    }
}

/// The PTL slots of a VPS and the PTL index of each OLS at position `p`.
#[verifier::opaque]
pub open spec fn vps_slots_at(
    s: Seq<bool>,
    p: nat,
    many: bool,
    dflt: u8,
    max_sub: u8,
    total: u64,
) -> Read<VpsSlotsModel> {
    let num_ptls_minus1 = u8_if(s, p, 8, many, 0);
    let p = adv_if(p, 8, many);
    if !((num_ptls_minus1 as u64) < total) { Err(Fault::Invalid) } else {
    match vps_ptls_at(s, p, dflt, max_sub, (num_ptls_minus1 as u64 + 1) as u64)
    { Err(f) => Err(f), Ok((ptls, p)) => {
    match param_idxs_at(s, p, num_ptls_minus1 as u64, total, total)
    { Err(f) => Err(f), Ok((vps_ols_ptl_idx, p)) => {
    Ok((VpsSlotsModel { ptls, vps_ols_ptl_idx }, p))
    }}}}}
}

/// The bits `a` followed by the PTL slots of a VPS and the PTL index of each
/// OLS.
#[verifier::opaque]
pub open spec fn put_vps_slots(
    a: Seq<bool>,
    x: VpsSlotsModel,
    many: bool,
    dflt: u8,
    max_sub: u8,
    total: u64,
) -> Seq<bool> {
    let num_ptls_minus1 = (x.ptls.len() - 1) as u8;
    let a = put_u_if(a, num_ptls_minus1 as nat, 8, many);
    let a = put_vps_ptls(a, x.ptls, dflt, max_sub, (num_ptls_minus1 as u64 + 1) as u64);
    let a = put_param_idxs(a, x.vps_ols_ptl_idx, num_ptls_minus1 as u64, total, total);
    a
}

/// The values of the PTL slots of a VPS and the PTL index of each OLS that
/// reading can give.
#[verifier::opaque]
pub open spec fn vps_slots_ok(x: VpsSlotsModel, many: bool, dflt: u8, max_sub: u8, total: u64) -> bool {
    &&& x.ptls.len() >= 1 && x.ptls.len() <= 256 && x.ptls.len() as u64 <= total
    &&& many || x.ptls.len() == 1
    &&& {
        let num_ptls_minus1 = (x.ptls.len() - 1) as u8;
        &&& if many { fits(num_ptls_minus1 as nat, 8) } else { num_ptls_minus1 == 0 }
        &&& (num_ptls_minus1 as u64) < total
        &&& vps_ptls_ok(x.ptls, dflt, max_sub, (num_ptls_minus1 as u64 + 1) as u64)
        &&& param_idxs_ok(x.vps_ols_ptl_idx, num_ptls_minus1 as u64, total, total)
    }
}

/// The values of the PTL slots of a VPS and the PTL index of each OLS that the
/// writer accepts.
#[verifier::opaque]
pub open spec fn vps_slots_can(x: VpsSlotsModel, many: bool, dflt: u8, max_sub: u8, total: u64) -> bool {
    &&& x.ptls.len() >= 1 && x.ptls.len() <= 256 && x.ptls.len() as u64 <= total
    &&& many || x.ptls.len() == 1
    &&& {
        let num_ptls_minus1 = (x.ptls.len() - 1) as u8;
        &&& vps_ptls_can(x.ptls, dflt, max_sub, (num_ptls_minus1 as u64 + 1) as u64)
        &&& param_idxs_can(x.vps_ols_ptl_idx, num_ptls_minus1 as u64, total, total)
    }
}

/// Parses the PTL slots of a VPS and the PTL index of each OLS.
#[verifier::rlimit(40)]
#[verifier::spinoff_prover]
fn parse_vps_slots(
    r: &mut BitReader<'_>,
    many: bool,
    dflt: u8,
    max_sub: u8,
    total: u64,
) -> (res: Result<VpsSlots, BitstreamError>)
    ensures
        read_view_is(
            vps_slots_at(old(r).bits(), old(r).pos(), many, dflt, max_sub, total),
            res,
            *old(r),
            *final(r),
        ),
{
    proof {
        reveal(vps_slots_at);
    }
    let num_ptls_minus1: u8 = r.u8_if(8, many, 0);
    if !((num_ptls_minus1 as u64) < total) {
        return Err(BitstreamError::invalid("vps_num_ptls_minus1 must be less than TotalNumOlss (7.4.3.3)"));
    }
    let ptls = parse_vps_ptls(r, dflt, max_sub, num_ptls_minus1 as u64 + 1)?;
    let vps_ols_ptl_idx = parse_param_idxs(
        r,
        num_ptls_minus1 as u64,
        total,
        total,
        "vps_ols_ptl_idx exceeds vps_num_ptls_minus1 (7.4.3.3)",
    )?;
    Ok(VpsSlots { ptls, vps_ols_ptl_idx })
}

/// Emits the PTL slots of a VPS and the PTL index of each OLS, the inverse of
/// [`parse_vps_slots`].
#[verifier::rlimit(40)]
#[verifier::spinoff_prover]
fn write_vps_slots(
    w: &mut BitWriter,
    x: &VvcVps,
    many: bool,
    dflt: u8,
    max_sub: u8,
    total: u64,
) -> (res: Result<(), BitstreamError>)
    ensures
        write_is(
            vps_slots_can(x@.slots, many, dflt, max_sub, total),
            put_vps_slots(old(w)@, x@.slots, many, dflt, max_sub, total),
            res,
            final(w)@,
        ),
{
    proof {
        reveal(put_vps_slots);
        reveal(vps_slots_can);
    }
    if !(x.ptls.len() >= 1 && x.ptls.len() <= 256 && x.ptls.len() as u64 <= total) {
        return Err(
            if x.ptls.len() == 0 {
                BitstreamError::invalid("VPS needs at least one profile_tier_level() slot (7.3.2.3)")
            } else {
                BitstreamError::invalid("vps_num_ptls_minus1 must fit u(8) and be < TotalNumOlss (7.4.3.3)")
            },
        );
    }
    if !(many || x.ptls.len() == 1) {
        return Err(
            BitstreamError::invalid("single-layer VPS carries exactly one inferred PTL slot (7.4.3.3)"),
        );
    }
    let num_ptls_minus1: u8 = (x.ptls.len() - 1) as u8;
    w.write_bits_if(num_ptls_minus1 as u32, 8, many);
    write_vps_ptls(w, &x.ptls, dflt, max_sub, num_ptls_minus1 as u64 + 1)?;
    write_param_idxs(
        w,
        &x.vps_ols_ptl_idx,
        num_ptls_minus1 as u64,
        total,
        total,
        "vps_ols_ptl_idx exceeds vps_num_ptls_minus1 (7.4.3.3)",
        "uncoded vps_ols_ptl_idx must carry its inferred value (7.4.3.3)",
        "vps_ols_ptl_idx must carry one entry per OLS (7.3.2.3)",
    )?;
    Ok(())
}

/// Writing the PTL slots of a VPS and the PTL index of each OLS gives back the
/// bits it was read from.
#[verifier::rlimit(40)]
#[verifier::spinoff_prover]
pub broadcast proof fn law_put_vps_slots_at(
    s: Seq<bool>,
    p: nat,
    many: bool,
    dflt: u8,
    max_sub: u8,
    total: u64,
)
    ensures
        #[trigger] vps_slots_at(s, p, many, dflt, max_sub, total) matches Ok((x, q)) ==> {
            &&& vps_slots_ok(x, many, dflt, max_sub, total)
            &&& vps_slots_can(x, many, dflt, max_sub, total)
            &&& within(s, q)
                ==> within(s, p)
                && put_vps_slots(upto(s, p), x, many, dflt, max_sub, total) == upto(s, q)
        },
{
    broadcast use {crate::bits::group_write_read, law_put_vps_ptls_at, law_put_param_idxs_at};

    reveal(vps_slots_at);
    reveal(put_vps_slots);
    reveal(vps_slots_ok);
    reveal(vps_slots_can);
}

/// Reading gives back the PTL slots of a VPS and the PTL index of each OLS as
/// it was written.
#[verifier::rlimit(40)]
#[verifier::spinoff_prover]
pub broadcast proof fn law_pre_put_vps_slots(
    a: Seq<bool>,
    x: VpsSlotsModel,
    many: bool,
    dflt: u8,
    max_sub: u8,
    total: u64,
    s: Seq<bool>,
)
    requires
        #[trigger] pre(put_vps_slots(a, x, many, dflt, max_sub, total), s),
        vps_slots_ok(x, many, dflt, max_sub, total),
    ensures
        pre(a, s),
        vps_slots_can(x, many, dflt, max_sub, total),
        vps_slots_at(s, a.len(), many, dflt, max_sub, total) == Ok::<(VpsSlotsModel, nat), Fault>(
            (x, put_vps_slots(a, x, many, dflt, max_sub, total).len()),
        ),
{
    broadcast use {crate::bits::group_read_written, law_pre_put_vps_ptls, law_pre_put_param_idxs};

    reveal(vps_slots_at);
    reveal(put_vps_slots);
    reveal(vps_slots_ok);
    reveal(vps_slots_can);
}

/// The layout of the PTL slots of a VPS and the PTL index of each OLS: reading
/// at `p` gives `x` and ends at `q` if and only if these elements stand there
/// in this order, and the values are allowed.
#[verifier::rlimit(40)]
#[verifier::spinoff_prover]
pub proof fn law_layout_vps_slots(
    s: Seq<bool>,
    p: nat,
    many: bool,
    dflt: u8,
    max_sub: u8,
    total: u64,
    x: VpsSlotsModel,
    q: nat,
)
    ensures
        vps_slots_at(s, p, many, dflt, max_sub, total) == Ok::<(VpsSlotsModel, nat), Fault>((x, q)) <==> ({
            let c = cursor(s, p);
            let num_ptls_minus1 = if many { c.next_u8(8) } else { 0 };
            &&& c
                .u8_if(many, 8, num_ptls_minus1, 0)
                .part(|p: nat| vps_ptls_at(s, p, dflt, max_sub, (num_ptls_minus1 as u64 + 1) as u64), x.ptls)
                .part(|p: nat| param_idxs_at(s, p, num_ptls_minus1 as u64, total, total), x.vps_ols_ptl_idx)
                .ends(q)
            &&& (num_ptls_minus1 as u64) < total
        }),
{
    reveal(vps_slots_at);
    reveal(adv_if);
    reveal(u8_if);
}

/// Reading the PTL slots of a VPS and the PTL index of each OLS fails only with
/// an error of this class.
#[verifier::rlimit(40)]
#[verifier::spinoff_prover]
pub broadcast proof fn law_faults_vps_slots(
    s: Seq<bool>,
    p: nat,
    many: bool,
    dflt: u8,
    max_sub: u8,
    total: u64,
)
    ensures
        #[trigger] vps_slots_at(s, p, many, dflt, max_sub, total) matches Err(f) ==> f == Fault::Invalid,
{
    broadcast use {law_faults_vps_ptls, law_faults_param_idxs};

    reveal(vps_slots_at);
}

/// What the writer accepts reads back: the PTL slots of a VPS and the PTL index
/// of each OLS, where each field fits its width and what is not coded has the
/// value that is taken for it.
#[verifier::rlimit(40)]
#[verifier::spinoff_prover]
pub proof fn law_reads_vps_slots(
    a: Seq<bool>,
    x: VpsSlotsModel,
    many: bool,
    dflt: u8,
    max_sub: u8,
    total: u64,
    s: Seq<bool>,
)
    requires
        vps_slots_can(x, many, dflt, max_sub, total),
        ({
            let num_ptls_minus1 = (x.ptls.len() - 1) as u8;
            &&& vps_ptls_ok(x.ptls, dflt, max_sub, (num_ptls_minus1 as u64 + 1) as u64)
            &&& param_idxs_ok(x.vps_ols_ptl_idx, num_ptls_minus1 as u64, total, total)
        }),
        pre(put_vps_slots(a, x, many, dflt, max_sub, total), s),
    ensures
        vps_slots_at(s, a.len(), many, dflt, max_sub, total) == Ok::<(VpsSlotsModel, nat), Fault>(
            (x, put_vps_slots(a, x, many, dflt, max_sub, total).len()),
        ),
{
    assert(vps_slots_ok(x, many, dflt, max_sub, total)) by {
        broadcast use crate::bits::law_fits_small;

        reveal(vps_slots_ok);
        reveal(vps_slots_can);
    }
    law_pre_put_vps_slots(a, x, many, dflt, max_sub, total, s);
}

/// Each field of the model of a [`VpsSlots`] is the field of that name.
pub proof fn law_view_vps_slots(x: VpsSlots)
    ensures
        x@.ptls == seq_view(x.ptls@),
        x@.vps_ols_ptl_idx == x.vps_ols_ptl_idx@,
{
}

/// The fields of a VPS from the DPB block to the end.
pub struct VpsEnd {
    pub vps_sublayer_dpb_params_present_flag: u8,
    pub dpb_params: Vec<VvcVpsDpb>,
    pub ols_dpbs: Vec<VvcVpsOlsDpb>,
    pub timing_hrd: Option<VvcVpsTimingHrd>,
    pub vps_extension_flag: u8,
    pub vps_extension_data: Vec<u8>,
}

/// The mathematical model of a [`VpsEnd`].
pub struct VpsEndModel {
    pub vps_sublayer_dpb_params_present_flag: u8,
    pub dpb_params: Seq<VvcVpsDpbModel>,
    pub ols_dpbs: Seq<VvcVpsOlsDpb>,
    pub timing_hrd: Option<VvcVpsTimingHrdModel>,
    pub vps_extension_flag: u8,
    pub vps_extension_data: Seq<u8>,
}

impl View for VpsEnd {
    type V = VpsEndModel;

    open spec fn view(&self) -> VpsEndModel {
        VpsEndModel {
            vps_sublayer_dpb_params_present_flag: self.vps_sublayer_dpb_params_present_flag,
            dpb_params: seq_view(self.dpb_params@),
            ols_dpbs: self.ols_dpbs@,
            timing_hrd: opt_view(self.timing_hrd),
            vps_extension_flag: self.vps_extension_flag,
            vps_extension_data: self.vps_extension_data@,
        }
    }
}

/// The fields of a VPS from the DPB block to the end at position `p`.
#[verifier::opaque]
pub open spec fn vps_end_at(
    s: Seq<bool>,
    p: nat,
    each_layer: u8,
    dflt: u8,
    max_sub: u8,
    multi: u64,
) -> Read<VpsEndModel> {
    let blocks = each_layer == 0;
    match ue_if(s, p, blocks, 0) { Err(f) => Err(f), Ok((num_dpb_minus1, p)) => {
    if !(!blocks || (num_dpb_minus1 as u64) < multi) { Err(Fault::Invalid) } else {
    let vps_sublayer_dpb_params_present_flag = u8_if(s, p, 1, blocks && max_sub > 0, 0);
    let p = adv_if(p, 1, blocks && max_sub > 0);
    let num_dpb = (if blocks { (num_dpb_minus1 as u64 + 1) as u64 } else { 0 });
    match vps_dpbs_at(s, p, dflt, max_sub, vps_sublayer_dpb_params_present_flag != 0, num_dpb)
    { Err(f) => Err(f), Ok((dpb_params, p)) => {
    match ols_dpbs_at(s, p, num_dpb_minus1 as u64, multi, (if blocks { multi } else { 0u64 }))
    { Err(f) => Err(f), Ok((ols_dpbs, p)) => {
    let present = flag_if(s, p, blocks, false);
    let p = adv_if(p, 1, blocks);
    match (if present { read_some(vps_timing_at(s, p, dflt, max_sub, multi)) } else { Ok((None, p)) })
    { Err(f) => Err(f), Ok((timing_hrd, p)) => {
    let vps_extension_flag = u8_at(s, p, 1);
    let p = adv(p, 1);
    match tail_at(s, p, vps_extension_flag != 0) { Err(f) => Err(f), Ok((vps_extension_data, p)) => {
    Ok((
        VpsEndModel {
            vps_sublayer_dpb_params_present_flag,
            dpb_params,
            ols_dpbs,
            timing_hrd,
            vps_extension_flag,
            vps_extension_data,
        },
        p,
    ))
    }}}}}}}}}}}
}

/// The bits `a` followed by the fields of a VPS from the DPB block to the end.
#[verifier::opaque]
pub open spec fn put_vps_end(
    a: Seq<bool>,
    x: VpsEndModel,
    each_layer: u8,
    dflt: u8,
    max_sub: u8,
    multi: u64,
) -> Seq<bool> {
    let blocks = each_layer == 0;
    let num_dpb_minus1 = (if blocks { (x.dpb_params.len() - 1) as u32 } else { 0 });
    let a = put_ue_if(a, num_dpb_minus1 as nat, blocks);
    let a = put_bit_if(a, x.vps_sublayer_dpb_params_present_flag as nat, blocks && max_sub > 0);
    let num_dpb = (if blocks { (num_dpb_minus1 as u64 + 1) as u64 } else { 0 });
    let a = put_vps_dpbs(
        a,
        x.dpb_params,
        dflt,
        max_sub,
        x.vps_sublayer_dpb_params_present_flag != 0,
        num_dpb,
    );
    let a = put_ols_dpbs(a, x.ols_dpbs, num_dpb_minus1 as u64, multi, (if blocks { multi } else { 0u64 }));
    let a = put_flag_if(a, x.timing_hrd is Some, blocks);
    let a = match x.timing_hrd { Some(y) => put_vps_timing(a, y, dflt, max_sub, multi), None => a };
    let a = put_bit(a, x.vps_extension_flag as nat);
    let a = put_tail(a, x.vps_extension_data, x.vps_extension_flag != 0);
    a
}

/// The values of the fields of a VPS from the DPB block to the end that reading
/// can give.
#[verifier::opaque]
pub open spec fn vps_end_ok(x: VpsEndModel, each_layer: u8, dflt: u8, max_sub: u8, multi: u64) -> bool {
    let blocks = each_layer == 0;
    &&& !blocks
        || (x.dpb_params.len() >= 1 && x.dpb_params.len() <= 256 && x.dpb_params.len() as u64 <= multi)
    &&& {
        let num_dpb_minus1 = (if blocks { (x.dpb_params.len() - 1) as u32 } else { 0 });
        &&& if blocks { ue_fits(num_dpb_minus1 as nat) } else { num_dpb_minus1 == 0 }
        &&& !blocks || (num_dpb_minus1 as u64) < multi
        &&& if blocks
            && max_sub > 0 {
                fits(x.vps_sublayer_dpb_params_present_flag as nat, 1)
            } else {
                x.vps_sublayer_dpb_params_present_flag == 0
            }
        &&& {
            let num_dpb = (if blocks { (num_dpb_minus1 as u64 + 1) as u64 } else { 0 });
            &&& vps_dpbs_ok(x.dpb_params, dflt, max_sub, x.vps_sublayer_dpb_params_present_flag != 0, num_dpb)
            &&& ols_dpbs_ok(x.ols_dpbs, num_dpb_minus1 as u64, multi, (if blocks { multi } else { 0u64 }))
            &&& x.timing_hrd is Some ==> blocks
            &&& x.timing_hrd matches Some(y) ==> vps_timing_ok(y, dflt, max_sub, multi)
            &&& fits(x.vps_extension_flag as nat, 1)
            &&& tail_ok(x.vps_extension_data, x.vps_extension_flag != 0)
        }
    }
}

/// The values of the fields of a VPS from the DPB block to the end that the
/// writer accepts.
#[verifier::opaque]
pub open spec fn vps_end_can(x: VpsEndModel, each_layer: u8, dflt: u8, max_sub: u8, multi: u64) -> bool {
    let blocks = each_layer == 0;
    &&& !blocks
        || (x.dpb_params.len() >= 1 && x.dpb_params.len() <= 256 && x.dpb_params.len() as u64 <= multi)
    &&& {
        let num_dpb_minus1 = (if blocks { (x.dpb_params.len() - 1) as u32 } else { 0 });
        &&& blocks ==> ue_fits(num_dpb_minus1 as nat)
        &&& {
            let num_dpb = (if blocks { (num_dpb_minus1 as u64 + 1) as u64 } else { 0 });
            &&& vps_dpbs_can(
                x.dpb_params,
                dflt,
                max_sub,
                x.vps_sublayer_dpb_params_present_flag != 0,
                num_dpb,
            )
            &&& ols_dpbs_can(x.ols_dpbs, num_dpb_minus1 as u64, multi, (if blocks { multi } else { 0u64 }))
            &&& x.timing_hrd is Some ==> blocks
            &&& x.timing_hrd matches Some(y) ==> vps_timing_can(y, dflt, max_sub, multi)
            &&& tail_can(x.vps_extension_data, x.vps_extension_flag != 0)
        }
    }
}

/// Parses the fields of a VPS from the DPB block to the end.
#[verifier::rlimit(40)]
#[verifier::spinoff_prover]
fn parse_vps_end(
    r: &mut BitReader<'_>,
    each_layer: u8,
    dflt: u8,
    max_sub: u8,
    multi: u64,
) -> (res: Result<VpsEnd, BitstreamError>)
    requires
        multi <= 256,
    ensures
        read_view_is(
            vps_end_at(old(r).bits(), old(r).pos(), each_layer, dflt, max_sub, multi),
            res,
            *old(r),
            *final(r),
        ),
{
    proof {
        reveal(vps_end_at);
    }
    let blocks: bool = each_layer == 0;
    let num_dpb_minus1: u32 = r.ue_if(blocks, 0)?;
    if !(!blocks || (num_dpb_minus1 as u64) < multi) {
        return Err(
            BitstreamError::invalid("vps_num_dpb_params_minus1 must be < NumMultiLayerOlss (7.4.3.3)"),
        );
    }
    let vps_sublayer_dpb_params_present_flag: u8 = r.bit_if(blocks && max_sub > 0, 0);
    let num_dpb: u64 = (if blocks { num_dpb_minus1 as u64 + 1 } else { 0 });
    let dpb_params = parse_vps_dpbs(r, dflt, max_sub, vps_sublayer_dpb_params_present_flag != 0, num_dpb)?;
    let ols_dpbs = parse_ols_dpbs(r, num_dpb_minus1 as u64, multi, (if blocks { multi } else { 0u64 }))?;
    let present: bool = r.flag_if(blocks, false);
    let timing_hrd = if present { Some(parse_vps_timing(r, dflt, max_sub, multi)?) } else { None };
    let vps_extension_flag: u8 = r.bit();
    let vps_extension_data = parse_tail(r, vps_extension_flag != 0)?;
    Ok(
        VpsEnd {
            vps_sublayer_dpb_params_present_flag,
            dpb_params,
            ols_dpbs,
            timing_hrd,
            vps_extension_flag,
            vps_extension_data,
        },
    )
}

/// Emits the fields of a VPS from the DPB block to the end, the inverse of [`parse_vps_end`].
#[verifier::rlimit(40)]
#[verifier::spinoff_prover]
fn write_vps_end(
    w: &mut BitWriter,
    x: &VvcVps,
    each_layer: u8,
    dflt: u8,
    max_sub: u8,
    multi: u64,
) -> (res: Result<(), BitstreamError>)
    requires
        multi <= 256,
    ensures
        write_is(
            vps_end_can(x@.end, each_layer, dflt, max_sub, multi),
            put_vps_end(old(w)@, x@.end, each_layer, dflt, max_sub, multi),
            res,
            final(w)@,
        ),
{
    proof {
        reveal(put_vps_end);
        reveal(vps_end_can);
    }
    let blocks: bool = each_layer == 0;
    if !(
        !blocks
        || (x.dpb_params.len() >= 1 && x.dpb_params.len() <= 256 && x.dpb_params.len() as u64 <= multi)
    ) {
        return Err(BitstreamError::invalid("VpsNumDpbParams must be 1..=NumMultiLayerOlss (7.4.3.3)"));
    }
    let num_dpb_minus1: u32 = if blocks { (x.dpb_params.len() - 1) as u32 } else { 0 };
    w.write_ue_if(num_dpb_minus1, blocks)?;
    w.write_bit_if(x.vps_sublayer_dpb_params_present_flag as u32, blocks && max_sub > 0);
    let num_dpb: u64 = (if blocks { num_dpb_minus1 as u64 + 1 } else { 0 });
    write_vps_dpbs(w, &x.dpb_params, dflt, max_sub, x.vps_sublayer_dpb_params_present_flag != 0, num_dpb)?;
    write_ols_dpbs(w, &x.ols_dpbs, num_dpb_minus1 as u64, multi, (if blocks { multi } else { 0u64 }))?;
    if x.timing_hrd.is_some() && !blocks {
        return Err(
            BitstreamError::invalid(
                "DPB / timing-HRD blocks require a multi-layer OLS configuration (7.3.2.3)",
            ),
        );
    }
    w.write_flag_if(x.timing_hrd.is_some(), blocks);
    if let Some(y) = &x.timing_hrd {
        write_vps_timing(w, y, dflt, max_sub, multi)?;
    }
    w.write_bit(x.vps_extension_flag as u32);
    write_tail(
        w,
        &x.vps_extension_data,
        x.vps_extension_flag != 0,
        "vps_extension_data",
        "vps_extension_flag (7.3.2.3)",
    )?;
    Ok(())
}

/// Writing the fields of a VPS from the DPB block to the end gives back the
/// bits it was read from.
#[verifier::rlimit(40)]
#[verifier::spinoff_prover]
pub broadcast proof fn law_put_vps_end_at(
    s: Seq<bool>,
    p: nat,
    each_layer: u8,
    dflt: u8,
    max_sub: u8,
    multi: u64,
)
    requires
        multi <= 256,
    ensures
        #[trigger] vps_end_at(s, p, each_layer, dflt, max_sub, multi) matches Ok((x, q)) ==> {
            &&& vps_end_ok(x, each_layer, dflt, max_sub, multi)
            &&& tail_can(x.vps_extension_data, x.vps_extension_flag != 0)
                ==> vps_end_can(x, each_layer, dflt, max_sub, multi)
            &&& within(s, q)
                ==> within(s, p)
                && put_vps_end(upto(s, p), x, each_layer, dflt, max_sub, multi) == upto(s, q)
        },
{
    broadcast use {
        crate::bits::group_write_read,
        law_put_vps_dpbs_at,
        law_put_ols_dpbs_at,
        law_put_vps_timing_at,
        law_put_tail_at,
    };

    reveal(vps_end_at);
    reveal(put_vps_end);
    reveal(vps_end_ok);
    reveal(vps_end_can);
}

/// Reading gives back the fields of a VPS from the DPB block to the end as it
/// was written.
#[verifier::rlimit(40)]
#[verifier::spinoff_prover]
pub broadcast proof fn law_pre_put_vps_end(
    a: Seq<bool>,
    x: VpsEndModel,
    each_layer: u8,
    dflt: u8,
    max_sub: u8,
    multi: u64,
    s: Seq<bool>,
)
    requires
        #[trigger] whole(put_vps_end(a, x, each_layer, dflt, max_sub, multi), s),
        vps_end_ok(x, each_layer, dflt, max_sub, multi),
        multi <= 256,
    ensures
        pre(a, s),
        tail_can(x.vps_extension_data, x.vps_extension_flag != 0)
            ==> vps_end_can(x, each_layer, dflt, max_sub, multi),
        vps_end_at(
            s,
            a.len(),
            each_layer,
            dflt,
            max_sub,
            multi,
        ) == Ok::<(VpsEndModel, nat), Fault>((x, s.len())),
{
    broadcast use {
        crate::bits::group_read_written,
        law_pre_put_vps_dpbs,
        law_pre_put_ols_dpbs,
        law_pre_put_vps_timing,
        law_pre_put_tail,
    };

    reveal(vps_end_at);
    reveal(put_vps_end);
    reveal(vps_end_ok);
    reveal(vps_end_can);
}

/// The layout of the fields of a VPS from the DPB block to the end: reading at
/// `p` gives `x` and ends at `q` if and only if these elements stand there in
/// this order, and the values are allowed.
#[verifier::rlimit(40)]
#[verifier::spinoff_prover]
pub proof fn law_layout_vps_end(
    s: Seq<bool>,
    p: nat,
    each_layer: u8,
    dflt: u8,
    max_sub: u8,
    multi: u64,
    x: VpsEndModel,
    q: nat,
)
    ensures
        vps_end_at(s, p, each_layer, dflt, max_sub, multi) == Ok::<(VpsEndModel, nat), Fault>((x, q)) <==> ({
            let blocks = each_layer == 0;
            let c = cursor(s, p);
            let num_dpb_minus1 = if blocks { c.next_ue() } else { 0 };
            let num_dpb = (if blocks { (num_dpb_minus1 as u64 + 1) as u64 } else { 0 });
            &&& c
                .ue_if(blocks, num_dpb_minus1, 0)
                .u8_if(blocks && max_sub > 0, 1, x.vps_sublayer_dpb_params_present_flag, 0)
                .part(
                    |p: nat| vps_dpbs_at(
                        s,
                        p,
                        dflt,
                        max_sub,
                        x.vps_sublayer_dpb_params_present_flag != 0,
                        num_dpb,
                    ),
                    x.dpb_params,
                )
                .part(
                    |p: nat| ols_dpbs_at(
                        s,
                        p,
                        num_dpb_minus1 as u64,
                        multi,
                        (if blocks { multi } else { 0u64 }),
                    ),
                    x.ols_dpbs,
                )
                .flagged_if(blocks, |p: nat| vps_timing_at(s, p, dflt, max_sub, multi), x.timing_hrd)
                .u8(1, x.vps_extension_flag)
                .part(|p: nat| tail_at(s, p, x.vps_extension_flag != 0), x.vps_extension_data)
                .ends(q)
            &&& (!blocks || (num_dpb_minus1 as u64) < multi)
        }),
{
    reveal(vps_end_at);
    reveal(adv_if);
    reveal(flag_if);
    reveal(u8_if);
    reveal(ue_if);
}

/// Reading the fields of a VPS from the DPB block to the end never fails with
/// an error of this class.
#[verifier::rlimit(40)]
#[verifier::spinoff_prover]
pub broadcast proof fn law_faults_vps_end(
    s: Seq<bool>,
    p: nat,
    each_layer: u8,
    dflt: u8,
    max_sub: u8,
    multi: u64,
)
    ensures
        #[trigger] vps_end_at(s, p, each_layer, dflt, max_sub, multi) matches Err(f)
            ==> f != Fault::Unsupported,
{
    broadcast use {
        crate::bits::law_faults_ue,
        law_faults_vps_dpbs,
        law_faults_ols_dpbs,
        law_faults_vps_timing,
        crate::bits::law_faults_tail,
    };

    reveal(vps_end_at);
    reveal(ue_if);
}

/// What the writer accepts reads back: the fields of a VPS from the DPB block
/// to the end, where each field fits its width and what is not coded has the
/// value that is taken for it.
#[verifier::rlimit(40)]
#[verifier::spinoff_prover]
pub proof fn law_reads_vps_end(
    a: Seq<bool>,
    x: VpsEndModel,
    each_layer: u8,
    dflt: u8,
    max_sub: u8,
    multi: u64,
    s: Seq<bool>,
)
    requires
        vps_end_can(x, each_layer, dflt, max_sub, multi),
        ({
            let blocks = each_layer == 0;
            let num_dpb_minus1 = (if blocks { (x.dpb_params.len() - 1) as u32 } else { 0 });
            &&& if blocks
                && max_sub > 0 {
                    fits(x.vps_sublayer_dpb_params_present_flag as nat, 1)
                } else {
                    x.vps_sublayer_dpb_params_present_flag == 0
                }
            &&& {
                let num_dpb = (if blocks { (num_dpb_minus1 as u64 + 1) as u64 } else { 0 });
                &&& vps_dpbs_ok(
                    x.dpb_params,
                    dflt,
                    max_sub,
                    x.vps_sublayer_dpb_params_present_flag != 0,
                    num_dpb,
                )
                &&& ols_dpbs_ok(x.ols_dpbs, num_dpb_minus1 as u64, multi, (if blocks { multi } else { 0u64 }))
                &&& x.timing_hrd matches Some(y) ==> vps_timing_ok(y, dflt, max_sub, multi)
                &&& fits(x.vps_extension_flag as nat, 1)
                &&& tail_ok(x.vps_extension_data, x.vps_extension_flag != 0)
                &&& tail_can(x.vps_extension_data, x.vps_extension_flag != 0)
            }
        }),
        whole(put_vps_end(a, x, each_layer, dflt, max_sub, multi), s),
        multi <= 256,
    ensures
        vps_end_at(
            s,
            a.len(),
            each_layer,
            dflt,
            max_sub,
            multi,
        ) == Ok::<(VpsEndModel, nat), Fault>((x, s.len())),
{
    assert(vps_end_ok(x, each_layer, dflt, max_sub, multi)) by {
        broadcast use crate::bits::law_fits_small;

        reveal(vps_end_ok);
        reveal(vps_end_can);
    }
    law_pre_put_vps_end(a, x, each_layer, dflt, max_sub, multi, s);
}

/// Each field of the model of a [`VpsEnd`] is the field of that name.
pub proof fn law_view_vps_end(x: VpsEnd)
    ensures
        x@.vps_sublayer_dpb_params_present_flag == x.vps_sublayer_dpb_params_present_flag,
        x@.dpb_params == seq_view(x.dpb_params@),
        x@.ols_dpbs == x.ols_dpbs@,
        x@.timing_hrd == opt_view(x.timing_hrd),
        x@.vps_extension_flag == x.vps_extension_flag,
        x@.vps_extension_data == x.vps_extension_data@,
{
}

/// The mathematical model of a [`VvcVps`].
pub struct VvcVpsModel {
    pub front: VpsFrontModel,
    pub slots: VpsSlotsModel,
    pub end: VpsEndModel,
}

impl View for VvcVps {
    type V = VvcVpsModel;

    open spec fn view(&self) -> VvcVpsModel {
        VvcVpsModel {
            front: VpsFrontModel {
                vps_video_parameter_set_id: self.vps_video_parameter_set_id,
                vps_max_sublayers_minus1: self.vps_max_sublayers_minus1,
                vps_default_ptl_dpb_hrd_max_tid_flag: self.vps_default_ptl_dpb_hrd_max_tid_flag,
                vps_all_independent_layers_flag: self.vps_all_independent_layers_flag,
                layers: seq_view(self.layers@),
                vps_each_layer_is_an_ols_flag: self.vps_each_layer_is_an_ols_flag,
                vps_ols_mode_idc: self.vps_ols_mode_idc,
                vps_ols_output_layer_flags: seq_view(self.vps_ols_output_layer_flags@),
            },
            slots: VpsSlotsModel {
                ptls: seq_view(self.ptls@),
                vps_ols_ptl_idx: self.vps_ols_ptl_idx@,
            },
            end: VpsEndModel {
                vps_sublayer_dpb_params_present_flag: self.vps_sublayer_dpb_params_present_flag,
                dpb_params: seq_view(self.dpb_params@),
                ols_dpbs: self.ols_dpbs@,
                timing_hrd: opt_view(self.timing_hrd),
                vps_extension_flag: self.vps_extension_flag,
                vps_extension_data: self.vps_extension_data@,
            },
        }
    }
}

/// video_parameter_set_rbsp() at position `p`.
#[verifier::opaque]
pub open spec fn vps_at(s: Seq<bool>, p: nat) -> Read<VvcVpsModel> {
    match vps_front_at(s, p) { Err(f) => Err(f), Ok((front, p)) => {
    if !(ols_ok(front.vps_each_layer_is_an_ols_flag, front.vps_ols_mode_idc, front.layers, front.vps_ols_output_layer_flags)) {
        Err(Fault::Invalid)
    } else {
    let ols = ols_of(
        front.vps_each_layer_is_an_ols_flag,
        front.vps_ols_mode_idc,
        front.layers,
        front.vps_ols_output_layer_flags,
    );
    match vps_slots_at(
        s,
        p,
        front.layers.len() > 1,
        front.vps_default_ptl_dpb_hrd_max_tid_flag,
        front.vps_max_sublayers_minus1,
        ols.total,
    )
    { Err(f) => Err(f), Ok((slots, p)) => {
    match vps_end_at(
        s,
        p,
        front.vps_each_layer_is_an_ols_flag,
        front.vps_default_ptl_dpb_hrd_max_tid_flag,
        front.vps_max_sublayers_minus1,
        ols.multi,
    )
    { Err(f) => Err(f), Ok((end, p)) => {
    Ok((VvcVpsModel { front, slots, end }, p))
    }}}}}}}
}

/// The bits `a` followed by video_parameter_set_rbsp().
#[verifier::opaque]
pub open spec fn put_vps(a: Seq<bool>, x: VvcVpsModel) -> Seq<bool> {
    let a = put_vps_front(a, x.front);
    let ols = ols_of(
        x.front.vps_each_layer_is_an_ols_flag,
        x.front.vps_ols_mode_idc,
        x.front.layers,
        x.front.vps_ols_output_layer_flags,
    );
    let a = put_vps_slots(
        a,
        x.slots,
        x.front.layers.len() > 1,
        x.front.vps_default_ptl_dpb_hrd_max_tid_flag,
        x.front.vps_max_sublayers_minus1,
        ols.total,
    );
    let a = put_vps_end(
        a,
        x.end,
        x.front.vps_each_layer_is_an_ols_flag,
        x.front.vps_default_ptl_dpb_hrd_max_tid_flag,
        x.front.vps_max_sublayers_minus1,
        ols.multi,
    );
    a
}

/// The values of video_parameter_set_rbsp() that reading can give.
#[verifier::opaque]
pub open spec fn vps_ok(x: VvcVpsModel) -> bool {
    &&& vps_front_ok(x.front)
    &&& ols_ok(
        x.front.vps_each_layer_is_an_ols_flag,
        x.front.vps_ols_mode_idc,
        x.front.layers,
        x.front.vps_ols_output_layer_flags,
    )
    &&& {
        let ols = ols_of(
            x.front.vps_each_layer_is_an_ols_flag,
            x.front.vps_ols_mode_idc,
            x.front.layers,
            x.front.vps_ols_output_layer_flags,
        );
        &&& vps_slots_ok(
            x.slots,
            x.front.layers.len() > 1,
            x.front.vps_default_ptl_dpb_hrd_max_tid_flag,
            x.front.vps_max_sublayers_minus1,
            ols.total,
        )
        &&& vps_end_ok(
            x.end,
            x.front.vps_each_layer_is_an_ols_flag,
            x.front.vps_default_ptl_dpb_hrd_max_tid_flag,
            x.front.vps_max_sublayers_minus1,
            ols.multi,
        )
    }
}

/// The values of video_parameter_set_rbsp() that the writer accepts.
#[verifier::opaque]
pub open spec fn vps_can(x: VvcVpsModel) -> bool {
    &&& vps_front_can(x.front)
    &&& ols_ok(
        x.front.vps_each_layer_is_an_ols_flag,
        x.front.vps_ols_mode_idc,
        x.front.layers,
        x.front.vps_ols_output_layer_flags,
    )
    &&& {
        let ols = ols_of(
            x.front.vps_each_layer_is_an_ols_flag,
            x.front.vps_ols_mode_idc,
            x.front.layers,
            x.front.vps_ols_output_layer_flags,
        );
        &&& vps_slots_can(
            x.slots,
            x.front.layers.len() > 1,
            x.front.vps_default_ptl_dpb_hrd_max_tid_flag,
            x.front.vps_max_sublayers_minus1,
            ols.total,
        )
        &&& vps_end_can(
            x.end,
            x.front.vps_each_layer_is_an_ols_flag,
            x.front.vps_default_ptl_dpb_hrd_max_tid_flag,
            x.front.vps_max_sublayers_minus1,
            ols.multi,
        )
    }
}

/// Parses video_parameter_set_rbsp().
#[verifier::rlimit(40)]
#[verifier::spinoff_prover]
fn parse_vps_rbsp(r: &mut BitReader<'_>) -> (res: Result<VvcVps, BitstreamError>)
    ensures
        read_view_is(vps_at(old(r).bits(), old(r).pos()), res, *old(r), *final(r)),
{
    proof {
        reveal(vps_at);
    }
    let front = parse_vps_front(r)?;
    let ols = derive_ols_info(
        front.vps_each_layer_is_an_ols_flag,
        front.vps_ols_mode_idc,
        &front.layers,
        &front.vps_ols_output_layer_flags,
    )?;
    let slots = parse_vps_slots(
        r,
        front.layers.len() > 1,
        front.vps_default_ptl_dpb_hrd_max_tid_flag,
        front.vps_max_sublayers_minus1,
        ols.total,
    )?;
    let end = parse_vps_end(
        r,
        front.vps_each_layer_is_an_ols_flag,
        front.vps_default_ptl_dpb_hrd_max_tid_flag,
        front.vps_max_sublayers_minus1,
        ols.multi,
    )?;
    Ok(VvcVps {
        vps_video_parameter_set_id: front.vps_video_parameter_set_id,
        vps_max_sublayers_minus1: front.vps_max_sublayers_minus1,
        vps_default_ptl_dpb_hrd_max_tid_flag: front.vps_default_ptl_dpb_hrd_max_tid_flag,
        vps_all_independent_layers_flag: front.vps_all_independent_layers_flag,
        layers: front.layers,
        vps_each_layer_is_an_ols_flag: front.vps_each_layer_is_an_ols_flag,
        vps_ols_mode_idc: front.vps_ols_mode_idc,
        vps_ols_output_layer_flags: front.vps_ols_output_layer_flags,
        ptls: slots.ptls,
        vps_ols_ptl_idx: slots.vps_ols_ptl_idx,
        vps_sublayer_dpb_params_present_flag: end.vps_sublayer_dpb_params_present_flag,
        dpb_params: end.dpb_params,
        ols_dpbs: end.ols_dpbs,
        timing_hrd: end.timing_hrd,
        vps_extension_flag: end.vps_extension_flag,
        vps_extension_data: end.vps_extension_data,
    })
}

/// Emits video_parameter_set_rbsp().
#[verifier::rlimit(40)]
#[verifier::spinoff_prover]
fn write_vps_rbsp(w: &mut BitWriter, x: &VvcVps) -> (res: Result<(), BitstreamError>)
    ensures
        write_is(vps_can(x@), put_vps(old(w)@, x@), res, final(w)@),
{
    proof {
        reveal(put_vps);
        reveal(vps_can);
    }
    write_vps_front(w, x)?;
    let ols = derive_ols_info(
        x.vps_each_layer_is_an_ols_flag,
        x.vps_ols_mode_idc,
        &x.layers,
        &x.vps_ols_output_layer_flags,
    )?;
    write_vps_slots(
        w,
        x,
        x.layers.len() > 1,
        x.vps_default_ptl_dpb_hrd_max_tid_flag,
        x.vps_max_sublayers_minus1,
        ols.total,
    )?;
    write_vps_end(
        w,
        x,
        x.vps_each_layer_is_an_ols_flag,
        x.vps_default_ptl_dpb_hrd_max_tid_flag,
        x.vps_max_sublayers_minus1,
        ols.multi,
    )?;
    Ok(())
}

/// Writing video_parameter_set_rbsp() gives back the bits it was read from.
#[verifier::rlimit(40)]
#[verifier::spinoff_prover]
pub broadcast proof fn law_put_vps_at(s: Seq<bool>, p: nat)
    ensures
        #[trigger] vps_at(s, p) matches Ok((x, q)) ==> {
            &&& vps_ok(x)
            &&& tail_can(x.end.vps_extension_data, x.end.vps_extension_flag != 0) ==> vps_can(x)
            &&& within(s, q) ==> within(s, p) && put_vps(upto(s, p), x) == upto(s, q)
        },
{
    broadcast use {
        crate::bits::group_write_read,
        law_put_vps_front_at,
        law_put_vps_slots_at,
        law_put_vps_end_at,
        lemma_ols,
        lemma_vps_front_bounds,
    };

    reveal(vps_at);
    reveal(put_vps);
    reveal(vps_ok);
    reveal(vps_can);
}

/// Reading gives back video_parameter_set_rbsp() as it was written.
#[verifier::rlimit(40)]
#[verifier::spinoff_prover]
pub broadcast proof fn law_pre_put_vps(a: Seq<bool>, x: VvcVpsModel, s: Seq<bool>)
    requires
        #[trigger] whole(put_vps(a, x), s),
        vps_ok(x),
    ensures
        pre(a, s),
        tail_can(x.end.vps_extension_data, x.end.vps_extension_flag != 0) ==> vps_can(x),
        vps_at(s, a.len()) == Ok::<(VvcVpsModel, nat), Fault>((x, s.len())),
{
    broadcast use {
        crate::bits::group_read_written,
        law_pre_put_vps_front,
        law_pre_put_vps_slots,
        law_pre_put_vps_end,
        lemma_ols,
        lemma_vps_front_bounds,
    };

    reveal(vps_at);
    reveal(put_vps);
    reveal(vps_ok);
    reveal(vps_can);
}

/// The layout of video_parameter_set_rbsp(): reading at `p` gives `x` and ends
/// at `q` if and only if these elements stand there in this order, and the
/// values are allowed.
#[verifier::rlimit(40)]
#[verifier::spinoff_prover]
pub proof fn law_layout_vps(s: Seq<bool>, p: nat, x: VvcVpsModel, q: nat)
    ensures
        vps_at(s, p) == Ok::<(VvcVpsModel, nat), Fault>((x, q)) <==> ({
            let ols = ols_of(
                x.front.vps_each_layer_is_an_ols_flag,
                x.front.vps_ols_mode_idc,
                x.front.layers,
                x.front.vps_ols_output_layer_flags,
            );
            &&& cursor(s, p)
                .part(|p: nat| vps_front_at(s, p), x.front)
                .part(
                    |p: nat| vps_slots_at(
                        s,
                        p,
                        x.front.layers.len() > 1,
                        x.front.vps_default_ptl_dpb_hrd_max_tid_flag,
                        x.front.vps_max_sublayers_minus1,
                        ols.total,
                    ),
                    x.slots,
                )
                .part(
                    |p: nat| vps_end_at(
                        s,
                        p,
                        x.front.vps_each_layer_is_an_ols_flag,
                        x.front.vps_default_ptl_dpb_hrd_max_tid_flag,
                        x.front.vps_max_sublayers_minus1,
                        ols.multi,
                    ),
                    x.end,
                )
                .ends(q)
            &&& ols_ok(
                x.front.vps_each_layer_is_an_ols_flag,
                x.front.vps_ols_mode_idc,
                x.front.layers,
                x.front.vps_ols_output_layer_flags,
            )
        }),
{
    reveal(vps_at);
}

/// Reading video_parameter_set_rbsp() never fails with an error of this class.
#[verifier::rlimit(40)]
#[verifier::spinoff_prover]
pub broadcast proof fn law_faults_vps(s: Seq<bool>, p: nat)
    ensures
        #[trigger] vps_at(s, p) matches Err(f) ==> f != Fault::Unsupported,
{
    broadcast use {law_faults_vps_front, law_faults_vps_slots, law_faults_vps_end};

    reveal(vps_at);
}

/// What the writer accepts reads back: video_parameter_set_rbsp(), where each
/// field fits its width and what is not coded has the value that is taken for
/// it.
#[verifier::rlimit(40)]
#[verifier::spinoff_prover]
pub proof fn law_reads_vps(a: Seq<bool>, x: VvcVpsModel, s: Seq<bool>)
    requires
        vps_can(x),
        ({
            &&& vps_front_ok(x.front)
            &&& {
                let ols = ols_of(
                    x.front.vps_each_layer_is_an_ols_flag,
                    x.front.vps_ols_mode_idc,
                    x.front.layers,
                    x.front.vps_ols_output_layer_flags,
                );
                &&& vps_slots_ok(
                    x.slots,
                    x.front.layers.len() > 1,
                    x.front.vps_default_ptl_dpb_hrd_max_tid_flag,
                    x.front.vps_max_sublayers_minus1,
                    ols.total,
                )
                &&& vps_end_ok(
                    x.end,
                    x.front.vps_each_layer_is_an_ols_flag,
                    x.front.vps_default_ptl_dpb_hrd_max_tid_flag,
                    x.front.vps_max_sublayers_minus1,
                    ols.multi,
                )
            }
        }),
        whole(put_vps(a, x), s),
    ensures
        vps_at(s, a.len()) == Ok::<(VvcVpsModel, nat), Fault>((x, s.len())),
{
    assert(vps_ok(x)) by {
        broadcast use crate::bits::law_fits_small;

        reveal(vps_ok);
        reveal(vps_can);
    }
    law_pre_put_vps(a, x, s);
}

/// Each field of the model of a [`VvcVps`] is the field of that name.
pub proof fn law_view_vps(x: VvcVps)
    ensures
        x@.front.vps_video_parameter_set_id == x.vps_video_parameter_set_id,
        x@.front.vps_max_sublayers_minus1 == x.vps_max_sublayers_minus1,
        x@.front.vps_default_ptl_dpb_hrd_max_tid_flag == x.vps_default_ptl_dpb_hrd_max_tid_flag,
        x@.front.vps_all_independent_layers_flag == x.vps_all_independent_layers_flag,
        x@.front.layers == seq_view(x.layers@),
        x@.front.vps_each_layer_is_an_ols_flag == x.vps_each_layer_is_an_ols_flag,
        x@.front.vps_ols_mode_idc == x.vps_ols_mode_idc,
        x@.front.vps_ols_output_layer_flags == seq_view(x.vps_ols_output_layer_flags@),
        x@.slots.ptls == seq_view(x.ptls@),
        x@.slots.vps_ols_ptl_idx == x.vps_ols_ptl_idx@,
        x@.end.vps_sublayer_dpb_params_present_flag == x.vps_sublayer_dpb_params_present_flag,
        x@.end.dpb_params == seq_view(x.dpb_params@),
        x@.end.ols_dpbs == x.ols_dpbs@,
        x@.end.timing_hrd == opt_view(x.timing_hrd),
        x@.end.vps_extension_flag == x.vps_extension_flag,
        x@.end.vps_extension_data == x.vps_extension_data@,
{
}

/// The VPS that the RBSP `r` holds.
pub open spec fn vps_of_rbsp(r: Seq<u8>) -> Result<VvcVpsModel, Fault> {
    match vps_at(bits_of(r), 0) {
        Ok((x, _)) => Ok(x),
        Err(f) => Err(f),
    }
}

/// The VPS that the NAL unit `b` holds.
pub open spec fn vps_of_nal(b: Seq<u8>) -> Result<VvcVpsModel, Fault> {
    match rbsp_of_nal(b, NAL_TYPE_VPS) {
        Ok(r) => vps_of_rbsp(r),
        Err(f) => Err(f),
    }
}

/// The bits of the RBSP that holds `x`.
pub open spec fn vps_bits(x: VvcVpsModel) -> Seq<bool> {
    put_vps(Seq::empty(), x)
}

/// Parse a complete VVC VPS NAL (two-byte NAL header at index 0..1),
/// through `rbsp_trailing_bits()`.
///
/// The input slice must point at the start of the NAL body, behind the
/// start code. Emulation-prevention bytes are stripped before bit-level
/// parsing. Every syntax element is retained (or inferred when absent),
/// and the declared §7.4 value ranges are enforced, so [`write_vps`]
/// round-trips the RBSP byte-exactly.
pub fn parse_vps(nal_body: &[u8]) -> (res: Result<VvcVps, BitstreamError>)
    ensures
        nal_read_is(vps_of_nal(nal_body@), res),
{
    let rbsp = nal_rbsp(nal_body, NAL_TYPE_VPS, "VPS")?;
    let mut r = BitReader::new(rbsp.as_slice());
    parse_vps_rbsp(&mut r)
}

/// Emit a VPS RBSP including `rbsp_trailing_bits()`, the byte-exact inverse
/// of [`parse_vps`]'s RBSP walk.
pub fn write_vps(x: &VvcVps) -> (res: Result<Vec<u8>, BitstreamError>)
    ensures
        rbsp_write_is(vps_can(x@), vps_bits(x@), res),
{
    let mut w = BitWriter::new();
    write_vps_rbsp(&mut w, x)?;
    proof {
        lemma_put_vps_aligned(Seq::empty(), x@);
        lemma_pad_aligned(w@);
    }
    Ok(w.finish())
}

/// Emit a complete VPS NAL (canonical header: layer 0, TID 0),
/// emulation-prevention framed.
pub fn write_vps_nal(x: &VvcVps) -> (res: Result<Vec<u8>, BitstreamError>)
    ensures
        nal_write_is(vps_can(x@), NAL_TYPE_VPS, vps_bits(x@), res),
{
    let rbsp = write_vps(x)?;
    let nal = frame_nal(NAL_TYPE_VPS, &rbsp);
    proof {
        assert(bits_of(rbsp@) == vps_bits(x@));
    }
    Ok(nal)
}

proof fn lemma_put_vps_aligned(a: Seq<bool>, x: VvcVpsModel)
    ensures
        put_vps(a, x).len() % 8 == 0,
{
    reveal(put_vps);
    reveal(put_vps_end);
    reveal(put_tail);
    broadcast use lemma_trailing_aligned;

}

/// Writing what was parsed gives back the RBSP: for every RBSP that the parser
/// accepts, the bits of the parsed VPS are the bits of the RBSP, and the
/// writer emits them unless the extension data ends in a zero bit.
pub proof fn law_write_parsed_vps(r: Seq<u8>)
    requires
        r.len() <= usize::MAX,
    ensures
        vps_of_rbsp(r) matches Ok(x) ==> {
            &&& vps_ok(x)
            &&& vps_bits(x) == bits_of(r)
            &&& tail_can(x.end.vps_extension_data, x.end.vps_extension_flag != 0) ==> vps_can(x)
            &&& forall|out: Seq<u8>| bits_of(out) == vps_bits(x) ==> out == r
        },
{
    let s = bits_of(r);
    lemma_bits_of_len(r);
    law_put_vps_at(s, 0);
    if let Ok((x, q)) = vps_at(s, 0) {
        lemma_vps_at_end(s, 0);
        assert(within(s, q)) by {
            reveal(within);
        }
        assert(upto(s, 0) =~= Seq::empty() && upto(s, q) =~= s) by {
            reveal(upto);
        }
        assert forall|out: Seq<u8>| bits_of(out) == vps_bits(x) implies out == r by {
            lemma_bits_of_injective(out, r);
        }
    }
}

/// Writing what was parsed gives back the NAL unit, where that is in canonical
/// form: every NAL unit that holds the bits of the parsed VPS is the one that was
/// parsed.
pub proof fn law_write_parsed_vps_nal(b: Seq<u8>)
    requires
        b.len() <= usize::MAX,
        canonical_nal(NAL_TYPE_VPS, b),
    ensures
        vps_of_nal(b) matches Ok(x) ==> {
            &&& tail_can(x.end.vps_extension_data, x.end.vps_extension_flag != 0) ==> vps_can(x)
            &&& forall|r: Seq<u8>| #[trigger] bits_of(r) == vps_bits(x) ==> nal_of_rbsp(NAL_TYPE_VPS, r) == b
        },
{
    law_framed_rbsp_of_nal(NAL_TYPE_VPS, b);
    lemma_unescape_len(b.skip(2));
    law_write_parsed_vps(unescape(b.skip(2)));
}

/// [`parse_vps`] gives the VPS that the NAL unit holds, or an error of its class.
pub proof fn law_parse_vps(nal_body: &[u8], res: Result<VvcVps, BitstreamError>)
    requires
        call_ensures(parse_vps, (nal_body,), res),
    ensures
        match res {
            Ok(v) => vps_of_nal(nal_body@) == Ok::<VvcVpsModel, Fault>(v@),
            Err(e) => vps_of_nal(nal_body@) == Err::<VvcVpsModel, Fault>(e.fault()),
        },
{
}

/// [`write_vps`] and [`write_vps_nal`] give the bits of the VPS, as they are or as a NAL unit
/// of type 14, and both refuse what reading cannot give back.
pub proof fn law_write_vps(
    x: VvcVps,
    rbsp: Result<Vec<u8>, BitstreamError>,
    nal: Result<Vec<u8>, BitstreamError>,
)
    requires
        call_ensures(write_vps, (&x,), rbsp),
        call_ensures(write_vps_nal, (&x,), nal),
    ensures
        rbsp is Ok <==> vps_can(x@),
        nal is Ok <==> vps_can(x@),
        rbsp matches Ok(b) ==> bits_of(b@) == put_vps(Seq::empty(), x@),
        rbsp matches Err(e) ==> e.fault() == Fault::Invalid,
        nal matches Err(e) ==> e.fault() == Fault::Invalid,
        match (rbsp, nal) {
            (Ok(r), Ok(n)) => n@ == seq![0u8, 113u8] + escape(r@, 0),
            _ => true,
        },
{
    if let (Ok(r), Ok(n)) = (rbsp, nal) {
        let b = choose|b: Seq<u8>| #[trigger] bits_of(b) == vps_bits(x@) && n@ == nal_of_rbsp(
            NAL_TYPE_VPS,
            b,
        );
        lemma_bits_of_injective(b, r@);
    }
}

/// A VPS is what stands behind the two header bytes of a NAL unit of type 14.
pub proof fn law_vps_nal(b: Seq<u8>, x: VvcVpsModel)
    ensures
        vps_of_nal(b) == Ok::<VvcVpsModel, Fault>(x) <==> ({
            let s = bits_of(unescape(b.skip(2)));
            &&& b.len() >= 2
            &&& b[0] < 128
            &&& b[1] / 8 == 14
            &&& cursor(s, 0).part(|p: nat| vps_at(s, p), x).ends(s.len())
        }),
        vps_of_nal(b) == Err::<VvcVpsModel, Fault>(Fault::End) <== b.len() < 2,
{
    lemma_vps_at_end(bits_of(unescape(b.skip(2))), 0);
}

proof fn lemma_vps_at_end(s: Seq<bool>, p: nat)
    ensures
        vps_at(s, p) matches Ok((_, q)) ==> q == s.len(),
{
    reveal(vps_at);
    reveal(vps_end_at);
    broadcast use law_put_tail_at;

}

/// What was written parses back: a VPS that reading can give comes back from
/// its RBSP and from its NAL unit.
pub proof fn law_parse_written_vps(x: VvcVpsModel, r: Seq<u8>)
    requires
        vps_ok(x),
        bits_of(r) == vps_bits(x),
        r.len() <= usize::MAX,
    ensures
        vps_of_rbsp(r) == Ok::<VvcVpsModel, Fault>(x),
        vps_of_nal(nal_of_rbsp(NAL_TYPE_VPS, r)) == Ok::<VvcVpsModel, Fault>(x),
        tail_can(x.end.vps_extension_data, x.end.vps_extension_flag != 0) ==> vps_can(x),
{
    lemma_bits_of_len(r);
    assert(whole(vps_bits(x), bits_of(r))) by {
        reveal(whole);
    }
    law_pre_put_vps(Seq::empty(), x, bits_of(r));
    law_rbsp_of_framed_nal(NAL_TYPE_VPS, r);
}

/// The direct references of a dependent layer are a flag for each layer before it,
/// each with its sublayer limit, and at least one flag is set. An independent layer
/// has none.
#[verifier::rlimit(60)]
#[verifier::spinoff_prover]
pub proof fn law_layout_layer_refs(
    s: Seq<bool>,
    p: nat,
    dependent: bool,
    i: u64,
    present: u8,
    dflt: u8,
    x: (Seq<u8>, Seq<u8>),
    q: nat,
)
    ensures
        layer_refs_at(s, p, dependent, i, present, dflt) == Ok::<((Seq<u8>, Seq<u8>), nat), Fault>((x, q)) <==> if dependent {
            let ps = Seq::new(i as nat, |j: int| (x.0[j], x.1[j]));
            &&& x.0.len() == i && x.1.len() == i
            &&& cursor(s, p).part(|p: nat| ref_pairs_at(s, p, present, dflt, i), ps).ends(q)
            &&& exists|j: int| 0 <= j < i && #[trigger] x.0[j] == 1
        } else {
            x.0.len() == 0 && x.1.len() == 0 && q == p
        },
{
    broadcast use law_put_ref_pairs_at;

    reveal(layer_refs_at);
    if dependent {
        let ps = Seq::new(i as nat, |j: int| (x.0[j], x.1[j]));
        if x.0.len() == i && x.1.len() == i {
            assert(firsts(ps) =~= x.0 && seconds(ps) =~= x.1);
        }
        if let Ok((ys, r)) = ref_pairs_at(s, p, present, dflt, i) {
            if firsts(ys) == x.0 && seconds(ys) == x.1 {
                assert forall|j: int| 0 <= j < i implies ys[j] == #[trigger] ps[j] by {
                    assert(firsts(ys)[j] == ys[j].0 && seconds(ys)[j] == ys[j].1);
                }
                assert(ys =~= ps);
            }
        }
    } else {
        if x.0.len() == 0 && x.1.len() == 0 {
            assert(x.0 =~= Seq::empty() && x.1 =~= Seq::empty());
        }
    }
}

/// A layer depends on another one if a chain of direct references leads down to it.
#[verifier::rlimit(60)]
#[verifier::spinoff_prover]
pub proof fn law_depends(layers: Seq<VvcVpsLayerModel>, i: nat, j: nat)
    requires
        i < layers.len(),
    ensures
        depends(layers, i, j) <==> exists|path: Seq<nat>|
            #![auto]
            {
                &&& path.len() >= 2
                &&& path[0] == i
                &&& path[path.len() - 1] == j
                &&& forall|k: int|
                    0 <= k < path.len() - 1 ==> path[k + 1] < #[trigger] path[k] && path[k + 1]
                        < layers[path[k] as int].refs.0.len()
                            && layers[path[k] as int].refs.0[path[k + 1] as int]
                        != 0
            },
{
    if depends(layers, i, j) {
        let path = lemma_path_of(layers, i, j);
        assert(path[0] == i);
    }
    if exists|path: Seq<nat>| #![auto] leads(layers, path) && path[0] == i && path[path.len() - 1] == j {
        let path = choose|path: Seq<nat>| #![auto] leads(layers, path) && path[0] == i && path[path.len() - 1] == j;
        lemma_path_depends(layers, path);
    }
    assert forall|path: Seq<nat>|
        #![auto]
        ({
            &&& path.len() >= 2
            &&& path[0] == i
            &&& path[path.len() - 1] == j
            &&& forall|k: int|
                0 <= k < path.len() - 1 ==> path[k + 1] < #[trigger] path[k] && path[k + 1]
                    < layers[path[k] as int].refs.0.len() && layers[path[k] as int].refs.0[path[k + 1] as int]
                    != 0
        }) implies depends(layers, i, j) by {
        assert(leads(layers, path));
        lemma_path_depends(layers, path);
    }
}

/// Every step of the path is a direct reference to an earlier layer.
pub open spec fn leads(layers: Seq<VvcVpsLayerModel>, path: Seq<nat>) -> bool {
    path.len() >= 2 && forall|k: int|
        0 <= k < path.len() - 1 ==> path[k + 1] < #[trigger] path[k] && refers(layers, path[k], path[k + 1])
}

proof fn lemma_path_of(layers: Seq<VvcVpsLayerModel>, i: nat, j: nat) -> (path: Seq<nat>)
    requires
        depends(layers, i, j),
    ensures
        leads(layers, path),
        path[0] == i,
        path[path.len() - 1] == j,
    decreases i,
{
    if refers(layers, i, j) {
        seq![i, j]
    } else {
        let k = choose|k: nat| k < i && #[trigger] refers(layers, i, k) && depends(layers, k, j);
        let rest = lemma_path_of(layers, k, j);
        let path = seq![i] + rest;
        assert forall|n: int| 0 <= n < path.len() - 1 implies path[n + 1] < #[trigger] path[n] && refers(
            layers,
            path[n],
            path[n + 1],
        ) by {
            if n > 0 {
                assert(path[n] == rest[n - 1] && path[n + 1] == rest[n]);
            } else {
                assert(path[1] == rest[0]);
            }
        }
        path
    }
}

proof fn lemma_path_depends(layers: Seq<VvcVpsLayerModel>, path: Seq<nat>)
    requires
        leads(layers, path),
    ensures
        depends(layers, path[0], path[path.len() - 1]),
    decreases path.len(),
{
    assert(path[1] < path[0] && refers(layers, path[0], path[1]));
    if path.len() > 2 {
        let rest = path.skip(1);
        assert forall|n: int| 0 <= n < rest.len() - 1 implies rest[n + 1] < #[trigger] rest[n] && refers(
            layers,
            rest[n],
            rest[n + 1],
        ) by {
            assert(rest[n] == path[n + 1]);
        }
        lemma_path_depends(layers, rest);
        assert(rest[0] == path[1] && rest[rest.len() - 1] == path[path.len() - 1]);
    }
}

/// An output layer set holds its output layers and the layers that they depend on,
/// and it is counted if it holds two or more. Without a table of output layers there
/// is a set for each layer, and all but the first hold more than one, unless each
/// layer is a set of its own.
#[verifier::rlimit(60)]
#[verifier::spinoff_prover]
pub proof fn law_output_layer_sets(
    each_layer: u8,
    mode: u8,
    layers: Seq<VvcVpsLayerModel>,
    rows: Seq<Seq<u8>>,
)
    requires
        1 <= layers.len() <= 64,
        rows.len() <= 255,
    ensures
        forall|row: Seq<u8>, j: nat|
            #[trigger] includes(layers, row, j) <==> exists|k: int|
                0 <= k < row.len() && #[trigger] row[k] != 0 && (j == k || depends(layers, k as nat, j)),
        forall|row: Seq<u8>| #[trigger]
            is_multi(layers, row) <==> exists|i: nat, j: nat|
                i != j && i < layers.len() && j < layers.len() && #[trigger] includes(layers, row, i)
                    && #[trigger] includes(layers, row, j),
        count_multi(layers, rows) == rows.filter(|row: Seq<u8>| is_multi(layers, row)).len(),
        ({
            let o = ols_of(each_layer, mode, layers, rows);
            &&& each_layer != 0 ==> o.total == layers.len() && o.multi == 0
            &&& each_layer == 0 && mode <= 1 ==> o.total == layers.len() && o.multi == layers.len() - 1
            &&& each_layer == 0
                && mode == 2
                ==> o.total == rows.len() + 1
                && o.multi == count_multi(layers, rows)
        }),
        ols_ok(each_layer, mode, layers, rows) <==> each_layer != 0 || mode == 0 || mode == 1 || (mode == 2
            && forall|i: int|
            0 <= i < rows.len() ==> (#[trigger] rows[i]).len() == layers.len() && exists|k: int|
                0 <= k < rows[i].len() && #[trigger] rows[i][k] != 0),
{
    reveal(ols_ok);
    reveal(ols_of);
    assert forall|row: Seq<u8>| #[trigger] is_multi(layers, row) <==> exists|i: nat, j: nat|
        i != j && i < layers.len() && j < layers.len() && #[trigger] includes(layers, row, i) && #[trigger] includes(
            layers,
            row,
            j,
        ) by {
        if exists|i: nat, j: nat|
            i != j && i < layers.len() && j < layers.len() && #[trigger] includes(layers, row, i)
                && #[trigger] includes(layers, row, j) {
            let (i, j) = choose|i: nat, j: nat|
                i != j && i < layers.len() && j < layers.len() && #[trigger] includes(layers, row, i)
                    && #[trigger] includes(layers, row, j);
            if j < i {
                assert(j < i < layers.len() && includes(layers, row, j) && includes(layers, row, i));
            }
        }
    }
    lemma_multi_rows(layers, rows);
}

proof fn lemma_multi_rows(layers: Seq<VvcVpsLayerModel>, rows: Seq<Seq<u8>>)
    ensures
        count_multi(layers, rows) == rows.filter(|row: Seq<u8>| is_multi(layers, row)).len(),
        count_multi(layers, rows) <= rows.len(),
    decreases rows.len(),
{
    reveal(Seq::filter);
    if rows.len() > 0 {
        lemma_multi_rows(layers, rows.drop_last());
    }
}

/// The PTL slots are the headers of all slots, alignment bits, and then the
/// structures, each under its own header.
#[verifier::rlimit(60)]
#[verifier::spinoff_prover]
pub proof fn law_layout_vps_ptls(
    s: Seq<bool>,
    p: nat,
    dflt: u8,
    max_sub: u8,
    n: u64,
    xs: Seq<VvcVpsPtlModel>,
    q: nat,
)
    ensures
        vps_ptls_at(s, p, dflt, max_sub, n) == Ok::<(Seq<VvcVpsPtlModel>, nat), Fault>((xs, q)) <==> ({
            let heads = Seq::new(n as nat, |i: int| (xs[i].vps_pt_present_flag, xs[i].vps_ptl_max_tid));
            let bodies = Seq::new(n as nat, |i: int| xs[i].ptl);
            &&& xs.len() == n
            &&& cursor(s, p)
                .part(|p: nat| ptl_heads_at(s, p, dflt, max_sub, n), heads)
                .align()
                .part(|p: nat| ptl_bodies_at(s, p, heads, n), bodies)
                .ends(q)
        }),
        forall|i: u64, heads: Seq<(u8, u8)>| #[trigger]
            ptl_body_at(s, p, i, heads) == ptl_at(s, p, heads[i as int].0 != 0, heads[i as int].1 as u32),
{
    broadcast use {law_put_ptl_heads_at, law_put_ptl_bodies_at};

    reveal(vps_ptls_at);
    reveal(ptl_body_at);
    let heads = Seq::new(n as nat, |i: int| (xs[i].vps_pt_present_flag, xs[i].vps_ptl_max_tid));
    let bodies = Seq::new(n as nat, |i: int| xs[i].ptl);
    if xs.len() == n {
        assert(ptl_slots(heads, bodies) =~= xs);
    }
    if let Ok((hs, r)) = ptl_heads_at(s, p, dflt, max_sub, n) {
        if let Ok(r) = align_at(s, r) {
            if let Ok((bs, z)) = ptl_bodies_at(s, r, hs, n) {
                if ptl_slots(hs, bs) == xs {
                    assert forall|i: int| 0 <= i < n implies hs[i] == heads[i] && bs[i] == bodies[i] by {
                        assert(ptl_slots(hs, bs)[i] == xs[i]);
                    }
                    assert(hs =~= heads && bs =~= bodies);
                }
            }
        }
    }
}

/// What the writer accepts as direct references reads back, where at least one is
/// set, and there are none for an independent layer.
pub proof fn law_reads_layer_refs(
    a: Seq<bool>,
    x: (Seq<u8>, Seq<u8>),
    dependent: bool,
    i: u64,
    present: u8,
    dflt: u8,
    s: Seq<bool>,
)
    requires
        layer_refs_can(x, dependent, i, present, dflt),
        dependent ==> exists|j: int| 0 <= j < x.0.len() && #[trigger] x.0[j] == 1,
        dependent ==> ref_pairs_ok(Seq::new(x.0.len(), |j: int| (x.0[j], x.1[j])), present, dflt, i),
        !dependent ==> x.1.len() == 0,
        pre(put_layer_refs(a, x, dependent, i, present, dflt), s),
    ensures
        layer_refs_at(s, a.len(), dependent, i, present, dflt) == Ok::<((Seq<u8>, Seq<u8>), nat), Fault>(
            (x, put_layer_refs(a, x, dependent, i, present, dflt).len()),
        ),
{
    assert(pairs(x.0, x.1) =~= Seq::new(x.0.len(), |j: int| (x.0[j], x.1[j])));
    assert(layer_refs_ok(x, dependent, i, present, dflt)) by {
        reveal(layer_refs_ok);
        reveal(layer_refs_can);
    }
    law_pre_put_layer_refs(a, x, dependent, i, present, dflt, s);
}

/// Reading the direct references fails only as invalid.
pub broadcast proof fn law_faults_layer_refs(
    s: Seq<bool>,
    p: nat,
    dependent: bool,
    i: u64,
    present: u8,
    dflt: u8,
)
    ensures
        #[trigger] layer_refs_at(s, p, dependent, i, present, dflt) matches Err(f) ==> f == Fault::Invalid,
{
    broadcast use law_faults_ref_pairs;

    reveal(layer_refs_at);
}

/// Reading the structure fails only as invalid.
pub broadcast proof fn law_faults_ptl_body(s: Seq<bool>, p: nat, i: u64, heads: Seq<(u8, u8)>)
    ensures
        #[trigger] ptl_body_at(s, p, i, heads) matches Err(f) ==> f == Fault::Invalid,
{
    broadcast use law_faults_ptl;

    reveal(ptl_body_at);
}

/// Reading the slots fails only as invalid.
pub broadcast proof fn law_faults_vps_ptls(s: Seq<bool>, p: nat, dflt: u8, max_sub: u8, n: u64)
    ensures
        #[trigger] vps_ptls_at(s, p, dflt, max_sub, n) matches Err(f) ==> f == Fault::Invalid,
{
    broadcast use {law_faults_ptl_heads, law_faults_ptl_bodies};

    reveal(vps_ptls_at);
    reveal(align_at);
}

/// Each field of the model of a [`VvcVpsPtl`] is the field of that name.
pub proof fn law_fields_of_vps_ptl(x: VvcVpsPtl)
    ensures
        x@.vps_pt_present_flag == x.vps_pt_present_flag,
        x@.vps_ptl_max_tid == x.vps_ptl_max_tid,
        x@.ptl == x.ptl@,
{
}

/// The layer ids of a VPS go up from layer to layer.
pub proof fn law_increasing(layers: Seq<VvcVpsLayerModel>)
    ensures
        increasing(layers) <==> forall|i: int, j: int|
            0 <= i < j < layers.len()
                ==> (#[trigger] layers[i]).vps_layer_id < (#[trigger] layers[j]).vps_layer_id,
{
    if increasing(layers) {
        assert forall|i: int, j: int| 0 <= i < j < layers.len() implies (#[trigger] layers[i]).vps_layer_id < (
        #[trigger] layers[j]).vps_layer_id by {
            lemma_increasing(layers, i, j);
        }
    }
}

proof fn lemma_increasing(layers: Seq<VvcVpsLayerModel>, i: int, j: int)
    requires
        increasing(layers),
        0 <= i < j < layers.len(),
    ensures
        layers[i].vps_layer_id < layers[j].vps_layer_id,
    decreases j - i,
{
    assert(layers[j - 1].vps_layer_id < layers[j].vps_layer_id);
    if i < j - 1 {
        lemma_increasing(layers, i, j - 1);
    }
}

/// What the writer accepts as PTL slots reads back, where their headers and structures
/// are ones that reading can give.
pub proof fn law_reads_vps_ptls(
    a: Seq<bool>,
    xs: Seq<VvcVpsPtlModel>,
    dflt: u8,
    max_sub: u8,
    n: u64,
    s: Seq<bool>,
)
    requires
        vps_ptls_can(xs, dflt, max_sub, n),
        xs.len() == n,
        ptl_heads_ok(
            Seq::new(xs.len(), |i: int| (xs[i].vps_pt_present_flag, xs[i].vps_ptl_max_tid)),
            dflt,
            max_sub,
            n,
        ),
        ptl_bodies_ok(
            Seq::new(xs.len(), |i: int| xs[i].ptl),
            Seq::new(xs.len(), |i: int| (xs[i].vps_pt_present_flag, xs[i].vps_ptl_max_tid)),
            n,
        ),
        pre(put_vps_ptls(a, xs, dflt, max_sub, n), s),
    ensures
        vps_ptls_at(s, a.len(), dflt, max_sub, n) == Ok::<(Seq<VvcVpsPtlModel>, nat), Fault>(
            (xs, put_vps_ptls(a, xs, dflt, max_sub, n).len()),
        ),
{
    assert(heads_of(xs) =~= Seq::new(xs.len(), |i: int| (xs[i].vps_pt_present_flag, xs[i].vps_ptl_max_tid)));
    assert(bodies_of(xs) =~= Seq::new(xs.len(), |i: int| xs[i].ptl));
    assert(vps_ptls_ok(xs, dflt, max_sub, n)) by {
        reveal(vps_ptls_ok);
        reveal(vps_ptls_can);
    }
    law_pre_put_vps_ptls(a, xs, dflt, max_sub, n, s);
}

/// The number of layers less one, and their ids in order.
pub proof fn law_vps_values(x: VvcVps, n: u8, ids: Vec<u8>, i: int)
    requires
        call_ensures(VvcVps::vps_max_layers_minus1, (&x,), n),
        call_ensures(VvcVps::layer_ids, (&x,), ids),
    ensures
        1 <= x.layers@.len() <= 256 ==> n + 1 == x.layers@.len(),
        x.layers@.len() == 0 ==> n == 0,
        ids@.len() == x.layers@.len(),
        0 <= i < ids@.len() ==> ids@[i] == x.layers@[i].vps_layer_id,
{
}

} // verus!
