//! H.266 / VVC.
//!
//! The two-byte NAL header, `profile_tier_level()`, and in the submodules
//! the parameter sets and SEI messages, each with a parser and its
//! byte-exact inverse.
use crate::bit_reader::{BitReader, read_is, read_view_is};
use crate::bit_writer::{BitWriter, write_is};
use crate::bits::{
    Read, adv, adv_if, align_at, align_if, bitlist_at, bitlist_ok, bits_of, fits, flag_if,
    group_read_written, group_read_written_lists, group_write_read, group_write_read_lists,
    law_faults_bitlist, law_faults_u8s, law_faults_us, law_fits_small, pre, put_align,
    put_align_if, put_bit, put_bitlist, put_flag_if, put_u, put_u8s, put_u_if, put_us,
    read_some, u8_at, u8_if, u8s_at, u8s_ok, upto, us_at, us_ok, within,
};
use crate::layout::cursor;
pub use crate::nal::ebsp_to_rbsp;
use crate::nal::{
    conformant, escape, law_escape_unescape, law_unescape_escape, rbsp_to_ebsp, unescape,
};
use crate::message::Message;
use crate::{BitstreamError, Fault};
use vstd::prelude::*;
use vstd::slice::slice_subrange;

pub mod aps;
pub mod params;
pub mod pps;
pub mod sei;
pub mod sps;
pub mod vps;

verus! {

// ─────────────────────────── NAL unit types (Table 5) ───────────────────────

/// VPS_NUT.
pub const NAL_TYPE_VPS: u8 = 14;

/// SPS_NUT.
pub const NAL_TYPE_SPS: u8 = 15;

/// PPS_NUT.
pub const NAL_TYPE_PPS: u8 = 16;

/// PREFIX_APS_NUT.
pub const NAL_TYPE_PREFIX_APS: u8 = 17;

/// SUFFIX_APS_NUT.
pub const NAL_TYPE_SUFFIX_APS: u8 = 18;

/// PREFIX_SEI_NUT.
pub const NAL_TYPE_PREFIX_SEI: u8 = 23;

/// SUFFIX_SEI_NUT.
pub const NAL_TYPE_SUFFIX_SEI: u8 = 24;

/// The two-byte NAL unit header (7.3.1.2).
#[derive(Debug, Clone, Copy, PartialEq, Eq)]
pub struct VvcNalHeader {
    /// `nuh_reserved_zero_bit` u(1).
    pub nuh_reserved_zero_bit: u8,
    /// `nuh_layer_id` u(6).
    pub nuh_layer_id: u8,
    /// `nal_unit_type` u(5).
    pub nal_unit_type: u8,
    /// `nuh_temporal_id_plus1` u(3).
    pub nuh_temporal_id_plus1: u8,
}

/// The NAL unit header at the start of `b`.
pub open spec fn nal_header_of(b: Seq<u8>) -> Result<VvcNalHeader, Fault> {
    if b.len() < 2 {
        Err(Fault::End)
    } else if b[0] >= 128 {
        Err(Fault::Invalid)
    } else {
        Ok(
            VvcNalHeader {
                nuh_reserved_zero_bit: b[0] / 64 % 2,
                nuh_layer_id: b[0] % 64,
                nal_unit_type: b[1] / 8,
                nuh_temporal_id_plus1: b[1] % 8,
            },
        )
    }
}

/// Decode the two-byte NAL unit header at the start of `nal`. A set
/// `forbidden_zero_bit` is rejected.
pub fn parse_nal_header(nal: &[u8]) -> (res: Result<VvcNalHeader, BitstreamError>)
    ensures
        match nal_header_of(nal@) {
            Ok(h) => res == Ok::<VvcNalHeader, BitstreamError>(h),
            Err(f) => res matches Err(e) && e.fault() == f,
        },
{
    if nal.len() < 2 {
        return Err(BitstreamError::unexpected_end("H.266 NAL needs at least the 2-byte header"));
    }
    if nal[0] >= 128 {
        return Err(BitstreamError::invalid("forbidden_zero_bit is 1"));
    }
    Ok(
        VvcNalHeader {
            nuh_reserved_zero_bit: nal[0] / 64 % 2,
            nuh_layer_id: nal[0] % 64,
            nal_unit_type: nal[1] / 8,
            nuh_temporal_id_plus1: nal[1] % 8,
        },
    )
}

/// The RBSP that the NAL unit `b` carries, which must be of type `want`.
pub open spec fn rbsp_of_nal(b: Seq<u8>, want: u8) -> Result<Seq<u8>, Fault> {
    match nal_header_of(b) {
        Err(f) => Err(f),
        Ok(h) => if h.nal_unit_type != want {
            Err(Fault::Invalid)
        } else {
            Ok(unescape(b.skip(2)))
        },
    }
}

/// The NAL unit of type `t` in layer 0, with the lowest temporal id, that
/// carries `rbsp`.
pub open spec fn nal_of_rbsp(t: u8, rbsp: Seq<u8>) -> Seq<u8> {
    seq![0u8, (t * 8 + 1) as u8] + escape(rbsp, 0)
}

/// What a parser of a NAL unit promises: the outcome that `want` gives.
pub open spec fn nal_read_is<V: View>(want: Result<V::V, Fault>, got: Result<V, BitstreamError>) -> bool {
    match want {
        Ok(x) => got matches Ok(v) && v@ == x,
        Err(f) => got matches Err(e) && e.fault() == f,
    }
}

/// What a writer of an RBSP promises: it succeeds if and only if `can`, and then
/// returns the bytes whose bits are `want`.
pub open spec fn rbsp_write_is(
    can: bool,
    want: Seq<bool>,
    got: Result<Vec<u8>, BitstreamError>,
) -> bool {
    match got {
        Ok(v) => can && bits_of(v@) == want,
        Err(e) => !can && e.fault() == Fault::Invalid,
    }
}

/// What a writer of a NAL unit promises: it succeeds if and only if `can`, and
/// then returns the NAL unit of type `t` whose RBSP has the bits `want`.
pub open spec fn nal_write_is(
    can: bool,
    t: u8,
    want: Seq<bool>,
    got: Result<Vec<u8>, BitstreamError>,
) -> bool {
    match got {
        Ok(v) => can && exists|rbsp: Seq<u8>|
            #[trigger] bits_of(rbsp) == want && v@ == nal_of_rbsp(t, rbsp),
        Err(e) => !can && e.fault() == Fault::Invalid,
    }
}

/// The RBSP of a NAL unit of type `want`, which an error calls by `name`.
pub(crate) fn nal_rbsp(nal: &[u8], want: u8, name: &str) -> (res: Result<Vec<u8>, BitstreamError>)
    ensures
        match rbsp_of_nal(nal@, want) {
            Ok(r) => res matches Ok(v) && v@ == r,
            Err(f) => res matches Err(e) && e.fault() == f,
        },
{
    if nal.len() < 2 {
        return Err(
            Message::new("H.266 ").with(name).with(" NAL needs at least the 2-byte header").unexpected_end(),
        );
    }
    let header = parse_nal_header(nal)?;
    if header.nal_unit_type != want {
        return Err(
            Message::new("expected ")
                .with(name)
                .with(" NAL (type ")
                .num(want as i128)
                .with("), got ")
                .num(header.nal_unit_type as i128)
                .invalid(),
        );
    }
    proof {
        assert(nal@.subrange(2, nal@.len() as int) =~= nal@.skip(2));
    }
    Ok(ebsp_to_rbsp(slice_subrange(nal, 2, nal.len())))
}

/// The NAL unit of type `t` that carries `rbsp`.
pub(crate) fn frame_nal(t: u8, rbsp: &Vec<u8>) -> (nal: Vec<u8>)
    requires
        t < 32,
    ensures
        nal@ == nal_of_rbsp(t, rbsp@),
{
    let mut nal: Vec<u8> = Vec::new();
    nal.push(0);
    nal.push(t * 8 + 1);
    let mut body = rbsp_to_ebsp(rbsp.as_slice());
    nal.append(&mut body);
    proof {
        assert(nal@ =~= nal_of_rbsp(t, rbsp@));
    }
    nal
}

/// A NAL unit that was framed gives its RBSP back.
pub proof fn law_rbsp_of_framed_nal(t: u8, rbsp: Seq<u8>)
    requires
        t < 32,
    ensures
        rbsp_of_nal(nal_of_rbsp(t, rbsp), t) == Ok::<Seq<u8>, Fault>(rbsp),
{
    let b = nal_of_rbsp(t, rbsp);
    assert(b.skip(2) =~= escape(rbsp, 0));
    law_unescape_escape(rbsp);
}

/// A NAL unit of type `t` as the writers frame one: the header of layer 0 with
/// the lowest temporal id, and emulation-prevention bytes only where they are
/// needed.
pub open spec fn canonical_nal(t: u8, b: Seq<u8>) -> bool {
    &&& b.len() >= 2
    &&& b[0] == 0
    &&& b[1] == t * 8 + 1
    &&& conformant(b.skip(2))
}

/// A NAL unit in canonical form is the frame of the RBSP that it carries.
pub proof fn law_framed_rbsp_of_nal(t: u8, b: Seq<u8>)
    requires
        t < 32,
        canonical_nal(t, b),
    ensures
        rbsp_of_nal(b, t) == Ok::<Seq<u8>, Fault>(unescape(b.skip(2))),
        nal_of_rbsp(t, unescape(b.skip(2))) == b,
{
    law_escape_unescape(b.skip(2));
    assert(nal_of_rbsp(t, unescape(b.skip(2))) =~= b);
}

// ─────────────────────────── profile_tier_level (7.3.3.1) ───────────────────

/// `profile_tier_level(profileTierPresentFlag, MaxNumSubLayersMinus1)`,
/// with every bit retained.
#[derive(Debug, Clone, PartialEq, Eq, Default)]
pub struct VvcProfileTierLevel {
    /// `general_profile_idc` u(7), present iff profileTierPresentFlag.
    pub general_profile_idc: Option<u8>,
    /// `general_tier_flag` u(1), present iff profileTierPresentFlag.
    pub general_tier_flag: Option<u8>,
    /// `general_level_idc` u(8).
    pub general_level_idc: u8,
    /// `ptl_frame_only_constraint_flag` u(1).
    pub ptl_frame_only_constraint_flag: u8,
    /// `ptl_multilayer_enabled_flag` u(1).
    pub ptl_multilayer_enabled_flag: u8,
    /// `ptl_sublayer_level_present_flag` bits in coded order, the highest
    /// sublayer first: one per sublayer below the highest.
    pub ptl_sublayer_level_present_flag: Vec<u8>,
    /// `sublayer_level_idc` u(8) values in coded order, one for each set
    /// presence flag.
    pub sublayer_level_idc: Vec<u8>,
    /// `general_sub_profile_idc[i]` u(32), empty unless
    /// profileTierPresentFlag.
    pub general_sub_profile_idc: Vec<u32>,
    /// `gci_present_flag`, false unless profileTierPresentFlag.
    pub gci_present_flag: bool,
    /// The bits of `general_constraints_info()`, empty unless
    /// `gci_present_flag`: the 71 constraint bits, then the
    /// `gci_num_additional_bits` additional bits (0..=255 of them).
    pub gci_bits: Vec<u8>,
}

/// The number of nonzero entries.
pub open spec fn count_set(v: Seq<u8>) -> nat
    decreases v.len(),
{
    if v.len() == 0 {
        0
    } else {
        count_set(v.drop_last()) + if v.last() != 0 {
            1nat
        } else {
            0nat
        }
    }
}

/// The number of nonzero entries.
fn count_set_bits(v: &[u8]) -> (n: u64)
    ensures
        n == count_set(v@),
{
    let mut n: u64 = 0;
    let mut i: usize = 0;
    proof {
        assert(v@.take(0) =~= Seq::empty());
    }
    while i < v.len()
        invariant
            i <= v@.len(),
            n <= i,
            n == count_set(v@.take(i as int)),
        decreases v@.len() - i,
    {
        proof {
            assert(v@.take(i + 1).drop_last() =~= v@.take(i as int));
        }
        if v[i] != 0 {
            n = n + 1;
        }
        i = i + 1;
    }
    proof {
        assert(v@.take(i as int) =~= v@);
    }
    n
}

/// The bits of general_constraints_info() behind gci_present_flag.
#[verifier::opaque]
pub open spec fn gci_at(s: Seq<bool>, p: nat, present: bool) -> Read<Seq<u8>> {
    if present {
        match bitlist_at(s, p, 71) {
            Err(f) => Err(f),
            Ok((flags, p)) => {
                let n = u8_at(s, p, 8);
                match bitlist_at(s, adv(p, 8), n as nat) {
                    Err(f) => Err(f),
                    Ok((extra, p)) => Ok((flags + extra, p)),
                }
            },
        }
    } else {
        Ok((Seq::empty(), p))
    }
}

/// Writes the bits.
#[verifier::opaque]
pub open spec fn put_gci(a: Seq<bool>, x: Seq<u8>, present: bool) -> Seq<bool> {
    if present {
        let a = put_bitlist(a, x.take(71));
        let a = put_u(a, (x.len() - 71) as nat, 8);
        put_bitlist(a, x.skip(71))
    } else {
        a
    }
}

/// A value that reading can give.
#[verifier::opaque]
pub open spec fn gci_ok(x: Seq<u8>, present: bool) -> bool {
    if present {
        71 <= x.len() <= 326 && bitlist_ok(x)
    } else {
        x.len() == 0
    }
}

/// A value that the writer accepts.
#[verifier::opaque]
pub open spec fn gci_can(x: Seq<u8>, present: bool) -> bool {
    if present {
        71 <= x.len() <= 326
    } else {
        x.len() == 0
    }
}

/// Parses the bits.
fn parse_gci(r: &mut BitReader<'_>, present: bool) -> (res: Result<Vec<u8>, BitstreamError>)
    ensures
        read_view_is(gci_at(old(r).bits(), old(r).pos(), present), res, *old(r), *final(r)),
{
    proof {
        reveal(gci_at);
    }
    if !present {
        return Ok(Vec::new());
    }
    let mut flags = r.read_bitlist(71);
    let n: u8 = r.u8(8);
    let mut extra = r.read_bitlist(n as u64);
    flags.append(&mut extra);
    Ok(flags)
}

/// Emits the bits.
fn write_gci(w: &mut BitWriter, x: &Vec<u8>, present: bool) -> (res: Result<(), BitstreamError>)
    ensures
        write_is(gci_can(x@, present), put_gci(old(w)@, x@, present), res, final(w)@),
{
    proof {
        reveal(put_gci);
        reveal(gci_can);
    }
    if !present {
        if x.len() != 0 {
            return Err(BitstreamError::invalid("gci_bits without gci_present_flag"));
        }
        return Ok(());
    }
    if x.len() < 71 || x.len() > 326 {
        return Err(BitstreamError::invalid("gci_bits needs 71..=326 entries"));
    }
    let all = x.as_slice();
    let n: u32 = (x.len() - 71) as u32;
    proof {
        assert(x@.subrange(0, 71) =~= x@.take(71));
        assert(x@.subrange(71, x@.len() as int) =~= x@.skip(71));
    }
    w.write_bitlist(slice_subrange(all, 0, 71));
    w.write_bits(n, 8);
    w.write_bitlist(slice_subrange(all, 71, all.len()));
    Ok(())
}

/// Writing what was read gives back the bits that were read.
pub broadcast proof fn law_put_gci_at(s: Seq<bool>, p: nat, present: bool)
    ensures
        #[trigger] gci_at(s, p, present) matches Ok((x, q)) ==> {
            &&& gci_ok(x, present)
            &&& gci_can(x, present)
            &&& within(s, q) ==> within(s, p) && put_gci(upto(s, p), x, present) == upto(s, q)
        },
{
    broadcast use {crate::bits::group_write_read, crate::bits::group_write_read_lists};

    reveal(gci_at);
    reveal(put_gci);
    reveal(gci_ok);
    reveal(gci_can);
    if present {
        if let Ok((flags, q)) = bitlist_at(s, p, 71) {
            let n = u8_at(s, q, 8);
            if let Ok((extra, t)) = bitlist_at(s, adv(q, 8), n as nat) {
                let x = flags + extra;
                assert(x.take(71) =~= flags);
                assert(x.skip(71) =~= extra);
            }
        }
    }
}

/// What was written reads back as the value that was written.
pub broadcast proof fn law_pre_put_gci(a: Seq<bool>, x: Seq<u8>, present: bool, s: Seq<bool>)
    requires
        #[trigger] pre(put_gci(a, x, present), s),
        gci_ok(x, present),
    ensures
        pre(a, s),
        gci_can(x, present),
        gci_at(s, a.len(), present) == Ok::<(Seq<u8>, nat), Fault>(
            (x, put_gci(a, x, present).len()),
        ),
{
    broadcast use {crate::bits::group_read_written, crate::bits::group_read_written_lists};

    reveal(gci_at);
    reveal(put_gci);
    reveal(gci_ok);
    reveal(gci_can);
    if present {
        assert(x.take(71) + x.skip(71) =~= x);
        assert(bitlist_ok(x.take(71)));
        assert(bitlist_ok(x.skip(71)));
    } else {
        assert(x =~= Seq::empty());
    }
}

/// general_profile_idc at position `p`.
#[verifier::opaque]
pub open spec fn ptl_profile_at(s: Seq<bool>, p: nat) -> Read<u8> {
    let v = u8_at(s, p, 7);
    let p = adv(p, 7);
    Ok((v, p))
}

/// The bits `a` followed by general_profile_idc.
#[verifier::opaque]
pub open spec fn put_ptl_profile(a: Seq<bool>, x: u8) -> Seq<bool> {
    let a = put_u(a, x as nat, 7);
    a
}

/// The values of general_profile_idc that reading can give.
#[verifier::opaque]
pub open spec fn ptl_profile_ok(x: u8) -> bool {
    &&& fits(x as nat, 7)
}

/// The values of general_profile_idc that the writer accepts.
#[verifier::opaque]
pub open spec fn ptl_profile_can(x: u8) -> bool {
    true
}

/// Parses general_profile_idc.
fn parse_ptl_profile(r: &mut BitReader<'_>) -> (res: Result<u8, BitstreamError>)
    ensures
        read_is(ptl_profile_at(old(r).bits(), old(r).pos()), res, *old(r), *final(r)),
{
    proof {
        reveal(ptl_profile_at);
    }
    let v: u8 = r.u8(7);
    Ok(v)
}

/// Emits general_profile_idc, the inverse of [`parse_ptl_profile`].
fn write_ptl_profile(w: &mut BitWriter, x: &u8) -> (res: Result<(), BitstreamError>)
    ensures
        write_is(ptl_profile_can(*x), put_ptl_profile(old(w)@, *x), res, final(w)@),
{
    proof {
        reveal(put_ptl_profile);
        reveal(ptl_profile_can);
    }
    w.write_bits((*x) as u32, 7);
    Ok(())
}

/// Writing general_profile_idc gives back the bits it was read from.
pub broadcast proof fn law_put_ptl_profile_at(s: Seq<bool>, p: nat)
    ensures
        #[trigger] ptl_profile_at(s, p) matches Ok((x, q)) ==> {
            &&& ptl_profile_ok(x)
            &&& ptl_profile_can(x)
            &&& within(s, q) ==> within(s, p) && put_ptl_profile(upto(s, p), x) == upto(s, q)
        },
{
    broadcast use crate::bits::group_write_read;

    reveal(ptl_profile_at);
    reveal(put_ptl_profile);
    reveal(ptl_profile_ok);
    reveal(ptl_profile_can);
}

/// Reading gives back general_profile_idc as it was written.
pub broadcast proof fn law_pre_put_ptl_profile(a: Seq<bool>, x: u8, s: Seq<bool>)
    requires
        #[trigger] pre(put_ptl_profile(a, x), s),
        ptl_profile_ok(x),
    ensures
        pre(a, s),
        ptl_profile_can(x),
        ptl_profile_at(s, a.len()) == Ok::<(u8, nat), Fault>((x, put_ptl_profile(a, x).len())),
{
    broadcast use crate::bits::group_read_written;

    reveal(ptl_profile_at);
    reveal(put_ptl_profile);
    reveal(ptl_profile_ok);
    reveal(ptl_profile_can);
}

/// The layout of general_profile_idc: reading at `p` gives `x` and ends at `q`
/// if and only if these elements stand there in this order.
pub proof fn law_layout_ptl_profile(s: Seq<bool>, p: nat, x: u8, q: nat)
    ensures
        ptl_profile_at(s, p) == Ok::<(u8, nat), Fault>((x, q)) <==> cursor(s, p).u8(7, x).ends(q),
{
    reveal(ptl_profile_at);
}

/// Reading general_profile_idc never fails.
pub broadcast proof fn law_faults_ptl_profile(s: Seq<bool>, p: nat)
    ensures
        #[trigger] ptl_profile_at(s, p) is Ok,
{
    reveal(ptl_profile_at);
}

/// What the writer accepts reads back: general_profile_idc, where each field
/// fits its width and what is not coded has the value that is taken for it.
pub proof fn law_reads_ptl_profile(a: Seq<bool>, x: u8, s: Seq<bool>)
    requires
        ptl_profile_can(x),
        fits(x as nat, 7),
        pre(put_ptl_profile(a, x), s),
    ensures
        ptl_profile_at(s, a.len()) == Ok::<(u8, nat), Fault>((x, put_ptl_profile(a, x).len())),
{
    assert(ptl_profile_ok(x)) by {
        broadcast use crate::bits::law_fits_small;

        reveal(ptl_profile_ok);
        reveal(ptl_profile_can);
    }
    law_pre_put_ptl_profile(a, x, s);
}

/// general_tier_flag at position `p`.
#[verifier::opaque]
pub open spec fn ptl_tier_at(s: Seq<bool>, p: nat) -> Read<u8> {
    let v = u8_at(s, p, 1);
    let p = adv(p, 1);
    Ok((v, p))
}

/// The bits `a` followed by general_tier_flag.
#[verifier::opaque]
pub open spec fn put_ptl_tier(a: Seq<bool>, x: u8) -> Seq<bool> {
    let a = put_bit(a, x as nat);
    a
}

/// The values of general_tier_flag that reading can give.
#[verifier::opaque]
pub open spec fn ptl_tier_ok(x: u8) -> bool {
    &&& fits(x as nat, 1)
}

/// The values of general_tier_flag that the writer accepts.
#[verifier::opaque]
pub open spec fn ptl_tier_can(x: u8) -> bool {
    true
}

/// Parses general_tier_flag.
fn parse_ptl_tier(r: &mut BitReader<'_>) -> (res: Result<u8, BitstreamError>)
    ensures
        read_is(ptl_tier_at(old(r).bits(), old(r).pos()), res, *old(r), *final(r)),
{
    proof {
        reveal(ptl_tier_at);
    }
    let v: u8 = r.bit();
    Ok(v)
}

/// Emits general_tier_flag, the inverse of [`parse_ptl_tier`].
fn write_ptl_tier(w: &mut BitWriter, x: &u8) -> (res: Result<(), BitstreamError>)
    ensures
        write_is(ptl_tier_can(*x), put_ptl_tier(old(w)@, *x), res, final(w)@),
{
    proof {
        reveal(put_ptl_tier);
        reveal(ptl_tier_can);
    }
    w.write_bit((*x) as u32);
    Ok(())
}

/// Writing general_tier_flag gives back the bits it was read from.
pub broadcast proof fn law_put_ptl_tier_at(s: Seq<bool>, p: nat)
    ensures
        #[trigger] ptl_tier_at(s, p) matches Ok((x, q)) ==> {
            &&& ptl_tier_ok(x)
            &&& ptl_tier_can(x)
            &&& within(s, q) ==> within(s, p) && put_ptl_tier(upto(s, p), x) == upto(s, q)
        },
{
    broadcast use crate::bits::group_write_read;

    reveal(ptl_tier_at);
    reveal(put_ptl_tier);
    reveal(ptl_tier_ok);
    reveal(ptl_tier_can);
}

/// Reading gives back general_tier_flag as it was written.
pub broadcast proof fn law_pre_put_ptl_tier(a: Seq<bool>, x: u8, s: Seq<bool>)
    requires
        #[trigger] pre(put_ptl_tier(a, x), s),
        ptl_tier_ok(x),
    ensures
        pre(a, s),
        ptl_tier_can(x),
        ptl_tier_at(s, a.len()) == Ok::<(u8, nat), Fault>((x, put_ptl_tier(a, x).len())),
{
    broadcast use crate::bits::group_read_written;

    reveal(ptl_tier_at);
    reveal(put_ptl_tier);
    reveal(ptl_tier_ok);
    reveal(ptl_tier_can);
}

/// The layout of general_tier_flag: reading at `p` gives `x` and ends at `q` if
/// and only if these elements stand there in this order.
pub proof fn law_layout_ptl_tier(s: Seq<bool>, p: nat, x: u8, q: nat)
    ensures
        ptl_tier_at(s, p) == Ok::<(u8, nat), Fault>((x, q)) <==> cursor(s, p).u8(1, x).ends(q),
{
    reveal(ptl_tier_at);
}

/// Reading general_tier_flag never fails.
pub broadcast proof fn law_faults_ptl_tier(s: Seq<bool>, p: nat)
    ensures
        #[trigger] ptl_tier_at(s, p) is Ok,
{
    reveal(ptl_tier_at);
}

/// What the writer accepts reads back: general_tier_flag, where each field fits
/// its width and what is not coded has the value that is taken for it.
pub proof fn law_reads_ptl_tier(a: Seq<bool>, x: u8, s: Seq<bool>)
    requires
        ptl_tier_can(x),
        fits(x as nat, 1),
        pre(put_ptl_tier(a, x), s),
    ensures
        ptl_tier_at(s, a.len()) == Ok::<(u8, nat), Fault>((x, put_ptl_tier(a, x).len())),
{
    assert(ptl_tier_ok(x)) by {
        broadcast use crate::bits::law_fits_small;

        reveal(ptl_tier_ok);
        reveal(ptl_tier_can);
    }
    law_pre_put_ptl_tier(a, x, s);
}

/// The mathematical model of a [`VvcProfileTierLevel`].
pub struct VvcProfileTierLevelModel {
    pub general_profile_idc: Option<u8>,
    pub general_tier_flag: Option<u8>,
    pub general_level_idc: u8,
    pub ptl_frame_only_constraint_flag: u8,
    pub ptl_multilayer_enabled_flag: u8,
    pub gci_present_flag: bool,
    pub gci_bits: Seq<u8>,
    pub ptl_sublayer_level_present_flag: Seq<u8>,
    pub sublayer_level_idc: Seq<u8>,
    pub general_sub_profile_idc: Seq<u32>,
}

impl View for VvcProfileTierLevel {
    type V = VvcProfileTierLevelModel;

    open spec fn view(&self) -> VvcProfileTierLevelModel {
        VvcProfileTierLevelModel {
            general_profile_idc: self.general_profile_idc,
            general_tier_flag: self.general_tier_flag,
            general_level_idc: self.general_level_idc,
            ptl_frame_only_constraint_flag: self.ptl_frame_only_constraint_flag,
            ptl_multilayer_enabled_flag: self.ptl_multilayer_enabled_flag,
            gci_present_flag: self.gci_present_flag,
            gci_bits: self.gci_bits@,
            ptl_sublayer_level_present_flag: self.ptl_sublayer_level_present_flag@,
            sublayer_level_idc: self.sublayer_level_idc@,
            general_sub_profile_idc: self.general_sub_profile_idc@,
        }
    }
}

/// profile_tier_level() at position `p`.
#[verifier::opaque]
pub open spec fn ptl_at(
    s: Seq<bool>,
    p: nat,
    pt_present: bool,
    max_tid: u32,
) -> Read<VvcProfileTierLevelModel> {
    match (if pt_present { read_some(ptl_profile_at(s, p)) } else { Ok((None, p)) })
    { Err(f) => Err(f), Ok((general_profile_idc, p)) => {
    match (if pt_present { read_some(ptl_tier_at(s, p)) } else { Ok((None, p)) })
    { Err(f) => Err(f), Ok((general_tier_flag, p)) => {
    let general_level_idc = u8_at(s, p, 8);
    let p = adv(p, 8);
    let ptl_frame_only_constraint_flag = u8_at(s, p, 1);
    let p = adv(p, 1);
    let ptl_multilayer_enabled_flag = u8_at(s, p, 1);
    let p = adv(p, 1);
    let gci_present_flag = flag_if(s, p, pt_present, false);
    let p = adv_if(p, 1, pt_present);
    match gci_at(s, p, gci_present_flag) { Err(f) => Err(f), Ok((gci_bits, p)) => {
    match align_if(s, p, pt_present) { Err(f) => Err(f), Ok(p) => {
    match bitlist_at(s, p, (max_tid as u64) as nat)
    { Err(f) => Err(f), Ok((ptl_sublayer_level_present_flag, p)) => {
    match align_at(s, p) { Err(f) => Err(f), Ok(p) => {
    let levels = count_set(ptl_sublayer_level_present_flag) as u64;
    match u8s_at(s, p, 8, levels as nat) { Err(f) => Err(f), Ok((sublayer_level_idc, p)) => {
    let ptl_num_sub_profiles = u8_if(s, p, 8, pt_present, 0);
    let p = adv_if(p, 8, pt_present);
    match us_at(s, p, 32, (ptl_num_sub_profiles as u64) as nat)
    { Err(f) => Err(f), Ok((general_sub_profile_idc, p)) => {
    Ok((
        VvcProfileTierLevelModel {
            general_profile_idc,
            general_tier_flag,
            general_level_idc,
            ptl_frame_only_constraint_flag,
            ptl_multilayer_enabled_flag,
            gci_present_flag,
            gci_bits,
            ptl_sublayer_level_present_flag,
            sublayer_level_idc,
            general_sub_profile_idc,
        },
        p,
    ))
    }}}}}}}}}}}}}}}}
}

/// The bits `a` followed by profile_tier_level().
#[verifier::opaque]
pub open spec fn put_ptl(
    a: Seq<bool>,
    x: VvcProfileTierLevelModel,
    pt_present: bool,
    max_tid: u32,
) -> Seq<bool> {
    let a = match x.general_profile_idc { Some(y) => put_ptl_profile(a, y), None => a };
    let a = match x.general_tier_flag { Some(y) => put_ptl_tier(a, y), None => a };
    let a = put_u(a, x.general_level_idc as nat, 8);
    let a = put_bit(a, x.ptl_frame_only_constraint_flag as nat);
    let a = put_bit(a, x.ptl_multilayer_enabled_flag as nat);
    let a = put_flag_if(a, x.gci_present_flag, pt_present);
    let a = put_gci(a, x.gci_bits, x.gci_present_flag);
    let a = put_align_if(a, pt_present);
    let a = put_bitlist(a, x.ptl_sublayer_level_present_flag);
    let a = put_align(a);
    let a = put_u8s(a, x.sublayer_level_idc, 8);
    let ptl_num_sub_profiles = x.general_sub_profile_idc.len() as u8;
    let a = put_u_if(a, ptl_num_sub_profiles as nat, 8, pt_present);
    let a = put_us(a, x.general_sub_profile_idc, 32);
    a
}

/// The values of profile_tier_level() that reading can give.
#[verifier::opaque]
pub open spec fn ptl_ok(x: VvcProfileTierLevelModel, pt_present: bool, max_tid: u32) -> bool {
    &&& x.general_profile_idc is Some <==> pt_present
    &&& x.general_profile_idc matches Some(y) ==> ptl_profile_ok(y)
    &&& x.general_tier_flag is Some <==> pt_present
    &&& x.general_tier_flag matches Some(y) ==> ptl_tier_ok(y)
    &&& fits(x.general_level_idc as nat, 8)
    &&& fits(x.ptl_frame_only_constraint_flag as nat, 1)
    &&& fits(x.ptl_multilayer_enabled_flag as nat, 1)
    &&& pt_present || !x.gci_present_flag
    &&& gci_ok(x.gci_bits, x.gci_present_flag)
    &&& x.ptl_sublayer_level_present_flag.len() == max_tid as u64
    &&& bitlist_ok(x.ptl_sublayer_level_present_flag)
    &&& {
        let levels = count_set(x.ptl_sublayer_level_present_flag) as u64;
        &&& x.sublayer_level_idc.len() == levels
        &&& u8s_ok(x.sublayer_level_idc, 8)
        &&& x.general_sub_profile_idc.len() <= (if pt_present { 255 } else { 0usize })
        &&& {
            let ptl_num_sub_profiles = x.general_sub_profile_idc.len() as u8;
            &&& if pt_present { fits(ptl_num_sub_profiles as nat, 8) } else { ptl_num_sub_profiles == 0 }
            &&& x.general_sub_profile_idc.len() == ptl_num_sub_profiles as u64
            &&& us_ok(x.general_sub_profile_idc, 32)
        }
    }
}

/// The values of profile_tier_level() that the writer accepts.
#[verifier::opaque]
pub open spec fn ptl_can(x: VvcProfileTierLevelModel, pt_present: bool, max_tid: u32) -> bool {
    &&& x.general_profile_idc is Some <==> pt_present
    &&& x.general_profile_idc matches Some(y) ==> ptl_profile_can(y)
    &&& x.general_tier_flag is Some <==> pt_present
    &&& x.general_tier_flag matches Some(y) ==> ptl_tier_can(y)
    &&& pt_present || !x.gci_present_flag
    &&& gci_can(x.gci_bits, x.gci_present_flag)
    &&& x.ptl_sublayer_level_present_flag.len() == max_tid as usize
    &&& {
        let levels = count_set(x.ptl_sublayer_level_present_flag) as u64;
        &&& x.sublayer_level_idc.len() as u64 == levels
        &&& x.general_sub_profile_idc.len() <= (if pt_present { 255 } else { 0usize })
    }
}

/// Parse a `profile_tier_level(pt_present, max_tid)` structure (7.3.3.1)
/// at the reader's position.
pub fn parse_profile_tier_level(
    r: &mut BitReader<'_>,
    pt_present: bool,
    max_tid: u32,
) -> (res: Result<VvcProfileTierLevel, BitstreamError>)
    ensures
        read_view_is(ptl_at(old(r).bits(), old(r).pos(), pt_present, max_tid), res, *old(r), *final(r)),
{
    proof {
        reveal(ptl_at);
    }
    let general_profile_idc = if pt_present { Some(parse_ptl_profile(r)?) } else { None };
    let general_tier_flag = if pt_present { Some(parse_ptl_tier(r)?) } else { None };
    let general_level_idc: u8 = r.u8(8);
    let ptl_frame_only_constraint_flag: u8 = r.bit();
    let ptl_multilayer_enabled_flag: u8 = r.bit();
    let gci_present_flag: bool = r.flag_if(pt_present, false);
    let gci_bits = parse_gci(r, gci_present_flag)?;
    r.read_align_if(pt_present, "gci_alignment_zero_bit")?;
    let ptl_sublayer_level_present_flag = r.read_bitlist(max_tid as u64);
    r.read_align("ptl_reserved_zero_bit")?;
    let levels: u64 = count_set_bits(ptl_sublayer_level_present_flag.as_slice());
    let sublayer_level_idc = r.read_u8s(levels, 8);
    let ptl_num_sub_profiles: u8 = r.u8_if(8, pt_present, 0);
    let general_sub_profile_idc = r.read_us(ptl_num_sub_profiles as u64, 32);
    Ok(
        VvcProfileTierLevel {
            general_profile_idc,
            general_tier_flag,
            general_level_idc,
            ptl_frame_only_constraint_flag,
            ptl_multilayer_enabled_flag,
            gci_present_flag,
            gci_bits,
            ptl_sublayer_level_present_flag,
            sublayer_level_idc,
            general_sub_profile_idc,
        },
    )
}

/// Emit a `profile_tier_level()` structure, the byte-exact inverse of
/// [`parse_profile_tier_level`] on the same context.
pub fn write_profile_tier_level(
    w: &mut BitWriter,
    x: &VvcProfileTierLevel,
    pt_present: bool,
    max_tid: u32,
) -> (res: Result<(), BitstreamError>)
    ensures
        write_is(ptl_can(x@, pt_present, max_tid), put_ptl(old(w)@, x@, pt_present, max_tid), res, final(w)@),
{
    proof {
        reveal(put_ptl);
        reveal(ptl_can);
    }
    if x.general_profile_idc.is_some() != pt_present {
        return Err(BitstreamError::invalid("general_profile_idc is present without being coded, or missing"));
    }
    if let Some(y) = &x.general_profile_idc {
        write_ptl_profile(w, y)?;
    }
    if x.general_tier_flag.is_some() != pt_present {
        return Err(BitstreamError::invalid("general_tier_flag is present without being coded, or missing"));
    }
    if let Some(y) = &x.general_tier_flag {
        write_ptl_tier(w, y)?;
    }
    w.write_bits(x.general_level_idc as u32, 8);
    w.write_bit(x.ptl_frame_only_constraint_flag as u32);
    w.write_bit(x.ptl_multilayer_enabled_flag as u32);
    w.write_flag_if(x.gci_present_flag, pt_present);
    if !(pt_present || !x.gci_present_flag) {
        return Err(BitstreamError::invalid("general_constraints_info() is coded only with the profile"));
    }
    write_gci(w, &x.gci_bits, x.gci_present_flag)?;
    w.write_align_if(pt_present);
    if !(x.ptl_sublayer_level_present_flag.len() == max_tid as usize) {
        return Err(
            BitstreamError::invalid("ptl_sublayer_level_present_flag needs one entry per lower sublayer"),
        );
    }
    w.write_bitlist(x.ptl_sublayer_level_present_flag.as_slice());
    w.align_to_byte();
    let levels: u64 = count_set_bits(x.ptl_sublayer_level_present_flag.as_slice());
    if !(x.sublayer_level_idc.len() as u64 == levels) {
        return Err(BitstreamError::invalid("sublayer_level_idc needs one entry per set presence flag"));
    }
    w.write_u8s(x.sublayer_level_idc.as_slice(), 8);
    if !(x.general_sub_profile_idc.len() <= (if pt_present { 255 } else { 0usize })) {
        return Err(BitstreamError::invalid("general_sub_profile_idc has too many entries"));
    }
    let ptl_num_sub_profiles: u8 = x.general_sub_profile_idc.len() as u8;
    w.write_bits_if(ptl_num_sub_profiles as u32, 8, pt_present);
    w.write_us(x.general_sub_profile_idc.as_slice(), 32);
    Ok(())
}

/// Writing profile_tier_level() gives back the bits it was read from.
pub broadcast proof fn law_put_ptl_at(s: Seq<bool>, p: nat, pt_present: bool, max_tid: u32)
    ensures
        #[trigger] ptl_at(s, p, pt_present, max_tid) matches Ok((x, q)) ==> {
            &&& ptl_ok(x, pt_present, max_tid)
            &&& ptl_can(x, pt_present, max_tid)
            &&& within(s, q) ==> within(s, p) && put_ptl(upto(s, p), x, pt_present, max_tid) == upto(s, q)
        },
{
    broadcast use {
        crate::bits::group_write_read,
        crate::bits::group_write_read_lists,
        law_put_ptl_profile_at,
        law_put_ptl_tier_at,
        law_put_gci_at,
    };

    reveal(ptl_at);
    reveal(put_ptl);
    reveal(ptl_ok);
    reveal(ptl_can);
}

/// Reading gives back profile_tier_level() as it was written.
pub broadcast proof fn law_pre_put_ptl(
    a: Seq<bool>,
    x: VvcProfileTierLevelModel,
    pt_present: bool,
    max_tid: u32,
    s: Seq<bool>,
)
    requires
        #[trigger] pre(put_ptl(a, x, pt_present, max_tid), s),
        ptl_ok(x, pt_present, max_tid),
    ensures
        pre(a, s),
        ptl_can(x, pt_present, max_tid),
        ptl_at(s, a.len(), pt_present, max_tid) == Ok::<(VvcProfileTierLevelModel, nat), Fault>(
            (x, put_ptl(a, x, pt_present, max_tid).len()),
        ),
{
    broadcast use {
        crate::bits::group_read_written,
        crate::bits::group_read_written_lists,
        law_pre_put_ptl_profile,
        law_pre_put_ptl_tier,
        law_pre_put_gci,
    };

    reveal(ptl_at);
    reveal(put_ptl);
    reveal(ptl_ok);
    reveal(ptl_can);
}

/// The layout of profile_tier_level(): reading at `p` gives `x` and ends at `q`
/// if and only if these elements stand there in this order.
pub proof fn law_layout_ptl(
    s: Seq<bool>,
    p: nat,
    pt_present: bool,
    max_tid: u32,
    x: VvcProfileTierLevelModel,
    q: nat,
)
    ensures
        ptl_at(s, p, pt_present, max_tid) == Ok::<(VvcProfileTierLevelModel, nat), Fault>((x, q)) <==> ({
            let levels = count_set(x.ptl_sublayer_level_present_flag) as u64;
            let c = cursor(s, p)
                .part_if(pt_present, |p: nat| ptl_profile_at(s, p), x.general_profile_idc)
                .part_if(pt_present, |p: nat| ptl_tier_at(s, p), x.general_tier_flag)
                .u8(8, x.general_level_idc)
                .u8(1, x.ptl_frame_only_constraint_flag)
                .u8(1, x.ptl_multilayer_enabled_flag)
                .flag_if(pt_present, x.gci_present_flag, false)
                .part(|p: nat| gci_at(s, p, x.gci_present_flag), x.gci_bits)
                .align_if(pt_present)
                .part(|p: nat| bitlist_at(s, p, (max_tid as u64) as nat), x.ptl_sublayer_level_present_flag)
                .align()
                .part(|p: nat| u8s_at(s, p, 8, levels as nat), x.sublayer_level_idc);
            let ptl_num_sub_profiles = if pt_present { c.next_u8(8) } else { 0 };
            &&& c
                .u8_if(pt_present, 8, ptl_num_sub_profiles, 0)
                .part(
                    |p: nat| us_at(s, p, 32, (ptl_num_sub_profiles as u64) as nat),
                    x.general_sub_profile_idc,
                )
                .ends(q)
        }),
{
    reveal(ptl_at);
    reveal(adv_if);
    reveal(align_if);
    reveal(flag_if);
    reveal(u8_if);
}

/// Reading profile_tier_level() fails only with an error of this class.
pub broadcast proof fn law_faults_ptl(s: Seq<bool>, p: nat, pt_present: bool, max_tid: u32)
    ensures
        #[trigger] ptl_at(s, p, pt_present, max_tid) matches Err(f) ==> f == Fault::Invalid,
{
    broadcast use {
        law_faults_ptl_profile,
        law_faults_ptl_tier,
        law_faults_gci,
        crate::bits::law_faults_bitlist,
        crate::bits::law_faults_u8s,
        crate::bits::law_faults_us,
    };

    reveal(ptl_at);
    reveal(align_at);
    reveal(align_if);
}

/// What the writer accepts reads back: profile_tier_level(), where each field
/// fits its width and what is not coded has the value that is taken for it.
pub proof fn law_reads_ptl(
    a: Seq<bool>,
    x: VvcProfileTierLevelModel,
    pt_present: bool,
    max_tid: u32,
    s: Seq<bool>,
)
    requires
        ptl_can(x, pt_present, max_tid),
        x.general_profile_idc matches Some(y) ==> ptl_profile_ok(y),
        x.general_tier_flag matches Some(y) ==> ptl_tier_ok(y),
        fits(x.general_level_idc as nat, 8),
        fits(x.ptl_frame_only_constraint_flag as nat, 1),
        fits(x.ptl_multilayer_enabled_flag as nat, 1),
        !pt_present ==> x.gci_present_flag == false,
        gci_ok(x.gci_bits, x.gci_present_flag),
        bitlist_ok(x.ptl_sublayer_level_present_flag),
        u8s_ok(x.sublayer_level_idc, 8),
        us_ok(x.general_sub_profile_idc, 32),
        x.sublayer_level_idc.len() <= usize::MAX,
        pre(put_ptl(a, x, pt_present, max_tid), s),
    ensures
        ptl_at(s, a.len(), pt_present, max_tid) == Ok::<(VvcProfileTierLevelModel, nat), Fault>(
            (x, put_ptl(a, x, pt_present, max_tid).len()),
        ),
{
    assert(ptl_ok(x, pt_present, max_tid)) by {
        broadcast use crate::bits::law_fits_small;

        reveal(ptl_ok);
        reveal(ptl_can);
    }
    law_pre_put_ptl(a, x, pt_present, max_tid, s);
}

/// Each field of the model of a [`VvcProfileTierLevel`] is the field of that name.
pub proof fn law_view_ptl(x: VvcProfileTierLevel)
    ensures
        x@.general_profile_idc == x.general_profile_idc,
        x@.general_tier_flag == x.general_tier_flag,
        x@.general_level_idc == x.general_level_idc,
        x@.ptl_frame_only_constraint_flag == x.ptl_frame_only_constraint_flag,
        x@.ptl_multilayer_enabled_flag == x.ptl_multilayer_enabled_flag,
        x@.gci_present_flag == x.gci_present_flag,
        x@.gci_bits == x.gci_bits@,
        x@.ptl_sublayer_level_present_flag == x.ptl_sublayer_level_present_flag@,
        x@.sublayer_level_idc == x.sublayer_level_idc@,
        x@.general_sub_profile_idc == x.general_sub_profile_idc@,
{
}

/// The NAL unit header is a zero bit, a reserved bit and six bits of layer id in the
/// first byte, and five bits of type and three of temporal id in the second.
pub proof fn law_nal_header(b: Seq<u8>, h: VvcNalHeader)
    ensures
        nal_header_of(b) == Ok::<VvcNalHeader, Fault>(h) <==> ({
            &&& b.len() >= 2
            &&& b[0] == 64 * h.nuh_reserved_zero_bit + h.nuh_layer_id
            &&& h.nuh_reserved_zero_bit < 2 && h.nuh_layer_id < 64
            &&& b[1] == 8 * h.nal_unit_type + h.nuh_temporal_id_plus1
            &&& h.nal_unit_type < 32 && h.nuh_temporal_id_plus1 < 8
        }),
        nal_header_of(b) == Err::<VvcNalHeader, Fault>(Fault::End) <==> b.len() < 2,
        nal_header_of(b) == Err::<VvcNalHeader, Fault>(Fault::Invalid) <==> b.len() >= 2 && b[0] >= 128,
{
}

/// The RBSP of a NAL unit is what stands behind its two header bytes, without the
/// emulation-prevention bytes, if the NAL unit is of the wanted type.
pub proof fn law_rbsp_of_nal(b: Seq<u8>, want: u8, r: Seq<u8>)
    ensures
        rbsp_of_nal(b, want) == Ok::<Seq<u8>, Fault>(r) <==> ({
            &&& b.len() >= 2
            &&& b[0] < 128
            &&& 8 * want <= b[1] < 8 * want + 8
            &&& r == unescape(b.skip(2))
        }),
        rbsp_of_nal(b, want) == Err::<Seq<u8>, Fault>(Fault::End) <==> b.len() < 2,
{
}

/// A NAL unit is written in layer 0 with the lowest temporal id.
pub proof fn law_written_header(t: u8, rbsp: Seq<u8>)
    requires
        t < 32,
    ensures
        nal_header_of(nal_of_rbsp(t, rbsp)) == Ok::<VvcNalHeader, Fault>(
            VvcNalHeader {
                nuh_reserved_zero_bit: 0,
                nuh_layer_id: 0,
                nal_unit_type: t,
                nuh_temporal_id_plus1: 1,
            },
        ),
        nal_of_rbsp(t, rbsp).skip(2) == escape(rbsp, 0),
{
    assert(nal_of_rbsp(t, rbsp).skip(2) =~= escape(rbsp, 0));
}

/// The flags that are set are counted.
pub proof fn law_count_set(v: Seq<u8>)
    ensures
        count_set(v) == v.filter(|b: u8| b != 0).len(),
    decreases v.len(),
{
    reveal(Seq::filter);
    if v.len() > 0 {
        law_count_set(v.drop_last());
    }
}

/// general_constraints_info() behind its flag is 71 bits, a number in eight bits, and
/// as many bits more.
pub proof fn law_layout_gci(s: Seq<bool>, p: nat, present: bool, x: Seq<u8>, q: nat)
    ensures
        gci_at(s, p, present) == Ok::<(Seq<u8>, nat), Fault>((x, q)) <==> if present {
            let n = x.len() - 71;
            &&& 0 <= n <= 255
            &&& cursor(s, p)
                .part(|p: nat| bitlist_at(s, p, 71), x.take(71))
                .u8(8, n as u8)
                .part(|p: nat| bitlist_at(s, p, n as nat), x.skip(71))
                .ends(q)
        } else {
            x.len() == 0 && q == p
        },
{
    reveal(gci_at);
    if present {
        broadcast use crate::bits::group_write_read_lists;

        if x.len() >= 71 {
            assert(x =~= x.take(71) + x.skip(71));
        }
        if let Ok((flags, r)) = bitlist_at(s, p, 71) {
            let n = u8_at(s, r, 8);
            if let Ok((extra, z)) = bitlist_at(s, adv(r, 8), n as nat) {
                assert((flags + extra).take(71) =~= flags);
                assert((flags + extra).skip(71) =~= extra);
            }
        }
    } else if x.len() == 0 {
        assert(x =~= Seq::empty());
    }
}

/// What the writer accepts of general_constraints_info() reads back.
pub proof fn law_reads_gci(a: Seq<bool>, x: Seq<u8>, present: bool, s: Seq<bool>)
    requires
        gci_can(x, present),
        bitlist_ok(x),
        pre(put_gci(a, x, present), s),
    ensures
        gci_at(s, a.len(), present) == Ok::<(Seq<u8>, nat), Fault>((x, put_gci(a, x, present).len())),
{
    assert(gci_ok(x, present)) by {
        reveal(gci_ok);
        reveal(gci_can);
    }
    law_pre_put_gci(a, x, present, s);
}

/// Reading general_constraints_info() never fails.
pub broadcast proof fn law_faults_gci(s: Seq<bool>, p: nat, present: bool)
    ensures
        #[trigger] gci_at(s, p, present) is Ok,
{
    broadcast use crate::bits::law_faults_bitlist;

    reveal(gci_at);
}

} // verus!
