//! HEVC SEI (supplemental enhancement information) payloads.
//!
//! The `sei_rbsp()` / `sei_message()` framing is that of [`crate::sei`];
//! here are typed decoders **and encoders** for the payload families a
//! playback / HDR pipeline consumes:
//!
//! * `buffering_period()` (§D.2.2, payload type 0, HRD-coupled:
//!   decode/encode against a [`SeiHrdContext`]).
//! * `pic_timing()` (§D.2.3, payload type 1, ditto, including the
//!   sub-picture decoding-unit block).
//! * `user_data_registered_itu_t_t35()` (§D.2.6).
//! * `user_data_unregistered()` (§D.2.7).
//! * `recovery_point()` (§D.2.8).
//! * `mastering_display_colour_volume()` (§D.2.28, payload type 137).
//! * `content_light_level_info()` (§D.2.35, payload type 144).
//!
//! The context-free families round-trip through
//! [`decode_sei_message`] / [`encode_sei_message`]; everything else is
//! surfaced raw as [`HevcSei::Unknown`].
//!
//! SEI NALs come in two flavours: prefix (type 39, before the slices
//! of the access unit) and suffix (type 40, after). Both carry the
//! same `sei_rbsp()`; [`parse_sei_nal`] accepts either.
use crate::bit_reader::{BitReader, read_is, read_vec_is, read_view_is};
use crate::bit_writer::{BitWriter, fits_bits, write_is};
use crate::bits::{
    Read, adv, adv_if, bits_left, bits_of, fits, flag_at, flag_if, group_read_written,
    group_write_read, law_faults_se, law_faults_ue, law_fits_small, law_put_rep_at,
    law_rep_at_put, lemma_bits_of_injective, lemma_bits_of_len, lemma_pad_aligned,
    lemma_put_rep_grows, lemma_put_u_shape, lemma_put_ue_grows, lemma_rep_err, lemma_rep_faults,
    lemma_rep_faults_none, lemma_rep_step, lemma_trailing_aligned, lemma_trailing_shape, pre,
    put_flag, put_flag_if, put_rep, put_se, put_trailing, put_u, put_u_if, put_ue, read_some,
    rep_at, se_at, se_fits, seq_view, u16_at, u32_at, u32_if, u8_at, ue_at, ue_fits, upto,
    within,
};
use crate::layout::cursor;
use crate::hevc::{HevcHrdParameters, HevcHrdParametersModel, nal_header, nal_type_of};
use crate::nal::{ebsp_to_rbsp, escape, law_unescape_escape, unescape};
use crate::sei::{
    SeiMessageModel, copy_bytes, finish_payload, law_parse_written_sei, payload_write_is,
    put_payload_end, sei_messages_bytes, sei_messages_of, sei_rbsp,
};
pub use crate::sei::{parse_sei_rbsp, write_sei_message, SeiMessage};
use crate::message::Message;
use crate::{BitstreamError, Fault};
use vstd::prelude::*;
use vstd::slice::slice_subrange;

verus! {

/// 7.4.2.2 — PREFIX_SEI_NUT.
pub const NAL_TYPE_PREFIX_SEI: u8 = 39;

/// 7.4.2.2 — SUFFIX_SEI_NUT.
pub const NAL_TYPE_SUFFIX_SEI: u8 = 40;

/// §D.2.1 payloadType values for the decoded families.
pub const SEI_TYPE_BUFFERING_PERIOD: u32 = 0;

pub const SEI_TYPE_PIC_TIMING: u32 = 1;

pub const SEI_TYPE_USER_DATA_REGISTERED_ITU_T_T35: u32 = 4;

pub const SEI_TYPE_USER_DATA_UNREGISTERED: u32 = 5;

pub const SEI_TYPE_RECOVERY_POINT: u32 = 6;

pub const SEI_TYPE_MASTERING_DISPLAY_COLOUR_VOLUME: u32 = 137;

pub const SEI_TYPE_CONTENT_LIGHT_LEVEL_INFO: u32 = 144;

/// The messages that the SEI NAL unit `b` holds, of either SEI type.
pub open spec fn hevc_sei_of_nal(b: Seq<u8>) -> Result<Seq<SeiMessageModel>, Fault> {
    if b.len() < 2 {
        Err(Fault::End)
    } else if nal_type_of(b[0]) != NAL_TYPE_PREFIX_SEI && nal_type_of(b[0]) != NAL_TYPE_SUFFIX_SEI {
        Err(Fault::Invalid)
    } else {
        sei_messages_of(unescape(b.skip(2)))
    }
}

/// Parse a prefix- or suffix-SEI NAL (two-byte NAL header at index
/// 0..1) into raw messages.
pub fn parse_sei_nal(nal: &[u8]) -> (res: Result<Vec<SeiMessage>, BitstreamError>)
    ensures
        match hevc_sei_of_nal(nal@) {
            Ok(ms) => res matches Ok(v) && seq_view(v@) == ms,
            Err(f) => res matches Err(e) && e.fault() == f,
        },
{
    if nal.len() < 2 {
        return Err(BitstreamError::unexpected_end("SEI NAL shorter than 2 bytes"));
    }
    let (_, nal_type, _, _) = nal_header(nal[0], nal[1]);
    if nal_type != NAL_TYPE_PREFIX_SEI && nal_type != NAL_TYPE_SUFFIX_SEI {
        return Err(Message::new("expected SEI NAL (type=39/40), got type=").num(nal_type as i128).invalid());
    }
    proof {
        assert(nal@.subrange(2, nal@.len() as int) =~= nal@.skip(2));
    }
    let rbsp = ebsp_to_rbsp(slice_subrange(nal, 2, nal.len()));
    parse_sei_rbsp(rbsp.as_slice())
}

/// Emit a full SEI RBSP (with `rbsp_trailing_bits()`), the
/// byte-exact inverse of [`parse_sei_rbsp`].
pub fn write_sei_rbsp(messages: &[SeiMessage]) -> (res: Result<Vec<u8>, BitstreamError>)
    ensures
        match res {
            Ok(v) => messages@.len() > 0 && v@ == sei_messages_bytes(seq_view(messages@)) + seq![0x80u8],
            Err(e) => messages@.len() == 0 && e.fault() == Fault::Invalid,
        },
{
    sei_rbsp(messages, "§7.3.5")
}

/// Messages that were framed and escaped behind the header of an SEI NAL unit come
/// back from it.
pub proof fn law_parse_written_hevc_sei_nal(ms: Seq<SeiMessageModel>, b0: u8, b1: u8)
    requires
        ms.len() > 0,
        nal_type_of(b0) == NAL_TYPE_PREFIX_SEI || nal_type_of(b0) == NAL_TYPE_SUFFIX_SEI,
    ensures
        hevc_sei_of_nal(seq![b0, b1] + escape(sei_messages_bytes(ms) + seq![0x80u8], 0)) == Ok::<
            Seq<SeiMessageModel>,
            Fault,
        >(ms),
{
    let rbsp = sei_messages_bytes(ms) + seq![0x80u8];
    let b = seq![b0, b1] + escape(rbsp, 0);
    assert(b.skip(2) =~= escape(rbsp, 0));
    law_unescape_escape(rbsp);
    law_parse_written_sei(ms);
}

// ─────────────────────────── Typed payloads ─────────────────────────────────

/// `mastering_display_colour_volume()` — §D.2.28 / §D.3.28.
/// Chromaticities are in 0.00002 units; luminances in 0.0001 cd/m².
#[derive(Debug, Clone, Copy, Default, PartialEq, Eq)]
pub struct SeiMasteringDisplayColourVolume {
    /// `(display_primaries_x[c], display_primaries_y[c])` for c = 0..3
    /// (G/B/R order per §D.3.28).
    pub display_primaries: [(u16, u16); 3],
    pub white_point: (u16, u16),
    pub max_display_mastering_luminance: u32,
    pub min_display_mastering_luminance: u32,
}

/// `content_light_level_info()` — §D.2.35 / §D.3.35, in cd/m².
#[derive(Debug, Clone, Copy, Default, PartialEq, Eq)]
pub struct SeiContentLightLevel {
    pub max_content_light_level: u16,
    pub max_pic_average_light_level: u16,
}

/// `recovery_point()` — §D.2.8. Unlike H.264, `recovery_poc_cnt` is
/// signed (`se(v)`).
#[derive(Debug, Clone, Copy, Default, PartialEq, Eq)]
pub struct SeiRecoveryPoint {
    pub recovery_poc_cnt: i32,
    pub exact_match_flag: bool,
    pub broken_link_flag: bool,
}

/// `user_data_registered_itu_t_t35()` — §D.2.6.
#[derive(Debug, Clone, Default, PartialEq, Eq)]
pub struct SeiUserDataRegisteredItuTT35 {
    pub country_code: u8,
    pub country_code_extension: Option<u8>,
    pub payload: Vec<u8>,
}

/// `user_data_unregistered()` — §D.2.7.
#[derive(Debug, Clone, Default, PartialEq, Eq)]
pub struct SeiUserDataUnregistered {
    pub uuid: [u8; 16],
    pub payload: Vec<u8>,
}

/// A decoded HEVC SEI payload.
#[derive(Debug, Clone, PartialEq, Eq)]
pub enum HevcSei {
    UserDataRegisteredItuTT35(SeiUserDataRegisteredItuTT35),
    UserDataUnregistered(SeiUserDataUnregistered),
    RecoveryPoint(SeiRecoveryPoint),
    MasteringDisplayColourVolume(SeiMasteringDisplayColourVolume),
    ContentLightLevel(SeiContentLightLevel),
    /// Any payload type this crate does not decode (§D.3.1 requires
    /// decoders to skip unrecognised SEI payloads).
    Unknown {
        payload_type: u32,
        payload: Vec<u8>,
    },
}

/// `recovery_point()` (§D.2.8) at position `p`.
#[verifier::opaque]
pub open spec fn recovery_at(s: Seq<bool>, p: nat) -> Read<SeiRecoveryPoint> {
    match se_at(s, p) { Err(f) => Err(f), Ok((recovery_poc_cnt, p)) => {
    let exact_match_flag = flag_at(s, p);
    let p = adv(p, 1);
    let broken_link_flag = flag_at(s, p);
    let p = adv(p, 1);
    Ok((SeiRecoveryPoint { recovery_poc_cnt, exact_match_flag, broken_link_flag }, p))
    }}
}

/// The bits `a` followed by `recovery_point()` (§D.2.8).
#[verifier::opaque]
pub open spec fn put_recovery(a: Seq<bool>, x: SeiRecoveryPoint) -> Seq<bool> {
    let a = put_se(a, x.recovery_poc_cnt as int);
    let a = put_flag(a, x.exact_match_flag);
    let a = put_flag(a, x.broken_link_flag);
    a
}

/// The values of `recovery_point()` (§D.2.8) that reading can give.
#[verifier::opaque]
pub open spec fn recovery_ok(x: SeiRecoveryPoint) -> bool {
    &&& se_fits(x.recovery_poc_cnt as int)
}

/// The values of `recovery_point()` (§D.2.8) that the writer accepts.
#[verifier::opaque]
pub open spec fn recovery_can(x: SeiRecoveryPoint) -> bool {
    &&& se_fits(x.recovery_poc_cnt as int)
}

/// Parses `recovery_point()` (§D.2.8).
fn parse_recovery(r: &mut BitReader<'_>) -> (res: Result<SeiRecoveryPoint, BitstreamError>)
    ensures
        read_is(recovery_at(old(r).bits(), old(r).pos()), res, *old(r), *final(r)),
{
    proof {
        reveal(recovery_at);
    }
    let recovery_poc_cnt: i32 = r.se()?;
    let exact_match_flag: bool = r.flag();
    let broken_link_flag: bool = r.flag();
    Ok(SeiRecoveryPoint { recovery_poc_cnt, exact_match_flag, broken_link_flag })
}

/// Emits `recovery_point()` (§D.2.8), the inverse of [`parse_recovery`].
fn write_recovery(w: &mut BitWriter, x: &SeiRecoveryPoint) -> (res: Result<(), BitstreamError>)
    ensures
        write_is(recovery_can(*x), put_recovery(old(w)@, *x), res, final(w)@),
{
    proof {
        reveal(put_recovery);
        reveal(recovery_can);
    }
    w.write_se(x.recovery_poc_cnt)?;
    w.write_flag(x.exact_match_flag);
    w.write_flag(x.broken_link_flag);
    Ok(())
}

/// Writing `recovery_point()` (§D.2.8) gives back the bits it was read from.
pub broadcast proof fn law_put_recovery_at(s: Seq<bool>, p: nat)
    ensures
        #[trigger] recovery_at(s, p) matches Ok((x, q)) ==> {
            &&& recovery_ok(x)
            &&& recovery_can(x)
            &&& within(s, q) ==> within(s, p) && put_recovery(upto(s, p), x) == upto(s, q)
        },
{
    broadcast use crate::bits::group_write_read;

    reveal(recovery_at);
    reveal(put_recovery);
    reveal(recovery_ok);
    reveal(recovery_can);
}

/// Reading gives back `recovery_point()` (§D.2.8) as it was written.
pub broadcast proof fn law_pre_put_recovery(a: Seq<bool>, x: SeiRecoveryPoint, s: Seq<bool>)
    requires
        #[trigger] pre(put_recovery(a, x), s),
        recovery_ok(x),
    ensures
        pre(a, s),
        recovery_can(x),
        recovery_at(s, a.len()) == Ok::<(SeiRecoveryPoint, nat), Fault>((x, put_recovery(a, x).len())),
{
    broadcast use crate::bits::group_read_written;

    reveal(recovery_at);
    reveal(put_recovery);
    reveal(recovery_ok);
    reveal(recovery_can);
}

/// The layout of `recovery_point()` (§D.2.8): reading at `p` gives `x` and ends
/// at `q` if and only if these elements stand there in this order.
pub proof fn law_layout_recovery(s: Seq<bool>, p: nat, x: SeiRecoveryPoint, q: nat)
    ensures
        recovery_at(s, p) == Ok::<(SeiRecoveryPoint, nat), Fault>((x, q)) <==> cursor(s, p)
            .se(x.recovery_poc_cnt)
            .flag(x.exact_match_flag)
            .flag(x.broken_link_flag)
            .ends(q),
{
    reveal(recovery_at);
}

/// Reading `recovery_point()` (§D.2.8) fails only with an error of this class.
pub broadcast proof fn law_faults_recovery(s: Seq<bool>, p: nat)
    ensures
        #[trigger] recovery_at(s, p) matches Err(f) ==> f == Fault::Invalid,
{
    broadcast use crate::bits::law_faults_se;

    reveal(recovery_at);
}

/// What the writer accepts reads back: `recovery_point()` (§D.2.8), where each
/// field fits its width and what is not coded has the value that is taken for
/// it.
pub proof fn law_reads_recovery(a: Seq<bool>, x: SeiRecoveryPoint, s: Seq<bool>)
    requires
        recovery_can(x),
        pre(put_recovery(a, x), s),
    ensures
        recovery_at(s, a.len()) == Ok::<(SeiRecoveryPoint, nat), Fault>((x, put_recovery(a, x).len())),
{
    assert(recovery_ok(x)) by {
        broadcast use crate::bits::law_fits_small;

        reveal(recovery_ok);
        reveal(recovery_can);
    }
    law_pre_put_recovery(a, x, s);
}

/// The mathematical model of a [`SeiMasteringDisplayColourVolume`].
pub struct SeiMasteringDisplayColourVolumeModel {
    pub x0: u16,
    pub y0: u16,
    pub x1: u16,
    pub y1: u16,
    pub x2: u16,
    pub y2: u16,
    pub white_x: u16,
    pub white_y: u16,
    pub max_display_mastering_luminance: u32,
    pub min_display_mastering_luminance: u32,
}

impl View for SeiMasteringDisplayColourVolume {
    type V = SeiMasteringDisplayColourVolumeModel;

    open spec fn view(&self) -> SeiMasteringDisplayColourVolumeModel {
        SeiMasteringDisplayColourVolumeModel {
            x0: self.display_primaries@[0].0,
            y0: self.display_primaries@[0].1,
            x1: self.display_primaries@[1].0,
            y1: self.display_primaries@[1].1,
            x2: self.display_primaries@[2].0,
            y2: self.display_primaries@[2].1,
            white_x: self.white_point.0,
            white_y: self.white_point.1,
            max_display_mastering_luminance: self.max_display_mastering_luminance,
            min_display_mastering_luminance: self.min_display_mastering_luminance,
        }
    }
}

/// `mastering_display_colour_volume()` (§D.2.28) at position `p`.
#[verifier::opaque]
pub open spec fn mdcv_at(s: Seq<bool>, p: nat) -> Read<SeiMasteringDisplayColourVolumeModel> {
    let x0 = u16_at(s, p, 16);
    let p = adv(p, 16);
    let y0 = u16_at(s, p, 16);
    let p = adv(p, 16);
    let x1 = u16_at(s, p, 16);
    let p = adv(p, 16);
    let y1 = u16_at(s, p, 16);
    let p = adv(p, 16);
    let x2 = u16_at(s, p, 16);
    let p = adv(p, 16);
    let y2 = u16_at(s, p, 16);
    let p = adv(p, 16);
    let white_x = u16_at(s, p, 16);
    let p = adv(p, 16);
    let white_y = u16_at(s, p, 16);
    let p = adv(p, 16);
    let max_display_mastering_luminance = u32_at(s, p, 32);
    let p = adv(p, 32);
    let min_display_mastering_luminance = u32_at(s, p, 32);
    let p = adv(p, 32);
    Ok(
        (
            SeiMasteringDisplayColourVolumeModel {
                x0,
                y0,
                x1,
                y1,
                x2,
                y2,
                white_x,
                white_y,
                max_display_mastering_luminance,
                min_display_mastering_luminance,
            },
            p,
        ),
    )
}

/// The bits `a` followed by `mastering_display_colour_volume()` (§D.2.28).
#[verifier::opaque]
pub open spec fn put_mdcv(a: Seq<bool>, x: SeiMasteringDisplayColourVolumeModel) -> Seq<bool> {
    let a = put_u(a, x.x0 as nat, 16);
    let a = put_u(a, x.y0 as nat, 16);
    let a = put_u(a, x.x1 as nat, 16);
    let a = put_u(a, x.y1 as nat, 16);
    let a = put_u(a, x.x2 as nat, 16);
    let a = put_u(a, x.y2 as nat, 16);
    let a = put_u(a, x.white_x as nat, 16);
    let a = put_u(a, x.white_y as nat, 16);
    let a = put_u(a, x.max_display_mastering_luminance as nat, 32);
    let a = put_u(a, x.min_display_mastering_luminance as nat, 32);
    a
}

/// The values of `mastering_display_colour_volume()` (§D.2.28) that reading can
/// give.
#[verifier::opaque]
pub open spec fn mdcv_ok(x: SeiMasteringDisplayColourVolumeModel) -> bool {
    &&& fits(x.x0 as nat, 16)
    &&& fits(x.y0 as nat, 16)
    &&& fits(x.x1 as nat, 16)
    &&& fits(x.y1 as nat, 16)
    &&& fits(x.x2 as nat, 16)
    &&& fits(x.y2 as nat, 16)
    &&& fits(x.white_x as nat, 16)
    &&& fits(x.white_y as nat, 16)
    &&& fits(x.max_display_mastering_luminance as nat, 32)
    &&& fits(x.min_display_mastering_luminance as nat, 32)
}

/// The values of `mastering_display_colour_volume()` (§D.2.28) that the writer
/// accepts.
#[verifier::opaque]
pub open spec fn mdcv_can(x: SeiMasteringDisplayColourVolumeModel) -> bool {
    true
}

/// Parses `mastering_display_colour_volume()` (§D.2.28).
fn parse_mdcv(r: &mut BitReader<'_>) -> (res: Result<SeiMasteringDisplayColourVolume, BitstreamError>)
    ensures
        read_view_is(mdcv_at(old(r).bits(), old(r).pos()), res, *old(r), *final(r)),
{
    proof {
        reveal(mdcv_at);
    }
    let x0: u16 = r.u16(16);
    let y0: u16 = r.u16(16);
    let x1: u16 = r.u16(16);
    let y1: u16 = r.u16(16);
    let x2: u16 = r.u16(16);
    let y2: u16 = r.u16(16);
    let white_x: u16 = r.u16(16);
    let white_y: u16 = r.u16(16);
    let max_display_mastering_luminance: u32 = r.u(32);
    let min_display_mastering_luminance: u32 = r.u(32);
    Ok(SeiMasteringDisplayColourVolume {
        display_primaries: [(x0, y0), (x1, y1), (x2, y2)],
        white_point: (white_x, white_y),
        max_display_mastering_luminance,
        min_display_mastering_luminance,
    })
}

/// Emits `mastering_display_colour_volume()` (§D.2.28), the inverse of [`parse_mdcv`].
fn write_mdcv(w: &mut BitWriter, x: &SeiMasteringDisplayColourVolume) -> (res: Result<(), BitstreamError>)
    ensures
        write_is(mdcv_can(x@), put_mdcv(old(w)@, x@), res, final(w)@),
{
    proof {
        reveal(put_mdcv);
        reveal(mdcv_can);
    }
    w.write_bits(x.display_primaries[0].0 as u32, 16);
    w.write_bits(x.display_primaries[0].1 as u32, 16);
    w.write_bits(x.display_primaries[1].0 as u32, 16);
    w.write_bits(x.display_primaries[1].1 as u32, 16);
    w.write_bits(x.display_primaries[2].0 as u32, 16);
    w.write_bits(x.display_primaries[2].1 as u32, 16);
    w.write_bits(x.white_point.0 as u32, 16);
    w.write_bits(x.white_point.1 as u32, 16);
    w.write_bits(x.max_display_mastering_luminance, 32);
    w.write_bits(x.min_display_mastering_luminance, 32);
    Ok(())
}

/// Writing `mastering_display_colour_volume()` (§D.2.28) gives back the bits it
/// was read from.
pub broadcast proof fn law_put_mdcv_at(s: Seq<bool>, p: nat)
    ensures
        #[trigger] mdcv_at(s, p) matches Ok((x, q)) ==> {
            &&& mdcv_ok(x)
            &&& mdcv_can(x)
            &&& within(s, q) ==> within(s, p) && put_mdcv(upto(s, p), x) == upto(s, q)
        },
{
    broadcast use crate::bits::group_write_read;

    reveal(mdcv_at);
    reveal(put_mdcv);
    reveal(mdcv_ok);
    reveal(mdcv_can);
}

/// Reading gives back `mastering_display_colour_volume()` (§D.2.28) as it was
/// written.
pub broadcast proof fn law_pre_put_mdcv(a: Seq<bool>, x: SeiMasteringDisplayColourVolumeModel, s: Seq<bool>)
    requires
        #[trigger] pre(put_mdcv(a, x), s),
        mdcv_ok(x),
    ensures
        pre(a, s),
        mdcv_can(x),
        mdcv_at(s, a.len()) == Ok::<(
            SeiMasteringDisplayColourVolumeModel,
            nat,
        ), Fault>((x, put_mdcv(a, x).len())),
{
    broadcast use crate::bits::group_read_written;

    reveal(mdcv_at);
    reveal(put_mdcv);
    reveal(mdcv_ok);
    reveal(mdcv_can);
}

/// The layout of `mastering_display_colour_volume()` (§D.2.28): reading at `p`
/// gives `x` and ends at `q` if and only if these elements stand there in this
/// order.
pub proof fn law_layout_mdcv(s: Seq<bool>, p: nat, x: SeiMasteringDisplayColourVolumeModel, q: nat)
    ensures
        mdcv_at(s, p) == Ok::<(SeiMasteringDisplayColourVolumeModel, nat), Fault>((x, q)) <==> cursor(s, p)
            .u16(16, x.x0)
            .u16(16, x.y0)
            .u16(16, x.x1)
            .u16(16, x.y1)
            .u16(16, x.x2)
            .u16(16, x.y2)
            .u16(16, x.white_x)
            .u16(16, x.white_y)
            .u32(32, x.max_display_mastering_luminance)
            .u32(32, x.min_display_mastering_luminance)
            .ends(q),
{
    reveal(mdcv_at);
}

/// Reading `mastering_display_colour_volume()` (§D.2.28) never fails.
pub broadcast proof fn law_faults_mdcv(s: Seq<bool>, p: nat)
    ensures
        #[trigger] mdcv_at(s, p) is Ok,
{
    reveal(mdcv_at);
}

/// What the writer accepts reads back: `mastering_display_colour_volume()`
/// (§D.2.28), where each field fits its width and what is not coded has the
/// value that is taken for it.
pub proof fn law_reads_mdcv(a: Seq<bool>, x: SeiMasteringDisplayColourVolumeModel, s: Seq<bool>)
    requires
        mdcv_can(x),
        fits(x.x0 as nat, 16),
        fits(x.y0 as nat, 16),
        fits(x.x1 as nat, 16),
        fits(x.y1 as nat, 16),
        fits(x.x2 as nat, 16),
        fits(x.y2 as nat, 16),
        fits(x.white_x as nat, 16),
        fits(x.white_y as nat, 16),
        fits(x.max_display_mastering_luminance as nat, 32),
        fits(x.min_display_mastering_luminance as nat, 32),
        pre(put_mdcv(a, x), s),
    ensures
        mdcv_at(s, a.len()) == Ok::<(
            SeiMasteringDisplayColourVolumeModel,
            nat,
        ), Fault>((x, put_mdcv(a, x).len())),
{
    assert(mdcv_ok(x)) by {
        broadcast use crate::bits::law_fits_small;

        reveal(mdcv_ok);
        reveal(mdcv_can);
    }
    law_pre_put_mdcv(a, x, s);
}

/// Each field of the model of a [`SeiMasteringDisplayColourVolume`] is the field of that name.
pub proof fn law_view_mdcv(x: SeiMasteringDisplayColourVolume)
    ensures
        x@.x0 == x.display_primaries@[0].0,
        x@.y0 == x.display_primaries@[0].1,
        x@.x1 == x.display_primaries@[1].0,
        x@.y1 == x.display_primaries@[1].1,
        x@.x2 == x.display_primaries@[2].0,
        x@.y2 == x.display_primaries@[2].1,
        x@.white_x == x.white_point.0,
        x@.white_y == x.white_point.1,
        x@.max_display_mastering_luminance == x.max_display_mastering_luminance,
        x@.min_display_mastering_luminance == x.min_display_mastering_luminance,
{
}

/// `content_light_level_info()` (§D.2.35) at position `p`.
#[verifier::opaque]
pub open spec fn cll_at(s: Seq<bool>, p: nat) -> Read<SeiContentLightLevel> {
    let max_content_light_level = u16_at(s, p, 16);
    let p = adv(p, 16);
    let max_pic_average_light_level = u16_at(s, p, 16);
    let p = adv(p, 16);
    Ok((SeiContentLightLevel { max_content_light_level, max_pic_average_light_level }, p))
}

/// The bits `a` followed by `content_light_level_info()` (§D.2.35).
#[verifier::opaque]
pub open spec fn put_cll(a: Seq<bool>, x: SeiContentLightLevel) -> Seq<bool> {
    let a = put_u(a, x.max_content_light_level as nat, 16);
    let a = put_u(a, x.max_pic_average_light_level as nat, 16);
    a
}

/// The values of `content_light_level_info()` (§D.2.35) that reading can give.
#[verifier::opaque]
pub open spec fn cll_ok(x: SeiContentLightLevel) -> bool {
    &&& fits(x.max_content_light_level as nat, 16)
    &&& fits(x.max_pic_average_light_level as nat, 16)
}

/// The values of `content_light_level_info()` (§D.2.35) that the writer
/// accepts.
#[verifier::opaque]
pub open spec fn cll_can(x: SeiContentLightLevel) -> bool {
    true
}

/// Parses `content_light_level_info()` (§D.2.35).
fn parse_cll(r: &mut BitReader<'_>) -> (res: Result<SeiContentLightLevel, BitstreamError>)
    ensures
        read_is(cll_at(old(r).bits(), old(r).pos()), res, *old(r), *final(r)),
{
    proof {
        reveal(cll_at);
    }
    let max_content_light_level: u16 = r.u16(16);
    let max_pic_average_light_level: u16 = r.u16(16);
    Ok(SeiContentLightLevel { max_content_light_level, max_pic_average_light_level })
}

/// Emits `content_light_level_info()` (§D.2.35), the inverse of [`parse_cll`].
fn write_cll(w: &mut BitWriter, x: &SeiContentLightLevel) -> (res: Result<(), BitstreamError>)
    ensures
        write_is(cll_can(*x), put_cll(old(w)@, *x), res, final(w)@),
{
    proof {
        reveal(put_cll);
        reveal(cll_can);
    }
    w.write_bits(x.max_content_light_level as u32, 16);
    w.write_bits(x.max_pic_average_light_level as u32, 16);
    Ok(())
}

/// Writing `content_light_level_info()` (§D.2.35) gives back the bits it was
/// read from.
pub broadcast proof fn law_put_cll_at(s: Seq<bool>, p: nat)
    ensures
        #[trigger] cll_at(s, p) matches Ok((x, q)) ==> {
            &&& cll_ok(x)
            &&& cll_can(x)
            &&& within(s, q) ==> within(s, p) && put_cll(upto(s, p), x) == upto(s, q)
        },
{
    broadcast use crate::bits::group_write_read;

    reveal(cll_at);
    reveal(put_cll);
    reveal(cll_ok);
    reveal(cll_can);
}

/// Reading gives back `content_light_level_info()` (§D.2.35) as it was written.
pub broadcast proof fn law_pre_put_cll(a: Seq<bool>, x: SeiContentLightLevel, s: Seq<bool>)
    requires
        #[trigger] pre(put_cll(a, x), s),
        cll_ok(x),
    ensures
        pre(a, s),
        cll_can(x),
        cll_at(s, a.len()) == Ok::<(SeiContentLightLevel, nat), Fault>((x, put_cll(a, x).len())),
{
    broadcast use crate::bits::group_read_written;

    reveal(cll_at);
    reveal(put_cll);
    reveal(cll_ok);
    reveal(cll_can);
}

/// The layout of `content_light_level_info()` (§D.2.35): reading at `p` gives
/// `x` and ends at `q` if and only if these elements stand there in this order.
pub proof fn law_layout_cll(s: Seq<bool>, p: nat, x: SeiContentLightLevel, q: nat)
    ensures
        cll_at(s, p) == Ok::<(SeiContentLightLevel, nat), Fault>((x, q)) <==> cursor(s, p)
            .u16(16, x.max_content_light_level)
            .u16(16, x.max_pic_average_light_level)
            .ends(q),
{
    reveal(cll_at);
}

/// Reading `content_light_level_info()` (§D.2.35) never fails.
pub broadcast proof fn law_faults_cll(s: Seq<bool>, p: nat)
    ensures
        #[trigger] cll_at(s, p) is Ok,
{
    reveal(cll_at);
}

/// What the writer accepts reads back: `content_light_level_info()` (§D.2.35),
/// where each field fits its width and what is not coded has the value that is
/// taken for it.
pub proof fn law_reads_cll(a: Seq<bool>, x: SeiContentLightLevel, s: Seq<bool>)
    requires
        cll_can(x),
        fits(x.max_content_light_level as nat, 16),
        fits(x.max_pic_average_light_level as nat, 16),
        pre(put_cll(a, x), s),
    ensures
        cll_at(s, a.len()) == Ok::<(SeiContentLightLevel, nat), Fault>((x, put_cll(a, x).len())),
{
    assert(cll_ok(x)) by {
        broadcast use crate::bits::law_fits_small;

        reveal(cll_ok);
        reveal(cll_can);
    }
    law_pre_put_cll(a, x, s);
}

/// The mathematical model of a [`HevcSei`].
pub enum HevcSeiModel {
    UserDataRegisteredItuTT35 { country_code: u8, country_code_extension: Option<u8>, payload: Seq<u8> },
    UserDataUnregistered { uuid: Seq<u8>, payload: Seq<u8> },
    RecoveryPoint(SeiRecoveryPoint),
    MasteringDisplayColourVolume(SeiMasteringDisplayColourVolumeModel),
    ContentLightLevel(SeiContentLightLevel),
    Unknown { payload_type: u32, payload: Seq<u8> },
}

impl View for HevcSei {
    type V = HevcSeiModel;

    open spec fn view(&self) -> HevcSeiModel {
        match self {
            HevcSei::UserDataRegisteredItuTT35(x) => HevcSeiModel::UserDataRegisteredItuTT35 {
                country_code: x.country_code,
                country_code_extension: x.country_code_extension,
                payload: x.payload@,
            },
            HevcSei::UserDataUnregistered(x) => HevcSeiModel::UserDataUnregistered {
                uuid: x.uuid@,
                payload: x.payload@,
            },
            HevcSei::RecoveryPoint(x) => HevcSeiModel::RecoveryPoint(*x),
            HevcSei::MasteringDisplayColourVolume(x) => HevcSeiModel::MasteringDisplayColourVolume(x@),
            HevcSei::ContentLightLevel(x) => HevcSeiModel::ContentLightLevel(*x),
            HevcSei::Unknown { payload_type, payload } => HevcSeiModel::Unknown {
                payload_type: *payload_type,
                payload: payload@,
            },
        }
    }
}

/// The payload type is one of those that [`decode_sei_message`] decodes.
pub open spec fn is_decoded_type(t: u32) -> bool {
    ||| t == SEI_TYPE_USER_DATA_REGISTERED_ITU_T_T35
    ||| t == SEI_TYPE_USER_DATA_UNREGISTERED
    ||| t == SEI_TYPE_RECOVERY_POINT
    ||| t == SEI_TYPE_MASTERING_DISPLAY_COLOUR_VOLUME
    ||| t == SEI_TYPE_CONTENT_LIGHT_LEVEL_INFO
}

/// The decoded message.
pub open spec fn hevc_sei_of(m: SeiMessageModel) -> Result<HevcSeiModel, Fault> {
    let b = m.payload;
    let s = bits_of(b);
    if m.payload_type == SEI_TYPE_USER_DATA_REGISTERED_ITU_T_T35 {
        if b.len() == 0 {
            Err(Fault::End)
        } else if b[0] != 0xff {
            Ok(
                HevcSeiModel::UserDataRegisteredItuTT35 {
                    country_code: b[0],
                    country_code_extension: None,
                    payload: b.skip(1),
                },
            )
        } else if b.len() < 2 {
            Err(Fault::End)
        } else {
            Ok(
                HevcSeiModel::UserDataRegisteredItuTT35 {
                    country_code: b[0],
                    country_code_extension: Some(b[1]),
                    payload: b.skip(2),
                },
            )
        }
    } else if m.payload_type == SEI_TYPE_USER_DATA_UNREGISTERED {
        if b.len() < 16 {
            Err(Fault::End)
        } else {
            Ok(HevcSeiModel::UserDataUnregistered { uuid: b.take(16), payload: b.skip(16) })
        }
    } else if m.payload_type == SEI_TYPE_RECOVERY_POINT {
        match recovery_at(s, 0) {
            Err(f) => Err(f),
            Ok((x, p)) => if p > s.len() {
                Err(Fault::End)
            } else {
                Ok(HevcSeiModel::RecoveryPoint(x))
            },
        }
    } else if m.payload_type == SEI_TYPE_MASTERING_DISPLAY_COLOUR_VOLUME {
        if b.len() < 24 {
            Err(Fault::End)
        } else {
            match mdcv_at(s, 0) {
                Err(f) => Err(f),
                Ok((x, _)) => Ok(HevcSeiModel::MasteringDisplayColourVolume(x)),
            }
        }
    } else if m.payload_type == SEI_TYPE_CONTENT_LIGHT_LEVEL_INFO {
        if b.len() < 4 {
            Err(Fault::End)
        } else {
            match cll_at(s, 0) {
                Err(f) => Err(f),
                Ok((x, _)) => Ok(HevcSeiModel::ContentLightLevel(x)),
            }
        }
    } else {
        Ok(HevcSeiModel::Unknown { payload_type: m.payload_type, payload: b })
    }
}

/// The encoder accepts `x`.
pub open spec fn hevc_sei_can(x: HevcSeiModel) -> bool {
    match x {
        HevcSeiModel::UserDataRegisteredItuTT35 {
            country_code,
            country_code_extension,
            payload,
        } => country_code
            == 0xff <==> country_code_extension is Some,
        HevcSeiModel::RecoveryPoint(r) => recovery_can(r),
        _ => true,
    }
}

/// The message `m` is the encoded form of `x`.
pub open spec fn hevc_sei_encoded(x: HevcSeiModel, m: SeiMessageModel) -> bool {
    match x {
        HevcSeiModel::UserDataRegisteredItuTT35 { country_code, country_code_extension, payload } => {
            &&& m.payload_type == SEI_TYPE_USER_DATA_REGISTERED_ITU_T_T35
            &&& m.payload == match country_code_extension {
                Some(ext) => seq![country_code, ext] + payload,
                None => seq![country_code] + payload,
            }
        },
        HevcSeiModel::UserDataUnregistered { uuid, payload } => {
            &&& m.payload_type == SEI_TYPE_USER_DATA_UNREGISTERED
            &&& m.payload == uuid + payload
        },
        HevcSeiModel::RecoveryPoint(r) => {
            &&& m.payload_type == SEI_TYPE_RECOVERY_POINT
            &&& bits_of(m.payload) == put_trailing(put_recovery(Seq::empty(), r))
        },
        HevcSeiModel::MasteringDisplayColourVolume(v) => {
            &&& m.payload_type == SEI_TYPE_MASTERING_DISPLAY_COLOUR_VOLUME
            &&& bits_of(m.payload) == put_mdcv(Seq::empty(), v)
        },
        HevcSeiModel::ContentLightLevel(c) => {
            &&& m.payload_type == SEI_TYPE_CONTENT_LIGHT_LEVEL_INFO
            &&& bits_of(m.payload) == put_cll(Seq::empty(), c)
        },
        HevcSeiModel::Unknown { payload_type, payload } => {
            &&& m.payload_type == payload_type
            &&& m.payload == payload
        },
    }
}

/// Decode one raw [`SeiMessage`] into a typed [`HevcSei`]. All the
/// decoded families are SPS-independent, so no context argument is
/// needed (the HRD-coupled families buffering_period and pic_timing
/// have their own [`decode_buffering_period`] / [`decode_pic_timing`]
/// entry points taking a [`SeiHrdContext`], and surface here as
/// [`HevcSei::Unknown`]).
pub fn decode_sei_message(msg: &SeiMessage) -> (res: Result<HevcSei, BitstreamError>)
    ensures
        match hevc_sei_of(msg@) {
            Ok(x) => res matches Ok(v) && v@ == x,
            Err(f) => res matches Err(e) && e.fault() == f,
        },
{
    let p = msg.payload.as_slice();
    let n: usize = p.len();
    if msg.payload_type == SEI_TYPE_USER_DATA_REGISTERED_ITU_T_T35 {
        if n == 0 {
            return Err(BitstreamError::unexpected_end("itu_t_t35 SEI payload empty"));
        }
        let country_code: u8 = p[0];
        if country_code != 0xff {
            let payload = copy_bytes(p, 1, n);
            proof {
                assert(payload@ =~= p@.skip(1));
            }
            return Ok(
                HevcSei::UserDataRegisteredItuTT35(
                    SeiUserDataRegisteredItuTT35 { country_code, country_code_extension: None, payload },
                ),
            );
        }
        if n < 2 {
            return Err(BitstreamError::unexpected_end("itu_t_t35 SEI missing country_code_extension_byte"));
        }
        let payload = copy_bytes(p, 2, n);
        proof {
            assert(payload@ =~= p@.skip(2));
        }
        return Ok(
            HevcSei::UserDataRegisteredItuTT35(
                SeiUserDataRegisteredItuTT35 { country_code, country_code_extension: Some(p[1]), payload },
            ),
        );
    }
    if msg.payload_type == SEI_TYPE_USER_DATA_UNREGISTERED {
        if n < 16 {
            return Err(
                BitstreamError::unexpected_end("user_data_unregistered SEI shorter than the 16-byte UUID"),
            );
        }
        let mut uuid: [u8; 16] = [0; 16];
        let mut i: usize = 0;
        while i < 16
            invariant
                i <= 16,
                p@.len() >= 16,
                forall|j: int| 0 <= j < i ==> #[trigger] uuid@[j] == p@[j],
            decreases 16 - i,
        {
            uuid[i] = p[i];
            i = i + 1;
        }
        let payload = copy_bytes(p, 16, n);
        proof {
            assert(uuid@ =~= p@.take(16));
            assert(payload@ =~= p@.skip(16));
        }
        return Ok(HevcSei::UserDataUnregistered(SeiUserDataUnregistered { uuid, payload }));
    }
    if msg.payload_type == SEI_TYPE_RECOVERY_POINT {
        let mut r = BitReader::new(p);
        let rp = parse_recovery(&mut r)?;
        if r.bit_pos() > r.total_bits() {
            return Err(BitstreamError::unexpected_end("recovery_point SEI payload too short"));
        }
        return Ok(HevcSei::RecoveryPoint(rp));
    }
    if msg.payload_type == SEI_TYPE_MASTERING_DISPLAY_COLOUR_VOLUME {
        if n < 24 {
            return Err(
                BitstreamError::unexpected_end("mastering_display_colour_volume needs 24 payload bytes"),
            );
        }
        let mut r = BitReader::new(p);
        let m = parse_mdcv(&mut r)?;
        return Ok(HevcSei::MasteringDisplayColourVolume(m));
    }
    if msg.payload_type == SEI_TYPE_CONTENT_LIGHT_LEVEL_INFO {
        if n < 4 {
            return Err(BitstreamError::unexpected_end("content_light_level_info needs 4 payload bytes"));
        }
        let mut r = BitReader::new(p);
        let c = parse_cll(&mut r)?;
        return Ok(HevcSei::ContentLightLevel(c));
    }
    let payload = copy_bytes(p, 0, n);
    proof {
        assert(payload@ =~= p@);
    }
    Ok(HevcSei::Unknown { payload_type: msg.payload_type, payload })
}

/// Encode a typed [`HevcSei`] back into a raw [`SeiMessage`], the
/// inverse of [`decode_sei_message`] for every context-free family
/// (the HRD-coupled buffering_period / pic_timing pair has its own
/// [`encode_buffering_period`] / [`encode_pic_timing`] entry points).
/// `Unknown` payloads pass through verbatim.
pub fn encode_sei_message(sei: &HevcSei) -> (res: Result<SeiMessage, BitstreamError>)
    ensures
        match res {
            Ok(m) => hevc_sei_can(sei@) && hevc_sei_encoded(sei@, m@),
            Err(e) => !hevc_sei_can(sei@) && e.fault() == Fault::Invalid,
        },
{
    match sei {
        HevcSei::UserDataRegisteredItuTT35(t35) => {
            let mut payload: Vec<u8> = Vec::new();
            payload.push(t35.country_code);
            match t35.country_code_extension {
                Some(ext) => {
                    if t35.country_code != 0xff {
                        return Err(
                            BitstreamError::invalid(
                                "itu_t_t35: country_code_extension present iff country_code == 0xFF (D.2.6)",
                            ),
                        );
                    }
                    payload.push(ext);
                },
                None => {
                    if t35.country_code == 0xff {
                        return Err(
                            BitstreamError::invalid(
                                "itu_t_t35: country_code_extension present iff country_code == 0xFF (D.2.6)",
                            ),
                        );
                    }
                },
            }
            let ghost head = payload@;
            let mut rest = copy_bytes(t35.payload.as_slice(), 0, t35.payload.len());
            payload.append(&mut rest);
            proof {
                assert(payload@ =~= head + t35.payload@);
                match t35.country_code_extension {
                    Some(ext) => assert(head =~= seq![t35.country_code, ext]),
                    None => assert(head =~= seq![t35.country_code]),
                }
            }
            Ok(SeiMessage { payload_type: SEI_TYPE_USER_DATA_REGISTERED_ITU_T_T35, payload })
        },
        HevcSei::UserDataUnregistered(u) => {
            let mut payload = copy_bytes(u.uuid.as_slice(), 0, 16);
            let mut rest = copy_bytes(u.payload.as_slice(), 0, u.payload.len());
            payload.append(&mut rest);
            proof {
                assert(payload@ =~= u.uuid@ + u.payload@);
            }
            Ok(SeiMessage { payload_type: SEI_TYPE_USER_DATA_UNREGISTERED, payload })
        },
        HevcSei::RecoveryPoint(rp) => {
            let mut w = BitWriter::new();
            write_recovery(&mut w, rp)?;
            w.write_rbsp_trailing_bits();
            proof {
                broadcast use lemma_trailing_aligned;

                lemma_pad_aligned(w@);
            }
            Ok(SeiMessage { payload_type: SEI_TYPE_RECOVERY_POINT, payload: w.finish() })
        },
        HevcSei::MasteringDisplayColourVolume(m) => {
            let mut w = BitWriter::new();
            proof {
                lemma_mdcv_size(m@);
            }
            write_mdcv(&mut w, m)?;
            proof {
                lemma_pad_aligned(w@);
            }
            Ok(SeiMessage { payload_type: SEI_TYPE_MASTERING_DISPLAY_COLOUR_VOLUME, payload: w.finish() })
        },
        HevcSei::ContentLightLevel(c) => {
            let mut w = BitWriter::new();
            proof {
                lemma_cll_size(*c);
            }
            write_cll(&mut w, c)?;
            proof {
                lemma_pad_aligned(w@);
            }
            Ok(SeiMessage { payload_type: SEI_TYPE_CONTENT_LIGHT_LEVEL_INFO, payload: w.finish() })
        },
        HevcSei::Unknown { payload_type, payload } => {
            let copy = copy_bytes(payload.as_slice(), 0, payload.len());
            proof {
                assert(copy@ =~= payload@);
            }
            Ok(SeiMessage { payload_type: *payload_type, payload: copy })
        },
    }
}

proof fn lemma_mdcv_size(x: SeiMasteringDisplayColourVolumeModel)
    ensures
        mdcv_can(x),
        mdcv_ok(x),
        put_mdcv(Seq::empty(), x).len() == 192,
{
    broadcast use law_fits_small;

    reveal(mdcv_can);
    reveal(mdcv_ok);
    reveal(put_mdcv);
    assert forall|a: Seq<bool>, v: nat, n: nat| (#[trigger] put_u(a, v, n)).len() == a.len() + n by {
        lemma_put_u_shape(a, v, n);
    }
}

proof fn lemma_cll_size(x: SeiContentLightLevel)
    ensures
        cll_can(x),
        cll_ok(x),
        put_cll(Seq::empty(), x).len() == 32,
{
    broadcast use law_fits_small;

    reveal(cll_can);
    reveal(cll_ok);
    reveal(put_cll);
    assert forall|a: Seq<bool>, v: nat, n: nat| (#[trigger] put_u(a, v, n)).len() == a.len() + n by {
        lemma_put_u_shape(a, v, n);
    }
}

/// Decoding what was encoded gives back the value, for every value that the
/// encoder accepts (an `Unknown` one of a type that is not decoded).
pub proof fn law_decode_encoded_hevc_sei(x: HevcSeiModel, m: SeiMessageModel)
    requires
        hevc_sei_can(x),
        hevc_sei_encoded(x, m),
        m.payload.len() <= usize::MAX,
        x matches HevcSeiModel::UserDataUnregistered { uuid, payload } ==> uuid.len() == 16,
        x matches HevcSeiModel::Unknown { payload_type, payload } ==> !is_decoded_type(payload_type),
    ensures
        hevc_sei_of(m) == Ok::<HevcSeiModel, Fault>(x),
{
    let b = m.payload;
    let s = bits_of(b);
    lemma_bits_of_len(b);
    match x {
        HevcSeiModel::UserDataRegisteredItuTT35 { country_code, country_code_extension, payload } => {
            match country_code_extension {
                Some(ext) => assert(b.skip(2) =~= payload),
                None => assert(b.skip(1) =~= payload),
            }
        },
        HevcSeiModel::UserDataUnregistered { uuid, payload } => {
            assert(b.take(16) =~= uuid);
            assert(b.skip(16) =~= payload);
        },
        HevcSeiModel::RecoveryPoint(r) => {
            let a = put_recovery(Seq::empty(), r);
            lemma_trailing_shape(a);
            assert(pre(a, s)) by {
                reveal(pre);
            }
            assert(recovery_ok(r)) by {
                reveal(recovery_ok);
                reveal(recovery_can);
            }
            law_pre_put_recovery(Seq::empty(), r, s);
        },
        HevcSeiModel::MasteringDisplayColourVolume(v) => {
            lemma_mdcv_size(v);
            assert(pre(s, s)) by {
                reveal(pre);
                assert(s.take(s.len() as int) =~= s);
            }
            law_pre_put_mdcv(Seq::empty(), v, s);
        },
        HevcSeiModel::ContentLightLevel(c) => {
            lemma_cll_size(c);
            assert(pre(s, s)) by {
                reveal(pre);
                assert(s.take(s.len() as int) =~= s);
            }
            law_pre_put_cll(Seq::empty(), c, s);
        },
        HevcSeiModel::Unknown { payload_type, payload } => {},
    }
}

/// The payload of `m` holds nothing behind the fields that are decoded, other than
/// the closing bits that an encoder puts there.
pub open spec fn is_canonical(m: SeiMessageModel) -> bool {
    if m.payload_type == SEI_TYPE_RECOVERY_POINT {
        let s = bits_of(m.payload);
        recovery_at(s, 0) matches Ok((_, p)) && s == put_trailing(upto(s, p))
    } else if m.payload_type == SEI_TYPE_MASTERING_DISPLAY_COLOUR_VOLUME {
        m.payload.len() == 24
    } else if m.payload_type == SEI_TYPE_CONTENT_LIGHT_LEVEL_INFO {
        m.payload.len() == 4
    } else {
        true
    }
}

/// The encoder accepts every value that was decoded, and gives back the message
/// if nothing stands behind the decoded fields.
pub proof fn law_encode_decoded_hevc_sei(m: SeiMessageModel, out: SeiMessageModel)
    requires
        hevc_sei_of(m) is Ok,
        hevc_sei_encoded(hevc_sei_of(m)->Ok_0, out),
        m.payload.len() <= usize::MAX,
    ensures
        hevc_sei_can(hevc_sei_of(m)->Ok_0),
        is_canonical(m) ==> out == m,
{
    let x = hevc_sei_of(m)->Ok_0;
    let b = m.payload;
    let s = bits_of(b);
    lemma_bits_of_len(b);
    assert(upto(s, 0) =~= Seq::empty()) by {
        reveal(upto);
    }
    match x {
        HevcSeiModel::UserDataRegisteredItuTT35 { country_code, country_code_extension, payload } => {
            assert(out.payload =~= b);
        },
        HevcSeiModel::UserDataUnregistered { uuid, payload } => {
            assert(out.payload =~= b);
        },
        HevcSeiModel::RecoveryPoint(r) => {
            law_put_recovery_at(s, 0);
            let p = recovery_at(s, 0)->Ok_0.1;
            assert(within(s, p)) by {
                reveal(within);
            }
            if is_canonical(m) {
                lemma_bits_of_injective(out.payload, b);
            }
        },
        HevcSeiModel::MasteringDisplayColourVolume(v) => {
            if is_canonical(m) {
                law_put_mdcv_at(s, 0);
                lemma_mdcv_size(v);
                assert(mdcv_at(s, 0)->Ok_0.1 == 192) by {
                    reveal(mdcv_at);
                    reveal(adv);
                }
                assert(within(s, 192) && upto(s, 192) =~= s) by {
                    reveal(within);
                    reveal(upto);
                }
                lemma_bits_of_injective(out.payload, b);
            }
        },
        HevcSeiModel::ContentLightLevel(c) => {
            if is_canonical(m) {
                law_put_cll_at(s, 0);
                lemma_cll_size(c);
                assert(cll_at(s, 0)->Ok_0.1 == 32) by {
                    reveal(cll_at);
                    reveal(adv);
                }
                assert(within(s, 32) && upto(s, 32) =~= s) by {
                    reveal(within);
                    reveal(upto);
                }
                lemma_bits_of_injective(out.payload, b);
            }
        },
        HevcSeiModel::Unknown { payload_type, payload } => {},
    }
}

// ──────────────── HRD-coupled payloads: BP / PT (§D.2.2 / §D.2.3) ───────────

/// Context threaded into the buffering_period / pic_timing decoders:
/// the active SPS VUI `hrd_parameters()` plus the sub-layer the SEI
/// applies to (`HighestTid`, selecting `cpb_cnt_minus1[i]`) and the
/// VUI `frame_field_info_present_flag` gate for pic_timing's
/// `pic_struct` triple.
#[derive(Debug, Clone, Copy)]
pub struct SeiHrdContext<'a> {
    /// The SPS-VUI `hrd_parameters()` (§E.2.2).
    pub hrd: &'a HevcHrdParameters,
    /// Sub-layer index the SEI applies to (0-based `HighestTid`);
    /// selects `cpb_cnt_minus1[i]` per §E.3.3.
    pub sub_layer_id: usize,
    /// VUI `frame_field_info_present_flag` (§E.2.1) — gates the
    /// `pic_struct` / `source_scan_type` / `duplicate_flag` triple in
    /// pic_timing.
    pub frame_field_info_present_flag: bool,
}

/// The mathematical model of a [`SeiHrdContext`].
pub struct SeiHrdContextModel {
    pub hrd: HevcHrdParametersModel,
    pub sub_layer_id: usize,
    pub frame_field_info_present_flag: bool,
}

impl<'a> View for SeiHrdContext<'a> {
    type V = SeiHrdContextModel;

    open spec fn view(&self) -> SeiHrdContextModel {
        SeiHrdContextModel {
            hrd: self.hrd@,
            sub_layer_id: self.sub_layer_id,
            frame_field_info_present_flag: self.frame_field_info_present_flag,
        }
    }
}

/// The position of the last set bit of `s`, -1 if there is none.
pub open spec fn last_one(s: Seq<bool>) -> int
    decreases s.len(),
{
    if s.len() == 0 {
        -1
    } else if s.last() {
        s.len() - 1
    } else {
        last_one(s.drop_last())
    }
}

proof fn lemma_last_one(s: Seq<bool>, k: int)
    requires
        0 <= k < s.len(),
        s[k],
        forall|i: int| k < i < s.len() ==> !#[trigger] s[i],
    ensures
        last_one(s) == k,
    decreases s.len(),
{
    if !s.last() {
        assert(s.drop_last()[k] == s[k]);
        lemma_last_one(s.drop_last(), k);
    }
}

/// The payload tail at position `p` (§D.1.1): nothing, or an optional extension bit,
/// the closing one bit and zero bits. Gives the extension bit.
pub open spec fn payload_tail_at(s: Seq<bool>, p: nat) -> Result<Option<bool>, Fault> {
    if p > s.len() {
        Err(Fault::End)
    } else if p == s.len() {
        Ok(None)
    } else if last_one(s) < p {
        Err(Fault::Invalid)
    } else if last_one(s) == p {
        Ok(None)
    } else if last_one(s) == p + 1 {
        Ok(Some(s[p as int]))
    } else {
        Err(Fault::Unsupported)
    }
}

/// `a` with its payload tail. Behind an extension bit the closing one bit is
/// written even at a byte boundary.
pub open spec fn put_payload_tail(a: Seq<bool>, ext: Option<bool>) -> Seq<bool> {
    match ext {
        Some(b) => put_trailing(put_flag(a, b)),
        None => put_payload_end(a),
    }
}

/// A payload tail that was written reads back.
pub proof fn law_tail_written(a: Seq<bool>, ext: Option<bool>)
    ensures
        put_payload_tail(a, ext).len() >= a.len(),
        put_payload_tail(a, ext).take(a.len() as int) == a,
        payload_tail_at(put_payload_tail(a, ext), a.len()) == Ok::<Option<bool>, Fault>(ext),
{
    let s = put_payload_tail(a, ext);
    reveal(put_flag);
    match ext {
        Some(b) => {
            let c = put_flag(a, b);
            lemma_trailing_shape(c);
            lemma_last_one(s, c.len() as int);
            assert(s[a.len() as int] == s.take(c.len() as int)[a.len() as int]);
            assert(s.take(a.len() as int) =~= s.take(c.len() as int).take(a.len() as int));
            assert(c.take(a.len() as int) =~= a);
        },
        None => {
            if a.len() % 8 != 0 {
                lemma_trailing_shape(a);
                lemma_last_one(s, a.len() as int);
            } else {
                assert(s.take(a.len() as int) =~= a);
            }
        },
    }
}

/// The position of the last set bit of the reader's data.
fn find_last_one(r: &BitReader<'_>) -> (res: Option<u128>)
    ensures
        match res {
            Some(k) => last_one(r.bits()) == k,
            None => last_one(r.bits()) == -1,
        },
{
    let total = r.total_bits();
    let mut k: u128 = total;
    let ghost s = r.bits();
    proof {
        assert(s.take(total as int) =~= s);
    }
    while k > 0
        invariant
            s == r.bits(),
            k <= s.len(),
            last_one(s) == last_one(s.take(k as int)),
        decreases k,
    {
        proof {
            assert(s.take(k as int).drop_last() =~= s.take(k - 1));
            assert(s.take(k as int).last() == s[k - 1]);
        }
        if r.bit_at(k - 1) {
            return Some(k - 1);
        }
        k = k - 1;
    }
    None
}

/// Validate the SEI payload tail after the last syntax
/// field. Returns the extension bit when present.
fn read_payload_tail(r: &mut BitReader<'_>, what: &str) -> (res: Result<Option<bool>, BitstreamError>)
    ensures
        match payload_tail_at(old(r).bits(), old(r).pos()) {
            Ok(x) => res == Ok::<Option<bool>, BitstreamError>(x),
            Err(f) => res matches Err(e) && e.fault() == f,
        },
{
    let total = r.total_bits();
    let pos = r.bit_pos();
    if pos > total {
        return Err(Message::new("").with(what).with(" payload too short").unexpected_end());
    }
    if pos == total {
        return Ok(None);
    }
    match find_last_one(r) {
        None => Err(Message::new("").with(what).with(": missing payload_bit_equal_to_one").invalid()),
        Some(k) => {
            if k < pos {
                Err(
                    Message::new("")
                        .with(what)
                        .with(": payload_bit_equal_to_one precedes the last syntax field")
                        .invalid(),
                )
            } else if k == pos {
                Ok(None)
            } else if k == pos + 1 {
                Ok(Some(r.bit_at(pos)))
            } else {
                Err(
                    Message::new("")
                        .with(what)
                        .with(": reserved_payload_extension_data longer than the 1-bit extension slot")
                        .unsupported(),
                )
            }
        },
    }
}

/// One CPB's initial-removal pair in a buffering_period (§D.2.2).
/// `alt` carries `(initial_alt_cpb_removal_delay,
/// initial_alt_cpb_removal_offset)` — coded only when
/// `sub_pic_hrd_params_present_flag` or `irap_cpb_params_present_flag`.
#[derive(Debug, Clone, Copy, Default, PartialEq, Eq)]
pub struct SeiInitialCpbDelays {
    pub initial_cpb_removal_delay: u32,
    pub initial_cpb_removal_offset: u32,
    pub alt: Option<(u32, u32)>,
}

/// `buffering_period()` — §D.2.2 / §D.3.2. All `u(v)` field widths
/// come from the [`SeiHrdContext`]'s `hrd_parameters()`.
#[derive(Debug, Clone, Default, PartialEq, Eq)]
pub struct SeiBufferingPeriod {
    /// `bp_seq_parameter_set_id` ue(v) — 0..=15.
    pub bp_seq_parameter_set_id: u32,
    /// `irap_cpb_params_present_flag` — coded only when
    /// `!sub_pic_hrd_params_present_flag`; inferred 0.
    pub irap_cpb_params_present_flag: bool,
    /// `cpb_delay_offset` u(v) (`au_cpb_removal_delay_length_minus1 +
    /// 1` bits) — coded only with IRAP CPB params; inferred 0.
    pub cpb_delay_offset: u32,
    /// `dpb_delay_offset` u(v) (`dpb_output_delay_length_minus1 + 1`
    /// bits) — ditto.
    pub dpb_delay_offset: u32,
    /// `concatenation_flag` — ditto.
    pub concatenation_flag: bool,
    /// `au_cpb_removal_delay_delta_minus1` u(v) — ditto.
    pub au_cpb_removal_delay_delta_minus1: u32,
    /// `nal_initial_cpb_removal_delay/offset[i]` — `CpbCnt` entries
    /// iff `NalHrdBpPresentFlag`.
    pub nal_delays: Vec<SeiInitialCpbDelays>,
    /// The VCL twin.
    pub vcl_delays: Vec<SeiInitialCpbDelays>,
    /// `use_alt_cpb_params_flag` — the §D.2.2 payload-extension
    /// position; `Some` iff the coded payload carried it.
    pub use_alt_cpb_params_flag: Option<bool>,
}

/// The mathematical model of a [`SeiBufferingPeriod`].
pub struct SeiBufferingPeriodModel {
    pub body: HevcBpBodyModel,
    pub use_alt_cpb_params_flag: Option<bool>,
}

impl View for SeiBufferingPeriod {
    type V = SeiBufferingPeriodModel;

    open spec fn view(&self) -> SeiBufferingPeriodModel {
        SeiBufferingPeriodModel {
            body: HevcBpBodyModel {
                bp_seq_parameter_set_id: self.bp_seq_parameter_set_id,
                irap_cpb_params_present_flag: self.irap_cpb_params_present_flag,
                cpb_delay_offset: self.cpb_delay_offset,
                dpb_delay_offset: self.dpb_delay_offset,
                concatenation_flag: self.concatenation_flag,
                au_cpb_removal_delay_delta_minus1: self.au_cpb_removal_delay_delta_minus1,
                nal_delays: self.nal_delays@,
                vcl_delays: self.vcl_delays@,
            },
            use_alt_cpb_params_flag: self.use_alt_cpb_params_flag,
        }
    }
}

/// A pair of delays of `width` bits at position `p`.
#[verifier::opaque]
pub open spec fn hdelay_pair_at(s: Seq<bool>, p: nat, width: u32) -> Read<(u32, u32)> {
    let delay = u32_at(s, p, width as nat);
    let p = adv(p, width as nat);
    let offset = u32_at(s, p, width as nat);
    let p = adv(p, width as nat);
    Ok(((delay, offset), p))
}

/// The bits `a` followed by a pair of delays of `width` bits.
#[verifier::opaque]
pub open spec fn put_hdelay_pair(a: Seq<bool>, x: (u32, u32), width: u32) -> Seq<bool> {
    let a = put_u(a, x.0 as nat, width as nat);
    let a = put_u(a, x.1 as nat, width as nat);
    a
}

/// The values of a pair of delays of `width` bits that reading can give.
#[verifier::opaque]
pub open spec fn hdelay_pair_ok(x: (u32, u32), width: u32) -> bool {
    &&& fits(x.0 as nat, width as nat) && fits(x.1 as nat, width as nat)
}

/// The values of a pair of delays of `width` bits that the writer accepts.
#[verifier::opaque]
pub open spec fn hdelay_pair_can(x: (u32, u32), width: u32) -> bool {
    &&& fits(x.0 as nat, width as nat) && fits(x.1 as nat, width as nat)
}

/// Parses a pair of delays of `width` bits.
fn parse_hdelay_pair(r: &mut BitReader<'_>, width: u32) -> (res: Result<(u32, u32), BitstreamError>)
    requires
        width <= 32,
    ensures
        read_is(hdelay_pair_at(old(r).bits(), old(r).pos(), width), res, *old(r), *final(r)),
{
    proof {
        reveal(hdelay_pair_at);
    }
    let delay: u32 = r.u(width);
    let offset: u32 = r.u(width);
    Ok((delay, offset))
}

/// Emits a pair of delays of `width` bits, the inverse of [`parse_hdelay_pair`].
fn write_hdelay_pair(w: &mut BitWriter, x: &(u32, u32), width: u32) -> (res: Result<(), BitstreamError>)
    requires
        width <= 32,
    ensures
        write_is(hdelay_pair_can(*x, width), put_hdelay_pair(old(w)@, *x, width), res, final(w)@),
{
    proof {
        reveal(put_hdelay_pair);
        reveal(hdelay_pair_can);
    }
    if !(fits_bits(x.0, width) && fits_bits(x.1, width)) {
        return Err(
            if !fits_bits(x.0, width) {
                Message::new("initial_alt_cpb_removal_delay = ")
                    .num(x.0 as i128)
                    .with(" does not fit u(")
                    .num(width as i128)
                    .with(")")
                    .invalid()
            } else {
                Message::new("initial_alt_cpb_removal_offset = ")
                    .num(x.1 as i128)
                    .with(" does not fit u(")
                    .num(width as i128)
                    .with(")")
                    .invalid()
            },
        );
    }
    w.write_bits(x.0, width);
    w.write_bits(x.1, width);
    Ok(())
}

/// Writing a pair of delays of `width` bits gives back the bits it was read
/// from.
pub broadcast proof fn law_put_hdelay_pair_at(s: Seq<bool>, p: nat, width: u32)
    requires
        width <= 32,
    ensures
        #[trigger] hdelay_pair_at(s, p, width) matches Ok((x, q)) ==> {
            &&& hdelay_pair_ok(x, width)
            &&& hdelay_pair_can(x, width)
            &&& within(s, q) ==> within(s, p) && put_hdelay_pair(upto(s, p), x, width) == upto(s, q)
        },
{
    broadcast use crate::bits::group_write_read;

    reveal(hdelay_pair_at);
    reveal(put_hdelay_pair);
    reveal(hdelay_pair_ok);
    reveal(hdelay_pair_can);
}

/// Reading gives back a pair of delays of `width` bits as it was written.
pub broadcast proof fn law_pre_put_hdelay_pair(a: Seq<bool>, x: (u32, u32), width: u32, s: Seq<bool>)
    requires
        #[trigger] pre(put_hdelay_pair(a, x, width), s),
        hdelay_pair_ok(x, width),
        width <= 32,
    ensures
        pre(a, s),
        hdelay_pair_can(x, width),
        hdelay_pair_at(s, a.len(), width) == Ok::<((u32, u32), nat), Fault>(
            (x, put_hdelay_pair(a, x, width).len()),
        ),
{
    broadcast use crate::bits::group_read_written;

    reveal(hdelay_pair_at);
    reveal(put_hdelay_pair);
    reveal(hdelay_pair_ok);
    reveal(hdelay_pair_can);
}

/// The layout of a pair of delays of `width` bits: reading at `p` gives `x` and
/// ends at `q` if and only if these elements stand there in this order.
pub proof fn law_layout_hdelay_pair(s: Seq<bool>, p: nat, width: u32, x: (u32, u32), q: nat)
    ensures
        hdelay_pair_at(s, p, width) == Ok::<((u32, u32), nat), Fault>((x, q)) <==> cursor(s, p)
            .u32(width as nat, x.0)
            .u32(width as nat, x.1)
            .ends(q),
{
    reveal(hdelay_pair_at);
}

/// Reading a pair of delays of `width` bits never fails.
pub broadcast proof fn law_faults_hdelay_pair(s: Seq<bool>, p: nat, width: u32)
    ensures
        #[trigger] hdelay_pair_at(s, p, width) is Ok,
{
    reveal(hdelay_pair_at);
}

/// What the writer accepts reads back: a pair of delays of `width` bits, where
/// each field fits its width and what is not coded has the value that is taken
/// for it.
pub proof fn law_reads_hdelay_pair(a: Seq<bool>, x: (u32, u32), width: u32, s: Seq<bool>)
    requires
        hdelay_pair_can(x, width),
        pre(put_hdelay_pair(a, x, width), s),
        width <= 32,
    ensures
        hdelay_pair_at(s, a.len(), width) == Ok::<((u32, u32), nat), Fault>(
            (x, put_hdelay_pair(a, x, width).len()),
        ),
{
    assert(hdelay_pair_ok(x, width)) by {
        broadcast use crate::bits::law_fits_small;

        reveal(hdelay_pair_ok);
        reveal(hdelay_pair_can);
    }
    law_pre_put_hdelay_pair(a, x, width, s);
}

/// The initial removal delays of a CPB at position `p`.
#[verifier::opaque]
pub open spec fn hdelays_at(s: Seq<bool>, p: nat, width: u32, with_alt: bool) -> Read<SeiInitialCpbDelays> {
    let initial_cpb_removal_delay = u32_at(s, p, width as nat);
    let p = adv(p, width as nat);
    let initial_cpb_removal_offset = u32_at(s, p, width as nat);
    let p = adv(p, width as nat);
    match (if with_alt { read_some(hdelay_pair_at(s, p, width)) } else { Ok((None, p)) })
    { Err(f) => Err(f), Ok((alt, p)) => {
    Ok((SeiInitialCpbDelays { initial_cpb_removal_delay, initial_cpb_removal_offset, alt }, p))
    }}
}

/// The bits `a` followed by the initial removal delays of a CPB.
#[verifier::opaque]
pub open spec fn put_hdelays(a: Seq<bool>, x: SeiInitialCpbDelays, width: u32, with_alt: bool) -> Seq<bool> {
    let a = put_u(a, x.initial_cpb_removal_delay as nat, width as nat);
    let a = put_u(a, x.initial_cpb_removal_offset as nat, width as nat);
    let a = match x.alt { Some(y) => put_hdelay_pair(a, y, width), None => a };
    a
}

/// The values of the initial removal delays of a CPB that reading can give.
#[verifier::opaque]
pub open spec fn hdelays_ok(x: SeiInitialCpbDelays, width: u32, with_alt: bool) -> bool {
    &&& fits(x.initial_cpb_removal_delay as nat, width as nat)
    &&& fits(x.initial_cpb_removal_offset as nat, width as nat)
    &&& x.alt is Some <==> with_alt
    &&& x.alt matches Some(y) ==> hdelay_pair_ok(y, width)
}

/// The values of the initial removal delays of a CPB that the writer accepts.
#[verifier::opaque]
pub open spec fn hdelays_can(x: SeiInitialCpbDelays, width: u32, with_alt: bool) -> bool {
    &&& fits(x.initial_cpb_removal_delay as nat, width as nat)
    &&& fits(x.initial_cpb_removal_offset as nat, width as nat)
    &&& x.alt is Some <==> with_alt
    &&& x.alt matches Some(y) ==> hdelay_pair_can(y, width)
}

/// Parses the initial removal delays of a CPB.
fn parse_hdelays(
    r: &mut BitReader<'_>,
    width: u32,
    with_alt: bool,
) -> (res: Result<SeiInitialCpbDelays, BitstreamError>)
    requires
        width <= 32,
    ensures
        read_is(hdelays_at(old(r).bits(), old(r).pos(), width, with_alt), res, *old(r), *final(r)),
{
    proof {
        reveal(hdelays_at);
    }
    let initial_cpb_removal_delay: u32 = r.u(width);
    let initial_cpb_removal_offset: u32 = r.u(width);
    let alt = if with_alt { Some(parse_hdelay_pair(r, width)?) } else { None };
    Ok(SeiInitialCpbDelays { initial_cpb_removal_delay, initial_cpb_removal_offset, alt })
}

/// Emits the initial removal delays of a CPB, the inverse of [`parse_hdelays`].
fn write_hdelays(
    w: &mut BitWriter,
    x: &SeiInitialCpbDelays,
    width: u32,
    with_alt: bool,
) -> (res: Result<(), BitstreamError>)
    requires
        width <= 32,
    ensures
        write_is(hdelays_can(*x, width, with_alt), put_hdelays(old(w)@, *x, width, with_alt), res, final(w)@),
{
    proof {
        reveal(put_hdelays);
        reveal(hdelays_can);
    }
    if !fits_bits(x.initial_cpb_removal_delay, width) {
        return Err(
            Message::new("initial_cpb_removal_delay = ")
                .num(x.initial_cpb_removal_delay as i128)
                .with(" does not fit u(")
                .num(width as i128)
                .with(")")
                .invalid(),
        );
    }
    w.write_bits(x.initial_cpb_removal_delay, width);
    if !fits_bits(x.initial_cpb_removal_offset, width) {
        return Err(
            Message::new("initial_cpb_removal_offset = ")
                .num(x.initial_cpb_removal_offset as i128)
                .with(" does not fit u(")
                .num(width as i128)
                .with(")")
                .invalid(),
        );
    }
    w.write_bits(x.initial_cpb_removal_offset, width);
    if x.alt.is_some() != with_alt {
        return Err(
            BitstreamError::invalid("alt CPB delays present iff sub-pic HRD or IRAP CPB params (D.2.2)"),
        );
    }
    if let Some(y) = &x.alt {
        write_hdelay_pair(w, y, width)?;
    }
    Ok(())
}

/// Writing the initial removal delays of a CPB gives back the bits it was read
/// from.
pub broadcast proof fn law_put_hdelays_at(s: Seq<bool>, p: nat, width: u32, with_alt: bool)
    requires
        width <= 32,
    ensures
        #[trigger] hdelays_at(s, p, width, with_alt) matches Ok((x, q)) ==> {
            &&& hdelays_ok(x, width, with_alt)
            &&& hdelays_can(x, width, with_alt)
            &&& within(s, q) ==> within(s, p) && put_hdelays(upto(s, p), x, width, with_alt) == upto(s, q)
        },
{
    broadcast use {crate::bits::group_write_read, law_put_hdelay_pair_at};

    reveal(hdelays_at);
    reveal(put_hdelays);
    reveal(hdelays_ok);
    reveal(hdelays_can);
}

/// Reading gives back the initial removal delays of a CPB as it was written.
pub broadcast proof fn law_pre_put_hdelays(
    a: Seq<bool>,
    x: SeiInitialCpbDelays,
    width: u32,
    with_alt: bool,
    s: Seq<bool>,
)
    requires
        #[trigger] pre(put_hdelays(a, x, width, with_alt), s),
        hdelays_ok(x, width, with_alt),
        width <= 32,
    ensures
        pre(a, s),
        hdelays_can(x, width, with_alt),
        hdelays_at(s, a.len(), width, with_alt) == Ok::<(SeiInitialCpbDelays, nat), Fault>(
            (x, put_hdelays(a, x, width, with_alt).len()),
        ),
{
    broadcast use {crate::bits::group_read_written, law_pre_put_hdelay_pair};

    reveal(hdelays_at);
    reveal(put_hdelays);
    reveal(hdelays_ok);
    reveal(hdelays_can);
}

/// The layout of the initial removal delays of a CPB: reading at `p` gives `x`
/// and ends at `q` if and only if these elements stand there in this order.
pub proof fn law_layout_hdelays(
    s: Seq<bool>,
    p: nat,
    width: u32,
    with_alt: bool,
    x: SeiInitialCpbDelays,
    q: nat,
)
    ensures
        hdelays_at(s, p, width, with_alt) == Ok::<(SeiInitialCpbDelays, nat), Fault>((x, q)) <==> cursor(s, p)
            .u32(width as nat, x.initial_cpb_removal_delay)
            .u32(width as nat, x.initial_cpb_removal_offset)
            .part_if(with_alt, |p: nat| hdelay_pair_at(s, p, width), x.alt)
            .ends(q),
{
    reveal(hdelays_at);
}

/// Reading the initial removal delays of a CPB never fails.
pub broadcast proof fn law_faults_hdelays(s: Seq<bool>, p: nat, width: u32, with_alt: bool)
    ensures
        #[trigger] hdelays_at(s, p, width, with_alt) is Ok,
{
    broadcast use law_faults_hdelay_pair;

    reveal(hdelays_at);
}

/// What the writer accepts reads back: the initial removal delays of a CPB,
/// where each field fits its width and what is not coded has the value that is
/// taken for it.
pub proof fn law_reads_hdelays(a: Seq<bool>, x: SeiInitialCpbDelays, width: u32, with_alt: bool, s: Seq<bool>)
    requires
        hdelays_can(x, width, with_alt),
        x.alt matches Some(y) ==> hdelay_pair_ok(y, width),
        pre(put_hdelays(a, x, width, with_alt), s),
        width <= 32,
    ensures
        hdelays_at(s, a.len(), width, with_alt) == Ok::<(SeiInitialCpbDelays, nat), Fault>(
            (x, put_hdelays(a, x, width, with_alt).len()),
        ),
{
    assert(hdelays_ok(x, width, with_alt)) by {
        broadcast use crate::bits::law_fits_small;

        reveal(hdelays_ok);
        reveal(hdelays_can);
    }
    law_pre_put_hdelays(a, x, width, with_alt, s);
}

/// Reads the initial removal delays of a CPB, behind the items before it.
pub open spec fn hdelay_list_item(
    s: Seq<bool>,
    width: u32,
    with_alt: bool,
) -> spec_fn(Seq<SeiInitialCpbDelays>, nat) -> Read<SeiInitialCpbDelays> {
    |done: Seq<SeiInitialCpbDelays>, q: nat| hdelays_at(s, q, width, with_alt)
}

/// Writes the initial removal delays of a CPB, behind the items before it.
pub open spec fn put_hdelay_list_item(
    width: u32,
    with_alt: bool,
) -> spec_fn(Seq<bool>, Seq<SeiInitialCpbDelays>, SeiInitialCpbDelays) -> Seq<bool> {
    |a: Seq<bool>, done: Seq<SeiInitialCpbDelays>, x: SeiInitialCpbDelays| put_hdelays(a, x, width, with_alt)
}

/// Whether the initial removal delays of a CPB may follow the items before it.
pub open spec fn hdelay_list_item_ok(
    width: u32,
    with_alt: bool,
) -> spec_fn(Seq<SeiInitialCpbDelays>, SeiInitialCpbDelays) -> bool {
    |done: Seq<SeiInitialCpbDelays>, x: SeiInitialCpbDelays| hdelays_ok(x, width, with_alt)
        && hdelays_can(x, width, with_alt)
}

/// `n` items at position `p`, each the initial removal delays of a CPB.
#[verifier::opaque]
pub open spec fn hdelay_list_at(
    s: Seq<bool>,
    p: nat,
    width: u32,
    with_alt: bool,
    n: u64,
) -> Read<Seq<SeiInitialCpbDelays>> {
    rep_at(hdelay_list_item(s, width, with_alt), p, n as nat)
}

/// The bits `a` followed by the items.
#[verifier::opaque]
pub open spec fn put_hdelay_list(
    a: Seq<bool>,
    xs: Seq<SeiInitialCpbDelays>,
    width: u32,
    with_alt: bool,
    n: u64,
) -> Seq<bool> {
    put_rep(put_hdelay_list_item(width, with_alt), a, xs)
}

/// `n` items that reading can give.
#[verifier::opaque]
pub open spec fn hdelay_list_ok(xs: Seq<SeiInitialCpbDelays>, width: u32, with_alt: bool, n: u64) -> bool {
    xs.len() == n
        && forall|i: int| 0 <= i < xs.len()
        ==> hdelays_ok(#[trigger] xs[i], width, with_alt)
        && hdelays_can(xs[i], width, with_alt)
}

/// `n` items that the writer accepts.
#[verifier::opaque]
pub open spec fn hdelay_list_can(xs: Seq<SeiInitialCpbDelays>, width: u32, with_alt: bool, n: u64) -> bool {
    xs.len() == n && forall|i: int| 0 <= i < xs.len() ==> hdelays_can(#[trigger] xs[i], width, with_alt)
}

/// Parses `n` items, each the initial removal delays of a CPB.
fn parse_hdelay_list(
    r: &mut BitReader<'_>,
    width: u32,
    with_alt: bool,
    n: u64,
) -> (res: Result<Vec<SeiInitialCpbDelays>, BitstreamError>)
    requires
        width <= 32,
    ensures
        read_vec_is(hdelay_list_at(old(r).bits(), old(r).pos(), width, with_alt, n), res, *old(r), *final(r)),
        res matches Ok(v) ==> v@.len() == n,
{
    let ghost s = r.bits();
    let ghost p = r.pos();
    let ghost reads = hdelay_list_item(s, width, with_alt);
    let mut xs: Vec<SeiInitialCpbDelays> = Vec::new();
    let mut i: u64 = 0;
    proof {
        reveal(hdelay_list_at);
    }
    while i < n
        invariant
            i <= n,
            xs@.len() == i,
                width <= 32,
            reads == hdelay_list_item(s, width, with_alt),
            s == r.bits(),
            s == old(r).bits(),
            p == old(r).pos(),
            r.bytes() == old(r).bytes(),
            rep_at(reads, p, i as nat) == Ok::<(Seq<SeiInitialCpbDelays>, nat), Fault>((xs@, r.pos())),
        decreases n - i,
    {
        match parse_hdelays(r, width, with_alt) {
            Ok(x) => {
                xs.push(x);
            },
            Err(e) => {
                proof {
                    reveal(hdelay_list_at);
                    lemma_rep_err(reads, p, (i + 1) as nat, n as nat);
                }
                return Err(e);
            },
        }
        i = i + 1;
    }
    Ok(xs)
}

/// Emits `n` items, each the initial removal delays of a CPB.
fn write_hdelay_list(
    w: &mut BitWriter,
    xs: &Vec<SeiInitialCpbDelays>,
    width: u32,
    with_alt: bool,
    n: u64,
    name: &str,
) -> (res: Result<(), BitstreamError>)
    requires
        width <= 32,
    ensures
        write_is(
            hdelay_list_can(xs@, width, with_alt, n),
            put_hdelay_list(old(w)@, xs@, width, with_alt, n),
            res,
            final(w)@,
        ),
        res is Ok ==> xs@.len() == n,
{
    let ghost before = w@;
    let ghost puts = put_hdelay_list_item(width, with_alt);
    let ghost ys = xs@;
    proof {
        reveal(put_hdelay_list);
        reveal(hdelay_list_can);
        assert(ys.take(0) =~= Seq::empty());
    }
    if xs.len() as u64 != n {
        return Err(
            if n == 0 {
                Message::new("")
                    .with(name)
                    .with(" initial-delay list present without the matching hrd_parameters() presence flag (D.2.2)")
                    .invalid()
            } else {
                Message::new("")
                    .with(name)
                    .with(" initial-delay list has ")
                    .num(xs.len() as i128)
                    .with(" entries, CpbCnt is ")
                    .num(n as i128)
                    .with(" (D.2.2)")
                    .invalid()
            },
        );
    }
    let mut i: usize = 0;
    while i < xs.len()
        invariant
            i <= xs@.len(),
            xs@.len() == n,
            ys == xs@,
            ys.len() == xs@.len(),
                width <= 32,
            before == old(w)@,
            puts == put_hdelay_list_item(width, with_alt),
            w@ == put_rep(puts, before, ys.take(i as int)),
            forall|j: int| 0 <= j < i ==> hdelays_can(#[trigger] ys[j], width, with_alt),
        ensures
            i == xs@.len(),
        decreases xs@.len() - i,
    {
        proof {
            assert(ys.take(i + 1).drop_last() =~= ys.take(i as int));
            assert(ys[i as int] == xs@[i as int]);
        }
        match write_hdelays(w, &xs[i], width, with_alt) {
            Ok(()) => {},
            Err(e) => {
                proof {
                    reveal(hdelay_list_can);
                }
                return Err(e);
            },
        }
        i = i + 1;
    }
    proof {
        assert(ys.take(i as int) =~= ys);
    }
    Ok(())
}

/// Writing what was read gives back the bits that were read.
pub broadcast proof fn law_put_hdelay_list_at(s: Seq<bool>, p: nat, width: u32, with_alt: bool, n: u64)
    requires
        width <= 32,
    ensures
        #[trigger] hdelay_list_at(s, p, width, with_alt, n) matches Ok((xs, q)) ==> {
            &&& xs.len() == n
            &&& hdelay_list_ok(xs, width, with_alt, n)
            &&& hdelay_list_can(xs, width, with_alt, n)
            &&& within(s, q)
                ==> within(s, p)
                && put_hdelay_list(upto(s, p), xs, width, with_alt, n) == upto(s, q)
        },
{
    broadcast use law_put_hdelays_at;

    reveal(hdelay_list_at);
    reveal(put_hdelay_list);
    reveal(hdelay_list_ok);
    reveal(hdelay_list_can);
    let ok = hdelay_list_item_ok(width, with_alt);
    law_put_rep_at(
        s,
        hdelay_list_item(s, width, with_alt),
        put_hdelay_list_item(width, with_alt),
        ok,
        p,
        n as nat,
    );
    if let Ok((xs, q)) = hdelay_list_at(s, p, width, with_alt, n) {
        assert forall|i: int| 0 <= i < xs.len() implies ok(xs.take(i), #[trigger] xs[i]) by {}
    }
}

/// What was written reads back as the items that were written.
pub broadcast proof fn law_pre_put_hdelay_list(
    a: Seq<bool>,
    xs: Seq<SeiInitialCpbDelays>,
    width: u32,
    with_alt: bool,
    n: u64,
    s: Seq<bool>,
)
    requires
        #[trigger] pre(put_hdelay_list(a, xs, width, with_alt, n), s),
        hdelay_list_ok(xs, width, with_alt, n),
        width <= 32,
    ensures
        pre(a, s),
        hdelay_list_can(xs, width, with_alt, n),
        hdelay_list_at(s, a.len(), width, with_alt, n) == Ok::<(Seq<SeiInitialCpbDelays>, nat), Fault>(
            (xs, put_hdelay_list(a, xs, width, with_alt, n).len()),
        ),
{
    broadcast use law_pre_put_hdelays;

    reveal(hdelay_list_at);
    reveal(put_hdelay_list);
    reveal(hdelay_list_ok);
    reveal(hdelay_list_can);
    law_rep_at_put(
        s,
        hdelay_list_item(s, width, with_alt),
        put_hdelay_list_item(width, with_alt),
        hdelay_list_item_ok(width, with_alt),
        a,
        xs,
    );
}

/// `n` items stand one behind the other: `n - 1` items, and then the initial
/// removal delays of a CPB.
pub proof fn law_layout_hdelay_list(
    s: Seq<bool>,
    p: nat,
    width: u32,
    with_alt: bool,
    n: u64,
    xs: Seq<SeiInitialCpbDelays>,
    q: nat,
)
    ensures
        hdelay_list_at(s, p, width, with_alt, n) == Ok::<(Seq<SeiInitialCpbDelays>, nat), Fault>((xs, q)) <==> if n == 0 {
            xs.len() == 0 && q == p
        } else {
            &&& xs.len() == n
            &&& cursor(s, p)
                .part(|p: nat| hdelay_list_at(s, p, width, with_alt, (n - 1) as u64), xs.drop_last())
                .part(|p: nat| hdelays_at(s, p, width, with_alt), xs.last())
                .ends(q)
        },
{
    reveal(hdelay_list_at);
    lemma_rep_step(hdelay_list_item(s, width, with_alt), p, n as nat);
    if xs.len() == 0 {
        assert(xs =~= Seq::empty());
    } else {
        assert(xs =~= xs.drop_last().push(xs.last()));
    }
    if n > 0 {
        if let Ok((done, r)) = rep_at(hdelay_list_item(s, width, with_alt), p, (n - 1) as nat) {
            if let Ok((y, z)) = hdelay_list_item(s, width, with_alt)(done, r) {
                assert(done.push(y).drop_last() =~= done);
            }
        }
    }
}

/// What the writer accepts as `n` items reads back, where each of them is one that
/// reading can give.
pub proof fn law_reads_hdelay_list(
    a: Seq<bool>,
    xs: Seq<SeiInitialCpbDelays>,
    width: u32,
    with_alt: bool,
    n: u64,
    s: Seq<bool>,
)
    requires
        hdelay_list_can(xs, width, with_alt, n),
        forall|i: int| 0 <= i < xs.len() ==> hdelays_ok(#[trigger] xs[i], width, with_alt),
        pre(put_hdelay_list(a, xs, width, with_alt, n), s),
        width <= 32,
    ensures
        xs.len() == n,
        hdelay_list_at(s, a.len(), width, with_alt, n) == Ok::<(Seq<SeiInitialCpbDelays>, nat), Fault>(
            (xs, put_hdelay_list(a, xs, width, with_alt, n).len()),
        ),
{
    reveal(hdelay_list_can);
    assert(hdelay_list_ok(xs, width, with_alt, n)) by {
        reveal(hdelay_list_ok);
    }
    law_pre_put_hdelay_list(a, xs, width, with_alt, n, s);
}

/// Reading the items never fails.
pub broadcast proof fn law_faults_hdelay_list(s: Seq<bool>, p: nat, width: u32, with_alt: bool, n: u64)
    ensures
        #[trigger] hdelay_list_at(s, p, width, with_alt, n) is Ok,
{
    broadcast use law_faults_hdelays;

    reveal(hdelay_list_at);
    let f = hdelay_list_item(s, width, with_alt);
    assert forall|done: Seq<SeiInitialCpbDelays>, q: nat| (#[trigger] f(done, q)) is Ok by {}
    lemma_rep_faults_none(f, p, n as nat);
}

/// The fields of a [`SeiBufferingPeriod`] before its payload extension.
pub struct HevcBpBody {
    pub bp_seq_parameter_set_id: u32,
    pub irap_cpb_params_present_flag: bool,
    pub cpb_delay_offset: u32,
    pub dpb_delay_offset: u32,
    pub concatenation_flag: bool,
    pub au_cpb_removal_delay_delta_minus1: u32,
    pub nal_delays: Vec<SeiInitialCpbDelays>,
    pub vcl_delays: Vec<SeiInitialCpbDelays>,
}

/// The mathematical model of a [`HevcBpBody`].
pub struct HevcBpBodyModel {
    pub bp_seq_parameter_set_id: u32,
    pub irap_cpb_params_present_flag: bool,
    pub cpb_delay_offset: u32,
    pub dpb_delay_offset: u32,
    pub concatenation_flag: bool,
    pub au_cpb_removal_delay_delta_minus1: u32,
    pub nal_delays: Seq<SeiInitialCpbDelays>,
    pub vcl_delays: Seq<SeiInitialCpbDelays>,
}

impl View for HevcBpBody {
    type V = HevcBpBodyModel;

    open spec fn view(&self) -> HevcBpBodyModel {
        HevcBpBodyModel {
            bp_seq_parameter_set_id: self.bp_seq_parameter_set_id,
            irap_cpb_params_present_flag: self.irap_cpb_params_present_flag,
            cpb_delay_offset: self.cpb_delay_offset,
            dpb_delay_offset: self.dpb_delay_offset,
            concatenation_flag: self.concatenation_flag,
            au_cpb_removal_delay_delta_minus1: self.au_cpb_removal_delay_delta_minus1,
            nal_delays: self.nal_delays@,
            vcl_delays: self.vcl_delays@,
        }
    }
}

/// `buffering_period()` (§D.2.2) up to its payload extension at position `p`.
#[verifier::opaque]
pub open spec fn hbp_at(s: Seq<bool>, p: nat, ctx: SeiHrdContextModel) -> Read<HevcBpBodyModel> {
    if !(ctx.sub_layer_id < ctx.hrd.sub_layers.len()) { Err(Fault::Invalid) } else {
    let cpb_cnt = (ctx.hrd.sub_layers[ctx.sub_layer_id as int].cpb_cnt_minus1 as u64 + 1) as u64;
    match ue_at(s, p) { Err(f) => Err(f), Ok((bp_seq_parameter_set_id, p)) => {
    if bp_seq_parameter_set_id > 15 { Err(Fault::Invalid) } else {
    let irap_cpb_params_present_flag = flag_if(s, p, !ctx.hrd.sub_pic_hrd_params_present_flag, false);
    let p = adv_if(p, 1, !ctx.hrd.sub_pic_hrd_params_present_flag);
    let au_len = if irap_cpb_params_present_flag {
        (ctx.hrd.au_cpb_removal_delay_length_minus1 as u32 + 1) as u32
    } else {
        0
    };
    let dpb_len = if irap_cpb_params_present_flag {
        (ctx.hrd.dpb_output_delay_length_minus1 as u32 + 1) as u32
    } else {
        0
    };
    if !(au_len <= 32 && dpb_len <= 32) { Err(Fault::Invalid) } else {
    let cpb_delay_offset = u32_if(s, p, au_len as nat, irap_cpb_params_present_flag, 0);
    let p = adv_if(p, au_len as nat, irap_cpb_params_present_flag);
    let dpb_delay_offset = u32_if(s, p, dpb_len as nat, irap_cpb_params_present_flag, 0);
    let p = adv_if(p, dpb_len as nat, irap_cpb_params_present_flag);
    let concatenation_flag = flag_if(s, p, irap_cpb_params_present_flag, false);
    let p = adv_if(p, 1, irap_cpb_params_present_flag);
    let au_cpb_removal_delay_delta_minus1 = u32_if(s, p, au_len as nat, irap_cpb_params_present_flag, 0);
    let p = adv_if(p, au_len as nat, irap_cpb_params_present_flag);
    let with_alt = ctx.hrd.sub_pic_hrd_params_present_flag || irap_cpb_params_present_flag;
    let any = ctx.hrd.nal_hrd_parameters_present_flag || ctx.hrd.vcl_hrd_parameters_present_flag;
    let init_len = if any { (ctx.hrd.initial_cpb_removal_delay_length_minus1 as u32 + 1) as u32 } else { 0 };
    if init_len > 32 { Err(Fault::Invalid) } else {
    match hdelay_list_at(
        s,
        p,
        init_len,
        with_alt,
        (if ctx.hrd.nal_hrd_parameters_present_flag { cpb_cnt } else { 0u64 }),
    )
    { Err(f) => Err(f), Ok((nal_delays, p)) => {
    match hdelay_list_at(
        s,
        p,
        init_len,
        with_alt,
        (if ctx.hrd.vcl_hrd_parameters_present_flag { cpb_cnt } else { 0u64 }),
    )
    { Err(f) => Err(f), Ok((vcl_delays, p)) => {
    Ok((
        HevcBpBodyModel {
            bp_seq_parameter_set_id,
            irap_cpb_params_present_flag,
            cpb_delay_offset,
            dpb_delay_offset,
            concatenation_flag,
            au_cpb_removal_delay_delta_minus1,
            nal_delays,
            vcl_delays,
        },
        p,
    ))
    }}}}}}}}}}
}

/// The bits `a` followed by `buffering_period()` (§D.2.2) up to its payload
/// extension.
#[verifier::opaque]
pub open spec fn put_hbp(a: Seq<bool>, x: HevcBpBodyModel, ctx: SeiHrdContextModel) -> Seq<bool> {
    let cpb_cnt = (ctx.hrd.sub_layers[ctx.sub_layer_id as int].cpb_cnt_minus1 as u64 + 1) as u64;
    let a = put_ue(a, x.bp_seq_parameter_set_id as nat);
    let a = put_flag_if(a, x.irap_cpb_params_present_flag, !ctx.hrd.sub_pic_hrd_params_present_flag);
    let au_len = if x.irap_cpb_params_present_flag {
        (ctx.hrd.au_cpb_removal_delay_length_minus1 as u32 + 1) as u32
    } else {
        0
    };
    let dpb_len = if x.irap_cpb_params_present_flag {
        (ctx.hrd.dpb_output_delay_length_minus1 as u32 + 1) as u32
    } else {
        0
    };
    let a = put_u_if(a, x.cpb_delay_offset as nat, au_len as nat, x.irap_cpb_params_present_flag);
    let a = put_u_if(a, x.dpb_delay_offset as nat, dpb_len as nat, x.irap_cpb_params_present_flag);
    let a = put_flag_if(a, x.concatenation_flag, x.irap_cpb_params_present_flag);
    let a = put_u_if(
        a,
        x.au_cpb_removal_delay_delta_minus1 as nat,
        au_len as nat,
        x.irap_cpb_params_present_flag,
    );
    let with_alt = ctx.hrd.sub_pic_hrd_params_present_flag || x.irap_cpb_params_present_flag;
    let any = ctx.hrd.nal_hrd_parameters_present_flag || ctx.hrd.vcl_hrd_parameters_present_flag;
    let init_len = if any { (ctx.hrd.initial_cpb_removal_delay_length_minus1 as u32 + 1) as u32 } else { 0 };
    let a = put_hdelay_list(
        a,
        x.nal_delays,
        init_len,
        with_alt,
        (if ctx.hrd.nal_hrd_parameters_present_flag { cpb_cnt } else { 0u64 }),
    );
    let a = put_hdelay_list(
        a,
        x.vcl_delays,
        init_len,
        with_alt,
        (if ctx.hrd.vcl_hrd_parameters_present_flag { cpb_cnt } else { 0u64 }),
    );
    a
}

/// The values of `buffering_period()` (§D.2.2) up to its payload extension that
/// reading can give.
#[verifier::opaque]
pub open spec fn hbp_ok(x: HevcBpBodyModel, ctx: SeiHrdContextModel) -> bool {
    &&& ctx.sub_layer_id < ctx.hrd.sub_layers.len()
    &&& {
        let cpb_cnt = (ctx.hrd.sub_layers[ctx.sub_layer_id as int].cpb_cnt_minus1 as u64 + 1) as u64;
        &&& x.bp_seq_parameter_set_id <= 15
        &&& !ctx.hrd.sub_pic_hrd_params_present_flag || !x.irap_cpb_params_present_flag
        &&& {
            let au_len = if x.irap_cpb_params_present_flag {
                (ctx.hrd.au_cpb_removal_delay_length_minus1 as u32 + 1) as u32
            } else {
                0
            };
            let dpb_len = if x.irap_cpb_params_present_flag {
                (ctx.hrd.dpb_output_delay_length_minus1 as u32 + 1) as u32
            } else {
                0
            };
            &&& au_len <= 32 && dpb_len <= 32
            &&& if x.irap_cpb_params_present_flag {
                fits(x.cpb_delay_offset as nat, au_len as nat)
            } else {
                x.cpb_delay_offset == 0
            }
            &&& if x.irap_cpb_params_present_flag {
                fits(x.dpb_delay_offset as nat, dpb_len as nat)
            } else {
                x.dpb_delay_offset == 0
            }
            &&& x.irap_cpb_params_present_flag || !x.concatenation_flag
            &&& if x.irap_cpb_params_present_flag {
                fits(x.au_cpb_removal_delay_delta_minus1 as nat, au_len as nat)
            } else {
                x.au_cpb_removal_delay_delta_minus1 == 0
            }
            &&& {
                let with_alt = ctx.hrd.sub_pic_hrd_params_present_flag || x.irap_cpb_params_present_flag;
                let any = ctx.hrd.nal_hrd_parameters_present_flag || ctx.hrd.vcl_hrd_parameters_present_flag;
                let init_len = if any {
                    (ctx.hrd.initial_cpb_removal_delay_length_minus1 as u32 + 1) as u32
                } else {
                    0
                };
                &&& init_len <= 32
                &&& hdelay_list_ok(
                    x.nal_delays,
                    init_len,
                    with_alt,
                    (if ctx.hrd.nal_hrd_parameters_present_flag { cpb_cnt } else { 0u64 }),
                )
                &&& hdelay_list_ok(
                    x.vcl_delays,
                    init_len,
                    with_alt,
                    (if ctx.hrd.vcl_hrd_parameters_present_flag { cpb_cnt } else { 0u64 }),
                )
            }
        }
    }
}

/// The values of `buffering_period()` (§D.2.2) up to its payload extension that
/// the writer accepts.
#[verifier::opaque]
pub open spec fn hbp_can(x: HevcBpBodyModel, ctx: SeiHrdContextModel) -> bool {
    &&& ctx.sub_layer_id < ctx.hrd.sub_layers.len()
    &&& {
        let cpb_cnt = (ctx.hrd.sub_layers[ctx.sub_layer_id as int].cpb_cnt_minus1 as u64 + 1) as u64;
        &&& x.bp_seq_parameter_set_id <= 15
        &&& !ctx.hrd.sub_pic_hrd_params_present_flag || !x.irap_cpb_params_present_flag
        &&& {
            let au_len = if x.irap_cpb_params_present_flag {
                (ctx.hrd.au_cpb_removal_delay_length_minus1 as u32 + 1) as u32
            } else {
                0
            };
            let dpb_len = if x.irap_cpb_params_present_flag {
                (ctx.hrd.dpb_output_delay_length_minus1 as u32 + 1) as u32
            } else {
                0
            };
            &&& au_len <= 32 && dpb_len <= 32
            &&& !x.irap_cpb_params_present_flag || fits(x.cpb_delay_offset as nat, au_len as nat)
            &&& !x.irap_cpb_params_present_flag || fits(x.dpb_delay_offset as nat, dpb_len as nat)
            &&& !x.irap_cpb_params_present_flag
                || fits(x.au_cpb_removal_delay_delta_minus1 as nat, au_len as nat)
            &&& {
                let with_alt = ctx.hrd.sub_pic_hrd_params_present_flag || x.irap_cpb_params_present_flag;
                let any = ctx.hrd.nal_hrd_parameters_present_flag || ctx.hrd.vcl_hrd_parameters_present_flag;
                let init_len = if any {
                    (ctx.hrd.initial_cpb_removal_delay_length_minus1 as u32 + 1) as u32
                } else {
                    0
                };
                &&& init_len <= 32
                &&& hdelay_list_can(
                    x.nal_delays,
                    init_len,
                    with_alt,
                    (if ctx.hrd.nal_hrd_parameters_present_flag { cpb_cnt } else { 0u64 }),
                )
                &&& hdelay_list_can(
                    x.vcl_delays,
                    init_len,
                    with_alt,
                    (if ctx.hrd.vcl_hrd_parameters_present_flag { cpb_cnt } else { 0u64 }),
                )
            }
        }
    }
}

/// Parses `buffering_period()` (§D.2.2) up to its payload extension.
fn parse_hbp(r: &mut BitReader<'_>, ctx: &SeiHrdContext<'_>) -> (res: Result<HevcBpBody, BitstreamError>)
    ensures
        read_view_is(hbp_at(old(r).bits(), old(r).pos(), ctx@), res, *old(r), *final(r)),
{
    proof {
        reveal(hbp_at);
    }
    if !(ctx.sub_layer_id < ctx.hrd.sub_layers.len()) {
        return Err(
            Message::new("sub_layer_id ")
                .num(ctx.sub_layer_id as i128)
                .with(" outside the hrd_parameters() sub-layer list (len ")
                .num(ctx.hrd.sub_layers.len() as i128)
                .with(")")
                .invalid(),
        );
    }
    let cpb_cnt: u64 = ctx.hrd.sub_layers[ctx.sub_layer_id].cpb_cnt_minus1 as u64 + 1;
    let bp_seq_parameter_set_id: u32 = r.ue()?;
    if bp_seq_parameter_set_id > 15 {
        return Err(
            Message::new("bp_seq_parameter_set_id = ")
                .num(bp_seq_parameter_set_id as i128)
                .with(" > 15 (D.3.2)")
                .invalid(),
        );
    }
    let irap_cpb_params_present_flag: bool = r.flag_if(!ctx.hrd.sub_pic_hrd_params_present_flag, false);
    let au_len: u32 = if irap_cpb_params_present_flag {
        ctx.hrd.au_cpb_removal_delay_length_minus1 as u32 + 1
    } else {
        0
    };
    let dpb_len: u32 = if irap_cpb_params_present_flag {
        ctx.hrd.dpb_output_delay_length_minus1 as u32 + 1
    } else {
        0
    };
    if !(au_len <= 32 && dpb_len <= 32) {
        return Err(
            BitstreamError::invalid("buffering_period with hrd_parameters() whose lengths are out of range"),
        );
    }
    let cpb_delay_offset: u32 = r.u_if(au_len, irap_cpb_params_present_flag, 0);
    let dpb_delay_offset: u32 = r.u_if(dpb_len, irap_cpb_params_present_flag, 0);
    let concatenation_flag: bool = r.flag_if(irap_cpb_params_present_flag, false);
    let au_cpb_removal_delay_delta_minus1: u32 = r.u_if(au_len, irap_cpb_params_present_flag, 0);
    let with_alt: bool = ctx.hrd.sub_pic_hrd_params_present_flag || irap_cpb_params_present_flag;
    let any: bool = ctx.hrd.nal_hrd_parameters_present_flag || ctx.hrd.vcl_hrd_parameters_present_flag;
    let init_len: u32 = if any { ctx.hrd.initial_cpb_removal_delay_length_minus1 as u32 + 1 } else { 0 };
    if init_len > 32 {
        return Err(
            BitstreamError::invalid(
                "buffering_period with hrd_parameters() whose initial delay length is out of range",
            ),
        );
    }
    let nal_delays = parse_hdelay_list(
        r,
        init_len,
        with_alt,
        (if ctx.hrd.nal_hrd_parameters_present_flag { cpb_cnt } else { 0u64 }),
    )?;
    let vcl_delays = parse_hdelay_list(
        r,
        init_len,
        with_alt,
        (if ctx.hrd.vcl_hrd_parameters_present_flag { cpb_cnt } else { 0u64 }),
    )?;
    Ok(
        HevcBpBody {
            bp_seq_parameter_set_id,
            irap_cpb_params_present_flag,
            cpb_delay_offset,
            dpb_delay_offset,
            concatenation_flag,
            au_cpb_removal_delay_delta_minus1,
            nal_delays,
            vcl_delays,
        },
    )
}

/// Emits `buffering_period()` (§D.2.2) up to its payload extension, the inverse
/// of [`parse_hbp`].
fn write_hbp(
    w: &mut BitWriter,
    x: &SeiBufferingPeriod,
    ctx: &SeiHrdContext<'_>,
) -> (res: Result<(), BitstreamError>)
    ensures
        write_is(hbp_can(x@.body, ctx@), put_hbp(old(w)@, x@.body, ctx@), res, final(w)@),
{
    proof {
        reveal(put_hbp);
        reveal(hbp_can);
    }
    if !(ctx.sub_layer_id < ctx.hrd.sub_layers.len()) {
        return Err(
            Message::new("sub_layer_id ")
                .num(ctx.sub_layer_id as i128)
                .with(" outside the hrd_parameters() sub-layer list (len ")
                .num(ctx.hrd.sub_layers.len() as i128)
                .with(")")
                .invalid(),
        );
    }
    let cpb_cnt: u64 = ctx.hrd.sub_layers[ctx.sub_layer_id].cpb_cnt_minus1 as u64 + 1;
    w.write_ue(x.bp_seq_parameter_set_id)?;
    if x.bp_seq_parameter_set_id > 15 {
        return Err(BitstreamError::invalid("bp_seq_parameter_set_id > 15 (D.3.2)"));
    }
    if !(!ctx.hrd.sub_pic_hrd_params_present_flag || !x.irap_cpb_params_present_flag) {
        return Err(
            BitstreamError::invalid(
                "irap_cpb_params_present_flag cannot be set with sub-pic HRD params (D.2.2 NOTE 2)",
            ),
        );
    }
    w.write_flag_if(x.irap_cpb_params_present_flag, !ctx.hrd.sub_pic_hrd_params_present_flag);
    let au_len: u32 = if x.irap_cpb_params_present_flag {
        ctx.hrd.au_cpb_removal_delay_length_minus1 as u32 + 1
    } else {
        0
    };
    let dpb_len: u32 = if x.irap_cpb_params_present_flag {
        ctx.hrd.dpb_output_delay_length_minus1 as u32 + 1
    } else {
        0
    };
    if !(au_len <= 32 && dpb_len <= 32) {
        return Err(
            BitstreamError::invalid("buffering_period with hrd_parameters() whose lengths are out of range"),
        );
    }
    if !(!x.irap_cpb_params_present_flag || fits_bits(x.cpb_delay_offset, au_len)) {
        return Err(
            Message::new("cpb_delay_offset = ")
                .num(x.cpb_delay_offset as i128)
                .with(" does not fit u(")
                .num(au_len as i128)
                .with(")")
                .invalid(),
        );
    }
    w.write_bits_if(x.cpb_delay_offset, au_len, x.irap_cpb_params_present_flag);
    if !(!x.irap_cpb_params_present_flag || fits_bits(x.dpb_delay_offset, dpb_len)) {
        return Err(
            Message::new("dpb_delay_offset = ")
                .num(x.dpb_delay_offset as i128)
                .with(" does not fit u(")
                .num(dpb_len as i128)
                .with(")")
                .invalid(),
        );
    }
    w.write_bits_if(x.dpb_delay_offset, dpb_len, x.irap_cpb_params_present_flag);
    w.write_flag_if(x.concatenation_flag, x.irap_cpb_params_present_flag);
    if !(!x.irap_cpb_params_present_flag || fits_bits(x.au_cpb_removal_delay_delta_minus1, au_len)) {
        return Err(
            Message::new("au_cpb_removal_delay_delta_minus1 = ")
                .num(x.au_cpb_removal_delay_delta_minus1 as i128)
                .with(" does not fit u(")
                .num(au_len as i128)
                .with(")")
                .invalid(),
        );
    }
    w.write_bits_if(x.au_cpb_removal_delay_delta_minus1, au_len, x.irap_cpb_params_present_flag);
    let with_alt: bool = ctx.hrd.sub_pic_hrd_params_present_flag || x.irap_cpb_params_present_flag;
    let any: bool = ctx.hrd.nal_hrd_parameters_present_flag || ctx.hrd.vcl_hrd_parameters_present_flag;
    let init_len: u32 = if any { ctx.hrd.initial_cpb_removal_delay_length_minus1 as u32 + 1 } else { 0 };
    if init_len > 32 {
        return Err(
            BitstreamError::invalid(
                "buffering_period with hrd_parameters() whose initial delay length is out of range",
            ),
        );
    }
    write_hdelay_list(
        w,
        &x.nal_delays,
        init_len,
        with_alt,
        (if ctx.hrd.nal_hrd_parameters_present_flag { cpb_cnt } else { 0u64 }),
        "NAL",
    )?;
    write_hdelay_list(
        w,
        &x.vcl_delays,
        init_len,
        with_alt,
        (if ctx.hrd.vcl_hrd_parameters_present_flag { cpb_cnt } else { 0u64 }),
        "VCL",
    )?;
    Ok(())
}

/// Writing `buffering_period()` (§D.2.2) up to its payload extension gives back
/// the bits it was read from.
pub broadcast proof fn law_put_hbp_at(s: Seq<bool>, p: nat, ctx: SeiHrdContextModel)
    ensures
        #[trigger] hbp_at(s, p, ctx) matches Ok((x, q)) ==> {
            &&& hbp_ok(x, ctx)
            &&& hbp_can(x, ctx)
            &&& within(s, q) ==> within(s, p) && put_hbp(upto(s, p), x, ctx) == upto(s, q)
        },
{
    broadcast use {crate::bits::group_write_read, law_put_hdelay_list_at};

    reveal(hbp_at);
    reveal(put_hbp);
    reveal(hbp_ok);
    reveal(hbp_can);
}

/// Reading gives back `buffering_period()` (§D.2.2) up to its payload extension
/// as it was written.
pub broadcast proof fn law_pre_put_hbp(
    a: Seq<bool>,
    x: HevcBpBodyModel,
    ctx: SeiHrdContextModel,
    s: Seq<bool>,
)
    requires
        #[trigger] pre(put_hbp(a, x, ctx), s),
        hbp_ok(x, ctx),
    ensures
        pre(a, s),
        hbp_can(x, ctx),
        hbp_at(s, a.len(), ctx) == Ok::<(HevcBpBodyModel, nat), Fault>((x, put_hbp(a, x, ctx).len())),
{
    broadcast use {crate::bits::group_read_written, law_pre_put_hdelay_list};

    reveal(hbp_at);
    reveal(put_hbp);
    reveal(hbp_ok);
    reveal(hbp_can);
}

/// The layout of `buffering_period()` (§D.2.2) up to its payload extension:
/// reading at `p` gives `x` and ends at `q` if and only if these elements stand
/// there in this order, and the values are allowed.
pub proof fn law_layout_hbp(s: Seq<bool>, p: nat, ctx: SeiHrdContextModel, x: HevcBpBodyModel, q: nat)
    ensures
        hbp_at(s, p, ctx) == Ok::<(HevcBpBodyModel, nat), Fault>((x, q)) <==> ({
            let cpb_cnt = (ctx.hrd.sub_layers[ctx.sub_layer_id as int].cpb_cnt_minus1 as u64 + 1) as u64;
            let au_len = if x.irap_cpb_params_present_flag {
                (ctx.hrd.au_cpb_removal_delay_length_minus1 as u32 + 1) as u32
            } else {
                0
            };
            let dpb_len = if x.irap_cpb_params_present_flag {
                (ctx.hrd.dpb_output_delay_length_minus1 as u32 + 1) as u32
            } else {
                0
            };
            let with_alt = ctx.hrd.sub_pic_hrd_params_present_flag || x.irap_cpb_params_present_flag;
            let any = ctx.hrd.nal_hrd_parameters_present_flag || ctx.hrd.vcl_hrd_parameters_present_flag;
            let init_len = if any {
                (ctx.hrd.initial_cpb_removal_delay_length_minus1 as u32 + 1) as u32
            } else {
                0
            };
            &&& cursor(s, p)
                .ue(x.bp_seq_parameter_set_id)
                .flag_if(!ctx.hrd.sub_pic_hrd_params_present_flag, x.irap_cpb_params_present_flag, false)
                .u32_if(x.irap_cpb_params_present_flag, au_len as nat, x.cpb_delay_offset, 0)
                .u32_if(x.irap_cpb_params_present_flag, dpb_len as nat, x.dpb_delay_offset, 0)
                .flag_if(x.irap_cpb_params_present_flag, x.concatenation_flag, false)
                .u32_if(x.irap_cpb_params_present_flag, au_len as nat, x.au_cpb_removal_delay_delta_minus1, 0)
                .part(
                    |p: nat| hdelay_list_at(
                        s,
                        p,
                        init_len,
                        with_alt,
                        (if ctx.hrd.nal_hrd_parameters_present_flag { cpb_cnt } else { 0u64 }),
                    ),
                    x.nal_delays,
                )
                .part(
                    |p: nat| hdelay_list_at(
                        s,
                        p,
                        init_len,
                        with_alt,
                        (if ctx.hrd.vcl_hrd_parameters_present_flag { cpb_cnt } else { 0u64 }),
                    ),
                    x.vcl_delays,
                )
                .ends(q)
            &&& ctx.sub_layer_id < ctx.hrd.sub_layers.len()
            &&& x.bp_seq_parameter_set_id <= 15
            &&& au_len <= 32 && dpb_len <= 32
            &&& init_len <= 32
        }),
{
    reveal(hbp_at);
    reveal(adv_if);
    reveal(flag_if);
    reveal(u32_if);
}

/// Reading `buffering_period()` (§D.2.2) up to its payload extension fails only
/// with an error of this class.
pub broadcast proof fn law_faults_hbp(s: Seq<bool>, p: nat, ctx: SeiHrdContextModel)
    ensures
        #[trigger] hbp_at(s, p, ctx) matches Err(f) ==> f == Fault::Invalid,
{
    broadcast use {crate::bits::law_faults_ue, law_faults_hdelay_list};

    reveal(hbp_at);
}

/// What the writer accepts reads back: `buffering_period()` (§D.2.2) up to its
/// payload extension, where each field fits its width and what is not coded has
/// the value that is taken for it.
pub proof fn law_reads_hbp(a: Seq<bool>, x: HevcBpBodyModel, ctx: SeiHrdContextModel, s: Seq<bool>)
    requires
        hbp_can(x, ctx),
        ({
            let cpb_cnt = (ctx.hrd.sub_layers[ctx.sub_layer_id as int].cpb_cnt_minus1 as u64 + 1) as u64;
            &&& (!(!ctx.hrd.sub_pic_hrd_params_present_flag) ==> x.irap_cpb_params_present_flag == false)
            &&& (!x.irap_cpb_params_present_flag ==> x.cpb_delay_offset == 0)
            &&& (!x.irap_cpb_params_present_flag ==> x.dpb_delay_offset == 0)
            &&& (!x.irap_cpb_params_present_flag ==> x.concatenation_flag == false)
            &&& (!x.irap_cpb_params_present_flag ==> x.au_cpb_removal_delay_delta_minus1 == 0)
            &&& {
                let with_alt = ctx.hrd.sub_pic_hrd_params_present_flag || x.irap_cpb_params_present_flag;
                let any = ctx.hrd.nal_hrd_parameters_present_flag || ctx.hrd.vcl_hrd_parameters_present_flag;
                let init_len = if any {
                    (ctx.hrd.initial_cpb_removal_delay_length_minus1 as u32 + 1) as u32
                } else {
                    0
                };
                &&& hdelay_list_ok(
                    x.nal_delays,
                    init_len,
                    with_alt,
                    (if ctx.hrd.nal_hrd_parameters_present_flag { cpb_cnt } else { 0u64 }),
                )
                &&& hdelay_list_ok(
                    x.vcl_delays,
                    init_len,
                    with_alt,
                    (if ctx.hrd.vcl_hrd_parameters_present_flag { cpb_cnt } else { 0u64 }),
                )
            }
        }),
        pre(put_hbp(a, x, ctx), s),
    ensures
        hbp_at(s, a.len(), ctx) == Ok::<(HevcBpBodyModel, nat), Fault>((x, put_hbp(a, x, ctx).len())),
{
    assert(hbp_ok(x, ctx)) by {
        broadcast use crate::bits::law_fits_small;

        reveal(hbp_ok);
        reveal(hbp_can);
    }
    law_pre_put_hbp(a, x, ctx, s);
}

/// Each field of the model of a [`HevcBpBody`] is the field of that name.
pub proof fn law_view_hbp(x: HevcBpBody)
    ensures
        x@.bp_seq_parameter_set_id == x.bp_seq_parameter_set_id,
        x@.irap_cpb_params_present_flag == x.irap_cpb_params_present_flag,
        x@.cpb_delay_offset == x.cpb_delay_offset,
        x@.dpb_delay_offset == x.dpb_delay_offset,
        x@.concatenation_flag == x.concatenation_flag,
        x@.au_cpb_removal_delay_delta_minus1 == x.au_cpb_removal_delay_delta_minus1,
        x@.nal_delays == x.nal_delays@,
        x@.vcl_delays == x.vcl_delays@,
{
}

/// The buffering period that the message `m` holds.
pub open spec fn hevc_bp_of(
    m: SeiMessageModel,
    ctx: SeiHrdContextModel,
) -> Result<SeiBufferingPeriodModel, Fault> {
    let s = bits_of(m.payload);
    if m.payload_type != SEI_TYPE_BUFFERING_PERIOD {
        Err(Fault::Invalid)
    } else {
        match hbp_at(s, 0, ctx) {
            Err(f) => Err(f),
            Ok((body, p)) => match payload_tail_at(s, p) {
                Err(f) => Err(f),
                Ok(ext) => Ok(SeiBufferingPeriodModel { body, use_alt_cpb_params_flag: ext }),
            },
        }
    }
}

/// The bits of the payload that holds `x`.
pub open spec fn hevc_bp_payload(x: SeiBufferingPeriodModel, ctx: SeiHrdContextModel) -> Seq<bool> {
    put_payload_tail(put_hbp(Seq::empty(), x.body, ctx), x.use_alt_cpb_params_flag)
}

/// Decode a `buffering_period()` SEI (§D.2.2) against its HRD
/// context.
pub fn decode_buffering_period(msg: &SeiMessage, ctx: &SeiHrdContext<'_>) -> (res: Result<
    SeiBufferingPeriod,
    BitstreamError,
>)
    ensures
        match hevc_bp_of(msg@, ctx@) {
            Ok(x) => res matches Ok(v) && v@ == x,
            Err(f) => res matches Err(e) && e.fault() == f,
        },
{
    if msg.payload_type != SEI_TYPE_BUFFERING_PERIOD {
        return Err(
            Message::new("expected buffering_period (payloadType 0), got ")
                .num(msg.payload_type as i128)
                .invalid(),
        );
    }
    let mut r = BitReader::new(msg.payload.as_slice());
    let body = parse_hbp(&mut r, ctx)?;
    let use_alt_cpb_params_flag = read_payload_tail(&mut r, "buffering_period")?;
    Ok(
        SeiBufferingPeriod {
            bp_seq_parameter_set_id: body.bp_seq_parameter_set_id,
            irap_cpb_params_present_flag: body.irap_cpb_params_present_flag,
            cpb_delay_offset: body.cpb_delay_offset,
            dpb_delay_offset: body.dpb_delay_offset,
            concatenation_flag: body.concatenation_flag,
            au_cpb_removal_delay_delta_minus1: body.au_cpb_removal_delay_delta_minus1,
            nal_delays: body.nal_delays,
            vcl_delays: body.vcl_delays,
            use_alt_cpb_params_flag,
        },
    )
}

/// Encode a [`SeiBufferingPeriod`] against its HRD context, the
/// inverse of [`decode_buffering_period`].
pub fn encode_buffering_period(bp: &SeiBufferingPeriod, ctx: &SeiHrdContext<'_>) -> (res: Result<
    SeiMessage,
    BitstreamError,
>)
    ensures
        payload_write_is(hbp_can(bp@.body, ctx@), SEI_TYPE_BUFFERING_PERIOD, hevc_bp_payload(bp@, ctx@), res),
{
    let mut w = BitWriter::new();
    write_hbp(&mut w, bp, ctx)?;
    let payload = match bp.use_alt_cpb_params_flag {
        Some(flag) => {
            w.write_flag(flag);
            w.write_rbsp_trailing_bits();
            proof {
                broadcast use lemma_trailing_aligned;

                lemma_pad_aligned(w@);
            }
            w.finish()
        },
        None => finish_payload(w),
    };
    Ok(SeiMessage { payload_type: SEI_TYPE_BUFFERING_PERIOD, payload })
}

/// Encoding what was decoded gives back the payload, if its tail is the one that
/// the encoder writes: the encoder accepts every decoded buffering period, and
/// writes the bits before the tail as they were.
pub proof fn law_encode_decoded_hevc_bp(m: SeiMessageModel, ctx: SeiHrdContextModel)
    requires
        m.payload.len() <= usize::MAX,
    ensures
        hevc_bp_of(m, ctx) matches Ok(x) ==> {
            let s = bits_of(m.payload);
            let p = hbp_at(s, 0, ctx)->Ok_0.1;
            &&& hbp_ok(x.body, ctx)
            &&& hbp_can(x.body, ctx)
            &&& p <= s.len()
            &&& put_hbp(Seq::empty(), x.body, ctx) == s.take(p as int)
            &&& s == put_payload_tail(s.take(p as int), x.use_alt_cpb_params_flag)
                ==> hevc_bp_payload(x, ctx) == s
        },
{
    let s = bits_of(m.payload);
    lemma_bits_of_len(m.payload);
    if let Ok(x) = hevc_bp_of(m, ctx) {
        let p = hbp_at(s, 0, ctx)->Ok_0.1;
        law_put_hbp_at(s, 0, ctx);
        assert(within(s, p)) by {
            reveal(within);
        }
        assert(upto(s, 0) =~= Seq::empty() && upto(s, p) == s.take(p as int)) by {
            reveal(upto);
        }
    }
}

/// Decoding what was encoded gives back the buffering period.
pub proof fn law_decode_encoded_hevc_bp(
    x: SeiBufferingPeriodModel,
    m: SeiMessageModel,
    ctx: SeiHrdContextModel,
)
    requires
        hbp_ok(x.body, ctx),
        m.payload_type == SEI_TYPE_BUFFERING_PERIOD,
        bits_of(m.payload) == hevc_bp_payload(x, ctx),
        m.payload.len() <= usize::MAX,
    ensures
        hbp_can(x.body, ctx),
        hevc_bp_of(m, ctx) == Ok::<SeiBufferingPeriodModel, Fault>(x),
{
    let s = bits_of(m.payload);
    lemma_bits_of_len(m.payload);
    let a = put_hbp(Seq::empty(), x.body, ctx);
    law_tail_written(a, x.use_alt_cpb_params_flag);
    assert(pre(a, s)) by {
        reveal(pre);
    }
    law_pre_put_hbp(Seq::empty(), x.body, ctx, s);
}

/// One decoding unit's entry in pic_timing's sub-picture block
/// (§D.2.3).
#[derive(Debug, Clone, Copy, Default, PartialEq, Eq)]
pub struct SeiPicTimingDu {
    /// `num_nalus_in_du_minus1[i]` ue(v).
    pub num_nalus_in_du_minus1: u32,
    /// `du_cpb_removal_delay_increment_minus1[i]` u(v) — coded only
    /// when `!du_common_cpb_removal_delay_flag` and `i` is not the
    /// last DU.
    pub du_cpb_removal_delay_increment_minus1: Option<u32>,
}

/// `pic_timing()` — §D.2.3 / §D.3.3. All `u(v)` field widths and
/// presence gates come from the [`SeiHrdContext`].
#[derive(Debug, Clone, Default, PartialEq, Eq)]
pub struct SeiPicTiming {
    /// `(pic_struct, source_scan_type, duplicate_flag)` — present iff
    /// the VUI `frame_field_info_present_flag`. `pic_struct` 0..=12
    /// (Table D.2).
    pub frame_field_info: Option<(u8, u8, bool)>,
    /// `au_cpb_removal_delay_minus1` u(v) — present iff
    /// `CpbDpbDelaysPresentFlag`.
    pub au_cpb_removal_delay_minus1: u32,
    /// `pic_dpb_output_delay` u(v) — ditto.
    pub pic_dpb_output_delay: u32,
    /// `pic_dpb_output_du_delay` u(v) — present iff sub-pic HRD
    /// params are present.
    pub pic_dpb_output_du_delay: u32,
    /// `du_common_cpb_removal_delay_increment_minus1` u(v) — `Some`
    /// iff `du_common_cpb_removal_delay_flag`.
    pub du_common_cpb_removal_delay_increment_minus1: Option<u32>,
    /// The decoding-unit list — `Some` iff sub-pic HRD params are
    /// present AND `sub_pic_cpb_params_in_pic_timing_sei_flag`.
    pub decoding_units: Option<Vec<SeiPicTimingDu>>,
}

/// The frame-field information at position `p`.
#[verifier::opaque]
pub open spec fn frame_info_at(s: Seq<bool>, p: nat) -> Read<(u8, u8, bool)> {
    let pic_struct = u8_at(s, p, 4);
    let p = adv(p, 4);
    if pic_struct > 12 { Err(Fault::Invalid) } else {
    let scan_type = u8_at(s, p, 2);
    let p = adv(p, 2);
    let duplicate = flag_at(s, p);
    let p = adv(p, 1);
    Ok(((pic_struct, scan_type, duplicate), p)) }
}

/// The bits `a` followed by the frame-field information.
#[verifier::opaque]
pub open spec fn put_frame_info(a: Seq<bool>, x: (u8, u8, bool)) -> Seq<bool> {
    let a = put_u(a, x.0 as nat, 4);
    let a = put_u(a, x.1 as nat, 2);
    let a = put_flag(a, x.2);
    a
}

/// The values of the frame-field information that reading can give.
#[verifier::opaque]
pub open spec fn frame_info_ok(x: (u8, u8, bool)) -> bool {
    &&& x.0 <= 12
    &&& fits(x.0 as nat, 4)
    &&& fits(x.1 as nat, 2)
}

/// The values of the frame-field information that the writer accepts.
#[verifier::opaque]
pub open spec fn frame_info_can(x: (u8, u8, bool)) -> bool {
    &&& x.0 <= 12 && x.1 <= 3
}

/// Parses the frame-field information.
fn parse_frame_info(r: &mut BitReader<'_>) -> (res: Result<(u8, u8, bool), BitstreamError>)
    ensures
        read_is(frame_info_at(old(r).bits(), old(r).pos()), res, *old(r), *final(r)),
{
    proof {
        reveal(frame_info_at);
    }
    let pic_struct: u8 = r.u8(4);
    if pic_struct > 12 {
        return Err(Message::new("pic_struct = ").num(pic_struct as i128).with(" > 12 (Table D.2)").invalid());
    }
    let scan_type: u8 = r.u8(2);
    let duplicate: bool = r.flag();
    Ok((pic_struct, scan_type, duplicate))
}

/// Emits the frame-field information, the inverse of [`parse_frame_info`].
fn write_frame_info(w: &mut BitWriter, x: &(u8, u8, bool)) -> (res: Result<(), BitstreamError>)
    ensures
        write_is(frame_info_can(*x), put_frame_info(old(w)@, *x), res, final(w)@),
{
    proof {
        reveal(put_frame_info);
        reveal(frame_info_can);
    }
    if !(x.0 <= 12 && x.1 <= 3) {
        return Err(BitstreamError::invalid("pic_struct > 12 or source_scan_type > 3 (Table D.2)"));
    }
    w.write_bits(x.0 as u32, 4);
    w.write_bits(x.1 as u32, 2);
    w.write_flag(x.2);
    Ok(())
}

/// Writing the frame-field information gives back the bits it was read from.
pub broadcast proof fn law_put_frame_info_at(s: Seq<bool>, p: nat)
    ensures
        #[trigger] frame_info_at(s, p) matches Ok((x, q)) ==> {
            &&& frame_info_ok(x)
            &&& frame_info_can(x)
            &&& within(s, q) ==> within(s, p) && put_frame_info(upto(s, p), x) == upto(s, q)
        },
{
    broadcast use crate::bits::group_write_read;

    reveal(frame_info_at);
    reveal(put_frame_info);
    reveal(frame_info_ok);
    reveal(frame_info_can);
}

/// Reading gives back the frame-field information as it was written.
pub broadcast proof fn law_pre_put_frame_info(a: Seq<bool>, x: (u8, u8, bool), s: Seq<bool>)
    requires
        #[trigger] pre(put_frame_info(a, x), s),
        frame_info_ok(x),
    ensures
        pre(a, s),
        frame_info_can(x),
        frame_info_at(s, a.len()) == Ok::<((u8, u8, bool), nat), Fault>((x, put_frame_info(a, x).len())),
{
    broadcast use crate::bits::group_read_written;

    reveal(frame_info_at);
    reveal(put_frame_info);
    reveal(frame_info_ok);
    reveal(frame_info_can);
}

/// The layout of the frame-field information: reading at `p` gives `x` and ends
/// at `q` if and only if these elements stand there in this order, and the
/// values are allowed.
pub proof fn law_layout_frame_info(s: Seq<bool>, p: nat, x: (u8, u8, bool), q: nat)
    ensures
        frame_info_at(s, p) == Ok::<((u8, u8, bool), nat), Fault>((x, q)) <==> ({
            &&& cursor(s, p)
                .u8(4, x.0)
                .u8(2, x.1)
                .flag(x.2)
                .ends(q)
            &&& x.0 <= 12
        }),
{
    reveal(frame_info_at);
}

/// Reading the frame-field information fails only with an error of this class.
pub broadcast proof fn law_faults_frame_info(s: Seq<bool>, p: nat)
    ensures
        #[trigger] frame_info_at(s, p) matches Err(f) ==> f == Fault::Invalid,
{
    reveal(frame_info_at);
}

/// What the writer accepts reads back: the frame-field information, where each
/// field fits its width and what is not coded has the value that is taken for
/// it.
pub proof fn law_reads_frame_info(a: Seq<bool>, x: (u8, u8, bool), s: Seq<bool>)
    requires
        frame_info_can(x),
        pre(put_frame_info(a, x), s),
    ensures
        frame_info_at(s, a.len()) == Ok::<((u8, u8, bool), nat), Fault>((x, put_frame_info(a, x).len())),
{
    assert(frame_info_ok(x)) by {
        broadcast use crate::bits::law_fits_small;

        reveal(frame_info_ok);
        reveal(frame_info_can);
    }
    law_pre_put_frame_info(a, x, s);
}

/// A removal delay increment at position `p`.
#[verifier::opaque]
pub open spec fn increment_at(s: Seq<bool>, p: nat, width: u32) -> Read<u32> {
    let v = u32_at(s, p, width as nat);
    let p = adv(p, width as nat);
    Ok((v, p))
}

/// The bits `a` followed by a removal delay increment.
#[verifier::opaque]
pub open spec fn put_increment(a: Seq<bool>, x: u32, width: u32) -> Seq<bool> {
    let a = put_u(a, x as nat, width as nat);
    a
}

/// The values of a removal delay increment that reading can give.
#[verifier::opaque]
pub open spec fn increment_ok(x: u32, width: u32) -> bool {
    &&& fits(x as nat, width as nat)
}

/// The values of a removal delay increment that the writer accepts.
#[verifier::opaque]
pub open spec fn increment_can(x: u32, width: u32) -> bool {
    &&& fits(x as nat, width as nat)
}

/// Parses a removal delay increment.
fn parse_increment(r: &mut BitReader<'_>, width: u32) -> (res: Result<u32, BitstreamError>)
    requires
        width <= 32,
    ensures
        read_is(increment_at(old(r).bits(), old(r).pos(), width), res, *old(r), *final(r)),
{
    proof {
        reveal(increment_at);
    }
    let v: u32 = r.u(width);
    Ok(v)
}

/// Emits a removal delay increment, the inverse of [`parse_increment`].
fn write_increment(w: &mut BitWriter, x: &u32, width: u32, name: &str) -> (res: Result<(), BitstreamError>)
    requires
        width <= 32,
    ensures
        write_is(increment_can(*x, width), put_increment(old(w)@, *x, width), res, final(w)@),
{
    proof {
        reveal(put_increment);
        reveal(increment_can);
    }
    if !fits_bits(*x, width) {
        return Err(
            Message::new("")
                .with(name)
                .with(" = ")
                .num((*x) as i128)
                .with(" does not fit u(")
                .num(width as i128)
                .with(")")
                .invalid(),
        );
    }
    w.write_bits(*x, width);
    Ok(())
}

/// Writing a removal delay increment gives back the bits it was read from.
pub broadcast proof fn law_put_increment_at(s: Seq<bool>, p: nat, width: u32)
    requires
        width <= 32,
    ensures
        #[trigger] increment_at(s, p, width) matches Ok((x, q)) ==> {
            &&& increment_ok(x, width)
            &&& increment_can(x, width)
            &&& within(s, q) ==> within(s, p) && put_increment(upto(s, p), x, width) == upto(s, q)
        },
{
    broadcast use crate::bits::group_write_read;

    reveal(increment_at);
    reveal(put_increment);
    reveal(increment_ok);
    reveal(increment_can);
}

/// Reading gives back a removal delay increment as it was written.
pub broadcast proof fn law_pre_put_increment(a: Seq<bool>, x: u32, width: u32, s: Seq<bool>)
    requires
        #[trigger] pre(put_increment(a, x, width), s),
        increment_ok(x, width),
        width <= 32,
    ensures
        pre(a, s),
        increment_can(x, width),
        increment_at(s, a.len(), width) == Ok::<(u32, nat), Fault>((x, put_increment(a, x, width).len())),
{
    broadcast use crate::bits::group_read_written;

    reveal(increment_at);
    reveal(put_increment);
    reveal(increment_ok);
    reveal(increment_can);
}

/// The layout of a removal delay increment: reading at `p` gives `x` and ends
/// at `q` if and only if these elements stand there in this order.
pub proof fn law_layout_increment(s: Seq<bool>, p: nat, width: u32, x: u32, q: nat)
    ensures
        increment_at(s, p, width) == Ok::<(u32, nat), Fault>((x, q))
            <==> cursor(s, p).u32(width as nat, x).ends(q),
{
    reveal(increment_at);
}

/// Reading a removal delay increment never fails.
pub broadcast proof fn law_faults_increment(s: Seq<bool>, p: nat, width: u32)
    ensures
        #[trigger] increment_at(s, p, width) is Ok,
{
    reveal(increment_at);
}

/// What the writer accepts reads back: a removal delay increment, where each
/// field fits its width and what is not coded has the value that is taken for
/// it.
pub proof fn law_reads_increment(a: Seq<bool>, x: u32, width: u32, s: Seq<bool>)
    requires
        increment_can(x, width),
        pre(put_increment(a, x, width), s),
        width <= 32,
    ensures
        increment_at(s, a.len(), width) == Ok::<(u32, nat), Fault>((x, put_increment(a, x, width).len())),
{
    assert(increment_ok(x, width)) by {
        broadcast use crate::bits::law_fits_small;

        reveal(increment_ok);
        reveal(increment_can);
    }
    law_pre_put_increment(a, x, width, s);
}

/// A decoding unit at position `p`.
#[verifier::opaque]
pub open spec fn hdu_item_at(
    s: Seq<bool>,
    p: nat,
    k: u64,
    width: u32,
    common: bool,
    last: u64,
) -> Read<SeiPicTimingDu> {
    match ue_at(s, p) { Err(f) => Err(f), Ok((num_nalus_in_du_minus1, p)) => {
    match (if !common && k < last { read_some(increment_at(s, p, width)) } else { Ok((None, p)) })
    { Err(f) => Err(f), Ok((du_cpb_removal_delay_increment_minus1, p)) => {
    Ok((SeiPicTimingDu { num_nalus_in_du_minus1, du_cpb_removal_delay_increment_minus1 }, p))
    }}}}
}

/// The bits `a` followed by a decoding unit.
#[verifier::opaque]
pub open spec fn put_hdu_item(
    a: Seq<bool>,
    x: SeiPicTimingDu,
    k: u64,
    width: u32,
    common: bool,
    last: u64,
) -> Seq<bool> {
    let a = put_ue(a, x.num_nalus_in_du_minus1 as nat);
    let a = match x.du_cpb_removal_delay_increment_minus1 {
        Some(y) => put_increment(a, y, width),
        None => a,
    };
    a
}

/// The values of a decoding unit that reading can give.
#[verifier::opaque]
pub open spec fn hdu_item_ok(x: SeiPicTimingDu, k: u64, width: u32, common: bool, last: u64) -> bool {
    &&& ue_fits(x.num_nalus_in_du_minus1 as nat)
    &&& x.du_cpb_removal_delay_increment_minus1 is Some <==> (!common && k < last)
    &&& x.du_cpb_removal_delay_increment_minus1 matches Some(y) ==> increment_ok(y, width)
}

/// The values of a decoding unit that the writer accepts.
#[verifier::opaque]
pub open spec fn hdu_item_can(x: SeiPicTimingDu, k: u64, width: u32, common: bool, last: u64) -> bool {
    &&& ue_fits(x.num_nalus_in_du_minus1 as nat)
    &&& x.du_cpb_removal_delay_increment_minus1 is Some <==> (!common && k < last)
    &&& x.du_cpb_removal_delay_increment_minus1 matches Some(y) ==> increment_can(y, width)
}

/// Parses a decoding unit.
fn parse_hdu_item(
    r: &mut BitReader<'_>,
    k: u64,
    width: u32,
    common: bool,
    last: u64,
) -> (res: Result<SeiPicTimingDu, BitstreamError>)
    requires
        width <= 32,
    ensures
        read_is(hdu_item_at(old(r).bits(), old(r).pos(), k, width, common, last), res, *old(r), *final(r)),
{
    proof {
        reveal(hdu_item_at);
    }
    let num_nalus_in_du_minus1: u32 = r.ue()?;
    let du_cpb_removal_delay_increment_minus1 = if !common && k < last {
        Some(parse_increment(r, width)?)
    } else {
        None
    };
    Ok(SeiPicTimingDu { num_nalus_in_du_minus1, du_cpb_removal_delay_increment_minus1 })
}

/// Emits a decoding unit, the inverse of [`parse_hdu_item`].
fn write_hdu_item(
    w: &mut BitWriter,
    x: &SeiPicTimingDu,
    k: u64,
    width: u32,
    common: bool,
    last: u64,
) -> (res: Result<(), BitstreamError>)
    requires
        width <= 32,
    ensures
        write_is(
            hdu_item_can(*x, k, width, common, last),
            put_hdu_item(old(w)@, *x, k, width, common, last),
            res,
            final(w)@,
        ),
{
    proof {
        reveal(put_hdu_item);
        reveal(hdu_item_can);
    }
    w.write_ue(x.num_nalus_in_du_minus1)?;
    if x.du_cpb_removal_delay_increment_minus1.is_some() != (!common && k < last) {
        return Err(
            BitstreamError::invalid(
                "du_cpb_removal_delay_increment_minus1 present iff !du_common_cpb_removal_delay_flag and not the last DU (D.2.3)",
            ),
        );
    }
    if let Some(y) = &x.du_cpb_removal_delay_increment_minus1 {
        write_increment(w, y, width, "du_cpb_removal_delay_increment_minus1")?;
    }
    Ok(())
}

/// Writing a decoding unit gives back the bits it was read from.
pub broadcast proof fn law_put_hdu_item_at(s: Seq<bool>, p: nat, k: u64, width: u32, common: bool, last: u64)
    requires
        width <= 32,
    ensures
        #[trigger] hdu_item_at(s, p, k, width, common, last) matches Ok((x, q)) ==> {
            &&& hdu_item_ok(x, k, width, common, last)
            &&& hdu_item_can(x, k, width, common, last)
            &&& within(s, q)
                ==> within(s, p)
                && put_hdu_item(upto(s, p), x, k, width, common, last) == upto(s, q)
        },
{
    broadcast use {crate::bits::group_write_read, law_put_increment_at};

    reveal(hdu_item_at);
    reveal(put_hdu_item);
    reveal(hdu_item_ok);
    reveal(hdu_item_can);
}

/// Reading gives back a decoding unit as it was written.
pub broadcast proof fn law_pre_put_hdu_item(
    a: Seq<bool>,
    x: SeiPicTimingDu,
    k: u64,
    width: u32,
    common: bool,
    last: u64,
    s: Seq<bool>,
)
    requires
        #[trigger] pre(put_hdu_item(a, x, k, width, common, last), s),
        hdu_item_ok(x, k, width, common, last),
        width <= 32,
    ensures
        pre(a, s),
        hdu_item_can(x, k, width, common, last),
        hdu_item_at(s, a.len(), k, width, common, last) == Ok::<(SeiPicTimingDu, nat), Fault>(
            (x, put_hdu_item(a, x, k, width, common, last).len()),
        ),
{
    broadcast use {crate::bits::group_read_written, law_pre_put_increment};

    reveal(hdu_item_at);
    reveal(put_hdu_item);
    reveal(hdu_item_ok);
    reveal(hdu_item_can);
}

/// The layout of a decoding unit: reading at `p` gives `x` and ends at `q` if
/// and only if these elements stand there in this order.
pub proof fn law_layout_hdu_item(
    s: Seq<bool>,
    p: nat,
    k: u64,
    width: u32,
    common: bool,
    last: u64,
    x: SeiPicTimingDu,
    q: nat,
)
    ensures
        hdu_item_at(s, p, k, width, common, last) == Ok::<(SeiPicTimingDu, nat), Fault>((x, q))
            <==> cursor(s, p)
            .ue(x.num_nalus_in_du_minus1)
            .part_if(
                !common && k < last,
                |p: nat| increment_at(s, p, width),
                x.du_cpb_removal_delay_increment_minus1,
            )
            .ends(q),
{
    reveal(hdu_item_at);
}

/// Reading a decoding unit fails only with an error of this class.
pub broadcast proof fn law_faults_hdu_item(s: Seq<bool>, p: nat, k: u64, width: u32, common: bool, last: u64)
    ensures
        #[trigger] hdu_item_at(s, p, k, width, common, last) matches Err(f) ==> f == Fault::Invalid,
{
    broadcast use {crate::bits::law_faults_ue, law_faults_increment};

    reveal(hdu_item_at);
}

/// What the writer accepts reads back: a decoding unit, where each field fits
/// its width and what is not coded has the value that is taken for it.
pub proof fn law_reads_hdu_item(
    a: Seq<bool>,
    x: SeiPicTimingDu,
    k: u64,
    width: u32,
    common: bool,
    last: u64,
    s: Seq<bool>,
)
    requires
        hdu_item_can(x, k, width, common, last),
        x.du_cpb_removal_delay_increment_minus1 matches Some(y) ==> increment_ok(y, width),
        pre(put_hdu_item(a, x, k, width, common, last), s),
        width <= 32,
    ensures
        hdu_item_at(s, a.len(), k, width, common, last) == Ok::<(SeiPicTimingDu, nat), Fault>(
            (x, put_hdu_item(a, x, k, width, common, last).len()),
        ),
{
    assert(hdu_item_ok(x, k, width, common, last)) by {
        broadcast use crate::bits::law_fits_small;

        reveal(hdu_item_ok);
        reveal(hdu_item_can);
    }
    law_pre_put_hdu_item(a, x, k, width, common, last, s);
}

/// Reads a decoding unit, behind the items before it.
pub open spec fn hdu_items_item(
    s: Seq<bool>,
    width: u32,
    common: bool,
    last: u64,
) -> spec_fn(Seq<SeiPicTimingDu>, nat) -> Read<SeiPicTimingDu> {
    |done: Seq<SeiPicTimingDu>, q: nat| hdu_item_at(s, q, done.len() as u64, width, common, last)
}

/// Writes a decoding unit, behind the items before it.
pub open spec fn put_hdu_items_item(
    width: u32,
    common: bool,
    last: u64,
) -> spec_fn(Seq<bool>, Seq<SeiPicTimingDu>, SeiPicTimingDu) -> Seq<bool> {
    |a: Seq<bool>, done: Seq<SeiPicTimingDu>, x: SeiPicTimingDu| put_hdu_item(
        a,
        x,
        done.len() as u64,
        width,
        common,
        last,
    )
}

/// Whether a decoding unit may follow the items before it.
pub open spec fn hdu_items_item_ok(
    width: u32,
    common: bool,
    last: u64,
) -> spec_fn(Seq<SeiPicTimingDu>, SeiPicTimingDu) -> bool {
    |done: Seq<SeiPicTimingDu>, x: SeiPicTimingDu| hdu_item_ok(x, done.len() as u64, width, common, last)
        && hdu_item_can(x, done.len() as u64, width, common, last)
}

/// `n` items at position `p`, each a decoding unit.
#[verifier::opaque]
pub open spec fn hdu_items_at(
    s: Seq<bool>,
    p: nat,
    width: u32,
    common: bool,
    last: u64,
    n: u64,
) -> Read<Seq<SeiPicTimingDu>> {
    rep_at(hdu_items_item(s, width, common, last), p, n as nat)
}

/// The bits `a` followed by the items.
#[verifier::opaque]
pub open spec fn put_hdu_items(
    a: Seq<bool>,
    xs: Seq<SeiPicTimingDu>,
    width: u32,
    common: bool,
    last: u64,
    n: u64,
) -> Seq<bool> {
    put_rep(put_hdu_items_item(width, common, last), a, xs)
}

/// `n` items that reading can give.
#[verifier::opaque]
pub open spec fn hdu_items_ok(xs: Seq<SeiPicTimingDu>, width: u32, common: bool, last: u64, n: u64) -> bool {
    xs.len() == n
        && forall|i: int| 0 <= i < xs.len()
        ==> hdu_item_ok(#[trigger] xs[i], i as u64, width, common, last)
        && hdu_item_can(xs[i], i as u64, width, common, last)
}

/// `n` items that the writer accepts.
#[verifier::opaque]
pub open spec fn hdu_items_can(xs: Seq<SeiPicTimingDu>, width: u32, common: bool, last: u64, n: u64) -> bool {
    xs.len() == n
        && forall|i: int| 0 <= i < xs.len()
        ==> hdu_item_can(#[trigger] xs[i], i as u64, width, common, last)
}

/// Parses `n` items, each a decoding unit.
fn parse_hdu_items(
    r: &mut BitReader<'_>,
    width: u32,
    common: bool,
    last: u64,
    n: u64,
) -> (res: Result<Vec<SeiPicTimingDu>, BitstreamError>)
    requires
        width <= 32,
    ensures
        read_vec_is(
            hdu_items_at(old(r).bits(), old(r).pos(), width, common, last, n),
            res,
            *old(r),
            *final(r),
        ),
        res matches Ok(v) ==> v@.len() == n,
{
    let ghost s = r.bits();
    let ghost p = r.pos();
    let ghost reads = hdu_items_item(s, width, common, last);
    let mut xs: Vec<SeiPicTimingDu> = Vec::new();
    let mut i: u64 = 0;
    proof {
        reveal(hdu_items_at);
    }
    while i < n
        invariant
            i <= n,
            xs@.len() == i,
                width <= 32,
            reads == hdu_items_item(s, width, common, last),
            s == r.bits(),
            s == old(r).bits(),
            p == old(r).pos(),
            r.bytes() == old(r).bytes(),
            rep_at(reads, p, i as nat) == Ok::<(Seq<SeiPicTimingDu>, nat), Fault>((xs@, r.pos())),
        decreases n - i,
    {
        match parse_hdu_item(r, i, width, common, last) {
            Ok(x) => {
                xs.push(x);
            },
            Err(e) => {
                proof {
                    reveal(hdu_items_at);
                    lemma_rep_err(reads, p, (i + 1) as nat, n as nat);
                }
                return Err(e);
            },
        }
        i = i + 1;
    }
    Ok(xs)
}

/// Emits `n` items, each a decoding unit.
fn write_hdu_items(
    w: &mut BitWriter,
    xs: &Vec<SeiPicTimingDu>,
    width: u32,
    common: bool,
    last: u64,
    n: u64,
) -> (res: Result<(), BitstreamError>)
    requires
        width <= 32,
    ensures
        write_is(
            hdu_items_can(xs@, width, common, last, n),
            put_hdu_items(old(w)@, xs@, width, common, last, n),
            res,
            final(w)@,
        ),
        res is Ok ==> xs@.len() == n,
{
    let ghost before = w@;
    let ghost puts = put_hdu_items_item(width, common, last);
    let ghost ys = xs@;
    proof {
        reveal(put_hdu_items);
        reveal(hdu_items_can);
        assert(ys.take(0) =~= Seq::empty());
    }
    if xs.len() as u64 != n {
        return Err(BitstreamError::invalid("unexpected number of entries"));
    }
    let mut i: usize = 0;
    while i < xs.len()
        invariant
            i <= xs@.len(),
            xs@.len() == n,
            ys == xs@,
            ys.len() == xs@.len(),
                width <= 32,
            before == old(w)@,
            puts == put_hdu_items_item(width, common, last),
            w@ == put_rep(puts, before, ys.take(i as int)),
            forall|j: int| 0 <= j < i ==> hdu_item_can(#[trigger] ys[j], j as u64, width, common, last),
        ensures
            i == xs@.len(),
        decreases xs@.len() - i,
    {
        proof {
            assert(ys.take(i + 1).drop_last() =~= ys.take(i as int));
            assert(ys[i as int] == xs@[i as int]);
        }
        match write_hdu_item(w, &xs[i], i as u64, width, common, last) {
            Ok(()) => {},
            Err(e) => {
                proof {
                    reveal(hdu_items_can);
                }
                return Err(e);
            },
        }
        i = i + 1;
    }
    proof {
        assert(ys.take(i as int) =~= ys);
    }
    Ok(())
}

/// Writing what was read gives back the bits that were read.
pub broadcast proof fn law_put_hdu_items_at(s: Seq<bool>, p: nat, width: u32, common: bool, last: u64, n: u64)
    requires
        width <= 32,
    ensures
        #[trigger] hdu_items_at(s, p, width, common, last, n) matches Ok((xs, q)) ==> {
            &&& xs.len() == n
            &&& hdu_items_ok(xs, width, common, last, n)
            &&& hdu_items_can(xs, width, common, last, n)
            &&& within(s, q)
                ==> within(s, p)
                && put_hdu_items(upto(s, p), xs, width, common, last, n) == upto(s, q)
        },
{
    broadcast use law_put_hdu_item_at;

    reveal(hdu_items_at);
    reveal(put_hdu_items);
    reveal(hdu_items_ok);
    reveal(hdu_items_can);
    let ok = hdu_items_item_ok(width, common, last);
    law_put_rep_at(
        s,
        hdu_items_item(s, width, common, last),
        put_hdu_items_item(width, common, last),
        ok,
        p,
        n as nat,
    );
    if let Ok((xs, q)) = hdu_items_at(s, p, width, common, last, n) {
        assert forall|i: int| 0 <= i < xs.len() implies ok(xs.take(i), #[trigger] xs[i]) by {}
    }
}

/// What was written reads back as the items that were written.
pub broadcast proof fn law_pre_put_hdu_items(
    a: Seq<bool>,
    xs: Seq<SeiPicTimingDu>,
    width: u32,
    common: bool,
    last: u64,
    n: u64,
    s: Seq<bool>,
)
    requires
        #[trigger] pre(put_hdu_items(a, xs, width, common, last, n), s),
        hdu_items_ok(xs, width, common, last, n),
        width <= 32,
    ensures
        pre(a, s),
        hdu_items_can(xs, width, common, last, n),
        hdu_items_at(s, a.len(), width, common, last, n) == Ok::<(Seq<SeiPicTimingDu>, nat), Fault>(
            (xs, put_hdu_items(a, xs, width, common, last, n).len()),
        ),
{
    broadcast use law_pre_put_hdu_item;

    reveal(hdu_items_at);
    reveal(put_hdu_items);
    reveal(hdu_items_ok);
    reveal(hdu_items_can);
    law_rep_at_put(
        s,
        hdu_items_item(s, width, common, last),
        put_hdu_items_item(width, common, last),
        hdu_items_item_ok(width, common, last),
        a,
        xs,
    );
}

/// `n` items stand one behind the other: `n - 1` items, and then a decoding
/// unit.
pub proof fn law_layout_hdu_items(
    s: Seq<bool>,
    p: nat,
    width: u32,
    common: bool,
    last: u64,
    n: u64,
    xs: Seq<SeiPicTimingDu>,
    q: nat,
)
    ensures
        hdu_items_at(s, p, width, common, last, n) == Ok::<(Seq<SeiPicTimingDu>, nat), Fault>((xs, q)) <==> if n == 0 {
            xs.len() == 0 && q == p
        } else {
            &&& xs.len() == n
            &&& cursor(s, p)
                .part(|p: nat| hdu_items_at(s, p, width, common, last, (n - 1) as u64), xs.drop_last())
                .part(|p: nat| hdu_item_at(s, p, (n - 1) as u64, width, common, last), xs.last())
                .ends(q)
        },
{
    reveal(hdu_items_at);
    lemma_rep_step(hdu_items_item(s, width, common, last), p, n as nat);
    if xs.len() == 0 {
        assert(xs =~= Seq::empty());
    } else {
        assert(xs =~= xs.drop_last().push(xs.last()));
    }
    if n > 0 {
        if let Ok((done, r)) = rep_at(hdu_items_item(s, width, common, last), p, (n - 1) as nat) {
            if let Ok((y, z)) = hdu_items_item(s, width, common, last)(done, r) {
                assert(done.push(y).drop_last() =~= done);
            }
        }
    }
}

/// What the writer accepts as `n` items reads back, where each of them is one that
/// reading can give.
pub proof fn law_reads_hdu_items(
    a: Seq<bool>,
    xs: Seq<SeiPicTimingDu>,
    width: u32,
    common: bool,
    last: u64,
    n: u64,
    s: Seq<bool>,
)
    requires
        hdu_items_can(xs, width, common, last, n),
        forall|i: int| 0 <= i < xs.len() ==> hdu_item_ok(#[trigger] xs[i], i as u64, width, common, last),
        pre(put_hdu_items(a, xs, width, common, last, n), s),
        width <= 32,
    ensures
        xs.len() == n,
        hdu_items_at(s, a.len(), width, common, last, n) == Ok::<(Seq<SeiPicTimingDu>, nat), Fault>(
            (xs, put_hdu_items(a, xs, width, common, last, n).len()),
        ),
{
    reveal(hdu_items_can);
    assert(hdu_items_ok(xs, width, common, last, n)) by {
        reveal(hdu_items_ok);
    }
    law_pre_put_hdu_items(a, xs, width, common, last, n, s);
}

/// Reading the items fails only with an error of this class.
pub broadcast proof fn law_faults_hdu_items(s: Seq<bool>, p: nat, width: u32, common: bool, last: u64, n: u64)
    ensures
        #[trigger] hdu_items_at(s, p, width, common, last, n) matches Err(f) ==> f == Fault::Invalid,
{
    broadcast use law_faults_hdu_item;

    reveal(hdu_items_at);
    let f = hdu_items_item(s, width, common, last);
    assert forall|done: Seq<SeiPicTimingDu>, q: nat| (#[trigger] f(done, q)) matches Err(e)
        ==> e == Fault::Invalid by {}
    lemma_rep_faults(f, p, n as nat, |f: Fault| f == Fault::Invalid);
}

proof fn lemma_hdu_room(a: Seq<bool>, x: (Option<u32>, Seq<SeiPicTimingDu>), width: u32, s: Seq<bool>)
    requires
        pre(put_hdu(a, x, width), s),
        hdu_ok(x, width),
    ensures
        bits_left(s, put_ue(a, (x.1.len() - 1) as u32 as nat).len()) >= x.1.len(),
{
    reveal(put_hdu);
    reveal(hdu_ok);
    reveal(put_hdu_items);
    let num = (x.1.len() - 1) as u32;
    let a1 = put_ue(a, num as nat);
    let a2 = put_flag(a1, x.0 is Some);
    let a3 = match x.0 {
        Some(y) => put_increment(a2, y, width),
        None => a2,
    };
    assert(a3.len() >= a1.len()) by {
        reveal(put_flag);
        reveal(put_increment);
        if let Some(y) = x.0 {
            lemma_put_u_shape(a2, y as nat, width as nat);
        }
    }
    let g = put_hdu_items_item(width, x.0 is Some, num as u64);
    assert forall|b: Seq<bool>, d: Seq<SeiPicTimingDu>, y: SeiPicTimingDu| (
        #[trigger] g(b, d, y)
    ).len() >= b.len()
        + 1 by {
        reveal(put_hdu_item);
        let c = put_ue(b, y.num_nalus_in_du_minus1 as nat);
        lemma_put_ue_grows(b, y.num_nalus_in_du_minus1 as nat);
        reveal(put_increment);
        if let Some(v) = y.du_cpb_removal_delay_increment_minus1 {
            lemma_put_u_shape(c, v as nat, width as nat);
        }
    }
    lemma_put_rep_grows(g, a3, x.1, 1);
    assert(bits_left(s, a1.len()) >= x.1.len()) by {
        reveal(pre);
    }
}

/// The decoding units at position `p`, with their common increment.
#[verifier::opaque]
pub open spec fn hdu_at(s: Seq<bool>, p: nat, width: u32) -> Read<(Option<u32>, Seq<SeiPicTimingDu>)> {
    match ue_at(s, p) { Err(f) => Err(f), Ok((num, p)) => {
    if num + 1 > bits_left(s, p) { Err(Fault::End) } else {
    let present = flag_at(s, p);
    let p = adv(p, 1);
    match (if present { read_some(increment_at(s, p, width)) } else { Ok((None, p)) })
    { Err(f) => Err(f), Ok((common, p)) => {
    let has_common = common is Some;
    match hdu_items_at(s, p, width, has_common, num as u64, (num as u64 + 1) as u64)
    { Err(f) => Err(f), Ok((units, p)) => {
    Ok(((common, units), p)) }}}}}}}
}

/// The bits `a` followed by the decoding units.
#[verifier::opaque]
pub open spec fn put_hdu(a: Seq<bool>, x: (Option<u32>, Seq<SeiPicTimingDu>), width: u32) -> Seq<bool> {
    let num = (x.1.len() - 1) as u32;
    let a = put_ue(a, num as nat);
    let a = put_flag(a, x.0 is Some);
    let a = match x.0 { Some(y) => put_increment(a, y, width), None => a };
    let has_common = x.0 is Some;
    let a = put_hdu_items(a, x.1, width, has_common, num as u64, (num as u64 + 1) as u64);
    a
}

/// The values of the decoding units that reading can give.
#[verifier::opaque]
pub open spec fn hdu_ok(x: (Option<u32>, Seq<SeiPicTimingDu>), width: u32) -> bool {
    &&& 1 <= x.1.len() && x.1.len() <= 0xffff_ffff
    &&& {
        let num = (x.1.len() - 1) as u32;
        &&& ue_fits(num as nat)
        &&& x.0 matches Some(y) ==> increment_ok(y, width)
        &&& {
            let has_common = x.0 is Some;
            &&& hdu_items_ok(x.1, width, has_common, num as u64, (num as u64 + 1) as u64)
        }
    }
}

/// The values of the decoding units that the writer accepts.
#[verifier::opaque]
pub open spec fn hdu_can(x: (Option<u32>, Seq<SeiPicTimingDu>), width: u32) -> bool {
    &&& 1 <= x.1.len() && x.1.len() <= 0xffff_ffff
    &&& {
        let num = (x.1.len() - 1) as u32;
        &&& ue_fits(num as nat)
        &&& x.0 matches Some(y) ==> increment_can(y, width)
        &&& {
            let has_common = x.0 is Some;
            &&& hdu_items_can(x.1, width, has_common, num as u64, (num as u64 + 1) as u64)
        }
    }
}

/// Parses the decoding units.
fn parse_hdu(
    r: &mut BitReader<'_>,
    width: u32,
) -> (res: Result<(Option<u32>, Vec<SeiPicTimingDu>), BitstreamError>)
    requires
        width <= 32,
    ensures
        read_view_is(hdu_at(old(r).bits(), old(r).pos(), width), res, *old(r), *final(r)),
{
    proof {
        reveal(hdu_at);
    }
    let num: u32 = r.ue()?;
    if num as u128 + 1 > r.bits_remaining() {
        return Err(
            BitstreamError::unexpected_end(
                "num_decoding_units_minus1 exceeds the remaining pic_timing payload",
            ),
        );
    }
    let present: bool = r.flag();
    let common = if present { Some(parse_increment(r, width)?) } else { None };
    let has_common: bool = common.is_some();
    let units = parse_hdu_items(r, width, has_common, num as u64, num as u64 + 1)?;
    Ok((common, units))
}

/// Emits the decoding units, the inverse of [`parse_hdu`].
fn write_hdu(
    w: &mut BitWriter,
    x: &(Option<u32>, Vec<SeiPicTimingDu>),
    width: u32,
) -> (res: Result<(), BitstreamError>)
    requires
        width <= 32,
    ensures
        write_is(hdu_can(x@, width), put_hdu(old(w)@, x@, width), res, final(w)@),
{
    proof {
        reveal(put_hdu);
        reveal(hdu_can);
    }
    if !(1 <= x.1.len() && x.1.len() <= 0xffff_ffff) {
        return Err(BitstreamError::invalid("pic_timing decoding-unit list cannot be empty (D.2.3)"));
    }
    let num: u32 = (x.1.len() - 1) as u32;
    w.write_ue(num)?;
    w.write_flag(x.0.is_some());
    if let Some(y) = &x.0 {
        write_increment(w, y, width, "du_common_cpb_removal_delay_increment_minus1")?;
    }
    let has_common: bool = x.0.is_some();
    write_hdu_items(w, &x.1, width, has_common, num as u64, num as u64 + 1)?;
    Ok(())
}

/// Writing the decoding units gives back the bits it was read from.
pub broadcast proof fn law_put_hdu_at(s: Seq<bool>, p: nat, width: u32)
    requires
        width <= 32,
    ensures
        #[trigger] hdu_at(s, p, width) matches Ok((x, q)) ==> {
            &&& hdu_ok(x, width)
            &&& hdu_can(x, width)
            &&& within(s, q) ==> within(s, p) && put_hdu(upto(s, p), x, width) == upto(s, q)
        },
{
    broadcast use {crate::bits::group_write_read, law_put_increment_at, law_put_hdu_items_at};

    reveal(hdu_at);
    reveal(put_hdu);
    reveal(hdu_ok);
    reveal(hdu_can);
}

/// Reading gives back the decoding units as it was written.
pub broadcast proof fn law_pre_put_hdu(
    a: Seq<bool>,
    x: (Option<u32>, Seq<SeiPicTimingDu>),
    width: u32,
    s: Seq<bool>,
)
    requires
        #[trigger] pre(put_hdu(a, x, width), s),
        hdu_ok(x, width),
        width <= 32,
    ensures
        pre(a, s),
        hdu_can(x, width),
        hdu_at(s, a.len(), width) == Ok::<(
            (Option<u32>, Seq<SeiPicTimingDu>),
            nat,
        ), Fault>((x, put_hdu(a, x, width).len())),
{
    broadcast use {crate::bits::group_read_written, law_pre_put_increment, law_pre_put_hdu_items};

    reveal(hdu_at);
    reveal(put_hdu);
    reveal(hdu_ok);
    reveal(hdu_can);
    lemma_hdu_room(a, x, width, s);
}

/// The layout of the decoding units: reading at `p` gives `x` and ends at `q`
/// if and only if these elements stand there in this order.
pub proof fn law_layout_hdu(s: Seq<bool>, p: nat, width: u32, x: (Option<u32>, Seq<SeiPicTimingDu>), q: nat)
    ensures
        hdu_at(s, p, width) == Ok::<((Option<u32>, Seq<SeiPicTimingDu>), nat), Fault>((x, q)) <==> ({
            let c = cursor(s, p);
            let num = c.next_ue();
            let has_common = x.0 is Some;
            &&& c
                .ue(num)
                .room(num + 1)
                .flagged(|p: nat| increment_at(s, p, width), x.0)
                .part(
                    |p: nat| hdu_items_at(s, p, width, has_common, num as u64, (num as u64 + 1) as u64),
                    x.1,
                )
                .ends(q)
        }),
{
    reveal(hdu_at);
}

/// What reads as the decoding units up to this point, and meets the last
/// condition, is refused as too short.
pub proof fn law_refused_hdu(s: Seq<bool>, p: nat, width: u32, x: (Option<u32>, Seq<SeiPicTimingDu>))
    ensures
        ({
            let c = cursor(s, p);
            let num = c.next_ue();
            let c = c.ue(num);
            &&& c.good
            &&& num + 1 > bits_left(s, c.pos)
        }) ==> hdu_at(s, p, width) == Err::<((Option<u32>, Seq<SeiPicTimingDu>), nat), Fault>(Fault::End),
{
    reveal(hdu_at);
}

/// Reading the decoding units never fails with an error of this class.
pub broadcast proof fn law_faults_hdu(s: Seq<bool>, p: nat, width: u32)
    ensures
        #[trigger] hdu_at(s, p, width) matches Err(f) ==> f != Fault::Unsupported,
{
    broadcast use {crate::bits::law_faults_ue, law_faults_increment, law_faults_hdu_items};

    reveal(hdu_at);
}

/// What the writer accepts reads back: the decoding units, where each field
/// fits its width and what is not coded has the value that is taken for it.
pub proof fn law_reads_hdu(a: Seq<bool>, x: (Option<u32>, Seq<SeiPicTimingDu>), width: u32, s: Seq<bool>)
    requires
        hdu_can(x, width),
        ({
            let num = (x.1.len() - 1) as u32;
            &&& x.0 matches Some(y) ==> increment_ok(y, width)
            &&& {
                let has_common = x.0 is Some;
                &&& hdu_items_ok(x.1, width, has_common, num as u64, (num as u64 + 1) as u64)
            }
        }),
        pre(put_hdu(a, x, width), s),
        width <= 32,
    ensures
        hdu_at(s, a.len(), width) == Ok::<(
            (Option<u32>, Seq<SeiPicTimingDu>),
            nat,
        ), Fault>((x, put_hdu(a, x, width).len())),
{
    assert(hdu_ok(x, width)) by {
        broadcast use crate::bits::law_fits_small;

        reveal(hdu_ok);
        reveal(hdu_can);
    }
    law_pre_put_hdu(a, x, width, s);
}

/// The models of the decoding units.
pub open spec fn units_view(v: Option<Vec<SeiPicTimingDu>>) -> Option<Seq<SeiPicTimingDu>> {
    match v {
        Some(x) => Some(x@),
        None => None,
    }
}

/// The decoding units and their common increment at position `p`, none unless
/// `expected`.
#[verifier::opaque]
pub open spec fn hdu_opt_at(s: Seq<bool>, p: nat, width: u32, expected: bool) -> Read<
    (Option<u32>, Option<Seq<SeiPicTimingDu>>),
> {
    if expected {
        match hdu_at(s, p, width) {
            Err(f) => Err(f),
            Ok((x, p)) => Ok(((x.0, Some(x.1)), p)),
        }
    } else {
        Ok(((None, None), p))
    }
}

/// Writes the decoding units.
#[verifier::opaque]
pub open spec fn put_hdu_opt(
    a: Seq<bool>,
    x: (Option<u32>, Option<Seq<SeiPicTimingDu>>),
    width: u32,
    expected: bool,
) -> Seq<bool> {
    match x.1 {
        Some(units) => put_hdu(a, (x.0, units), width),
        None => a,
    }
}

/// A value that reading can give.
#[verifier::opaque]
pub open spec fn hdu_opt_ok(
    x: (Option<u32>, Option<Seq<SeiPicTimingDu>>),
    width: u32,
    expected: bool,
) -> bool {
    match x.1 {
        Some(units) => expected && hdu_ok((x.0, units), width),
        None => !expected && x.0 is None,
    }
}

/// A value that the writer accepts. Without decoding units the common increment
/// is not looked at.
#[verifier::opaque]
pub open spec fn hdu_opt_can(
    x: (Option<u32>, Option<Seq<SeiPicTimingDu>>),
    width: u32,
    expected: bool,
) -> bool {
    match x.1 {
        Some(units) => expected && hdu_can((x.0, units), width),
        None => !expected,
    }
}

/// Writing what was read gives back the bits that were read.
pub broadcast proof fn law_put_hdu_opt_at(s: Seq<bool>, p: nat, width: u32, expected: bool)
    requires
        width <= 32,
    ensures
        #[trigger] hdu_opt_at(s, p, width, expected) matches Ok((x, q)) ==> {
            &&& hdu_opt_ok(x, width, expected)
            &&& hdu_opt_can(x, width, expected)
            &&& within(s, q) ==> within(s, p) && put_hdu_opt(upto(s, p), x, width, expected) == upto(s, q)
        },
{
    reveal(hdu_opt_at);
    reveal(put_hdu_opt);
    reveal(hdu_opt_ok);
    reveal(hdu_opt_can);
    law_put_hdu_at(s, p, width);
}

/// What was written reads back as the value that was written.
pub broadcast proof fn law_pre_put_hdu_opt(
    a: Seq<bool>,
    x: (Option<u32>, Option<Seq<SeiPicTimingDu>>),
    width: u32,
    expected: bool,
    s: Seq<bool>,
)
    requires
        #[trigger] pre(put_hdu_opt(a, x, width, expected), s),
        hdu_opt_ok(x, width, expected),
        width <= 32,
    ensures
        pre(a, s),
        hdu_opt_can(x, width, expected),
        hdu_opt_at(s, a.len(), width, expected) == Ok::<
            ((Option<u32>, Option<Seq<SeiPicTimingDu>>), nat),
            Fault,
        >((x, put_hdu_opt(a, x, width, expected).len())),
{
    reveal(hdu_opt_at);
    reveal(put_hdu_opt);
    reveal(hdu_opt_ok);
    reveal(hdu_opt_can);
    if let Some(units) = x.1 {
        law_pre_put_hdu(a, (x.0, units), width, s);
    }
}

fn parse_hdu_opt(r: &mut BitReader<'_>, width: u32, expected: bool) -> (res: Result<
    (Option<u32>, Option<Vec<SeiPicTimingDu>>),
    BitstreamError,
>)
    requires
        width <= 32,
    ensures
        final(r).bits() == old(r).bits(),
        final(r).bytes() == old(r).bytes(),
        match hdu_opt_at(old(r).bits(), old(r).pos(), width, expected) {
            Ok((x, p)) => res matches Ok(v) && (v.0, units_view(v.1)) == x && final(r).pos() == p,
            Err(f) => res matches Err(e) && e.fault() == f,
        },
{
    proof {
        reveal(hdu_opt_at);
    }
    if expected {
        let (common, units) = parse_hdu(r, width)?;
        Ok((common, Some(units)))
    } else {
        Ok((None, None))
    }
}

fn write_hdu_opt(
    w: &mut BitWriter,
    x: &SeiPicTiming,
    width: u32,
    expected: bool,
    delays: bool,
) -> (res: Result<(), BitstreamError>)
    requires
        width <= 32,
    ensures
        write_is(
            hdu_opt_can(x@.units, width, expected),
            put_hdu_opt(old(w)@, x@.units, width, expected),
            res,
            final(w)@,
        ),
{
    proof {
        reveal(put_hdu_opt);
        reveal(hdu_opt_can);
    }
    match &x.decoding_units {
        Some(units) => {
            if !expected {
                return Err(
                    if delays {
                        BitstreamError::invalid(
                            "decoding_units present iff sub-pic HRD params are signalled in pic_timing SEIs (D.2.3)",
                        )
                    } else {
                        BitstreamError::invalid("decoding_units require CpbDpbDelaysPresentFlag (D.2.3)")
                    },
                );
            }
            let mut copy: Vec<SeiPicTimingDu> = Vec::new();
            let mut i: usize = 0;
            while i < units.len()
                invariant
                    i <= units@.len(),
                    copy@ == units@.take(i as int),
                decreases units@.len() - i,
            {
                copy.push(units[i]);
                proof {
                    assert(copy@ =~= units@.take(i + 1));
                }
                i = i + 1;
            }
            let pair = (x.du_common_cpb_removal_delay_increment_minus1, copy);
            proof {
                assert(copy@ =~= units@);
                assert(pair@ == (x@.units.0, units@));
            }
            write_hdu(w, &pair, width)
        },
        None => {
            if expected {
                return Err(
                    if delays {
                        BitstreamError::invalid(
                            "decoding_units present iff sub-pic HRD params are signalled in pic_timing SEIs (D.2.3)",
                        )
                    } else {
                        BitstreamError::invalid("decoding_units require CpbDpbDelaysPresentFlag (D.2.3)")
                    },
                );
            }
            Ok(())
        },
    }
}

/// The mathematical model of a [`SeiPicTiming`].
pub struct SeiPicTimingModel {
    pub frame_field_info: Option<(u8, u8, bool)>,
    pub au_cpb_removal_delay_minus1: u32,
    pub pic_dpb_output_delay: u32,
    pub pic_dpb_output_du_delay: u32,
    pub units: (Option<u32>, Option<Seq<SeiPicTimingDu>>),
}

impl View for SeiPicTiming {
    type V = SeiPicTimingModel;

    open spec fn view(&self) -> SeiPicTimingModel {
        SeiPicTimingModel {
            frame_field_info: self.frame_field_info,
            au_cpb_removal_delay_minus1: self.au_cpb_removal_delay_minus1,
            pic_dpb_output_delay: self.pic_dpb_output_delay,
            pic_dpb_output_du_delay: self.pic_dpb_output_du_delay,
            units: (self.du_common_cpb_removal_delay_increment_minus1, units_view(self.decoding_units)),
        }
    }
}

/// `pic_timing()` (§D.2.3) at position `p`.
#[verifier::opaque]
pub open spec fn hpt_at(s: Seq<bool>, p: nat, ctx: SeiHrdContextModel) -> Read<SeiPicTimingModel> {
    match (if ctx.frame_field_info_present_flag { read_some(frame_info_at(s, p)) } else { Ok((None, p)) })
    { Err(f) => Err(f), Ok((frame_field_info, p)) => {
    let delays = ctx.hrd.nal_hrd_parameters_present_flag || ctx.hrd.vcl_hrd_parameters_present_flag;
    let au_len = if delays { (ctx.hrd.au_cpb_removal_delay_length_minus1 as u32 + 1) as u32 } else { 0 };
    let dpb_len = if delays { (ctx.hrd.dpb_output_delay_length_minus1 as u32 + 1) as u32 } else { 0 };
    if !(au_len <= 32 && dpb_len <= 32) { Err(Fault::Invalid) } else {
    let au_cpb_removal_delay_minus1 = u32_if(s, p, au_len as nat, delays, 0);
    let p = adv_if(p, au_len as nat, delays);
    let pic_dpb_output_delay = u32_if(s, p, dpb_len as nat, delays, 0);
    let p = adv_if(p, dpb_len as nat, delays);
    let sub_pic = delays && ctx.hrd.sub_pic_hrd_params_present_flag;
    let du_out_len = if sub_pic { (ctx.hrd.dpb_output_delay_du_length_minus1 as u32 + 1) as u32 } else { 0 };
    if du_out_len > 32 { Err(Fault::Invalid) } else {
    let pic_dpb_output_du_delay = u32_if(s, p, du_out_len as nat, sub_pic, 0);
    let p = adv_if(p, du_out_len as nat, sub_pic);
    let expected = sub_pic && ctx.hrd.sub_pic_cpb_params_in_pic_timing_sei_flag;
    let du_len = if expected {
        (ctx.hrd.du_cpb_removal_delay_increment_length_minus1 as u32 + 1) as u32
    } else {
        0
    };
    if du_len > 32 { Err(Fault::Invalid) } else {
    match hdu_opt_at(s, p, du_len, expected) { Err(f) => Err(f), Ok((units, p)) => {
    Ok((
        SeiPicTimingModel {
            frame_field_info,
            au_cpb_removal_delay_minus1,
            pic_dpb_output_delay,
            pic_dpb_output_du_delay,
            units,
        },
        p,
    ))
    }}}}}}}
}

/// The bits `a` followed by `pic_timing()` (§D.2.3).
#[verifier::opaque]
pub open spec fn put_hpt(a: Seq<bool>, x: SeiPicTimingModel, ctx: SeiHrdContextModel) -> Seq<bool> {
    let a = match x.frame_field_info { Some(y) => put_frame_info(a, y), None => a };
    let delays = ctx.hrd.nal_hrd_parameters_present_flag || ctx.hrd.vcl_hrd_parameters_present_flag;
    let au_len = if delays { (ctx.hrd.au_cpb_removal_delay_length_minus1 as u32 + 1) as u32 } else { 0 };
    let dpb_len = if delays { (ctx.hrd.dpb_output_delay_length_minus1 as u32 + 1) as u32 } else { 0 };
    let a = put_u_if(a, x.au_cpb_removal_delay_minus1 as nat, au_len as nat, delays);
    let a = put_u_if(a, x.pic_dpb_output_delay as nat, dpb_len as nat, delays);
    let sub_pic = delays && ctx.hrd.sub_pic_hrd_params_present_flag;
    let du_out_len = if sub_pic { (ctx.hrd.dpb_output_delay_du_length_minus1 as u32 + 1) as u32 } else { 0 };
    let a = put_u_if(a, x.pic_dpb_output_du_delay as nat, du_out_len as nat, sub_pic);
    let expected = sub_pic && ctx.hrd.sub_pic_cpb_params_in_pic_timing_sei_flag;
    let du_len = if expected {
        (ctx.hrd.du_cpb_removal_delay_increment_length_minus1 as u32 + 1) as u32
    } else {
        0
    };
    let a = put_hdu_opt(a, x.units, du_len, expected);
    a
}

/// The values of `pic_timing()` (§D.2.3) that reading can give.
#[verifier::opaque]
pub open spec fn hpt_ok(x: SeiPicTimingModel, ctx: SeiHrdContextModel) -> bool {
    &&& x.frame_field_info is Some <==> ctx.frame_field_info_present_flag
    &&& x.frame_field_info matches Some(y) ==> frame_info_ok(y)
    &&& {
        let delays = ctx.hrd.nal_hrd_parameters_present_flag || ctx.hrd.vcl_hrd_parameters_present_flag;
        let au_len = if delays { (ctx.hrd.au_cpb_removal_delay_length_minus1 as u32 + 1) as u32 } else { 0 };
        let dpb_len = if delays { (ctx.hrd.dpb_output_delay_length_minus1 as u32 + 1) as u32 } else { 0 };
        &&& au_len <= 32 && dpb_len <= 32
        &&& if delays {
            fits(x.au_cpb_removal_delay_minus1 as nat, au_len as nat)
        } else {
            x.au_cpb_removal_delay_minus1 == 0
        }
        &&& if delays {
            fits(x.pic_dpb_output_delay as nat, dpb_len as nat)
        } else {
            x.pic_dpb_output_delay == 0
        }
        &&& {
            let sub_pic = delays && ctx.hrd.sub_pic_hrd_params_present_flag;
            let du_out_len = if sub_pic {
                (ctx.hrd.dpb_output_delay_du_length_minus1 as u32 + 1) as u32
            } else {
                0
            };
            &&& du_out_len <= 32
            &&& if sub_pic {
                fits(x.pic_dpb_output_du_delay as nat, du_out_len as nat)
            } else {
                x.pic_dpb_output_du_delay == 0
            }
            &&& {
                let expected = sub_pic && ctx.hrd.sub_pic_cpb_params_in_pic_timing_sei_flag;
                let du_len = if expected {
                    (ctx.hrd.du_cpb_removal_delay_increment_length_minus1 as u32 + 1) as u32
                } else {
                    0
                };
                &&& du_len <= 32
                &&& hdu_opt_ok(x.units, du_len, expected)
            }
        }
    }
}

/// The values of `pic_timing()` (§D.2.3) that the writer accepts.
#[verifier::opaque]
pub open spec fn hpt_can(x: SeiPicTimingModel, ctx: SeiHrdContextModel) -> bool {
    &&& x.frame_field_info is Some <==> ctx.frame_field_info_present_flag
    &&& x.frame_field_info matches Some(y) ==> frame_info_can(y)
    &&& {
        let delays = ctx.hrd.nal_hrd_parameters_present_flag || ctx.hrd.vcl_hrd_parameters_present_flag;
        let au_len = if delays { (ctx.hrd.au_cpb_removal_delay_length_minus1 as u32 + 1) as u32 } else { 0 };
        let dpb_len = if delays { (ctx.hrd.dpb_output_delay_length_minus1 as u32 + 1) as u32 } else { 0 };
        &&& au_len <= 32 && dpb_len <= 32
        &&& !delays || fits(x.au_cpb_removal_delay_minus1 as nat, au_len as nat)
        &&& !delays || fits(x.pic_dpb_output_delay as nat, dpb_len as nat)
        &&& {
            let sub_pic = delays && ctx.hrd.sub_pic_hrd_params_present_flag;
            let du_out_len = if sub_pic {
                (ctx.hrd.dpb_output_delay_du_length_minus1 as u32 + 1) as u32
            } else {
                0
            };
            &&& du_out_len <= 32
            &&& !sub_pic || fits(x.pic_dpb_output_du_delay as nat, du_out_len as nat)
            &&& {
                let expected = sub_pic && ctx.hrd.sub_pic_cpb_params_in_pic_timing_sei_flag;
                let du_len = if expected {
                    (ctx.hrd.du_cpb_removal_delay_increment_length_minus1 as u32 + 1) as u32
                } else {
                    0
                };
                &&& du_len <= 32
                &&& hdu_opt_can(x.units, du_len, expected)
            }
        }
    }
}

/// Parses `pic_timing()` (§D.2.3).
fn parse_hpt(r: &mut BitReader<'_>, ctx: &SeiHrdContext<'_>) -> (res: Result<SeiPicTiming, BitstreamError>)
    ensures
        read_view_is(hpt_at(old(r).bits(), old(r).pos(), ctx@), res, *old(r), *final(r)),
{
    proof {
        reveal(hpt_at);
    }
    let frame_field_info = if ctx.frame_field_info_present_flag { Some(parse_frame_info(r)?) } else { None };
    let delays: bool = ctx.hrd.nal_hrd_parameters_present_flag || ctx.hrd.vcl_hrd_parameters_present_flag;
    let au_len: u32 = if delays { ctx.hrd.au_cpb_removal_delay_length_minus1 as u32 + 1 } else { 0 };
    let dpb_len: u32 = if delays { ctx.hrd.dpb_output_delay_length_minus1 as u32 + 1 } else { 0 };
    if !(au_len <= 32 && dpb_len <= 32) {
        return Err(
            BitstreamError::invalid("pic_timing with hrd_parameters() whose lengths are out of range"),
        );
    }
    let au_cpb_removal_delay_minus1: u32 = r.u_if(au_len, delays, 0);
    let pic_dpb_output_delay: u32 = r.u_if(dpb_len, delays, 0);
    let sub_pic: bool = delays && ctx.hrd.sub_pic_hrd_params_present_flag;
    let du_out_len: u32 = if sub_pic { ctx.hrd.dpb_output_delay_du_length_minus1 as u32 + 1 } else { 0 };
    if du_out_len > 32 {
        return Err(
            BitstreamError::invalid(
                "pic_timing with hrd_parameters() whose DU output delay length is out of range",
            ),
        );
    }
    let pic_dpb_output_du_delay: u32 = r.u_if(du_out_len, sub_pic, 0);
    let expected: bool = sub_pic && ctx.hrd.sub_pic_cpb_params_in_pic_timing_sei_flag;
    let du_len: u32 = if expected {
        ctx.hrd.du_cpb_removal_delay_increment_length_minus1 as u32 + 1
    } else {
        0
    };
    if du_len > 32 {
        return Err(
            BitstreamError::invalid(
                "pic_timing with hrd_parameters() whose DU increment length is out of range",
            ),
        );
    }
    let units = parse_hdu_opt(r, du_len, expected)?;
    Ok(SeiPicTiming {
        frame_field_info,
        au_cpb_removal_delay_minus1,
        pic_dpb_output_delay,
        pic_dpb_output_du_delay,
        du_common_cpb_removal_delay_increment_minus1: units.0,
        decoding_units: units.1,
    })
}

/// Emits `pic_timing()` (§D.2.3), the inverse of [`parse_hpt`].
fn write_hpt(
    w: &mut BitWriter,
    x: &SeiPicTiming,
    ctx: &SeiHrdContext<'_>,
) -> (res: Result<(), BitstreamError>)
    ensures
        write_is(hpt_can(x@, ctx@), put_hpt(old(w)@, x@, ctx@), res, final(w)@),
{
    proof {
        reveal(put_hpt);
        reveal(hpt_can);
    }
    if x.frame_field_info.is_some() != ctx.frame_field_info_present_flag {
        return Err(
            BitstreamError::invalid(
                "frame_field_info present iff the VUI frame_field_info_present_flag (D.2.3)",
            ),
        );
    }
    if let Some(y) = &x.frame_field_info {
        write_frame_info(w, y)?;
    }
    let delays: bool = ctx.hrd.nal_hrd_parameters_present_flag || ctx.hrd.vcl_hrd_parameters_present_flag;
    let au_len: u32 = if delays { ctx.hrd.au_cpb_removal_delay_length_minus1 as u32 + 1 } else { 0 };
    let dpb_len: u32 = if delays { ctx.hrd.dpb_output_delay_length_minus1 as u32 + 1 } else { 0 };
    if !(au_len <= 32 && dpb_len <= 32) {
        return Err(
            BitstreamError::invalid("pic_timing with hrd_parameters() whose lengths are out of range"),
        );
    }
    if !(!delays || fits_bits(x.au_cpb_removal_delay_minus1, au_len)) {
        return Err(
            Message::new("au_cpb_removal_delay_minus1 = ")
                .num(x.au_cpb_removal_delay_minus1 as i128)
                .with(" does not fit u(")
                .num(au_len as i128)
                .with(")")
                .invalid(),
        );
    }
    w.write_bits_if(x.au_cpb_removal_delay_minus1, au_len, delays);
    if !(!delays || fits_bits(x.pic_dpb_output_delay, dpb_len)) {
        return Err(
            Message::new("pic_dpb_output_delay = ")
                .num(x.pic_dpb_output_delay as i128)
                .with(" does not fit u(")
                .num(dpb_len as i128)
                .with(")")
                .invalid(),
        );
    }
    w.write_bits_if(x.pic_dpb_output_delay, dpb_len, delays);
    let sub_pic: bool = delays && ctx.hrd.sub_pic_hrd_params_present_flag;
    let du_out_len: u32 = if sub_pic { ctx.hrd.dpb_output_delay_du_length_minus1 as u32 + 1 } else { 0 };
    if du_out_len > 32 {
        return Err(
            BitstreamError::invalid(
                "pic_timing with hrd_parameters() whose DU output delay length is out of range",
            ),
        );
    }
    if !(!sub_pic || fits_bits(x.pic_dpb_output_du_delay, du_out_len)) {
        return Err(
            Message::new("pic_dpb_output_du_delay = ")
                .num(x.pic_dpb_output_du_delay as i128)
                .with(" does not fit u(")
                .num(du_out_len as i128)
                .with(")")
                .invalid(),
        );
    }
    w.write_bits_if(x.pic_dpb_output_du_delay, du_out_len, sub_pic);
    let expected: bool = sub_pic && ctx.hrd.sub_pic_cpb_params_in_pic_timing_sei_flag;
    let du_len: u32 = if expected {
        ctx.hrd.du_cpb_removal_delay_increment_length_minus1 as u32 + 1
    } else {
        0
    };
    if du_len > 32 {
        return Err(
            BitstreamError::invalid(
                "pic_timing with hrd_parameters() whose DU increment length is out of range",
            ),
        );
    }
    write_hdu_opt(w, &(*x), du_len, expected, delays)?;
    Ok(())
}

/// Writing `pic_timing()` (§D.2.3) gives back the bits it was read from.
pub broadcast proof fn law_put_hpt_at(s: Seq<bool>, p: nat, ctx: SeiHrdContextModel)
    ensures
        #[trigger] hpt_at(s, p, ctx) matches Ok((x, q)) ==> {
            &&& hpt_ok(x, ctx)
            &&& hpt_can(x, ctx)
            &&& within(s, q) ==> within(s, p) && put_hpt(upto(s, p), x, ctx) == upto(s, q)
        },
{
    broadcast use {crate::bits::group_write_read, law_put_frame_info_at, law_put_hdu_opt_at};

    reveal(hpt_at);
    reveal(put_hpt);
    reveal(hpt_ok);
    reveal(hpt_can);
}

/// Reading gives back `pic_timing()` (§D.2.3) as it was written.
pub broadcast proof fn law_pre_put_hpt(
    a: Seq<bool>,
    x: SeiPicTimingModel,
    ctx: SeiHrdContextModel,
    s: Seq<bool>,
)
    requires
        #[trigger] pre(put_hpt(a, x, ctx), s),
        hpt_ok(x, ctx),
    ensures
        pre(a, s),
        hpt_can(x, ctx),
        hpt_at(s, a.len(), ctx) == Ok::<(SeiPicTimingModel, nat), Fault>((x, put_hpt(a, x, ctx).len())),
{
    broadcast use {crate::bits::group_read_written, law_pre_put_frame_info, law_pre_put_hdu_opt};

    reveal(hpt_at);
    reveal(put_hpt);
    reveal(hpt_ok);
    reveal(hpt_can);
}

/// The layout of `pic_timing()` (§D.2.3): reading at `p` gives `x` and ends at
/// `q` if and only if these elements stand there in this order, and the values
/// are allowed.
pub proof fn law_layout_hpt(s: Seq<bool>, p: nat, ctx: SeiHrdContextModel, x: SeiPicTimingModel, q: nat)
    ensures
        hpt_at(s, p, ctx) == Ok::<(SeiPicTimingModel, nat), Fault>((x, q)) <==> ({
            let delays = ctx.hrd.nal_hrd_parameters_present_flag || ctx.hrd.vcl_hrd_parameters_present_flag;
            let au_len = if delays {
                (ctx.hrd.au_cpb_removal_delay_length_minus1 as u32 + 1) as u32
            } else {
                0
            };
            let dpb_len = if delays { (ctx.hrd.dpb_output_delay_length_minus1 as u32 + 1) as u32 } else { 0 };
            let sub_pic = delays && ctx.hrd.sub_pic_hrd_params_present_flag;
            let du_out_len = if sub_pic {
                (ctx.hrd.dpb_output_delay_du_length_minus1 as u32 + 1) as u32
            } else {
                0
            };
            let expected = sub_pic && ctx.hrd.sub_pic_cpb_params_in_pic_timing_sei_flag;
            let du_len = if expected {
                (ctx.hrd.du_cpb_removal_delay_increment_length_minus1 as u32 + 1) as u32
            } else {
                0
            };
            &&& cursor(s, p)
                .part_if(ctx.frame_field_info_present_flag, |p: nat| frame_info_at(s, p), x.frame_field_info)
                .u32_if(delays, au_len as nat, x.au_cpb_removal_delay_minus1, 0)
                .u32_if(delays, dpb_len as nat, x.pic_dpb_output_delay, 0)
                .u32_if(sub_pic, du_out_len as nat, x.pic_dpb_output_du_delay, 0)
                .part(|p: nat| hdu_opt_at(s, p, du_len, expected), x.units)
                .ends(q)
            &&& au_len <= 32 && dpb_len <= 32
            &&& du_out_len <= 32
            &&& du_len <= 32
        }),
{
    reveal(hpt_at);
    reveal(adv_if);
    reveal(u32_if);
}

/// Reading `pic_timing()` (§D.2.3) never fails with an error of this class.
pub broadcast proof fn law_faults_hpt(s: Seq<bool>, p: nat, ctx: SeiHrdContextModel)
    ensures
        #[trigger] hpt_at(s, p, ctx) matches Err(f) ==> f != Fault::Unsupported,
{
    broadcast use {law_faults_frame_info, law_faults_hdu_opt};

    reveal(hpt_at);
}

/// What the writer accepts reads back: `pic_timing()` (§D.2.3), where each
/// field fits its width and what is not coded has the value that is taken for
/// it.
pub proof fn law_reads_hpt(a: Seq<bool>, x: SeiPicTimingModel, ctx: SeiHrdContextModel, s: Seq<bool>)
    requires
        hpt_can(x, ctx),
        ({
            &&& x.frame_field_info matches Some(y) ==> frame_info_ok(y)
            &&& {
                let delays = ctx.hrd.nal_hrd_parameters_present_flag
                    || ctx.hrd.vcl_hrd_parameters_present_flag;
                &&& (!delays ==> x.au_cpb_removal_delay_minus1 == 0)
                &&& (!delays ==> x.pic_dpb_output_delay == 0)
                &&& {
                    let sub_pic = delays && ctx.hrd.sub_pic_hrd_params_present_flag;
                    &&& (!sub_pic ==> x.pic_dpb_output_du_delay == 0)
                    &&& {
                        let expected = sub_pic && ctx.hrd.sub_pic_cpb_params_in_pic_timing_sei_flag;
                        let du_len = if expected {
                            (ctx.hrd.du_cpb_removal_delay_increment_length_minus1 as u32 + 1) as u32
                        } else {
                            0
                        };
                        &&& hdu_opt_ok(x.units, du_len, expected)
                    }
                }
            }
        }),
        pre(put_hpt(a, x, ctx), s),
    ensures
        hpt_at(s, a.len(), ctx) == Ok::<(SeiPicTimingModel, nat), Fault>((x, put_hpt(a, x, ctx).len())),
{
    assert(hpt_ok(x, ctx)) by {
        broadcast use crate::bits::law_fits_small;

        reveal(hpt_ok);
        reveal(hpt_can);
    }
    law_pre_put_hpt(a, x, ctx, s);
}

/// Each field of the model of a [`SeiPicTiming`] is the field of that name.
pub proof fn law_view_hpt(x: SeiPicTiming)
    ensures
        x@.frame_field_info == x.frame_field_info,
        x@.au_cpb_removal_delay_minus1 == x.au_cpb_removal_delay_minus1,
        x@.pic_dpb_output_delay == x.pic_dpb_output_delay,
        x@.pic_dpb_output_du_delay == x.pic_dpb_output_du_delay,
        x@.units == (x.du_common_cpb_removal_delay_increment_minus1, units_view(x.decoding_units)),
{
}

/// The picture timing that the message `m` holds.
pub open spec fn hevc_pt_of(m: SeiMessageModel, ctx: SeiHrdContextModel) -> Result<SeiPicTimingModel, Fault> {
    let s = bits_of(m.payload);
    if m.payload_type != SEI_TYPE_PIC_TIMING {
        Err(Fault::Invalid)
    } else {
        match hpt_at(s, 0, ctx) {
            Err(f) => Err(f),
            Ok((x, p)) => match payload_tail_at(s, p) {
                Err(f) => Err(f),
                Ok(ext) => if ext is Some {
                    Err(Fault::Unsupported)
                } else {
                    Ok(x)
                },
            },
        }
    }
}

/// The bits of the payload that holds `x`.
pub open spec fn hevc_pt_payload(x: SeiPicTimingModel, ctx: SeiHrdContextModel) -> Seq<bool> {
    put_payload_end(put_hpt(Seq::empty(), x, ctx))
}

/// Decode a `pic_timing()` SEI (§D.2.3) against its HRD context.
pub fn decode_pic_timing(
    msg: &SeiMessage,
    ctx: &SeiHrdContext<'_>,
) -> (res: Result<SeiPicTiming, BitstreamError>)
    ensures
        match hevc_pt_of(msg@, ctx@) {
            Ok(x) => res matches Ok(v) && v@ == x,
            Err(f) => res matches Err(e) && e.fault() == f,
        },
{
    if msg.payload_type != SEI_TYPE_PIC_TIMING {
        return Err(
            Message::new("expected pic_timing (payloadType 1), got ").num(msg.payload_type as i128).invalid(),
        );
    }
    let mut r = BitReader::new(msg.payload.as_slice());
    let pt = parse_hpt(&mut r, ctx)?;
    let ext = read_payload_tail(&mut r, "pic_timing")?;
    if ext.is_some() {
        return Err(BitstreamError::unsupported("pic_timing: unexpected payload-extension bit"));
    }
    Ok(pt)
}

/// Encode a [`SeiPicTiming`] against its HRD context, the inverse of
/// [`decode_pic_timing`].
pub fn encode_pic_timing(
    pt: &SeiPicTiming,
    ctx: &SeiHrdContext<'_>,
) -> (res: Result<SeiMessage, BitstreamError>)
    ensures
        payload_write_is(hpt_can(pt@, ctx@), SEI_TYPE_PIC_TIMING, hevc_pt_payload(pt@, ctx@), res),
{
    let mut w = BitWriter::new();
    write_hpt(&mut w, pt, ctx)?;
    Ok(SeiMessage { payload_type: SEI_TYPE_PIC_TIMING, payload: finish_payload(w) })
}

/// Encoding what was decoded gives back the payload, if its tail is the one that
/// the encoder writes: the encoder accepts every decoded picture timing, and writes
/// the bits before the tail as they were.
pub proof fn law_encode_decoded_hevc_pt(m: SeiMessageModel, ctx: SeiHrdContextModel)
    requires
        m.payload.len() <= usize::MAX,
    ensures
        hevc_pt_of(m, ctx) matches Ok(x) ==> {
            let s = bits_of(m.payload);
            let p = hpt_at(s, 0, ctx)->Ok_0.1;
            &&& hpt_ok(x, ctx)
            &&& hpt_can(x, ctx)
            &&& p <= s.len()
            &&& put_hpt(Seq::empty(), x, ctx) == s.take(p as int)
            &&& s == put_payload_end(s.take(p as int)) ==> hevc_pt_payload(x, ctx) == s
        },
{
    let s = bits_of(m.payload);
    lemma_bits_of_len(m.payload);
    if let Ok(x) = hevc_pt_of(m, ctx) {
        let p = hpt_at(s, 0, ctx)->Ok_0.1;
        law_put_hpt_at(s, 0, ctx);
        assert(within(s, p)) by {
            reveal(within);
        }
        assert(upto(s, 0) =~= Seq::empty() && upto(s, p) == s.take(p as int)) by {
            reveal(upto);
        }
    }
}

/// Decoding what was encoded gives back the picture timing.
pub proof fn law_decode_encoded_hevc_pt(x: SeiPicTimingModel, m: SeiMessageModel, ctx: SeiHrdContextModel)
    requires
        hpt_ok(x, ctx),
        m.payload_type == SEI_TYPE_PIC_TIMING,
        bits_of(m.payload) == hevc_pt_payload(x, ctx),
        m.payload.len() <= usize::MAX,
    ensures
        hpt_can(x, ctx),
        hevc_pt_of(m, ctx) == Ok::<SeiPicTimingModel, Fault>(x),
{
    let s = bits_of(m.payload);
    lemma_bits_of_len(m.payload);
    let a = put_hpt(Seq::empty(), x, ctx);
    law_tail_written(a, None);
    assert(pre(a, s)) by {
        reveal(pre);
    }
    law_pre_put_hpt(Seq::empty(), x, ctx, s);
}

/// SEI messages are what stands behind the two header bytes of a NAL unit of type 39
/// or 40.
pub proof fn law_hevc_sei_nal(b: Seq<u8>)
    ensures
        hevc_sei_of_nal(b) == if b.len() < 2 {
            Err(Fault::End)
        } else if b[0] / 2 % 64 != 39 && b[0] / 2 % 64 != 40 {
            Err(Fault::Invalid)
        } else {
            sei_messages_of(unescape(b.skip(2)))
        },
{
}

/// A message is decoded by its type. User data is the bytes of a country code or of an
/// identifier, and then the bytes of the user; a message of another type is kept as it
/// is.
pub proof fn law_hevc_decoded_by_type(m: SeiMessageModel, x: HevcSeiModel)
    ensures
        hevc_sei_of(m) == Ok::<HevcSeiModel, Fault>(x) <==> ({
            let s = bits_of(m.payload);
            let t = m.payload_type;
            match x {
                HevcSeiModel::UserDataRegisteredItuTT35 { country_code, country_code_extension, payload } => {
                    &&& t == 4
                    &&& match country_code_extension {
                        Some(ext) => country_code == 255 && m.payload == seq![255u8, ext] + payload,
                        None => country_code != 255 && m.payload == seq![country_code] + payload,
                    }
                },
                HevcSeiModel::UserDataUnregistered { uuid, payload } => {
                    t == 5 && uuid.len() == 16 && m.payload == uuid + payload
                },
                HevcSeiModel::RecoveryPoint(r) => {
                    let c = cursor(s, 0).part(|p: nat| recovery_at(s, p), r);
                    t == 6 && c.good && c.pos <= s.len()
                },
                HevcSeiModel::MasteringDisplayColourVolume(v) => {
                    t == 137 && m.payload.len() >= 24 && cursor(s, 0).part(|p: nat| mdcv_at(s, p), v).good
                },
                HevcSeiModel::ContentLightLevel(v) => {
                    t == 144 && m.payload.len() >= 4 && cursor(s, 0).part(|p: nat| cll_at(s, p), v).good
                },
                HevcSeiModel::Unknown { payload_type, payload } => {
                    &&& payload_type == t && payload == m.payload
                    &&& !(t == 4 || t == 5 || t == 6 || t == 137 || t == 144)
                },
            }
        }),
{
    let b = m.payload;
    if m.payload_type == 4 {
        if b.len() >= 1 {
            assert(b =~= seq![b[0]] + b.skip(1));
        }
        if b.len() >= 2 {
            assert(b =~= seq![b[0], b[1]] + b.skip(2));
        }
        if let HevcSeiModel::UserDataRegisteredItuTT35 { country_code, country_code_extension, payload } = x {
            match country_code_extension {
                Some(ext) => {
                    let y = seq![255u8, ext] + payload;
                    assert(y.skip(2) =~= payload && y[0] == 255 && y[1] == ext && y.len() >= 2);
                },
                None => {
                    let y = seq![country_code] + payload;
                    assert(y.skip(1) =~= payload && y[0] == country_code && y.len() >= 1);
                },
            }
        }
    } else if m.payload_type == 5 {
        if b.len() >= 16 {
            assert(b =~= b.take(16) + b.skip(16));
        }
        if let HevcSeiModel::UserDataUnregistered { uuid, payload } = x {
            if uuid.len() == 16 {
                assert((uuid + payload).take(16) =~= uuid && (uuid + payload).skip(16) =~= payload);
            }
        }
    }
}

/// What stands behind the fields of a payload: nothing, or the closing one bit, or an
/// extension bit and the closing one bit, and then only zero bits.
pub proof fn law_payload_tail(s: Seq<bool>, p: nat, ext: Option<bool>)
    ensures
        payload_tail_at(s, p) == Ok::<Option<bool>, Fault>(ext) <==> match ext {
            None => {
                ||| p == s.len()
                ||| p < s.len() && s[p as int] && forall|k: int| p < k < s.len() ==> !#[trigger] s[k]
            },
            Some(b) => {
                &&& p + 1 < s.len() && s[p as int] == b && s[(p + 1) as int]
                &&& forall|k: int| p + 1 < k < s.len() ==> !#[trigger] s[k]
            },
        },
        payload_tail_at(s, p) == Err::<Option<bool>, Fault>(Fault::End) <==> p > s.len(),
        payload_tail_at(s, p) == Err::<Option<bool>, Fault>(Fault::Invalid) <==> p < s.len() && forall|k: int|
            p <= k < s.len() ==> !#[trigger] s[k],
{
    lemma_last_one_is(s);
    let l = last_one(s);
    if p < s.len() {
        if forall|k: int| p <= k < s.len() ==> !#[trigger] s[k] {
            if l >= p {
                assert(s[l]);
            }
        }
        if s[p as int] && forall|k: int| p < k < s.len() ==> !#[trigger] s[k] {
            if l > p {
                assert(s[l]);
            }
        }
        if p + 1 < s.len() && s[(p + 1) as int] && forall|k: int| p + 1 < k < s.len() ==> !#[trigger] s[k] {
            if l > p + 1 {
                assert(s[l]);
            }
        }
    }
}

proof fn lemma_last_one_is(s: Seq<bool>)
    ensures
        -1 <= last_one(s) < s.len(),
        last_one(s) >= 0 ==> s[last_one(s)],
        forall|k: int| last_one(s) < k < s.len() ==> !#[trigger] s[k],
    decreases s.len(),
{
    if s.len() > 0 && !s.last() {
        let t = s.drop_last();
        lemma_last_one_is(t);
        assert forall|k: int| last_one(s) < k < s.len() implies !#[trigger] s[k] by {
            if k < t.len() {
                assert(t[k] == s[k]);
            }
        }
    }
}

/// A buffering period is a message of type 0: its fields, and a tail whose extension
/// bit, if there is one, is use_alt_cpb_params_flag.
pub proof fn law_hevc_bp_message(m: SeiMessageModel, ctx: SeiHrdContextModel, x: SeiBufferingPeriodModel)
    ensures
        hevc_bp_of(m, ctx) == Ok::<SeiBufferingPeriodModel, Fault>(x) <==> ({
            let s = bits_of(m.payload);
            let c = cursor(s, 0).part(|p: nat| hbp_at(s, p, ctx), x.body);
            &&& m.payload_type == 0
            &&& c.good
            &&& payload_tail_at(s, c.pos) == Ok::<Option<bool>, Fault>(x.use_alt_cpb_params_flag)
        }),
        m.payload_type != 0 ==> hevc_bp_of(m, ctx) == Err::<SeiBufferingPeriodModel, Fault>(Fault::Invalid),
{
}

/// A picture timing is a message of type 1: its fields, and a tail without an extension
/// bit, which is not supported.
pub proof fn law_hevc_pt_message(m: SeiMessageModel, ctx: SeiHrdContextModel, x: SeiPicTimingModel)
    ensures
        hevc_pt_of(m, ctx) == Ok::<SeiPicTimingModel, Fault>(x) <==> ({
            let s = bits_of(m.payload);
            let c = cursor(s, 0).part(|p: nat| hpt_at(s, p, ctx), x);
            &&& m.payload_type == 1
            &&& c.good
            &&& payload_tail_at(s, c.pos) == Ok::<Option<bool>, Fault>(None)
        }),
        ({
            let s = bits_of(m.payload);
            let c = cursor(s, 0).part(|p: nat| hpt_at(s, p, ctx), x);
            m.payload_type == 1 && c.good && payload_tail_at(s, c.pos) matches Ok(Some(_))
        }) ==> hevc_pt_of(m, ctx) == Err::<SeiPicTimingModel, Fault>(Fault::Unsupported),
        m.payload_type != 1 ==> hevc_pt_of(m, ctx) == Err::<SeiPicTimingModel, Fault>(Fault::Invalid),
{
}

/// The decoding units are there if and only if they are expected.
pub proof fn law_layout_hdu_opt(
    s: Seq<bool>,
    p: nat,
    width: u32,
    expected: bool,
    x: (Option<u32>, Option<Seq<SeiPicTimingDu>>),
    q: nat,
)
    ensures
        hdu_opt_at(s, p, width, expected) == Ok::<((Option<u32>, Option<Seq<SeiPicTimingDu>>), nat), Fault>(
            (x, q),
        ) <==> match x.1 {
            Some(units) => expected && cursor(s, p).part(|p: nat| hdu_at(s, p, width), (x.0, units)).ends(q),
            None => !expected && x.0 is None && q == p,
        },
{
    reveal(hdu_opt_at);
}

/// The types that are decoded, and what the encoder refuses: a country code of 255
/// without an extension or another one with one, and a recovery point that does not fit
/// its codes.
pub proof fn law_hevc_sei_types(t: u32, x: HevcSeiModel)
    ensures
        is_decoded_type(t) <==> t == 4 || t == 5 || t == 6 || t == 137 || t == 144,
        hevc_sei_can(x) <==> match x {
            HevcSeiModel::UserDataRegisteredItuTT35 {
                country_code,
                country_code_extension,
                payload,
            } => if country_code
                == 255 {
                country_code_extension is Some
            } else {
                country_code_extension is None
            },
            HevcSeiModel::RecoveryPoint(r) => recovery_can(r),
            _ => true,
        },
{
}

/// Reading the decoding units fails only as too short or as invalid.
pub broadcast proof fn law_faults_hdu_opt(s: Seq<bool>, p: nat, width: u32, expected: bool)
    ensures
        #[trigger] hdu_opt_at(s, p, width, expected) matches Err(f) ==> f != Fault::Unsupported,
{
    broadcast use law_faults_hdu;

    reveal(hdu_opt_at);
}

/// Each kind of [`HevcSei`] has the model of that kind, with the same contents.
pub proof fn law_fields_of_sei(x: HevcSei)
    ensures
        match x {
            HevcSei::UserDataRegisteredItuTT35(y) => x@ == (HevcSeiModel::UserDataRegisteredItuTT35 {
                country_code: y.country_code,
                country_code_extension: y.country_code_extension,
                payload: y.payload@,
            }),
            HevcSei::UserDataUnregistered(y) => x@ == (HevcSeiModel::UserDataUnregistered {
                uuid: y.uuid@,
                payload: y.payload@,
            }),
            HevcSei::RecoveryPoint(y) => x@ == HevcSeiModel::RecoveryPoint(y),
            HevcSei::MasteringDisplayColourVolume(y) => x@ == HevcSeiModel::MasteringDisplayColourVolume(y@),
            HevcSei::ContentLightLevel(y) => x@ == HevcSeiModel::ContentLightLevel(y),
            HevcSei::Unknown { payload_type, payload } => x@ == (HevcSeiModel::Unknown {
                payload_type: payload_type,
                payload: payload@,
            }),
        },
{
}

/// Each field of the model of a [`SeiHrdContext`] is the field of that name.
pub proof fn law_fields_of_sei_hrd_context(x: SeiHrdContext<'_>)
    ensures
        x@.hrd == x.hrd@,
        x@.sub_layer_id == x.sub_layer_id,
        x@.frame_field_info_present_flag == x.frame_field_info_present_flag,
{
}

/// Each field of the model of a [`SeiBufferingPeriod`] is the field of that name.
pub proof fn law_fields_of_sei_buffering_period(x: SeiBufferingPeriod)
    ensures
        x@.body.bp_seq_parameter_set_id == x.bp_seq_parameter_set_id,
        x@.body.irap_cpb_params_present_flag == x.irap_cpb_params_present_flag,
        x@.body.cpb_delay_offset == x.cpb_delay_offset,
        x@.body.dpb_delay_offset == x.dpb_delay_offset,
        x@.body.concatenation_flag == x.concatenation_flag,
        x@.body.au_cpb_removal_delay_delta_minus1 == x.au_cpb_removal_delay_delta_minus1,
        x@.body.nal_delays == x.nal_delays@,
        x@.body.vcl_delays == x.vcl_delays@,
        x@.use_alt_cpb_params_flag == x.use_alt_cpb_params_flag,
{
}

/// [`decode_buffering_period`] and [`decode_pic_timing`] give the value that the message
/// holds, or an error of its class, and so does [`decode_sei_message`].
pub proof fn law_hevc_decoded(
    m: SeiMessage,
    ctx: SeiHrdContext<'_>,
    bp: Result<SeiBufferingPeriod, BitstreamError>,
    pt: Result<SeiPicTiming, BitstreamError>,
    sei: Result<HevcSei, BitstreamError>,
)
    requires
        call_ensures(decode_buffering_period, (&m, &ctx), bp),
        call_ensures(decode_pic_timing, (&m, &ctx), pt),
        call_ensures(decode_sei_message, (&m,), sei),
    ensures
        match bp {
            Ok(v) => hevc_bp_of(m@, ctx@) == Ok::<SeiBufferingPeriodModel, Fault>(v@),
            Err(e) => hevc_bp_of(m@, ctx@) == Err::<SeiBufferingPeriodModel, Fault>(e.fault()),
        },
        match pt {
            Ok(v) => hevc_pt_of(m@, ctx@) == Ok::<SeiPicTimingModel, Fault>(v@),
            Err(e) => hevc_pt_of(m@, ctx@) == Err::<SeiPicTimingModel, Fault>(e.fault()),
        },
        match sei {
            Ok(v) => hevc_sei_of(m@) == Ok::<HevcSeiModel, Fault>(v@),
            Err(e) => hevc_sei_of(m@) == Err::<HevcSeiModel, Fault>(e.fault()),
        },
{
}

} // verus!
