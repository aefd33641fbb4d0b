//! VC-1 (SMPTE 421M) sequence-header / entry-point / picture-header
//! parser for the advanced profile (Annex G start codes).
//!
//! This is **not** a full VC-1 decoder, only the parameter-buffer-shaped
//! header bits that hardware backends need:
//!
//! - Advanced-profile sequence header (§6.1): full parse.
//! - Entry-point header (§6.2): full parse, including HRD fullness
//!   (skipped past) and optional coded-size override.
//! - Picture header (§7.1.1): minimal, FCM + picture-type only.
//! - Simple/Main profiles are **not** supported.
//!
//! # Annex G start codes (advanced profile only)
//!
//! VC-1 BDU start codes are 4 bytes: `00 00 01 XX`. The XX byte
//! gives the BDU type:
//! - `0x0F`: sequence header
//! - `0x0E`: entry-point header
//! - `0x0D`: frame (picture) BDU
//! - `0x0C`: field (interlaced field picture) BDU
//! - `0x0B`: slice BDU (advanced profile only, when slices used)
//! - `0x1D`: user data, sequence level
//! - `0x1E`: user data, entry-point level
//! - `0x1F`: end-of-sequence
use crate::bit_reader::{BitReader, read_is};
use crate::bits::{
    Read, adv, adv_if, bits_of, fits, flag_at, flag_if, law_faults_u8s, law_fits_small,
    seq_view, u32_at, u32_if, u8_at, u8_if, u8s_at,
};
use crate::layout::cursor;
use crate::mpeg2::{first_read, outcome_is};
use crate::start_code::{code_at, codes_from, find_code, law_codes_found, next_code};
use crate::message::Message;
use crate::{BitstreamError, Fault};
use vstd::arithmetic::power2::lemma2_to64;
use vstd::prelude::*;
use vstd::slice::slice_subrange;

verus! {

// ─────────────────────────── BDU type bytes ─────────────────────────────────

pub const BDU_SEQUENCE_HEADER: u8 = 0x0F;

pub const BDU_ENTRY_POINT: u8 = 0x0E;

pub const BDU_FRAME: u8 = 0x0D;

pub const BDU_FIELD: u8 = 0x0C;

pub const BDU_SLICE: u8 = 0x0B;

pub const BDU_END_OF_SEQUENCE: u8 = 0x1F;

// ─────────────────────────── Profile ID values ──────────────────────────────

pub const PROFILE_SIMPLE: u8 = 0;

pub const PROFILE_MAIN: u8 = 1;

pub const PROFILE_ADVANCED: u8 = 3;

// ─────────────────────────── BDU framing ────────────────────────────────────

/// One BDU: its type, and its body behind the start code.
#[derive(Debug, Clone, Copy)]
pub struct VcBdu<'a> {
    pub bdu_type: u8,
    pub payload: &'a [u8],
}

/// The mathematical model of a [`VcBdu`].
pub struct VcBduModel {
    pub bdu_type: u8,
    pub payload: Seq<u8>,
}

impl<'a> View for VcBdu<'a> {
    type V = VcBduModel;

    open spec fn view(&self) -> VcBduModel {
        VcBduModel { bdu_type: self.bdu_type, payload: self.payload@ }
    }
}

/// The BDU whose start code stands at position `e`; it reaches to the next start
/// code or to the end.
pub open spec fn bdu_at(b: Seq<u8>, e: int) -> VcBduModel {
    VcBduModel { bdu_type: b[e + 3], payload: b.subrange(e + 4, next_code(b, e + 4)) }
}

/// The BDUs of a stream.
pub open spec fn bdus_of(b: Seq<u8>) -> Seq<VcBduModel> {
    Seq::new(codes_from(b, 0).len(), |k: int| bdu_at(b, codes_from(b, 0)[k]))
}

/// Walk the input stream and return the list of BDUs (start code
/// stripped: `payload` points at the first body byte after
/// `00 00 01 XX`). Empty BDUs (zero-byte payload) are returned too.
pub fn split_bdus<'a>(stream: &'a [u8]) -> (out: Vec<VcBdu<'a>>)
    ensures
        seq_view(out@) == bdus_of(stream@),
{
    let mut out: Vec<VcBdu<'a>> = Vec::new();
    let ghost all = codes_from(stream@, 0);
    let mut e: usize = find_code(stream, 0);
    proof {
        assert(all.skip(0) =~= all);
    }
    while e < stream.len()
        invariant
            e <= stream@.len(),
            e < stream@.len() ==> e + 4 <= stream@.len(),
            all == codes_from(stream@, 0),
            out@.len() <= all.len(),
            e < stream@.len() ==> all.skip(out@.len() as int) == seq![e as int] + codes_from(stream@, e + 4),
            e == stream@.len() ==> out@.len() == all.len(),
            forall|k: int| 0 <= k < out@.len() ==> (#[trigger] out@[k])@ == bdu_at(stream@, all[k]),
        decreases stream@.len() - e,
    {
        let ghost n = out@.len() as int;
        let next: usize = find_code(stream, e + 4);
        proof {
            let rest = all.skip(n);
            assert(rest[0] == all[n]);
            assert(all.skip(n + 1) =~= rest.skip(1));
            assert(rest.skip(1) =~= codes_from(stream@, e + 4));
            if next >= stream@.len() {
                assert(all.skip(n + 1).len() == 0);
            }
        }
        out.push(VcBdu { bdu_type: stream[e + 3], payload: slice_subrange(stream, e + 4, next) });
        e = next;
    }
    proof {
        assert(seq_view(out@) =~= bdus_of(stream@));
    }
    out
}

// ─────────────────────────── Output structs ─────────────────────────────────

/// Sequence header (§6.1).
#[derive(Debug, Clone, Default, PartialEq, Eq)]
pub struct Vc1SequenceHeader {
    /// 0=Simple, 1=Main, 3=Advanced. Only Advanced is parsed by this
    /// module — the parser errors on the others.
    pub profile: u8,
    pub level: u8,
    /// 1 = 4:2:0. Other values reserved.
    pub colordiff_format: u8,
    pub frmrtq_postproc: u8,
    pub bitrtq_postproc: u8,
    pub postprocflag: bool,
    /// `MAX_CODED_WIDTH+1` — the encoded coded width in luma samples
    /// (already +1).
    pub max_coded_width: u32,
    /// `MAX_CODED_HEIGHT+1` — encoded coded height (already +1).
    pub max_coded_height: u32,
    pub pulldown: bool,
    pub interlace: bool,
    pub tfcntrflag: bool,
    pub finterpflag: bool,
    /// "Progressive segmented frame" flag — see §6.1.13.
    pub psf: bool,
    /// Whether the display-extension block (display size, aspect
    /// ratio, framerate, color description) is present.
    pub display_ext: bool,
    /// `DISP_HORIZ_SIZE+1` if `display_ext`, else 0.
    pub display_horiz_size: u32,
    /// `DISP_VERT_SIZE+1` if `display_ext`, else 0.
    pub display_vert_size: u32,
    pub aspect_ratio_flag: bool,
    pub aspect_ratio: u8,
    pub aspect_horiz_size: u8,
    pub aspect_vert_size: u8,
    pub framerate_flag: bool,
    pub framerateind: u8,
    pub frameratenr: u32,
    pub frameratedr: u8,
    pub color_format_flag: bool,
    pub color_primaries: u8,
    pub transfer_char: u8,
    pub matrix_coef: u8,
    pub hrd_param_flag: bool,
    pub hrd_num_leaky_buckets: u8,
    pub hrd_bit_rate_exponent: u8,
    pub hrd_buffer_size_exponent: u8,
}

/// Entry-point header (§6.2).
#[derive(Debug, Clone, Default, PartialEq, Eq)]
pub struct Vc1EntryPointHeader {
    pub broken_link: bool,
    pub closed_entry: bool,
    pub panscan_flag: bool,
    pub refdist_flag: bool,
    pub loopfilter: bool,
    pub fastuvmc: bool,
    pub extended_mv: bool,
    pub dquant: u8,
    pub vstransform: bool,
    pub overlap: bool,
    pub quantizer: u8,
    pub coded_size_flag: bool,
    /// `CODED_WIDTH+1` if `coded_size_flag`, else 0. The HW backend
    /// should fall back to the sequence header's `max_coded_width`
    /// when `coded_size_flag=0`.
    pub coded_width: u32,
    /// `CODED_HEIGHT+1` if `coded_size_flag`, else 0.
    pub coded_height: u32,
    pub extended_dmv: bool,
    pub range_mapy_flag: bool,
    pub range_mapy: u8,
    pub range_mapuv_flag: bool,
    pub range_mapuv: u8,
}

/// Minimal picture header (§7.1.1). Picture-type decode in VC-1 is
/// VLC-coded and depends on the entry-point's `interlace` flag, the
/// sequence header's `finterpflag`, etc. We surface only the FCM
/// (frame coding mode) and the picture type, which is what
/// `VdpPictureInfoVC1::picture_type` ultimately consumes.
#[derive(Debug, Clone, Default, PartialEq, Eq)]
pub struct Vc1PictureHeader {
    /// FCM — frame coding mode (§7.1.1.15). 0 = progressive frame,
    /// 2 = interlaced field, 3 = interlaced frame.
    pub fcm: u8,
    /// Picture type: 0=I, 1=P, 2=B, 3=BI, 4=skipped (for progressive
    /// pictures). For interlaced field pictures this is per-field
    /// and uses different VLC; the parser falls back to a 3-bit
    /// fixed-length read for those.
    pub picture_type: u8,
}

/// Convenience structure returned by [`parse_first_picture`].
#[derive(Debug)]
pub struct Vc1FirstPictureParse<'a> {
    pub sequence_header: Vc1SequenceHeader,
    pub entry_point: Vc1EntryPointHeader,
    pub picture_header: Vc1PictureHeader,
    pub frame_payload: &'a [u8],
}

proof fn lemma_u14(v: u32, n: nat)
    requires
        fits(v as nat, n),
        n == 12 || n == 14,
    ensures
        v < 0x4000,
{
    lemma2_to64();
}

/// The fields of an advanced-profile sequence header (§6.1) at position `p`.
/// The rates of the leaky buckets at its end are not looked at.
#[verifier::opaque]
pub open spec fn vc1_seq_at(s: Seq<bool>, p: nat) -> Read<Vc1SequenceHeader> {
    let profile = u8_at(s, p, 2);
    let p = adv(p, 2);
    if profile != PROFILE_ADVANCED { Err(Fault::Unsupported) } else {
    let level = u8_at(s, p, 3);
    let p = adv(p, 3);
    let colordiff_format = u8_at(s, p, 2);
    let p = adv(p, 2);
    let frmrtq_postproc = u8_at(s, p, 3);
    let p = adv(p, 3);
    let bitrtq_postproc = u8_at(s, p, 5);
    let p = adv(p, 5);
    let postprocflag = flag_at(s, p);
    let p = adv(p, 1);
    let width_minus1 = u32_at(s, p, 12);
    let p = adv(p, 12);
    let height_minus1 = u32_at(s, p, 12);
    let p = adv(p, 12);
    let pulldown = flag_at(s, p);
    let p = adv(p, 1);
    let interlace = flag_at(s, p);
    let p = adv(p, 1);
    let tfcntrflag = flag_at(s, p);
    let p = adv(p, 1);
    let finterpflag = flag_at(s, p);
    let p = adv(p, 1);
    let _reserved = u8_at(s, p, 1);
    let p = adv(p, 1);
    let psf = flag_at(s, p);
    let p = adv(p, 1);
    let display_ext = flag_at(s, p);
    let p = adv(p, 1);
    let disp_horiz = u32_if(s, p, 14, display_ext, 0);
    let p = adv_if(p, 14, display_ext);
    let disp_vert = u32_if(s, p, 14, display_ext, 0);
    let p = adv_if(p, 14, display_ext);
    let aspect_ratio_flag = flag_if(s, p, display_ext, false);
    let p = adv_if(p, 1, display_ext);
    let aspect_ratio = u8_if(s, p, 4, aspect_ratio_flag, 0);
    let p = adv_if(p, 4, aspect_ratio_flag);
    let explicit_aspect = aspect_ratio_flag && aspect_ratio == 15;
    let aspect_horiz_size = u8_if(s, p, 8, explicit_aspect, 0);
    let p = adv_if(p, 8, explicit_aspect);
    let aspect_vert_size = u8_if(s, p, 8, explicit_aspect, 0);
    let p = adv_if(p, 8, explicit_aspect);
    let framerate_flag = flag_if(s, p, display_ext, false);
    let p = adv_if(p, 1, display_ext);
    let framerateind = u8_if(s, p, 1, framerate_flag, 0);
    let p = adv_if(p, 1, framerate_flag);
    let rate_code = framerate_flag && framerateind == 0;
    let rate_exact = framerate_flag && framerateind != 0;
    let nr_code = u32_if(s, p, 8, rate_code, 0);
    let p = adv_if(p, 8, rate_code);
    let frameratedr = u8_if(s, p, 4, rate_code, 0);
    let p = adv_if(p, 4, rate_code);
    let nr_exact = u32_if(s, p, 16, rate_exact, 0);
    let p = adv_if(p, 16, rate_exact);
    let color_format_flag = flag_if(s, p, display_ext, false);
    let p = adv_if(p, 1, display_ext);
    let color_primaries = u8_if(s, p, 8, color_format_flag, 0);
    let p = adv_if(p, 8, color_format_flag);
    let transfer_char = u8_if(s, p, 8, color_format_flag, 0);
    let p = adv_if(p, 8, color_format_flag);
    let matrix_coef = u8_if(s, p, 8, color_format_flag, 0);
    let p = adv_if(p, 8, color_format_flag);
    let hrd_param_flag = flag_at(s, p);
    let p = adv(p, 1);
    let hrd_num_leaky_buckets = u8_if(s, p, 5, hrd_param_flag, 0);
    let p = adv_if(p, 5, hrd_param_flag);
    let hrd_bit_rate_exponent = u8_if(s, p, 4, hrd_param_flag, 0);
    let p = adv_if(p, 4, hrd_param_flag);
    let hrd_buffer_size_exponent = u8_if(s, p, 4, hrd_param_flag, 0);
    let p = adv_if(p, 4, hrd_param_flag);
    Ok((Vc1SequenceHeader {
        profile,
        level,
        colordiff_format,
        frmrtq_postproc,
        bitrtq_postproc,
        postprocflag,
        max_coded_width: (width_minus1 + 1) as u32,
        max_coded_height: (height_minus1 + 1) as u32,
        pulldown,
        interlace,
        tfcntrflag,
        finterpflag,
        psf,
        display_ext,
        display_horiz_size: if display_ext { (disp_horiz + 1) as u32 } else { 0u32 },
        display_vert_size: if display_ext { (disp_vert + 1) as u32 } else { 0u32 },
        aspect_ratio_flag,
        aspect_ratio,
        aspect_horiz_size,
        aspect_vert_size,
        framerate_flag,
        framerateind,
        frameratenr: if rate_code { nr_code } else { nr_exact },
        frameratedr,
        color_format_flag,
        color_primaries,
        transfer_char,
        matrix_coef,
        hrd_param_flag,
        hrd_num_leaky_buckets,
        hrd_bit_rate_exponent,
        hrd_buffer_size_exponent,
    }, p)) }
}

/// Parses the fields of an advanced-profile sequence header (§6.1).
fn parse_vc1_seq(r: &mut BitReader<'_>) -> (res: Result<Vc1SequenceHeader, BitstreamError>)
    ensures
        read_is(vc1_seq_at(old(r).bits(), old(r).pos()), res, *old(r), *final(r)),
{
    proof {
        reveal(vc1_seq_at);
    }
    let profile: u8 = r.u8(2);
    if profile != PROFILE_ADVANCED {
        return Err(
            Message::new("VC-1 profile ")
                .num(profile as i128)
                .with(" not supported (only Advanced/3)")
                .unsupported(),
        );
    }
    let level: u8 = r.u8(3);
    let colordiff_format: u8 = r.u8(2);
    let frmrtq_postproc: u8 = r.u8(3);
    let bitrtq_postproc: u8 = r.u8(5);
    let postprocflag: bool = r.flag();
    let width_minus1: u32 = r.u(12);
    let height_minus1: u32 = r.u(12);
    proof {
        broadcast use crate::bits::law_fits_small;

        lemma_u14(width_minus1, 12);
        lemma_u14(height_minus1, 12);
    }
    let pulldown: bool = r.flag();
    let interlace: bool = r.flag();
    let tfcntrflag: bool = r.flag();
    let finterpflag: bool = r.flag();
    let _reserved: u8 = r.u8(1);
    let psf: bool = r.flag();
    let display_ext: bool = r.flag();
    let disp_horiz: u32 = r.u_if(14, display_ext, 0);
    let disp_vert: u32 = r.u_if(14, display_ext, 0);
    proof { if display_ext { lemma_u14(disp_horiz, 14); lemma_u14(disp_vert, 14); } }
    let aspect_ratio_flag: bool = r.flag_if(display_ext, false);
    let aspect_ratio: u8 = r.u8_if(4, aspect_ratio_flag, 0);
    let explicit_aspect: bool = aspect_ratio_flag && aspect_ratio == 15;
    let aspect_horiz_size: u8 = r.u8_if(8, explicit_aspect, 0);
    let aspect_vert_size: u8 = r.u8_if(8, explicit_aspect, 0);
    let framerate_flag: bool = r.flag_if(display_ext, false);
    let framerateind: u8 = r.u8_if(1, framerate_flag, 0);
    let rate_code: bool = framerate_flag && framerateind == 0;
    let rate_exact: bool = framerate_flag && framerateind != 0;
    let nr_code: u32 = r.u_if(8, rate_code, 0);
    let frameratedr: u8 = r.u8_if(4, rate_code, 0);
    let nr_exact: u32 = r.u_if(16, rate_exact, 0);
    let color_format_flag: bool = r.flag_if(display_ext, false);
    let color_primaries: u8 = r.u8_if(8, color_format_flag, 0);
    let transfer_char: u8 = r.u8_if(8, color_format_flag, 0);
    let matrix_coef: u8 = r.u8_if(8, color_format_flag, 0);
    let hrd_param_flag: bool = r.flag();
    let hrd_num_leaky_buckets: u8 = r.u8_if(5, hrd_param_flag, 0);
    let hrd_bit_rate_exponent: u8 = r.u8_if(4, hrd_param_flag, 0);
    let hrd_buffer_size_exponent: u8 = r.u8_if(4, hrd_param_flag, 0);
    Ok(Vc1SequenceHeader {
        profile,
        level,
        colordiff_format,
        frmrtq_postproc,
        bitrtq_postproc,
        postprocflag,
        max_coded_width: (width_minus1 + 1) as u32,
        max_coded_height: (height_minus1 + 1) as u32,
        pulldown,
        interlace,
        tfcntrflag,
        finterpflag,
        psf,
        display_ext,
        display_horiz_size: if display_ext { (disp_horiz + 1) as u32 } else { 0u32 },
        display_vert_size: if display_ext { (disp_vert + 1) as u32 } else { 0u32 },
        aspect_ratio_flag,
        aspect_ratio,
        aspect_horiz_size,
        aspect_vert_size,
        framerate_flag,
        framerateind,
        frameratenr: if rate_code { nr_code } else { nr_exact },
        frameratedr,
        color_format_flag,
        color_primaries,
        transfer_char,
        matrix_coef,
        hrd_param_flag,
        hrd_num_leaky_buckets,
        hrd_bit_rate_exponent,
        hrd_buffer_size_exponent,
    })
}

/// The layout of the fields of an advanced-profile sequence header (§6.1):
/// reading at `p` gives `x` and ends at `q` if and only if these elements stand
/// there in this order, and the values are allowed.
pub proof fn law_layout_vc1_seq(s: Seq<bool>, p: nat, x: Vc1SequenceHeader, q: nat)
    ensures
        vc1_seq_at(s, p) == Ok::<(Vc1SequenceHeader, nat), Fault>((x, q)) <==> ({
            let c = cursor(s, p)
                .u8(2, x.profile)
                .u8(3, x.level)
                .u8(2, x.colordiff_format)
                .u8(3, x.frmrtq_postproc)
                .u8(5, x.bitrtq_postproc)
                .flag(x.postprocflag);
            let width_minus1 = c.next_u32(12);
            let c = c.u32(12, width_minus1);
            let height_minus1 = c.next_u32(12);
            let c = c
                .u32(12, height_minus1)
                .flag(x.pulldown)
                .flag(x.interlace)
                .flag(x.tfcntrflag)
                .flag(x.finterpflag)
                .skip(1)
                .flag(x.psf)
                .flag(x.display_ext);
            let disp_horiz = if x.display_ext { c.next_u32(14) } else { 0 };
            let c = c.u32_if(x.display_ext, 14, disp_horiz, 0);
            let disp_vert = if x.display_ext { c.next_u32(14) } else { 0 };
            let explicit_aspect = x.aspect_ratio_flag && x.aspect_ratio == 15;
            let rate_code = x.framerate_flag && x.framerateind == 0;
            let rate_exact = x.framerate_flag && x.framerateind != 0;
            let c = c
                .u32_if(x.display_ext, 14, disp_vert, 0)
                .flag_if(x.display_ext, x.aspect_ratio_flag, false)
                .u8_if(x.aspect_ratio_flag, 4, x.aspect_ratio, 0)
                .u8_if(explicit_aspect, 8, x.aspect_horiz_size, 0)
                .u8_if(explicit_aspect, 8, x.aspect_vert_size, 0)
                .flag_if(x.display_ext, x.framerate_flag, false)
                .u8_if(x.framerate_flag, 1, x.framerateind, 0);
            let nr_code = if rate_code { c.next_u32(8) } else { 0 };
            let c = c.u32_if(rate_code, 8, nr_code, 0).u8_if(rate_code, 4, x.frameratedr, 0);
            let nr_exact = if rate_exact { c.next_u32(16) } else { 0 };
            &&& c
                .u32_if(rate_exact, 16, nr_exact, 0)
                .flag_if(x.display_ext, x.color_format_flag, false)
                .u8_if(x.color_format_flag, 8, x.color_primaries, 0)
                .u8_if(x.color_format_flag, 8, x.transfer_char, 0)
                .u8_if(x.color_format_flag, 8, x.matrix_coef, 0)
                .flag(x.hrd_param_flag)
                .u8_if(x.hrd_param_flag, 5, x.hrd_num_leaky_buckets, 0)
                .u8_if(x.hrd_param_flag, 4, x.hrd_bit_rate_exponent, 0)
                .u8_if(x.hrd_param_flag, 4, x.hrd_buffer_size_exponent, 0)
                .ends(q)
            &&& x.profile == 3
            &&& x.max_coded_width == (width_minus1 + 1) as u32
            &&& x.max_coded_height == (height_minus1 + 1) as u32
            &&& x.display_horiz_size == (if x.display_ext { (disp_horiz + 1) as u32 } else { 0u32 })
            &&& x.display_vert_size == (if x.display_ext { (disp_vert + 1) as u32 } else { 0u32 })
            &&& x.frameratenr == (if rate_code { nr_code } else { nr_exact })
        }),
{
    reveal(vc1_seq_at);
    reveal(adv_if);
    reveal(flag_if);
    reveal(u32_if);
    reveal(u8_if);
}

/// What reads as the fields of an advanced-profile sequence header (§6.1) up to
/// this point, and meets the last condition, is refused as not supported.
pub proof fn law_refused_vc1_seq(s: Seq<bool>, p: nat, x: Vc1SequenceHeader)
    ensures
        ({
            let c = cursor(s, p).u8(2, x.profile);
            &&& c.good
            &&& x.profile != 3
        }) ==> vc1_seq_at(s, p) == Err::<(Vc1SequenceHeader, nat), Fault>(Fault::Unsupported),
{
    reveal(vc1_seq_at);
}

/// Reading the fields of an advanced-profile sequence header (§6.1) fails only
/// with an error of this class.
pub broadcast proof fn law_faults_vc1_seq(s: Seq<bool>, p: nat)
    ensures
        #[trigger] vc1_seq_at(s, p) matches Err(f) ==> f == Fault::Unsupported,
{
    reveal(vc1_seq_at);
}

/// The fields of an entry-point header (§6.2) at position `p`, under the
/// sequence header `seq`.
#[verifier::opaque]
pub open spec fn vc1_entry_at(s: Seq<bool>, p: nat, seq: Vc1SequenceHeader) -> Read<Vc1EntryPointHeader> {
    let broken_link = flag_at(s, p);
    let p = adv(p, 1);
    let closed_entry = flag_at(s, p);
    let p = adv(p, 1);
    let panscan_flag = flag_at(s, p);
    let p = adv(p, 1);
    let refdist_flag = flag_at(s, p);
    let p = adv(p, 1);
    let loopfilter = flag_at(s, p);
    let p = adv(p, 1);
    let fastuvmc = flag_at(s, p);
    let p = adv(p, 1);
    let extended_mv = flag_at(s, p);
    let p = adv(p, 1);
    let dquant = u8_at(s, p, 2);
    let p = adv(p, 2);
    let vstransform = flag_at(s, p);
    let p = adv(p, 1);
    let overlap = flag_at(s, p);
    let p = adv(p, 1);
    let quantizer = u8_at(s, p, 2);
    let p = adv(p, 2);
    match u8s_at(s, p, 8, ((if seq.hrd_param_flag { seq.hrd_num_leaky_buckets as u64 } else { 0u64 })) as nat)
    { Err(f) => Err(f), Ok((_hrd_full, p)) => {
    let coded_size_flag = flag_at(s, p);
    let p = adv(p, 1);
    let width_minus1 = u32_if(s, p, 12, coded_size_flag, 0);
    let p = adv_if(p, 12, coded_size_flag);
    let height_minus1 = u32_if(s, p, 12, coded_size_flag, 0);
    let p = adv_if(p, 12, coded_size_flag);
    let extended_dmv = flag_if(s, p, extended_mv, false);
    let p = adv_if(p, 1, extended_mv);
    let range_mapy_flag = flag_at(s, p);
    let p = adv(p, 1);
    let range_mapy = u8_if(s, p, 3, range_mapy_flag, 0);
    let p = adv_if(p, 3, range_mapy_flag);
    let range_mapuv_flag = flag_at(s, p);
    let p = adv(p, 1);
    let range_mapuv = u8_if(s, p, 3, range_mapuv_flag, 0);
    let p = adv_if(p, 3, range_mapuv_flag);
    Ok((Vc1EntryPointHeader {
        broken_link,
        closed_entry,
        panscan_flag,
        refdist_flag,
        loopfilter,
        fastuvmc,
        extended_mv,
        dquant,
        vstransform,
        overlap,
        quantizer,
        coded_size_flag,
        coded_width: if coded_size_flag { (width_minus1 + 1) as u32 } else { 0u32 },
        coded_height: if coded_size_flag { (height_minus1 + 1) as u32 } else { 0u32 },
        extended_dmv,
        range_mapy_flag,
        range_mapy,
        range_mapuv_flag,
        range_mapuv,
    }, p)) }}
}

/// Parses the fields of an entry-point header (§6.2).
fn parse_vc1_entry(
    r: &mut BitReader<'_>,
    seq: &Vc1SequenceHeader,
) -> (res: Result<Vc1EntryPointHeader, BitstreamError>)
    ensures
        read_is(vc1_entry_at(old(r).bits(), old(r).pos(), *seq), res, *old(r), *final(r)),
{
    proof {
        reveal(vc1_entry_at);
    }
    let broken_link: bool = r.flag();
    let closed_entry: bool = r.flag();
    let panscan_flag: bool = r.flag();
    let refdist_flag: bool = r.flag();
    let loopfilter: bool = r.flag();
    let fastuvmc: bool = r.flag();
    let extended_mv: bool = r.flag();
    let dquant: u8 = r.u8(2);
    let vstransform: bool = r.flag();
    let overlap: bool = r.flag();
    let quantizer: u8 = r.u8(2);
    let _hrd_full = r.read_u8s((if seq.hrd_param_flag { seq.hrd_num_leaky_buckets as u64 } else { 0u64 }), 8);
    let coded_size_flag: bool = r.flag();
    let width_minus1: u32 = r.u_if(12, coded_size_flag, 0);
    let height_minus1: u32 = r.u_if(12, coded_size_flag, 0);
    proof { if coded_size_flag { lemma_u14(width_minus1, 12); lemma_u14(height_minus1, 12); } }
    let extended_dmv: bool = r.flag_if(extended_mv, false);
    let range_mapy_flag: bool = r.flag();
    let range_mapy: u8 = r.u8_if(3, range_mapy_flag, 0);
    let range_mapuv_flag: bool = r.flag();
    let range_mapuv: u8 = r.u8_if(3, range_mapuv_flag, 0);
    Ok(Vc1EntryPointHeader {
        broken_link,
        closed_entry,
        panscan_flag,
        refdist_flag,
        loopfilter,
        fastuvmc,
        extended_mv,
        dquant,
        vstransform,
        overlap,
        quantizer,
        coded_size_flag,
        coded_width: if coded_size_flag { (width_minus1 + 1) as u32 } else { 0u32 },
        coded_height: if coded_size_flag { (height_minus1 + 1) as u32 } else { 0u32 },
        extended_dmv,
        range_mapy_flag,
        range_mapy,
        range_mapuv_flag,
        range_mapuv,
    })
}

/// The layout of the fields of an entry-point header (§6.2): reading at `p`
/// gives `x` and ends at `q` if and only if these elements stand there in this
/// order, and the values are allowed.
pub proof fn law_layout_vc1_entry(
    s: Seq<bool>,
    p: nat,
    seq: Vc1SequenceHeader,
    x: Vc1EntryPointHeader,
    q: nat,
)
    ensures
        vc1_entry_at(s, p, seq) == Ok::<(Vc1EntryPointHeader, nat), Fault>((x, q)) <==> ({
            let c = cursor(s, p)
                .flag(x.broken_link)
                .flag(x.closed_entry)
                .flag(x.panscan_flag)
                .flag(x.refdist_flag)
                .flag(x.loopfilter)
                .flag(x.fastuvmc)
                .flag(x.extended_mv)
                .u8(2, x.dquant)
                .flag(x.vstransform)
                .flag(x.overlap)
                .u8(2, x.quantizer)
                .any(
                    |p: nat| u8s_at(
                        s,
                        p,
                        8,
                        ((if seq.hrd_param_flag { seq.hrd_num_leaky_buckets as u64 } else { 0u64 })) as nat,
                    ),
                )
                .flag(x.coded_size_flag);
            let width_minus1 = if x.coded_size_flag { c.next_u32(12) } else { 0 };
            let c = c.u32_if(x.coded_size_flag, 12, width_minus1, 0);
            let height_minus1 = if x.coded_size_flag { c.next_u32(12) } else { 0 };
            &&& c
                .u32_if(x.coded_size_flag, 12, height_minus1, 0)
                .flag_if(x.extended_mv, x.extended_dmv, false)
                .flag(x.range_mapy_flag)
                .u8_if(x.range_mapy_flag, 3, x.range_mapy, 0)
                .flag(x.range_mapuv_flag)
                .u8_if(x.range_mapuv_flag, 3, x.range_mapuv, 0)
                .ends(q)
            &&& x.coded_width == (if x.coded_size_flag { (width_minus1 + 1) as u32 } else { 0u32 })
            &&& x.coded_height == (if x.coded_size_flag { (height_minus1 + 1) as u32 } else { 0u32 })
        }),
{
    reveal(vc1_entry_at);
    reveal(adv_if);
    reveal(flag_if);
    reveal(u32_if);
    reveal(u8_if);
}

/// Reading the fields of an entry-point header (§6.2) never fails.
pub broadcast proof fn law_faults_vc1_entry(s: Seq<bool>, p: nat, seq: Vc1SequenceHeader)
    ensures
        #[trigger] vc1_entry_at(s, p, seq) is Ok,
{
    broadcast use crate::bits::law_faults_u8s;

    reveal(vc1_entry_at);
}

/// The fields of a picture header (§7.1.1) at position `p`, under the sequence
/// header `seq`.
#[verifier::opaque]
pub open spec fn vc1_pic_at(s: Seq<bool>, p: nat, seq: Vc1SequenceHeader) -> Read<Vc1PictureHeader> {
    let interlaced = flag_if(s, p, seq.interlace, false);
    let p = adv_if(p, 1, seq.interlace);
    let frame = flag_if(s, p, interlaced, false);
    let p = adv_if(p, 1, interlaced);
    let fcm = if !interlaced { 0 } else if !frame { 2 } else { 3 };
    let progressive = fcm == 0;
    let b0 = flag_if(s, p, progressive, false);
    let p = adv_if(p, 1, progressive);
    let b1 = flag_if(s, p, b0, false);
    let p = adv_if(p, 1, b0);
    let b2 = flag_if(s, p, b1, false);
    let p = adv_if(p, 1, b1);
    let b3 = flag_if(s, p, b2, false);
    let p = adv_if(p, 1, b2);
    let code = u8_if(s, p, 3, !progressive, 0);
    let p = adv_if(p, 3, !progressive);
    let picture_type = if !progressive {
        code
    } else if !b0 {
        1
    } else if !b1 {
        2
    } else if !b2 {
        0
    } else if !b3 {
        3
    } else {
        4
    };
    Ok((Vc1PictureHeader { fcm, picture_type }, p))
}

/// Parses the fields of a picture header (§7.1.1).
fn parse_vc1_pic(
    r: &mut BitReader<'_>,
    seq: &Vc1SequenceHeader,
) -> (res: Result<Vc1PictureHeader, BitstreamError>)
    ensures
        read_is(vc1_pic_at(old(r).bits(), old(r).pos(), *seq), res, *old(r), *final(r)),
{
    proof {
        reveal(vc1_pic_at);
    }
    let interlaced: bool = r.flag_if(seq.interlace, false);
    let frame: bool = r.flag_if(interlaced, false);
    let fcm: u8 = if !interlaced { 0 } else if !frame { 2 } else { 3 };
    let progressive: bool = fcm == 0;
    let b0: bool = r.flag_if(progressive, false);
    let b1: bool = r.flag_if(b0, false);
    let b2: bool = r.flag_if(b1, false);
    let b3: bool = r.flag_if(b2, false);
    let code: u8 = r.u8_if(3, !progressive, 0);
    let picture_type: u8 = if !progressive {
        code
    } else if !b0 {
        1
    } else if !b1 {
        2
    } else if !b2 {
        0
    } else if !b3 {
        3
    } else {
        4
    };
    Ok(Vc1PictureHeader { fcm, picture_type })
}

/// The layout of the fields of a picture header (§7.1.1): reading at `p` gives
/// `x` and ends at `q` if and only if these elements stand there in this order,
/// and the values are allowed.
pub proof fn law_layout_vc1_pic(s: Seq<bool>, p: nat, seq: Vc1SequenceHeader, x: Vc1PictureHeader, q: nat)
    ensures
        vc1_pic_at(s, p, seq) == Ok::<(Vc1PictureHeader, nat), Fault>((x, q)) <==> ({
            let c = cursor(s, p);
            let interlaced = if seq.interlace { c.next_flag() } else { false };
            let c = c.flag_if(seq.interlace, interlaced, false);
            let frame = if interlaced { c.next_flag() } else { false };
            let fcm: u8 = if !interlaced { 0 } else if !frame { 2 } else { 3 };
            let progressive = fcm == 0;
            let c = c.flag_if(interlaced, frame, false);
            let b0 = if progressive { c.next_flag() } else { false };
            let c = c.flag_if(progressive, b0, false);
            let b1 = if b0 { c.next_flag() } else { false };
            let c = c.flag_if(b0, b1, false);
            let b2 = if b1 { c.next_flag() } else { false };
            let c = c.flag_if(b1, b2, false);
            let b3 = if b2 { c.next_flag() } else { false };
            let c = c.flag_if(b2, b3, false);
            let code = if !progressive { c.next_u8(3) } else { 0 };
            let picture_type: u8 = if !progressive {
                code
            } else if !b0 {
                1
            } else if !b1 {
                2
            } else if !b2 {
                0
            } else if !b3 {
                3
            } else {
                4
            };
            &&& c.u8_if(!progressive, 3, code, 0).ends(q)
            &&& x.fcm == fcm
            &&& x.picture_type == picture_type
        }),
{
    reveal(vc1_pic_at);
    reveal(adv_if);
    reveal(flag_if);
    reveal(u8_if);
}

/// Reading the fields of a picture header (§7.1.1) never fails.
pub broadcast proof fn law_faults_vc1_pic(s: Seq<bool>, p: nat, seq: Vc1SequenceHeader)
    ensures
        #[trigger] vc1_pic_at(s, p, seq) is Ok,
{
    reveal(vc1_pic_at);
}

// ─────────────────────────── Header parsers ─────────────────────────────────

/// Parse an Advanced-profile sequence header. `bytes` is the buffer
/// starting **after** the `00 00 01 0F` start code (i.e. at the
/// PROFILE field). The parser errors if PROFILE is not 3.
pub fn parse_sequence_header_advanced(bytes: &[u8]) -> (res: Result<Vc1SequenceHeader, BitstreamError>)
    ensures
        outcome_is(first_read(bytes@, 6, vc1_seq_at(bits_of(bytes@), 0)), res),
{
    if bytes.len() < 6 {
        return Err(BitstreamError::unexpected_end("VC-1 sequence header shorter than 6 bytes"));
    }
    let mut r = BitReader::new(bytes);
    parse_vc1_seq(&mut r)
}

/// Parse an entry-point header. The parser needs the previously
/// decoded sequence header so it can know how many HRD_FULL bytes
/// to skip, plus whether `extended_mv` was already signalled.
pub fn parse_entry_point_header(bytes: &[u8], seq: &Vc1SequenceHeader) -> (res: Result<
    Vc1EntryPointHeader,
    BitstreamError,
>)
    ensures
        outcome_is(first_read(bytes@, 1, vc1_entry_at(bits_of(bytes@), 0, *seq)), res),
{
    if bytes.len() < 1 {
        return Err(BitstreamError::unexpected_end("VC-1 entry-point header empty"));
    }
    let mut r = BitReader::new(bytes);
    parse_vc1_entry(&mut r, seq)
}

/// Parse a minimal frame-BDU picture header (§7.1.1). Only the FCM
/// (frame coding mode) and the picture type are extracted.
///
/// FCM is only present when interlace=1, as `0` (progressive frame, FCM=0),
/// `10` (interlaced field, FCM=2) or `11` (interlaced frame, FCM=3). The
/// picture type of a progressive frame is `0` (P), `10` (B), `110` (I), `1110`
/// (BI) or `1111` (skipped); otherwise it is a 3-bit number.
pub fn parse_picture_header(
    bytes: &[u8],
    seq: &Vc1SequenceHeader,
) -> (res: Result<Vc1PictureHeader, BitstreamError>)
    ensures
        outcome_is(first_read(bytes@, 1, vc1_pic_at(bits_of(bytes@), 0, *seq)), res),
{
    if bytes.len() < 1 {
        return Err(BitstreamError::unexpected_end("VC-1 picture header empty"));
    }
    let mut r = BitReader::new(bytes);
    parse_vc1_pic(&mut r, seq)
}

// ─────────────────────────── End-to-end walker ──────────────────────────────

/// The first BDU of type `t` from number `i` on, the number of BDUs if there is
/// none.
pub open spec fn first_bdu(bdus: Seq<VcBduModel>, i: int, t: u8) -> int
    decreases bdus.len() - i,
{
    if i >= bdus.len() {
        bdus.len() as int
    } else if bdus[i].bdu_type == t {
        i
    } else {
        first_bdu(bdus, i + 1, t)
    }
}

fn find_bdu(bdus: &Vec<VcBdu<'_>>, i: usize, t: u8) -> (k: usize)
    requires
        i <= bdus@.len(),
    ensures
        k == first_bdu(seq_view(bdus@), i as int, t),
        i <= k <= bdus@.len(),
{
    let mut k: usize = i;
    while k < bdus.len()
        invariant
            i <= k <= bdus@.len(),
            first_bdu(seq_view(bdus@), i as int, t) == first_bdu(seq_view(bdus@), k as int, t),
        decreases bdus@.len() - k,
    {
        assert(seq_view(bdus@)[k as int] == bdus@[k as int]@);
        if bdus[k].bdu_type == t {
            return k;
        }
        k = k + 1;
    }
    k
}

/// The headers of the first picture of a stream, and the payload of its frame.
pub open spec fn first_picture_of(b: Seq<u8>) -> Result<
    (Vc1SequenceHeader, Vc1EntryPointHeader, Vc1PictureHeader, Seq<u8>),
    Fault,
> {
    let bdus = bdus_of(b);
    let s = first_bdu(bdus, 0, BDU_SEQUENCE_HEADER);
    if s >= bdus.len() {
        Err(Fault::Invalid)
    } else {
        match first_read(bdus[s].payload, 6, vc1_seq_at(bits_of(bdus[s].payload), 0)) {
            Err(f) => Err(f),
            Ok(seq) => {
                let e = first_bdu(bdus, s + 1, BDU_ENTRY_POINT);
                if e >= bdus.len() {
                    Err(Fault::Invalid)
                } else {
                    match first_read(bdus[e].payload, 1, vc1_entry_at(bits_of(bdus[e].payload), 0, seq)) {
                        Err(f) => Err(f),
                        Ok(entry) => {
                            let p = first_bdu(bdus, e + 1, BDU_FRAME);
                            if p >= bdus.len() {
                                Err(Fault::Invalid)
                            } else {
                                match first_read(bdus[p].payload, 1, vc1_pic_at(bits_of(bdus[p].payload), 0, seq)) {
                                    Err(f) => Err(f),
                                    Ok(pic) => Ok((seq, entry, pic, bdus[p].payload)),
                                }
                            }
                        },
                    }
                }
            },
        }
    }
}

/// Walk an Annex-G start-code stream, find the first sequence
/// header, the first entry-point header that follows it, and the
/// first frame BDU after that; parse all three and return them
/// together with a slice covering the frame BDU's payload.
pub fn parse_first_picture<'a>(stream: &'a [u8]) -> (res: Result<Vc1FirstPictureParse<'a>, BitstreamError>)
    ensures
        match first_picture_of(stream@) {
            Ok((seq, entry, pic, payload)) => {
                &&& res matches Ok(v)
                &&& v.sequence_header == seq
                &&& v.entry_point == entry
                &&& v.picture_header == pic
                &&& v.frame_payload@ == payload
            },
            Err(f) => res matches Err(e) && e.fault() == f,
        },
{
    let bdus = split_bdus(stream);
    let ghost models = seq_view(bdus@);
    let s: usize = find_bdu(&bdus, 0, BDU_SEQUENCE_HEADER);
    if s >= bdus.len() {
        return Err(BitstreamError::invalid("VC-1: no sequence header BDU in stream"));
    }
    assert(models[s as int] == bdus@[s as int]@);
    let sequence_header = parse_sequence_header_advanced(bdus[s].payload)?;
    let e: usize = find_bdu(&bdus, s + 1, BDU_ENTRY_POINT);
    if e >= bdus.len() {
        return Err(BitstreamError::invalid("VC-1: no entry-point BDU in stream"));
    }
    assert(models[e as int] == bdus@[e as int]@);
    let entry_point = parse_entry_point_header(bdus[e].payload, &sequence_header)?;
    let p: usize = find_bdu(&bdus, e + 1, BDU_FRAME);
    if p >= bdus.len() {
        return Err(BitstreamError::invalid("VC-1: no frame BDU in stream"));
    }
    assert(models[p as int] == bdus@[p as int]@);
    let picture_header = parse_picture_header(bdus[p].payload, &sequence_header)?;
    Ok(Vc1FirstPictureParse { sequence_header, entry_point, picture_header, frame_payload: bdus[p].payload })
}

/// The data units of a stream: one for each start code, of the type in the byte behind
/// `00 00 01`, and with the bytes up to the next start code or to the end.
pub proof fn law_bdus(b: Seq<u8>, k: int)
    requires
        0 <= k < codes_from(b, 0).len(),
    ensures
        ({
            let e = codes_from(b, 0)[k];
            let bdu = bdus_of(b)[k];
            &&& bdus_of(b).len() == codes_from(b, 0).len()
            &&& e + 3 < b.len() && b[e] == 0 && b[e + 1] == 0 && b[e + 2] == 1
            &&& bdu.bdu_type == b[e + 3]
            &&& bdu.payload == b.subrange(e + 4, next_code(b, e + 4))
        }),
{
    law_codes_found(b, 0);
    let e = codes_from(b, 0)[k];
    assert(code_at(b, e));
}

/// The first data unit of a type from number `i` on.
pub proof fn law_first_bdu(bdus: Seq<VcBduModel>, i: int, t: u8, j: int)
    requires
        0 <= i <= bdus.len(),
    ensures
        ({
            let k = first_bdu(bdus, i, t);
            &&& i <= k <= bdus.len()
            &&& k < bdus.len() ==> bdus[k].bdu_type == t
            &&& i <= j < k ==> bdus[j].bdu_type != t
        }),
    decreases bdus.len() - i,
{
    if i < bdus.len() && bdus[i].bdu_type != t {
        law_first_bdu(bdus, i + 1, t, j);
    }
}

/// The first picture of a stream is the first frame (type 0x0D) behind the first entry
/// point (0x0E) behind the first sequence header (0x0F), each parsed under the sequence
/// header.
pub proof fn law_first_picture(b: Seq<u8>)
    ensures
        ({
            let bdus = bdus_of(b);
            let s = first_bdu(bdus, 0, 0x0f);
            let e = first_bdu(bdus, s + 1, 0x0e);
            let p = first_bdu(bdus, e + 1, 0x0d);
            match first_picture_of(b) {
                Ok((seq, entry, pic, payload)) => {
                    &&& s < bdus.len() && e < bdus.len() && p < bdus.len()
                    &&& bdus[s].payload.len() >= 6
                    &&& cursor(bits_of(bdus[s].payload), 0).part(
                        |q: nat| vc1_seq_at(bits_of(bdus[s].payload), q),
                        seq,
                    ).good
                    &&& bdus[e].payload.len() >= 1
                    &&& cursor(bits_of(bdus[e].payload), 0).part(
                        |q: nat| vc1_entry_at(bits_of(bdus[e].payload), q, seq),
                        entry,
                    ).good
                    &&& bdus[p].payload.len() >= 1
                    &&& cursor(bits_of(bdus[p].payload), 0).part(
                        |q: nat| vc1_pic_at(bits_of(bdus[p].payload), q, seq),
                        pic,
                    ).good
                    &&& payload == bdus[p].payload
                },
                Err(_) => {
                    ||| s >= bdus.len() || e >= bdus.len() || p >= bdus.len()
                    ||| bdus[s].payload.len() < 6 || bdus[e].payload.len() < 1 || bdus[p].payload.len() < 1
                    ||| match vc1_seq_at(bits_of(bdus[s].payload), 0) {
                        Ok((seq, _)) => vc1_entry_at(bits_of(bdus[e].payload), 0, seq) is Err || vc1_pic_at(
                            bits_of(bdus[p].payload),
                            0,
                            seq,
                        ) is Err,
                        Err(_) => true,
                    }
                },
            }
        }),
{
}

/// Each field of the model of a [`VcBdu`] is the field of that name.
pub proof fn law_fields_of_vc_bdu(x: VcBdu<'_>)
    ensures
        x@.bdu_type == x.bdu_type,
        x@.payload == x.payload@,
{
}

/// [`parse_sequence_header_advanced`] gives the sequence header at the start of the bytes, of which there must be at
/// least 6.
pub proof fn law_parse_sequence_header_advanced(bytes: &[u8], res: Result<Vc1SequenceHeader, BitstreamError>)
    requires
        call_ensures(parse_sequence_header_advanced, (bytes,), res),
    ensures
        match res {
            Ok(v) => bytes@.len() >= 6
                && cursor(bits_of(bytes@), 0).part(|p: nat| vc1_seq_at(bits_of(bytes@), p), v).good,
            Err(e) => if bytes@.len() < 6 {
                e.fault() == Fault::End
            } else {
                vc1_seq_at(bits_of(bytes@), 0) == Err::<(Vc1SequenceHeader, nat), Fault>(e.fault())
            },
        },
{
}

/// [`parse_entry_point_header`] gives the entry-point header at the start of the bytes, of which there must be at
/// least 1.
pub proof fn law_parse_entry_point_header(
    bytes: &[u8],
    seq: Vc1SequenceHeader,
    res: Result<Vc1EntryPointHeader,
    BitstreamError>,
)
    requires
        call_ensures(parse_entry_point_header, (bytes, &seq), res),
    ensures
        match res {
            Ok(v) => bytes@.len() >= 1
                && cursor(bits_of(bytes@), 0).part(|p: nat| vc1_entry_at(bits_of(bytes@), p, seq), v).good,
            Err(e) => if bytes@.len() < 1 {
                e.fault() == Fault::End
            } else {
                vc1_entry_at(bits_of(bytes@), 0, seq) == Err::<(Vc1EntryPointHeader, nat), Fault>(e.fault())
            },
        },
{
}

/// [`parse_picture_header`] gives the picture header at the start of the bytes, of which there must be at
/// least 1.
pub proof fn law_parse_picture_header(
    bytes: &[u8],
    seq: Vc1SequenceHeader,
    res: Result<Vc1PictureHeader,
    BitstreamError>,
)
    requires
        call_ensures(parse_picture_header, (bytes, &seq), res),
    ensures
        match res {
            Ok(v) => bytes@.len() >= 1
                && cursor(bits_of(bytes@), 0).part(|p: nat| vc1_pic_at(bits_of(bytes@), p, seq), v).good,
            Err(e) => if bytes@.len() < 1 {
                e.fault() == Fault::End
            } else {
                vc1_pic_at(bits_of(bytes@), 0, seq) == Err::<(Vc1PictureHeader, nat), Fault>(e.fault())
            },
        },
{
}

/// The first picture is given with its headers and its bytes.
pub proof fn law_parse_first_picture(stream: &[u8], res: Result<Vc1FirstPictureParse<'_>, BitstreamError>)
    requires
        call_ensures(parse_first_picture, (stream,), res),
    ensures
        match res {
            Ok(v) => first_picture_of(stream@) == Ok::<
                (Vc1SequenceHeader, Vc1EntryPointHeader, Vc1PictureHeader, Seq<u8>),
                Fault,
            >((v.sequence_header, v.entry_point, v.picture_header, v.frame_payload@)),
            Err(e) => first_picture_of(stream@) == Err::<
                (Vc1SequenceHeader, Vc1EntryPointHeader, Vc1PictureHeader, Seq<u8>),
                Fault,
            >(e.fault()),
        },
{
}

} // verus!
