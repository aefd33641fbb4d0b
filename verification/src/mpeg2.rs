//! MPEG-2 / H.262 sequence-header, picture-header and extension
//! parser.
//!
//! This is **not** a full MPEG-2 decoder, only the parameter-buffer-shaped
//! header bits that hardware backends need.
//!
//! MPEG-2 uses byte-aligned start codes `00 00 01 XX` (no
//! emulation-prevention bytes). The headers are:
//!
//! - sequence_header (start_code 0xb3)
//! - sequence_extension (extension_start_code 0xb5 + extension_id 0x1)
//! - picture_header (start_code 0x00)
//! - picture_coding_extension (start_code 0xb5 + extension_id 0x8)
//!
//! Bits past the end of the buffer read as zero, beyond the shortest length
//! that each parser asks for.
use crate::bit_reader::{BitReader, read_is, read_view_is};
use crate::bits::{
    Read, adv, adv_if, bits_of, flag_at, law_faults_u8s, opt_view, read_some, u32_at, u8_at,
    u8_if, u8s_at,
};
use crate::layout::cursor;
use crate::scan::{
    law_zigzag_order, law_zigzag_places, law_zigzag_visits_once, lemma_zigzag_inside, zigzag_at,
    zigzag_places, zigzag_raster,
};
use crate::start_code::{
    code_at, codes_from, find_code, found, law_codes_found, lemma_next_code, next_code,
};
use crate::message::Message;
use crate::{BitstreamError, Fault};
use vstd::prelude::*;

verus! {

// ─────────────────────────── Start codes ────────────────────────────────────

/// `picture_start_code` — see ITU-T H.262 §6.2.3.
pub const START_CODE_PICTURE: u8 = 0x00;

/// First slice start code (slice codes occupy 0x01..=0xAF).
pub const START_CODE_SLICE_FIRST: u8 = 0x01;

/// Last slice start code (slice codes occupy 0x01..=0xAF).
pub const START_CODE_SLICE_LAST: u8 = 0xAF;

/// `sequence_header_code` — §6.2.2.
pub const START_CODE_SEQUENCE_HEADER: u8 = 0xB3;

/// `extension_start_code` — §6.2.2.3 / §6.2.3.1.
pub const START_CODE_EXTENSION: u8 = 0xB5;

/// `sequence_end_code`.
pub const START_CODE_SEQUENCE_END: u8 = 0xB7;

/// `group_start_code` — §6.2.2.6.
pub const START_CODE_GROUP_OF_PICTURES: u8 = 0xB8;

/// `extension_start_code_identifier` for sequence extension (§6.2.2.3).
pub const EXTENSION_ID_SEQUENCE: u8 = 0x1;

/// `extension_start_code_identifier` for picture coding extension
/// (§6.2.3.1).
pub const EXTENSION_ID_PICTURE_CODING: u8 = 0x8;

// ─────────────────────────── Default quantizer matrices ─────────────────────

/// Default intra-quantizer matrix (zig-zag scan order, ISO 13818-2
/// table 7-3).
pub const DEFAULT_INTRA_QUANT: [u8; 64] = [
    8, 16, 16, 19, 16, 19, 22, 22,
    22, 22, 22, 22, 26, 24, 26, 27,
    27, 27, 26, 26, 26, 26, 27, 27,
    27, 29, 29, 29, 34, 34, 34, 29,
    29, 29, 27, 27, 29, 29, 32, 32,
    34, 34, 37, 38, 37, 35, 35, 34,
    35, 38, 38, 40, 40, 40, 48, 48,
    46, 46, 56, 56, 58, 69, 69, 83,
];

/// Default non-intra-quantizer matrix (uniform 16/16, ISO 13818-2
/// table 7-4).
pub const DEFAULT_NON_INTRA_QUANT: [u8; 64] = [
    16, 16, 16, 16, 16, 16, 16, 16, 16, 16, 16, 16, 16, 16, 16, 16,
    16, 16, 16, 16, 16, 16, 16, 16, 16, 16, 16, 16, 16, 16, 16, 16,
    16, 16, 16, 16, 16, 16, 16, 16, 16, 16, 16, 16, 16, 16, 16, 16,
    16, 16, 16, 16, 16, 16, 16, 16, 16, 16, 16, 16, 16, 16, 16, 16,
];

/// `r` is the matrix `m`, which is in zig-zag scan order, in raster scan order.
pub open spec fn is_raster_of(r: Seq<u8>, m: Seq<u8>) -> bool {
    r.len() == 64 && forall|i: int| 0 <= i < 64 ==> r[zigzag_raster(i as nat)] == #[trigger] m[i]
}

/// The default intra-quantizer matrix of ISO 13818-2, row by row.
pub open spec fn default_intra_matrix() -> Seq<u8> {
    seq![
        8u8, 16, 19, 22, 26, 27, 29, 34,
        16, 16, 22, 24, 27, 29, 34, 37,
        19, 22, 26, 27, 29, 34, 34, 38,
        22, 22, 26, 27, 29, 34, 37, 40,
        22, 26, 27, 29, 32, 35, 40, 48,
        26, 27, 29, 32, 35, 40, 48, 58,
        26, 27, 29, 34, 38, 46, 56, 69,
        27, 29, 35, 38, 46, 56, 69, 83,
    ]
}

/// The default non-intra-quantizer matrix of ISO 13818-2: 16 everywhere.
pub open spec fn default_non_intra_matrix() -> Seq<u8> {
    Seq::new(64, |i: int| 16u8)
}

/// Convert a quantizer matrix from zig-zag to raster scan order. The
/// HW backends expect raster order in their parameter buffers.
pub fn zigzag_to_raster_quant(zz: &[u8; 64]) -> (out: [u8; 64])
    ensures
        is_raster_of(out@, zz@),
{
    let mut out: [u8; 64] = [0; 64];
    let mut x: u8 = 0;
    let mut y: u8 = 0;
    let mut i: usize = 0;
    while i < 64
        invariant
            i <= 64,
            i < 64 ==> (x, y) == zigzag_at(i as nat),
            forall|j: int| 0 <= j < i ==> out@[zigzag_raster(j as nat)] == #[trigger] zz@[j],
        decreases 64 - i,
    {
        proof {
            lemma_zigzag_inside(i as nat);
            if i < 63 {
                lemma_zigzag_inside((i + 1) as nat);
            }
        }
        let ghost before = out@;
        out[8 * y as usize + x as usize] = zz[i];
        proof {
            assert forall|j: int| 0 <= j < i + 1 implies out@[zigzag_raster(j as nat)] == #[trigger] zz@[j] by {
                if j < i {
                    law_zigzag_visits_once(j as nat, i as nat);
                    assert(before[zigzag_raster(j as nat)] == zz@[j]);
                }
            }
        }
        if (x + y) % 2 == 0 {
            if x >= 7 {
                y = y + 1;
            } else if y == 0 {
                x = x + 1;
            } else {
                x = x + 1;
                y = y - 1;
            }
        } else {
            if y >= 7 {
                x = x + 1;
            } else if x == 0 {
                y = y + 1;
            } else {
                x = x - 1;
                y = y + 1;
            }
        }
        i = i + 1;
    }
    out
}

// ─────────────────────────── Start-code framing ─────────────────────────────

/// `out` lists the start codes of `b`: the byte behind `00 00 01`, and the position
/// behind that byte.
pub open spec fn start_codes_are(b: Seq<u8>, out: Seq<(u8, usize)>) -> bool {
    &&& out.len() == codes_from(b, 0).len()
    &&& forall|k: int|
        0 <= k < out.len() ==> {
            let e = codes_from(b, 0)[k];
            (#[trigger] out[k]).0 == b[e + 3] && out[k].1 == e + 4
        }
}

/// The list of start codes is sound and complete: every entry stands behind a start
/// code `00 00 01 XX` of the buffer, no two of them overlap, and every start code is
/// listed but one that begins in the last byte of another.
pub proof fn law_every_start_code(b: Seq<u8>, out: Seq<(u8, usize)>)
    requires
        start_codes_are(b, out),
    ensures
        forall|k: int|
            0 <= k < out.len()
                ==> 4 <= (#[trigger] out[k]).1
                && code_at(b, out[k].1 - 4)
                && out[k].0 == b[out[k].1 - 1],
        forall|k: int, m: int| 0 <= k < m < out.len() ==> (#[trigger] out[k]).1 + 4 <= (#[trigger] out[m]).1,
        forall|i: int|
            0 <= i && #[trigger] code_at(b, i) ==> exists|k: int|
                0 <= k < out.len() && ((#[trigger] out[k]).1 == i + 4 || out[k].1 == i + 1),
{
    let codes = codes_from(b, 0);
    law_codes_found(b, 0);
    assert forall|k: int| 0 <= k < out.len() implies 4 <= (#[trigger] out[k]).1 && code_at(b, out[k].1 - 4)
        && out[k].0 == b[out[k].1 - 1] by {
        assert(code_at(b, codes[k]));
    }
    assert forall|k: int, m: int| 0 <= k < m < out.len() implies (#[trigger] out[k]).1 + 4 <= (
        #[trigger] out[m]).1 by {
        assert(codes[k] + 4 <= codes[m]);
    }
    assert forall|i: int| 0 <= i && #[trigger] code_at(b, i) implies exists|k: int|
        0 <= k < out.len() && ((#[trigger] out[k]).1 == i + 4 || out[k].1 == i + 1) by {
        assert(found(codes, i));
        let k = choose|k: int| 0 <= k < codes.len() && (#[trigger] codes[k] == i || codes[k] + 3 == i);
        assert(out[k].1 == codes[k] + 4);
    }
}

/// Locate every MPEG-2 start code in `buf`. Returns a vec of
/// `(start_code_byte, payload_start_index)`: `start_code_byte` is
/// the byte immediately after `00 00 01`, and `payload_start_index`
/// points at the byte after that.
pub fn find_start_codes(buf: &[u8]) -> (out: Vec<(u8, usize)>)
    ensures
        start_codes_are(buf@, out@),
{
    let mut out: Vec<(u8, usize)> = Vec::new();
    let mut i: usize = 0;
    let ghost all = codes_from(buf@, 0);
    proof {
        assert(all.skip(0) =~= all);
    }
    loop
        invariant
            i <= buf@.len(),
            all == codes_from(buf@, 0),
            out@.len() <= all.len(),
            all.skip(out@.len() as int) == codes_from(buf@, i as int),
            forall|k: int|
                0 <= k < out@.len() ==> (#[trigger] out@[k]).0 == buf@[all[k] + 3] && out@[k].1 == all[k] + 4,
        ensures
            out@.len() == all.len(),
        decreases buf@.len() - i,
    {
        let e: usize = find_code(buf, i);
        if e >= buf.len() {
            proof {
                assert(all.skip(out@.len() as int).len() == 0);
            }
            break;
        }
        proof {
            let rest = all.skip(out@.len() as int);
            assert(rest[0] == all[out@.len() as int]);
            assert(rest.skip(1) =~= all.skip((out@.len() + 1) as int));
            assert((seq![e as int] + codes_from(buf@, e + 4)).skip(1) =~= codes_from(buf@, e + 4));
        }
        out.push((buf[e + 3], e + 4));
        i = e + 4;
    }
    out
}

/// The byte `c` is the start code of a slice.
pub open spec fn is_slice_code(c: u8) -> bool {
    START_CODE_SLICE_FIRST <= c <= START_CODE_SLICE_LAST
}

/// None of the first `k` start codes is that of a slice.
pub open spec fn no_slice_before(b: Seq<u8>, k: int) -> bool {
    forall|j: int| 0 <= j < k ==> !is_slice_code(b[#[trigger] codes_from(b, 0)[j] + 3])
}

/// The start code with number `k` is the first of a slice.
pub open spec fn first_slice_is(b: Seq<u8>, k: int) -> bool {
    0 <= k < codes_from(b, 0).len() && is_slice_code(b[codes_from(b, 0)[k] + 3]) && no_slice_before(b, k)
}

/// Find the byte offset of the first MPEG-2 slice start code
/// (0x00000101 .. 0x000001AF). Returns the offset of the leading
/// `00 00 01` byte triplet so callers can pass `&buf[off..]` to the
/// HW backend's bitstream submit.
pub fn find_first_slice(buf: &[u8]) -> (res: Option<usize>)
    ensures
        match res {
            Some(off) => exists|k: int| #[trigger] first_slice_is(buf@, k) && codes_from(buf@, 0)[k] == off,
            None => no_slice_before(buf@, codes_from(buf@, 0).len() as int),
        },
{
    let codes = find_start_codes(buf);
    let ghost all = codes_from(buf@, 0);
    let mut k: usize = 0;
    while k < codes.len()
        invariant
            k <= codes@.len(),
            all == codes_from(buf@, 0),
            codes@.len() == all.len(),
            forall|k: int|
                0 <= k < codes@.len()
                    ==> (#[trigger] codes@[k]).0 == buf@[all[k] + 3]
                    && codes@[k].1 == all[k] + 4,
            no_slice_before(buf@, k as int),
        decreases codes@.len() - k,
    {
        let (code, at) = codes[k];
        proof {
            assert(codes@[k as int].0 == buf@[all[k as int] + 3]);
            lemma_codes_inside(buf@, 0, k as int);
        }
        if START_CODE_SLICE_FIRST <= code && code <= START_CODE_SLICE_LAST {
            assert(first_slice_is(buf@, k as int));
            return Some(at - 4);
        }
        k = k + 1;
    }
    None
}

proof fn lemma_codes_inside(b: Seq<u8>, i: int, k: int)
    requires
        0 <= i <= b.len(),
        0 <= k < codes_from(b, i).len(),
    ensures
        0 <= codes_from(b, i)[k],
        code_at(b, codes_from(b, i)[k]),
    decreases k,
{
    lemma_next_code(b, i);
    let e = next_code(b, i);
    if k > 0 {
        lemma_codes_inside(b, e + 4, k - 1);
        assert(codes_from(b, i)[k] == codes_from(b, e + 4)[k - 1]);
    }
}

// ─────────────────────────── Output structs ─────────────────────────────────

/// Sequence header (§6.2.2).
#[derive(Debug, Clone, Default, PartialEq, Eq)]
pub struct Mpeg2SequenceHeader {
    pub horizontal_size: u32,
    pub vertical_size: u32,
    pub aspect_ratio_information: u8,
    pub frame_rate_code: u8,
    pub bit_rate: u32,
    pub vbv_buffer_size: u32,
    pub constrained_parameters_flag: bool,
    /// Present only if `load_intra_quantizer_matrix=1`. The matrix is
    /// given in zig-zag scan order — use [`zigzag_to_raster_quant`]
    /// before submitting to the HW backend.
    pub intra_quantiser_matrix: Option<[u8; 64]>,
    /// Same shape as `intra_quantiser_matrix`.
    pub non_intra_quantiser_matrix: Option<[u8; 64]>,
}

impl Mpeg2SequenceHeader {
    /// Effective intra-quantizer matrix in raster scan order (the
    /// custom matrix if present, otherwise the ISO 13818-2 default).
    pub fn intra_quantizer_matrix_raster(&self) -> (out: [u8; 64])
        ensures
            match self.intra_quantiser_matrix {
                Some(m) => is_raster_of(out@, m@),
                None => out@ == default_intra_matrix(),
            },
    {
        match &self.intra_quantiser_matrix {
            Some(m) => zigzag_to_raster_quant(m),
            None => {
                let m = DEFAULT_INTRA_QUANT;
                let out = zigzag_to_raster_quant(&m);
                proof {
                    law_default_intra_raster(out@);
                }
                out
            },
        }
    }

    /// Effective non-intra-quantizer matrix in raster scan order (the
    /// custom matrix if present, otherwise the ISO 13818-2 default).
    pub fn non_intra_quantizer_matrix_raster(&self) -> (out: [u8; 64])
        ensures
            match self.non_intra_quantiser_matrix {
                Some(m) => is_raster_of(out@, m@),
                None => out@ == default_non_intra_matrix(),
            },
    {
        match &self.non_intra_quantiser_matrix {
            Some(m) => zigzag_to_raster_quant(m),
            None => {
                let m = DEFAULT_NON_INTRA_QUANT;
                let out = zigzag_to_raster_quant(&m);
                proof {
                    law_default_non_intra_raster(out@);
                }
                out
            },
        }
    }
}

/// Every entry of a matrix in raster scan order is the entry at its place in
/// zig-zag order.
pub proof fn law_raster_entry(r: Seq<u8>, m: Seq<u8>, k: int)
    requires
        is_raster_of(r, m),
        0 <= k < 64,
    ensures
        0 <= zigzag_places()[k] < 64,
        r[k] == m[zigzag_places()[k]],
{
    law_zigzag_places(k);
    let i = zigzag_places()[k];
    law_zigzag_order(i as nat);
    assert(r[zigzag_raster(i as nat)] == m[i]);
}

proof fn lemma_raster_is(r: Seq<u8>, m: Seq<u8>, d: Seq<u8>)
    requires
        is_raster_of(r, m),
        d.len() == 64,
        forall|k: int| 0 <= k < 64 ==> #[trigger] d[k] == m[zigzag_places()[k]],
    ensures
        r == d,
{
    assert forall|k: int| 0 <= k < 64 implies r[k] == d[k] by {
        law_raster_entry(r, m, k);
    }
    assert(r =~= d);
}

proof fn lemma_default_intra_entries()
    ensures
        default_intra_matrix().len() == 64,
        forall|k: int|
            0 <= k < 64 ==> #[trigger] default_intra_matrix()[k] == DEFAULT_INTRA_QUANT@[zigzag_places()[k]],
{
}

proof fn lemma_default_intra_rows(r: Seq<u8>)
    requires
        r == default_intra_matrix(),
    ensures
        r.subrange(0, 8) == seq![8u8, 16, 19, 22, 26, 27, 29, 34],
        r.subrange(8, 16) == seq![16u8, 16, 22, 24, 27, 29, 34, 37],
        r.subrange(16, 24) == seq![19u8, 22, 26, 27, 29, 34, 34, 38],
        r.subrange(24, 32) == seq![22u8, 22, 26, 27, 29, 34, 37, 40],
        r.subrange(32, 40) == seq![22u8, 26, 27, 29, 32, 35, 40, 48],
        r.subrange(40, 48) == seq![26u8, 27, 29, 32, 35, 40, 48, 58],
        r.subrange(48, 56) == seq![26u8, 27, 29, 34, 38, 46, 56, 69],
        r.subrange(56, 64) == seq![27u8, 29, 35, 38, 46, 56, 69, 83],
        r[63] == 83,
{
    assert(r.subrange(0, 8) =~= seq![8u8, 16, 19, 22, 26, 27, 29, 34]);
    assert(r.subrange(8, 16) =~= seq![16u8, 16, 22, 24, 27, 29, 34, 37]);
}

/// The default intra-quantizer matrix, brought from zig-zag to raster scan order,
/// is the one of ISO 13818-2.
pub proof fn law_default_intra_raster(r: Seq<u8>)
    requires
        is_raster_of(r, DEFAULT_INTRA_QUANT@),
    ensures
        r == default_intra_matrix(),
        r.subrange(0, 8) == seq![8u8, 16, 19, 22, 26, 27, 29, 34],
        r.subrange(8, 16) == seq![16u8, 16, 22, 24, 27, 29, 34, 37],
        r.subrange(16, 24) == seq![19u8, 22, 26, 27, 29, 34, 34, 38],
        r.subrange(24, 32) == seq![22u8, 22, 26, 27, 29, 34, 37, 40],
        r.subrange(32, 40) == seq![22u8, 26, 27, 29, 32, 35, 40, 48],
        r.subrange(40, 48) == seq![26u8, 27, 29, 32, 35, 40, 48, 58],
        r.subrange(48, 56) == seq![26u8, 27, 29, 34, 38, 46, 56, 69],
        r.subrange(56, 64) == seq![27u8, 29, 35, 38, 46, 56, 69, 83],
        r[63] == 83,
{
    lemma_default_intra_entries();
    lemma_raster_is(r, DEFAULT_INTRA_QUANT@, default_intra_matrix());
    lemma_default_intra_rows(r);
}

proof fn lemma_default_non_intra_entry(i: int)
    requires
        0 <= i < 64,
    ensures
        DEFAULT_NON_INTRA_QUANT@[i] == 16,
{
}

/// The default non-intra-quantizer matrix is 16 everywhere, in either order.
pub proof fn law_default_non_intra_raster(r: Seq<u8>)
    requires
        is_raster_of(r, DEFAULT_NON_INTRA_QUANT@),
    ensures
        r == default_non_intra_matrix(),
{
    assert forall|k: int| 0 <= k < 64 implies r[k] == 16 by {
        law_raster_entry(r, DEFAULT_NON_INTRA_QUANT@, k);
        lemma_default_non_intra_entry(zigzag_places()[k]);
    }
    assert(r =~= default_non_intra_matrix());
}

/// A matrix in raster scan order holds every entry of the matrix in zig-zag
/// order at one place, so it determines that matrix.
pub proof fn law_raster_determines(r: Seq<u8>, m: Seq<u8>, n: Seq<u8>)
    requires
        is_raster_of(r, m),
        is_raster_of(r, n),
        m.len() == 64,
        n.len() == 64,
    ensures
        m == n,
{
    assert forall|i: int| 0 <= i < 64 implies m[i] == n[i] by {
        assert(r[zigzag_raster(i as nat)] == m[i]);
        assert(r[zigzag_raster(i as nat)] == n[i]);
    }
    assert(m =~= n);
}

/// Picture header (§6.2.3).
#[derive(Debug, Clone, Default, PartialEq, Eq)]
pub struct Mpeg2PictureHeader {
    pub temporal_reference: u32,
    /// 1=I, 2=P, 3=B (4=D for MPEG-1 only).
    pub picture_coding_type: u8,
    pub vbv_delay: u32,
    /// MPEG-1 only — kept for completeness.
    pub full_pel_forward_vector: u8,
    pub full_pel_backward_vector: u8,
    pub f_code: [[u8; 2]; 2],
}

/// Picture coding extension (§6.2.3.1).
#[derive(Debug, Clone, Default, PartialEq, Eq)]
pub struct Mpeg2PictureCodingExtension {
    pub f_code: [[u8; 2]; 2],
    pub intra_dc_precision: u8,
    pub picture_structure: u8,
    pub top_field_first: u8,
    pub frame_pred_frame_dct: u8,
    pub concealment_motion_vectors: u8,
    pub q_scale_type: u8,
    pub intra_vlc_format: u8,
    pub alternate_scan: u8,
    pub repeat_first_field: u8,
    pub chroma_420_type: u8,
    pub progressive_frame: u8,
}

/// Sequence extension (§6.2.2.3). Carries the high-level profile /
/// chroma-format / progressive / colour-primaries flags that
/// MPEG-2 layered on top of MPEG-1's sequence header.
#[derive(Debug, Clone, Default, PartialEq, Eq)]
pub struct Mpeg2SequenceExtension {
    pub profile_and_level_indication: u8,
    pub progressive_sequence: bool,
    /// 1 = 4:2:0, 2 = 4:2:2, 3 = 4:4:4.
    pub chroma_format: u8,
    pub horizontal_size_extension: u8,
    pub vertical_size_extension: u8,
    pub bit_rate_extension: u32,
    pub vbv_buffer_size_extension: u8,
    pub low_delay: bool,
    pub frame_rate_extension_n: u8,
    pub frame_rate_extension_d: u8,
}

// ─────────────────────────── Parsers ────────────────────────────────────────

/// A quantizer matrix of 64 bytes at position `p`.
#[verifier::opaque]
pub open spec fn matrix_at(s: Seq<bool>, p: nat) -> Read<Seq<u8>> {
    u8s_at(s, p, 8, 64)
}

fn parse_matrix(r: &mut BitReader<'_>) -> (res: Result<[u8; 64], BitstreamError>)
    ensures
        read_view_is(matrix_at(old(r).bits(), old(r).pos()), res, *old(r), *final(r)),
{
    proof {
        reveal(matrix_at);
    }
    let v = r.read_u8s(64, 8);
    let mut m: [u8; 64] = [0; 64];
    let mut i: usize = 0;
    while i < 64
        invariant
            i <= 64,
            v@.len() == 64,
            forall|j: int| 0 <= j < i ==> #[trigger] m@[j] == v@[j],
        decreases 64 - i,
    {
        m[i] = v[i];
        i = i + 1;
    }
    proof {
        assert(m@ =~= v@);
    }
    Ok(m)
}

/// The mathematical model of a [`Mpeg2SequenceHeader`].
pub struct Mpeg2SequenceHeaderModel {
    pub horizontal_size: u32,
    pub vertical_size: u32,
    pub aspect_ratio_information: u8,
    pub frame_rate_code: u8,
    pub bit_rate: u32,
    pub vbv_buffer_size: u32,
    pub constrained_parameters_flag: bool,
    pub intra_quantiser_matrix: Option<Seq<u8>>,
    pub non_intra_quantiser_matrix: Option<Seq<u8>>,
}

impl View for Mpeg2SequenceHeader {
    type V = Mpeg2SequenceHeaderModel;

    open spec fn view(&self) -> Mpeg2SequenceHeaderModel {
        Mpeg2SequenceHeaderModel {
            horizontal_size: self.horizontal_size,
            vertical_size: self.vertical_size,
            aspect_ratio_information: self.aspect_ratio_information,
            frame_rate_code: self.frame_rate_code,
            bit_rate: self.bit_rate,
            vbv_buffer_size: self.vbv_buffer_size,
            constrained_parameters_flag: self.constrained_parameters_flag,
            intra_quantiser_matrix: opt_view(self.intra_quantiser_matrix),
            non_intra_quantiser_matrix: opt_view(self.non_intra_quantiser_matrix),
        }
    }
}

/// The fields of a sequence header (§6.2.2) at position `p`.
#[verifier::opaque]
pub open spec fn m2_seq_at(s: Seq<bool>, p: nat) -> Read<Mpeg2SequenceHeaderModel> {
    let horizontal_size = u32_at(s, p, 12);
    let p = adv(p, 12);
    let vertical_size = u32_at(s, p, 12);
    let p = adv(p, 12);
    let aspect_ratio_information = u8_at(s, p, 4);
    let p = adv(p, 4);
    let frame_rate_code = u8_at(s, p, 4);
    let p = adv(p, 4);
    let bit_rate = u32_at(s, p, 18);
    let p = adv(p, 18);
    let _marker = u8_at(s, p, 1);
    let p = adv(p, 1);
    let vbv_buffer_size = u32_at(s, p, 10);
    let p = adv(p, 10);
    let constrained_parameters_flag = flag_at(s, p);
    let p = adv(p, 1);
    let present = flag_at(s, p);
    let p = adv(p, 1);
    match (if present { read_some(matrix_at(s, p)) } else { Ok((None, p)) })
    { Err(f) => Err(f), Ok((intra_quantiser_matrix, p)) => {
    let present = flag_at(s, p);
    let p = adv(p, 1);
    match (if present { read_some(matrix_at(s, p)) } else { Ok((None, p)) })
    { Err(f) => Err(f), Ok((non_intra_quantiser_matrix, p)) => {
    Ok((
        Mpeg2SequenceHeaderModel {
            horizontal_size,
            vertical_size,
            aspect_ratio_information,
            frame_rate_code,
            bit_rate,
            vbv_buffer_size,
            constrained_parameters_flag,
            intra_quantiser_matrix,
            non_intra_quantiser_matrix,
        },
        p,
    ))
    }}}}
}

/// Parses the fields of a sequence header (§6.2.2).
fn parse_m2_seq(r: &mut BitReader<'_>) -> (res: Result<Mpeg2SequenceHeader, BitstreamError>)
    ensures
        read_view_is(m2_seq_at(old(r).bits(), old(r).pos()), res, *old(r), *final(r)),
{
    proof {
        reveal(m2_seq_at);
    }
    let horizontal_size: u32 = r.u(12);
    let vertical_size: u32 = r.u(12);
    let aspect_ratio_information: u8 = r.u8(4);
    let frame_rate_code: u8 = r.u8(4);
    let bit_rate: u32 = r.u(18);
    let _marker: u8 = r.u8(1);
    let vbv_buffer_size: u32 = r.u(10);
    let constrained_parameters_flag: bool = r.flag();
    let present: bool = r.flag();
    let intra_quantiser_matrix = if present { Some(parse_matrix(r)?) } else { None };
    let present: bool = r.flag();
    let non_intra_quantiser_matrix = if present { Some(parse_matrix(r)?) } else { None };
    Ok(
        Mpeg2SequenceHeader {
            horizontal_size,
            vertical_size,
            aspect_ratio_information,
            frame_rate_code,
            bit_rate,
            vbv_buffer_size,
            constrained_parameters_flag,
            intra_quantiser_matrix,
            non_intra_quantiser_matrix,
        },
    )
}

/// The layout of the fields of a sequence header (§6.2.2): reading at `p` gives
/// `x` and ends at `q` if and only if these elements stand there in this order.
pub proof fn law_layout_m2_seq(s: Seq<bool>, p: nat, x: Mpeg2SequenceHeaderModel, q: nat)
    ensures
        m2_seq_at(s, p) == Ok::<(Mpeg2SequenceHeaderModel, nat), Fault>((x, q)) <==> cursor(s, p)
            .u32(12, x.horizontal_size)
            .u32(12, x.vertical_size)
            .u8(4, x.aspect_ratio_information)
            .u8(4, x.frame_rate_code)
            .u32(18, x.bit_rate)
            .skip(1)
            .u32(10, x.vbv_buffer_size)
            .flag(x.constrained_parameters_flag)
            .flagged(|p: nat| matrix_at(s, p), x.intra_quantiser_matrix)
            .flagged(|p: nat| matrix_at(s, p), x.non_intra_quantiser_matrix)
            .ends(q),
{
    reveal(m2_seq_at);
}

/// Reading the fields of a sequence header (§6.2.2) never fails.
pub broadcast proof fn law_faults_m2_seq(s: Seq<bool>, p: nat)
    ensures
        #[trigger] m2_seq_at(s, p) is Ok,
{
    broadcast use law_faults_matrix;

    reveal(m2_seq_at);
}

/// Each field of the model of a [`Mpeg2SequenceHeader`] is the field of that name.
pub proof fn law_view_m2_seq(x: Mpeg2SequenceHeader)
    ensures
        x@.horizontal_size == x.horizontal_size,
        x@.vertical_size == x.vertical_size,
        x@.aspect_ratio_information == x.aspect_ratio_information,
        x@.frame_rate_code == x.frame_rate_code,
        x@.bit_rate == x.bit_rate,
        x@.vbv_buffer_size == x.vbv_buffer_size,
        x@.constrained_parameters_flag == x.constrained_parameters_flag,
        x@.intra_quantiser_matrix == opt_view(x.intra_quantiser_matrix),
        x@.non_intra_quantiser_matrix == opt_view(x.non_intra_quantiser_matrix),
{
}

/// The fields of a picture header (§6.2.3) at position `p`.
#[verifier::opaque]
pub open spec fn m2_pic_at(s: Seq<bool>, p: nat) -> Read<Mpeg2PictureHeader> {
    let temporal_reference = u32_at(s, p, 10);
    let p = adv(p, 10);
    let picture_coding_type = u8_at(s, p, 3);
    let p = adv(p, 3);
    let vbv_delay = u32_at(s, p, 16);
    let p = adv(p, 16);
    let forward = picture_coding_type == 2 || picture_coding_type == 3;
    let full_pel_forward_vector = u8_if(s, p, 1, forward, 0);
    let p = adv_if(p, 1, forward);
    let forward_f_code = u8_if(s, p, 3, forward, 0);
    let p = adv_if(p, 3, forward);
    let backward = picture_coding_type == 3;
    let full_pel_backward_vector = u8_if(s, p, 1, backward, 0);
    let p = adv_if(p, 1, backward);
    let backward_f_code = u8_if(s, p, 3, backward, 0);
    let p = adv_if(p, 3, backward);
    Ok((Mpeg2PictureHeader {
        temporal_reference,
        picture_coding_type,
        vbv_delay,
        full_pel_forward_vector,
        full_pel_backward_vector,
        f_code: [[forward_f_code, forward_f_code], [backward_f_code, backward_f_code]],
    }, p))
}

/// Parses the fields of a picture header (§6.2.3).
fn parse_m2_pic(r: &mut BitReader<'_>) -> (res: Result<Mpeg2PictureHeader, BitstreamError>)
    ensures
        read_is(m2_pic_at(old(r).bits(), old(r).pos()), res, *old(r), *final(r)),
{
    proof {
        reveal(m2_pic_at);
    }
    let temporal_reference: u32 = r.u(10);
    let picture_coding_type: u8 = r.u8(3);
    let vbv_delay: u32 = r.u(16);
    let forward: bool = picture_coding_type == 2 || picture_coding_type == 3;
    let full_pel_forward_vector: u8 = r.u8_if(1, forward, 0);
    let forward_f_code: u8 = r.u8_if(3, forward, 0);
    let backward: bool = picture_coding_type == 3;
    let full_pel_backward_vector: u8 = r.u8_if(1, backward, 0);
    let backward_f_code: u8 = r.u8_if(3, backward, 0);
    Ok(Mpeg2PictureHeader {
        temporal_reference,
        picture_coding_type,
        vbv_delay,
        full_pel_forward_vector,
        full_pel_backward_vector,
        f_code: [[forward_f_code, forward_f_code], [backward_f_code, backward_f_code]],
    })
}

/// The layout of the fields of a picture header (§6.2.3): reading at `p` gives
/// `x` and ends at `q` if and only if these elements stand there in this order,
/// and the values are allowed.
pub proof fn law_layout_m2_pic(s: Seq<bool>, p: nat, x: Mpeg2PictureHeader, q: nat)
    ensures
        m2_pic_at(s, p) == Ok::<(Mpeg2PictureHeader, nat), Fault>((x, q)) <==> ({
            let forward = x.picture_coding_type == 2 || x.picture_coding_type == 3;
            let c = cursor(s, p)
                .u32(10, x.temporal_reference)
                .u8(3, x.picture_coding_type)
                .u32(16, x.vbv_delay)
                .u8_if(forward, 1, x.full_pel_forward_vector, 0);
            let forward_f_code = if forward { c.next_u8(3) } else { 0 };
            let backward = x.picture_coding_type == 3;
            let c = c
                .u8_if(forward, 3, forward_f_code, 0)
                .u8_if(backward, 1, x.full_pel_backward_vector, 0);
            let backward_f_code = if backward { c.next_u8(3) } else { 0 };
            &&& c.u8_if(backward, 3, backward_f_code, 0).ends(q)
            &&& x.f_code == [[forward_f_code, forward_f_code], [backward_f_code, backward_f_code]]
        }),
{
    reveal(m2_pic_at);
    reveal(adv_if);
    reveal(u8_if);
}

/// Reading the fields of a picture header (§6.2.3) never fails.
pub broadcast proof fn law_faults_m2_pic(s: Seq<bool>, p: nat)
    ensures
        #[trigger] m2_pic_at(s, p) is Ok,
{
    reveal(m2_pic_at);
}

/// The fields of a picture coding extension (§6.2.3.1) at position `p`.
#[verifier::opaque]
pub open spec fn m2_pce_at(s: Seq<bool>, p: nat) -> Read<Mpeg2PictureCodingExtension> {
    let ext_id = u8_at(s, p, 4);
    let p = adv(p, 4);
    if ext_id != EXTENSION_ID_PICTURE_CODING { Err(Fault::Invalid) } else {
    let f00 = u8_at(s, p, 4);
    let p = adv(p, 4);
    let f01 = u8_at(s, p, 4);
    let p = adv(p, 4);
    let f10 = u8_at(s, p, 4);
    let p = adv(p, 4);
    let f11 = u8_at(s, p, 4);
    let p = adv(p, 4);
    let intra_dc_precision = u8_at(s, p, 2);
    let p = adv(p, 2);
    let picture_structure = u8_at(s, p, 2);
    let p = adv(p, 2);
    let top_field_first = u8_at(s, p, 1);
    let p = adv(p, 1);
    let frame_pred_frame_dct = u8_at(s, p, 1);
    let p = adv(p, 1);
    let concealment_motion_vectors = u8_at(s, p, 1);
    let p = adv(p, 1);
    let q_scale_type = u8_at(s, p, 1);
    let p = adv(p, 1);
    let intra_vlc_format = u8_at(s, p, 1);
    let p = adv(p, 1);
    let alternate_scan = u8_at(s, p, 1);
    let p = adv(p, 1);
    let repeat_first_field = u8_at(s, p, 1);
    let p = adv(p, 1);
    let chroma_420_type = u8_at(s, p, 1);
    let p = adv(p, 1);
    let progressive_frame = u8_at(s, p, 1);
    let p = adv(p, 1);
    Ok((Mpeg2PictureCodingExtension {
        f_code: [[f00, f01], [f10, f11]],
        intra_dc_precision,
        picture_structure,
        top_field_first,
        frame_pred_frame_dct,
        concealment_motion_vectors,
        q_scale_type,
        intra_vlc_format,
        alternate_scan,
        repeat_first_field,
        chroma_420_type,
        progressive_frame,
    }, p)) }
}

/// Parses the fields of a picture coding extension (§6.2.3.1).
fn parse_m2_pce(r: &mut BitReader<'_>) -> (res: Result<Mpeg2PictureCodingExtension, BitstreamError>)
    ensures
        read_is(m2_pce_at(old(r).bits(), old(r).pos()), res, *old(r), *final(r)),
{
    proof {
        reveal(m2_pce_at);
    }
    let ext_id: u8 = r.u8(4);
    if ext_id != EXTENSION_ID_PICTURE_CODING {
        return Err(
            Message::new("MPEG-2 picture_coding_extension: ext_id=")
                .num(ext_id as i128)
                .with(" != 8")
                .invalid(),
        );
    }
    let f00: u8 = r.u8(4);
    let f01: u8 = r.u8(4);
    let f10: u8 = r.u8(4);
    let f11: u8 = r.u8(4);
    let intra_dc_precision: u8 = r.u8(2);
    let picture_structure: u8 = r.u8(2);
    let top_field_first: u8 = r.u8(1);
    let frame_pred_frame_dct: u8 = r.u8(1);
    let concealment_motion_vectors: u8 = r.u8(1);
    let q_scale_type: u8 = r.u8(1);
    let intra_vlc_format: u8 = r.u8(1);
    let alternate_scan: u8 = r.u8(1);
    let repeat_first_field: u8 = r.u8(1);
    let chroma_420_type: u8 = r.u8(1);
    let progressive_frame: u8 = r.u8(1);
    Ok(Mpeg2PictureCodingExtension {
        f_code: [[f00, f01], [f10, f11]],
        intra_dc_precision,
        picture_structure,
        top_field_first,
        frame_pred_frame_dct,
        concealment_motion_vectors,
        q_scale_type,
        intra_vlc_format,
        alternate_scan,
        repeat_first_field,
        chroma_420_type,
        progressive_frame,
    })
}

/// The layout of the fields of a picture coding extension (§6.2.3.1): reading
/// at `p` gives `x` and ends at `q` if and only if these elements stand there
/// in this order, and the values are allowed.
pub proof fn law_layout_m2_pce(s: Seq<bool>, p: nat, x: Mpeg2PictureCodingExtension, q: nat)
    ensures
        m2_pce_at(s, p) == Ok::<(Mpeg2PictureCodingExtension, nat), Fault>((x, q)) <==> ({
            let c = cursor(s, p);
            let ext_id = c.next_u8(4);
            let c = c.u8(4, ext_id);
            let f00 = c.next_u8(4);
            let c = c.u8(4, f00);
            let f01 = c.next_u8(4);
            let c = c.u8(4, f01);
            let f10 = c.next_u8(4);
            let c = c.u8(4, f10);
            let f11 = c.next_u8(4);
            &&& c
                .u8(4, f11)
                .u8(2, x.intra_dc_precision)
                .u8(2, x.picture_structure)
                .u8(1, x.top_field_first)
                .u8(1, x.frame_pred_frame_dct)
                .u8(1, x.concealment_motion_vectors)
                .u8(1, x.q_scale_type)
                .u8(1, x.intra_vlc_format)
                .u8(1, x.alternate_scan)
                .u8(1, x.repeat_first_field)
                .u8(1, x.chroma_420_type)
                .u8(1, x.progressive_frame)
                .ends(q)
            &&& ext_id == 0x8
            &&& x.f_code == [[f00, f01], [f10, f11]]
        }),
{
    reveal(m2_pce_at);
}

/// Reading the fields of a picture coding extension (§6.2.3.1) fails only with
/// an error of this class.
pub broadcast proof fn law_faults_m2_pce(s: Seq<bool>, p: nat)
    ensures
        #[trigger] m2_pce_at(s, p) matches Err(f) ==> f == Fault::Invalid,
{
    reveal(m2_pce_at);
}

/// The fields of a sequence extension (§6.2.2.3) at position `p`.
#[verifier::opaque]
pub open spec fn m2_ext_at(s: Seq<bool>, p: nat) -> Read<Mpeg2SequenceExtension> {
    let ext_id = u8_at(s, p, 4);
    let p = adv(p, 4);
    if ext_id != EXTENSION_ID_SEQUENCE { Err(Fault::Invalid) } else {
    let profile_and_level_indication = u8_at(s, p, 8);
    let p = adv(p, 8);
    let progressive_sequence = flag_at(s, p);
    let p = adv(p, 1);
    let chroma_format = u8_at(s, p, 2);
    let p = adv(p, 2);
    let horizontal_size_extension = u8_at(s, p, 2);
    let p = adv(p, 2);
    let vertical_size_extension = u8_at(s, p, 2);
    let p = adv(p, 2);
    let bit_rate_extension = u32_at(s, p, 12);
    let p = adv(p, 12);
    let _marker = u8_at(s, p, 1);
    let p = adv(p, 1);
    let vbv_buffer_size_extension = u8_at(s, p, 8);
    let p = adv(p, 8);
    let low_delay = flag_at(s, p);
    let p = adv(p, 1);
    let frame_rate_extension_n = u8_at(s, p, 2);
    let p = adv(p, 2);
    let frame_rate_extension_d = u8_at(s, p, 5);
    let p = adv(p, 5);
    Ok((
        Mpeg2SequenceExtension {
            profile_and_level_indication,
            progressive_sequence,
            chroma_format,
            horizontal_size_extension,
            vertical_size_extension,
            bit_rate_extension,
            vbv_buffer_size_extension,
            low_delay,
            frame_rate_extension_n,
            frame_rate_extension_d,
        },
        p,
    ))
    }
}

/// Parses the fields of a sequence extension (§6.2.2.3).
fn parse_m2_ext(r: &mut BitReader<'_>) -> (res: Result<Mpeg2SequenceExtension, BitstreamError>)
    ensures
        read_is(m2_ext_at(old(r).bits(), old(r).pos()), res, *old(r), *final(r)),
{
    proof {
        reveal(m2_ext_at);
    }
    let ext_id: u8 = r.u8(4);
    if ext_id != EXTENSION_ID_SEQUENCE {
        return Err(
            Message::new("MPEG-2 sequence_extension: ext_id=").num(ext_id as i128).with(" != 1").invalid(),
        );
    }
    let profile_and_level_indication: u8 = r.u8(8);
    let progressive_sequence: bool = r.flag();
    let chroma_format: u8 = r.u8(2);
    let horizontal_size_extension: u8 = r.u8(2);
    let vertical_size_extension: u8 = r.u8(2);
    let bit_rate_extension: u32 = r.u(12);
    let _marker: u8 = r.u8(1);
    let vbv_buffer_size_extension: u8 = r.u8(8);
    let low_delay: bool = r.flag();
    let frame_rate_extension_n: u8 = r.u8(2);
    let frame_rate_extension_d: u8 = r.u8(5);
    Ok(
        Mpeg2SequenceExtension {
            profile_and_level_indication,
            progressive_sequence,
            chroma_format,
            horizontal_size_extension,
            vertical_size_extension,
            bit_rate_extension,
            vbv_buffer_size_extension,
            low_delay,
            frame_rate_extension_n,
            frame_rate_extension_d,
        },
    )
}

/// The layout of the fields of a sequence extension (§6.2.2.3): reading at `p`
/// gives `x` and ends at `q` if and only if these elements stand there in this
/// order, and the values are allowed.
pub proof fn law_layout_m2_ext(s: Seq<bool>, p: nat, x: Mpeg2SequenceExtension, q: nat)
    ensures
        m2_ext_at(s, p) == Ok::<(Mpeg2SequenceExtension, nat), Fault>((x, q)) <==> ({
            let c = cursor(s, p);
            let ext_id = c.next_u8(4);
            &&& c
                .u8(4, ext_id)
                .u8(8, x.profile_and_level_indication)
                .flag(x.progressive_sequence)
                .u8(2, x.chroma_format)
                .u8(2, x.horizontal_size_extension)
                .u8(2, x.vertical_size_extension)
                .u32(12, x.bit_rate_extension)
                .skip(1)
                .u8(8, x.vbv_buffer_size_extension)
                .flag(x.low_delay)
                .u8(2, x.frame_rate_extension_n)
                .u8(5, x.frame_rate_extension_d)
                .ends(q)
            &&& ext_id == 0x1
        }),
{
    reveal(m2_ext_at);
}

/// Reading the fields of a sequence extension (§6.2.2.3) fails only with an
/// error of this class.
pub broadcast proof fn law_faults_m2_ext(s: Seq<bool>, p: nat)
    ensures
        #[trigger] m2_ext_at(s, p) matches Err(f) ==> f == Fault::Invalid,
{
    reveal(m2_ext_at);
}

/// What is read from the start of a buffer of at least `min` bytes.
pub open spec fn first_read<T>(b: Seq<u8>, min: nat, got: Read<T>) -> Result<T, Fault> {
    if b.len() < min {
        Err(Fault::End)
    } else {
        match got {
            Ok((x, _)) => Ok(x),
            Err(f) => Err(f),
        }
    }
}

/// What a parser promises: the outcome that `want` gives.
pub open spec fn outcome_is<T>(want: Result<T, Fault>, got: Result<T, BitstreamError>) -> bool {
    match want {
        Ok(x) => got == Ok::<T, BitstreamError>(x),
        Err(f) => got matches Err(e) && e.fault() == f,
    }
}

/// Parse a sequence header. `bytes` is the buffer starting **after**
/// the `00 00 01 B3` start code (i.e. at the first payload byte).
pub fn parse_sequence_header(bytes: &[u8]) -> (res: Result<Mpeg2SequenceHeader, BitstreamError>)
    ensures
        match first_read(bytes@, 8, m2_seq_at(bits_of(bytes@), 0)) {
            Ok(h) => res matches Ok(v) && v@ == h,
            Err(f) => res matches Err(e) && e.fault() == f,
        },
{
    if bytes.len() < 8 {
        return Err(BitstreamError::unexpected_end("MPEG-2 sequence_header shorter than 8 bytes"));
    }
    let mut r = BitReader::new(bytes);
    parse_m2_seq(&mut r)
}

/// Parse a picture header. `bytes` is the buffer starting **after**
/// the `00 00 01 00` start code.
pub fn parse_picture_header(bytes: &[u8]) -> (res: Result<Mpeg2PictureHeader, BitstreamError>)
    ensures
        outcome_is(first_read(bytes@, 4, m2_pic_at(bits_of(bytes@), 0)), res),
{
    if bytes.len() < 4 {
        return Err(BitstreamError::unexpected_end("MPEG-2 picture_header shorter than 4 bytes"));
    }
    let mut r = BitReader::new(bytes);
    parse_m2_pic(&mut r)
}

/// Parse a picture coding extension (§6.2.3.1). `bytes` starts at the
/// first byte of the extension payload, the high 4 bits of which
/// must equal [`EXTENSION_ID_PICTURE_CODING`] (8).
pub fn parse_picture_coding_extension(
    bytes: &[u8],
) -> (res: Result<Mpeg2PictureCodingExtension, BitstreamError>)
    ensures
        outcome_is(first_read(bytes@, 4, m2_pce_at(bits_of(bytes@), 0)), res),
{
    if bytes.len() < 4 {
        return Err(BitstreamError::unexpected_end("MPEG-2 picture_coding_extension shorter than 4 bytes"));
    }
    let mut r = BitReader::new(bytes);
    parse_m2_pce(&mut r)
}

/// Parse a sequence extension (§6.2.2.3). `bytes` starts at the first
/// byte of the extension payload, the high 4 bits of which must equal
/// [`EXTENSION_ID_SEQUENCE`] (1).
pub fn parse_sequence_extension(bytes: &[u8]) -> (res: Result<Mpeg2SequenceExtension, BitstreamError>)
    ensures
        outcome_is(first_read(bytes@, 6, m2_ext_at(bits_of(bytes@), 0)), res),
{
    if bytes.len() < 6 {
        return Err(BitstreamError::unexpected_end("MPEG-2 sequence_extension shorter than 6 bytes"));
    }
    let mut r = BitReader::new(bytes);
    parse_m2_ext(&mut r)
}

/// The slices are the start codes from 0x01 to 0xAF.
pub proof fn law_slice_codes(c: u8)
    ensures
        is_slice_code(c) <==> 1 <= c <= 0xaf,
{
}

/// The first slice of a buffer is the first start code with a byte from 0x01 to 0xAF.
pub proof fn law_first_slice(b: Seq<u8>, k: int, j: int)
    requires
        first_slice_is(b, k),
    ensures
        ({
            let codes = codes_from(b, 0);
            &&& 0 <= k < codes.len()
            &&& 1 <= b[codes[k] + 3] <= 0xaf
            &&& 0 <= j < k ==> !(1 <= b[codes[j] + 3] <= 0xaf)
        }),
{
}

/// A quantizer matrix is 64 bytes, one for each entry in the order in which they are
/// coded.
pub proof fn law_layout_matrix(s: Seq<bool>, p: nat)
    ensures
        matrix_at(s, p) == u8s_at(s, p, 8, 64),
{
    reveal(matrix_at);
}

/// A header is read from the start of a buffer, which must have the bytes that it takes
/// at least.
pub proof fn law_first_read<T>(b: Seq<u8>, min: nat, got: Read<T>)
    ensures
        b.len() < min ==> first_read(b, min, got) == Err::<T, Fault>(Fault::End),
        b.len() >= min ==> match got {
            Ok((x, _)) => first_read(b, min, got) == Ok::<T, Fault>(x),
            Err(f) => first_read(b, min, got) == Err::<T, Fault>(f),
        },
{
}

/// Reading a matrix never fails.
pub broadcast proof fn law_faults_matrix(s: Seq<bool>, p: nat)
    ensures
        #[trigger] matrix_at(s, p) is Ok,
{
    broadcast use crate::bits::law_faults_u8s;

    reveal(matrix_at);
}

/// [`parse_sequence_header`] gives the sequence header at the start of the bytes, of which there must be at
/// least 8.
pub proof fn law_parse_sequence_header(bytes: &[u8], res: Result<Mpeg2SequenceHeader, BitstreamError>)
    requires
        call_ensures(parse_sequence_header, (bytes,), res),
    ensures
        match res {
            Ok(v) => bytes@.len() >= 8
                && cursor(bits_of(bytes@), 0).part(|p: nat| m2_seq_at(bits_of(bytes@), p), v@).good,
            Err(e) => if bytes@.len() < 8 {
                e.fault() == Fault::End
            } else {
                m2_seq_at(bits_of(bytes@), 0) == Err::<(Mpeg2SequenceHeaderModel, nat), Fault>(e.fault())
            },
        },
{
}

/// [`parse_picture_header`] gives the picture header at the start of the bytes, of which there must be at
/// least 4.
pub proof fn law_parse_picture_header(bytes: &[u8], res: Result<Mpeg2PictureHeader, BitstreamError>)
    requires
        call_ensures(parse_picture_header, (bytes,), res),
    ensures
        match res {
            Ok(v) => bytes@.len() >= 4
                && cursor(bits_of(bytes@), 0).part(|p: nat| m2_pic_at(bits_of(bytes@), p), v).good,
            Err(e) => if bytes@.len() < 4 {
                e.fault() == Fault::End
            } else {
                m2_pic_at(bits_of(bytes@), 0) == Err::<(Mpeg2PictureHeader, nat), Fault>(e.fault())
            },
        },
{
}

/// [`parse_picture_coding_extension`] gives the extension at the start of the bytes, of which there must be at
/// least 4.
pub proof fn law_parse_picture_coding_extension(
    bytes: &[u8],
    res: Result<Mpeg2PictureCodingExtension,
    BitstreamError>,
)
    requires
        call_ensures(parse_picture_coding_extension, (bytes,), res),
    ensures
        match res {
            Ok(v) => bytes@.len() >= 4
                && cursor(bits_of(bytes@), 0).part(|p: nat| m2_pce_at(bits_of(bytes@), p), v).good,
            Err(e) => if bytes@.len() < 4 {
                e.fault() == Fault::End
            } else {
                m2_pce_at(bits_of(bytes@), 0) == Err::<(Mpeg2PictureCodingExtension, nat), Fault>(e.fault())
            },
        },
{
}

/// [`parse_sequence_extension`] gives the extension at the start of the bytes, of which there must be at
/// least 6.
pub proof fn law_parse_sequence_extension(bytes: &[u8], res: Result<Mpeg2SequenceExtension, BitstreamError>)
    requires
        call_ensures(parse_sequence_extension, (bytes,), res),
    ensures
        match res {
            Ok(v) => bytes@.len() >= 6
                && cursor(bits_of(bytes@), 0).part(|p: nat| m2_ext_at(bits_of(bytes@), p), v).good,
            Err(e) => if bytes@.len() < 6 {
                e.fault() == Fault::End
            } else {
                m2_ext_at(bits_of(bytes@), 0) == Err::<(Mpeg2SequenceExtension, nat), Fault>(e.fault())
            },
        },
{
}

/// The first slice that is found is a start code with a byte from 0x01 to 0xAF, no start
/// code before it is one, and none is found only where there is none.
pub proof fn law_find_first_slice(buf: &[u8], res: Option<usize>, j: int)
    requires
        call_ensures(find_first_slice, (buf,), res),
        0 <= j < codes_from(buf@, 0).len(),
    ensures
        match res {
            Some(off) => {
                &&& off + 3 < buf@.len() && buf@[off as int] == 0 && buf@[off + 1] == 0 && buf@[off + 2] == 1
                &&& 1 <= buf@[off + 3] <= 0xaf
                &&& codes_from(buf@, 0)[j] < off ==> !(1 <= buf@[codes_from(buf@, 0)[j] + 3] <= 0xaf)
            },
            None => !(1 <= buf@[codes_from(buf@, 0)[j] + 3] <= 0xaf),
        },
{
    law_codes_found(buf@, 0);
    if let Some(off) = res {
        let k = choose|k: int| #[trigger] first_slice_is(buf@, k) && codes_from(buf@, 0)[k] == off;
        assert(code_at(buf@, codes_from(buf@, 0)[k]));
        if j > k {
            assert(codes_from(buf@, 0)[k] + 4 <= codes_from(buf@, 0)[j]);
        }
    }
}

/// The matrices of a sequence header in raster order are the coded ones, or the defaults.
pub proof fn law_header_matrices(x: Mpeg2SequenceHeader, a: [u8; 64], b: [u8; 64])
    requires
        call_ensures(Mpeg2SequenceHeader::intra_quantizer_matrix_raster, (&x,), a),
        call_ensures(Mpeg2SequenceHeader::non_intra_quantizer_matrix_raster, (&x,), b),
    ensures
        match x.intra_quantiser_matrix {
            Some(m) => is_raster_of(a@, m@),
            None => a@ == default_intra_matrix(),
        },
        match x.non_intra_quantiser_matrix {
            Some(m) => is_raster_of(b@, m@),
            None => b@.len() == 64 && forall|i: int| 0 <= i < 64 ==> #[trigger] b@[i] == 16,
        },
{
}

} // verus!
