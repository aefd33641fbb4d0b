//! IVF demuxer and muxer, a thin container used for raw VP8 / VP9
//! elementary streams when no other container is needed:
//!
//! - 32-byte global header:
//!   - bytes 0..4   `DKIF` magic
//!   - bytes 4..6   version (LE u16, must be 0)
//!   - bytes 6..8   header length (LE u16, must be 32)
//!   - bytes 8..12  codec FourCC (e.g. `VP80`, `VP90`)
//!   - bytes 12..14 width (LE u16)
//!   - bytes 14..16 height (LE u16)
//!   - bytes 16..20 framerate numerator (LE u32)
//!   - bytes 20..24 framerate denominator (LE u32)
//!   - bytes 24..28 frame count (LE u32)
//!   - bytes 28..32 reserved/unused
//! - per frame: 12-byte header (LE u32 size + LE u64 timestamp)
//!   followed by the frame payload bytes.
use crate::bits::{lemma_seq_view_push, seq_view};
use crate::message::Message;
use crate::{BitstreamError, Fault};
use vstd::prelude::*;
use vstd::slice::slice_subrange;

verus! {

/// FourCC for a VP8 IVF stream.
pub const IVF_FOURCC_VP80: [u8; 4] = [0x56, 0x50, 0x38, 0x30];

/// FourCC for a VP9 IVF stream.
pub const IVF_FOURCC_VP90: [u8; 4] = [0x56, 0x50, 0x39, 0x30];

/// Fixed length of the IVF global header in bytes.
pub const IVF_HEADER_LEN: usize = 32;

/// Fixed length of the per-frame IVF header (`size` + `timestamp`).
pub const IVF_FRAME_HEADER_LEN: usize = 12;

/// Maximum per-frame payload size representable in the on-wire u32
/// `size` field.
pub const IVF_FRAME_PAYLOAD_MAX: usize = 0xffff_ffff;

/// Parsed IVF global header.
#[derive(Debug, Clone, Copy, PartialEq, Eq)]
pub struct IvfHeader {
    pub fourcc: [u8; 4],
    pub width: u16,
    pub height: u16,
    pub framerate_num: u32,
    pub framerate_den: u32,
    pub frame_count: u32,
}

/// Borrowed view of one IVF frame.
#[derive(Debug, Clone, Copy)]
pub struct IvfFrame<'a> {
    pub timestamp: u64,
    pub payload: &'a [u8],
}

/// The mathematical model of an [`IvfHeader`].
pub struct IvfHeaderModel {
    pub fourcc: Seq<u8>,
    pub width: u16,
    pub height: u16,
    pub framerate_num: u32,
    pub framerate_den: u32,
    pub frame_count: u32,
}

impl View for IvfHeader {
    type V = IvfHeaderModel;

    open spec fn view(&self) -> IvfHeaderModel {
        IvfHeaderModel {
            fourcc: self.fourcc@,
            width: self.width,
            height: self.height,
            framerate_num: self.framerate_num,
            framerate_den: self.framerate_den,
            frame_count: self.frame_count,
        }
    }
}

/// The mathematical model of an [`IvfFrame`].
pub struct IvfFrameModel {
    pub timestamp: u64,
    pub payload: Seq<u8>,
}

impl<'a> View for IvfFrame<'a> {
    type V = IvfFrameModel;

    open spec fn view(&self) -> IvfFrameModel {
        IvfFrameModel { timestamp: self.timestamp, payload: self.payload@ }
    }
}

// ─────────────────────────── Little-endian numbers ──────────────────────────

/// A 16-bit little-endian number.
pub open spec fn le16(b: Seq<u8>, i: int) -> int {
    b[i] + 0x100 * b[i + 1]
}

/// A 32-bit little-endian number.
pub open spec fn le32(b: Seq<u8>, i: int) -> int {
    le16(b, i) + 0x1_0000 * le16(b, i + 2)
}

/// A 64-bit little-endian number.
pub open spec fn le64(b: Seq<u8>, i: int) -> int {
    le32(b, i) + 0x1_0000_0000 * le32(b, i + 4)
}

/// The bytes of a 16-bit little-endian number.
pub open spec fn le16_bytes(v: int) -> Seq<u8> {
    seq![(v % 0x100) as u8, (v / 0x100) as u8]
}

/// The bytes of a 32-bit little-endian number.
pub open spec fn le32_bytes(v: int) -> Seq<u8> {
    le16_bytes(v % 0x1_0000) + le16_bytes(v / 0x1_0000)
}

/// The bytes of a 64-bit little-endian number.
pub open spec fn le64_bytes(v: int) -> Seq<u8> {
    le32_bytes(v % 0x1_0000_0000) + le32_bytes(v / 0x1_0000_0000)
}

fn read_le16(b: &[u8], i: usize) -> (v: u16)
    requires
        i + 2 <= b@.len(),
    ensures
        v == le16(b@, i as int),
{
    proof {
        assert(b@.len() == b.len());
    }
    b[i] as u16 + 0x100 * b[i + 1] as u16
}

fn read_le32(b: &[u8], i: usize) -> (v: u32)
    requires
        i + 4 <= b@.len(),
    ensures
        v == le32(b@, i as int),
{
    proof {
        assert(b@.len() == b.len());
    }
    read_le16(b, i) as u32 + 0x1_0000 * read_le16(b, i + 2) as u32
}

fn read_le64(b: &[u8], i: usize) -> (v: u64)
    requires
        i + 8 <= b@.len(),
    ensures
        v == le64(b@, i as int),
{
    proof {
        assert(b@.len() == b.len());
    }
    read_le32(b, i) as u64 + 0x1_0000_0000 * read_le32(b, i + 4) as u64
}

fn push_le16(out: &mut Vec<u8>, v: u16)
    ensures
        final(out)@ == old(out)@ + le16_bytes(v as int),
{
    let ghost before = out@;
    out.push((v % 0x100) as u8);
    out.push((v / 0x100) as u8);
    proof {
        assert(out@ =~= before + le16_bytes(v as int));
    }
}

fn push_le32(out: &mut Vec<u8>, v: u32)
    ensures
        final(out)@ == old(out)@ + le32_bytes(v as int),
{
    let ghost before = out@;
    push_le16(out, (v % 0x1_0000) as u16);
    push_le16(out, (v / 0x1_0000) as u16);
    proof {
        assert(out@ =~= before + le32_bytes(v as int));
    }
}

fn push_le64(out: &mut Vec<u8>, v: u64)
    ensures
        final(out)@ == old(out)@ + le64_bytes(v as int),
{
    let ghost before = out@;
    push_le32(out, (v % 0x1_0000_0000) as u32);
    push_le32(out, (v / 0x1_0000_0000) as u32);
    proof {
        assert(out@ =~= before + le64_bytes(v as int));
    }
}

fn push_bytes(out: &mut Vec<u8>, b: &[u8])
    ensures
        final(out)@ == old(out)@ + b@,
{
    let ghost before = out@;
    let mut i: usize = 0;
    proof {
        assert(out@ =~= before + b@.take(0));
    }
    while i < b.len()
        invariant
            i <= b@.len(),
            out@ == before + b@.take(i as int),
        decreases b@.len() - i,
    {
        out.push(b[i]);
        proof {
            assert(out@ =~= before + b@.take(i + 1));
        }
        i = i + 1;
    }
    proof {
        assert(b@.take(i as int) =~= b@);
    }
}

// ─────────────────────────── Model of the container ─────────────────────────

/// The global header at the start of `b`.
pub open spec fn header_of(b: Seq<u8>) -> Result<IvfHeaderModel, Fault> {
    if b.len() < 32 {
        Err(Fault::End)
    } else if !(b[0] == 0x44 && b[1] == 0x4b && b[2] == 0x49 && b[3] == 0x46) {
        Err(Fault::Invalid)
    } else if le16(b, 4) != 0 || le16(b, 6) != 32 {
        Err(Fault::Invalid)
    } else {
        Ok(
            IvfHeaderModel {
                fourcc: b.subrange(8, 12),
                width: le16(b, 12) as u16,
                height: le16(b, 14) as u16,
                framerate_num: le32(b, 16) as u32,
                framerate_den: le32(b, 20) as u32,
                frame_count: le32(b, 24) as u32,
            },
        )
    }
}

/// The bytes of a global header.
pub open spec fn header_bytes(h: IvfHeaderModel) -> Seq<u8> {
    seq![
        0x44u8,
        0x4bu8,
        0x49u8,
        0x46u8,
    ] + le16_bytes(0) + le16_bytes(32) + h.fourcc + le16_bytes(h.width as int)
        + le16_bytes(h.height as int) + le32_bytes(
            h.framerate_num as int,
        ) + le32_bytes(h.framerate_den as int)
        + le32_bytes(h.frame_count as int) + le32_bytes(0)
}

/// The frame at the start of `b`, none at the end.
pub open spec fn frame_of(b: Seq<u8>) -> Result<Option<IvfFrameModel>, Fault> {
    if b.len() == 0 {
        Ok(None)
    } else if b.len() < 12 || b.len() < 12 + le32(b, 0) {
        Err(Fault::End)
    } else {
        Ok(Some(IvfFrameModel { timestamp: le64(b, 4) as u64, payload: b.subrange(12, 12 + le32(b, 0)) }))
    }
}

/// The bytes of a frame.
pub open spec fn frame_bytes(f: IvfFrameModel) -> Seq<u8> {
    le32_bytes(f.payload.len() as int) + le64_bytes(f.timestamp as int) + f.payload
}

/// The frames that make up `b`.
pub open spec fn frames_of(b: Seq<u8>) -> Result<Seq<IvfFrameModel>, Fault>
    decreases b.len(),
{
    match frame_of(b) {
        Err(f) => Err(f),
        Ok(None) => Ok(Seq::empty()),
        Ok(Some(frame)) => match frames_of(b.skip(12 + frame.payload.len() as int)) {
            Err(f) => Err(f),
            Ok(rest) => Ok(seq![frame] + rest),
        },
    }
}

/// The bytes of frames.
pub open spec fn frames_bytes(fs: Seq<IvfFrameModel>) -> Seq<u8>
    decreases fs.len(),
{
    if fs.len() == 0 {
        Seq::empty()
    } else {
        frame_bytes(fs[0]) + frames_bytes(fs.skip(1))
    }
}

/// Every payload fits its size field.
pub open spec fn frames_fit(fs: Seq<IvfFrameModel>) -> bool {
    forall|i: int| 0 <= i < fs.len() ==> (#[trigger] fs[i]).payload.len() <= IVF_FRAME_PAYLOAD_MAX
}

// ─────────────────────────── Demuxer ─────────────────────────────────────────

/// Parse the 32-byte IVF global header and return it together with a
/// slice positioned at the first per-frame block.
pub fn parse_header<'a>(buf: &'a [u8]) -> (res: Result<(IvfHeader, &'a [u8]), BitstreamError>)
    ensures
        match header_of(buf@) {
            Ok(h) => res matches Ok((v, rest)) && v@ == h && rest@ == buf@.skip(32),
            Err(f) => res matches Err(e) && e.fault() == f,
        },
{
    if buf.len() < 32 {
        return Err(BitstreamError::unexpected_end("IVF file shorter than 32-byte header"));
    }
    if !(buf[0] == 0x44 && buf[1] == 0x4b && buf[2] == 0x49 && buf[3] == 0x46) {
        return Err(
            Message::new("IVF magic mismatch: [")
                .num((buf[0]) as i128)
                .with(", ")
                .num((buf[1]) as i128)
                .with(", ")
                .num((buf[2]) as i128)
                .with(", ")
                .num((buf[3]) as i128)
                .with("]")
                .invalid(),
        );
    }
    let version: u16 = read_le16(buf, 4);
    if version != 0 {
        return Err(Message::new("IVF version ").num(version as i128).with(" != 0").invalid());
    }
    let header_len: u16 = read_le16(buf, 6);
    if header_len != 32 {
        return Err(Message::new("IVF header_len ").num(header_len as i128).with(" != 32").invalid());
    }
    let header = IvfHeader {
        fourcc: [buf[8], buf[9], buf[10], buf[11]],
        width: read_le16(buf, 12),
        height: read_le16(buf, 14),
        framerate_num: read_le32(buf, 16),
        framerate_den: read_le32(buf, 20),
        frame_count: read_le32(buf, 24),
    };
    let rest = slice_subrange(buf, 32, buf.len());
    proof {
        assert(header.fourcc@ =~= buf@.subrange(8, 12));
        assert(rest@ =~= buf@.skip(32));
    }
    Ok((header, rest))
}

/// Parse the next IVF frame. Returns `Ok(None)` on EOF, `Err` on
/// truncation.
pub fn parse_frame<'a>(buf: &'a [u8]) -> (res: Result<Option<(IvfFrame<'a>, &'a [u8])>, BitstreamError>)
    ensures
        match frame_of(buf@) {
            Ok(None) => res matches Ok(None),
            Ok(Some(f)) => res matches Ok(Some((v, rest))) && v@ == f && rest@ == buf@.skip(
                12 + f.payload.len() as int,
            ),
            Err(f) => res matches Err(e) && e.fault() == f,
        },
{
    if buf.len() == 0 {
        return Ok(None);
    }
    if buf.len() < 12 {
        return Err(BitstreamError::unexpected_end("truncated IVF frame header"));
    }
    let size: usize = read_le32(buf, 0) as usize;
    let timestamp: u64 = read_le64(buf, 4);
    if buf.len() - 12 < size {
        return Err(BitstreamError::unexpected_end("truncated IVF frame payload"));
    }
    let payload = slice_subrange(buf, 12, 12 + size);
    let rest = slice_subrange(buf, 12 + size, buf.len());
    proof {
        assert(rest@ =~= buf@.skip(12 + size));
    }
    Ok(Some((IvfFrame { timestamp, payload }, rest)))
}

/// Convenience: parse the entire IVF (header + every frame) into a
/// single [`IvfHeader`] plus a `Vec<IvfFrame>`.
pub fn parse_all<'a>(buf: &'a [u8]) -> (res: Result<(IvfHeader, Vec<IvfFrame<'a>>), BitstreamError>)
    ensures
        match header_of(buf@) {
            Err(f) => res matches Err(e) && e.fault() == f,
            Ok(h) => match frames_of(buf@.skip(32)) {
                Err(f) => res matches Err(e) && e.fault() == f,
                Ok(fs) => res matches Ok((v, frames)) && v@ == h && seq_view(frames@) == fs,
            },
        },
{
    let (hdr, body) = parse_header(buf)?;
    let ghost all = frames_of(body@);
    let mut rest: &'a [u8] = body;
    let mut frames: Vec<IvfFrame<'a>> = Vec::new();
    proof {
        if let Ok(fs) = all {
            assert(seq_view(frames@) + fs =~= fs);
        }
    }
    loop
        invariant
            all == frames_of(body@),
            header_of(buf@) == Ok::<IvfHeaderModel, Fault>(hdr@),
            body@ == buf@.skip(32),
            match frames_of(rest@) {
                Ok(fs) => all == Ok::<Seq<IvfFrameModel>, Fault>(seq_view(frames@) + fs),
                Err(f) => all == Err::<Seq<IvfFrameModel>, Fault>(f),
            },
        ensures
            all == Ok::<Seq<IvfFrameModel>, Fault>(seq_view(frames@)),
        decreases rest@.len(),
    {
        let ghost before = frames@;
        match parse_frame(rest)? {
            None => {
                proof {
                    assert(seq_view(frames@) + Seq::<IvfFrameModel>::empty() =~= seq_view(frames@));
                }
                break;
            },
            Some((frame, next)) => {
                proof {
                    lemma_seq_view_push(before, frame);
                    if let Ok(fs) = frames_of(next@) {
                        assert(seq_view(before) + (seq![frame@] + fs) =~= seq_view(before).push(frame@) + fs);
                    }
                }
                frames.push(frame);
                rest = next;
            },
        }
    }
    Ok((hdr, frames))
}

// ─────────────────────────── Muxer ───────────────────────────────────────────

/// Append the 32-byte IVF global header for `header` to `out`.
///
/// This is the inverse of [`parse_header`]: feeding the bytes this
/// function appends back through [`parse_header`] reproduces `header`
/// exactly and leaves the consumed-rest slice empty (see
/// [`law_parse_written_header`]).
///
/// The `version` field is emitted as `0u16` LE and the `header_len` field as
/// `32u16` LE so the reader's strict checks pass on every successful write.
/// The four reserved bytes at the tail are emitted as zero.
///
/// `header.fourcc` is written verbatim; this module makes no policy
/// statement about which FourCC values are legal.
///
/// Returns the byte range `(start, end)` covering the newly-appended
/// header. `end - start` is always [`IVF_HEADER_LEN`].
pub fn write_header(out: &mut Vec<u8>, header: IvfHeader) -> (range: (usize, usize))
    ensures
        final(out)@ == old(out)@ + header_bytes(header@),
        range.0 == old(out)@.len(),
        range.1 == range.0 + IVF_HEADER_LEN,
{
    let ghost before = out@;
    let start: usize = out.len();
    out.push(0x44);
    out.push(0x4b);
    out.push(0x49);
    out.push(0x46);
    push_le16(out, 0);
    push_le16(out, 32);
    push_bytes(out, header.fourcc.as_slice());
    push_le16(out, header.width);
    push_le16(out, header.height);
    push_le32(out, header.framerate_num);
    push_le32(out, header.framerate_den);
    push_le32(out, header.frame_count);
    push_le32(out, 0);
    proof {
        assert(out@ =~= before + header_bytes(header@));
    }
    (start, out.len())
}

/// Append one IVF frame (12-byte header + payload) to `out`.
///
/// Returns the byte range `(start, end)` covering the appended frame:
/// `end - start` equals [`IVF_FRAME_HEADER_LEN`] `+ payload.len()`.
///
/// Refuses `payload.len() > IVF_FRAME_PAYLOAD_MAX` with
/// `InvalidData` (the wire `size` field is a u32). On rejection the
/// buffer is left untouched, so a caller building a
/// container in-place can recover.
pub fn write_frame(
    out: &mut Vec<u8>,
    timestamp: u64,
    payload: &[u8],
) -> (res: Result<(usize, usize), BitstreamError>)
    ensures
        match res {
            Ok(range) => {
                &&& payload@.len() <= IVF_FRAME_PAYLOAD_MAX
                &&& final(out)@ == old(out)@ + frame_bytes(IvfFrameModel { timestamp, payload: payload@ })
                &&& range.0 == old(out)@.len()
                &&& range.1 == range.0 + IVF_FRAME_HEADER_LEN + payload@.len()
            },
            Err(e) => {
                &&& payload@.len() > IVF_FRAME_PAYLOAD_MAX
                &&& e.fault() == Fault::Invalid
                &&& final(out)@ == old(out)@
            },
        },
{
    if payload.len() > IVF_FRAME_PAYLOAD_MAX {
        return Err(
            Message::new("IVF payload ")
                .num(payload.len() as i128)
                .with(" bytes exceeds u32 size field maximum")
                .invalid(),
        );
    }
    let ghost before = out@;
    let start: usize = out.len();
    push_le32(out, payload.len() as u32);
    push_le64(out, timestamp);
    push_bytes(out, payload);
    proof {
            assert(out@ =~= before + frame_bytes(IvfFrameModel { timestamp, payload: payload@ }));
    }
    Ok((start, out.len()))
}

/// The models of `(timestamp, payload)` frames.
pub open spec fn frame_models(frames: Seq<(u64, &[u8])>) -> Seq<IvfFrameModel> {
    Seq::new(frames.len(), |i: int| IvfFrameModel { timestamp: frames[i].0, payload: frames[i].1@ })
}

/// Convenience: build a complete IVF byte sequence from a global header
/// plus a slice of `(timestamp, payload)` frames. The result feeds
/// back through [`parse_all`] producing the same header and per-frame
/// `(timestamp, payload)` tuples (see [`law_parse_written_ivf`]).
///
/// Returns `InvalidData` if any frame's payload exceeds
/// [`IVF_FRAME_PAYLOAD_MAX`]; on rejection no partial buffer is
/// returned.
pub fn write_all(header: IvfHeader, frames: &[(u64, &[u8])]) -> (res: Result<Vec<u8>, BitstreamError>)
    ensures
        match res {
            Ok(v) => frames_fit(frame_models(frames@)) && v@ == header_bytes(header@) + frames_bytes(
                frame_models(frames@),
            ),
            Err(e) => !frames_fit(frame_models(frames@)) && e.fault() == Fault::Invalid,
        },
{
    let ghost fs = frame_models(frames@);
    let mut out: Vec<u8> = Vec::new();
    let _ = write_header(&mut out, header);
    let ghost head = header_bytes(header@);
    let mut i: usize = 0;
    proof {
        assert(out@ =~= head);
        assert(fs.skip(0) =~= fs);
    }
    while i < frames.len()
        invariant
            i <= frames@.len(),
            fs == frame_models(frames@),
            forall|k: int| 0 <= k < i ==> (#[trigger] fs[k]).payload.len() <= IVF_FRAME_PAYLOAD_MAX,
            out@ + frames_bytes(fs.skip(i as int)) == head + frames_bytes(fs),
        decreases frames@.len() - i,
    {
        let (timestamp, payload) = frames[i];
        let ghost before = out@;
        proof {
            assert(fs[i as int] == (IvfFrameModel { timestamp, payload: payload@ }));
        }
        if payload.len() > IVF_FRAME_PAYLOAD_MAX {
            return Err(
                Message::new("IVF frame ")
                    .num(i as i128)
                    .with(" payload ")
                    .num(payload.len() as i128)
                    .with(" bytes exceeds u32 size field maximum")
                    .invalid(),
            );
        }
        let _ = write_frame(&mut out, timestamp, payload)?;
        proof {
            let rest = fs.skip(i as int);
            assert(rest[0] == fs[i as int]);
            assert(rest.skip(1) =~= fs.skip(i + 1));
            assert(
                out@ + frames_bytes(fs.skip(i + 1)) =~= before + (
                    frame_bytes(rest[0]) + frames_bytes(rest.skip(1))
                )
            );
        }
        i = i + 1;
    }
    proof {
        assert(fs.skip(i as int) =~= Seq::empty());
        assert(out@ + frames_bytes(fs.skip(i as int)) =~= out@);
    }
    Ok(out)
}

// ─────────────────────────── Laws ────────────────────────────────────────────

/// A header that was written parses back, with what follows it as the rest.
#[verifier::rlimit(50)]
#[verifier::spinoff_prover]
pub proof fn law_parse_written_header(h: IvfHeaderModel, rest: Seq<u8>)
    requires
        h.fourcc.len() == 4,
    ensures
        header_bytes(h).len() == IVF_HEADER_LEN,
        header_of(header_bytes(h) + rest) == Ok::<IvfHeaderModel, Fault>(h),
        (header_bytes(h) + rest).skip(32) == rest,
{
    let b = header_bytes(h) + rest;
    assert(b.subrange(8, 12) =~= h.fourcc);
    assert(b.skip(32) =~= rest);
}

/// A frame that was written parses back.
#[verifier::rlimit(50)]
#[verifier::spinoff_prover]
pub proof fn law_parse_written_frame(f: IvfFrameModel, rest: Seq<u8>)
    requires
        f.payload.len() <= IVF_FRAME_PAYLOAD_MAX,
    ensures
        frame_bytes(f).len() == IVF_FRAME_HEADER_LEN + f.payload.len(),
        frame_of(frame_bytes(f) + rest) == Ok::<Option<IvfFrameModel>, Fault>(Some(f)),
        (frame_bytes(f) + rest).skip(12 + f.payload.len() as int) == rest,
{
    let b = frame_bytes(f) + rest;
    assert(le32(b, 0) == f.payload.len());
    assert(le64(b, 4) == f.timestamp);
    assert(b.subrange(12, 12 + f.payload.len() as int) =~= f.payload);
    assert(b.skip(12 + f.payload.len() as int) =~= rest);
}

proof fn lemma_first_and_rest(fs: Seq<IvfFrameModel>)
    requires
        fs.len() > 0,
    ensures
        seq![fs[0]] + fs.skip(1) == fs,
        frames_fit(fs) ==> frames_fit(fs.skip(1)),
{
    assert(seq![fs[0]] + fs.skip(1) =~= fs);
    if frames_fit(fs) {
        let rest = fs.skip(1);
        assert forall|i: int| 0 <= i < rest.len() implies (#[trigger] rest[i]).payload.len()
            <= IVF_FRAME_PAYLOAD_MAX by {
            assert(rest[i] == fs[i + 1]);
        }
    }
}

proof fn lemma_frames_step(b: Seq<u8>, f: IvfFrameModel, rest: Seq<IvfFrameModel>)
    requires
        frame_of(b) == Ok::<Option<IvfFrameModel>, Fault>(Some(f)),
        frames_of(b.skip(12 + f.payload.len() as int)) == Ok::<Seq<IvfFrameModel>, Fault>(rest),
    ensures
        frames_of(b) == Ok::<Seq<IvfFrameModel>, Fault>(seq![f] + rest),
{
}

#[verifier::rlimit(90)]
#[verifier::spinoff_prover]
proof fn lemma_frames_written(fs: Seq<IvfFrameModel>)
    requires
        frames_fit(fs),
    ensures
        frames_of(frames_bytes(fs)) == Ok::<Seq<IvfFrameModel>, Fault>(fs),
    decreases fs.len(),
{
    if fs.len() == 0 {
        assert(fs =~= Seq::empty());
    } else {
        let rest = fs.skip(1);
        lemma_first_and_rest(fs);
        lemma_frames_written(rest);
        law_parse_written_frame(fs[0], frames_bytes(rest));
        lemma_frames_step(frames_bytes(fs), fs[0], rest);
    }
}

/// A container that was written parses back into its header and frames.
#[verifier::rlimit(50)]
#[verifier::spinoff_prover]
pub proof fn law_parse_written_ivf(h: IvfHeaderModel, fs: Seq<IvfFrameModel>)
    requires
        h.fourcc.len() == 4,
        frames_fit(fs),
    ensures
        ({
            let b = header_bytes(h) + frames_bytes(fs);
            &&& header_of(b) == Ok::<IvfHeaderModel, Fault>(h)
            &&& frames_of(b.skip(32)) == Ok::<Seq<IvfFrameModel>, Fault>(fs)
        }),
{
    law_parse_written_header(h, frames_bytes(fs));
    lemma_frames_written(fs);
}

proof fn lemma_le16(b: Seq<u8>, i: int)
    requires
        0 <= i,
        i + 2 <= b.len(),
    ensures
        le16_bytes(le16(b, i)) == b.subrange(i, i + 2),
        0 <= le16(b, i) < 0x1_0000,
{
    assert(le16_bytes(le16(b, i)) =~= b.subrange(i, i + 2));
}

proof fn lemma_le32(b: Seq<u8>, i: int)
    requires
        0 <= i,
        i + 4 <= b.len(),
    ensures
        le32_bytes(le32(b, i)) == b.subrange(i, i + 4),
        0 <= le32(b, i) < 0x1_0000_0000,
{
    lemma_le16(b, i);
    lemma_le16(b, i + 2);
    assert(le32(b, i) % 0x1_0000 == le16(b, i));
    assert(le32(b, i) / 0x1_0000 == le16(b, i + 2));
    assert(b.subrange(i, i + 4) =~= b.subrange(i, i + 2) + b.subrange(i + 2, i + 4));
}

proof fn lemma_low_high(lo: int, hi: int)
    requires
        0 <= lo < 0x1_0000_0000,
        0 <= hi,
    ensures
        (lo + 0x1_0000_0000 * hi) % 0x1_0000_0000 == lo,
        (lo + 0x1_0000_0000 * hi) / 0x1_0000_0000 == hi,
{
}

proof fn lemma_le64(b: Seq<u8>, i: int)
    requires
        0 <= i,
        i + 8 <= b.len(),
    ensures
        le64_bytes(le64(b, i)) == b.subrange(i, i + 8),
        0 <= le64(b, i) <= u64::MAX,
{
    lemma_le32(b, i);
    lemma_le32(b, i + 4);
    lemma_low_high(le32(b, i), le32(b, i + 4));
    assert(le64(b, i) % 0x1_0000_0000 == le32(b, i));
    assert(le64(b, i) / 0x1_0000_0000 == le32(b, i + 4));
    assert(b.subrange(i, i + 8) =~= b.subrange(i, i + 4) + b.subrange(i + 4, i + 8));
}

proof fn lemma_frame_read(b: Seq<u8>)
    ensures
        frame_of(b) matches Ok(Some(f)) ==> {
            &&& f.payload.len() <= IVF_FRAME_PAYLOAD_MAX
            &&& 12 + f.payload.len() <= b.len()
            &&& b == frame_bytes(f) + b.skip(12 + f.payload.len() as int)
        },
{
    if let Ok(Some(f)) = frame_of(b) {
        let n = 12 + f.payload.len() as int;
        lemma_le32(b, 0);
        lemma_le64(b, 4);
        assert(f.payload == b.subrange(12, n));
        assert(frame_bytes(f) == b.subrange(0, 4) + b.subrange(4, 12) + b.subrange(12, n));
        assert(b =~= b.subrange(0, 4) + b.subrange(4, 12) + b.subrange(12, n) + b.skip(n));
        assert(b =~= frame_bytes(f) + b.skip(12 + f.payload.len() as int));
    }
}

proof fn lemma_frames_read(b: Seq<u8>)
    ensures
        frames_of(b) matches Ok(fs) ==> frames_bytes(fs) == b && frames_fit(fs),
    decreases b.len(),
{
    lemma_frame_read(b);
    match frame_of(b) {
        Ok(Some(f)) => {
            let tail = b.skip(12 + f.payload.len() as int);
            lemma_frames_read(tail);
            if let Ok(rest) = frames_of(tail) {
                let fs = seq![f] + rest;
                assert(fs.skip(1) =~= rest);
                assert forall|i: int| 0 <= i < fs.len() implies (#[trigger] fs[i]).payload.len()
                    <= IVF_FRAME_PAYLOAD_MAX by {
                    if i > 0 {
                        assert(fs[i] == rest[i - 1]);
                    }
                }
            }
        },
        Ok(None) => {
            assert(b =~= Seq::empty());
        },
        Err(_) => {},
    }
}

/// A container that was parsed is written again as it was, if its reserved
/// bytes are zero.
#[verifier::rlimit(50)]
#[verifier::spinoff_prover]
pub proof fn law_write_parsed_ivf(b: Seq<u8>)
    requires
        header_of(b) is Ok,
        frames_of(b.skip(32)) is Ok,
        le32(b, 28) == 0,
    ensures
        frames_fit(frames_of(b.skip(32))->Ok_0),
        header_bytes(header_of(b)->Ok_0) + frames_bytes(frames_of(b.skip(32))->Ok_0) == b,
{
    let h = header_of(b)->Ok_0;
    lemma_frames_read(b.skip(32));
    lemma_le16(b, 4);
    lemma_le16(b, 6);
    lemma_le16(b, 12);
    lemma_le16(b, 14);
    lemma_le32(b, 16);
    lemma_le32(b, 20);
    lemma_le32(b, 24);
    lemma_le32(b, 28);
    let magic = seq![0x44u8, 0x4bu8, 0x49u8, 0x46u8];
    assert(b.subrange(0, 4) =~= magic);
    assert(header_bytes(h) == b.subrange(0, 4) + b.subrange(4, 6) + b.subrange(6, 8) + b.subrange(8, 12)
        + b.subrange(12, 14) + b.subrange(14, 16) + b.subrange(16, 20) + b.subrange(20, 24) + b.subrange(24, 28)
        + b.subrange(28, 32));
    assert(b.take(32) =~= b.subrange(0, 4) + b.subrange(4, 6) + b.subrange(6, 8) + b.subrange(8, 12) + b.subrange(
        12,
        14,
    ) + b.subrange(14, 16) + b.subrange(16, 20) + b.subrange(20, 24) + b.subrange(24, 28) + b.subrange(28, 32));
    assert(b =~= b.take(32) + b.skip(32));
}

/// Where the fields of the global header stand: `DKIF`, version 0, the header's own
/// length, four characters of codec, and then numbers with their least significant byte
/// first.
#[verifier::rlimit(50)]
#[verifier::spinoff_prover]
pub proof fn law_layout_header(b: Seq<u8>, h: IvfHeaderModel)
    ensures
        header_of(b) == Ok::<IvfHeaderModel, Fault>(h) <==> ({
            &&& b.len() >= 32
            &&& b[0] == 'D' as u8 && b[1] == 'K' as u8 && b[2] == 'I' as u8 && b[3] == 'F' as u8
            &&& b[4] == 0 && b[5] == 0
            &&& b[6] == 32 && b[7] == 0
            &&& h.fourcc == seq![b[8], b[9], b[10], b[11]]
            &&& h.width == b[12] + 0x100 * b[13]
            &&& h.height == b[14] + 0x100 * b[15]
            &&& h.framerate_num == b[16] + 0x100 * b[17] + 0x1_0000 * b[18] + 0x100_0000 * b[19]
            &&& h.framerate_den == b[20] + 0x100 * b[21] + 0x1_0000 * b[22] + 0x100_0000 * b[23]
            &&& h.frame_count == b[24] + 0x100 * b[25] + 0x1_0000 * b[26] + 0x100_0000 * b[27]
        }),
        header_of(b) == Err::<IvfHeaderModel, Fault>(Fault::End) <==> b.len() < 32,
{
    if b.len() >= 32 {
        assert(b.subrange(8, 12) =~= seq![b[8], b[9], b[10], b[11]]);
    }
}

/// Where the fields of a frame stand: its length in four bytes, its timestamp in eight,
/// both with the least significant byte first, and its bytes.
#[verifier::rlimit(50)]
#[verifier::spinoff_prover]
pub proof fn law_layout_frame(b: Seq<u8>, f: IvfFrameModel)
    ensures
        frame_of(b) == Ok::<Option<IvfFrameModel>, Fault>(Some(f)) <==> ({
            let n = b[0] + 0x100 * b[1] + 0x1_0000 * b[2] + 0x100_0000 * b[3];
            &&& b.len() >= 12 && b.len() >= 12 + n
            &&& f.timestamp == b[4] + 0x100 * b[5] + 0x1_0000 * b[6] + 0x100_0000 * b[7] + 0x1_0000_0000 * (b[8]
                + 0x100 * b[9] + 0x1_0000 * b[10] + 0x100_0000 * b[11])
            &&& f.payload == b.skip(12).take(n as int)
        }),
        frame_of(b) == Ok::<Option<IvfFrameModel>, Fault>(None) <==> b.len() == 0,
        frame_of(b) matches Err(e) ==> e == Fault::End,
{
    let n = le32(b, 0);
    if b.len() >= 12 && b.len() >= 12 + n {
        assert(b.subrange(12, 12 + n) =~= b.skip(12).take(n));
    }
}

/// The frames of a container stand one behind the other up to its end.
pub proof fn law_frames_in_order(b: Seq<u8>)
    ensures
        match frame_of(b) {
            Ok(None) => frames_of(b) matches Ok(fs) && fs.len() == 0,
            Ok(Some(f)) => match frames_of(b.skip(12 + f.payload.len() as int)) {
                Ok(rest) => frames_of(b) matches Ok(fs)
                    && fs.len() == rest.len() + 1
                    && fs[0] == f
                    && fs.skip(1)
                    == rest,
                Err(e) => frames_of(b) == Err::<Seq<IvfFrameModel>, Fault>(e),
            },
            Err(e) => frames_of(b) == Err::<Seq<IvfFrameModel>, Fault>(e),
        },
{
    if let Ok(Some(f)) = frame_of(b) {
        if let Ok(rest) = frames_of(b.skip(12 + f.payload.len() as int)) {
            assert((seq![f] + rest).skip(1) =~= rest);
        }
    }
}

/// Each field of the model of a [`IvfHeader`] is the field of that name.
pub proof fn law_fields_of_ivf_header(x: IvfHeader)
    ensures
        x@.fourcc == x.fourcc@,
        x@.width == x.width,
        x@.height == x.height,
        x@.framerate_num == x.framerate_num,
        x@.framerate_den == x.framerate_den,
        x@.frame_count == x.frame_count,
{
}

/// Each field of the model of a [`IvfFrame`] is the field of that name.
pub proof fn law_fields_of_ivf_frame(x: IvfFrame<'_>)
    ensures
        x@.timestamp == x.timestamp,
        x@.payload == x.payload@,
{
}

/// A header is parsed with what stands behind its 32 bytes, and a frame with what stands
/// behind its bytes.
pub proof fn law_parsed_ivf<'a>(
    b: &'a [u8],
    header: Result<(IvfHeader, &'a [u8]), BitstreamError>,
    frame: Result<Option<(IvfFrame<'a>, &'a [u8])>, BitstreamError>,
)
    requires
        call_ensures(parse_header, (b,), header),
        call_ensures(parse_frame, (b,), frame),
    ensures
        match header {
            Ok((h, rest)) => header_of(b@) == Ok::<IvfHeaderModel, Fault>(h@) && rest@ == b@.skip(32),
            Err(e) => header_of(b@) == Err::<IvfHeaderModel, Fault>(e.fault()),
        },
        match frame {
            Ok(Some((f, rest))) => frame_of(b@) == Ok::<Option<IvfFrameModel>, Fault>(Some(f@)) && rest@ == b@.skip(
                12 + f@.payload.len() as int,
            ),
            Ok(None) => b@.len() == 0,
            Err(e) => frame_of(b@) == Err::<Option<IvfFrameModel>, Fault>(e.fault()),
        },
{
}

} // verus!
