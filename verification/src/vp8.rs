//! VP8 keyframe header parsing (RFC 6386).
//!
//! VP8 keyframes contain a 3-byte uncompressed bit-packed header
//! followed (for keyframes only) by a 7-byte uncompressed-data-chunk
//! that carries the start code and frame dimensions, followed by the
//! arithmetic-coded compressed bitstream. This module surfaces only the
//! **uncompressed** parts.
//!
//! # Bit ordering
//!
//! The first 3 bytes are a 24-bit little-endian number whose fields start at
//! the least significant bit:
//!
//!   frame_type        (1 bit)
//!   version           (3 bits)
//!   show_frame        (1 bit)
//!   first_part_size  (19 bits)
//!
//! For keyframes (`frame_type == 0`), the next 7 bytes are:
//!
//!   start code        (3 bytes, must be `0x9D 0x01 0x2A`)
//!   width + h-scale   (2 bytes, LE u16: low 14 bits = width,
//!                                top 2 bits = horizontal_scale)
//!   height + v-scale  (2 bytes, LE u16: same layout for height /
//!                                vertical_scale)
use crate::message::{hex_text, number_text};
use crate::message::Message;
use crate::{BitstreamError, Fault};
use vstd::prelude::*;

verus! {

/// VP8 keyframe start code (RFC 6386 §9.1).
pub const VP8_KEYFRAME_START_CODE: [u8; 3] = [0x9D, 0x01, 0x2A];

/// Output of the VP8 uncompressed-header parsers.
#[derive(Debug, Clone, Copy, Default, PartialEq, Eq)]
pub struct Vp8FrameHeader {
    /// 0 = keyframe (RFC 6386 calls this KEY_FRAME), 1 = interframe.
    pub frame_type: u8,
    /// Bitstream version (0..3). RFC 6386 §9.1 — only 0 is in
    /// widespread use; libvpx may emit 1, 2 or 3 to select the
    /// loop-filter / motion-comp tweaks.
    pub version: u8,
    /// `show_frame` bit. False here means the encoder emitted an
    /// alternate-reference frame that should not be rendered.
    pub show_frame: bool,
    /// `first_part_size` — length in bytes of the compressed
    /// "first partition" (the partition that holds the bool-coded
    /// frame header + per-MB modes, before the residual partitions).
    pub first_part_size: u32,
    /// Coded width in luma samples (keyframes only — 0 on
    /// interframes since RFC 6386 only re-transmits dimensions for
    /// keyframes).
    pub width: u32,
    /// Coded height in luma samples (keyframes only).
    pub height: u32,
    /// `horizontal_scale` — 0 means no horizontal upscale at display.
    pub horizontal_scale: u8,
    /// `vertical_scale` — 0 means no vertical upscale at display.
    pub vertical_scale: u8,
}

/// The 24-bit tag at the start of a frame.
pub open spec fn frame_tag(b: Seq<u8>) -> int {
    b[0] + 0x100 * b[1] + 0x1_0000 * b[2]
}

/// A 16-bit little-endian number.
pub open spec fn word_at(b: Seq<u8>, i: int) -> int {
    b[i] + 0x100 * b[i + 1]
}

/// The header of the frame `b`.
pub open spec fn frame_header_of(b: Seq<u8>) -> Result<Vp8FrameHeader, Fault> {
    if b.len() < 3 {
        Err(Fault::End)
    } else {
        let tag = frame_tag(b);
        let key = tag % 2 == 0;
        if key && b.len() < 10 {
            Err(Fault::End)
        } else if key && !(b[3] == 0x9d && b[4] == 0x01 && b[5] == 0x2a) {
            Err(Fault::Invalid)
        } else {
            Ok(
                Vp8FrameHeader {
                    frame_type: (tag % 2) as u8,
                    version: (tag / 2 % 8) as u8,
                    show_frame: tag / 16 % 2 == 1,
                    first_part_size: (tag / 32) as u32,
                    width: if key {
                        (word_at(b, 6) % 0x4000) as u32
                    } else {
                        0
                    },
                    height: if key {
                        (word_at(b, 8) % 0x4000) as u32
                    } else {
                        0
                    },
                    horizontal_scale: if key {
                        (word_at(b, 6) / 0x4000) as u8
                    } else {
                        0
                    },
                    vertical_scale: if key {
                        (word_at(b, 8) / 0x4000) as u8
                    } else {
                        0
                    },
                },
            )
        }
    }
}

/// What is said of a frame whose header [`frame_header_of`] refuses.
pub open spec fn frame_error_text(b: Seq<u8>) -> Seq<char> {
    if b.len() < 3 {
        "VP8 frame shorter than 3 bytes"@
    } else if b.len() < 10 {
        "VP8 keyframe shorter than 10-byte uncompressed-data-chunk"@
    } else {
        "VP8 keyframe start-code mismatch: ["@ + hex_text(b[3]) + ", "@ + hex_text(b[4]) + ", "@ + hex_text(
            b[5],
        ) + "] != 9d 01 2a"@
    }
}

/// What is said of a frame of type `t` in place of a keyframe.
pub open spec fn not_key_text(t: u8) -> Seq<char> {
    "expected VP8 keyframe (frame_type=0), got frame_type="@ + number_text(t as int)
}

/// What [`parse_frame_header`] promises of the frame `b`.
pub open spec fn frame_result_is(b: Seq<u8>, res: Result<Vp8FrameHeader, BitstreamError>) -> bool {
    match frame_header_of(b) {
        Ok(h) => res == Ok::<Vp8FrameHeader, BitstreamError>(h),
        Err(f) => res matches Err(e) && e.fault() == f && e.text() == frame_error_text(b),
    }
}

/// What [`parse_keyframe`] promises of the frame `b`.
pub open spec fn keyframe_result_is(b: Seq<u8>, res: Result<Vp8FrameHeader, BitstreamError>) -> bool {
    match frame_header_of(b) {
        Ok(h) if h.frame_type != 0 => res matches Err(e) && e.fault() == Fault::Invalid && e.text() == not_key_text(
            h.frame_type,
        ),
        _ => frame_result_is(b, res),
    }
}

/// Parse the uncompressed parts of a VP8 frame header (keyframe or
/// interframe).
pub fn parse_frame_header(stream: &[u8]) -> (res: Result<Vp8FrameHeader, BitstreamError>)
    ensures
        frame_result_is(stream@, res),
{
    if stream.len() < 3 {
        return Err(BitstreamError::unexpected_end("VP8 frame shorter than 3 bytes"));
    }
    let tag: u32 = stream[0] as u32 + 0x100 * stream[1] as u32 + 0x1_0000 * stream[2] as u32;
    let mut hdr = Vp8FrameHeader {
        frame_type: (tag % 2) as u8,
        version: (tag / 2 % 8) as u8,
        show_frame: tag / 16 % 2 == 1,
        first_part_size: tag / 32,
        width: 0,
        height: 0,
        horizontal_scale: 0,
        vertical_scale: 0,
    };
    if tag % 2 == 0 {
        if stream.len() < 10 {
            return Err(
                BitstreamError::unexpected_end("VP8 keyframe shorter than 10-byte uncompressed-data-chunk"),
            );
        }
        let code = VP8_KEYFRAME_START_CODE;
        if !(stream[3] == code[0] && stream[4] == code[1] && stream[5] == code[2]) {
            return Err(
                Message::new("VP8 keyframe start-code mismatch: [")
                    .hex(stream[3])
                    .with(", ")
                    .hex(stream[4])
                    .with(", ")
                    .hex(stream[5])
                    .with("] != 9d 01 2a")
                    .invalid(),
            );
        }
        let w_word: u32 = stream[6] as u32 + 0x100 * stream[7] as u32;
        let h_word: u32 = stream[8] as u32 + 0x100 * stream[9] as u32;
        hdr.width = w_word % 0x4000;
        hdr.horizontal_scale = (w_word / 0x4000) as u8;
        hdr.height = h_word % 0x4000;
        hdr.vertical_scale = (h_word / 0x4000) as u8;
    }
    Ok(hdr)
}

/// Parse a keyframe header. Errors out if `frame_type != 0` (not a
/// keyframe) or any required byte is missing.
pub fn parse_keyframe(stream: &[u8]) -> (res: Result<Vp8FrameHeader, BitstreamError>)
    ensures
        keyframe_result_is(stream@, res),
{
    let hdr = parse_frame_header(stream)?;
    if hdr.frame_type != 0 {
        return Err(
            Message::new("expected VP8 keyframe (frame_type=0), got frame_type=")
                .num(hdr.frame_type as i128)
                .invalid(),
        );
    }
    Ok(hdr)
}

/// Two results of the VP8 parsers that say the same: the same header, or an error of
/// the same class with the same text.
pub open spec fn same_result(
    a: Result<Vp8FrameHeader, BitstreamError>,
    b: Result<Vp8FrameHeader, BitstreamError>,
) -> bool {
    match (a, b) {
        (Ok(x), Ok(y)) => x == y,
        (Err(x), Err(y)) => x.fault() == y.fault() && x.text() == y.text(),
        _ => false,
    }
}

/// A keyframe parser gives what the frame parser gives, an error unchanged, but for
/// the header of an interframe, which it refuses.
pub proof fn law_keyframe_or_refused(
    b: Seq<u8>,
    frame: Result<Vp8FrameHeader, BitstreamError>,
    key: Result<Vp8FrameHeader, BitstreamError>,
)
    requires
        frame_result_is(b, frame),
        keyframe_result_is(b, key),
    ensures
        frame is Err ==> same_result(frame, key),
        (frame matches Ok(h) && h.frame_type == 0) ==> key == frame,
        (frame matches Ok(h) && h.frame_type != 0) ==> (key matches Err(e) && e.fault() == Fault::Invalid),
        key is Ok <==> (frame matches Ok(h) && h.frame_type == 0),
{
}

/// Every field that the parser gives lies in its range.
pub proof fn law_header_ranges(b: Seq<u8>)
    ensures
        frame_header_of(b) matches Ok(h) ==> {
            &&& h.frame_type <= 1
            &&& h.version <= 7
            &&& h.first_part_size < 0x8_0000
            &&& h.width < 0x4000
            &&& h.height < 0x4000
            &&& h.horizontal_scale <= 3
            &&& h.vertical_scale <= 3
        },
{
}

/// Where the fields of a frame header stand. The first three bytes are one number with
/// the least significant byte first: a bit of frame type, three of version, one that
/// tells whether the frame is shown, and the size of the first partition. A keyframe
/// goes on with `9d 01 2a` and with width and height, 14 bits each below their scale.
pub proof fn law_layout_frame_header(b: Seq<u8>, h: Vp8FrameHeader)
    ensures
        frame_header_of(b) == Ok::<Vp8FrameHeader, Fault>(h) <==> ({
            &&& b.len() >= 3
            &&& h.frame_type < 2 && h.version < 8
            &&& b[0] + 0x100 * b[1] + 0x1_0000 * b[2] == h.frame_type + 2 * h.version + (if h.show_frame {
                16int
            } else {
                0
            }) + 32 * h.first_part_size
            &&& if h.frame_type == 0 {
                &&& b.len() >= 10
                &&& b[3] == 0x9d && b[4] == 0x01 && b[5] == 0x2a
                &&& h.width < 0x4000 && b[6] + 0x100 * b[7] == h.width + 0x4000 * h.horizontal_scale
                &&& h.height < 0x4000 && b[8] + 0x100 * b[9] == h.height + 0x4000 * h.vertical_scale
            } else {
                h.width == 0 && h.height == 0 && h.horizontal_scale == 0 && h.vertical_scale == 0
            }
        }),
        frame_header_of(b) == Err::<Vp8FrameHeader, Fault>(Fault::End) <==> b.len() < 3 || (b[0] % 2 == 0 && b.len()
            < 10),
{
}

/// A frame header that is parsed, of any frame or of a keyframe only, is that of
/// [`law_layout_frame_header`].
pub proof fn law_parsed_frame(
    b: &[u8],
    frame: Result<Vp8FrameHeader, BitstreamError>,
    key: Result<Vp8FrameHeader, BitstreamError>,
)
    requires
        call_ensures(parse_frame_header, (b,), frame),
        call_ensures(parse_keyframe, (b,), key),
    ensures
        match frame {
            Ok(h) => frame_header_of(b@) == Ok::<Vp8FrameHeader, Fault>(h),
            Err(e) => frame_header_of(b@) == Err::<Vp8FrameHeader, Fault>(e.fault()),
        },
        key is Ok <==> (frame matches Ok(h) && h.frame_type == 0),
        key is Ok ==> key == frame,
        (key is Err && frame is Err) ==> same_result(frame, key),
{
    law_keyframe_or_refused(b@, frame, key);
}

} // verus!
