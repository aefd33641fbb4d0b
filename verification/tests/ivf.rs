//! The IVF container.
use oxideav_bitstream::ivf::{
    IVF_FOURCC_VP80, IVF_FOURCC_VP90, IVF_FRAME_HEADER_LEN, IVF_FRAME_PAYLOAD_MAX,
    IVF_HEADER_LEN, IvfHeader, parse_all, parse_frame, parse_header, write_all, write_frame,
    write_header,
};
use oxideav_bitstream::BitstreamError;

fn synth_ivf(fourcc: &[u8; 4]) -> Vec<u8> {
    let mut buf = Vec::new();
    buf.extend_from_slice(b"DKIF");
    buf.extend_from_slice(&0u16.to_le_bytes()); // version
    buf.extend_from_slice(&32u16.to_le_bytes()); // header_len
    buf.extend_from_slice(fourcc);
    buf.extend_from_slice(&320u16.to_le_bytes()); // width
    buf.extend_from_slice(&240u16.to_le_bytes()); // height
    buf.extend_from_slice(&1u32.to_le_bytes()); // num
    buf.extend_from_slice(&1u32.to_le_bytes()); // den
    buf.extend_from_slice(&0u32.to_le_bytes()); // count
    buf.extend_from_slice(&0u32.to_le_bytes()); // reserved
    buf
}

#[test]
fn parse_header_extracts_basic_fields() {
    let buf = synth_ivf(&IVF_FOURCC_VP80);
    let (h, rest) = parse_header(&buf).unwrap();
    assert_eq!(&h.fourcc, &IVF_FOURCC_VP80);
    assert_eq!(h.width, 320);
    assert_eq!(h.height, 240);
    assert_eq!(rest.len(), 0);
}

#[test]
fn parse_header_rejects_bad_magic() {
    let mut buf = synth_ivf(&IVF_FOURCC_VP80);
    buf[0] = b'X';
    assert!(matches!(
        parse_header(&buf),
        Err(BitstreamError::InvalidData(_))
    ));
}

#[test]
fn parse_header_rejects_short_input() {
    let buf = vec![0u8; 16];
    assert!(matches!(
        parse_header(&buf),
        Err(BitstreamError::UnexpectedEnd(_))
    ));
}

#[test]
fn parse_frame_reads_payload_and_advances() {
    let mut buf = synth_ivf(&IVF_FOURCC_VP90);
    // 5-byte payload, ts = 7.
    buf.extend_from_slice(&5u32.to_le_bytes());
    buf.extend_from_slice(&7u64.to_le_bytes());
    buf.extend_from_slice(&[1, 2, 3, 4, 5]);
    let (_h, body) = parse_header(&buf).unwrap();
    let (frame, rest) = parse_frame(body).unwrap().unwrap();
    assert_eq!(frame.timestamp, 7);
    assert_eq!(frame.payload, &[1, 2, 3, 4, 5]);
    assert!(rest.is_empty());
    assert!(parse_frame(rest).unwrap().is_none());
}

#[test]
fn parse_frame_rejects_truncated_payload() {
    let mut buf = synth_ivf(&IVF_FOURCC_VP90);
    buf.extend_from_slice(&5u32.to_le_bytes());
    buf.extend_from_slice(&0u64.to_le_bytes());
    buf.extend_from_slice(&[1, 2]); // less than declared 5 bytes
    let (_h, body) = parse_header(&buf).unwrap();
    assert!(matches!(
        parse_frame(body),
        Err(BitstreamError::UnexpectedEnd(_))
    ));
}

fn sample_header(fourcc: [u8; 4]) -> IvfHeader {
    IvfHeader {
        fourcc,
        width: 1920,
        height: 1080,
        framerate_num: 30000,
        framerate_den: 1001,
        frame_count: 42,
    }
}

#[test]
fn write_header_round_trips_through_parse_header() {
    let h = sample_header(IVF_FOURCC_VP90);
    let mut out = Vec::new();
    let (start, end) = write_header(&mut out, h);
    assert_eq!(start, 0);
    assert_eq!(end, IVF_HEADER_LEN);
    assert_eq!(out.len(), IVF_HEADER_LEN);
    // The fixed-format bytes match the reader's strict checks.
    assert_eq!(&out[0..4], b"DKIF");
    assert_eq!(u16::from_le_bytes([out[4], out[5]]), 0);
    assert_eq!(u16::from_le_bytes([out[6], out[7]]), 32);
    // Round-trip.
    let (parsed, rest) = parse_header(&out).expect("parse own header");
    assert_eq!(parsed, h);
    assert!(rest.is_empty(), "no leftover after the 32-byte prefix");
}

#[test]
fn write_header_appends_after_existing_prefix() {
    let prefix = b"OLDDATA\x00";
    let mut out = prefix.to_vec();
    let h = sample_header(IVF_FOURCC_VP80);
    let (start, end) = write_header(&mut out, h);
    assert_eq!(start, prefix.len());
    assert_eq!(end, prefix.len() + IVF_HEADER_LEN);
    assert_eq!(&out[..prefix.len()], prefix, "prefix preserved");
    let (parsed, rest) = parse_header(&out[start..]).unwrap();
    assert_eq!(parsed, h);
    assert!(rest.is_empty());
}

#[test]
fn write_header_zeroes_the_reserved_tail() {
    let mut out = Vec::new();
    write_header(&mut out, sample_header(IVF_FOURCC_VP80));
    assert_eq!(&out[28..32], &[0u8; 4]);
}

#[test]
fn write_frame_round_trips_through_parse_frame() {
    let mut out = Vec::new();
    let payload = [9u8, 8, 7, 6, 5, 4, 3, 2, 1, 0];
    let (start, end) = write_frame(&mut out, 12345, &payload).unwrap();
    assert_eq!(start, 0);
    assert_eq!(end, IVF_FRAME_HEADER_LEN + payload.len());
    assert_eq!(out.len(), end);
    let (frame, rest) = parse_frame(&out).unwrap().unwrap();
    assert_eq!(frame.timestamp, 12345);
    assert_eq!(frame.payload, &payload);
    assert!(rest.is_empty());
}

#[test]
fn write_frame_empty_payload_round_trips() {
    let mut out = Vec::new();
    let (start, end) = write_frame(&mut out, 0, &[]).unwrap();
    assert_eq!(end - start, IVF_FRAME_HEADER_LEN);
    let (frame, rest) = parse_frame(&out).unwrap().unwrap();
    assert_eq!(frame.timestamp, 0);
    assert!(frame.payload.is_empty());
    assert!(rest.is_empty());
}

#[test]
fn write_all_round_trips_multi_frame_stream() {
    let h = sample_header(IVF_FOURCC_VP90);
    let frames: Vec<(u64, &[u8])> = vec![
        (0, b"frame-zero".as_slice()),
        (33, b"second".as_slice()),
        (66, b"".as_slice()),
        (99, &[0xff; 200]),
    ];
    let buf = write_all(h, &frames).unwrap();
    let (parsed_h, parsed_frames) = parse_all(&buf).unwrap();
    assert_eq!(parsed_h, h);
    assert_eq!(parsed_frames.len(), frames.len());
    for ((expected_ts, expected_payload), got) in frames.iter().zip(parsed_frames.iter()) {
        assert_eq!(got.timestamp, *expected_ts);
        assert_eq!(got.payload, *expected_payload);
    }
}

#[test]
fn write_all_empty_frame_list_yields_lone_header() {
    let h = sample_header(IVF_FOURCC_VP80);
    let buf = write_all(h, &[]).unwrap();
    assert_eq!(buf.len(), IVF_HEADER_LEN);
    let (parsed_h, frames) = parse_all(&buf).unwrap();
    assert_eq!(parsed_h, h);
    assert!(frames.is_empty());
}

#[test]
fn write_frame_preserves_buffer_on_size_overflow_at_simulated_boundary() {
    // We cannot allocate u32::MAX + 1 bytes in a test, so simulate
    // the check by constructing a slice header (we never deref into
    // it) that lies about its length. Instead, exercise the
    // rejection contract by calling write_all with a payload that
    // is short but whose declared error path is the same.
    //
    // The only way to exceed IVF_FRAME_PAYLOAD_MAX in practice is
    // to feed a slice whose len() is > u32::MAX. On 32-bit targets
    // that is impossible. On 64-bit targets the test that follows
    // checks the boundary constant itself stays in sync.
    assert_eq!(IVF_FRAME_PAYLOAD_MAX, u32::MAX as usize);
    // Round-trip a payload at exactly u16::MAX bytes (typical max
    // single-buffer fixture size) to make sure no off-by-one in the
    // u32 size field surfaces near a likely consumer boundary.
    let payload = vec![0xa5u8; u16::MAX as usize];
    let mut out = Vec::new();
    let (_, end) = write_frame(&mut out, 1, &payload).unwrap();
    assert_eq!(end, IVF_FRAME_HEADER_LEN + payload.len());
    let (frame, rest) = parse_frame(&out).unwrap().unwrap();
    assert_eq!(frame.payload.len(), payload.len());
    assert_eq!(frame.payload, payload.as_slice());
    assert!(rest.is_empty());
}

#[test]
fn write_all_writes_concatenated_frames_in_order() {
    let h = sample_header(IVF_FOURCC_VP80);
    let p1 = b"aaa".as_slice();
    let p2 = b"bbbbb".as_slice();
    let buf = write_all(h, &[(10, p1), (20, p2)]).unwrap();
    // After the global header, frame 1's size field must land at
    // offset 32, frame 1's payload at 32+12 = 44, frame 2's size
    // field at 32+12+3 = 47, etc.
    assert_eq!(buf.len(), IVF_HEADER_LEN + 12 + p1.len() + 12 + p2.len());
    assert_eq!(
        u32::from_le_bytes([buf[32], buf[33], buf[34], buf[35]]),
        p1.len() as u32
    );
    let p2_size_off = 32 + 12 + p1.len();
    assert_eq!(
        u32::from_le_bytes([
            buf[p2_size_off],
            buf[p2_size_off + 1],
            buf[p2_size_off + 2],
            buf[p2_size_off + 3]
        ]),
        p2.len() as u32
    );
}

#[test]
fn write_header_fields_appear_at_documented_offsets() {
    let h = IvfHeader {
        fourcc: *b"ABCD",
        width: 0x1234,
        height: 0x5678,
        framerate_num: 0xdead_beef,
        framerate_den: 0x0badf00d,
        frame_count: 0x55aa_55aa,
    };
    let mut out = Vec::new();
    write_header(&mut out, h);
    assert_eq!(&out[0..4], b"DKIF");
    assert_eq!(&out[4..6], &0u16.to_le_bytes());
    assert_eq!(&out[6..8], &32u16.to_le_bytes());
    assert_eq!(&out[8..12], b"ABCD");
    assert_eq!(&out[12..14], &h.width.to_le_bytes());
    assert_eq!(&out[14..16], &h.height.to_le_bytes());
    assert_eq!(&out[16..20], &h.framerate_num.to_le_bytes());
    assert_eq!(&out[20..24], &h.framerate_den.to_le_bytes());
    assert_eq!(&out[24..28], &h.frame_count.to_le_bytes());
    assert_eq!(&out[28..32], &0u32.to_le_bytes());
}

#[test]
fn parse_header_rejects_version_and_length() {
    let mut buf = synth_ivf(&IVF_FOURCC_VP80);
    buf[4] = 1;
    assert!(matches!(parse_header(&buf), Err(BitstreamError::InvalidData(_))));
    let mut buf = synth_ivf(&IVF_FOURCC_VP80);
    buf[6] = 31;
    assert!(matches!(parse_header(&buf), Err(BitstreamError::InvalidData(_))));
}

#[test]
fn parse_all_reports_a_truncated_frame() {
    let mut buf = write_all(sample_header(IVF_FOURCC_VP90), &[(1, &[1, 2, 3][..])]).unwrap();
    buf.extend_from_slice(&[9, 0, 0]);
    assert!(matches!(parse_all(&buf), Err(BitstreamError::UnexpectedEnd(_))));
}

#[test]
fn rewriting_a_parsed_container_gives_its_bytes() {
    let buf = write_all(
        sample_header(IVF_FOURCC_VP80),
        &[(u64::MAX, &[][..]), (0x0102_0304_0506_0708, &[4, 5][..])],
    )
    .unwrap();
    let (h, frames) = parse_all(&buf).unwrap();
    let again: Vec<(u64, &[u8])> = frames.iter().map(|f| (f.timestamp, f.payload)).collect();
    assert_eq!(write_all(h, &again).unwrap(), buf);
    // The reserved bytes are not retained.
    let mut marked = buf.clone();
    marked[28] = 1;
    let (h, _) = parse_all(&marked).unwrap();
    assert_eq!(write_all(h, &again).unwrap(), buf);
}
