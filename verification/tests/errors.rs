//! Error values.
use oxideav_bitstream::BitstreamError;

#[test]
fn constructors_and_texts() {
    let e = BitstreamError::invalid("bad field");
    assert_eq!(e, BitstreamError::InvalidData("bad field".to_owned()));
    assert_eq!(e.to_string(), "invalid bitstream data: bad field");
    let e = BitstreamError::unexpected_end("short");
    assert_eq!(e, BitstreamError::UnexpectedEnd("short".to_owned()));
    assert_eq!(e.to_string(), "unexpected end of stream: short");
    let e = BitstreamError::unsupported("tiles");
    assert_eq!(e, BitstreamError::Unsupported("tiles".to_owned()));
    assert_eq!(e.to_string(), "unsupported bitstream feature: tiles");
}
