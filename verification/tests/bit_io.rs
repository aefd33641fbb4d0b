//! Bit-level reading and writing.
use oxideav_bitstream::bit_reader::BitReader;
use oxideav_bitstream::bit_writer::{fits_bits, us_fit, BitWriter};
use oxideav_bitstream::BitstreamError;

#[test]
fn fixed_width_fields_round_trip() {
    let mut w = BitWriter::new();
    w.write_bits(0xDEAD_BEEF, 32);
    w.write_bits(5, 3);
    w.write_flag(true);
    w.write_bit(0);
    w.write_bits(0xFFF0 | 9, 4); // only the low bits are written
    let bytes = w.finish();
    assert_eq!(bytes, vec![0xDE, 0xAD, 0xBE, 0xEF, 0b1011_0100, 0b1000_0000]);
    let mut r = BitReader::new(&bytes);
    assert_eq!(r.u(32), 0xDEAD_BEEF);
    assert_eq!(r.u8(3), 5);
    assert!(r.flag());
    assert_eq!(r.bit(), 0);
    assert_eq!(r.u16(4), 9);
    assert_eq!(r.bit_pos(), 41);
    assert_eq!(r.bits_remaining(), 7);
    assert_eq!(r.total_bits(), 48);
    assert!(!r.byte_aligned() && !r.at_end());
}

#[test]
fn bits_past_the_end_are_zero() {
    let mut r = BitReader::new(&[0xFF]);
    assert_eq!(r.u(12), 0xFF0);
    assert_eq!(r.u(32), 0);
    assert!(r.at_end());
    assert_eq!(r.bits_remaining(), 0);
    assert_eq!(BitReader::new(&[]).u(8), 0);
}

#[test]
fn exp_golomb_codes() {
    for (v, bits) in [(0u32, "1"), (1, "010"), (2, "011"), (3, "00100"), (7, "0001000"), (62, "00000111111")] {
        let mut w = BitWriter::new();
        w.write_ue(v).unwrap();
        w.write_rbsp_trailing_bits();
        let bytes = w.finish();
        let text: String = bytes.iter().map(|b| format!("{b:08b}")).collect();
        assert!(text.starts_with(bits), "{v}: {text}");
        let mut r = BitReader::new(&bytes);
        assert_eq!(r.ue().unwrap(), v);
        r.read_rbsp_trailing_bits().unwrap();
    }
    for v in [0, 1, -1, 2, -2, 1000, -1000, i32::MAX, -i32::MAX] {
        let mut w = BitWriter::new();
        w.write_se(v).unwrap();
        assert_eq!(BitReader::new(&w.finish()).se().unwrap(), v);
    }
}

#[test]
fn exp_golomb_limits() {
    let mut w = BitWriter::new();
    assert!(matches!(w.write_ue(u32::MAX), Err(BitstreamError::InvalidData(_))));
    assert!(matches!(w.write_se(i32::MIN), Err(BitstreamError::InvalidData(_))));
    w.write_ue(u32::MAX - 1).unwrap();
    let bytes = w.finish();
    assert_eq!(BitReader::new(&bytes).ue().unwrap(), u32::MAX - 1);
    assert!(matches!(BitReader::new(&[0, 0, 0, 0, 0xFF]).ue(), Err(BitstreamError::InvalidData(_))));
    assert!(matches!(BitReader::new(&[]).se(), Err(BitstreamError::InvalidData(_))));
}

#[test]
fn alignment_and_trailing_bits() {
    let mut w = BitWriter::new();
    w.write_bits(1, 1);
    assert!(!w.byte_aligned());
    w.align_to_byte();
    assert!(w.byte_aligned());
    w.write_rbsp_trailing_bits();
    let bytes = w.finish();
    assert_eq!(bytes, vec![0x80, 0x80]);
    let mut r = BitReader::new(&bytes);
    assert!(r.more_rbsp_data());
    r.u(1);
    r.read_align("").unwrap();
    assert!(!r.more_rbsp_data());
    r.read_rbsp_trailing_bits().unwrap();
    assert!(r.at_end());
    assert!(matches!(r.read_rbsp_trailing_bits(), Err(BitstreamError::UnexpectedEnd(_))));
    let mut r = BitReader::new(&[0xC0]);
    r.u(1);
    assert!(r.read_align("set bit") == Err(BitstreamError::invalid("set bit")));
    for bad in [&[0x40u8][..], &[0xC0], &[0x80, 0x00]] {
        assert!(matches!(BitReader::new(bad).read_rbsp_trailing_bits(), Err(BitstreamError::InvalidData(_))));
    }
}

#[test]
fn lists_round_trip() {
    let mut w = BitWriter::new();
    w.write_ues(&[0, 9, 100]).unwrap();
    w.write_us(&[3, 1023], 10);
    w.write_u8s(&[7, 0, 5], 3);
    w.write_bitlist(&[1, 0, 1]);
    w.write_flags(&[false, true]);
    w.write_bits_if(1, 1, false);
    w.write_ue_if(4, true).unwrap();
    w.write_se_if(-4, true).unwrap();
    let bytes = w.finish();
    let mut r = BitReader::new(&bytes);
    assert_eq!(r.read_ues(3).unwrap(), vec![0, 9, 100]);
    assert_eq!(r.read_us(2, 10), vec![3, 1023]);
    assert_eq!(r.read_u8s(3, 3), vec![7, 0, 5]);
    assert_eq!(r.read_bitlist(3), vec![1, 0, 1]);
    assert_eq!(r.read_flags(2), vec![false, true]);
    assert_eq!(r.u_if(4, false, 77), 77);
    assert_eq!(r.ue_if(true, 0).unwrap(), 4);
    assert_eq!(r.se_if(true, 0).unwrap(), -4);
}

#[test]
fn width_checks() {
    assert!(fits_bits(255, 8) && !fits_bits(256, 8) && fits_bits(u32::MAX, 32) && fits_bits(0, 0));
    assert!(us_fit(&[1, 3], 2) && !us_fit(&[1, 4], 2));
}
