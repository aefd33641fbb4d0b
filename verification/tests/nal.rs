//! NAL unit framing.
use oxideav_bitstream::nal::{
    annex_b_to_length_prefixed, ebsp_to_rbsp, length_prefixed_to_annex_b, rbsp_to_ebsp,
    split_length_prefixed,
};
use oxideav_bitstream::BitstreamError;

#[test]
fn ebsp_strips_canonical_triple() {
    // `0x00 0x00 0x03 0x01` → `0x00 0x00 0x01`.
    let ebsp = [0x00, 0x00, 0x03, 0x01];
    assert_eq!(ebsp_to_rbsp(&ebsp), vec![0x00, 0x00, 0x01]);
}

#[test]
fn ebsp_strips_every_escaped_third_byte() {
    // The escape fires for third bytes 0x00..=0x03.
    for x in 0u8..=3 {
        let ebsp = [0x00, 0x00, 0x03, x];
        assert_eq!(ebsp_to_rbsp(&ebsp), vec![0x00, 0x00, x]);
    }
}

#[test]
fn ebsp_leaves_three_byte_alone_without_zero_prefix() {
    // A bare `0x03` not preceded by `00 00` is a payload byte.
    let ebsp = [0x10, 0x00, 0x03, 0x05];
    assert_eq!(ebsp_to_rbsp(&ebsp), vec![0x10, 0x00, 0x03, 0x05]);
}

#[test]
fn ebsp_strips_trailing_escape_guard() {
    // ITU-T H.264 §7.4.1.1 / H.265 §7.4.1.1 / H.266 §7.4.2.1 add a
    // trailing `0x03` after an RBSP that ends in `0x00 0x00` so the
    // next NAL's start-code cannot be folded in. The stripper
    // recovers the original `0x00 0x00`-terminated RBSP by dropping
    // that escape byte, matching the inverse on the writer side.
    let ebsp = [0x00, 0x00, 0x03];
    assert_eq!(ebsp_to_rbsp(&ebsp), vec![0x00, 0x00]);
}

#[test]
fn ebsp_empty_in_empty_out() {
    assert_eq!(ebsp_to_rbsp(&[]), Vec::<u8>::new());
}

#[test]
fn rbsp_inserts_emulation_byte_before_each_escaped_value() {
    // `0x00 0x00 X` for X in 0..=3 must become `0x00 0x00 0x03 X`.
    for x in 0u8..=3 {
        let rbsp = [0x00, 0x00, x];
        assert_eq!(rbsp_to_ebsp(&rbsp), vec![0x00, 0x00, 0x03, x]);
    }
}

#[test]
fn rbsp_leaves_unaffected_bytes_alone() {
    // The third byte 0x04 is not escaped: no emulation byte added.
    let rbsp = [0x00, 0x00, 0x04];
    assert_eq!(rbsp_to_ebsp(&rbsp), vec![0x00, 0x00, 0x04]);
}

#[test]
fn rbsp_handles_longer_zero_run_correctly() {
    // Four leading zeros then `0x01`: the second `00 00 01` triple
    // (positions 2..5) must be escaped, but the first pair of
    // zeros stays unescaped because the third byte is itself `0`,
    // already part of the second escape window.
    //
    // Walkthrough with the two-zero rolling window:
    //   pos 0 byte 0x00 → emit;     run=1
    //   pos 1 byte 0x00 → emit;     run=2
    //   pos 2 byte 0x00 → escape; emit 0x03 then 0x00; run=1
    //   pos 3 byte 0x00 → emit;     run=2
    //   pos 4 byte 0x01 → escape; emit 0x03 then 0x01; run=0
    let rbsp = [0x00, 0x00, 0x00, 0x00, 0x01];
    let ebsp = rbsp_to_ebsp(&rbsp);
    // After escape: 00 00 03 00 00 03 01
    assert_eq!(ebsp, vec![0x00, 0x00, 0x03, 0x00, 0x00, 0x03, 0x01]);
    // And it must round-trip cleanly.
    assert_eq!(ebsp_to_rbsp(&ebsp), rbsp);
}

#[test]
fn rbsp_appends_trailing_escape_when_ending_in_two_zeros() {
    // An RBSP that finishes on `0x00 0x00` gets a trailing `0x03`
    // appended so the next NAL's start-code cannot be folded in.
    let rbsp = [0xAB, 0x00, 0x00];
    assert_eq!(rbsp_to_ebsp(&rbsp), vec![0xAB, 0x00, 0x00, 0x03]);
}

#[test]
fn rbsp_does_not_append_trailing_escape_for_single_trailing_zero() {
    let rbsp = [0xAB, 0xCD, 0x00];
    assert_eq!(rbsp_to_ebsp(&rbsp), vec![0xAB, 0xCD, 0x00]);
}

#[test]
fn rbsp_empty_in_empty_out() {
    assert_eq!(rbsp_to_ebsp(&[]), Vec::<u8>::new());
}

#[test]
fn length_prefixed_split_and_roundtrip() {
    // Two units behind 4-byte lengths.
    let stream = [
        0, 0, 0, 3, 0x67, 0xAA, 0xBB, // NAL 1 (3 bytes)
        0, 0, 0, 2, 0x68, 0xCC, // NAL 2 (2 bytes)
    ];
    let nals = split_length_prefixed(&stream, 4).unwrap();
    assert_eq!(nals, vec![&[0x67, 0xAA, 0xBB][..], &[0x68, 0xCC][..]]);

    let annex_b = length_prefixed_to_annex_b(&stream, 4).unwrap();
    assert_eq!(
        annex_b,
        vec![0, 0, 0, 1, 0x67, 0xAA, 0xBB, 0, 0, 0, 1, 0x68, 0xCC]
    );
    // And back.
    assert_eq!(
        annex_b_to_length_prefixed(&annex_b, 4).unwrap(),
        stream.to_vec()
    );
}

#[test]
fn length_prefixed_supports_all_prefix_widths() {
    for size in 1usize..=4 {
        let mut stream = Vec::new();
        let body = [0x41u8, 0x9A, 0x00, 0x7F];
        for shift in (0..size).rev() {
            stream.push(((body.len() >> (8 * shift)) & 0xFF) as u8);
        }
        stream.extend_from_slice(&body);
        let nals = split_length_prefixed(&stream, size).unwrap();
        assert_eq!(nals, vec![&body[..]], "prefix width {size}");
        let ab = length_prefixed_to_annex_b(&stream, size).unwrap();
        assert_eq!(annex_b_to_length_prefixed(&ab, size).unwrap(), stream);
    }
}

#[test]
fn length_prefixed_rejects_overrun_and_bad_width() {
    // Declares 5 bytes, provides 2.
    let stream = [0, 0, 0, 5, 0xAA, 0xBB];
    assert!(matches!(
        split_length_prefixed(&stream, 4).unwrap_err(),
        BitstreamError::UnexpectedEnd(_)
    ));
    // Truncated prefix.
    assert!(matches!(
        split_length_prefixed(&[0, 0], 4).unwrap_err(),
        BitstreamError::UnexpectedEnd(_)
    ));
    // Invalid width.
    assert!(matches!(
        split_length_prefixed(&[0], 0).unwrap_err(),
        BitstreamError::InvalidData(_)
    ));
    assert!(matches!(
        split_length_prefixed(&[0], 5).unwrap_err(),
        BitstreamError::InvalidData(_)
    ));
}

#[test]
fn annex_b_conversion_accepts_mixed_start_codes_and_rejects_oversize() {
    // 3-byte start code for the second NAL.
    let annex_b = [0u8, 0, 0, 1, 0x67, 0xAA, 0, 0, 1, 0x68];
    let lp = annex_b_to_length_prefixed(&annex_b, 4).unwrap();
    assert_eq!(lp, vec![0, 0, 0, 2, 0x67, 0xAA, 0, 0, 0, 1, 0x68]);

    // A 300-byte NAL cannot fit a 1-byte prefix.
    let mut big = vec![0u8, 0, 0, 1];
    big.extend(std::iter::repeat_n(0x42u8, 300));
    assert!(matches!(
        annex_b_to_length_prefixed(&big, 1).unwrap_err(),
        BitstreamError::InvalidData(_)
    ));

    // No start code at all.
    assert!(matches!(
        annex_b_to_length_prefixed(&[0x12, 0x34], 4).unwrap_err(),
        BitstreamError::InvalidData(_)
    ));
}

#[test]
fn ebsp_to_rbsp_to_ebsp_roundtrips_canonical_inputs() {
    // Deterministic spot-check: a few hand-constructed conformant
    // EBSPs round-trip exactly through the rbsp↔ebsp pair.
    let cases: &[&[u8]] = &[
        &[0x10, 0x20, 0x30],
        &[0x00, 0x00, 0x03, 0x01, 0x02],
        &[0x00, 0x00, 0x03, 0x00, 0x00, 0x03, 0x01],
        &[0xff, 0x00, 0x00, 0x03, 0x02, 0xfe],
    ];
    for &ebsp in cases {
        let rbsp = ebsp_to_rbsp(ebsp);
        let reframed = rbsp_to_ebsp(&rbsp);
        // For inputs that already encode trailing-zero guards
        // conformantly, the inverse pair returns identical bytes.
        let trail = ebsp.len() >= 2 && ebsp[ebsp.len() - 2] == 0 && ebsp[ebsp.len() - 1] == 0;
        if !trail {
            assert_eq!(reframed, ebsp);
        }
    }
}

#[test]
fn escaping_then_stripping_is_the_identity() {
    let cases: &[&[u8]] = &[&[], &[0], &[0, 0], &[0, 0, 0, 0, 0], &[0, 0, 3], &[0, 0, 3, 0, 0, 3], &[1, 0, 0, 2, 0, 0]];
    for &x in cases {
        assert_eq!(ebsp_to_rbsp(&rbsp_to_ebsp(x)), x);
    }
}

#[test]
fn escaped_bytes_hold_no_start_code_prefix() {
    let x: Vec<u8> = (0..200u32).map(|i| if i % 7 == 3 { 1 } else { 0 }).collect();
    let e = rbsp_to_ebsp(&x);
    assert!(e.windows(3).all(|w| !(w[0] == 0 && w[1] == 0 && w[2] <= 2)));
    assert_ne!(&e[e.len() - 2..], &[0, 0]);
}

#[test]
fn reframing_keeps_bodies_that_end_in_zeros() {
    let stream = [3, 9, 0, 0, 2, 7, 0, 1, 5];
    let ab = length_prefixed_to_annex_b(&stream, 1).unwrap();
    assert_eq!(ab, vec![0, 0, 0, 1, 9, 0, 0, 0, 0, 0, 1, 7, 0, 0, 0, 0, 1, 5]);
    assert_eq!(annex_b_to_length_prefixed(&ab, 1).unwrap(), stream.to_vec());
}

#[test]
fn reframing_splits_a_body_that_holds_a_start_code() {
    let stream = [5, 9, 0, 0, 1, 8];
    let ab = length_prefixed_to_annex_b(&stream, 1).unwrap();
    assert_eq!(annex_b_to_length_prefixed(&ab, 1).unwrap(), vec![1, 9, 1, 8]);
}

#[test]
fn empty_framings() {
    assert!(split_length_prefixed(&[], 4).unwrap().is_empty());
    assert_eq!(split_length_prefixed(&[0, 0], 1).unwrap(), vec![&[][..], &[][..]]);
    assert_eq!(length_prefixed_to_annex_b(&[], 2).unwrap(), Vec::<u8>::new());
    assert!(matches!(annex_b_to_length_prefixed(&[], 4), Err(BitstreamError::InvalidData(_))));
    assert!(matches!(annex_b_to_length_prefixed(&[0, 0, 1], 0), Err(BitstreamError::InvalidData(_))));
    assert_eq!(annex_b_to_length_prefixed(&[7, 0, 0, 1], 2).unwrap(), vec![0, 0]);
    assert!(matches!(length_prefixed_to_annex_b(&[2, 1], 1), Err(BitstreamError::UnexpectedEnd(_))));
    assert!(matches!(length_prefixed_to_annex_b(&[2, 1], 9), Err(BitstreamError::InvalidData(_))));
}
