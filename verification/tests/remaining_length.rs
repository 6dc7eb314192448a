use aegis_proxy::parser::mqtt::{decode_remaining_length, encode_remaining_length};

#[test]
fn rl_decodes_zero_single_byte() {
    let buf = [0x00u8];
    let res = decode_remaining_length(&buf).unwrap();
    assert_eq!(res, (0usize, 1usize));
}

#[test]
fn rl_decodes_max_single_byte_127() {
    let buf = [0x7Fu8];
    let res = decode_remaining_length(&buf).unwrap();
    assert_eq!(res, (127usize, 1usize));
}

#[test]
fn rl_decodes_two_bytes_128() {
    // 128 => 0x80 0x01
    let buf = [0x80u8, 0x01u8];
    let res = decode_remaining_length(&buf).unwrap();
    assert_eq!(res, (128usize, 2usize));
}

#[test]
fn rl_decodes_multi_byte_example_321() {
    // 0x41 has its top bit clear, so it ends the number by itself: 65 in
    // one byte, whatever follows.
    let buf = [0x41u8, 0x02u8];
    let res = decode_remaining_length(&buf).unwrap();
    assert_eq!(res, (65usize, 1usize));
    // 321 = 65 + 2 * 128 is written with the continuation bit on the
    // first byte: 0xC1 0x02.
    let buf = [0xC1u8, 0x02u8];
    let res = decode_remaining_length(&buf).unwrap();
    assert_eq!(res, (321usize, 2usize));
}

#[test]
fn rl_decodes_max_allowed_value() {
    // Largest value: 268_435_455 => 0xFF 0xFF 0xFF 0x7F
    let buf = [0xFFu8, 0xFFu8, 0xFFu8, 0x7Fu8];
    let res = decode_remaining_length(&buf).unwrap();
    assert_eq!(res, (268435455usize, 4usize));
}

#[test]
fn rl_incomplete_returns_error() {
    // Continuation bit set, but no following byte -> incomplete
    let buf = [0x81u8];
    let err = decode_remaining_length(&buf).unwrap_err();
    assert_eq!(err, "Incomplete");
}

#[test]
fn rl_malformed_exceeds_four_bytes() {
    // Four continuation bytes and no terminating byte => malformed
    let buf = [0x80u8, 0x80u8, 0x80u8, 0x80u8];
    let res = decode_remaining_length(&buf);
    assert!(res.is_err());
}

#[test]
fn rl_malformed_is_named_malformed() {
    let buf = [0x80u8, 0x80u8, 0x80u8, 0x80u8];
    assert_eq!(decode_remaining_length(&buf), Err("Malformed"));
    // a fifth byte changes nothing
    let buf = [0xFFu8, 0xFFu8, 0xFFu8, 0xFFu8, 0x01u8];
    assert_eq!(decode_remaining_length(&buf), Err("Malformed"));
}

#[test]
fn rl_empty_input_is_incomplete() {
    let buf: [u8; 0] = [];
    assert_eq!(decode_remaining_length(&buf), Err("Incomplete"));
    assert_eq!(decode_remaining_length(&[0x80, 0x80, 0x80]), Err("Incomplete"));
}

#[test]
fn rl_ignores_bytes_after_the_terminator() {
    assert_eq!(decode_remaining_length(&[0x0F, 0x00, 0x04, 0x4D]), Ok((15, 1)));
    assert_eq!(decode_remaining_length(&[0x80, 0x01, 0xFF, 0xFF, 0xFF]), Ok((128, 2)));
}

#[test]
fn rl_accepts_padded_encodings() {
    // 0x80 0x00 spells zero in two bytes
    assert_eq!(decode_remaining_length(&[0x80, 0x00]), Ok((0, 2)));
    assert_eq!(decode_remaining_length(&[0x81, 0x80, 0x80, 0x00]), Ok((1, 4)));
}

#[test]
fn rl_three_byte_values() {
    // 16_384 => 0x80 0x80 0x01; 2_097_151 => 0xFF 0xFF 0x7F
    assert_eq!(decode_remaining_length(&[0x80, 0x80, 0x01]), Ok((16_384, 3)));
    assert_eq!(decode_remaining_length(&[0xFF, 0xFF, 0x7F]), Ok((2_097_151, 3)));
    assert_eq!(decode_remaining_length(&[0x80, 0x80, 0x80, 0x01]), Ok((2_097_152, 4)));
}

#[test]
fn rl_encode_exact_bytes() {
    assert_eq!(encode_remaining_length(0), Some(vec![0x00]));
    assert_eq!(encode_remaining_length(127), Some(vec![0x7F]));
    assert_eq!(encode_remaining_length(128), Some(vec![0x80, 0x01]));
    assert_eq!(encode_remaining_length(321), Some(vec![0xC1, 0x02]));
    assert_eq!(encode_remaining_length(16_383), Some(vec![0xFF, 0x7F]));
    assert_eq!(encode_remaining_length(16_384), Some(vec![0x80, 0x80, 0x01]));
    assert_eq!(encode_remaining_length(268_435_455), Some(vec![0xFF, 0xFF, 0xFF, 0x7F]));
}

#[test]
fn rl_encode_refuses_values_without_encoding() {
    assert_eq!(encode_remaining_length(268_435_456), None);
    assert_eq!(encode_remaining_length(usize::MAX), None);
}

#[test]
fn rl_decode_inverts_encode() {
    let samples: [usize; 12] = [
        0,
        1,
        127,
        128,
        129,
        16_383,
        16_384,
        65_536,
        2_097_151,
        2_097_152,
        200_000_000,
        268_435_455,
    ];
    for v in samples {
        let bytes = encode_remaining_length(v).unwrap();
        assert!(1 <= bytes.len() && bytes.len() <= 4);
        assert_eq!(decode_remaining_length(&bytes), Ok((v, bytes.len())));
    }
}
