use ankaios_agent::{decode_length_delimited, encode_length_delimited};

#[test]
fn short_body_has_one_byte_delimiter() {
    assert_eq!(encode_length_delimited(&[7, 8, 9]), vec![3, 7, 8, 9]);
    assert_eq!(encode_length_delimited(&[]), vec![0]);
}

#[test]
fn long_body_has_two_byte_delimiter() {
    let body = vec![1u8; 300];
    let frame = encode_length_delimited(&body);
    assert_eq!(&frame[..2], &[0xAC, 0x02]);
    assert_eq!(frame.len(), 302);
}

#[test]
fn frame_round_trip_keeps_trailing_bytes() {
    let body: Vec<u8> = (0..200u32).map(|i| (i % 256) as u8).collect();
    let mut frame = encode_length_delimited(&body);
    frame.extend_from_slice(&[42, 43]);
    let (read_body, rest) = decode_length_delimited(&frame).unwrap();
    assert_eq!(read_body, body);
    assert_eq!(rest, vec![42, 43]);
}

#[test]
fn truncated_or_invalid_frames_are_rejected() {
    assert_eq!(decode_length_delimited(&[5, 1, 2]), None);
    assert_eq!(decode_length_delimited(&[]), None);
    assert_eq!(decode_length_delimited(&[0x80]), None);
    assert_eq!(decode_length_delimited(&[0xFF; 11]), None);
}

#[test]
fn non_minimal_delimiter_is_accepted() {
    assert_eq!(
        decode_length_delimited(&[0x82, 0x00, 9, 9, 1]),
        Some((vec![9, 9], vec![1]))
    );
}
