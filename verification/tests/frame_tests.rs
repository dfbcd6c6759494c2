use resistance_advisor::frame::{decode_frame, encode_frame};
use resistance_advisor::models::TransportError;
use resistance_advisor::{deserialize_length, serialize_length};

#[test]
fn serialize_length_writes_little_endian() {
    assert_eq!(serialize_length(0), [0, 0, 0, 0]);
    assert_eq!(serialize_length(1), [1, 0, 0, 0]);
    assert_eq!(serialize_length(0x12345678), [0x78, 0x56, 0x34, 0x12]);
    assert_eq!(serialize_length(u32::MAX as usize), [0xFF, 0xFF, 0xFF, 0xFF]);
}

#[test]
fn deserialize_length_reads_little_endian() {
    assert_eq!(deserialize_length(&[0, 0, 0, 0]), 0);
    assert_eq!(deserialize_length(&[14, 0, 0, 0]), 14);
    assert_eq!(deserialize_length(&[0x78, 0x56, 0x34, 0x12]), 0x12345678);
}

#[test]
fn length_round_trip() {
    for len in [0usize, 1, 2, 255, 256, 65535, 1 << 20] {
        assert_eq!(deserialize_length(&serialize_length(len)), len);
    }
}

#[test]
fn decode_frame_needs_full_prefix() {
    assert_eq!(decode_frame(&vec![]), Err(TransportError));
    assert_eq!(decode_frame(&vec![5]), Err(TransportError));
    assert_eq!(decode_frame(&vec![5, 0, 0]), Err(TransportError));
}

#[test]
fn decode_frame_needs_declared_body() {
    // Prefix declares 5 body bytes but only 4 follow.
    let buf = vec![5, 0, 0, 0, b'a', b'b', b'c', b'd'];
    assert_eq!(decode_frame(&buf), Err(TransportError));
}

#[test]
fn decode_frame_returns_exactly_declared_body() {
    let buf = vec![3, 0, 0, 0, b'x', b'y', b'z', b'!', b'?'];
    let (body, used) = decode_frame(&buf).unwrap();
    assert_eq!(body, b"xyz".to_vec());
    assert_eq!(used, 7);
}

#[test]
fn decode_frame_accepts_empty_body() {
    let buf = vec![0, 0, 0, 0];
    let (body, used) = decode_frame(&buf).unwrap();
    assert_eq!(body, Vec::<u8>::new());
    assert_eq!(used, 4);
}

#[test]
fn frame_round_trip_all_small_sizes() {
    for n in 0..60usize {
        let body: Vec<u8> = (0..n).map(|i| (i * 7) as u8).collect();
        let mut framed = encode_frame(&body);
        let (decoded, used) = decode_frame(&framed).unwrap();
        assert_eq!(decoded, body);
        assert_eq!(used, 4 + n);
        // One byte short of the declared body is a transport error.
        if n > 0 {
            framed.pop();
            assert_eq!(decode_frame(&framed), Err(TransportError));
        }
    }
}

#[test]
fn decode_frame_leaves_following_bytes() {
    let mut buf = encode_frame(&b"one".to_vec());
    buf.extend_from_slice(&encode_frame(&b"two!".to_vec()));
    let (body, used) = decode_frame(&buf).unwrap();
    assert_eq!(body, b"one".to_vec());
    let rest: Vec<u8> = buf[used..].to_vec();
    let (body2, used2) = decode_frame(&rest).unwrap();
    assert_eq!(body2, b"two!".to_vec());
    assert_eq!(used2, rest.len());
}
