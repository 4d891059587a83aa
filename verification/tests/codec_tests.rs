use mecanum_base::codec::DecodeError;
use mecanum_base::{decode_in_place, encode};

fn round_trip(payload: &[u8]) {
    let mut frame = encode(&payload.to_vec());
    assert!(frame.iter().all(|&b| b != 0), "an encoded frame carries no zero byte");
    frame.push(0);
    let n = decode_in_place(&mut frame).expect("well-formed frame must decode");
    assert!(n >= 1);
    assert_eq!(&frame[..n - 1], payload);
}

#[test]
fn encode_known_frame() {
    assert_eq!(encode(&vec![0x01, 0x02, 0x03]), vec![0x04, 0x01, 0x02, 0x03]);
}

#[test]
fn encode_empty_payload() {
    assert_eq!(encode(&Vec::new()), vec![0x01]);
}

#[test]
fn encode_zero_bytes() {
    assert_eq!(encode(&vec![0x00]), vec![0x01, 0x01]);
    assert_eq!(encode(&vec![0x00, 0x00]), vec![0x01, 0x01, 0x01]);
    assert_eq!(encode(&vec![0x11, 0x00, 0x22]), vec![0x02, 0x11, 0x02, 0x22]);
}

#[test]
fn decode_known_frame() {
    let mut buf = vec![0x04, 0x01, 0x02, 0x03, 0x00];
    let n = decode_in_place(&mut buf).unwrap();
    assert_eq!(n, 4);
    assert_eq!(&buf[..n - 1], &[0x01, 0x02, 0x03]);
}

#[test]
fn decode_delimiter_only() {
    let mut buf = vec![0x00];
    assert_eq!(decode_in_place(&mut buf), Ok(1));
}

#[test]
fn round_trip_short_payloads() {
    round_trip(&[]);
    round_trip(&[0x01, 0x02, 0x03]);
    round_trip(&[0x00]);
    round_trip(&[0x00, 0x00, 0x00]);
    round_trip(&[0xff, 0x00, 0xff]);
    round_trip(b"hello from the link");
}

#[test]
fn round_trip_block_boundaries() {
    for len in [253usize, 254, 255, 300, 507, 508, 509, 1022] {
        let payload: Vec<u8> = (0..len).map(|i| (i % 255 + 1) as u8).collect();
        round_trip(&payload);
    }
}

#[test]
fn round_trip_payloads_with_zeros() {
    for len in [10usize, 254, 255, 600, 1022] {
        let payload: Vec<u8> = (0..len).map(|i| (i % 7) as u8).collect();
        round_trip(&payload);
    }
}

#[test]
fn decode_offset_out_of_range() {
    let mut buf = vec![0x06, 0x01, 0x02, 0x03, 0x00];
    assert_eq!(decode_in_place(&mut buf), Err(DecodeError::OffsetOutOfRange));
    // the buffer is left as it was
    assert_eq!(buf, vec![0x06, 0x01, 0x02, 0x03, 0x00]);
}

#[test]
fn decode_missing_delimiter() {
    let mut buf = vec![0x04, 0x01, 0x02, 0x03];
    assert_eq!(decode_in_place(&mut buf), Err(DecodeError::MissingDelimiter));

    let mut empty: Vec<u8> = Vec::new();
    assert_eq!(decode_in_place(&mut empty), Err(DecodeError::MissingDelimiter));

    // a delimiter anywhere but at the end is refused too
    let mut early = vec![0x02, 0x01, 0x00, 0x09];
    assert_eq!(decode_in_place(&mut early), Err(DecodeError::MissingDelimiter));
}

#[test]
fn encode_matches_reference_implementation() {
    let cases: Vec<Vec<u8>> = vec![
        vec![],
        vec![0x00],
        vec![0x01, 0x02, 0x03],
        vec![0x11, 0x00, 0x22, 0x00, 0x33],
        (0..253).map(|i| (i % 255 + 1) as u8).collect(),
        (0..254).map(|i| (i % 255 + 1) as u8).collect(),
        (0..255).map(|i| (i % 255 + 1) as u8).collect(),
        (0..1022).map(|i| (i % 255 + 1) as u8).collect(),
        (0..1022).map(|i| (i % 9) as u8).collect(),
    ];
    for payload in cases {
        assert_eq!(encode(&payload), cobs::encode_vec(&payload), "payload len {}", payload.len());
    }
}

#[test]
fn decode_matches_reference_implementation() {
    for len in [0usize, 1, 5, 253, 254, 255, 300, 1022] {
        let payload: Vec<u8> = (0..len).map(|i| (i % 11) as u8).collect();
        let encoded = cobs::encode_vec(&payload);
        let mut frame = encoded.clone();
        frame.push(0);
        let n = decode_in_place(&mut frame).expect("reference encoding must decode");
        assert_eq!(&frame[..n - 1], &payload[..], "payload len {}", len);
        // and the reference decoder accepts this library's encoding
        assert_eq!(cobs::decode_vec(&encode(&payload)).unwrap(), payload);
    }
}
