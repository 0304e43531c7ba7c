use gclient::codec::{CodecError, PacketCodec};

#[test]
fn encode_6byte_header() {
    let body = b"hello";
    let encoded = PacketCodec::encode(42, body);
    assert_eq!(encoded.len(), 6 + body.len());
    let key = u16::from_le_bytes([encoded[0], encoded[1]]);
    let body_len = u32::from_le_bytes([encoded[2], encoded[3], encoded[4], encoded[5]]);
    assert_eq!(key, 42);
    assert_eq!(body_len as usize, body.len());
    assert_eq!(&encoded[6..], body);
}

#[test]
fn encode_empty_body() {
    let encoded = PacketCodec::encode(1, &[]);
    assert_eq!(encoded.len(), 6);
    let key = u16::from_le_bytes([encoded[0], encoded[1]]);
    let body_len = u32::from_le_bytes([encoded[2], encoded[3], encoded[4], encoded[5]]);
    assert_eq!(key, 1);
    assert_eq!(body_len, 0);
}

#[test]
fn decode_server_success() {
    let body = b"hello";
    let mut pkt = Vec::new();
    pkt.extend_from_slice(&42u16.to_le_bytes());
    pkt.extend_from_slice(&0u16.to_le_bytes());
    pkt.extend_from_slice(&(body.len() as u32).to_le_bytes());
    pkt.extend_from_slice(body);

    let (key, err, decoded_body) = PacketCodec::decode(&pkt).unwrap();
    assert_eq!(key, 42);
    assert_eq!(err, 0);
    assert_eq!(decoded_body, body);
}

#[test]
fn decode_too_short() {
    assert!(PacketCodec::decode(&[0u8; 3]).is_err());
}

#[test]
fn decode_error_packet_4bytes() {
    let mut pkt = vec![0u8; 4];
    pkt[0] = 101;
    pkt[1] = 0;
    pkt[2] = 1; // err != 0
    pkt[3] = 0;
    let (key, err, body) = PacketCodec::decode(&pkt).unwrap();
    assert_eq!(key, 101);
    assert_eq!(err, 1);
    assert!(body.is_empty());
}

#[test]
fn decode_body_overflow() {
    let mut pkt = Vec::new();
    pkt.extend_from_slice(&1u16.to_le_bytes());
    pkt.extend_from_slice(&0u16.to_le_bytes());
    pkt.extend_from_slice(&0xFFFFu32.to_le_bytes());
    pkt.extend_from_slice(b"hi");
    assert!(PacketCodec::decode(&pkt).is_err());
}

#[test]
fn decode_reports_which_length_was_missing() {
    match PacketCodec::decode(&[1, 0, 0]) {
        Err(CodecError::PacketTooShort { got, expected }) => {
            assert_eq!(got, 3);
            assert_eq!(expected, 4);
        }
        other => panic!("expected PacketTooShort, got {:?}", other),
    }
    match PacketCodec::decode(&[1, 0, 0, 0, 9, 9]) {
        Err(CodecError::PacketTooShort { got, expected }) => {
            assert_eq!(got, 6);
            assert_eq!(expected, 8);
        }
        other => panic!("expected PacketTooShort, got {:?}", other),
    }
}

#[test]
fn decode_body_overflow_reports_sizes() {
    let pkt = vec![1u8, 0, 0, 0, 0xFF, 0xFF, 0, 0, b'h', b'i'];
    match PacketCodec::decode(&pkt) {
        Err(e) => {
            match &e {
                CodecError::BodyOverflow { declared, available } => {
                    assert_eq!(*declared, 0xFFFF);
                    assert_eq!(*available, 2);
                }
                other => panic!("expected BodyOverflow, got {:?}", other),
            }
            assert_eq!(e.message(), "body overflow: declared 65535 but only 2 available");
        }
        Ok(v) => panic!("expected an error, got {:?}", v),
    }
}

#[test]
fn decode_ignores_bytes_after_the_body() {
    let pkt = vec![7u8, 0, 0, 0, 2, 0, 0, 0, 10, 20, 30, 40];
    let (key, err, body) = PacketCodec::decode(&pkt).unwrap();
    assert_eq!(key, 7);
    assert_eq!(err, 0);
    assert_eq!(body, &[10, 20]);
}

#[test]
fn decode_error_frame_ignores_trailing_bytes() {
    let pkt = vec![5u8, 1, 3, 0, 99, 99];
    let (key, err, body) = PacketCodec::decode(&pkt).unwrap();
    assert_eq!(key, 0x0105);
    assert_eq!(err, 3);
    assert!(body.is_empty());
}

#[test]
fn codec_error_message_too_short() {
    let e = PacketCodec::decode(&[0u8; 3]).unwrap_err();
    assert_eq!(e.message(), "packet too short: 3 < 4");
}
