use gclient::netcore::cmd_ext::EKey;
use gclient::netcore::codec::PacketCodec;

#[test]
fn round_trip() {
    let body = b"hello";
    let encoded = PacketCodec::encode(42, body);
    let (key, err, decoded_body) = PacketCodec::decode(&encoded).unwrap();
    assert_eq!(key, 42);
    assert_eq!(err, 0);
    assert_eq!(decoded_body, body);
}

#[test]
fn empty_body() {
    let encoded = PacketCodec::encode(1, &[]);
    let (key, err, body) = PacketCodec::decode(&encoded).unwrap();
    assert_eq!(key, 1);
    assert_eq!(err, 0);
    assert!(body.is_empty());
}

#[test]
fn too_short() {
    assert!(PacketCodec::decode(&[0u8; 3]).is_err());
}

#[test]
fn error_packet_4bytes() {
    let mut pkt = vec![0u8; 4];
    pkt[0] = 101; // key = RspPing
    pkt[1] = 0;
    pkt[2] = 1; // err != 0
    pkt[3] = 0;
    let (key, err, body) = PacketCodec::decode(&pkt).unwrap();
    assert_eq!(key, 101);
    assert_eq!(err, 1);
    assert!(body.is_empty());
}

#[test]
fn body_overflow() {
    let mut pkt = PacketCodec::encode(1, b"hi");
    // Corrupt body_len to a huge value
    pkt[4] = 0xFF;
    pkt[5] = 0xFF;
    assert!(PacketCodec::decode(&pkt).is_err());
}

#[test]
fn codec_parity_codec_reject_corrupt_packet() {
    let short = [0u8; 3];
    assert!(PacketCodec::decode(&short).is_err());

    let mut packet = PacketCodec::encode(1, b"hello");
    packet[4] = 0xFF; // corrupt body_len
    packet[5] = 0xFF;
    assert!(PacketCodec::decode(&packet).is_err());
}

#[test]
fn codec_parity_codec_4byte_error_packet() {
    // Server sends 4-byte error packets: [key LE][err LE] with err != 0
    let pkt = vec![101u8, 0, 1, 0]; // key=101 (RspPing), err=1
    let (key, err, body) = PacketCodec::decode(&pkt).unwrap();
    assert_eq!(key, 101);
    assert_eq!(err, 1);
    assert!(body.is_empty());
}

#[test]
fn ekey_round_trip_all_values() {
    let all_keys: Vec<u16> = vec![
        1, 2, 3, 4, 5, 6, 100, 101, 102, 103, 200, 201, 300, 301,
        10000, 10001, 10002, 10003, 33005,
    ];
    for v in all_keys {
        let key = EKey::from_u16(v).unwrap_or_else(|| panic!("EKey::from_u16({}) returned None", v));
        assert_eq!(key.as_u16(), v);
    }
    assert!(EKey::from_u16(0).is_none());
    assert!(EKey::from_u16(9999).is_none());
    assert!(EKey::from_u16(65535).is_none());
}

#[test]
fn netcore_encode_writes_zero_error_code() {
    let pkt = PacketCodec::encode(0x0201, b"xyz");
    assert_eq!(pkt, vec![0x01, 0x02, 0, 0, 3, 0, 0, 0, b'x', b'y', b'z']);
}

#[test]
fn netcore_codec_error_messages() {
    let e = PacketCodec::decode(&[1u8, 0, 0, 0, 0, 0]).unwrap_err();
    assert_eq!(e.message(), "packet too short: 6 < 8");
    let e = PacketCodec::decode(&[1u8, 0, 0, 0, 9, 0, 0, 0, 1]).unwrap_err();
    assert_eq!(e.message(), "body overflow: declared 9 but only 1 available");
}

#[test]
fn ekey_known_names() {
    assert_eq!(EKey::ReqLogin.as_u16(), 1);
    assert_eq!(EKey::RspLogin.as_u16(), 2);
    assert_eq!(EKey::RspPing.as_u16(), 101);
    assert_eq!(EKey::from_u16(2), Some(EKey::RspLogin));
}
