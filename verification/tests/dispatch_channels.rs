use gclient::codec::PacketCodec;
use gclient::dispatcher;
use gclient::event::NetEvent;

#[test]
fn compiled_channel_produces_protocol_event_or_raw() {
    let rsp_login_key: u16 = 2;
    let raw = PacketCodec::encode(rsp_login_key, &[]);

    let event = dispatcher::dispatch(&raw);

    match event {
        NetEvent::RawMessage { key, .. } => {
            assert_eq!(key, rsp_login_key);
        }
        other => panic!("unexpected event: {:?}", other),
    }
}

#[test]
fn raw_fallback_unknown_key() {
    let body = b"opaque payload";
    let raw = PacketCodec::encode(9999u16, body);

    let event = dispatcher::dispatch(&raw);

    match event {
        NetEvent::RawMessage { key, err, body: got_body } => {
            assert_eq!(key, 9999);
            assert_eq!(err, 0);
            assert_eq!(got_body.as_slice(), b"opaque payload");
        }
        other => panic!("raw fallback: expected RawMessage, got {:?}", other),
    }
}

#[test]
fn raw_fallback_body_is_actual_bytes_not_length() {
    let payload = vec![1u8, 2, 3, 4, 5];
    let raw = PacketCodec::encode(8888u16, &payload);

    let event = dispatcher::dispatch(&raw);

    match event {
        NetEvent::RawMessage { body, .. } => {
            assert_eq!(body, payload, "body must be the actual bytes");
        }
        other => panic!("expected RawMessage, got {:?}", other),
    }
}

#[test]
fn error_packet_known_key_returns_raw_message() {
    let key_u16: u16 = 2;
    let key_bytes = key_u16.to_le_bytes();
    let err_code: u16 = 42;
    let pkt = vec![key_bytes[0], key_bytes[1], (err_code & 0xFF) as u8, (err_code >> 8) as u8];

    let event = dispatcher::dispatch(&pkt);

    match event {
        NetEvent::RawMessage { key, err, .. } => {
            assert_eq!(key, key_u16);
            assert_eq!(err, err_code);
        }
        other => panic!("error path: expected RawMessage or ProtocolEvent, got {:?}", other),
    }
}

#[test]
fn error_packet_unknown_key_falls_to_raw() {
    let pkt = vec![0xFFu8, 0x7F, 7, 0];
    let event = dispatcher::dispatch(&pkt);

    match event {
        NetEvent::RawMessage { key, err, .. } => {
            assert_eq!(key, 0x7FFF);
            assert_eq!(err, 7);
        }
        other => panic!("expected RawMessage for unknown err key, got {:?}", other),
    }
}

#[test]
fn event_name_convention_rsp_dsp_prefix() {
    let rsp_login = "rsp_login";
    let dsp_move = "dsp_move";
    let raw_type = "raw";
    assert!(rsp_login.starts_with("rsp_"));
    assert!(dsp_move.starts_with("dsp_"));
    assert_eq!(raw_type, "raw");
}

#[test]
fn undecodable_frame_reports_codec_error_text() {
    let event = dispatcher::dispatch(&[1, 2]);
    match event {
        NetEvent::RawMessage { key, err, body } => {
            assert_eq!(key, 0);
            assert_eq!(err, 0);
            assert_eq!(body, b"codec error: packet too short: 2 < 4".to_vec());
        }
        other => panic!("expected RawMessage, got {:?}", other),
    }
}

#[test]
fn frames_that_are_not_request_frames_read_as_server_frames() {
    match dispatcher::dispatch(&[1, 0, 0, 0, 9]) {
        NetEvent::RawMessage { key, err, body } => {
            assert_eq!((key, err), (0, 0));
            assert_eq!(body, b"codec error: packet too short: 5 < 8".to_vec());
        }
        other => panic!("expected RawMessage, got {:?}", other),
    }
    match dispatcher::dispatch(&[1, 0, 7, 0, 9]) {
        NetEvent::RawMessage { key, err, body } => {
            assert_eq!((key, err), (1, 7));
            assert!(body.is_empty());
        }
        other => panic!("expected RawMessage, got {:?}", other),
    }
    let mut frame = vec![0x0f, 0x27, 0, 0, 5, 0, 0, 0];
    frame.extend_from_slice(b"hello");
    match dispatcher::dispatch(&frame) {
        NetEvent::RawMessage { key, err, body } => {
            assert_eq!((key, err), (9999, 0));
            assert_eq!(body, b"hello".to_vec());
        }
        other => panic!("expected RawMessage, got {:?}", other),
    }
}

#[test]
fn request_frame_decodes_back() {
    let frame = PacketCodec::encode(513, b"abc");
    let (key, body) = PacketCodec::decode_request(&frame).unwrap();
    assert_eq!(key, 513);
    assert_eq!(body, b"abc");
    let mut longer = frame.clone();
    longer.push(9);
    assert_eq!(PacketCodec::decode_request(&longer).unwrap().1, b"abc");
}
