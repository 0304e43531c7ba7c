use gclient::netcore::cmd_ext::{EKey, ServerMessage};
use gclient::netcore::codec::PacketCodec;
use gclient::netcore::dispatcher::{self, convert_error_response, convert_server_message};
use gclient::netcore::event::NetEvent;
use gclient::netcore::pb::{
    DspKickRole, DspMove, RoleLoginData, RoleSummaryData, RspCreateRole, RspLogin, RspLoginRole,
    Vector,
};
use gclient::registry::{ManifestRecord, ProtocolMetaEntry, ProtocolRegistry};

fn no_compiled_decoder(_key: EKey, _body: &[u8]) -> Result<ServerMessage, String> {
    Err(String::from("no compiled decoder"))
}

#[test]
fn dispatch_channels_raw_fallback_unknown_key() {
    let body = b"opaque payload";
    let raw = PacketCodec::encode(9999u16, body);

    let mut reg = ProtocolRegistry::new();
    let event = dispatcher::dispatch(&raw, &mut reg, no_compiled_decoder);

    match event {
        NetEvent::RawMessage { key, err, body: got_body } => {
            assert_eq!(key, 9999, "key mismatch");
            assert_eq!(err, 0);
            assert_eq!(got_body.as_slice(), b"opaque payload", "body bytes must be passed through");
        }
        other => panic!("raw fallback: expected RawMessage, got {:?}", other),
    }
}

#[test]
fn dispatch_channels_raw_fallback_body_is_actual_bytes_not_length() {
    let payload = vec![1u8, 2, 3, 4, 5];
    let raw = PacketCodec::encode(8888u16, &payload);

    let mut reg = ProtocolRegistry::new();
    let event = dispatcher::dispatch(&raw, &mut reg, no_compiled_decoder);

    match event {
        NetEvent::RawMessage { body, .. } => {
            assert_eq!(body, payload, "body must be the actual bytes");
        }
        other => panic!("expected RawMessage, got {:?}", other),
    }
}

#[test]
fn compiled_channel_error_packet_rsp_login() {
    // 4-byte error packet: [key LE][err LE] (no body)
    let key_bytes = EKey::RspLogin.as_u16().to_le_bytes();
    let err_code: u16 = 42;
    let pkt = vec![key_bytes[0], key_bytes[1], 42, 0];

    let mut reg = ProtocolRegistry::new();
    let event = dispatcher::dispatch(&pkt, &mut reg, no_compiled_decoder);

    match event {
        NetEvent::LoginResponse { err, .. } => {
            assert_eq!(err, err_code as i32);
        }
        other => panic!("error path: expected LoginResponse(err), got {:?}", other),
    }
}

#[test]
fn compiled_channel_error_packet_unknown_key_falls_to_raw() {
    // Error packet for a key not in EKey → should produce RawMessage
    let pkt = vec![0xFFu8, 0x7F, 7, 0]; // key=0x7FFF=32767 (not in EKey), err=7
    let mut reg = ProtocolRegistry::new();
    let event = dispatcher::dispatch(&pkt, &mut reg, no_compiled_decoder);

    match event {
        NetEvent::RawMessage { key, err, .. } => {
            assert_eq!(key, 0x7FFF);
            assert_eq!(err, 7);
        }
        other => panic!("expected RawMessage for unknown err key, got {:?}", other),
    }
}

#[test]
fn registry_new_is_empty() {
    let reg = ProtocolRegistry::new();
    assert!(!reg.is_loaded(), "fresh registry should not be loaded");
    assert!(reg.get(1001).is_none(), "fresh registry should have no entries");
    assert!(reg.get_event_name(2001).is_none());
}

#[test]
fn dispatch_channels_event_name_convention_rsp_dsp_prefix() {
    let rsp_login_type = "rsp_login";
    let dsp_move_type = "dsp_move";
    let raw_type = "raw";
    assert!(rsp_login_type.starts_with("rsp_"));
    assert!(dsp_move_type.starts_with("dsp_"));
    assert_eq!(raw_type, "raw");
}

#[test]
fn compiled_channel_converts_decoded_message() {
    let raw = PacketCodec::encode(EKey::DspMove.as_u16(), &[1, 2, 3]);
    let mut reg = ProtocolRegistry::new();
    let event = dispatcher::dispatch(&raw, &mut reg, |key: EKey, body: &[u8]| {
        assert_eq!(key, EKey::DspMove);
        assert_eq!(body, &[1, 2, 3]);
        Ok(ServerMessage::DspMove(DspMove {
            role_id: 77,
            pos: Some(Vector { x: 10, y: 20, z: 30 }),
        }))
    });
    match event {
        NetEvent::MoveSync { role_id, x, y, z } => {
            assert_eq!((role_id, x, y, z), (77, 10, 20, 30));
        }
        other => panic!("expected MoveSync, got {:?}", other),
    }
}

#[test]
fn failed_compiled_decode_falls_back_to_registry_raw() {
    let mut reg = ProtocolRegistry::new();
    let records = vec![ManifestRecord {
        ekey_value: Some(2),
        entry: Ok(ProtocolMetaEntry {
            ekey_name: String::from("RspLogin"),
            message: String::from("RspLogin"),
            event_name: String::from("rsp_login"),
            hotfix_fallback: false,
        }),
    }];
    assert!(reg.load_manifest(records).is_ok());
    let raw = PacketCodec::encode(2, &[9, 9]);
    let event = dispatcher::dispatch(&raw, &mut reg, no_compiled_decoder);
    match event {
        NetEvent::RawMessage { key, err, body } => {
            assert_eq!(key, 2);
            assert_eq!(err, 0);
            assert_eq!(body, vec![9, 9]);
        }
        other => panic!("expected RawMessage without descriptors, got {:?}", other),
    }
}

#[test]
fn registry_error_frame_gives_empty_raw_message() {
    let mut reg = ProtocolRegistry::new();
    let records = vec![ManifestRecord {
        ekey_value: Some(5000),
        entry: Ok(ProtocolMetaEntry {
            ekey_name: String::from("DspNews"),
            message: String::from("DspNews"),
            event_name: String::from("dsp_news"),
            hotfix_fallback: true,
        }),
    }];
    reg.load_manifest(records).unwrap();
    let event = dispatcher::dispatch(&[0x88, 0x13, 4, 0], &mut reg, no_compiled_decoder);
    match event {
        NetEvent::RawMessage { key, err, body } => {
            assert_eq!(key, 5000);
            assert_eq!(err, 4);
            assert!(body.is_empty());
        }
        other => panic!("expected RawMessage, got {:?}", other),
    }
}

#[test]
fn codec_error_becomes_raw_message() {
    let mut reg = ProtocolRegistry::new();
    let event = dispatcher::dispatch(&[1, 0, 0, 0, 5, 0, 0, 0], &mut reg, no_compiled_decoder);
    match event {
        NetEvent::RawMessage { key, err, body } => {
            assert_eq!((key, err), (0, 0));
            assert_eq!(body, b"codec error: body overflow: declared 5 but only 0 available".to_vec());
        }
        other => panic!("expected RawMessage, got {:?}", other),
    }
}

#[test]
fn error_responses_per_key() {
    match convert_error_response(EKey::RspCreateRole, 9) {
        NetEvent::CreateRoleResponse { err, role } => {
            assert_eq!(err, 9);
            assert!(role.is_none());
        }
        other => panic!("unexpected {:?}", other),
    }
    match convert_error_response(EKey::RspLoginRole, 3) {
        NetEvent::LoginRoleResponse { err, regain } => {
            assert_eq!(err, 3);
            assert!(!regain);
        }
        other => panic!("unexpected {:?}", other),
    }
    assert!(matches!(convert_error_response(EKey::RspPing, 1), NetEvent::Pong));
    assert!(matches!(convert_error_response(EKey::RspPingZzz, 1), NetEvent::PongZzz));
    match convert_error_response(EKey::DspKickRole, 6) {
        NetEvent::RawMessage { key, err, body } => {
            assert_eq!(key, 10002);
            assert_eq!(err, 6);
            assert!(body.is_empty());
        }
        other => panic!("unexpected {:?}", other),
    }
    match convert_error_response(EKey::RspLogin, 65535) {
        NetEvent::LoginResponse { err, fast, roles, account, server_time } => {
            assert_eq!(err, 65535);
            assert!(!fast && roles.is_empty() && account.is_empty() && server_time == 0);
        }
        other => panic!("unexpected {:?}", other),
    }
}

#[test]
fn server_messages_carry_their_fields() {
    let rsp = RspLogin {
        err: 0,
        fast: true,
        roles: vec![RoleSummaryData { id: 42, cid: 1, lv: 10, name: String::from("hero"), icon: 100 }],
        account: String::from("player1"),
        server_time: 1234567890,
    };
    match convert_server_message(ServerMessage::RspLogin(rsp)) {
        NetEvent::LoginResponse { err, fast, roles, account, server_time } => {
            assert_eq!(err, 0);
            assert!(fast);
            assert_eq!(roles.len(), 1);
            assert_eq!(roles[0].id, 42);
            assert_eq!(roles[0].cid, 1);
            assert_eq!(roles[0].lv, 10);
            assert_eq!(roles[0].name, "hero");
            assert_eq!(roles[0].icon, 100);
            assert_eq!(account, "player1");
            assert_eq!(server_time, 1234567890);
        }
        other => panic!("unexpected {:?}", other),
    }
    let created = RspCreateRole {
        err: 0,
        role: Some(RoleSummaryData { id: 55, cid: 2, lv: 1, name: String::from("warrior"), icon: 0 }),
    };
    match convert_server_message(ServerMessage::RspCreateRole(created)) {
        NetEvent::CreateRoleResponse { err, role } => {
            assert_eq!(err, 0);
            let role = role.unwrap();
            assert_eq!(role.id, 55);
            assert_eq!(role.name, "warrior");
        }
        other => panic!("unexpected {:?}", other),
    }
    match convert_server_message(ServerMessage::RspLoginRole(RspLoginRole {
        err: 0,
        data: Some(RoleLoginData { regain: true }),
    })) {
        NetEvent::LoginRoleResponse { err, regain } => assert!(err == 0 && regain),
        other => panic!("unexpected {:?}", other),
    }
    match convert_server_message(ServerMessage::DspMove(DspMove { role_id: 3, pos: None })) {
        NetEvent::MoveSync { role_id, x, y, z } => assert_eq!((role_id, x, y, z), (3, 0, 0, 0)),
        other => panic!("unexpected {:?}", other),
    }
    match convert_server_message(ServerMessage::DspKickRole(DspKickRole { ty: 2 })) {
        NetEvent::KickRole { kick_type } => assert_eq!(kick_type, 2),
        other => panic!("unexpected {:?}", other),
    }
}

#[test]
fn generic_decode_failure_gives_raw_body() {
    let meta = ProtocolMetaEntry {
        ekey_name: String::from("RspX"),
        message: String::from("X"),
        event_name: String::from("rsp_x"),
        hotfix_fallback: false,
    };
    let ev = dispatcher::generic_message_event(40, &[1, 2, 3], meta, Err(String::from("bad")));
    match ev {
        NetEvent::RawMessage { key, err, body } => {
            assert_eq!((key, err), (40, 0));
            assert_eq!(body, vec![1, 2, 3]);
        }
        other => panic!("expected RawMessage, got {:?}", other),
    }
}

// The compiled protobuf decoder is generated code that this crate does not
// hold; these tests stand in a decoder that returns the message a server
// would have encoded.
#[test]
fn compiled_channel_rsp_login() {
    let raw = PacketCodec::encode(EKey::RspLogin.as_u16(), &[0x2a]);
    let mut reg = ProtocolRegistry::new();
    let event = dispatcher::dispatch(&raw, &mut reg, |key: EKey, body: &[u8]| {
        assert_eq!(key, EKey::RspLogin);
        assert_eq!(body, &[0x2a]);
        Ok(ServerMessage::RspLogin(RspLogin {
            err: 0,
            fast: false,
            roles: vec![],
            account: String::from("alice"),
            server_time: 999,
        }))
    });
    match event {
        NetEvent::LoginResponse { err, account, server_time, .. } => {
            assert_eq!(err, 0);
            assert_eq!(account, "alice");
            assert_eq!(server_time, 999);
        }
        other => panic!("compiled channel: expected LoginResponse, got {:?}", other),
    }
}

#[test]
fn compiled_channel_dsp_move() {
    let raw = PacketCodec::encode(EKey::DspMove.as_u16(), &[7]);
    let mut reg = ProtocolRegistry::new();
    let event = dispatcher::dispatch(&raw, &mut reg, |_key: EKey, _body: &[u8]| {
        Ok(ServerMessage::DspMove(DspMove { role_id: 77, pos: Some(Vector { x: 10, y: 20, z: 30 }) }))
    });
    match event {
        NetEvent::MoveSync { role_id, x, y, z } => {
            assert_eq!(role_id, 77);
            assert_eq!(x, 10);
            assert_eq!(y, 20);
            assert_eq!(z, 30);
        }
        other => panic!("compiled channel: expected MoveSync, got {:?}", other),
    }
}
