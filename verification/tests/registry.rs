use gclient::registry::{ManifestRecord, ProtocolMetaEntry, ProtocolRegistry};
use gclient::schema::fnv1a;
use prost::Message;
use prost_reflect::prost_types::field_descriptor_proto::{Label, Type};
use prost_reflect::prost_types::{
    DescriptorProto, FieldDescriptorProto, FileDescriptorProto, FileDescriptorSet,
};

fn entry(name: &str, event: &str, hotfix: bool) -> ProtocolMetaEntry {
    ProtocolMetaEntry {
        ekey_name: String::from(name),
        message: String::from(name),
        event_name: String::from(event),
        hotfix_fallback: hotfix,
    }
}

#[test]
fn manifest_records_fill_the_registry() {
    let mut reg = ProtocolRegistry::new();
    let records = vec![
        ManifestRecord { ekey_value: Some(2), entry: Ok(entry("RspLogin", "rsp_login", false)) },
        ManifestRecord { ekey_value: Some(0), entry: Ok(entry("Zero", "zero", false)) },
        ManifestRecord { ekey_value: Some(65535), entry: Ok(entry("Max", "max", false)) },
        ManifestRecord { ekey_value: None, entry: Err(String::from("ignored")) },
        ManifestRecord { ekey_value: Some(33005), entry: Ok(entry("DspMove", "dsp_move", true)) },
    ];
    assert!(reg.load_manifest(records).is_ok());
    assert_eq!(reg.get_event_name(2), Some("rsp_login"));
    assert_eq!(reg.get(33005).unwrap().message, "DspMove");
    assert!(reg.get(0).is_none());
    assert!(reg.get(65535).is_none());
    assert_eq!(reg.find_key_by_event_name("dsp_move"), Some(33005));
    assert_eq!(reg.find_key_by_event_name("nope"), None);
    assert!(!reg.should_override(33005));
}

#[test]
fn malformed_entry_with_key_stops_the_load() {
    let mut reg = ProtocolRegistry::new();
    let records = vec![
        ManifestRecord { ekey_value: Some(1), entry: Ok(entry("ReqLogin", "req_login", false)) },
        ManifestRecord { ekey_value: Some(7), entry: Err(String::from("missing field `event_name`")) },
        ManifestRecord { ekey_value: Some(8), entry: Ok(entry("Late", "late", false)) },
    ];
    let err = reg.load_manifest(records).unwrap_err();
    assert_eq!(err, "parse manifest entry key=7: missing field `event_name`");
    assert!(reg.get(1).is_some());
    assert!(reg.get(8).is_none());
}

#[test]
fn generic_channel_without_descriptors() {
    let mut reg = ProtocolRegistry::new();
    let err = reg.decode_generic("RspLogin", &[]).unwrap_err();
    assert_eq!(err, "unknown message: RspLogin");
    assert!(reg.new_dynamic_message("RspLogin").is_none());
    assert!(reg.resolve_descriptor("RspLogin").is_none());
}

#[test]
fn bad_descriptor_set_is_rejected() {
    let mut reg = ProtocolRegistry::new();
    let err = reg.load_descriptors(&[0xFF, 0xFF, 0xFF]).unwrap_err();
    assert!(err.starts_with("decode descriptor set: "));
    assert!(!reg.is_loaded());
    assert!(reg.load_descriptors(&[]).is_ok());
    assert!(reg.is_loaded());
    assert!(reg.resolve_descriptor("Anything").is_none());
}

#[test]
fn fnv1a_reference_values() {
    assert_eq!(fnv1a(b""), 0xcbf29ce484222325);
    assert_eq!(fnv1a(b"a"), 0xaf63dc4c8601ec8c);
    assert_eq!(fnv1a(b"foobar"), 0x85944171f73967e8);
}

fn ping_descriptor_set() -> Vec<u8> {
    let mut id = FieldDescriptorProto {
        name: Some(String::from("id")),
        number: Some(1),
        json_name: Some(String::from("id")),
        ..Default::default()
    };
    id.set_label(Label::Optional);
    id.set_type(Type::Int32);
    let mut tags = FieldDescriptorProto {
        name: Some(String::from("tags")),
        number: Some(2),
        json_name: Some(String::from("tags")),
        ..Default::default()
    };
    tags.set_label(Label::Repeated);
    tags.set_type(Type::String);
    let ping = DescriptorProto {
        name: Some(String::from("Ping")),
        field: vec![id, tags],
        ..Default::default()
    };
    let file = FileDescriptorProto {
        name: Some(String::from("ping.proto")),
        package: Some(String::from("pb")),
        message_type: vec![ping],
        syntax: Some(String::from("proto3")),
        ..Default::default()
    };
    FileDescriptorSet { file: vec![file] }.encode_to_vec()
}

// The fingerprint of pb.Ping: text "1:int32;2:r:string".
const PING_FP: u64 = 0x688897c02896803a;

fn ping_registry(hotfix: bool) -> ProtocolRegistry {
    let mut reg = ProtocolRegistry::new();
    reg.load_descriptors(&ping_descriptor_set()).unwrap();
    reg.load_manifest(vec![ManifestRecord { ekey_value: Some(7), entry: Ok(entry("Ping", "ping", hotfix)) }])
        .unwrap();
    reg.warm_descriptors();
    reg
}

#[test]
fn descriptor_set_resolves_messages() {
    let mut reg = ping_registry(true);
    assert!(reg.is_loaded());
    assert!(reg.resolve_descriptor("Ping").is_some());
    assert!(reg.resolve_descriptor("Pong").is_none());
    assert!(reg.new_dynamic_message("Ping").is_some());
    let msg = reg.new_dynamic_message("Ping").unwrap();
    assert_eq!(reg.encode_generic("Ping", &msg).unwrap(), Vec::<u8>::new());
    assert_eq!(reg.encode_generic("Pong", &msg).unwrap_err(), "unknown message: Pong");
    assert!(reg.decode_generic("Ping", &[0x08, 0x05]).is_ok());
    assert!(reg.decode_generic("Ping", &[0x08]).unwrap_err().starts_with("decode Ping: "));
}

#[test]
fn changed_schema_is_overridden() {
    let mut reg = ping_registry(true);
    reg.compute_overrides(&[(7, PING_FP ^ 1)]);
    assert!(reg.should_override(7));
}

#[test]
fn unchanged_schema_is_not_overridden() {
    let mut reg = ping_registry(true);
    reg.compute_overrides(&[(7, PING_FP)]);
    assert!(!reg.should_override(7));
}

#[test]
fn last_compiled_fingerprint_counts() {
    let mut reg = ping_registry(true);
    reg.compute_overrides(&[(7, PING_FP ^ 1), (7, PING_FP)]);
    assert!(!reg.should_override(7));
    reg.compute_overrides(&[(7, PING_FP), (7, PING_FP ^ 1)]);
    assert!(reg.should_override(7));
}

#[test]
fn zero_or_missing_compiled_fingerprint_is_not_overridden() {
    let mut reg = ping_registry(true);
    reg.compute_overrides(&[(7, 0)]);
    assert!(!reg.should_override(7));
    reg.compute_overrides(&[(8, 1)]);
    assert!(!reg.should_override(7));
}

#[test]
fn override_needs_hotfix_fallback() {
    let mut reg = ping_registry(false);
    reg.compute_overrides(&[(7, PING_FP ^ 1)]);
    assert!(!reg.should_override(7));
}

#[test]
fn override_needs_a_kept_descriptor() {
    let mut reg = ProtocolRegistry::new();
    reg.load_manifest(vec![ManifestRecord { ekey_value: Some(7), entry: Ok(entry("Ping", "ping", true)) }])
        .unwrap();
    reg.compute_overrides(&[(7, PING_FP ^ 1)]);
    assert!(!reg.should_override(7));
}

fn parse_entry(v: &serde_json::Value) -> Result<ProtocolMetaEntry, String> {
    match (v.get("message_name").and_then(|m| m.as_str()), v.get("event_name").and_then(|m| m.as_str())) {
        (Some(m), Some(e)) => Ok(entry(m, e, false)),
        _ => Err(String::from("missing field")),
    }
}

#[test]
fn manifest_json_last_record_wins_and_bad_json_changes_nothing() {
    let mut reg = ProtocolRegistry::new();
    let json = r#"{"messages": [
        {"ekey_value": 2, "message_name": "A", "event_name": "first"},
        {"ekey_value": 0, "message_name": "B", "event_name": "zero"},
        {"message_name": "C", "event_name": "nokey"},
        {"ekey_value": 2, "message_name": "A", "event_name": "second"}
    ]}"#;
    reg.load_manifest_json(json, parse_entry).unwrap();
    assert_eq!(reg.get_event_name(2), Some("second"));
    assert!(reg.get(0).is_none());
    let err = reg.load_manifest_json("not json", parse_entry).unwrap_err();
    assert!(err.starts_with("parse manifest json: "));
    assert_eq!(reg.get_event_name(2), Some("second"));
    let err = reg
        .load_manifest_json(r#"{"messages": [{"ekey_value": 5}]}"#, parse_entry)
        .unwrap_err();
    assert_eq!(err, "parse manifest entry key=5: missing field");
    assert!(reg.load_manifest_json("{}", parse_entry).is_ok());
    assert!(reg.get(2).is_none());
}

#[test]
fn warm_keeps_only_listed_defined_messages() {
    let mut reg = ProtocolRegistry::new();
    reg.load_descriptors(&ping_descriptor_set()).unwrap();
    reg.load_manifest(vec![
        ManifestRecord { ekey_value: Some(1), entry: Ok(entry("Ping", "ping", false)) },
        ManifestRecord { ekey_value: Some(2), entry: Ok(entry("Pong", "pong", false)) },
    ])
    .unwrap();
    reg.warm_descriptors();
    let msg = reg.new_dynamic_message("Ping").unwrap();
    assert!(reg.encode_generic("Ping", &msg).is_ok());
    assert!(reg.encode_generic("Pong", &msg).is_err());
}
