use gclient::schema::{
    kind_str, recursive_fingerprint, strip_pb_prefix, FieldKind, FieldSchema, MessageSchema,
};

fn field(number: u32, is_list: bool, kind: FieldKind) -> FieldSchema {
    FieldSchema { number, is_list, kind }
}

fn message(name: &str, fields: Vec<FieldSchema>) -> MessageSchema {
    MessageSchema { full_name: String::from(name), fields }
}

#[test]
fn pb_prefix_is_stripped_once() {
    assert_eq!(strip_pb_prefix("pb.Ping"), "Ping");
    assert_eq!(strip_pb_prefix("pb.pb.Ping"), "pb.Ping");
    assert_eq!(strip_pb_prefix("other.Ping"), "other.Ping");
    assert_eq!(strip_pb_prefix("pb"), "pb");
}

#[test]
fn kind_names() {
    let pool = vec![message("pb.Item", vec![])];
    assert_eq!(kind_str(&pool, &FieldKind::Sfixed64), "sfixed64");
    assert_eq!(kind_str(&pool, &FieldKind::Bytes), "bytes");
    assert_eq!(kind_str(&pool, &FieldKind::Enum(String::from("pb.Color"))), "e.Color");
    assert_eq!(kind_str(&pool, &FieldKind::Enum(String::from("x.Color"))), "e.x.Color");
    assert_eq!(kind_str(&pool, &FieldKind::Message(0)), "m.Item");
}

#[test]
fn fingerprint_of_flat_message_sorts_fields() {
    // Fields given out of order: the text is "1:int32;2:r:string".
    let pool = vec![message(
        "pb.Ping",
        vec![field(2, true, FieldKind::String), field(1, false, FieldKind::Int32)],
    )];
    assert_eq!(recursive_fingerprint(&pool, 0), 0x688897c02896803a);
}

#[test]
fn fingerprint_of_empty_message_is_the_offset_basis() {
    let pool = vec![message("pb.Empty", vec![])];
    assert_eq!(recursive_fingerprint(&pool, 0), 0xcbf29ce484222325);
}

#[test]
fn fingerprint_nests_messages_and_cuts_cycles() {
    // A { 1: B }, B { 1: bool, 2: A }.
    let pool = vec![
        message("pb.A", vec![field(1, false, FieldKind::Message(1))]),
        message(
            "pb.B",
            vec![field(1, false, FieldKind::Bool), field(2, false, FieldKind::Message(0))],
        ),
    ];
    // "1:m:B{1:bool;2:m:A{?}}"
    assert_eq!(recursive_fingerprint(&pool, 0), 0x3ff6e4486a8af7a4);
    // "1:bool;2:m:A{1:m:B{?}}"
    assert_eq!(recursive_fingerprint(&pool, 1), 0x40a63a1af47a4d0a);
}

#[test]
fn fingerprint_of_repeated_message_with_enum() {
    let pool = vec![
        message("pb.Bag", vec![field(1, true, FieldKind::Message(1))]),
        message(
            "pb.Item",
            vec![
                field(2, false, FieldKind::Enum(String::from("pb.Color"))),
                field(1, false, FieldKind::Int64),
            ],
        ),
    ];
    // "1:r:m:Item{1:int64;2:e.Color}"
    assert_eq!(recursive_fingerprint(&pool, 0), 0xa16ed7f05b459ff5);
}

#[test]
fn fingerprint_of_missing_message_is_that_of_the_cycle_mark() {
    let pool = vec![message("pb.A", vec![])];
    // Text "?".
    assert_eq!(recursive_fingerprint(&pool, 5), gclient::schema::fnv1a(b"?"));
}

#[test]
fn fingerprint_ignores_field_order() {
    let a = vec![
        message(
            "pb.A",
            vec![
                field(1, false, FieldKind::Message(1)),
                field(3, true, FieldKind::Uint64),
                field(2, false, FieldKind::Bytes),
            ],
        ),
        message("pb.B", vec![field(1, false, FieldKind::Sint32), field(2, true, FieldKind::Bool)]),
    ];
    let b = vec![
        message(
            "pb.A",
            vec![
                field(2, false, FieldKind::Bytes),
                field(1, false, FieldKind::Message(1)),
                field(3, true, FieldKind::Uint64),
            ],
        ),
        message("pb.B", vec![field(2, true, FieldKind::Bool), field(1, false, FieldKind::Sint32)]),
    ];
    assert_eq!(recursive_fingerprint(&a, 0), recursive_fingerprint(&b, 0));
    assert_eq!(recursive_fingerprint(&a, 1), recursive_fingerprint(&b, 1));
    assert_ne!(recursive_fingerprint(&a, 0), recursive_fingerprint(&a, 1));
}
