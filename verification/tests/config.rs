use std::path::PathBuf;

use gclient::config::{
    check_table_bytes, load_table_bytes, sha256_hex, ConfigError, ConfigStore, ConfigTable,
    Manifest, TableEntry, TableRow,
};

fn table_entry(file: &str, sha: &str) -> TableEntry {
    TableEntry {
        file: String::from(file),
        sha256: String::from(sha),
        size: 0,
        row_count: 0,
        rust_type: String::from("Item"),
    }
}

fn row(id: Option<Option<i64>>, cid: Option<Option<i64>>, tag: &str) -> TableRow {
    TableRow { id, cid, value: serde_json::Value::String(String::from(tag)) }
}

#[test]
fn sha256_hex_of_abc() {
    assert_eq!(
        sha256_hex(b"abc"),
        "ba7816bf8f01cfea414140de5dae2223b00361a396177a9cb410ff61f20015ad"
    );
}

#[test]
fn table_bytes_checked_against_manifest_digest() {
    let good = table_entry("tables/item.json", "ba7816bf8f01cfea414140de5dae2223b00361a396177a9cb410ff61f20015ad");
    assert!(check_table_bytes("item", &good, b"abc").is_ok());
    let unchecked = table_entry("tables/item.json", "");
    assert!(check_table_bytes("item", &unchecked, b"anything").is_ok());
    match check_table_bytes("item", &good, b"abd") {
        Err(e) => {
            match &e {
                ConfigError::HashMismatch { table, expected, actual } => {
                    assert_eq!(table, "item");
                    assert_eq!(expected, &good.sha256);
                    assert_eq!(actual, &sha256_hex(b"abd"));
                }
                other => panic!("expected HashMismatch, got {:?}", other),
            }
            assert!(e.message().starts_with("hash mismatch for item: expected=ba7816bf"));
        }
        Ok(()) => panic!("a wrong digest must be refused"),
    }
}

#[test]
fn rows_found_by_id_then_cid() {
    let mut store = ConfigStore::new(Manifest::for_all_json(), PathBuf::from("cfg"));
    let rows = vec![
        row(Some(Some(1)), None, "first"),
        row(None, Some(Some(2)), "by cid"),
        row(Some(None), Some(Some(3)), "id not an integer"),
        row(Some(Some(2)), None, "second with key 2"),
    ];
    store.insert_table(
        String::from("item"),
        ConfigTable { value: serde_json::Value::Null, rows: Some(rows) },
    );
    assert_eq!(store.get_row_json("item", 1), Some(&serde_json::Value::String(String::from("first"))));
    assert_eq!(store.get_row_json("item", 2), Some(&serde_json::Value::String(String::from("by cid"))));
    assert_eq!(store.get_row_json("item", 3), None);
    assert_eq!(store.get_row_json("missing", 1), None);
    assert_eq!(store.get_table_json("item"), Some(&serde_json::Value::Null));
    assert_eq!(store.get_table_json("other"), None);
}

#[test]
fn table_names_sorted_and_replaced_tables_counted_once() {
    let mut store = ConfigStore::new(Manifest::for_all_json(), PathBuf::from("cfg"));
    for name in ["skill", "Item", "item", "a", "skill"] {
        store.insert_table(
            String::from(name),
            ConfigTable { value: serde_json::Value::Bool(true), rows: None },
        );
    }
    assert_eq!(store.table_names(), vec!["Item", "a", "item", "skill"]);
    assert_eq!(store.get_row_json("skill", 1), None);
    assert_eq!(store.manifest().version, "all.json");
}

#[test]
fn reload_target_requires_a_manifest_entry() {
    let manifest = Manifest {
        version: String::from("7"),
        tables: vec![(String::from("item"), table_entry("tables/item.json", ""))],
    };
    let store = ConfigStore::new(manifest, PathBuf::from("cfg"));
    assert_eq!(store.reload_target("item").unwrap().file, "tables/item.json");
    match store.reload_target("skill") {
        Err(ConfigError::TableMissing { name, path }) => {
            assert_eq!(name, "skill");
            assert_eq!(path, PathBuf::from("cfg").join("tables").join("skill.json"));
        }
        other => panic!("expected TableMissing, got {:?}", other),
    }
}

#[test]
fn all_json_object_fields_become_tables() {
    let store = ConfigStore::from_all_json(
        r#"{"skill": [{"id": 1}], "item": [{"id": 7, "n": "x"}], "empty": {}}"#,
        PathBuf::from("cfg"),
    )
    .unwrap();
    assert_eq!(store.table_names(), vec!["empty", "item", "skill"]);
    assert_eq!(store.manifest().version, "all.json");
    assert!(store.manifest().tables.is_empty());
    assert_eq!(store.get_row_json("item", 7).unwrap()["n"], "x");
    let not_object = ConfigStore::from_all_json("[1, 2]", PathBuf::from("cfg")).unwrap();
    assert!(not_object.table_names().is_empty());
    assert!(matches!(ConfigStore::from_all_json("{oops", PathBuf::from("cfg")), Err(ConfigError::Json(_))));
}

#[test]
fn table_bytes_outcomes() {
    let data = br#"[{"id": 3}]"#;
    let ok = load_table_bytes("t", &table_entry("t.json", &sha256_hex(data)), data).unwrap();
    assert!(ok.rows.is_some());
    let bad_json = b"[{";
    assert!(matches!(
        load_table_bytes("t", &table_entry("t.json", ""), bad_json),
        Err(ConfigError::Json(_))
    ));
    match load_table_bytes("t", &table_entry("t.json", "00"), data) {
        Err(ConfigError::HashMismatch { table, expected, actual }) => {
            assert_eq!(table, "t");
            assert_eq!(expected, "00");
            assert_eq!(actual, sha256_hex(data));
        }
        _ => panic!("expected a digest mismatch"),
    }
}
