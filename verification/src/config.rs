use std::path::PathBuf;

use sha2::{Digest, Sha256};
use vstd::prelude::*;

use crate::order::{has_name, insert_sorted, lemma_same_names_insert, same_names, sorted_names};
use crate::text::{hex_lower, push_hex};

verus! {

#[verifier::external_type_specification]
#[verifier::external_body]
pub struct ExJsonValue(serde_json::Value);

#[verifier::external_type_specification]
#[verifier::external_body]
pub struct ExJsonError(serde_json::Error);

#[verifier::external_type_specification]
#[verifier::external_body]
pub struct ExIoError(std::io::Error);

#[verifier::external_type_specification]
#[verifier::external_body]
pub struct ExPathBuf(PathBuf);

/// The SHA-256 digest of a byte string.
pub uninterp spec fn sha256(data: Seq<u8>) -> Seq<u8>;

/// `sha2::Sha256::digest`: the SHA-256 digest of the data, which is 32 bytes
/// and depends on the data alone.
#[verifier::external_body]
fn sha256_digest(data: &[u8]) -> (d: Vec<u8>)
    ensures
        d@ == sha256(data@),
        d@.len() == 32,
{
    Sha256::digest(data).to_vec()
}

/// `Display` of `std::io::Error`. Nothing is stated of the text.
#[verifier::external_body]
fn io_error_text(e: &std::io::Error) -> String {
    e.to_string()
}

/// `Display` of `serde_json::Error`. Nothing is stated of the text.
#[verifier::external_body]
pub(crate) fn json_error_text(e: &serde_json::Error) -> String {
    e.to_string()
}

/// `PathBuf::display`, rendered. Nothing is stated of the text.
#[verifier::external_body]
fn path_text(p: &PathBuf) -> String {
    p.display().to_string()
}

/// A path followed by a part, as `Path::join` composes them.
pub uninterp spec fn path_joined(base: PathBuf, part: Seq<char>) -> PathBuf;

/// `Path::join`: `base` followed by `part`; it depends on them alone.
#[verifier::external_body]
fn path_join(base: &PathBuf, part: &str) -> (r: PathBuf)
    ensures
        r == path_joined(*base, part@),
{
    base.join(part)
}

/// The JSON value a byte string parses to; none when it is no JSON document.
pub uninterp spec fn json_bytes_value(data: Seq<u8>) -> Option<serde_json::Value>;

/// `serde_json::from_slice` into a JSON value, which depends on the bytes
/// alone.
#[verifier::external_body]
fn parse_json_slice(data: &[u8]) -> (r: Result<serde_json::Value, serde_json::Error>)
    ensures
        match r {
            Ok(v) => json_bytes_value(data@) == Some(v),
            Err(_) => json_bytes_value(data@) is None,
        },
{
    serde_json::from_slice(data)
}

/// The JSON value a text parses to; none when it is no JSON document.
pub uninterp spec fn json_text_value(text: Seq<char>) -> Option<serde_json::Value>;

/// `serde_json::from_str` into a JSON value, which depends on the text alone.
#[verifier::external_body]
pub(crate) fn parse_json_str(text: &str) -> (r: Result<serde_json::Value, serde_json::Error>)
    ensures
        match r {
            Ok(v) => json_text_value(text@) == Some(v),
            Err(_) => json_text_value(text@) is None,
        },
{
    serde_json::from_str(text)
}

/// The fields of an object value, as name and value pairs in the map's
/// order; none for other values.
pub uninterp spec fn json_object_entries(v: serde_json::Value) -> Option<Seq<(Seq<char>, serde_json::Value)>>;

/// The names of a list of named values.
pub open spec fn field_names(fields: Seq<(String, serde_json::Value)>) -> Seq<Seq<char>> {
    fields.map_values(|p: (String, serde_json::Value)| p.0@)
}

/// A list of named values with the names taken as text.
pub open spec fn field_entries(fields: Seq<(String, serde_json::Value)>) -> Seq<(Seq<char>, serde_json::Value)> {
    fields.map_values(|p: (String, serde_json::Value)| (p.0@, p.1))
}

/// `serde_json::from_str` into a JSON value, then, for an object, its fields
/// in the map's order as name and value pairs (`Value::Object` taken apart;
/// a map holds no key twice); none for other values.
#[verifier::external_body]
fn parse_json_object(text: &str) -> (r: Result<
    Option<Vec<(String, serde_json::Value)>>,
    serde_json::Error,
>)
    ensures
        match r {
            Ok(Some(fields)) => json_text_value(text@) matches Some(v) && json_object_entries(v)
                == Some(field_entries(fields@)) && field_names(fields@).no_duplicates(),
            Ok(None) => json_text_value(text@) matches Some(v) && json_object_entries(v) is None,
            Err(_) => json_text_value(text@) is None,
        },
{
    match serde_json::from_str(text)? {
        serde_json::Value::Object(map) => Ok(Some(map.into_iter().collect())),
        _ => Ok(None),
    }
}

/// The elements of an array value; none for other values.
pub uninterp spec fn json_elements(v: serde_json::Value) -> Option<Seq<serde_json::Value>>;

/// `Value::as_array`.
#[verifier::external_body]
pub(crate) fn json_as_array(v: &serde_json::Value) -> (r: Option<&Vec<serde_json::Value>>)
    ensures
        match r {
            Some(a) => json_elements(*v) == Some(a@),
            None => json_elements(*v) is None,
        },
{
    v.as_array()
}

/// The field of an object value; none when absent or for other values.
pub uninterp spec fn json_field(v: serde_json::Value, name: Seq<char>) -> Option<serde_json::Value>;

/// `Value::get` with a field name.
#[verifier::external_body]
pub(crate) fn json_get<'a>(v: &'a serde_json::Value, field: &str) -> (r: Option<&'a serde_json::Value>)
    ensures
        match r {
            Some(x) => json_field(*v, field@) == Some(*x),
            None => json_field(*v, field@) is None,
        },
{
    v.get(field)
}

/// A value as a 64-bit integer, if it is one.
pub uninterp spec fn json_i64(v: serde_json::Value) -> Option<i64>;

/// `Value::as_i64`.
#[verifier::external_body]
fn json_as_i64(v: &serde_json::Value) -> (r: Option<i64>)
    ensures
        r == json_i64(*v),
{
    v.as_i64()
}

/// A value as an unsigned 64-bit integer, if it is one.
pub uninterp spec fn json_u64(v: serde_json::Value) -> Option<u64>;

/// `Value::as_u64`.
#[verifier::external_body]
pub(crate) fn json_as_u64(v: &serde_json::Value) -> (r: Option<u64>)
    ensures
        r == json_u64(*v),
{
    v.as_u64()
}

/// `Value::clone`: a deep copy, the same value.
#[verifier::external_body]
fn json_clone(v: &serde_json::Value) -> (c: serde_json::Value)
    ensures
        c == *v,
{
    v.clone()
}

/// The lower-case hexadecimal SHA-256 digest of the data.
pub fn sha256_hex(data: &[u8]) -> (s: String)
    ensures
        s@ == hex_lower(sha256(data@)),
{
    let digest = sha256_digest(data);
    let mut s = String::new();
    push_hex(&mut s, digest.as_slice());
    assert(s@ =~= hex_lower(sha256(data@)));
    s
}

/// A table as the manifest describes it.
#[derive(Clone, Debug)]
pub struct TableEntry {
    /// Path of the table file, relative to the configuration root, with `/`
    /// separators.
    pub file: String,
    /// Lower-case hexadecimal SHA-256 of the file; empty to skip the check.
    pub sha256: String,
    pub size: u64,
    pub row_count: u64,
    pub rust_type: String,
}

/// The manifest of the exported configuration tables: a version and the
/// tables by name.
#[derive(Clone, Debug)]
pub struct Manifest {
    pub version: String,
    pub tables: Vec<(String, TableEntry)>,
}

/// The entry of the first table listed under `name`.
pub open spec fn manifest_entry(tables: Seq<(String, TableEntry)>, name: Seq<char>) -> Option<
    TableEntry,
> {
    if exists|i: int| 0 <= i < tables.len() && #[trigger] tables[i].0@ == name {
        let i = choose|i: int|
            0 <= i < tables.len() && #[trigger] tables[i].0@ == name && forall|j: int|
                0 <= j < i ==> #[trigger] tables[j].0@ != name;
        Some(tables[i].1)
    } else {
        None
    }
}

impl Manifest {
    /// The manifest of a store read from a single `all.json` file: version
    /// "all.json" and no table entries.
    pub fn for_all_json() -> (m: Manifest)
        ensures
            m.version@ == "all.json"@,
            m.tables@.len() == 0,
    {
        Manifest { version: String::from_str("all.json"), tables: Vec::new() }
    }

    /// The entry of the first table listed under `name`.
    pub fn entry(&self, name: &str) -> (r: Option<&TableEntry>)
        ensures
            match r {
                Some(e) => manifest_entry(self.tables@, name@) == Some(*e),
                None => manifest_entry(self.tables@, name@) is None,
            },
    {
        let target = name.to_owned();
        let mut i: usize = 0;
        while i < self.tables.len()
            invariant
                i <= self.tables@.len(),
                target@ == name@,
                forall|j: int| 0 <= j < i ==> #[trigger] self.tables@[j].0@ != name@,
            decreases self.tables@.len() - i,
        {
            if self.tables[i].0 == target {
                let ghost k = choose|k: int|
                    0 <= k < self.tables@.len() && #[trigger] self.tables@[k].0@ == name@ && forall|
                        j: int,
                    | 0 <= j < k ==> #[trigger] self.tables@[j].0@ != name@;
                assert(k == i as int) by {
                    if k < i {
                    } else if k > i {
                        assert(self.tables@[i as int].0@ == name@);
                    }
                }
                return Some(&self.tables[i].1);
            }
            i = i + 1;
        }
        None
    }
}

/// Why the configuration could not be loaded.
#[derive(Debug)]
pub enum ConfigError {
    Io(std::io::Error),
    Json(serde_json::Error),
    HashMismatch { table: String, expected: String, actual: String },
    ManifestMissing(PathBuf),
    TableMissing { name: String, path: PathBuf },
}

impl ConfigError {
    /// Renders the error as text, as its `Display` form would. The text of
    /// I/O errors, JSON errors and paths comes from their own `Display`.
    pub fn message(&self) -> (s: String)
        ensures
            match self {
                ConfigError::Io(_) => exists|t: Seq<char>| s@ == "io error: "@ + t,
                ConfigError::Json(_) => exists|t: Seq<char>| s@ == "json error: "@ + t,
                ConfigError::HashMismatch { table, expected, actual } => s@ == "hash mismatch for "@
                    + table@ + ": expected="@ + expected@ + ", actual="@ + actual@,
                ConfigError::ManifestMissing(_) => exists|t: Seq<char>| s@
                    == "manifest not found: "@ + t,
                ConfigError::TableMissing { name, .. } => exists|t: Seq<char>| s@ == "table "@
                    + name@ + " not found at "@ + t,
            },
    {
        let mut s = String::new();
        match self {
            ConfigError::Io(e) => {
                s.append("io error: ");
                let t = io_error_text(e);
                s.append(t.as_str());
                assert(s@ == "io error: "@ + t@);
            },
            ConfigError::Json(e) => {
                s.append("json error: ");
                let t = json_error_text(e);
                s.append(t.as_str());
                assert(s@ == "json error: "@ + t@);
            },
            ConfigError::HashMismatch { table, expected, actual } => {
                s.append("hash mismatch for ");
                s.append(table.as_str());
                s.append(": expected=");
                s.append(expected.as_str());
                s.append(", actual=");
                s.append(actual.as_str());
            },
            ConfigError::ManifestMissing(p) => {
                s.append("manifest not found: ");
                let t = path_text(p);
                s.append(t.as_str());
                assert(s@ == "manifest not found: "@ + t@);
            },
            ConfigError::TableMissing { name, path } => {
                s.append("table ");
                s.append(name.as_str());
                s.append(" not found at ");
                let t = path_text(path);
                s.append(t.as_str());
                assert(s@ == "table "@ + name@ + " not found at "@ + t@);
            },
        }
        s
    }
}

/// Whether a table file passes the digest check of its manifest entry: an
/// empty digest skips the check; otherwise the file's digest must equal it.
pub open spec fn digest_matches(entry: &TableEntry, data: Seq<u8>) -> bool {
    entry.sha256@.len() == 0 || entry.sha256@ == hex_lower(sha256(data))
}

/// Checks a table file against the digest its manifest entry records: an
/// empty digest skips the check; otherwise the file's digest must equal it.
pub fn check_table_bytes(name: &str, entry: &TableEntry, data: &[u8]) -> (r: Result<(), ConfigError>)
    ensures
        match r {
            Ok(()) => entry.sha256@.len() == 0 || entry.sha256@ == hex_lower(sha256(data@)),
            Err(e) => {
                &&& entry.sha256@.len() != 0
                &&& entry.sha256@ != hex_lower(sha256(data@))
                &&& e matches ConfigError::HashMismatch { table, expected, actual }
                &&& table@ == name@
                &&& expected@ == entry.sha256@
                &&& actual@ == hex_lower(sha256(data@))
            },
        },
{
    if entry.sha256.as_str().is_empty() {
        return Ok(());
    }
    let actual = sha256_hex(data);
    if actual != entry.sha256 {
        return Err(
            ConfigError::HashMismatch {
                table: name.to_owned(),
                expected: entry.sha256.clone(),
                actual,
            },
        );
    }
    Ok(())
}

/// A row of a table: whether it has an `id` field, and that field as an
/// integer if it is one; the same for `cid`; and the row itself.
pub struct TableRow {
    pub id: Option<Option<i64>>,
    pub cid: Option<Option<i64>>,
    pub value: serde_json::Value,
}

/// A loaded table: its JSON value and, when that is an array, its rows in
/// order.
pub struct ConfigTable {
    pub value: serde_json::Value,
    pub rows: Option<Vec<TableRow>>,
}

/// A field of an object value read as a 64-bit integer: none when the field
/// is absent, `Some(None)` when it is no such integer.
pub open spec fn json_int_field(v: serde_json::Value, name: Seq<char>) -> Option<Option<i64>> {
    match json_field(v, name) {
        Some(x) => Some(json_i64(x)),
        None => None,
    }
}

/// The row an element of a table's array is read as.
pub open spec fn row_of(item: serde_json::Value) -> TableRow {
    TableRow { id: json_int_field(item, "id"@), cid: json_int_field(item, "cid"@), value: item }
}

/// Whether `t` is the table of the JSON value `value`: that value, and, when
/// it is an array, one row per element in order.
pub open spec fn table_of_json(t: ConfigTable, value: serde_json::Value) -> bool {
    &&& t.value == value
    &&& match t.rows {
        Some(rs) => json_elements(value) matches Some(items) && rs@ == items.map_values(
            |x: serde_json::Value| row_of(x),
        ),
        None => json_elements(value) is None,
    }
}

/// Describes a table value: when it is an array, each element's `id` and
/// `cid` fields (and whether they are integers) in order.
pub fn table_from_json(value: serde_json::Value) -> (t: ConfigTable)
    ensures
        table_of_json(t, value),
{
    let rows = match json_as_array(&value) {
        Some(items) => {
            let mut rows: Vec<TableRow> = Vec::new();
            let mut i: usize = 0;
            while i < items.len()
                invariant
                    i <= items@.len(),
                    rows@ == items@.take(i as int).map_values(|x: serde_json::Value| row_of(x)),
                decreases items@.len() - i,
            {
                let item = &items[i];
                let id = match json_get(item, "id") {
                    Some(v) => Some(json_as_i64(v)),
                    None => None,
                };
                let cid = match json_get(item, "cid") {
                    Some(v) => Some(json_as_i64(v)),
                    None => None,
                };
                let row = TableRow { id, cid, value: json_clone(item) };
                assert(row == row_of(*item));
                rows.push(row);
                assert(items@.take(i + 1).map_values(|x: serde_json::Value| row_of(x)) =~= items@.take(
                    i as int,
                ).map_values(|x: serde_json::Value| row_of(x)).push(row_of(items@[i as int])));
                i = i + 1;
            }
            assert(items@.take(items@.len() as int) =~= items@);
            Some(rows)
        },
        None => None,
    };
    ConfigTable { value, rows }
}

/// Turns the bytes of a table file into a table: the digest is checked
/// first (see `check_table_bytes`), then the bytes are parsed as JSON.
pub fn load_table_bytes(name: &str, entry: &TableEntry, data: &[u8]) -> (r: Result<
    ConfigTable,
    ConfigError,
>)
    ensures
        match r {
            Ok(t) => {
                &&& digest_matches(entry, data@)
                &&& json_bytes_value(data@) matches Some(v) && table_of_json(t, v)
            },
            Err(ConfigError::HashMismatch { table, expected, actual }) => {
                &&& !digest_matches(entry, data@)
                &&& table@ == name@
                &&& expected@ == entry.sha256@
                &&& actual@ == hex_lower(sha256(data@))
            },
            Err(ConfigError::Json(_)) => digest_matches(entry, data@) && json_bytes_value(data@) is None,
            Err(_) => false,
        },
{
    match check_table_bytes(name, entry, data) {
        Ok(()) => {},
        Err(e) => return Err(e),
    }
    match parse_json_slice(data) {
        Ok(value) => Ok(table_from_json(value)),
        Err(e) => Err(ConfigError::Json(e)),
    }
}

/// The key a row is found by: its `id` field when it has one (even when that
/// is no integer), else its `cid` field.
pub open spec fn row_key(r: TableRow) -> Option<i64> {
    match r.id {
        Some(k) => k,
        None => match r.cid {
            Some(k) => k,
            None => None,
        },
    }
}

/// The position of the first row keyed `id`.
pub open spec fn first_row(rows: Seq<TableRow>, id: i64) -> Option<int> {
    if exists|i: int| 0 <= i < rows.len() && row_key(#[trigger] rows[i]) == Some(id) {
        Some(
            choose|i: int|
                0 <= i < rows.len() && row_key(#[trigger] rows[i]) == Some(id) && forall|j: int|
                    0 <= j < i ==> row_key(#[trigger] rows[j]) != Some(id),
        )
    } else {
        None
    }
}

/// A row is keyed by its `id` field whenever it has one, integer or not;
/// only a row without an `id` field is keyed by its `cid` field; a row with
/// neither has no key.
pub proof fn lemma_row_key_law(r: TableRow)
    ensures
        r.id matches Some(x) ==> row_key(r) == x,
        r.id is None ==> (r.cid matches Some(c) ==> row_key(r) == c),
        r.id is None && r.cid is None ==> row_key(r) is None,
{
}

/// The row found for `id` is the first row keyed `id`: it is keyed `id` and
/// no row before it is; none is found exactly when no row is keyed `id`.
pub proof fn lemma_first_row_law(rows: Seq<TableRow>, id: i64)
    ensures
        first_row(rows, id) matches Some(i) ==> 0 <= i < rows.len() && row_key(rows[i]) == Some(id)
            && forall|j: int| 0 <= j < i ==> row_key(#[trigger] rows[j]) != Some(id),
        first_row(rows, id) is None <==> forall|j: int|
            0 <= j < rows.len() ==> row_key(#[trigger] rows[j]) != Some(id),
{
    if exists|i: int| 0 <= i < rows.len() && row_key(#[trigger] rows[i]) == Some(id) {
        let k = choose|k: int| 0 <= k < rows.len() && row_key(#[trigger] rows[k]) == Some(id);
        let m = lemma_least_row(rows, id, k);
    }
}

proof fn lemma_least_row(rows: Seq<TableRow>, id: i64, k: int) -> (m: int)
    requires
        0 <= k < rows.len(),
        row_key(rows[k]) == Some(id),
    ensures
        0 <= m <= k,
        row_key(rows[m]) == Some(id),
        forall|j: int| 0 <= j < m ==> row_key(#[trigger] rows[j]) != Some(id),
    decreases k,
{
    if exists|j: int| 0 <= j < k && row_key(#[trigger] rows[j]) == Some(id) {
        let j = choose|j: int| 0 <= j < k && row_key(#[trigger] rows[j]) == Some(id);
        lemma_least_row(rows, id, j)
    } else {
        k
    }
}

/// An element of a table's array is read with its `id` and `cid` fields,
/// each as a 64-bit integer when it is one; a field that is absent stays
/// absent.
pub proof fn lemma_row_of_law(item: serde_json::Value)
    ensures
        row_of(item).value == item,
        json_field(item, "id"@) is None ==> row_of(item).id is None,
        json_field(item, "id"@) matches Some(x) ==> row_of(item).id == Some(json_i64(x)),
        json_field(item, "cid"@) is None ==> row_of(item).cid is None,
        json_field(item, "cid"@) matches Some(x) ==> row_of(item).cid == Some(json_i64(x)),
{
}

/// A table file passes its digest check exactly when its entry records no
/// digest or records the lower-case hexadecimal SHA-256 of the file.
pub proof fn lemma_digest_law(entry: &TableEntry, data: Seq<u8>)
    ensures
        digest_matches(entry, data) <==> (entry.sha256@.len() == 0 || entry.sha256@ == hex_lower(
            sha256(data),
        )),
        hex_lower(sha256(data)).len() == 2 * sha256(data).len(),
{
    crate::text::lemma_hex_law(sha256(data), 0);
}

/// The manifest entry of a name is that of the first table listed under the
/// name; none exactly when no table is listed under it.
pub proof fn lemma_manifest_entry_law(tables: Seq<(String, TableEntry)>, name: Seq<char>)
    ensures
        manifest_entry(tables, name) is None <==> forall|j: int|
            0 <= j < tables.len() ==> (#[trigger] tables[j]).0@ != name,
        manifest_entry(tables, name) matches Some(e) ==> exists|i: int|
            0 <= i < tables.len() && (#[trigger] tables[i]).0@ == name && tables[i].1 == e
                && forall|j: int| 0 <= j < i ==> (#[trigger] tables[j]).0@ != name,
{
    if exists|i: int| 0 <= i < tables.len() && #[trigger] tables[i].0@ == name {
        let k = choose|i: int| 0 <= i < tables.len() && #[trigger] tables[i].0@ == name;
        let m = lemma_least_table(tables, name, k);
    }
}

proof fn lemma_least_table(tables: Seq<(String, TableEntry)>, name: Seq<char>, k: int) -> (m: int)
    requires
        0 <= k < tables.len(),
        tables[k].0@ == name,
    ensures
        0 <= m <= k,
        tables[m].0@ == name,
        forall|j: int| 0 <= j < m ==> #[trigger] tables[j].0@ != name,
    decreases k,
{
    if exists|j: int| 0 <= j < k && #[trigger] tables[j].0@ == name {
        let j = choose|j: int| 0 <= j < k && #[trigger] tables[j].0@ == name;
        lemma_least_table(tables, name, j)
    } else {
        k
    }
}

proof fn lemma_first_row(rows: Seq<TableRow>, id: i64, i: int)
    requires
        0 <= i < rows.len(),
        row_key(rows[i]) == Some(id),
        forall|j: int| 0 <= j < i ==> row_key(#[trigger] rows[j]) != Some(id),
    ensures
        first_row(rows, id) == Some(i),
{
    let k = choose|k: int|
        0 <= k < rows.len() && row_key(#[trigger] rows[k]) == Some(id) && forall|j: int|
            0 <= j < k ==> row_key(#[trigger] rows[j]) != Some(id);
    if k < i {
        assert(row_key(rows[k]) != Some(id));
    } else if k > i {
        assert(row_key(rows[i]) != Some(id));
    }
}


/// The loaded configuration tables.
pub struct ConfigStore {
    manifest: Manifest,
    raw_tables: Vec<(String, ConfigTable)>,
    base_path: PathBuf,
}

impl ConfigStore {
    #[verifier::type_invariant]
    spec fn names_distinct(self) -> bool {
        forall|i: int, j: int|
            0 <= i < j < self.raw_tables@.len() ==> #[trigger] self.raw_tables@[i].0@
                != #[trigger] self.raw_tables@[j].0@
    }

    /// The tables by name.
    pub closed spec fn tables(&self) -> Map<Seq<char>, ConfigTable> {
        Map::new(
            |n: Seq<char>|
                exists|i: int| 0 <= i < self.raw_tables@.len() && #[trigger] self.raw_tables@[i].0@ == n,
            |n: Seq<char>|
                self.raw_tables@[choose|i: int|
                    0 <= i < self.raw_tables@.len() && #[trigger] self.raw_tables@[i].0@ == n].1,
        )
    }

    /// The table names, in the order the tables were added.
    pub closed spec fn names(&self) -> Seq<String> {
        self.raw_tables@.map_values(|p: (String, ConfigTable)| p.0)
    }

    pub closed spec fn spec_manifest(&self) -> Manifest {
        self.manifest
    }

    pub closed spec fn spec_base_path(&self) -> PathBuf {
        self.base_path
    }

    /// A store with the given manifest and root directory and no tables yet.
    pub fn new(manifest: Manifest, base_path: PathBuf) -> (s: Self)
        ensures
            s.tables() == Map::<Seq<char>, ConfigTable>::empty(),
            s.spec_manifest() == manifest,
            s.spec_base_path() == base_path,
    {
        let s = ConfigStore { manifest, raw_tables: Vec::new(), base_path };
        assert(s.tables() =~= Map::<Seq<char>, ConfigTable>::empty());
        s
    }

    /// A store holding every field of a JSON object text as a table, with the
    /// `all.json` manifest; a text that is JSON but no object gives a store
    /// without tables; a text that is no JSON an error.
    pub fn from_all_json(text: &str, base_path: PathBuf) -> (r: Result<Self, ConfigError>)
        ensures
            r is Ok <==> json_text_value(text@) is Some,
            r matches Err(e) ==> e is Json,
            r matches Ok(s) ==> {
                &&& s.spec_manifest().version@ == "all.json"@
                &&& s.spec_manifest().tables@.len() == 0
                &&& s.spec_base_path() == base_path
                &&& json_text_value(text@) matches Some(v) && match json_object_entries(v) {
                    Some(es) => {
                        &&& s.tables().dom() == es.map_values(
                            |e: (Seq<char>, serde_json::Value)| e.0,
                        ).to_set()
                        &&& forall|i: int|
                            0 <= i < es.len() ==> table_of_json(
                                s.tables()[(#[trigger] es[i]).0],
                                es[i].1,
                            )
                    },
                    None => s.tables().dom() == Set::<Seq<char>>::empty(),
                }
            },
    {
        let fields = match parse_json_object(text) {
            Ok(f) => f,
            Err(e) => return Err(ConfigError::Json(e)),
        };
        let mut store = ConfigStore::new(Manifest::for_all_json(), base_path);
        assert(store.tables().dom() =~= Set::<Seq<char>>::empty());
        match fields {
            Some(fields) => {
                let ghost keys = field_names(fields@);
                let ghost es = field_entries(fields@);
                assert(es.map_values(|e: (Seq<char>, serde_json::Value)| e.0) =~= keys);
                let mut i: usize = 0;
                while i < fields.len()
                    invariant
                        store.spec_manifest().version@ == "all.json"@,
                        store.spec_manifest().tables@.len() == 0,
                        store.spec_base_path() == base_path,
                        i <= fields@.len(),
                        keys == field_names(fields@),
                        es == field_entries(fields@),
                        keys.no_duplicates(),
                        store.tables().dom() == keys.take(i as int).to_set(),
                        forall|j: int|
                            0 <= j < i ==> table_of_json(store.tables()[(#[trigger] es[j]).0], es[j].1),
                    decreases fields@.len() - i,
                {
                    let name = fields[i].0.clone();
                    let table = table_from_json(json_clone(&fields[i].1));
                    let ghost before = store.tables();
                    assert(es[i as int] == (keys[i as int], fields@[i as int].1));
                    store.insert_table(name, table);
                    assert forall|j: int| 0 <= j < i + 1 implies table_of_json(
                        store.tables()[(#[trigger] es[j]).0],
                        es[j].1,
                    ) by {
                        if j < i {
                            assert(es[j].0 == keys[j]);
                            assert(keys[j] != keys[i as int]);
                            assert(before.contains_key(keys[j])) by {
                                assert(keys.take(i as int)[j] == keys[j]);
                            }
                        }
                    }
                    assert(keys.take(i + 1) =~= keys.take(i as int).push(keys[i as int]));
                    assert(store.tables().dom() =~= keys.take(i + 1).to_set()) by {
                        broadcast use vstd::seq_lib::group_seq_properties;

                    }
                    i = i + 1;
                }
                assert(keys.take(fields@.len() as int) =~= keys);
            },
            None => {},
        }
        Ok(store)
    }

    fn index_of(&self, name: &str) -> (r: Option<usize>)
        ensures
            match r {
                Some(i) => i < self.raw_tables@.len() && self.raw_tables@[i as int].0@ == name@,
                None => !self.tables().contains_key(name@),
            },
    {
        let target = name.to_owned();
        let mut i: usize = 0;
        while i < self.raw_tables.len()
            invariant
                i <= self.raw_tables@.len(),
                target@ == name@,
                forall|j: int| 0 <= j < i ==> #[trigger] self.raw_tables@[j].0@ != name@,
            decreases self.raw_tables@.len() - i,
        {
            if self.raw_tables[i].0 == target {
                return Some(i);
            }
            i = i + 1;
        }
        None
    }

    proof fn lemma_table_at(&self, i: int)
        requires
            self.names_distinct(),
            0 <= i < self.raw_tables@.len(),
        ensures
            self.tables().contains_key(self.raw_tables@[i].0@),
            self.tables()[self.raw_tables@[i].0@] == self.raw_tables@[i].1,
    {
        let n = self.raw_tables@[i].0@;
        assert(self.tables().contains_key(n));
        let k = choose|k: int| 0 <= k < self.raw_tables@.len() && #[trigger] self.raw_tables@[k].0@ == n;
        if k != i {
            if k < i {
                assert(self.raw_tables@[k].0@ != self.raw_tables@[i].0@);
            } else {
                assert(self.raw_tables@[i].0@ != self.raw_tables@[k].0@);
            }
        }
    }

    /// Adds a table, replacing the one of the same name; every other table
    /// stays as it was.
    pub fn insert_table(&mut self, name: String, table: ConfigTable)
        ensures
            final(self).tables() == old(self).tables().insert(name@, table),
            forall|m: Seq<char>|
                m != name@ ==> (#[trigger] final(self).tables().contains_key(m)
                    == old(self).tables().contains_key(m) && (old(self).tables().contains_key(m)
                    ==> final(self).tables()[m] == old(self).tables()[m])),
            final(self).spec_manifest() == old(self).spec_manifest(),
            final(self).spec_base_path() == old(self).spec_base_path(),
    {
        proof {
            use_type_invariant(&*self);
        }
        let ghost n = name@;
        assert(old(self).names_distinct());
        let found = self.index_of(name.as_str());
        let mut tables: Vec<(String, ConfigTable)> = Vec::new();
        std::mem::swap(&mut tables, &mut self.raw_tables);
        let ghost old_tables = tables@;
        match found {
            Some(i) => {
                tables.set(i, (name, table));
            },
            None => {
                tables.push((name, table));
            },
        }
        assert forall|i: int, j: int| 0 <= i < j < tables@.len() implies #[trigger] tables@[i].0@
            != #[trigger] tables@[j].0@ by {
            if j < old_tables.len() as int {
                assert(old_tables[i].0@ != old_tables[j].0@);
            }
        }
        self.raw_tables = tables;
        proof {
            use_type_invariant(&*self);
            assert forall|m: Seq<char>| #[trigger]
                self.tables().contains_key(m) <==> old(self).tables().insert(n, table).contains_key(m) by {
                if self.tables().contains_key(m) {
                    let k = choose|k: int|
                        0 <= k < self.raw_tables@.len() && #[trigger] self.raw_tables@[k].0@ == m;
                    if m != n {
                        assert(old(self).raw_tables@[k].0@ == m);
                    }
                }
                if old(self).tables().contains_key(m) && m != n {
                    let k = choose|k: int|
                        0 <= k < old(self).raw_tables@.len() && #[trigger] old(self).raw_tables@[k].0@
                            == m;
                    assert(self.raw_tables@[k].0@ == m);
                }
                if m == n {
                    match found {
                        Some(i) => assert(self.raw_tables@[i as int].0@ == n),
                        None => assert(self.raw_tables@[self.raw_tables@.len() - 1].0@ == n),
                    }
                }
            }
            assert forall|m: Seq<char>| #[trigger] self.tables().contains_key(m) implies self.tables()[m]
                == old(self).tables().insert(n, table)[m] by {
                let k = choose|k: int|
                    0 <= k < self.raw_tables@.len() && #[trigger] self.raw_tables@[k].0@ == m;
                self.lemma_table_at(k);
                if m != n {
                    assert(old(self).raw_tables@[k] == self.raw_tables@[k]);
                    old(self).lemma_table_at(k);
                }
            }
            assert(self.tables() =~= old(self).tables().insert(n, table));
        }
    }

    /// The JSON value of a table.
    pub fn get_table_json(&self, name: &str) -> (r: Option<&serde_json::Value>)
        ensures
            match r {
                Some(v) => self.tables().contains_key(name@) && *v == self.tables()[name@].value,
                None => !self.tables().contains_key(name@),
            },
    {
        match self.index_of(name) {
            Some(i) => {
                proof {
                    use_type_invariant(self);
                    self.lemma_table_at(i as int);
                }
                Some(&self.raw_tables[i].1.value)
            },
            None => None,
        }
    }

    /// The first row keyed `id` of a table that is an array.
    pub fn get_row_json(&self, table: &str, id: i64) -> (r: Option<&serde_json::Value>)
        ensures
            match r {
                Some(v) => {
                    &&& self.tables().contains_key(table@)
                    &&& self.tables()[table@].rows matches Some(rows)
                    &&& first_row(rows@, id) matches Some(i)
                    &&& *v == rows@[i].value
                },
                None => !self.tables().contains_key(table@) || self.tables()[table@].rows is None
                    || first_row(self.tables()[table@].rows->0@, id) is None,
            },
    {
        let t = match self.index_of(table) {
            Some(t) => t,
            None => return None,
        };
        proof {
            use_type_invariant(self);
            self.lemma_table_at(t as int);
        }
        let rows = match &self.raw_tables[t].1.rows {
            Some(rows) => rows,
            None => return None,
        };
        assert(self.tables()[table@].rows == Some(*rows));
        let mut i: usize = 0;
        while i < rows.len()
            invariant
                i <= rows@.len(),
                self.tables().contains_key(table@),
                self.tables()[table@].rows == Some(*rows),
                forall|j: int| 0 <= j < i ==> row_key(#[trigger] rows@[j]) != Some(id),
            decreases rows@.len() - i,
        {
            let r = &rows[i];
            let key = match r.id {
                Some(k) => k,
                None => match r.cid {
                    Some(k) => k,
                    None => None,
                },
            };
            if key == Some(id) {
                proof {
                    assert(row_key(rows@[i as int]) == Some(id));
                    lemma_first_row(rows@, id, i as int);
                }
                assert(rows@[i as int] == *r);
                return Some(&r.value);
            }
            i = i + 1;
        }
        None
    }

    pub fn manifest(&self) -> (m: &Manifest)
        ensures
            *m == self.spec_manifest(),
    {
        &self.manifest
    }

    pub fn base_path(&self) -> (p: &PathBuf)
        ensures
            *p == self.spec_base_path(),
    {
        &self.base_path
    }

    /// The table names in ascending byte order.
    pub fn table_names(&self) -> (names: Vec<String>)
        ensures
            names@.len() == self.names().len(),
            same_names(names@, self.names()),
            sorted_names(names@),
            forall|n: Seq<char>| #[trigger] has_name(names@, n) <==> self.tables().contains_key(n),
    {
        let mut names: Vec<String> = Vec::new();
        let mut k: usize = 0;
        while k < self.raw_tables.len()
            invariant
                k <= self.raw_tables@.len(),
                self.names().len() == self.raw_tables@.len(),
                names@.len() == k,
                same_names(names@, self.names().take(k as int)),
                sorted_names(names@),
            decreases self.raw_tables@.len() - k,
        {
            let name = self.raw_tables[k].0.clone();
            let ghost old_names = names@;
            let ghost pre = self.names().take(k as int);
            let ghost next = self.names().take(k + 1);
            assert(name@ == next[k as int]@);
            assert(next =~= pre.push(self.names()[k as int]));
            insert_sorted(&mut names, name);
            proof {
                lemma_same_names_insert(old_names, pre, names@, next[k as int]);
            }
            k = k + 1;
        }
        assert(self.names().take(k as int) =~= self.names());
        assert forall|n: Seq<char>| #[trigger] has_name(names@, n) <==> self.tables().contains_key(n) by {
            if has_name(names@, n) {
                let i = choose|i: int| 0 <= i < names@.len() && #[trigger] names@[i]@ == n;
                assert(has_name(self.names(), names@[i]@));
                let j = choose|j: int| 0 <= j < self.names().len() && #[trigger] self.names()[j]@ == n;
                assert(self.raw_tables@[j].0@ == n);
            }
            if self.tables().contains_key(n) {
                let j = choose|j: int| 0 <= j < self.raw_tables@.len() && #[trigger] self.raw_tables@[j].0@ == n;
                assert(self.names()[j]@ == n);
                assert(has_name(names@, self.names()[j]@));
            }
        }
        names
    }

    /// The manifest entry of a table to reload, or, when the manifest does not
    /// list the table, the error naming it, with the path it would have had:
    /// the root joined with `tables` and `{name}.json`.
    pub fn reload_target(&self, name: &str) -> (r: Result<&TableEntry, ConfigError>)
        ensures
            match r {
                Ok(e) => manifest_entry(self.spec_manifest().tables@, name@) == Some(*e),
                Err(e) => manifest_entry(self.spec_manifest().tables@, name@) is None && (e matches ConfigError::TableMissing { name: n, path } && n@ == name@
                    && path == path_joined(
                    path_joined(self.spec_base_path(), "tables"@),
                    name@ + ".json"@,
                )),
            },
    {
        match self.manifest.entry(name) {
            Some(e) => Ok(e),
            None => {
                let mut file = name.to_owned();
                file.append(".json");
                assert(file@ == name@ + ".json"@);
                let dir = path_join(&self.base_path, "tables");
                let path = path_join(&dir, file.as_str());
                Err(ConfigError::TableMissing { name: name.to_owned(), path })
            },
        }
    }
}

} // verus!
