use std::collections::{HashMap, HashSet};

use vstd::prelude::*;
use vstd::std_specs::iter::IteratorSpec;

use crate::config::{
    json_as_array, json_as_u64, json_elements, json_error_text, json_field, json_get,
    json_text_value, json_u64, parse_json_str,
};
use crate::schema::{
    check_schemas_closed, fingerprint, recursive_fingerprint, schemas_closed, DescriptorKind,
    FieldKind, FieldSchema, MessageSchema,
};
use crate::text::{decimal, push_decimal};
use crate::reflect::{
    clone_descriptor, decode_descriptor_pool, decode_dynamic, descriptor_fields, descriptor_names,
    descriptor_set_messages, dynamic_decoding, dynamic_encoding, empty_message_of, encode_dynamic,
    field_is_list, field_is_repeated, field_kind, field_number, kind_of_field, message_fields,
    new_dynamic, number_of_field,
};

verus! {

broadcast use vstd::std_specs::hash::group_hash_axioms;

/// Per-message metadata listed in the protocol manifest.
#[derive(Clone, Debug)]
pub struct ProtocolMetaEntry {
    pub ekey_name: String,
    /// The message's name within the `pb` package.
    pub message: String,
    pub event_name: String,
    pub hotfix_fallback: bool,
}

impl ProtocolMetaEntry {
    /// A field-by-field copy.
    pub fn duplicate(&self) -> (r: Self)
        ensures
            r == *self,
    {
        ProtocolMetaEntry {
            ekey_name: self.ekey_name.clone(),
            message: self.message.clone(),
            event_name: self.event_name.clone(),
            hotfix_fallback: self.hotfix_fallback,
        }
    }
}

/// One element of the manifest's `messages` array: its `ekey_value` field, if
/// that is an unsigned integer, and the entry parsed from the element, or why
/// it could not be parsed.
pub struct ManifestRecord {
    pub ekey_value: Option<u64>,
    pub entry: Result<ProtocolMetaEntry, String>,
}

/// The keys a manifest may use: 1 to 65534.
pub open spec fn manifest_key(v: Option<u64>) -> Option<u16> {
    match v {
        Some(k) => if 0 < k && k <= 65534 {
            Some(k as u16)
        } else {
            None
        },
        None => None,
    }
}

/// The metadata a series of manifest records yields: each record with a
/// usable key and a parsed entry sets that key, later records overriding
/// earlier ones.
pub open spec fn manifest_meta(records: Seq<ManifestRecord>) -> Map<u16, ProtocolMetaEntry>
    decreases records.len(),
{
    if records.len() == 0 {
        Map::empty()
    } else {
        let m = manifest_meta(records.drop_last());
        let r = records.last();
        match (manifest_key(r.ekey_value), r.entry) {
            (Some(k), Ok(e)) => m.insert(k, e),
            _ => m,
        }
    }
}

/// Whether a record sets key `k`: its key is usable and is `k`, and its entry
/// parsed.
pub open spec fn record_sets(r: ManifestRecord, k: u16) -> bool {
    manifest_key(r.ekey_value) == Some(k) && r.entry is Ok
}

proof fn lemma_manifest_step(records: Seq<ManifestRecord>, k: u16)
    requires
        records.len() > 0,
    ensures
        record_sets(records.last(), k) ==> manifest_meta(records).contains_key(k)
            && manifest_meta(records)[k] == records.last().entry->Ok_0,
        !record_sets(records.last(), k) ==> (manifest_meta(records).contains_key(k)
            == manifest_meta(records.drop_last()).contains_key(k)) && manifest_meta(records)[k]
            == manifest_meta(records.drop_last())[k],
{
}

/// A key has metadata exactly when some record sets it.
pub proof fn lemma_manifest_keys(records: Seq<ManifestRecord>, k: u16)
    ensures
        manifest_meta(records).contains_key(k) <==> exists|j: int|
            0 <= j < records.len() && record_sets(#[trigger] records[j], k),
    decreases records.len(),
{
    if records.len() > 0 {
        let init = records.drop_last();
        lemma_manifest_keys(init, k);
        lemma_manifest_step(records, k);
        if record_sets(records.last(), k) {
            assert(record_sets(records[records.len() - 1], k));
        } else {
            if exists|j: int| 0 <= j < records.len() && record_sets(#[trigger] records[j], k) {
                let j = choose|j: int| 0 <= j < records.len() && record_sets(#[trigger] records[j], k);
                assert(j < init.len());
                assert(record_sets(init[j], k));
            }
            if exists|j: int| 0 <= j < init.len() && record_sets(#[trigger] init[j], k) {
                let j = choose|j: int| 0 <= j < init.len() && record_sets(#[trigger] init[j], k);
                assert(record_sets(records[j], k));
            }
        }
    }
}

/// The last record that sets a key decides its metadata.
pub proof fn lemma_manifest_last_record_wins(records: Seq<ManifestRecord>, k: u16, i: int)
    requires
        0 <= i < records.len(),
        record_sets(records[i], k),
        forall|j: int| i < j < records.len() ==> !record_sets(#[trigger] records[j], k),
    ensures
        manifest_meta(records).contains_key(k),
        manifest_meta(records)[k] == records[i].entry->Ok_0,
    decreases records.len(),
{
    lemma_manifest_step(records, k);
    if i < records.len() - 1 {
        let init = records.drop_last();
        assert(!record_sets(records[records.len() - 1], k));
        assert(init[i] == records[i]);
        assert forall|j: int| i < j < init.len() implies !record_sets(#[trigger] init[j], k) by {
            assert(init[j] == records[j]);
        }
        lemma_manifest_last_record_wins(init, k, i);
    }
}

/// A manifest key is usable exactly when it is between 1 and 65534, and it
/// is then that number; an element's key is its `ekey_value` field read as
/// an unsigned integer, absent when the field is absent or no such integer.
pub proof fn lemma_manifest_key_law(v: Option<u64>, item: serde_json::Value)
    ensures
        manifest_key(v) is Some <==> (v matches Some(k) && 1 <= k <= 65534),
        manifest_key(v) matches Some(k) ==> v == Some(k as u64),
        json_field(item, "ekey_value"@) is None ==> element_key(item) is None,
        json_field(item, "ekey_value"@) matches Some(x) ==> element_key(item) == json_u64(x),
{
}

/// The compiled fingerprint of a key is the one of the key's last pair in
/// the table, none when the key has no pair.
pub proof fn lemma_compiled_fingerprint_law(compiled: Seq<(u16, u64)>, key: u16)
    ensures
        compiled_fingerprint(compiled, key) is None <==> forall|i: int|
            0 <= i < compiled.len() ==> (#[trigger] compiled[i]).0 != key,
        compiled_fingerprint(compiled, key) matches Some(fp) ==> exists|i: int|
            0 <= i < compiled.len() && #[trigger] compiled[i] == (key, fp) && forall|j: int|
                i < j < compiled.len() ==> (#[trigger] compiled[j]).0 != key,
    decreases compiled.len(),
{
    if compiled.len() > 0 {
        let init = compiled.drop_last();
        lemma_compiled_fingerprint_law(init, key);
        assert forall|i: int| 0 <= i < init.len() implies init[i] == compiled[i] by {}
        if compiled.last().0 == key {
            assert(compiled[compiled.len() - 1] == (key, compiled.last().1));
        } else {
            if compiled_fingerprint(compiled, key) is Some {
                let fp = compiled_fingerprint(compiled, key)->0;
                let i = choose|i: int|
                    0 <= i < init.len() && #[trigger] init[i] == (key, fp) && forall|j: int|
                        i < j < init.len() ==> (#[trigger] init[j]).0 != key;
                assert(compiled[i] == (key, fp));
                assert forall|j: int| i < j < compiled.len() implies (#[trigger] compiled[j]).0 != key by {
                    if j < init.len() {
                        assert(init[j] == compiled[j]);
                    }
                }
            }
            if forall|i: int| 0 <= i < compiled.len() ==> (#[trigger] compiled[i]).0 != key {
                assert forall|i: int| 0 <= i < init.len() implies (#[trigger] init[i]).0 != key by {
                    assert(init[i] == compiled[i]);
                }
            } else {
                let i = choose|i: int| 0 <= i < compiled.len() && (#[trigger] compiled[i]).0 == key;
                assert(i < init.len());
                assert(init[i] == compiled[i]);
            }
        }
    }
}

/// A record with a usable key whose entry failed is reported as "parse
/// manifest entry key={key}: " and the entry's error; a message the registry
/// cannot describe as "unknown message: " and its name; `pb` messages are
/// looked up under "pb." and their name.
pub proof fn lemma_registry_texts(r: ManifestRecord, name: Seq<char>)
    ensures
        record_rejected(r) ==> rejected_message(r) == "parse manifest entry key="@ + decimal(
            r.ekey_value->0 as nat,
        ) + ": "@ + r.entry->Err_0@,
        unknown_message(name) == "unknown message: "@ + name,
        pb_name(name) == "pb."@ + name,
{
}

/// Whether a record has a usable key but an entry that failed to parse.
pub open spec fn record_rejected(r: ManifestRecord) -> bool {
    manifest_key(r.ekey_value) is Some && r.entry is Err
}

/// The message reported for a rejected record.
pub open spec fn rejected_message(r: ManifestRecord) -> Seq<char> {
    "parse manifest entry key="@ + decimal(manifest_key(r.ekey_value)->0 as nat) + ": "@
        + r.entry->Err_0@
}

/// What loading a series of manifest records gives: without a rejected record,
/// success and the records' metadata; otherwise the error of the first
/// rejected record and the metadata of the records before it.
pub open spec fn manifest_loaded(
    records: Seq<ManifestRecord>,
    r: Result<(), String>,
    meta: Map<u16, ProtocolMetaEntry>,
) -> bool {
    match r {
        Ok(()) => {
            &&& forall|i: int| 0 <= i < records.len() ==> !record_rejected(#[trigger] records[i])
            &&& meta == manifest_meta(records)
        },
        Err(msg) => exists|i: int|
            {
                &&& 0 <= i < records.len()
                &&& record_rejected(#[trigger] records[i])
                &&& forall|j: int| 0 <= j < i ==> !record_rejected(#[trigger] records[j])
                &&& meta == manifest_meta(records.take(i))
                &&& msg@ == rejected_message(records[i])
            },
    }
}

/// The elements of the `messages` array of the protocol index text; none when
/// the text is no JSON, or the field is absent or no array.
pub open spec fn manifest_elements(text: Seq<char>) -> Seq<serde_json::Value> {
    match json_text_value(text) {
        Some(root) => match json_field(root, "messages"@) {
            Some(m) => match json_elements(m) {
                Some(items) => items,
                None => Seq::empty(),
            },
            None => Seq::empty(),
        },
        None => Seq::empty(),
    }
}

/// The key an element of the `messages` array gives: its `ekey_value` field
/// when that is an unsigned integer.
pub open spec fn element_key(item: serde_json::Value) -> Option<u64> {
    match json_field(item, "ekey_value"@) {
        Some(x) => json_u64(x),
        None => None,
    }
}

/// The abstract state of a registry.
pub struct RegistryView {
    /// Whether a descriptor set has been loaded.
    pub loaded: bool,
    pub meta: Map<u16, ProtocolMetaEntry>,
    pub overrides: Set<u16>,
    /// The message names whose descriptors have been looked up and kept.
    pub cached: Seq<Seq<char>>,
    /// The fully qualified names of the messages the loaded descriptor set
    /// defines; empty before one is loaded.
    pub defined: Seq<Seq<char>>,
    /// The schemas of those messages, in the same order (empty when a field
    /// refers to a message the set does not list).
    pub schemas: Seq<MessageSchema>,
    /// The kept descriptors, in the order of `cached`.
    pub kept_descs: Seq<prost_reflect::MessageDescriptor>,
    /// The descriptors of the loaded set's messages, in the order of
    /// `defined`.
    pub defined_descs: Seq<prost_reflect::MessageDescriptor>,
}

/// The error reported for a message the registry cannot describe.
pub open spec fn unknown_message(name: Seq<char>) -> Seq<char> {
    "unknown message: "@ + name
}

/// Whether `m` reports that decoding bytes as message `name` failed.
pub open spec fn decode_failure(name: Seq<char>, m: Seq<char>) -> bool {
    exists|e: Seq<char>| m == "decode "@ + name + ": "@ + e
}

/// The fully qualified name of a message of the `pb` package.
pub open spec fn pb_name(name: Seq<char>) -> Seq<char> {
    "pb."@ + name
}

/// The compiled fingerprint of a key in a table of (key, fingerprint) pairs;
/// when a key occurs more than once, its last pair counts.
pub open spec fn compiled_fingerprint(compiled: Seq<(u16, u64)>, key: u16) -> Option<u64>
    decreases compiled.len(),
{
    if compiled.len() == 0 {
        None
    } else if compiled.last().0 == key {
        Some(compiled.last().1)
    } else {
        compiled_fingerprint(compiled.drop_last(), key)
    }
}

/// The position of the first of the first `n` schemas named `name`.
pub open spec fn find_schema(schemas: Seq<MessageSchema>, name: Seq<char>, n: int) -> Option<int>
    decreases n,
{
    if n <= 0 {
        None
    } else {
        match find_schema(schemas, name, n - 1) {
            Some(i) => Some(i),
            None => if schemas[n - 1].full_name@ == name {
                Some(n - 1)
            } else {
                None
            },
        }
    }
}

/// Whether a key's messages must take the generic channel: the schemas of the
/// loaded descriptor set refer only to messages they list, the key's metadata
/// asks for the hotfix fallback, the compiled table gives it a nonzero
/// fingerprint, its message's descriptor is kept, and the message's schema
/// fingerprint differs from the compiled one.
pub open spec fn overridden(v: RegistryView, compiled: Seq<(u16, u64)>, key: u16) -> bool {
    &&& schemas_closed(v.schemas)
    &&& v.meta.contains_key(key)
    &&& v.meta[key].hotfix_fallback
    &&& compiled_fingerprint(compiled, key) matches Some(fp)
    &&& fp != 0
    &&& v.cached.contains(v.meta[key].message@)
    &&& find_schema(v.schemas, pb_name(v.meta[key].message@), v.schemas.len() as int) matches Some(i)
    &&& fingerprint(v.schemas, i) != fp
}

/// A key is never overridden when its metadata does not ask for the hotfix
/// fallback, when the compiled table gives it no fingerprint or a zero one,
/// when its message's descriptor is not kept, or when the message's schema
/// fingerprint equals the compiled one; it is overridden when all of these
/// hold the other way and the schemas are closed.
pub proof fn lemma_overridden_law(v: RegistryView, compiled: Seq<(u16, u64)>, key: u16, i: int)
    ensures
        !(v.meta.contains_key(key) && v.meta[key].hotfix_fallback) ==> !overridden(v, compiled, key),
        (compiled_fingerprint(compiled, key) is None || compiled_fingerprint(compiled, key) == Some(
            0u64,
        )) ==> !overridden(v, compiled, key),
        v.meta.contains_key(key) && !v.cached.contains(v.meta[key].message@) ==> !overridden(
            v,
            compiled,
            key,
        ),
        v.meta.contains_key(key) && find_schema(
            v.schemas,
            pb_name(v.meta[key].message@),
            v.schemas.len() as int,
        ) == Some(i) && compiled_fingerprint(compiled, key) == Some(fingerprint(v.schemas, i))
            ==> !overridden(v, compiled, key),
        schemas_closed(v.schemas) && v.meta.contains_key(key) && v.meta[key].hotfix_fallback
            && v.cached.contains(v.meta[key].message@) && find_schema(
            v.schemas,
            pb_name(v.meta[key].message@),
            v.schemas.len() as int,
        ) == Some(i) && (compiled_fingerprint(compiled, key) matches Some(fp) && fp != 0 && fp
            != fingerprint(v.schemas, i)) ==> overridden(v, compiled, key),
{
}

/// What a descriptor kind stands for as a field type, message types given by
/// their position among `names`: `r` is that type, or none when a message
/// type is not among `names`.
pub open spec fn kind_resolves(k: DescriptorKind, names: Seq<Seq<char>>, r: Option<FieldKind>) -> bool {
    match k {
        DescriptorKind::Double => r == Some(FieldKind::Double),
        DescriptorKind::Float => r == Some(FieldKind::Float),
        DescriptorKind::Int32 => r == Some(FieldKind::Int32),
        DescriptorKind::Int64 => r == Some(FieldKind::Int64),
        DescriptorKind::Uint32 => r == Some(FieldKind::Uint32),
        DescriptorKind::Uint64 => r == Some(FieldKind::Uint64),
        DescriptorKind::Sint32 => r == Some(FieldKind::Sint32),
        DescriptorKind::Sint64 => r == Some(FieldKind::Sint64),
        DescriptorKind::Fixed32 => r == Some(FieldKind::Fixed32),
        DescriptorKind::Fixed64 => r == Some(FieldKind::Fixed64),
        DescriptorKind::Sfixed32 => r == Some(FieldKind::Sfixed32),
        DescriptorKind::Sfixed64 => r == Some(FieldKind::Sfixed64),
        DescriptorKind::Bool => r == Some(FieldKind::Bool),
        DescriptorKind::String => r == Some(FieldKind::String),
        DescriptorKind::Bytes => r == Some(FieldKind::Bytes),
        DescriptorKind::Enum(n) => r == Some(FieldKind::Enum(n)),
        DescriptorKind::Message(n) => match r {
            Some(FieldKind::Message(i)) => i < names.len() && names[i as int] == n@,
            Some(_) => false,
            None => !names.contains(n@),
        },
    }
}

/// Looking a name up keeps the kept names free of repetitions.
pub proof fn lemma_lookup_keeps_cache_distinct(v: RegistryView, name: Seq<char>)
    requires
        v.cached.no_duplicates(),
    ensures
        cache_after_lookup(v, name).no_duplicates(),
{
    if !v.cached.contains(name) && v.defined.contains(pb_name(name)) {
        assert forall|i: int, j: int|
            0 <= i < j < v.cached.len() + 1 implies v.cached.push(name)[i] != v.cached.push(name)[j] by {
            if j == v.cached.len() {
                assert(v.cached[i] == v.cached.push(name)[i]);
            }
        }
    }
}

/// Whether some metadata entry names the message `n`.
pub open spec fn names_message(meta: Map<u16, ProtocolMetaEntry>, n: Seq<char>) -> bool {
    exists|k: u16| meta.contains_key(k) && meta[k].message@ == n
}

/// Everything but the descriptor cache is unchanged.
pub open spec fn same_but_cache(a: RegistryView, b: RegistryView) -> bool {
    &&& a.loaded == b.loaded
    &&& a.meta == b.meta
    &&& a.overrides == b.overrides
    &&& a.defined == b.defined
    &&& a.schemas == b.schemas
    &&& a.defined_descs == b.defined_descs
}

/// The position of the first of the first `n` names equal to `name`.
pub open spec fn first_position(names: Seq<Seq<char>>, name: Seq<char>, n: int) -> Option<int>
    decreases n,
{
    if n <= 0 {
        None
    } else {
        match first_position(names, name, n - 1) {
            Some(i) => Some(i),
            None => if names[n - 1] == name {
                Some(n - 1)
            } else {
                None
            },
        }
    }
}

pub proof fn lemma_first_position(names: Seq<Seq<char>>, name: Seq<char>, n: int)
    requires
        0 <= n <= names.len(),
    ensures
        first_position(names, name, n) is None <==> forall|j: int| 0 <= j < n ==> names[j] != name,
        first_position(names, name, n) matches Some(i) ==> 0 <= i < n && names[i] == name
            && forall|j: int| 0 <= j < i ==> names[j] != name,
    decreases n,
{
    if n > 0 {
        lemma_first_position(names, name, n - 1);
    }
}

proof fn lemma_first_position_prefix(a: Seq<Seq<char>>, b: Seq<Seq<char>>, name: Seq<char>, n: int)
    requires
        0 <= n <= a.len(),
        n <= b.len(),
        forall|j: int| 0 <= j < n ==> a[j] == b[j],
    ensures
        first_position(a, name, n) == first_position(b, name, n),
    decreases n,
{
    if n > 0 {
        lemma_first_position_prefix(a, b, name, n - 1);
    }
}

/// Appending a name changes no first position but, for a name not there yet,
/// its own.
pub proof fn lemma_position_push(s: Seq<Seq<char>>, x: Seq<char>, y: Seq<char>)
    ensures
        position_of(s.push(x), y) == match position_of(s, y) {
            Some(i) => Some(i),
            None => if x == y {
                Some(s.len() as int)
            } else {
                None
            },
        },
{
    lemma_first_position_prefix(s.push(x), s, y, s.len() as int);
}

/// The first position of `name` among all the names.
pub open spec fn position_of(names: Seq<Seq<char>>, name: Seq<char>) -> Option<int> {
    first_position(names, name, names.len() as int)
}

/// The descriptor a lookup of `name` gives: the first kept one under that
/// name, else the first one the loaded set defines under `pb.{name}`.
pub open spec fn looked_up(v: RegistryView, name: Seq<char>) -> Option<prost_reflect::MessageDescriptor> {
    match position_of(v.cached, name) {
        Some(i) => Some(v.kept_descs[i]),
        None => match position_of(v.defined, pb_name(name)) {
            Some(j) => Some(v.defined_descs[j]),
            None => None,
        },
    }
}

/// The descriptor the loaded set defines under `pb.{name}` (its first one).
pub open spec fn defined_desc(v: RegistryView, name: Seq<char>) -> prost_reflect::MessageDescriptor {
    v.defined_descs[position_of(v.defined, pb_name(name))->0]
}

/// The kept descriptors after looking up `name`.
pub open spec fn kept_after_lookup(v: RegistryView, name: Seq<char>) -> Seq<prost_reflect::MessageDescriptor> {
    if !v.cached.contains(name) && v.defined.contains(pb_name(name)) {
        v.kept_descs.push(looked_up(v, name)->0)
    } else {
        v.kept_descs
    }
}

/// Whether the registry can describe a `pb` message: it has kept its
/// descriptor, or the loaded descriptor set defines it.
pub open spec fn describable(v: RegistryView, name: Seq<char>) -> bool {
    v.cached.contains(name) || v.defined.contains(pb_name(name))
}

/// The kept names after looking up `name`: a describable name not kept yet is
/// added at the end.
pub open spec fn cache_after_lookup(v: RegistryView, name: Seq<char>) -> Seq<Seq<char>> {
    if !v.cached.contains(name) && v.defined.contains(pb_name(name)) {
        v.cached.push(name)
    } else {
        v.cached
    }
}

/// The compiled fingerprint of `key` (see `compiled_fingerprint`).
fn compiled_fingerprint_of(compiled: &[(u16, u64)], key: u16) -> (r: Option<u64>)
    ensures
        r == compiled_fingerprint(compiled@, key),
{
    let mut r: Option<u64> = None;
    let mut i: usize = 0;
    while i < compiled.len()
        invariant
            i <= compiled@.len(),
            r == compiled_fingerprint(compiled@.take(i as int), key),
        decreases compiled@.len() - i,
    {
        assert(compiled@.take(i + 1).drop_last() =~= compiled@.take(i as int));
        let (k, fp) = compiled[i];
        if k == key {
            r = Some(fp);
        }
        i = i + 1;
    }
    assert(compiled@.take(compiled@.len() as int) =~= compiled@);
    r
}

proof fn lemma_find_schema_stable(schemas: Seq<MessageSchema>, name: Seq<char>, m: int, n: int)
    requires
        m <= n,
        find_schema(schemas, name, m) is Some,
    ensures
        find_schema(schemas, name, n) == find_schema(schemas, name, m),
    decreases n - m,
{
    if m < n {
        lemma_find_schema_stable(schemas, name, m, n - 1);
    }
}

/// The position of the first schema named `name` (see `find_schema`).
fn schema_position(schemas: &Vec<MessageSchema>, name: &String) -> (r: Option<usize>)
    ensures
        r matches Some(i) ==> find_schema(schemas@, name@, schemas@.len() as int) == Some(i as int),
        r is None ==> find_schema(schemas@, name@, schemas@.len() as int) is None,
{
    let mut i: usize = 0;
    while i < schemas.len()
        invariant
            i <= schemas@.len(),
            find_schema(schemas@, name@, i as int) is None,
        decreases schemas@.len() - i,
    {
        if schemas[i].full_name == *name {
            proof {
                lemma_find_schema_stable(schemas@, name@, i + 1, schemas@.len() as int);
            }
            return Some(i);
        }
        i = i + 1;
    }
    None
}

/// The field type a descriptor kind stands for (see `kind_resolves`).
fn resolve_kind(k: DescriptorKind, all: &Vec<(String, prost_reflect::MessageDescriptor)>) -> (r:
    Option<FieldKind>)
    ensures
        kind_resolves(k, descriptor_names(all@), r),
{
    match k {
        DescriptorKind::Double => Some(FieldKind::Double),
        DescriptorKind::Float => Some(FieldKind::Float),
        DescriptorKind::Int32 => Some(FieldKind::Int32),
        DescriptorKind::Int64 => Some(FieldKind::Int64),
        DescriptorKind::Uint32 => Some(FieldKind::Uint32),
        DescriptorKind::Uint64 => Some(FieldKind::Uint64),
        DescriptorKind::Sint32 => Some(FieldKind::Sint32),
        DescriptorKind::Sint64 => Some(FieldKind::Sint64),
        DescriptorKind::Fixed32 => Some(FieldKind::Fixed32),
        DescriptorKind::Fixed64 => Some(FieldKind::Fixed64),
        DescriptorKind::Sfixed32 => Some(FieldKind::Sfixed32),
        DescriptorKind::Sfixed64 => Some(FieldKind::Sfixed64),
        DescriptorKind::Bool => Some(FieldKind::Bool),
        DescriptorKind::String => Some(FieldKind::String),
        DescriptorKind::Bytes => Some(FieldKind::Bytes),
        DescriptorKind::Enum(n) => Some(FieldKind::Enum(n)),
        DescriptorKind::Message(n) => {
            let ghost names = descriptor_names(all@);
            let mut i: usize = 0;
            while i < all.len()
                invariant
                    i <= all@.len(),
                    names == descriptor_names(all@),
                    k == DescriptorKind::Message(n),
                    forall|j: int| 0 <= j < i ==> names[j] != n@,
                decreases all@.len() - i,
            {
                if all[i].0 == n {
                    assert(all@[i as int].0@ == n@);
                    assert(names[i as int] == all@[i as int].0@);
                    assert(names.len() == all@.len());
                    return Some(FieldKind::Message(i));
                }
                i = i + 1;
            }
            assert forall|j: int| 0 <= j < names.len() implies names[j] != n@ by {}
            None
        },
    }
}

/// The descriptors of a list of named descriptors.
pub open spec fn descriptor_values(all: Seq<(String, prost_reflect::MessageDescriptor)>) -> Seq<
    prost_reflect::MessageDescriptor,
> {
    all.map_values(|p: (String, prost_reflect::MessageDescriptor)| p.1)
}

/// Whether field `f` is what the field descriptor `d` describes: same number,
/// same repeatedness, and its type resolved among `names`.
pub open spec fn field_schema_of(f: FieldSchema, d: prost_reflect::FieldDescriptor, names: Seq<Seq<char>>) -> bool {
    &&& f.number == number_of_field(d)
    &&& f.is_list == field_is_repeated(d)
    &&& kind_resolves(kind_of_field(d), names, Some(f.kind))
}

/// Whether `s` is the schema of the message `desc` named `name`: its name,
/// and one field schema per field of the descriptor, in the descriptor's
/// order.
pub open spec fn schema_of_message(
    s: MessageSchema,
    name: Seq<char>,
    desc: prost_reflect::MessageDescriptor,
    names: Seq<Seq<char>>,
) -> bool {
    &&& s.full_name@ == name
    &&& s.fields@.len() == descriptor_fields(desc).len()
    &&& forall|f: int|
        0 <= f < s.fields@.len() ==> field_schema_of(
            #[trigger] s.fields@[f],
            descriptor_fields(desc)[f],
            names,
        )
}

/// Whether every message-typed field of `desc` refers to a message among
/// `names`.
pub open spec fn fields_resolve(desc: prost_reflect::MessageDescriptor, names: Seq<Seq<char>>) -> bool {
    forall|f: int|
        0 <= f < descriptor_fields(desc).len() ==> (#[trigger] kind_of_field(
            descriptor_fields(desc)[f],
        ) matches DescriptorKind::Message(n) ==> names.contains(n@))
}

/// Whether `v` is the schema list of the named descriptors: one schema per
/// message, in order.
pub open spec fn schemas_of(v: Seq<MessageSchema>, names: Seq<Seq<char>>, descs: Seq<prost_reflect::MessageDescriptor>) -> bool {
    &&& v.len() == descs.len()
    &&& names.len() == descs.len()
    &&& forall|m: int| 0 <= m < v.len() ==> schema_of_message(#[trigger] v[m], names[m], descs[m], names)
}

/// Whether every message-typed field of every descriptor refers to a listed
/// message.
pub open spec fn all_fields_resolve(names: Seq<Seq<char>>, descs: Seq<prost_reflect::MessageDescriptor>) -> bool {
    forall|m: int| 0 <= m < descs.len() ==> fields_resolve(#[trigger] descs[m], names)
}

/// The schemas of a descriptor set's messages, in order, message-typed
/// fields pointing at their message's position; none exactly when a field
/// refers to a message the list does not hold.
fn build_schemas(all: &Vec<(String, prost_reflect::MessageDescriptor)>) -> (r: Option<
    Vec<MessageSchema>,
>)
    ensures
        r is Some <==> all_fields_resolve(descriptor_names(all@), descriptor_values(all@)),
        r matches Some(v) ==> schemas_closed(v@) && schemas_of(
            v@,
            descriptor_names(all@),
            descriptor_values(all@),
        ),
{
    let ghost names = descriptor_names(all@);
    let ghost descs = descriptor_values(all@);
    let mut out: Vec<MessageSchema> = Vec::new();
    let mut m: usize = 0;
    while m < all.len()
        invariant
            m <= all@.len(),
            names == descriptor_names(all@),
            descs == descriptor_values(all@),
            out@.len() == m,
            forall|i: int| 0 <= i < m ==> schema_of_message(#[trigger] out@[i], names[i], descs[i], names),
            forall|i: int| 0 <= i < m ==> fields_resolve(#[trigger] descs[i], names),
            forall|i: int, f: int|
                0 <= i < m && 0 <= f < out@[i].fields@.len() ==> ((#[trigger] out@[i].fields@[f]).kind matches FieldKind::Message(j)
                    ==> j < all@.len()),
        decreases all@.len() - m,
    {
        let fds = message_fields(&all[m].1);
        assert(descs[m as int] == all@[m as int].1);
        let mut fields: Vec<FieldSchema> = Vec::new();
        let mut f: usize = 0;
        while f < fds.len()
            invariant
                m < all@.len(),
                names == descriptor_names(all@),
                descs == descriptor_values(all@),
                fds@ == descriptor_fields(descs[m as int]),
                f <= fds@.len(),
                fields@.len() == f,
                forall|g: int|
                    0 <= g < f ==> field_schema_of(#[trigger] fields@[g], fds@[g], names),
                forall|g: int|
                    0 <= g < f ==> !(#[trigger] kind_of_field(fds@[g]) matches DescriptorKind::Message(n)
                        && !names.contains(n@)),
                forall|g: int|
                    0 <= g < fields@.len() ==> ((#[trigger] fields@[g]).kind matches FieldKind::Message(j)
                        ==> j < all@.len()),
            decreases fds@.len() - f,
        {
            let k = field_kind(&fds[f]);
            let kind = match resolve_kind(k, all) {
                Some(k) => k,
                None => {
                    assert(!fields_resolve(descs[m as int], names)) by {
                        assert(kind_of_field(descriptor_fields(descs[m as int])[f as int]) == k);
                    }
                    return None;
                },
            };
            let ghost before = fields@;
            fields.push(FieldSchema { number: field_number(&fds[f]), is_list: field_is_list(&fds[f]), kind });
            assert forall|g: int|
                0 <= g < fields@.len() implies ((#[trigger] fields@[g]).kind matches FieldKind::Message(j)
                    ==> j < all@.len()) by {
                if g < before.len() {
                    assert(fields@[g] == before[g]);
                }
            }
            assert forall|g: int| 0 <= g < f + 1 implies field_schema_of(#[trigger] fields@[g], fds@[g], names) by {
                if g < before.len() {
                    assert(fields@[g] == before[g]);
                }
            }
            f = f + 1;
        }
        assert(fields_resolve(descs[m as int], names)) by {
            assert forall|g: int| 0 <= g < descriptor_fields(descs[m as int]).len() implies (#[trigger] kind_of_field(
                descriptor_fields(descs[m as int])[g],
            ) matches DescriptorKind::Message(n) ==> names.contains(n@)) by {
                assert(descriptor_fields(descs[m as int])[g] == fds@[g]);
            }
        }
        let ghost before = out@;
        out.push(MessageSchema { full_name: all[m].0.clone(), fields });
        assert forall|i: int, g: int|
            0 <= i < m + 1 && 0 <= g < out@[i].fields@.len() implies ((#[trigger] out@[i].fields@[g]).kind matches FieldKind::Message(j)
                ==> j < all@.len()) by {
            if i < m {
                assert(out@[i] == before[i]);
            }
        }
        assert forall|i: int| 0 <= i < m + 1 implies schema_of_message(#[trigger] out@[i], names[i], descs[i], names) by {
            if i < m {
                assert(out@[i] == before[i]);
            } else {
                assert(names[i] == all@[i].0@);
                assert forall|g: int| 0 <= g < out@[i].fields@.len() implies field_schema_of(
                    #[trigger] out@[i].fields@[g],
                    descriptor_fields(descs[i])[g],
                    names,
                ) by {
                    assert(out@[i].fields@[g] == fields@[g]);
                }
            }
        }
        m = m + 1;
    }
    Some(out)
}

/// Protocol metadata by message key, with the descriptor set that describes
/// the messages, for generic (reflection-based) encoding and decoding.
pub struct ProtocolRegistry {
    pool: Option<prost_reflect::DescriptorPool>,
    /// Every message of the loaded descriptor set, by fully qualified name.
    messages: Vec<(String, prost_reflect::MessageDescriptor)>,
    /// The schemas of `messages`, for fingerprints.
    schemas: Vec<MessageSchema>,
    meta: HashMap<u16, ProtocolMetaEntry>,
    descriptors: Vec<(String, prost_reflect::MessageDescriptor)>,
    overrides: HashSet<u16>,
}

impl View for ProtocolRegistry {
    type V = RegistryView;

    closed spec fn view(&self) -> RegistryView {
        RegistryView {
            loaded: self.pool is Some,
            meta: self.meta@,
            overrides: self.overrides@,
            cached: self.descriptors@.map_values(
                |p: (String, prost_reflect::MessageDescriptor)| p.0@,
            ),
            defined: descriptor_names(self.messages@),
            schemas: self.schemas@,
            kept_descs: self.descriptors@.map_values(
                |p: (String, prost_reflect::MessageDescriptor)| p.1,
            ),
            defined_descs: self.messages@.map_values(
                |p: (String, prost_reflect::MessageDescriptor)| p.1,
            ),
        }
    }
}

impl ProtocolRegistry {
    /// An empty registry: nothing loaded, no metadata, no overrides.
    pub fn new() -> (r: Self)
        ensures
            !r@.loaded,
            r@.meta == Map::<u16, ProtocolMetaEntry>::empty(),
            r@.overrides == Set::<u16>::empty(),
            r@.cached.len() == 0,
            r@.defined.len() == 0,
    {
        ProtocolRegistry {
            pool: None,
            messages: Vec::new(),
            schemas: Vec::new(),
            meta: HashMap::new(),
            descriptors: Vec::new(),
            overrides: HashSet::new(),
        }
    }

    /// The metadata of a key.
    pub fn get(&self, key: u16) -> (r: Option<&ProtocolMetaEntry>)
        ensures
            match r {
                Some(e) => self@.meta.contains_key(key) && *e == self@.meta[key],
                None => !self@.meta.contains_key(key),
            },
    {
        self.meta.get(&key)
    }

    /// The event name of a key.
    pub fn get_event_name(&self, key: u16) -> (r: Option<&str>)
        ensures
            match r {
                Some(s) => self@.meta.contains_key(key) && s@ == self@.meta[key].event_name@,
                None => !self@.meta.contains_key(key),
            },
    {
        match self.meta.get(&key) {
            Some(e) => Some(e.event_name.as_str()),
            None => None,
        }
    }

    /// A key whose event name is `event_name`; which one, when several share
    /// the name, the map's iteration order decides.
    pub fn find_key_by_event_name(&self, event_name: &str) -> (r: Option<u16>)
        ensures
            r matches Some(k) ==> self@.meta.contains_key(k) && self@.meta[k].event_name@
                == event_name@,
            r is None ==> forall|k: u16| #[trigger]
                self@.meta.contains_key(k) ==> self@.meta[k].event_name@ != event_name@,
    {
        let target = event_name.to_owned();
        for (k, e) in it: self.meta.iter()
            invariant
                target@ == event_name@,
                forall|i: int|
                    0 <= i < it.index() ==> (#[trigger] it.seq()[i]).1.event_name@ != target@,
        {
            if e.event_name == target {
                return Some(*k);
            }
        }
        None
    }

    /// Whether a descriptor set has been loaded.
    pub fn is_loaded(&self) -> (b: bool)
        ensures
            b == self@.loaded,
    {
        self.pool.is_some()
    }

    /// Whether a key's messages go through the generic channel because their
    /// schema changed since the compiled code was generated.
    pub fn should_override(&self, key: u16) -> (b: bool)
        ensures
            b == self@.overrides.contains(key),
    {
        self.overrides.contains(&key)
    }

    /// Recomputes the keys whose messages take the generic channel (see
    /// `overridden`) from the compiled fingerprint table and the schemas of the
    /// loaded descriptor set.
    pub fn compute_overrides(&mut self, compiled: &[(u16, u64)])
        ensures
            final(self)@.loaded == old(self)@.loaded,
            final(self)@.meta == old(self)@.meta,
            final(self)@.cached == old(self)@.cached,
            final(self)@.defined == old(self)@.defined,
            final(self)@.schemas == old(self)@.schemas,
            final(self)@.kept_descs == old(self)@.kept_descs,
            final(self)@.overrides == Set::new(|k: u16| overridden(old(self)@, compiled@, k)),
    {
        if !check_schemas_closed(&self.schemas) {
            self.overrides = HashSet::new();
            assert(self@.overrides =~= Set::new(|k: u16| overridden(old(self)@, compiled@, k)));
            return;
        }
        let mut out: HashSet<u16> = HashSet::new();
        for (k, e) in it: self.meta.iter()
            invariant
                schemas_closed(self.schemas@),
                forall|key: u16| #[trigger]
                    out@.contains(key) ==> overridden(self@, compiled@, key),
                forall|i: int|
                    0 <= i < it.index() ==> overridden(self@, compiled@, *it.seq()[i].0)
                        ==> out@.contains(*(#[trigger] it.seq()[i]).0),
        {
            if e.hotfix_fallback {
                match compiled_fingerprint_of(compiled, *k) {
                    Some(fp) => {
                        if fp != 0 {
                            match self.cached_index(&e.message) {
                                Some(ci) => {
                                    assert(self@.cached[ci as int] == e.message@);
                                    assert(self.meta@.contains_key(*k) && self.meta@[*k] == *e);
                                    let mut full = String::new();
                                    full.append("pb.");
                                    full.append(e.message.as_str());
                                    match schema_position(&self.schemas, &full) {
                                        Some(i) => {
                                            if recursive_fingerprint(&self.schemas, i) != fp {
                                                out.insert(*k);
                                            }
                                        },
                                        None => {},
                                    }
                                },
                                None => {},
                            }
                        }
                    },
                    None => {},
                }
            }
        }
        self.overrides = out;
    }

    /// Loads the protocol index file's text: its `messages` array (none when
    /// absent or no array), each element read as a record whose key is its
    /// `ekey_value` field (when an unsigned integer) and whose entry is what
    /// `parse_entry` makes of the element; then as `load_manifest`. A text that
    /// is no JSON is reported as `parse manifest json: ...` and changes nothing.
    pub fn load_manifest_json<F: Fn(&serde_json::Value) -> Result<ProtocolMetaEntry, String>>(
        &mut self,
        json: &str,
        parse_entry: F,
    ) -> (r: Result<(), String>)
        requires
            forall|v: &serde_json::Value| parse_entry.requires((v,)),
        ensures
            final(self)@.loaded == old(self)@.loaded,
            final(self)@.overrides == old(self)@.overrides,
            final(self)@.cached == old(self)@.cached,
            final(self)@.defined == old(self)@.defined,
            json_text_value(json@) is None ==> final(self)@.meta == old(self)@.meta && (r matches Err(
                m,
            ) && exists|e: Seq<char>| m@ == "parse manifest json: "@ + e),
            json_text_value(json@) is Some ==> exists|records: Seq<ManifestRecord>|
                {
                    &&& records.len() == manifest_elements(json@).len()
                    &&& forall|i: int|
                        0 <= i < records.len() ==> (#[trigger] records[i]).ekey_value == element_key(
                            manifest_elements(json@)[i],
                        ) && parse_entry.ensures((&manifest_elements(json@)[i],), records[i].entry)
                    &&& manifest_loaded(records, r, final(self)@.meta)
                },
    {
        let root = match parse_json_str(json) {
            Ok(v) => v,
            Err(e) => {
                let mut m = String::new();
                m.append("parse manifest json: ");
                let t = json_error_text(&e);
                m.append(t.as_str());
                assert(m@ == "parse manifest json: "@ + t@);
                return Err(m);
            },
        };
        let mut records: Vec<ManifestRecord> = Vec::new();
        let ghost elems = manifest_elements(json@);
        match json_get(&root, "messages") {
            Some(messages) => match json_as_array(messages) {
                Some(items) => {
                    assert(items@ == elems);
                    let mut i: usize = 0;
                    while i < items.len()
                        invariant
                            i <= items@.len(),
                            items@ == elems,
                            forall|v: &serde_json::Value| parse_entry.requires((v,)),
                            records@.len() == i,
                            forall|j: int|
                                0 <= j < i ==> (#[trigger] records@[j]).ekey_value == element_key(elems[j])
                                    && parse_entry.ensures((&elems[j],), records@[j].entry),
                        decreases items@.len() - i,
                    {
                        let msg = &items[i];
                        let ekey_value = match json_get(msg, "ekey_value") {
                            Some(v) => json_as_u64(v),
                            None => None,
                        };
                        let entry = parse_entry(msg);
                        let ghost before = records@;
                        records.push(ManifestRecord { ekey_value, entry });
                        assert forall|j: int| 0 <= j < i + 1 implies (#[trigger] records@[j]).ekey_value
                            == element_key(elems[j]) && parse_entry.ensures(
                            (&elems[j],),
                            records@[j].entry,
                        ) by {
                            if j < i {
                                assert(records@[j] == before[j]);
                            }
                        }
                        i = i + 1;
                    }
                },
                None => {},
            },
            None => {},
        }
        assert(records@.len() == elems.len());
        let ghost recs = records@;
        let r = self.load_manifest(records);
        assert(manifest_loaded(recs, r, self@.meta));
        r
    }

    /// Replaces the metadata by that of the manifest's records, in order;
    /// records without a usable key are skipped. A record with a usable key
    /// whose entry failed to parse stops the load with an error, leaving the
    /// metadata of the records before it.
    pub fn load_manifest(&mut self, records: Vec<ManifestRecord>) -> (r: Result<(), String>)
        ensures
            final(self)@.loaded == old(self)@.loaded,
            final(self)@.overrides == old(self)@.overrides,
            final(self)@.cached == old(self)@.cached,
            final(self)@.defined == old(self)@.defined,
            manifest_loaded(records@, r, final(self)@.meta),
    {
        self.meta.clear();
        let ghost all = records@;
        let mut i: usize = 0;
        assert(all.take(0) =~= Seq::<ManifestRecord>::empty());
        while i < records.len()
            invariant
                all == records@,
                i <= all.len(),
                self.meta@ == manifest_meta(all.take(i as int)),
                forall|j: int| 0 <= j < i ==> !record_rejected(#[trigger] all[j]),
                self.pool == old(self).pool,
                self.messages == old(self).messages,
                self.schemas == old(self).schemas,
                self.descriptors == old(self).descriptors,
                self.overrides == old(self).overrides,
            decreases all.len() - i,
        {
            let r = &records[i];
            assert(all.take(i + 1).drop_last() =~= all.take(i as int));
            let key: Option<u16> = match r.ekey_value {
                Some(k) => if 0 < k && k <= 65534 {
                    Some(k as u16)
                } else {
                    None
                },
                None => None,
            };
            match key {
                Some(k) => match &r.entry {
                    Ok(entry) => {
                        self.meta.insert(k, entry.duplicate());
                    },
                    Err(e) => {
                        let mut msg = String::new();
                        msg.append("parse manifest entry key=");
                        push_decimal(&mut msg, k as u64);
                        msg.append(": ");
                        msg.append(e.as_str());
                        assert(msg@ =~= rejected_message(all[i as int]));
                        return Err(msg);
                    },
                },
                None => {},
            }
            i = i + 1;
        }
        assert(all.take(all.len() as int) =~= all);
        Ok(())
    }

    /// Loads an encoded file descriptor set, replacing the one held before;
    /// on failure nothing changes.
    pub fn load_descriptors(&mut self, desc_bytes: &[u8]) -> (r: Result<(), String>)
        ensures
            final(self)@.meta == old(self)@.meta,
            final(self)@.overrides == old(self)@.overrides,
            final(self)@.cached == old(self)@.cached,
            r is Ok <==> descriptor_set_messages(desc_bytes@) is Some,
            match r {
                Ok(()) => {
                    &&& final(self)@.loaded
                    &&& Some(final(self)@.defined) == descriptor_set_messages(desc_bytes@)
                    &&& all_fields_resolve(final(self)@.defined, final(self)@.defined_descs) ==> (
                    schemas_closed(final(self)@.schemas) && schemas_of(
                        final(self)@.schemas,
                        final(self)@.defined,
                        final(self)@.defined_descs,
                    ))
                    &&& !all_fields_resolve(final(self)@.defined, final(self)@.defined_descs)
                        ==> final(self)@.schemas.len() == 0
                },
                Err(m) => final(self)@ == old(self)@ && exists|e: Seq<char>|
                    m@ == "decode descriptor set: "@ + e,
            },
    {
        match decode_descriptor_pool(desc_bytes) {
            Ok((pool, all)) => {
                let schemas = match build_schemas(&all) {
                    Some(v) => v,
                    None => Vec::new(),
                };
                self.pool = Some(pool);
                self.messages = all;
                self.schemas = schemas;
                assert(self@.defined_descs =~= descriptor_values(self.messages@));
                Ok(())
            },
            Err(e) => {
                let mut m = String::new();
                m.append("decode descriptor set: ");
                m.append(e.as_str());
                assert(m@ == "decode descriptor set: "@ + e@);
                Err(m)
            },
        }
    }

    fn cached_index(&self, name: &String) -> (r: Option<usize>)
        ensures
            match r {
                Some(i) => i < self.descriptors@.len() && self.descriptors@[i as int].0@ == name@
                    && position_of(self@.cached, name@) == Some(i as int),
                None => !self@.cached.contains(name@) && position_of(self@.cached, name@) is None,
            },
    {
        proof {
            lemma_first_position(self@.cached, name@, self@.cached.len() as int);
        }
        let mut i: usize = 0;
        while i < self.descriptors.len()
            invariant
                i <= self.descriptors@.len(),
                forall|j: int| 0 <= j < i ==> self.descriptors@[j].0@ != name@,
            decreases self.descriptors@.len() - i,
        {
            if self.descriptors[i].0 == *name {
                assert forall|j: int| 0 <= j < i implies self@.cached[j] != name@ by {
                    assert(self@.cached[j] == self.descriptors@[j].0@);
                }
                assert(self@.cached[i as int] == name@);
                proof {
                    lemma_first_position(self@.cached, name@, self@.cached.len() as int);
                }
                return Some(i);
            }
            i = i + 1;
        }
        assert forall|j: int| 0 <= j < self@.cached.len() implies self@.cached[j] != name@ by {
            assert(self@.cached[j] == self.descriptors@[j].0@);
        }
        None
    }

    /// The descriptor of the loaded set's message of this fully qualified name.
    fn defined_message(&self, full_name: &String) -> (r: Option<prost_reflect::MessageDescriptor>)
        ensures
            r is Some <==> self@.defined.contains(full_name@),
            r is Some <==> position_of(self@.defined, full_name@) is Some,
            r matches Some(d) ==> d == self@.defined_descs[position_of(self@.defined, full_name@)->0],
    {
        proof {
            lemma_first_position(self@.defined, full_name@, self@.defined.len() as int);
        }
        let mut i: usize = 0;
        while i < self.messages.len()
            invariant
                i <= self.messages@.len(),
                forall|j: int| 0 <= j < i ==> self.messages@[j].0@ != full_name@,
            decreases self.messages@.len() - i,
        {
            if self.messages[i].0 == *full_name {
                assert(self@.defined[i as int] == full_name@);
                assert forall|j: int| 0 <= j < i implies self@.defined[j] != full_name@ by {
                    assert(self@.defined[j] == self.messages@[j].0@);
                }
                assert(self@.defined_descs[i as int] == self.messages@[i as int].1);
                proof {
                    lemma_first_position(self@.defined, full_name@, self@.defined.len() as int);
                }
                return Some(clone_descriptor(&self.messages[i].1));
            }
            i = i + 1;
        }
        assert forall|j: int| 0 <= j < self@.defined.len() implies self@.defined[j] != full_name@ by {
            assert(self@.defined[j] == self.messages@[j].0@);
        }
        None
    }

    fn cache_descriptor(&mut self, name: String, desc: prost_reflect::MessageDescriptor)
        ensures
            same_but_cache(final(self)@, old(self)@),
            final(self)@.cached == if old(self)@.cached.contains(name@) {
                old(self)@.cached
            } else {
                old(self)@.cached.push(name@)
            },
            final(self)@.kept_descs == match position_of(old(self)@.cached, name@) {
                Some(i) => old(self)@.kept_descs.update(i, desc),
                None => old(self)@.kept_descs.push(desc),
            },
    {
        let ghost n = name@;
        let ghost d = desc;
        match self.cached_index(&name) {
            Some(i) => {
                self.descriptors.set(i, (name, desc));
                assert(self@.cached =~= old(self)@.cached);
                assert(old(self)@.cached[i as int] == n);
                assert(self@.kept_descs =~= old(self)@.kept_descs.update(i as int, d));
            },
            None => {
                self.descriptors.push((name, desc));
                assert(self@.cached =~= old(self)@.cached.push(n));
                assert(self@.kept_descs =~= old(self)@.kept_descs.push(d));
            },
        }
    }

    fn pb_full_name(message_name: &str) -> (full: String)
        ensures
            full@ == pb_name(message_name@),
    {
        let mut full = String::new();
        full.append("pb.");
        full.append(message_name);
        full
    }

    /// The descriptor of a `pb` message: the kept one if it was looked up
    /// before, else the one the loaded descriptor set defines under
    /// `pb.{message_name}` (which is then kept); none when neither exists.
    pub fn resolve_descriptor(&mut self, message_name: &str) -> (r: Option<
        prost_reflect::MessageDescriptor,
    >)
        ensures
            same_but_cache(final(self)@, old(self)@),
            r is Some <==> describable(old(self)@, message_name@),
            r == looked_up(old(self)@, message_name@),
            final(self)@.cached == cache_after_lookup(old(self)@, message_name@),
            final(self)@.kept_descs == kept_after_lookup(old(self)@, message_name@),
    {
        proof {
            lemma_first_position(old(self)@.cached, message_name@, old(self)@.cached.len() as int);
            lemma_first_position(
                old(self)@.defined,
                pb_name(message_name@),
                old(self)@.defined.len() as int,
            );
        }
        let name = message_name.to_owned();
        match self.cached_index(&name) {
            Some(i) => {
                assert(self@.cached[i as int] == message_name@);
                assert(self@.kept_descs[i as int] == self.descriptors@[i as int].1);
                return Some(clone_descriptor(&self.descriptors[i].1));
            },
            None => {},
        }
        let full = Self::pb_full_name(message_name);
        match self.defined_message(&full) {
            Some(d) => {
                let kept = clone_descriptor(&d);
                self.cache_descriptor(name, kept);
                Some(d)
            },
            None => None,
        }
    }

    /// Keeps the descriptor of every message the metadata names that the
    /// loaded descriptor set defines (replacing any kept before under that
    /// name); nothing else is kept.
    pub fn warm_descriptors(&mut self)
        ensures
            same_but_cache(final(self)@, old(self)@),
            forall|n: Seq<char>|
                #![trigger final(self)@.cached.contains(n)]
                final(self)@.cached.contains(n) <==> old(self)@.cached.contains(n) || (names_message(
                    old(self)@.meta,
                    n,
                ) && old(self)@.defined.contains(pb_name(n))),
            old(self)@.cached.no_duplicates() ==> final(self)@.cached.no_duplicates(),
            forall|n: Seq<char>|
                #![trigger looked_up(final(self)@, n)]
                looked_up(final(self)@, n) == if names_message(old(self)@.meta, n)
                    && old(self)@.defined.contains(pb_name(n)) {
                    Some(defined_desc(old(self)@, n))
                } else {
                    looked_up(old(self)@, n)
                },
    {
        let mut names: Vec<String> = Vec::new();
        let ghost es = vstd::std_specs::hash::spec_hash_map_iter(&self.meta).remaining();
        for (k, e) in it: self.meta.iter()
            invariant
                it.seq() == es,
                names@.len() == it.index(),
                forall|j: int| 0 <= j < names@.len() ==> names@[j]@ == (#[trigger] it.seq()[j]).1.message@,
        {
            let ghost before = names@;
            names.push(e.message.clone());
            assert forall|j: int| 0 <= j < names@.len() implies names@[j]@ == (
            #[trigger] it.seq()[j]).1.message@ by {
                if j < before.len() {
                    assert(names@[j] == before[j]);
                }
            }
        }
        proof {
            assert forall|j: int| 0 <= j < names@.len() implies names_message(
                self.meta@,
                #[trigger] names@[j]@,
            ) by {
                let p = es[j];
                assert(self.meta@.contains_key(*p.0) && self.meta@[*p.0] == *p.1);
            }
            assert forall|n: Seq<char>| names_message(self.meta@, n) implies exists|j: int|
                0 <= j < names@.len() && #[trigger] names@[j]@ == n by {
                let k = choose|k: u16| self.meta@.contains_key(k) && self.meta@[k].message@ == n;
                assert(es.contains((&k, &self.meta@[k])));
                let j = choose|j: int| 0 <= j < es.len() && es[j] == (&k, &self.meta@[k]);
                assert(names@[j]@ == n);
            }
        }
        let mut i: usize = 0;
        while i < names.len()
            invariant
                i <= names@.len(),
                same_but_cache(self@, old(self)@),
                old(self)@.cached.no_duplicates() ==> self@.cached.no_duplicates(),
                forall|j: int| 0 <= j < names@.len() ==> names_message(old(self)@.meta, #[trigger] names@[j]@),
                forall|n: Seq<char>| names_message(old(self)@.meta, n) ==> exists|j: int|
                    0 <= j < names@.len() && #[trigger] names@[j]@ == n,
                forall|n: Seq<char>|
                    #![trigger self@.cached.contains(n)]
                    self@.cached.contains(n) <==> old(self)@.cached.contains(n) || (exists|j: int|
                        0 <= j < i && #[trigger] names@[j]@ == n && old(self)@.defined.contains(
                            pb_name(n),
                        )),
                self@.cached.len() == self@.kept_descs.len(),
                forall|n: Seq<char>|
                    #![trigger looked_up(self@, n)]
                    looked_up(self@, n) == if (exists|j: int| 0 <= j < i && #[trigger] names@[j]@ == n)
                        && old(self)@.defined.contains(pb_name(n)) {
                        Some(defined_desc(old(self)@, n))
                    } else {
                        looked_up(old(self)@, n)
                    },
            decreases names@.len() - i,
        {
            let ghost before = self@.cached;
            let ghost vb = self@;
            let full = Self::pb_full_name(names[i].as_str());
            match self.defined_message(&full) {
                Some(d) => {
                    let ghost v = self@;
                    self.cache_descriptor(names[i].clone(), d);
                    proof {
                        let x = names@[i as int]@;
                        lemma_first_position(v.cached, x, v.cached.len() as int);
                        assert forall|y: Seq<char>| y != x implies #[trigger] looked_up(self@, y)
                            == looked_up(v, y) by {
                            lemma_position_push(v.cached, x, y);
                            lemma_first_position(v.cached, y, v.cached.len() as int);
                        }
                        lemma_position_push(v.cached, x, x);
                        assert(looked_up(self@, x) == Some(defined_desc(old(self)@, x)));
                    }
                    proof {
                        if v.cached.no_duplicates() && !v.cached.contains(names@[i as int]@) {
                            assert forall|a: int, b: int|
                                0 <= a < b < self@.cached.len() implies self@.cached[a]
                                != self@.cached[b] by {
                                if b == v.cached.len() {
                                    assert(self@.cached[a] == v.cached[a]);
                                }
                            }
                        }
                    }
                },
                None => {},
            }
            proof {
                let ni = names@[i as int]@;
                assert forall|n: Seq<char>| #![trigger looked_up(self@, n)]
                    looked_up(self@, n) == if (exists|j: int| 0 <= j < i + 1 && #[trigger] names@[j]@ == n)
                        && old(self)@.defined.contains(pb_name(n)) {
                        Some(defined_desc(old(self)@, n))
                    } else {
                        looked_up(old(self)@, n)
                    } by {
                    assert(looked_up(vb, n) == if (exists|j: int| 0 <= j < i && #[trigger] names@[j]@ == n)
                        && old(self)@.defined.contains(pb_name(n)) {
                        Some(defined_desc(old(self)@, n))
                    } else {
                        looked_up(old(self)@, n)
                    });
                    if n != ni {
                        if exists|j: int| 0 <= j < i + 1 && #[trigger] names@[j]@ == n {
                            let j = choose|j: int| 0 <= j < i + 1 && #[trigger] names@[j]@ == n;
                            assert(j < i);
                        }
                    } else {
                        assert(names@[i as int]@ == n);
                    }
                }
                assert forall|n: Seq<char>| #![trigger self@.cached.contains(n)]
                    self@.cached.contains(n) <==> old(self)@.cached.contains(n) || (exists|j: int|
                        0 <= j < i + 1 && #[trigger] names@[j]@ == n && old(self)@.defined.contains(
                            pb_name(n),
                        )) by {
                    if n == ni {
                        if old(self)@.defined.contains(pb_name(n)) {
                            if !before.contains(n) {
                                assert(self@.cached[self@.cached.len() - 1] == n);
                            }
                            assert(self@.cached.contains(n));
                        }
                    } else {
                        if self@.cached.contains(n) {
                            if !before.contains(n) {
                                let j = choose|j: int| 0 <= j < self@.cached.len() && self@.cached[j] == n;
                                assert(j == before.len());
                            }
                        }
                        if before.contains(n) {
                            let j = choose|j: int| 0 <= j < before.len() && before[j] == n;
                            assert(self@.cached[j] == n);
                        }
                    }
                }
            }
            i = i + 1;
        }
    }

    /// Decodes protobuf bytes as the named `pb` message.
    pub fn decode_generic(&mut self, message_name: &str, data: &[u8]) -> (r: Result<
        prost_reflect::DynamicMessage,
        String,
    >)
        ensures
            same_but_cache(final(self)@, old(self)@),
            final(self)@.cached == cache_after_lookup(old(self)@, message_name@),
            final(self)@.kept_descs == kept_after_lookup(old(self)@, message_name@),
            r matches Err(m) ==> m@ == unknown_message(message_name@) || decode_failure(
                message_name@,
                m@,
            ),
            (r matches Err(m) && m@ == unknown_message(message_name@)) <==> !describable(
                old(self)@,
                message_name@,
            ),
            describable(old(self)@, message_name@) ==> (r is Ok <==> dynamic_decoding(
                looked_up(old(self)@, message_name@)->0,
                data@,
            ) is Some),
            r matches Ok(m) ==> dynamic_decoding(looked_up(old(self)@, message_name@)->0, data@)
                == Some(m),
    {
        match self.resolve_descriptor(message_name) {
            None => {
                let mut m = String::new();
                m.append("unknown message: ");
                m.append(message_name);
                Err(m)
            },
            Some(desc) => match decode_dynamic(desc, data) {
                Ok(msg) => Ok(msg),
                Err(e) => {
                    let mut m = String::new();
                    m.append("decode ");
                    m.append(message_name);
                    m.append(": ");
                    m.append(e.as_str());
                    assert(m@ == "decode "@ + message_name@ + ": "@ + e@);
                    proof {
                        reveal_strlit("decode ");
                        reveal_strlit("unknown message: ");
                    }
                    assert(m@[0] == 'd');
                    assert(unknown_message(message_name@)[0] == 'u');
                    Err(m)
                },
            },
        }
    }

    /// Encodes a dynamic message, provided the named `pb` message can be
    /// described.
    pub fn encode_generic(&mut self, message_name: &str, msg: &prost_reflect::DynamicMessage) -> (r:
        Result<Vec<u8>, String>)
        ensures
            same_but_cache(final(self)@, old(self)@),
            final(self)@.cached == cache_after_lookup(old(self)@, message_name@),
            final(self)@.kept_descs == kept_after_lookup(old(self)@, message_name@),
            r is Ok <==> describable(old(self)@, message_name@),
            r matches Err(m) ==> m@ == unknown_message(message_name@),
            r matches Ok(b) ==> b@ == dynamic_encoding(*msg),
    {
        match self.resolve_descriptor(message_name) {
            None => {
                let mut m = String::new();
                m.append("unknown message: ");
                m.append(message_name);
                Err(m)
            },
            Some(_) => Ok(encode_dynamic(msg)),
        }
    }

    /// An empty message of the named `pb` type, if it can be described.
    pub fn new_dynamic_message(&mut self, message_name: &str) -> (r: Option<
        prost_reflect::DynamicMessage,
    >)
        ensures
            same_but_cache(final(self)@, old(self)@),
            final(self)@.cached == cache_after_lookup(old(self)@, message_name@),
            final(self)@.kept_descs == kept_after_lookup(old(self)@, message_name@),
            r is Some <==> describable(old(self)@, message_name@),
            r matches Some(m) ==> m == empty_message_of(looked_up(old(self)@, message_name@)->0),
    {
        match self.resolve_descriptor(message_name) {
            Some(desc) => Some(new_dynamic(desc)),
            None => None,
        }
    }
}

} // verus!
