use vstd::prelude::*;
use vstd::seq_lib::lemma_sorted_unique;
use vstd::utf8::encode_utf8;

use crate::order::{join, join_texts, lemma_text_order_total, sort_texts, text_order, texts};
use crate::text::{decimal, push_decimal};

verus! {

/// FNV-1a 64-bit offset basis.
pub const FNV_OFFSET: u64 = 14695981039346656037;

/// FNV-1a 64-bit prime.
pub const FNV_PRIME: u64 = 1099511628211;

/// The 64-bit FNV-1a hash of a byte string.
pub open spec fn fnv1a_spec(data: Seq<u8>) -> u64
    decreases data.len(),
{
    if data.len() == 0 {
        FNV_OFFSET
    } else {
        (fnv1a_spec(data.drop_last()) ^ (data.last() as u64)).wrapping_mul(FNV_PRIME)
    }
}

/// The 64-bit FNV-1a hash of a byte string.
pub fn fnv1a(data: &[u8]) -> (h: u64)
    ensures
        h == fnv1a_spec(data@),
{
    let mut h: u64 = FNV_OFFSET;
    let mut i: usize = 0;
    while i < data.len()
        invariant
            i <= data@.len(),
            h == fnv1a_spec(data@.take(i as int)),
        decreases data@.len() - i,
    {
        assert(data@.take(i + 1).drop_last() =~= data@.take(i as int));
        h = h ^ (data[i] as u64);
        h = h.wrapping_mul(FNV_PRIME);
        i = i + 1;
    }
    assert(data@.take(data@.len() as int) =~= data@);
    h
}


/// The type of a message field.
pub enum FieldKind {
    Double,
    Float,
    Int32,
    Int64,
    Uint32,
    Uint64,
    Sint32,
    Sint64,
    Fixed32,
    Fixed64,
    Sfixed32,
    Sfixed64,
    Bool,
    String,
    Bytes,
    /// An enum, by its fully qualified name.
    Enum(String),
    /// A message, by its position in the schema list.
    Message(usize),
}

/// A field type as a message descriptor gives it, with enum and message types
/// by fully qualified name.
pub enum DescriptorKind {
    Double,
    Float,
    Int32,
    Int64,
    Uint32,
    Uint64,
    Sint32,
    Sint64,
    Fixed32,
    Fixed64,
    Sfixed32,
    Sfixed64,
    Bool,
    String,
    Bytes,
    Enum(String),
    Message(String),
}

/// A field of a message: number, whether it is repeated, and type.
pub struct FieldSchema {
    pub number: u32,
    pub is_list: bool,
    pub kind: FieldKind,
}

/// A message type: its fully qualified name and its fields, in the order
/// its descriptor lists them.
pub struct MessageSchema {
    pub full_name: String,
    pub fields: Vec<FieldSchema>,
}

/// Every message a field refers to is in the list.
pub open spec fn schemas_closed(pool: Seq<MessageSchema>) -> bool {
    forall|m: int, f: int|
        0 <= m < pool.len() && 0 <= f < pool[m].fields@.len() ==> ((#[trigger] pool[m].fields@[f]).kind matches FieldKind::Message(i)
            ==> i < pool.len())
}

/// Whether every message a field refers to is in the list (see
/// `schemas_closed`).
pub fn check_schemas_closed(pool: &Vec<MessageSchema>) -> (b: bool)
    ensures
        b == schemas_closed(pool@),
{
    let mut m: usize = 0;
    while m < pool.len()
        invariant
            m <= pool@.len(),
            forall|i: int, f: int|
                0 <= i < m && 0 <= f < pool@[i].fields@.len() ==> ((#[trigger] pool@[i].fields@[f]).kind matches FieldKind::Message(j)
                    ==> j < pool@.len()),
        decreases pool@.len() - m,
    {
        let mut f: usize = 0;
        while f < pool[m].fields.len()
            invariant
                m < pool@.len(),
                f <= pool@[m as int].fields@.len(),
                forall|i: int, g: int|
                    0 <= i < m && 0 <= g < pool@[i].fields@.len() ==> ((#[trigger] pool@[i].fields@[g]).kind matches FieldKind::Message(j)
                        ==> j < pool@.len()),
                forall|g: int|
                    0 <= g < f ==> ((#[trigger] pool@[m as int].fields@[g]).kind matches FieldKind::Message(j)
                        ==> j < pool@.len()),
            decreases pool@[m as int].fields@.len() - f,
        {
            match &pool[m].fields[f].kind {
                FieldKind::Message(j) => {
                    if *j >= pool.len() {
                        return false;
                    }
                },
                _ => {},
            }
            f = f + 1;
        }
        m = m + 1;
    }
    true
}

/// A name without its leading `pb.` package prefix, if it has one.
pub open spec fn strip_pb(n: Seq<char>) -> Seq<char> {
    if n.len() >= 3 && n.subrange(0, 3) == "pb."@ {
        n.subrange(3, n.len() as int)
    } else {
        n
    }
}

/// The name a field type has in a fingerprint.
pub open spec fn kind_name(pool: Seq<MessageSchema>, k: FieldKind) -> Seq<char> {
    match k {
        FieldKind::Double => "double"@,
        FieldKind::Float => "float"@,
        FieldKind::Int32 => "int32"@,
        FieldKind::Int64 => "int64"@,
        FieldKind::Uint32 => "uint32"@,
        FieldKind::Uint64 => "uint64"@,
        FieldKind::Sint32 => "sint32"@,
        FieldKind::Sint64 => "sint64"@,
        FieldKind::Fixed32 => "fixed32"@,
        FieldKind::Fixed64 => "fixed64"@,
        FieldKind::Sfixed32 => "sfixed32"@,
        FieldKind::Sfixed64 => "sfixed64"@,
        FieldKind::Bool => "bool"@,
        FieldKind::String => "string"@,
        FieldKind::Bytes => "bytes"@,
        FieldKind::Enum(n) => "e."@ + strip_pb(n@),
        FieldKind::Message(i) => "m."@ + strip_pb(pool[i as int].full_name@),
    }
}

/// A name without its leading `pb.`, as `str::strip_prefix` would give it.
pub fn strip_pb_prefix(n: &str) -> (r: String)
    ensures
        r@ == strip_pb(n@),
{
    proof {
        reveal_strlit("pb.");
    }
    let len = n.unicode_len();
    if len >= 3 && n.get_char(0) == 'p' && n.get_char(1) == 'b' && n.get_char(2) == '.' {
        assert(n@.subrange(0, 3) =~= "pb."@);
        String::from_str(n.substring_char(3, len))
    } else {
        if len >= 3 {
            assert(n@.subrange(0, 3) != "pb."@) by {
                if n@.subrange(0, 3) == "pb."@ {
                    assert(n@.subrange(0, 3)[0] == 'p');
                    assert(n@.subrange(0, 3)[1] == 'b');
                    assert(n@.subrange(0, 3)[2] == '.');
                }
            }
        }
        String::from_str(n)
    }
}

/// The name of a field type in a fingerprint.
pub fn kind_str(pool: &Vec<MessageSchema>, kind: &FieldKind) -> (s: String)
    requires
        kind matches FieldKind::Message(i) ==> i < pool@.len(),
    ensures
        s@ == kind_name(pool@, *kind),
{
    match kind {
        FieldKind::Double => String::from_str("double"),
        FieldKind::Float => String::from_str("float"),
        FieldKind::Int32 => String::from_str("int32"),
        FieldKind::Int64 => String::from_str("int64"),
        FieldKind::Uint32 => String::from_str("uint32"),
        FieldKind::Uint64 => String::from_str("uint64"),
        FieldKind::Sint32 => String::from_str("sint32"),
        FieldKind::Sint64 => String::from_str("sint64"),
        FieldKind::Fixed32 => String::from_str("fixed32"),
        FieldKind::Fixed64 => String::from_str("fixed64"),
        FieldKind::Sfixed32 => String::from_str("sfixed32"),
        FieldKind::Sfixed64 => String::from_str("sfixed64"),
        FieldKind::Bool => String::from_str("bool"),
        FieldKind::String => String::from_str("string"),
        FieldKind::Bytes => String::from_str("bytes"),
        FieldKind::Enum(e) => {
            let mut s = String::from_str("e.");
            let short = strip_pb_prefix(e.as_str());
            s.append(short.as_str());
            s
        },
        FieldKind::Message(i) => {
            let mut s = String::from_str("m.");
            let short = strip_pb_prefix(pool[*i].full_name.as_str());
            s.append(short.as_str());
            s
        },
    }
}

/// The positions below `n` that are not in `visited`, counted.
pub open spec fn unvisited(n: nat, visited: Set<int>) -> nat
    decreases n,
{
    if n == 0 {
        0
    } else {
        unvisited((n - 1) as nat, visited) + if visited.contains(n - 1) {
            0nat
        } else {
            1nat
        }
    }
}

/// Marking a position at or past `n` changes nothing below `n`.
pub proof fn lemma_unvisited_above(n: nat, visited: Set<int>, idx: int)
    requires
        idx >= n,
    ensures
        unvisited(n, visited.insert(idx)) == unvisited(n, visited),
    decreases n,
{
    if n > 0 {
        lemma_unvisited_above((n - 1) as nat, visited, idx);
    }
}

/// Marking an unmarked position below `n` removes it from the count.
pub proof fn lemma_unvisited_insert(n: nat, visited: Set<int>, idx: int)
    requires
        0 <= idx < n,
        !visited.contains(idx),
    ensures
        unvisited(n, visited.insert(idx)) + 1 == unvisited(n, visited),
    decreases n,
{
    if idx == n - 1 {
        lemma_unvisited_above((n - 1) as nat, visited, idx);
    } else {
        lemma_unvisited_insert((n - 1) as nat, visited, idx);
    }
}

/// The fingerprint text of the message at `idx`: its fields' texts, sorted
/// and joined with `;`. A scalar field is `{number}:{type}` (`{number}:r:{type}`
/// when repeated); a message field is `{number}:m:{name}{{text}}`
/// (`{number}:r:m:...` when repeated), with the name stripped of `pb.` and the
/// nested message's own fingerprint text. A message already being described
/// further up (a cycle) is `?`.
pub open spec fn fingerprint_text(pool: Seq<MessageSchema>, idx: int, visited: Set<int>) -> Seq<char>
    decreases unvisited(pool.len(), visited), 0nat, 0int,
{
    if idx < 0 || idx >= pool.len() || visited.contains(idx) {
        "?"@
    } else {
        let inner = visited.insert(idx);
        proof {
            lemma_unvisited_insert(pool.len(), visited, idx);
        }
        join(
            field_texts(pool, idx, inner, pool[idx].fields@.len() as int).sort_by(text_order()),
            ";"@,
        )
    }
}

/// The texts of the first `j` fields of the message at `idx`.
pub open spec fn field_texts(pool: Seq<MessageSchema>, idx: int, visited: Set<int>, j: int) -> Seq<
    Seq<char>,
>
    decreases unvisited(pool.len(), visited), 1nat, j,
{
    if j <= 0 || idx < 0 || idx >= pool.len() || j > pool[idx].fields@.len() {
        Seq::empty()
    } else {
        field_texts(pool, idx, visited, j - 1).push(field_text_in(pool, pool[idx].fields@[j - 1], visited))
    }
}

/// The text of one field, the messages in `visited` being described further
/// up.
pub open spec fn field_text_in(pool: Seq<MessageSchema>, f: FieldSchema, visited: Set<int>) -> Seq<
    char,
>
    decreases unvisited(pool.len(), visited), 1nat, 0int,
{
    let num = decimal(f.number as nat);
    match f.kind {
        FieldKind::Message(sub) => {
            let inner = fingerprint_text(pool, sub as int, visited);
            let short = strip_pb(pool[sub as int].full_name@);
            if f.is_list {
                num + ":r:m:"@ + short + "{"@ + inner + "}"@
            } else {
                num + ":m:"@ + short + "{"@ + inner + "}"@
            }
        },
        _ => if f.is_list {
            num + ":r:"@ + kind_name(pool, f.kind)
        } else {
            num + ":"@ + kind_name(pool, f.kind)
        },
    }
}

/// The schema fingerprint of a message: the FNV-1a hash of the UTF-8 bytes of
/// its fingerprint text.
pub open spec fn fingerprint(pool: Seq<MessageSchema>, idx: int) -> u64 {
    fnv1a_spec(encode_utf8(fingerprint_text(pool, idx, Set::empty())))
}

/// The positions flagged in a list of flags.
pub open spec fn flag_set(flags: Seq<bool>) -> Set<int> {
    Set::new(|i: int| 0 <= i < flags.len() && flags[i])
}

/// The FNV-1a hash starts from the offset basis 14695981039346656037 and,
/// for each byte, xors it in and multiplies by the prime 1099511628211
/// (modulo 2^64).
pub proof fn lemma_fnv1a_steps(data: Seq<u8>, b: u8)
    ensures
        fnv1a_spec(Seq::empty()) == 14695981039346656037u64,
        fnv1a_spec(data.push(b)) == (fnv1a_spec(data) ^ (b as u64)).wrapping_mul(1099511628211u64),
{
    assert(data.push(b).drop_last() =~= data);
}

/// Every scalar field type is written under its protobuf type name; an enum
/// type as `e.` and the enum's name without its `pb.` prefix; a message type
/// as `m.` and the message's name without the prefix.
pub proof fn lemma_kind_names(pool: Seq<MessageSchema>)
    ensures
        kind_name(pool, FieldKind::Double) == "double"@,
        kind_name(pool, FieldKind::Float) == "float"@,
        kind_name(pool, FieldKind::Int32) == "int32"@,
        kind_name(pool, FieldKind::Int64) == "int64"@,
        kind_name(pool, FieldKind::Uint32) == "uint32"@,
        kind_name(pool, FieldKind::Uint64) == "uint64"@,
        kind_name(pool, FieldKind::Sint32) == "sint32"@,
        kind_name(pool, FieldKind::Sint64) == "sint64"@,
        kind_name(pool, FieldKind::Fixed32) == "fixed32"@,
        kind_name(pool, FieldKind::Fixed64) == "fixed64"@,
        kind_name(pool, FieldKind::Sfixed32) == "sfixed32"@,
        kind_name(pool, FieldKind::Sfixed64) == "sfixed64"@,
        kind_name(pool, FieldKind::Bool) == "bool"@,
        kind_name(pool, FieldKind::String) == "string"@,
        kind_name(pool, FieldKind::Bytes) == "bytes"@,
        forall|n: String| #[trigger] kind_name(pool, FieldKind::Enum(n)) == "e."@ + strip_pb(n@),
        forall|i: usize|
            #[trigger] kind_name(pool, FieldKind::Message(i)) == "m."@ + strip_pb(
                pool[i as int].full_name@,
            ),
{
}

/// A name starting with `pb.` loses exactly those three characters; any
/// other name is kept whole.
pub proof fn lemma_strip_pb(n: Seq<char>)
    ensures
        strip_pb("pb."@ + n) == n,
        !(n.len() >= 3 && n[0] == 'p' && n[1] == 'b' && n[2] == '.') ==> strip_pb(n) == n,
{
    reveal_strlit("pb.");
    assert(("pb."@ + n).subrange(0, 3) =~= "pb."@);
    assert(("pb."@ + n).subrange(3, ("pb."@ + n).len() as int) =~= n);
    if n.len() >= 3 && n.subrange(0, 3) == "pb."@ {
        assert(n[0] == n.subrange(0, 3)[0]);
        assert(n[1] == n.subrange(0, 3)[1]);
        assert(n[2] == n.subrange(0, 3)[2]);
    }
}

/// The text of a field: its number in decimal; then, for a message type,
/// `:m:` (`:r:m:` when repeated), the message's name without `pb.` and the
/// message's own text in braces; for any other type `:` (`:r:` when
/// repeated) and the type's name. A message already being described, or one
/// outside the list, is written `?`.
pub proof fn lemma_field_text(pool: Seq<MessageSchema>, f: FieldSchema, visited: Set<int>, idx: int)
    ensures
        field_text_in(pool, f, visited) == match f.kind {
            FieldKind::Message(m) => decimal(f.number as nat) + (if f.is_list {
                ":r:m:"@
            } else {
                ":m:"@
            }) + strip_pb(pool[m as int].full_name@) + "{"@ + fingerprint_text(pool, m as int, visited)
                + "}"@,
            _ => decimal(f.number as nat) + (if f.is_list {
                ":r:"@
            } else {
                ":"@
            }) + kind_name(pool, f.kind),
        },
        (idx < 0 || idx >= pool.len() || visited.contains(idx)) ==> fingerprint_text(pool, idx, visited)
            == "?"@,
{
}

proof fn lemma_sort_single(x: Seq<char>)
    ensures
        seq![x].sort_by(text_order()) == seq![x],
{
    broadcast use vstd::seq_lib::group_to_multiset_ensures;
    broadcast use vstd::multiset::group_multiset_axioms;

    lemma_text_order_total();
    seq![x].lemma_sort_by_ensures(text_order());
    let s = seq![x].sort_by(text_order());
    assert(s.to_multiset().len() == seq![x].to_multiset().len());
    assert(s.len() == 1);
    assert(s.to_multiset().count(s[0]) > 0) by {
        assert(s.contains(s[0]));
    }
    assert(seq![x].to_multiset().count(s[0]) > 0);
    assert(seq![x].contains(s[0]));
    assert(s =~= seq![x]);
}

/// A message whose only field is of a scalar or enum type has that field's
/// text as its fingerprint text: the field number in decimal, then `:r:`
/// when the field is repeated or `:` otherwise, then the type's name; its
/// fingerprint is the FNV-1a hash of that text's UTF-8 bytes. So a message
/// with a single `uint32` field numbered `n` has the text `{n}:uint32`.
pub proof fn lemma_single_field_fingerprint(pool: Seq<MessageSchema>, idx: int, f: FieldSchema)
    requires
        0 <= idx < pool.len(),
        pool[idx].fields@ == seq![f],
        !(f.kind is Message),
    ensures
        fingerprint_text(pool, idx, Set::empty()) == decimal(f.number as nat) + (if f.is_list {
            ":r:"@
        } else {
            ":"@
        }) + kind_name(pool, f.kind),
        f.kind == FieldKind::Uint32 && !f.is_list ==> fingerprint(pool, idx) == fnv1a_spec(
            encode_utf8(decimal(f.number as nat) + ":uint32"@),
        ),
{
    let inner = Set::<int>::empty().insert(idx);
    let t = field_text_in(pool, f, inner);
    assert(field_texts(pool, idx, inner, 0) =~= Seq::<Seq<char>>::empty());
    assert(field_texts(pool, idx, inner, 1) =~= seq![t]);
    lemma_sort_single(t);
    assert(join(seq![t], ";"@) == t);
    lemma_kind_names(pool);
    if f.kind == FieldKind::Uint32 && !f.is_list {
        reveal_strlit(":");
        reveal_strlit("uint32");
        reveal_strlit(":uint32");
        let d = decimal(f.number as nat);
        assert(d + ":"@ + "uint32"@ =~= d + ":uint32"@);
    }
}

/// Two schema lists that differ at most in the order in which each message
/// lists its fields.
pub open spec fn same_up_to_field_order(p1: Seq<MessageSchema>, p2: Seq<MessageSchema>) -> bool {
    &&& p1.len() == p2.len()
    &&& forall|i: int|
        0 <= i < p1.len() ==> (#[trigger] p1[i]).full_name@ == p2[i].full_name@
            && p1[i].fields@.to_multiset() == p2[i].fields@.to_multiset()
}

proof fn lemma_map_to_multiset<A, B>(s1: Seq<A>, s2: Seq<A>, g: spec_fn(A) -> B)
    requires
        s1.to_multiset() == s2.to_multiset(),
    ensures
        s1.map_values(g).to_multiset() == s2.map_values(g).to_multiset(),
    decreases s1.len(),
{
    broadcast use vstd::seq_lib::group_to_multiset_ensures;
    broadcast use vstd::multiset::group_multiset_axioms;

    if s1.len() == 0 {
        vstd::seq_lib::to_multiset_len(s1);
        vstd::seq_lib::to_multiset_len(s2);
        assert(s2.len() == 0);
        assert(s1.map_values(g) =~= Seq::<B>::empty());
        assert(s2.map_values(g) =~= Seq::<B>::empty());
    } else {
        let x = s1.last();
        let r1 = s1.drop_last();
        assert(s1 =~= r1.push(x));
        assert(s1[s1.len() - 1] == x);
        assert(s1.contains(x));
        assert(s1.to_multiset().count(x) > 0);
        assert(s2.to_multiset().count(x) > 0);
        assert(s2.contains(x));
        let j = choose|j: int| 0 <= j < s2.len() && s2[j] == x;
        let r2 = s2.remove(j);
        assert(r1.to_multiset() =~= r2.to_multiset());
        lemma_map_to_multiset(r1, r2, g);
        assert(s1.map_values(g) =~= r1.map_values(g).push(g(x)));
        assert(s2.map_values(g) =~= r2.map_values(g).insert(j, g(x)));
    }
}

proof fn lemma_field_texts_map(pool: Seq<MessageSchema>, idx: int, visited: Set<int>, j: int)
    requires
        0 <= idx < pool.len(),
        0 <= j <= pool[idx].fields@.len(),
    ensures
        field_texts(pool, idx, visited, j) == pool[idx].fields@.take(j).map_values(
            |f: FieldSchema| field_text_in(pool, f, visited),
        ),
    decreases j,
{
    let g = |f: FieldSchema| field_text_in(pool, f, visited);
    if j == 0 {
        assert(pool[idx].fields@.take(0).map_values(g) =~= Seq::<Seq<char>>::empty());
    } else {
        lemma_field_texts_map(pool, idx, visited, j - 1);
        assert(pool[idx].fields@.take(j).map_values(g) =~= pool[idx].fields@.take(j - 1).map_values(
            g,
        ).push(g(pool[idx].fields@[j - 1])));
    }
}

/// The fingerprint text of a message, for any set of messages already being
/// described, does not depend on the order in which messages list their
/// fields.
pub proof fn lemma_fingerprint_text_ignores_field_order(
    p1: Seq<MessageSchema>,
    p2: Seq<MessageSchema>,
    idx: int,
    visited: Set<int>,
)
    requires
        schemas_closed(p1),
        schemas_closed(p2),
        same_up_to_field_order(p1, p2),
    ensures
        fingerprint_text(p1, idx, visited) == fingerprint_text(p2, idx, visited),
    decreases unvisited(p1.len(), visited),
{
    if idx < 0 || idx >= p1.len() || visited.contains(idx) {
    } else {
        let inner = visited.insert(idx);
        lemma_unvisited_insert(p1.len(), visited, idx);
        let g1 = |f: FieldSchema| field_text_in(p1, f, inner);
        let g2 = |f: FieldSchema| field_text_in(p2, f, inner);
        let f1 = p1[idx].fields@;
        let f2 = p2[idx].fields@;
        assert forall|m: int| 0 <= m < p1.len() implies fingerprint_text(p1, m, inner)
            == fingerprint_text(p2, m, inner) by {
            lemma_fingerprint_text_ignores_field_order(p1, p2, m, inner);
        }
        lemma_field_texts_map(p1, idx, inner, f1.len() as int);
        lemma_field_texts_map(p2, idx, inner, f2.len() as int);
        assert(f1.take(f1.len() as int) =~= f1);
        assert(f2.take(f2.len() as int) =~= f2);
        assert(f2.map_values(g2) =~= f2.map_values(g1)) by {
            assert forall|k: int| 0 <= k < f2.len() implies g2(f2[k]) == g1(f2[k]) by {
                let f = f2[k];
                assert(p2[idx].fields@[k] == f);
                assert(g1(f) == field_text_in(p1, f, inner));
                assert(g2(f) == field_text_in(p2, f, inner));
                match f.kind {
                    FieldKind::Message(m) => {
                        assert(m < p2.len());
                        assert(p1[m as int].full_name@ == p2[m as int].full_name@);
                        assert(fingerprint_text(p1, m as int, inner) == fingerprint_text(
                            p2,
                            m as int,
                            inner,
                        ));
                    },
                    _ => {},
                }
            }
        }
        lemma_map_to_multiset(f1, f2, g1);
        let t1 = field_texts(p1, idx, inner, f1.len() as int);
        let t2 = field_texts(p2, idx, inner, f2.len() as int);
        lemma_text_order_total();
        t1.lemma_sort_by_ensures(text_order());
        t2.lemma_sort_by_ensures(text_order());
        lemma_sorted_unique(t1.sort_by(text_order()), t2.sort_by(text_order()), text_order());
    }
}

/// The fingerprint of a message does not depend on the order in which
/// messages list their fields.
pub proof fn lemma_fingerprint_ignores_field_order(
    p1: Seq<MessageSchema>,
    p2: Seq<MessageSchema>,
    idx: int,
)
    requires
        schemas_closed(p1),
        schemas_closed(p2),
        same_up_to_field_order(p1, p2),
    ensures
        fingerprint(p1, idx) == fingerprint(p2, idx),
{
    lemma_fingerprint_text_ignores_field_order(p1, p2, idx, Set::empty());
}

fn field_text(pool: &Vec<MessageSchema>, idx: usize, j: usize, visited: &mut Vec<bool>) -> (s: String)
    requires
        schemas_closed(pool@),
        idx < pool@.len(),
        j < pool@[idx as int].fields@.len(),
        old(visited)@.len() == pool@.len(),
        old(visited)@[idx as int],
    ensures
        final(visited)@ == old(visited)@,
        s@ == field_text_in(pool@, pool@[idx as int].fields@[j as int], flag_set(old(visited)@)),
    decreases unvisited(pool@.len(), flag_set(old(visited)@)), 1nat, j,
{
    let f = &pool[idx].fields[j];
    let mut text = String::new();
    push_decimal(&mut text, f.number as u64);
    match &f.kind {
        FieldKind::Message(sub) => {
            assert(*sub < pool@.len());
            let inner = fingerprint_text_of(pool, *sub, visited);
            let short = strip_pb_prefix(pool[*sub].full_name.as_str());
            if f.is_list {
                text.append(":r:m:");
            } else {
                text.append(":m:");
            }
            text.append(short.as_str());
            text.append("{");
            text.append(inner.as_str());
            text.append("}");
        },
        _ => {
            if f.is_list {
                text.append(":r:");
            } else {
                text.append(":");
            }
            let k = kind_str(pool, &f.kind);
            text.append(k.as_str());
        },
    }
    text
}

fn fingerprint_text_of(pool: &Vec<MessageSchema>, idx: usize, visited: &mut Vec<bool>) -> (s: String)
    requires
        schemas_closed(pool@),
        old(visited)@.len() == pool@.len(),
    ensures
        final(visited)@ == old(visited)@,
        s@ == fingerprint_text(pool@, idx as int, flag_set(old(visited)@)),
    decreases unvisited(pool@.len(), flag_set(old(visited)@)), 0nat, 0int,
{
    if idx >= pool.len() || visited[idx] {
        proof {
            reveal_strlit("?");
        }
        return String::from_str("?");
    }
    let ghost before = visited@;
    let ghost inner = flag_set(before).insert(idx as int);
    visited.set(idx, true);
    assert(flag_set(visited@) =~= inner);
    proof {
        lemma_unvisited_insert(pool@.len(), flag_set(before), idx as int);
    }
    let n = pool[idx].fields.len();
    let mut parts: Vec<String> = Vec::new();
    let mut j: usize = 0;
    while j < n
        invariant
            schemas_closed(pool@),
            idx < pool@.len(),
            n == pool@[idx as int].fields@.len(),
            j <= n,
            visited@ == before.update(idx as int, true),
            before == old(visited)@,
            before.len() == pool@.len(),
            flag_set(visited@) == inner,
            unvisited(pool@.len(), inner) < unvisited(pool@.len(), flag_set(before)),
            texts(parts@) == field_texts(pool@, idx as int, inner, j as int),
        decreases n - j,
    {
        let t = field_text(pool, idx, j, visited);
        let ghost old_parts = parts@;
        parts.push(t);
        assert(texts(parts@) =~= texts(old_parts).push(t@));
        j = j + 1;
    }
    visited.set(idx, false);
    assert(visited@ =~= before);
    let sorted = sort_texts(parts);
    join_texts(&sorted, ";")
}

/// The schema fingerprint of the message at `idx` (see `fingerprint`).
pub fn recursive_fingerprint(pool: &Vec<MessageSchema>, idx: usize) -> (h: u64)
    requires
        schemas_closed(pool@),
    ensures
        h == fingerprint(pool@, idx as int),
{
    let mut visited: Vec<bool> = Vec::new();
    while visited.len() < pool.len()
        invariant
            visited@.len() <= pool@.len(),
            forall|i: int| 0 <= i < visited@.len() ==> !visited@[i],
        decreases pool@.len() - visited@.len(),
    {
        visited.push(false);
    }
    assert(flag_set(visited@) =~= Set::<int>::empty());
    let text = fingerprint_text_of(pool, idx, &mut visited);
    fnv1a(text.as_str().as_bytes())
}

} // verus!
