use vstd::prelude::*;
use vstd::relations::{sorted_by, total_ordering};
use vstd::utf8::{decode_utf8, encode_utf8, encode_utf8_decode_utf8};

verus! {

/// Lexicographic order on byte strings (a proper prefix comes first), the
/// order in which `str` and `String` compare.
pub open spec fn bytes_le(a: Seq<u8>, b: Seq<u8>) -> bool
    decreases a.len(),
{
    if a.len() == 0 {
        true
    } else if b.len() == 0 {
        false
    } else if a[0] < b[0] {
        true
    } else if a[0] > b[0] {
        false
    } else {
        bytes_le(a.drop_first(), b.drop_first())
    }
}

pub proof fn lemma_bytes_le_reflexive(a: Seq<u8>)
    ensures
        bytes_le(a, a),
    decreases a.len(),
{
    if a.len() > 0 {
        lemma_bytes_le_reflexive(a.drop_first());
    }
}

pub proof fn lemma_bytes_le_total(a: Seq<u8>, b: Seq<u8>)
    ensures
        bytes_le(a, b) || bytes_le(b, a),
    decreases a.len(),
{
    if a.len() > 0 && b.len() > 0 && a[0] == b[0] {
        lemma_bytes_le_total(a.drop_first(), b.drop_first());
    }
}

pub proof fn lemma_bytes_le_antisymmetric(a: Seq<u8>, b: Seq<u8>)
    requires
        bytes_le(a, b),
        bytes_le(b, a),
    ensures
        a == b,
    decreases a.len(),
{
    if a.len() > 0 {
        lemma_bytes_le_antisymmetric(a.drop_first(), b.drop_first());
        assert(a =~= seq![a[0]] + a.drop_first());
        assert(b =~= seq![b[0]] + b.drop_first());
    } else {
        assert(b.len() == 0);
        assert(a =~= b);
    }
}

pub proof fn lemma_bytes_le_transitive(a: Seq<u8>, b: Seq<u8>, c: Seq<u8>)
    requires
        bytes_le(a, b),
        bytes_le(b, c),
    ensures
        bytes_le(a, c),
    decreases a.len(),
{
    if a.len() > 0 && b.len() > 0 && c.len() > 0 && a[0] == b[0] && b[0] == c[0] {
        lemma_bytes_le_transitive(a.drop_first(), b.drop_first(), c.drop_first());
    }
}

/// Whether `a` comes strictly before `b`.
pub fn bytes_less(a: &[u8], b: &[u8]) -> (r: bool)
    ensures
        r == !bytes_le(b@, a@),
{
    let mut i: usize = 0;
    assert(a@.subrange(0, a@.len() as int) =~= a@);
    assert(b@.subrange(0, b@.len() as int) =~= b@);
    while i < a.len() && i < b.len()
        invariant
            i <= a@.len(),
            i <= b@.len(),
            a@.subrange(0, i as int) == b@.subrange(0, i as int),
            bytes_le(b@, a@) == bytes_le(b@.subrange(i as int, b@.len() as int), a@.subrange(
                i as int,
                a@.len() as int,
            )),
        decreases a@.len() - i,
    {
        let ghost sa = a@.subrange(i as int, a@.len() as int);
        let ghost sb = b@.subrange(i as int, b@.len() as int);
        if a[i] < b[i] {
            return true;
        }
        if a[i] > b[i] {
            return false;
        }
        assert(sa.drop_first() =~= a@.subrange(i + 1, a@.len() as int));
        assert(sb.drop_first() =~= b@.subrange(i + 1, b@.len() as int));
        assert(a@.subrange(0, i + 1) =~= a@.subrange(0, i as int).push(a@[i as int]));
        assert(b@.subrange(0, i + 1) =~= b@.subrange(0, i as int).push(b@[i as int]));
        i = i + 1;
    }
    i < b.len()
}


/// The byte string a name sorts by.
pub open spec fn name_bytes(s: String) -> Seq<u8> {
    encode_utf8(s@)
}

/// Names in ascending byte order.
pub open spec fn sorted_names(s: Seq<String>) -> bool {
    forall|i: int, j: int|
        0 <= i < j < s.len() ==> bytes_le(name_bytes(#[trigger] s[i]), name_bytes(#[trigger] s[j]))
}

/// Whether a list holds a name (as text).
pub open spec fn has_name(b: Seq<String>, n: Seq<char>) -> bool {
    exists|j: int| 0 <= j < b.len() && #[trigger] b[j]@ == n
}

/// Two lists holding the same names (as text).
pub open spec fn same_names(a: Seq<String>, b: Seq<String>) -> bool {
    &&& forall|i: int| 0 <= i < a.len() ==> #[trigger] has_name(b, a[i]@)
    &&& forall|j: int| 0 <= j < b.len() ==> #[trigger] has_name(a, b[j]@)
}

pub proof fn lemma_same_names_insert(old_names: Seq<String>, pre: Seq<String>, names: Seq<String>, added: String)
    requires
        same_names(old_names, pre),
        exists|p: int| 0 <= p <= old_names.len() && names == old_names.insert(p, added),
    ensures
        same_names(names, pre.push(added)),
{
    let p = choose|p: int| 0 <= p <= old_names.len() && names == old_names.insert(p, added);
    let next = pre.push(added);
    assert forall|i: int| 0 <= i < names.len() implies #[trigger] has_name(next, names[i]@) by {
        if i == p {
            assert(next[pre.len() as int]@ == names[i]@);
        } else {
            let i0 = if i < p { i } else { i - 1 };
            assert(names[i] == old_names[i0]);
            assert(has_name(pre, old_names[i0]@));
            let j = choose|j: int| 0 <= j < pre.len() && #[trigger] pre[j]@ == old_names[i0]@;
            assert(next[j] == pre[j]);
        }
    }
    assert forall|j: int| 0 <= j < next.len() implies #[trigger] has_name(names, next[j]@) by {
        if j == pre.len() {
            assert(names[p]@ == next[j]@);
        } else {
            assert(next[j] == pre[j]);
            assert(has_name(old_names, pre[j]@));
            let i0 = choose|i: int| 0 <= i < old_names.len() && #[trigger] old_names[i]@ == pre[j]@;
            if i0 < p {
                assert(names[i0] == old_names[i0]);
            } else {
                assert(names[i0 + 1] == old_names[i0]);
            }
        }
    }
}

pub fn insert_sorted(names: &mut Vec<String>, name: String)
    requires
        sorted_names(old(names)@),
    ensures
        sorted_names(final(names)@),
        exists|p: int| 0 <= p <= old(names)@.len() && final(names)@ == old(names)@.insert(p, name),
{
    let ghost old_names = names@;
    let mut p: usize = 0;
    while p < names.len() && !bytes_less(name.as_str().as_bytes(), names[p].as_str().as_bytes())
        invariant
            p <= names@.len(),
            names@ == old_names,
            forall|j: int| 0 <= j < p ==> bytes_le(name_bytes(#[trigger] names@[j]), name_bytes(name)),
        decreases names@.len() - p,
    {
        proof {
            lemma_bytes_le_total(name_bytes(names@[p as int]), name_bytes(name));
        }
        p = p + 1;
    }
    proof {
        if p < names@.len() {
            lemma_bytes_le_total(name_bytes(names@[p as int]), name_bytes(name));
        }
    }
    names.insert(p, name);
    assert(names@ == old_names.insert(p as int, name));
    assert forall|i: int, j: int| 0 <= i < j < names@.len() implies bytes_le(
        name_bytes(#[trigger] names@[i]),
        name_bytes(#[trigger] names@[j]),
    ) by {
        if j < p {
            assert(names@[i] == old_names[i] && names@[j] == old_names[j]);
        } else if j == p {
            assert(names@[i] == old_names[i]);
        } else if i == p {
            assert(names@[j] == old_names[j - 1]);
            if j - 1 > p {
                assert(bytes_le(name_bytes(old_names[p as int]), name_bytes(old_names[j - 1])));
                lemma_bytes_le_transitive(
                    name_bytes(name),
                    name_bytes(old_names[p as int]),
                    name_bytes(old_names[j - 1]),
                );
            }
        } else if i < p {
            assert(names@[i] == old_names[i] && names@[j] == old_names[j - 1]);
            assert(bytes_le(name_bytes(old_names[i]), name_bytes(name)));
            lemma_bytes_le_transitive(
                name_bytes(old_names[i]),
                name_bytes(name),
                name_bytes(old_names[p as int]),
            );
            if j - 1 > p {
                assert(bytes_le(name_bytes(old_names[p as int]), name_bytes(old_names[j - 1])));
                lemma_bytes_le_transitive(
                    name_bytes(old_names[i]),
                    name_bytes(old_names[p as int]),
                    name_bytes(old_names[j - 1]),
                );
            }
        } else {
            assert(names@[i] == old_names[i - 1] && names@[j] == old_names[j - 1]);
        }
    }
}


/// Text order: by the UTF-8 bytes, as `str` and `String` compare.
pub open spec fn text_le(a: Seq<char>, b: Seq<char>) -> bool {
    bytes_le(encode_utf8(a), encode_utf8(b))
}

/// The text order as a relation.
pub open spec fn text_order() -> spec_fn(Seq<char>, Seq<char>) -> bool {
    |a: Seq<char>, b: Seq<char>| text_le(a, b)
}

/// The texts of a list of strings.
pub open spec fn texts(s: Seq<String>) -> Seq<Seq<char>> {
    s.map_values(|x: String| x@)
}

/// Byte strings are ordered lexicographically, ascending: a prefix comes
/// first, and otherwise the first differing byte decides, the smaller byte
/// first.
pub proof fn lemma_bytes_le_law(a: Seq<u8>, b: Seq<u8>, i: int)
    ensures
        a.len() <= b.len() && a == b.subrange(0, a.len() as int) ==> bytes_le(a, b),
        0 <= i < a.len() && i < b.len() && a.subrange(0, i) == b.subrange(0, i) && a[i] < b[i]
            ==> bytes_le(a, b) && !bytes_le(b, a),
    decreases a.len(),
{
    if a.len() > 0 && b.len() > 0 {
        lemma_bytes_le_law(a.drop_first(), b.drop_first(), i - 1);
        if a.len() <= b.len() && a == b.subrange(0, a.len() as int) {
            assert(a[0] == b[0]);
            assert(a.drop_first() =~= b.drop_first().subrange(0, a.drop_first().len() as int));
        }
        if 0 < i < a.len() && i < b.len() && a.subrange(0, i) == b.subrange(0, i) && a[i] < b[i] {
            assert(a[0] == a.subrange(0, i)[0]);
            assert(b[0] == b.subrange(0, i)[0]);
            assert(a.drop_first().subrange(0, i - 1) =~= b.drop_first().subrange(0, i - 1)) by {
                assert forall|j: int| 0 <= j < i - 1 implies a.drop_first()[j] == b.drop_first()[j] by {
                    assert(a.subrange(0, i)[j + 1] == b.subrange(0, i)[j + 1]);
                }
            }
        }
    }
}

/// Joining puts the separator between neighbours only: no part gives the
/// empty text, one part gives itself, and one more part is appended after a
/// separator.
pub proof fn lemma_join_law(parts: Seq<Seq<char>>, sep: Seq<char>, x: Seq<char>)
    ensures
        join(Seq::empty(), sep) == Seq::<char>::empty(),
        join(seq![x], sep) == x,
        parts.len() > 0 ==> join(parts.push(x), sep) == join(parts, sep) + sep + x,
{
    assert(parts.push(x).drop_last() =~= parts);
}

/// The text order is a total order.
pub proof fn lemma_text_order_total()
    ensures
        total_ordering(text_order()),
{
    let r = text_order();
    assert forall|x: Seq<char>| #[trigger] r(x, x) by {
        lemma_bytes_le_reflexive(encode_utf8(x));
    }
    assert forall|x: Seq<char>, y: Seq<char>| #[trigger] r(x, y) && #[trigger] r(y, x) implies x == y by {
        lemma_bytes_le_antisymmetric(encode_utf8(x), encode_utf8(y));
        encode_utf8_decode_utf8(x);
        encode_utf8_decode_utf8(y);
    }
    assert forall|x: Seq<char>, y: Seq<char>, z: Seq<char>| #[trigger] r(x, y) && #[trigger] r(y, z) implies r(x, z) by {
        lemma_bytes_le_transitive(encode_utf8(x), encode_utf8(y), encode_utf8(z));
    }
    assert forall|x: Seq<char>, y: Seq<char>| #[trigger] r(x, y) || #[trigger] r(y, x) by {
        lemma_bytes_le_total(encode_utf8(x), encode_utf8(y));
    }
}

proof fn lemma_insert_multiset<A>(s: Seq<A>, p: int, x: A)
    requires
        0 <= p <= s.len(),
    ensures
        s.insert(p, x).to_multiset() =~= s.to_multiset().insert(x),
{
    broadcast use vstd::seq_lib::group_to_multiset_ensures;
    broadcast use vstd::multiset::group_multiset_axioms;

    let t = s.insert(p, x);
    assert(t.remove(p) =~= s);
    assert(t[p] == x);
    assert(t.contains(x));
    assert(t.to_multiset().count(x) > 0);
}

/// Sorts texts in ascending text order.
pub fn sort_texts(parts: Vec<String>) -> (r: Vec<String>)
    ensures
        texts(r@) == texts(parts@).sort_by(text_order()),
{
    broadcast use vstd::seq_lib::group_to_multiset_ensures;

    let mut r: Vec<String> = Vec::new();
    let mut k: usize = 0;
    assert(texts(parts@.take(0)) =~= Seq::<Seq<char>>::empty());
    assert(texts(r@) =~= Seq::<Seq<char>>::empty());
    while k < parts.len()
        invariant
            k <= parts@.len(),
            sorted_names(r@),
            texts(r@).to_multiset() == texts(parts@.take(k as int)).to_multiset(),
        decreases parts@.len() - k,
    {
        let x = parts[k].clone();
        let ghost old_r = r@;
        let ghost xs = x;
        insert_sorted(&mut r, x);
        proof {
            let p = choose|p: int| 0 <= p <= old_r.len() && r@ == old_r.insert(p, xs);
            assert(texts(r@) =~= texts(old_r).insert(p, xs@));
            lemma_insert_multiset(texts(old_r), p, xs@);
            let pre = texts(parts@.take(k as int));
            assert(texts(parts@.take(k + 1)) =~= pre.push(xs@));
            vstd::seq_lib::to_multiset_build(pre, xs@);
        }
        k = k + 1;
    }
    proof {
        assert(parts@.take(parts@.len() as int) =~= parts@);
        lemma_text_order_total();
        texts(parts@).lemma_sort_by_ensures(text_order());
        assert(sorted_by(texts(r@), text_order()));
        vstd::seq_lib::lemma_sorted_unique(texts(r@), texts(parts@).sort_by(text_order()), text_order());
    }
    r
}

/// Texts joined with a separator between neighbours.
pub open spec fn join(parts: Seq<Seq<char>>, sep: Seq<char>) -> Seq<char>
    decreases parts.len(),
{
    if parts.len() == 0 {
        Seq::empty()
    } else if parts.len() == 1 {
        parts[0]
    } else {
        join(parts.drop_last(), sep) + sep + parts.last()
    }
}

/// Joins texts with a separator between neighbours.
pub fn join_texts(parts: &Vec<String>, sep: &str) -> (s: String)
    ensures
        s@ == join(texts(parts@), sep@),
{
    let mut s = String::new();
    let mut i: usize = 0;
    assert(texts(parts@).take(0) =~= Seq::<Seq<char>>::empty());
    while i < parts.len()
        invariant
            i <= parts@.len(),
            s@ == join(texts(parts@).take(i as int), sep@),
        decreases parts@.len() - i,
    {
        if i > 0 {
            s.append(sep);
        }
        s.append(parts[i].as_str());
        proof {
            let t = texts(parts@);
            assert(t.take(i + 1).drop_last() =~= t.take(i as int));
            if i == 0 {
                assert(t.take(1) =~= seq![parts@[0]@]);
            }
        }
        i = i + 1;
    }
    assert(texts(parts@).take(parts@.len() as int) =~= texts(parts@));
    s
}

} // verus!
