//! Byte order of keys and the recursive key sort of JSON objects, which
//! makes a serialized document deterministic.

use vstd::prelude::*;
use crate::json::{model_items, model_pairs, JsonModel, JsonValue};

verus! {

/// Lexicographic order of byte strings (a proper prefix comes first).
pub open spec fn lex_lt(a: Seq<u8>, b: Seq<u8>) -> bool
    decreases a.len(),
{
    if a.len() == 0 {
        b.len() > 0
    } else if b.len() == 0 {
        false
    } else if a[0] != b[0] {
        a[0] < b[0]
    } else {
        lex_lt(a.drop_first(), b.drop_first())
    }
}

pub proof fn lemma_lex_irreflexive(a: Seq<u8>)
    ensures
        !lex_lt(a, a),
    decreases a.len(),
{
    if a.len() > 0 {
        lemma_lex_irreflexive(a.drop_first());
    }
}

pub proof fn lemma_lex_transitive(a: Seq<u8>, b: Seq<u8>, c: Seq<u8>)
    requires
        lex_lt(a, b),
        lex_lt(b, c),
    ensures
        lex_lt(a, c),
    decreases a.len(),
{
    if a.len() > 0 && b.len() > 0 && c.len() > 0 && a[0] == b[0] && b[0] == c[0] {
        lemma_lex_transitive(a.drop_first(), b.drop_first(), c.drop_first());
    }
}

pub proof fn lemma_lex_total(a: Seq<u8>, b: Seq<u8>)
    ensures
        lex_lt(a, b) || lex_lt(b, a) || a == b,
    decreases a.len(),
{
    if a.len() > 0 && b.len() > 0 && a[0] == b[0] {
        lemma_lex_total(a.drop_first(), b.drop_first());
        if a.drop_first() == b.drop_first() {
            assert(a =~= seq![a[0]] + a.drop_first());
            assert(b =~= seq![b[0]] + b.drop_first());
        }
    } else if a.len() == 0 && b.len() == 0 {
        assert(a =~= b);
    }
}

/// Byte-wise lexicographic comparison.
pub fn bytes_lt(a: &[u8], b: &[u8]) -> (r: bool)
    ensures
        r == lex_lt(a@, b@),
{
    let mut i: usize = 0;
    assert(a@.skip(0) =~= a@);
    assert(b@.skip(0) =~= b@);
    while i < a.len() && i < b.len()
        invariant
            i <= a@.len(),
            i <= b@.len(),
            lex_lt(a@, b@) == lex_lt(a@.skip(i as int), b@.skip(i as int)),
        decreases a@.len() - i,
    {
        assert(a@.skip(i as int)[0] == a@[i as int]);
        assert(b@.skip(i as int)[0] == b@[i as int]);
        if a[i] != b[i] {
            return a[i] < b[i];
        }
        assert(a@.skip(i as int).drop_first() =~= a@.skip(i + 1));
        assert(b@.skip(i as int).drop_first() =~= b@.skip(i + 1));
        i += 1;
    }
    i < b.len()
}

/// Order of object keys: by their UTF-8 bytes.
pub open spec fn key_lt(a: Seq<char>, b: Seq<char>) -> bool {
    lex_lt(vstd::utf8::encode_utf8(a), vstd::utf8::encode_utf8(b))
}

/// Members whose keys never decrease.
pub open spec fn keys_sorted<V>(ps: Seq<(Seq<char>, V)>) -> bool {
    forall|i: int, j: int| 0 <= i < j < ps.len() ==> !key_lt(#[trigger] ps[j].0, #[trigger] ps[i].0)
}

/// Where a member with key `k` goes: before the first member with a
/// greater key.
pub open spec fn insert_pos<V>(ps: Seq<(Seq<char>, V)>, k: Seq<char>) -> int
    decreases ps.len(),
{
    if ps.len() == 0 {
        0
    } else if key_lt(k, ps[0].0) {
        0
    } else {
        1 + insert_pos(ps.drop_first(), k)
    }
}

/// Stable insertion sort of members by key.
pub open spec fn sort_pairs<V>(ps: Seq<(Seq<char>, V)>) -> Seq<(Seq<char>, V)>
    decreases ps.len(),
{
    if ps.len() == 0 {
        Seq::empty()
    } else {
        let s = sort_pairs(ps.drop_last());
        s.insert(insert_pos(s, ps.last().0), ps.last())
    }
}

/// A value with the members of every object in key order, all the way down.
pub open spec fn sort_model(m: JsonModel) -> JsonModel
    decreases m, 2int,
{
    match m {
        JsonModel::Array(items) => JsonModel::Array(sorted_items(items)),
        JsonModel::Object(ps) => JsonModel::Object(sort_pairs(sorted_children(ps))),
        _ => m,
    }
}

pub open spec fn sorted_items(items: Seq<JsonModel>) -> Seq<JsonModel>
    decreases items, 1int,
{
    if items.len() == 0 {
        Seq::empty()
    } else {
        proof {
            assert(decreases_to!(items => items[items.len() - 1]));
        }
        sorted_items(items.drop_last()).push(sort_model(items.last()))
    }
}

pub open spec fn sorted_children(ps: Seq<(Seq<char>, JsonModel)>) -> Seq<(Seq<char>, JsonModel)>
    decreases ps, 1int,
{
    if ps.len() == 0 {
        Seq::empty()
    } else {
        proof {
            assert(decreases_to!(ps => ps[ps.len() - 1]));
            assert(decreases_to!(ps[ps.len() - 1] => ps[ps.len() - 1].1));
        }
        sorted_children(ps.drop_last()).push((ps.last().0, sort_model(ps.last().1)))
    }
}

/// Every object inside the value has its members in key order.
pub open spec fn sorted_everywhere(m: JsonModel) -> bool
    decreases m, 1int,
{
    match m {
        JsonModel::Array(items) => forall|i: int| 0 <= i < items.len() ==> {
            proof {
                assert(decreases_to!(items => items[i]));
            }
            sorted_everywhere(#[trigger] items[i])
        },
        JsonModel::Object(ps) => keys_sorted(ps) && forall|i: int| 0 <= i < ps.len() ==> {
            proof {
                assert(decreases_to!(ps => ps[i]));
                assert(decreases_to!(ps[i] => ps[i].1));
            }
            sorted_everywhere(#[trigger] ps[i].1)
        },
        _ => true,
    }
}

pub proof fn lemma_model_items_index(a: Seq<JsonValue>)
    ensures
        model_items(a).len() == a.len(),
        forall|i: int| 0 <= i < a.len() ==> #[trigger] model_items(a)[i] == a[i].model(),
    decreases a.len(),
{
    if a.len() > 0 {
        lemma_model_items_index(a.drop_last());
    }
}

pub proof fn lemma_model_pairs_index(a: Seq<(String, JsonValue)>)
    ensures
        model_pairs(a).len() == a.len(),
        forall|i: int| 0 <= i < a.len() ==> #[trigger] model_pairs(a)[i] == (a[i].0@, a[i].1.model()),
    decreases a.len(),
{
    if a.len() > 0 {
        lemma_model_pairs_index(a.drop_last());
    }
}

proof fn lemma_sorted_items_index(a: Seq<JsonModel>)
    ensures
        sorted_items(a).len() == a.len(),
        forall|i: int| 0 <= i < a.len() ==> #[trigger] sorted_items(a)[i] == sort_model(a[i]),
    decreases a.len(),
{
    if a.len() > 0 {
        lemma_sorted_items_index(a.drop_last());
    }
}

proof fn lemma_sorted_children_index(a: Seq<(Seq<char>, JsonModel)>)
    ensures
        sorted_children(a).len() == a.len(),
        forall|i: int| 0 <= i < a.len() ==> #[trigger] sorted_children(a)[i] == (a[i].0, sort_model(a[i].1)),
    decreases a.len(),
{
    if a.len() > 0 {
        lemma_sorted_children_index(a.drop_last());
    }
}

pub proof fn lemma_insert_pos<V>(ps: Seq<(Seq<char>, V)>, k: Seq<char>)
    ensures
        0 <= insert_pos(ps, k) <= ps.len(),
        forall|j: int| 0 <= j < insert_pos(ps, k) ==> !key_lt(k, #[trigger] ps[j].0),
        insert_pos(ps, k) < ps.len() ==> key_lt(k, ps[insert_pos(ps, k)].0),
    decreases ps.len(),
{
    if ps.len() > 0 && !key_lt(k, ps[0].0) {
        lemma_insert_pos(ps.drop_first(), k);
        assert forall|j: int| 0 <= j < insert_pos(ps, k) implies !key_lt(k, #[trigger] ps[j].0) by {
            if j > 0 {
                assert(ps.drop_first()[j - 1] == ps[j]);
            }
        }
    }
}

/// Inserting at the insertion position keeps members sorted.
pub proof fn lemma_insert_sorted<V>(s: Seq<(Seq<char>, V)>, p: (Seq<char>, V))
    requires
        keys_sorted(s),
    ensures
        keys_sorted(s.insert(insert_pos(s, p.0), p)),
{
    let q = insert_pos(s, p.0);
    lemma_insert_pos(s, p.0);
    let t = s.insert(q, p);
    assert forall|i: int, j: int| 0 <= i < j < t.len() implies !key_lt(#[trigger] t[j].0, #[trigger] t[i].0) by {
        let ei = vstd::utf8::encode_utf8(t[i].0);
        let ej = vstd::utf8::encode_utf8(t[j].0);
        if i < q && j == q {
            assert(!key_lt(p.0, s[i].0));
        } else if i == q && j > q {
            assert(key_lt(p.0, s[q].0));
            if q < j - 1 {
                assert(!key_lt(s[j - 1].0, s[q].0));
                lemma_lex_total(vstd::utf8::encode_utf8(s[q].0), vstd::utf8::encode_utf8(s[j - 1].0));
                if key_lt(s[j - 1].0, p.0) {
                    if key_lt(s[q].0, s[j - 1].0) {
                        lemma_lex_transitive(vstd::utf8::encode_utf8(s[q].0), vstd::utf8::encode_utf8(s[j - 1].0), vstd::utf8::encode_utf8(p.0));
                        lemma_lex_transitive(vstd::utf8::encode_utf8(p.0), vstd::utf8::encode_utf8(s[q].0), vstd::utf8::encode_utf8(p.0));
                        lemma_lex_irreflexive(vstd::utf8::encode_utf8(p.0));
                    } else {
                        lemma_lex_transitive(vstd::utf8::encode_utf8(p.0), vstd::utf8::encode_utf8(s[q].0), vstd::utf8::encode_utf8(p.0));
                        lemma_lex_irreflexive(vstd::utf8::encode_utf8(p.0));
                    }
                }
            } else {
                if key_lt(s[q].0, p.0) {
                    lemma_lex_transitive(vstd::utf8::encode_utf8(p.0), vstd::utf8::encode_utf8(s[q].0), vstd::utf8::encode_utf8(p.0));
                    lemma_lex_irreflexive(vstd::utf8::encode_utf8(p.0));
                }
            }
        } else if i < q && j > q {
            assert(t[i] == s[i]);
            assert(t[j] == s[j - 1]);
        } else if j < q {
            assert(t[i] == s[i] && t[j] == s[j]);
        } else {
            assert(t[i] == s[i - 1] && t[j] == s[j - 1]);
        }
    }
}

/// The stable insertion sort yields members in key order.
pub proof fn lemma_sort_pairs_sorted<V>(ps: Seq<(Seq<char>, V)>)
    ensures
        keys_sorted(sort_pairs(ps)),
        sort_pairs(ps).len() == ps.len(),
    decreases ps.len(),
{
    if ps.len() > 0 {
        lemma_sort_pairs_sorted(ps.drop_last());
        lemma_insert_pos(sort_pairs(ps.drop_last()), ps.last().0);
        lemma_insert_sorted(sort_pairs(ps.drop_last()), ps.last());
    }
}

/// Sorting keeps each member, only moving it.
pub proof fn lemma_sort_pairs_permutes<V>(ps: Seq<(Seq<char>, V)>)
    ensures
        sort_pairs(ps).to_multiset() == ps.to_multiset(),
    decreases ps.len(),
{
    broadcast use vstd::seq_lib::to_multiset_insert, vstd::seq_lib::to_multiset_build;
    if ps.len() > 0 {
        lemma_sort_pairs_permutes(ps.drop_last());
        lemma_sort_pairs_sorted(ps.drop_last());
        lemma_insert_pos(sort_pairs(ps.drop_last()), ps.last().0);
        assert(ps =~= ps.drop_last().push(ps.last()));
    } else {
        assert(sort_pairs(ps) =~= ps);
    }
}

proof fn lemma_sort_pairs_members<V>(ps: Seq<(Seq<char>, V)>, i: int)
    requires
        0 <= i < ps.len(),
    ensures
        ps.contains(sort_pairs(ps)[i]),
{
    lemma_sort_pairs_permutes(ps);
    lemma_sort_pairs_sorted(ps);
    let x = sort_pairs(ps)[i];
    assert(sort_pairs(ps).to_multiset().contains(x)) by {
        vstd::seq_lib::to_multiset_contains(sort_pairs(ps), x);
    }
    vstd::seq_lib::to_multiset_contains(ps, x);
}

/// Law: after the recursive key sort, every object in the value, at any
/// depth, has its members in key order.
pub proof fn lemma_sort_model_sorted(m: JsonModel)
    ensures
        sorted_everywhere(sort_model(m)),
    decreases m,
{
    match m {
        JsonModel::Array(items) => {
            lemma_sorted_items_index(items);
            assert forall|i: int| 0 <= i < sorted_items(items).len() implies sorted_everywhere(#[trigger] sorted_items(items)[i]) by {
                assert(decreases_to!(items => items[i]));
                lemma_sort_model_sorted(items[i]);
            }
        },
        JsonModel::Object(ps) => {
            let kids = sorted_children(ps);
            lemma_sorted_children_index(ps);
            lemma_sort_pairs_sorted(kids);
            assert forall|i: int| 0 <= i < sort_pairs(kids).len() implies sorted_everywhere(#[trigger] sort_pairs(kids)[i].1) by {
                lemma_sort_pairs_members(kids, i);
                let x = sort_pairs(kids)[i];
                let j = choose|j: int| 0 <= j < kids.len() && kids[j] == x;
                assert(decreases_to!(ps => ps[j]));
                assert(decreases_to!(ps[j] => ps[j].1));
                lemma_sort_model_sorted(ps[j].1);
            }
        },
        _ => {},
    }
}

/// Index of the first member whose key is greater than `key`.
fn find_insert_pos(out: &Vec<(String, JsonValue)>, key: &str) -> (p: usize)
    ensures
        p as int == insert_pos(model_pairs(out@), key@),
{
    let ghost ms = model_pairs(out@);
    proof {
        lemma_model_pairs_index(out@);
        assert(ms.skip(0) =~= ms);
    }
    let mut i: usize = 0;
    while i < out.len()
        invariant
            i <= out@.len(),
            ms == model_pairs(out@),
            ms.len() == out@.len(),
            forall|j: int| 0 <= j < out@.len() ==> #[trigger] ms[j] == (out@[j].0@, out@[j].1.model()),
            insert_pos(ms, key@) == i + insert_pos(ms.skip(i as int), key@),
        decreases out@.len() - i,
    {
        let ghost rest = ms.skip(i as int);
        assert(rest[0] == ms[i as int]);
        if bytes_lt(key.as_bytes(), out[i].0.as_str().as_bytes()) {
            return i;
        }
        assert(rest.drop_first() =~= ms.skip(i + 1));
        i += 1;
    }
    i
}

/// A copy of the value with the members of every object, at any depth, in
/// the byte order of their keys (equal keys keep their order).
#[verifier::loop_isolation(false)]
pub fn sort_value_keys(value: &JsonValue) -> (r: JsonValue)
    ensures
        r.model() == sort_model(value.model()),
    decreases value,
{
    match value {
        JsonValue::Null => JsonValue::Null,
        JsonValue::Bool(b) => JsonValue::Bool(*b),
        JsonValue::Number(n) => JsonValue::Number(n.clone()),
        JsonValue::String(s) => JsonValue::String(s.clone()),
        JsonValue::Array(items) => {
            let ghost ms = model_items(items@);
            proof {
                lemma_model_items_index(items@);
                lemma_sorted_items_index(ms);
            }
            let mut out: Vec<JsonValue> = Vec::new();
            let mut i: usize = 0;
            while i < items.len()
                invariant
                    i <= items@.len(),
                    out@.len() == i,
                    ms == model_items(items@),
                    ms.len() == items@.len(),
                    sorted_items(ms).len() == ms.len(),
                    forall|j: int| 0 <= j < items@.len() ==> #[trigger] ms[j] == items@[j].model(),
                    forall|j: int| 0 <= j < ms.len() ==> #[trigger] sorted_items(ms)[j] == sort_model(ms[j]),
                    forall|j: int| 0 <= j < i ==> (#[trigger] out@[j]).model() == sort_model(ms[j]),
                decreases items@.len() - i,
            {
                proof {
                    assert(*items == value->Array_0);
                    assert(decreases_to!(*value => value->Array_0));
                    vstd::std_specs::vec::axiom_vec_index_decreases(*items, i as int);
                    assert(decreases_to!(*items => items[i as int]));
                    assert(decreases_to!(*value => items[i as int]));
                }
                out.push(sort_value_keys(&items[i]));
                i += 1;
            }
            proof {
                lemma_model_items_index(out@);
                assert(model_items(out@) =~= sorted_items(ms));
            }
            JsonValue::Array(out)
        },
        JsonValue::Object(pairs) => {
            let ghost ms = model_pairs(pairs@);
            let ghost kids = sorted_children(ms);
            proof {
                lemma_model_pairs_index(pairs@);
                lemma_sorted_children_index(ms);
                assert(kids.take(0) =~= Seq::<(Seq<char>, JsonModel)>::empty());
            }
            let mut out: Vec<(String, JsonValue)> = Vec::new();
            let mut i: usize = 0;
            while i < pairs.len()
                invariant
                    i <= pairs@.len(),
                    ms == model_pairs(pairs@),
                    kids == sorted_children(ms),
                    ms.len() == pairs@.len(),
                    kids.len() == ms.len(),
                    forall|j: int| 0 <= j < pairs@.len() ==> #[trigger] ms[j] == (pairs@[j].0@, pairs@[j].1.model()),
                    forall|j: int| 0 <= j < ms.len() ==> #[trigger] kids[j] == (ms[j].0, sort_model(ms[j].1)),
                    model_pairs(out@) == sort_pairs(kids.take(i as int)),
                decreases pairs@.len() - i,
            {
                proof {
                    assert(*pairs == value->Object_0);
                    assert(decreases_to!(*value => value->Object_0));
                    vstd::std_specs::vec::axiom_vec_index_decreases(*pairs, i as int);
                    assert(decreases_to!(*pairs => pairs[i as int]));
                    assert(decreases_to!(*value => pairs[i as int]));
                    assert(decreases_to!(pairs[i as int] => pairs[i as int].1));
                }
                let child = sort_value_keys(&pairs[i].1);
                let key = pairs[i].0.clone();
                let p = find_insert_pos(&out, key.as_str());
                let ghost before = out@;
                proof {
                    lemma_model_pairs_index(before);
                    lemma_insert_pos(model_pairs(before), key@);
                }
                out.insert(p, (key, child));
                proof {
                    lemma_model_pairs_index(before);
                    lemma_model_pairs_index(out@);
                    let e = (pairs@[i as int].0@, sort_model(ms[i as int].1));
                    assert(kids.take(i + 1).drop_last() =~= kids.take(i as int));
                    assert(kids.take(i + 1).last() == e);
                    assert(model_pairs(out@) =~= model_pairs(before).insert(p as int, e));
                }
                i += 1;
            }
            proof {
                assert(kids.take(pairs@.len() as int) =~= kids);
            }
            JsonValue::Object(out)
        },
    }
}


/// The members in key order (equal keys keep their order); values are
/// copied as they are.
pub fn sort_members(pairs: &Vec<(String, JsonValue)>) -> (r: Vec<(String, JsonValue)>)
    ensures
        model_pairs(r@) == sort_pairs(model_pairs(pairs@)),
{
    let ghost ms = model_pairs(pairs@);
    proof {
        lemma_model_pairs_index(pairs@);
        assert(ms.take(0) =~= Seq::<(Seq<char>, JsonModel)>::empty());
    }
    let mut out: Vec<(String, JsonValue)> = Vec::new();
    let mut i: usize = 0;
    while i < pairs.len()
        invariant
            i <= pairs@.len(),
            ms == model_pairs(pairs@),
            ms.len() == pairs@.len(),
            forall|j: int| 0 <= j < pairs@.len() ==> #[trigger] ms[j] == (pairs@[j].0@, pairs@[j].1.model()),
            model_pairs(out@) == sort_pairs(ms.take(i as int)),
        decreases pairs@.len() - i,
    {
        let value = pairs[i].1.deep_clone();
        let key = pairs[i].0.clone();
        let p = find_insert_pos(&out, key.as_str());
        let ghost before = out@;
        proof {
            lemma_model_pairs_index(before);
            lemma_insert_pos(model_pairs(before), key@);
        }
        out.insert(p, (key, value));
        proof {
            lemma_model_pairs_index(out@);
            assert(ms.take(i + 1).drop_last() =~= ms.take(i as int));
            assert(ms.take(i + 1).last() == ms[i as int]);
            assert(model_pairs(out@) =~= model_pairs(before).insert(p as int, ms[i as int]));
        }
        i += 1;
    }
    proof {
        assert(ms.take(pairs@.len() as int) =~= ms);
    }
    out
}

} // verus!
