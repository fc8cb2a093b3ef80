//! Ordered maps from the `indexmap` crate, declared for Verus with the
//! trusted operations the library uses. Each contents name gives the map's
//! entries in insertion order (an `IndexMap` keeps keys unique and keeps a
//! replaced key at its original position).

use indexmap::IndexMap;
use vstd::prelude::*;
use crate::json::{JsonModel, JsonValue};

verus! {

#[verifier::external_type_specification]
#[verifier::external_body]
#[verifier::reject_recursive_types(K)]
#[verifier::reject_recursive_types(V)]
#[verifier::reject_recursive_types(S)]
pub struct ExIndexMap<K, V, S>(IndexMap<K, V, S>);

/// Entries of a path index, in insertion order.
pub uninterp spec fn path_index_entries(m: IndexMap<String, usize>) -> Seq<(Seq<char>, usize)>;

/// Entries of a property map, in insertion order.
pub uninterp spec fn property_entries(m: IndexMap<String, JsonValue>) -> Seq<(Seq<char>, JsonModel)>;

/// Position of `key` among ordered entries, or -1.
pub open spec fn key_position<V>(entries: Seq<(Seq<char>, V)>, key: Seq<char>) -> int
    decreases entries.len(),
{
    if entries.len() == 0 {
        -1
    } else if entries.last().0 == key {
        entries.len() - 1
    } else {
        key_position(entries.drop_last(), key)
    }
}

pub proof fn lemma_key_position<V>(entries: Seq<(Seq<char>, V)>, key: Seq<char>)
    ensures
        -1 <= key_position(entries, key) < entries.len(),
        key_position(entries, key) >= 0 ==> entries[key_position(entries, key)].0 == key,
        key_position(entries, key) < 0 ==> forall|j: int|
            0 <= j < entries.len() ==> (#[trigger] entries[j]).0 != key,
    decreases entries.len(),
{
    if entries.len() > 0 && entries.last().0 != key {
        lemma_key_position(entries.drop_last(), key);
        assert forall|j: int| 0 <= j < entries.len() - 1 implies entries.drop_last()[j] == entries[j] by {}
    }
}

/// Result of inserting `key` with `value` into ordered entries.
pub open spec fn entries_insert<V>(entries: Seq<(Seq<char>, V)>, key: Seq<char>, value: V) -> Seq<(Seq<char>, V)> {
    let p = key_position(entries, key);
    if p >= 0 {
        entries.update(p, (key, value))
    } else {
        entries.push((key, value))
    }
}

/// A key is present after an insertion exactly when it was present before
/// or is the inserted key.
pub proof fn lemma_entries_insert_present<V>(entries: Seq<(Seq<char>, V)>, k: Seq<char>, v: V, key: Seq<char>)
    ensures
        (key_position(entries_insert(entries, k, v), key) >= 0) == (key_position(entries, key) >= 0 || key == k),
{
    let after = entries_insert(entries, k, v);
    lemma_key_position(entries, key);
    lemma_key_position(entries, k);
    lemma_key_position(after, key);
    let p = key_position(entries, k);
    if key_position(entries, key) >= 0 {
        let q = key_position(entries, key);
        if p >= 0 {
            assert(after[q].0 == key);
        } else {
            assert(after[q] == entries[q]);
        }
    } else if key == k {
        if p >= 0 {
            assert(after[p].0 == key);
        } else {
            assert(after[entries.len() as int].0 == key);
        }
    } else {
        if key_position(after, key) >= 0 {
            let q = key_position(after, key);
            if p >= 0 && q == p {
                assert(after[q].0 == k);
            } else if p < 0 && q == entries.len() {
                assert(after[q].0 == k);
            } else {
                assert(after[q] == entries[q]);
            }
        }
    }
}

/// `IndexMap::with_capacity`: an empty map.
#[verifier::external_body]
pub(crate) fn path_index_with_capacity(n: usize) -> (m: IndexMap<String, usize>)
    ensures
        path_index_entries(m) == Seq::<(Seq<char>, usize)>::empty(),
{
    IndexMap::with_capacity(n)
}

/// `IndexMap::contains_key`.
#[verifier::external_body]
pub(crate) fn path_index_contains(m: &IndexMap<String, usize>, key: &str) -> (r: bool)
    ensures
        r == (key_position(path_index_entries(*m), key@) >= 0),
{
    m.contains_key(key)
}

/// `IndexMap::get`, with the value copied out.
#[verifier::external_body]
pub(crate) fn path_index_get(m: &IndexMap<String, usize>, key: &str) -> (r: Option<usize>)
    ensures
        key_position(path_index_entries(*m), key@) >= 0 ==> r == Some(
            path_index_entries(*m)[key_position(path_index_entries(*m), key@)].1,
        ),
        key_position(path_index_entries(*m), key@) < 0 ==> r is None,
{
    m.get(key).copied()
}

/// `IndexMap::insert`: a new key goes last; an existing key keeps its place
/// and takes the new value, and the old value is returned.
#[verifier::external_body]
pub(crate) fn path_index_insert(m: &mut IndexMap<String, usize>, key: String, value: usize) -> (r: Option<usize>)
    ensures
        path_index_entries(*final(m)) == entries_insert(path_index_entries(*old(m)), key@, value),
        key_position(path_index_entries(*old(m)), key@) >= 0 ==> r == Some(
            path_index_entries(*old(m))[key_position(path_index_entries(*old(m)), key@)].1,
        ),
        key_position(path_index_entries(*old(m)), key@) < 0 ==> r is None,
{
    m.insert(key, value)
}

/// `IndexMap::new` for a property map: an empty map.
#[verifier::external_body]
pub(crate) fn property_map_new() -> (m: IndexMap<String, JsonValue>)
    ensures
        property_entries(m) == Seq::<(Seq<char>, JsonModel)>::empty(),
{
    IndexMap::new()
}

/// `IndexMap::insert` on a property map (the previous value is dropped).
#[verifier::external_body]
pub(crate) fn property_map_insert(m: &mut IndexMap<String, JsonValue>, key: String, value: JsonValue)
    ensures
        property_entries(*final(m)) == entries_insert(property_entries(*old(m)), key@, value.model()),
{
    m.insert(key, value);
}

/// `IndexMap::len` of a property map.
#[verifier::external_body]
pub(crate) fn property_map_len(m: &IndexMap<String, JsonValue>) -> (r: usize)
    ensures
        r == property_entries(*m).len(),
{
    m.len()
}

/// `IndexMap::get_index` of a property map, for an index in range.
#[verifier::external_body]
pub(crate) fn property_map_get_index(m: &IndexMap<String, JsonValue>, i: usize) -> (r: (&String, &JsonValue))
    requires
        i < property_entries(*m).len(),
    ensures
        (r.0@, r.1.model()) == property_entries(*m)[i as int],
{
    m.get_index(i).unwrap()
}

/// `IndexMap::get_index_of` on a property map: the position of `key`.
#[verifier::external_body]
pub(crate) fn property_map_index_of(m: &IndexMap<String, JsonValue>, key: &str) -> (r: Option<usize>)
    ensures
        key_position(property_entries(*m), key@) >= 0 ==> r == Some(key_position(property_entries(*m), key@) as usize),
        key_position(property_entries(*m), key@) < 0 ==> r is None,
{
    m.get_index_of(key)
}

} // verus!
