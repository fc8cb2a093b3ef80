//! A JSON document held as plain values. Numbers keep the text of their
//! canonical JSON rendering so that no floating-point value enters the
//! library; objects keep their members in order.

use vstd::prelude::*;
use crate::text::bytes_eq;

verus! {

broadcast use vstd::utf8::encode_utf8_decode_utf8;

#[derive(Debug)]
pub enum JsonValue {
    Null,
    Bool(bool),
    Number(String),
    String(String),
    Array(Vec<JsonValue>),
    Object(Vec<(String, JsonValue)>),
}

/// Mathematical model of a JSON value: texts as character sequences,
/// arrays and objects as sequences.
pub enum JsonModel {
    Null,
    Bool(bool),
    Number(Seq<char>),
    String(Seq<char>),
    Array(Seq<JsonModel>),
    Object(Seq<(Seq<char>, JsonModel)>),
}

pub open spec fn model_items(items: Seq<JsonValue>) -> Seq<JsonModel>
    decreases items, 1int,
{
    if items.len() == 0 {
        Seq::empty()
    } else {
        proof {
            assert(decreases_to!(items => items[items.len() - 1]));
        }
        model_items(items.drop_last()).push(items.last().model())
    }
}

pub open spec fn model_pairs(pairs: Seq<(String, JsonValue)>) -> Seq<(Seq<char>, JsonModel)>
    decreases pairs, 1int,
{
    if pairs.len() == 0 {
        Seq::empty()
    } else {
        proof {
            assert(decreases_to!(pairs => pairs[pairs.len() - 1]));
            assert(decreases_to!(pairs[pairs.len() - 1] => pairs[pairs.len() - 1].1));
        }
        model_pairs(pairs.drop_last()).push((pairs.last().0@, pairs.last().1.model()))
    }
}

pub proof fn lemma_model_items_ext(a: Seq<JsonValue>, b: Seq<JsonValue>)
    requires
        a.len() == b.len(),
        forall|j: int| 0 <= j < a.len() ==> (#[trigger] a[j]).model() == b[j].model(),
    ensures
        model_items(a) == model_items(b),
    decreases a.len(),
{
    if a.len() > 0 {
        lemma_model_items_ext(a.drop_last(), b.drop_last());
    }
}

pub proof fn lemma_model_pairs_ext(a: Seq<(String, JsonValue)>, b: Seq<(String, JsonValue)>)
    requires
        a.len() == b.len(),
        forall|j: int|
            0 <= j < a.len() ==> (#[trigger] a[j]).0@ == b[j].0@ && a[j].1.model() == b[j].1.model(),
    ensures
        model_pairs(a) == model_pairs(b),
    decreases a.len(),
{
    if a.len() > 0 {
        lemma_model_pairs_ext(a.drop_last(), b.drop_last());
    }
}

impl JsonValue {
    pub open spec fn model(self) -> JsonModel
        decreases self, 0int,
    {
        match self {
            JsonValue::Null => JsonModel::Null,
            JsonValue::Bool(b) => JsonModel::Bool(b),
            JsonValue::Number(n) => JsonModel::Number(n@),
            JsonValue::String(s) => JsonModel::String(s@),
            JsonValue::Array(items) => {
                proof {
                    assert(decreases_to!(items => items@));
                }
                JsonModel::Array(model_items(items@))
            },
            JsonValue::Object(pairs) => {
                proof {
                    assert(decreases_to!(pairs => pairs@));
                }
                JsonModel::Object(model_pairs(pairs@))
            },
        }
    }
}

/// Equality of two texts.
pub fn str_eq(a: &str, b: &str) -> (r: bool)
    ensures
        r == (a@ == b@),
{
    let r = bytes_eq(a.as_bytes(), b.as_bytes());
    proof {
        if vstd::utf8::encode_utf8(a@) == vstd::utf8::encode_utf8(b@) {
            assert(vstd::utf8::decode_utf8(vstd::utf8::encode_utf8(a@)) == a@);
            assert(vstd::utf8::decode_utf8(vstd::utf8::encode_utf8(b@)) == b@);
        }
    }
    r
}

/// Index of the first member whose key is `key`, or -1.
pub open spec fn first_key_index(pairs: Seq<(String, JsonValue)>, key: Seq<char>) -> int
    decreases pairs.len(),
{
    if pairs.len() == 0 {
        -1
    } else {
        let rest = first_key_index(pairs.drop_last(), key);
        if rest >= 0 {
            rest
        } else if pairs.last().0@ == key {
            pairs.len() - 1
        } else {
            -1
        }
    }
}

pub proof fn lemma_first_key_index(pairs: Seq<(String, JsonValue)>, key: Seq<char>)
    ensures
        -1 <= first_key_index(pairs, key) < pairs.len(),
        first_key_index(pairs, key) >= 0 ==> pairs[first_key_index(pairs, key)].0@ == key,
        forall|j: int|
            0 <= j < pairs.len() && (first_key_index(pairs, key) < 0 || j < first_key_index(
                pairs,
                key,
            )) ==> pairs[j].0@ != key,
    decreases pairs.len(),
{
    if pairs.len() > 0 {
        lemma_first_key_index(pairs.drop_last(), key);
        assert forall|j: int| 0 <= j < pairs.len() - 1 implies pairs.drop_last()[j] == pairs[j] by {}
    }
}

/// Value of the first member named `key`.
pub open spec fn spec_member(pairs: Seq<(String, JsonValue)>, key: Seq<char>) -> Option<JsonValue> {
    let i = first_key_index(pairs, key);
    if i >= 0 {
        Some(pairs[i].1)
    } else {
        None
    }
}

/// Lookup of `key` among object members (`serde_json::Map::get`).
pub fn member<'a>(pairs: &'a Vec<(String, JsonValue)>, key: &str) -> (r: Option<&'a JsonValue>)
    ensures
        r matches Some(v) ==> spec_member(pairs@, key@) == Some(*v),
        r is None ==> spec_member(pairs@, key@) is None,
{
    let mut i: usize = 0;
    proof {
        lemma_first_key_index(pairs@, key@);
    }
    while i < pairs.len()
        invariant
            i <= pairs@.len(),
            -1 <= first_key_index(pairs@, key@) < pairs@.len(),
            first_key_index(pairs@, key@) >= 0 ==> pairs@[first_key_index(pairs@, key@)].0@
                == key@,
            forall|j: int|
                0 <= j < pairs@.len() && (first_key_index(pairs@, key@) < 0 || j
                    < first_key_index(pairs@, key@)) ==> pairs@[j].0@ != key@,
            forall|j: int| 0 <= j < i ==> pairs@[j].0@ != key@,
        decreases pairs@.len() - i,
    {
        if str_eq(pairs[i].0.as_str(), key) {
            return Some(&pairs[i].1);
        }
        i += 1;
    }
    None
}

impl JsonValue {
    /// Deep copy of the value.
    #[verifier::loop_isolation(false)]
    pub fn deep_clone(&self) -> (r: JsonValue)
        ensures
            r.model() == self.model(),
        decreases self,
    {
        match self {
            JsonValue::Null => JsonValue::Null,
            JsonValue::Bool(b) => JsonValue::Bool(*b),
            JsonValue::Number(n) => JsonValue::Number(n.clone()),
            JsonValue::String(s) => JsonValue::String(s.clone()),
            JsonValue::Array(items) => {
                let mut out: Vec<JsonValue> = Vec::new();
                let mut i: usize = 0;
                while i < items.len()
                    invariant
                        i <= items@.len(),
                        out@.len() == i,
                        forall|j: int| 0 <= j < i ==> (#[trigger] out@[j]).model() == items@[j].model(),
                    decreases items@.len() - i,
                {
                    proof {
                        assert(*items == self->Array_0);
                        assert(decreases_to!(*self => self->Array_0));
                        vstd::std_specs::vec::axiom_vec_index_decreases(*items, i as int);
                        assert(decreases_to!(*items => items[i as int]));
                        assert(decreases_to!(*self => items[i as int]));
                    }
                    out.push(items[i].deep_clone());
                    i += 1;
                }
                proof {
                    lemma_model_items_ext(out@, items@);
                }
                JsonValue::Array(out)
            },
            JsonValue::Object(pairs) => {
                let mut out: Vec<(String, JsonValue)> = Vec::new();
                let mut i: usize = 0;
                while i < pairs.len()
                    invariant
                        i <= pairs@.len(),
                        out@.len() == i,
                        forall|j: int| 0 <= j < i ==> (#[trigger] out@[j]).0@ == pairs@[j].0@ && out@[j].1.model() == pairs@[j].1.model(),
                    decreases pairs@.len() - i,
                {
                    proof {
                        assert(*pairs == self->Object_0);
                        assert(decreases_to!(*self => self->Object_0));
                        vstd::std_specs::vec::axiom_vec_index_decreases(*pairs, i as int);
                        assert(decreases_to!(*pairs => pairs[i as int]));
                        assert(decreases_to!(*self => pairs[i as int]));
                        assert(decreases_to!(pairs[i as int] => pairs[i as int].1));
                    }
                    let key = pairs[i].0.clone();
                    let value = pairs[i].1.deep_clone();
                    out.push((key, value));
                    i += 1;
                }
                proof {
                    lemma_model_pairs_ext(out@, pairs@);
                }
                JsonValue::Object(out)
            },
        }
    }

    /// Member `key` of an object; `None` for other values.
    pub open spec fn spec_get(self, key: Seq<char>) -> Option<JsonValue> {
        match self {
            JsonValue::Object(pairs) => spec_member(pairs@, key),
            _ => None,
        }
    }

    pub fn get(&self, key: &str) -> (r: Option<&JsonValue>)
        ensures
            r matches Some(v) ==> self.spec_get(key@) == Some(*v),
            r is None ==> self.spec_get(key@) is None,
    {
        match self {
            JsonValue::Object(pairs) => member(pairs, key),
            _ => None,
        }
    }

    pub fn as_str(&self) -> (r: Option<&String>)
        ensures
            r matches Some(s) ==> *self == JsonValue::String(*s),
            r is None ==> !(self is String),
    {
        match self {
            JsonValue::String(s) => Some(s),
            _ => None,
        }
    }

    pub fn is_object(&self) -> (r: bool)
        ensures
            r == (self is Object),
    {
        match self {
            JsonValue::Object(_) => true,
            _ => false,
        }
    }

    pub fn is_array(&self) -> (r: bool)
        ensures
            r == (self is Array),
    {
        match self {
            JsonValue::Array(_) => true,
            _ => false,
        }
    }
}

/// Text of member `key` when it is a JSON string.
pub open spec fn spec_str_member(value: JsonValue, key: Seq<char>) -> Option<Seq<char>> {
    match value.spec_get(key) {
        Some(JsonValue::String(s)) => Some(s@),
        _ => None,
    }
}

pub fn str_member<'a>(value: &'a JsonValue, key: &str) -> (r: Option<&'a String>)
    ensures
        r matches Some(s) ==> spec_str_member(*value, key@) == Some(s@) && value.spec_get(key@)
            == Some(JsonValue::String(*s)),
        r is None ==> spec_str_member(*value, key@) is None,
{
    match value.get(key) {
        Some(v) => v.as_str(),
        None => None,
    }
}

/// Structural equality of two values (`serde_json::Value`'s `==`).
#[verifier::loop_isolation(false)]
pub fn json_equal(a: &JsonValue, b: &JsonValue) -> (r: bool)
    ensures
        r == (a.model() == b.model()),
    decreases a,
{
    match (a, b) {
        (JsonValue::Null, JsonValue::Null) => true,
        (JsonValue::Bool(x), JsonValue::Bool(y)) => *x == *y,
        (JsonValue::Number(x), JsonValue::Number(y)) => str_eq(x.as_str(), y.as_str()),
        (JsonValue::String(x), JsonValue::String(y)) => str_eq(x.as_str(), y.as_str()),
        (JsonValue::Array(xs), JsonValue::Array(ys)) => {
            proof {
                crate::json_order::lemma_model_items_index(xs@);
                crate::json_order::lemma_model_items_index(ys@);
            }
            if xs.len() != ys.len() {
                assert(model_items(xs@).len() != model_items(ys@).len());
                return false;
            }
            let mut i: usize = 0;
            while i < xs.len()
                invariant
                    i <= xs@.len(),
                    xs@.len() == ys@.len(),
                    forall|j: int| 0 <= j < i ==> (#[trigger] xs@[j]).model() == ys@[j].model(),
                decreases xs@.len() - i,
            {
                proof {
                    assert(*xs == a->Array_0);
                    assert(decreases_to!(*a => a->Array_0));
                    vstd::std_specs::vec::axiom_vec_index_decreases(*xs, i as int);
                    assert(decreases_to!(*xs => xs[i as int]));
                    assert(decreases_to!(*a => xs[i as int]));
                }
                if !json_equal(&xs[i], &ys[i]) {
                    assert(model_items(xs@)[i as int] != model_items(ys@)[i as int]);
                    return false;
                }
                i += 1;
            }
            proof {
                lemma_model_items_ext(xs@, ys@);
            }
            true
        },
        (JsonValue::Object(xs), JsonValue::Object(ys)) => {
            proof {
                crate::json_order::lemma_model_pairs_index(xs@);
                crate::json_order::lemma_model_pairs_index(ys@);
            }
            if xs.len() != ys.len() {
                assert(model_pairs(xs@).len() != model_pairs(ys@).len());
                return false;
            }
            let mut i: usize = 0;
            while i < xs.len()
                invariant
                    i <= xs@.len(),
                    xs@.len() == ys@.len(),
                    forall|j: int| 0 <= j < i ==> (#[trigger] xs@[j]).0@ == ys@[j].0@ && xs@[j].1.model() == ys@[j].1.model(),
                decreases xs@.len() - i,
            {
                proof {
                    assert(*xs == a->Object_0);
                    assert(decreases_to!(*a => a->Object_0));
                    vstd::std_specs::vec::axiom_vec_index_decreases(*xs, i as int);
                    assert(decreases_to!(*xs => xs[i as int]));
                    assert(decreases_to!(*a => xs[i as int]));
                    assert(decreases_to!(xs[i as int] => xs[i as int].1));
                }
                if !str_eq(xs[i].0.as_str(), ys[i].0.as_str()) || !json_equal(&xs[i].1, &ys[i].1) {
                    assert(model_pairs(xs@)[i as int] != model_pairs(ys@)[i as int]);
                    return false;
                }
                i += 1;
            }
            proof {
                lemma_model_pairs_ext(xs@, ys@);
            }
            true
        },
        _ => false,
    }
}

} // verus!
