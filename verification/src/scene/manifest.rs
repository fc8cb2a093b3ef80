//! The mobile `project.json` of a Scene: the source manifest with only
//! `/general/properties` replaced by the plan's sanitized properties and
//! every object's keys in byte order. Serializing it is left to the caller.

use vstd::prelude::*;
use crate::collections::{property_entries, property_map_get_index, property_map_len};
use crate::error::{Error, Result};
use crate::export::ExportPlan;
use crate::json::{first_key_index, lemma_first_key_index, model_pairs, spec_str_member, str_eq, JsonModel, JsonValue};
use crate::json_order::{lemma_model_pairs_index, sort_model, sort_value_keys};
use crate::mpkg::path::{archive_text_ok, normalize_archive_path};
use crate::project::kind::{kind_name, text_bytes, WallpaperKind};
use crate::project::source::SourceProject;
use crate::text::{bytes_eq_ignore_case, concat, eq_ignore_case};

verus! {

/// Index of the first member named `key` among modelled members, or -1.
pub open spec fn model_key_index(ps: Seq<(Seq<char>, JsonModel)>, key: Seq<char>) -> int
    decreases ps.len(),
{
    if ps.len() == 0 {
        -1
    } else {
        let rest = model_key_index(ps.drop_last(), key);
        if rest >= 0 {
            rest
        } else if ps.last().0 == key {
            ps.len() - 1
        } else {
            -1
        }
    }
}

pub proof fn lemma_key_index_model(pairs: Seq<(String, JsonValue)>, key: Seq<char>)
    ensures
        model_key_index(model_pairs(pairs), key) == first_key_index(pairs, key),
    decreases pairs.len(),
{
    if pairs.len() > 0 {
        lemma_key_index_model(pairs.drop_last(), key);
        lemma_model_pairs_index(pairs);
        assert(model_pairs(pairs).drop_last() =~= model_pairs(pairs.drop_last()));
        assert(model_pairs(pairs).last().0 == pairs.last().0@);
    }
}

/// Sets member `key` (the first one of that name, else a new last member).
pub open spec fn model_insert(ps: Seq<(Seq<char>, JsonModel)>, key: Seq<char>, v: JsonModel) -> Seq<(Seq<char>, JsonModel)> {
    let i = model_key_index(ps, key);
    if i >= 0 {
        ps.update(i, (key, v))
    } else {
        ps.push((key, v))
    }
}

pub open spec fn model_member(ps: Seq<(Seq<char>, JsonModel)>, key: Seq<char>) -> Option<JsonModel> {
    let i = model_key_index(ps, key);
    if i >= 0 {
        Some(ps[i].1)
    } else {
        None
    }
}

/// The root members with `/general/properties` set to `props`: a missing
/// or null `general` becomes an object holding only the properties; an
/// object `general` keeps its other members, unless its `properties` is
/// neither missing, null nor an object. `None` where it cannot be set.
pub open spec fn spec_set_general(root: Seq<(Seq<char>, JsonModel)>, props: Seq<(Seq<char>, JsonModel)>) -> Option<Seq<(Seq<char>, JsonModel)>> {
    match model_member(root, "general"@) {
        None => Some(model_insert(root, "general"@, JsonModel::Object(seq![("properties"@, JsonModel::Object(props))]))),
        Some(JsonModel::Null) => Some(model_insert(root, "general"@, JsonModel::Object(seq![("properties"@, JsonModel::Object(props))]))),
        Some(JsonModel::Object(g)) => match model_member(g, "properties"@) {
            None => Some(model_insert(root, "general"@, JsonModel::Object(model_insert(g, "properties"@, JsonModel::Object(props))))),
            Some(JsonModel::Null) => Some(model_insert(root, "general"@, JsonModel::Object(model_insert(g, "properties"@, JsonModel::Object(props))))),
            Some(JsonModel::Object(_)) => Some(model_insert(root, "general"@, JsonModel::Object(model_insert(g, "properties"@, JsonModel::Object(props))))),
            Some(_) => None,
        },
        Some(_) => None,
    }
}

pub fn find_key(pairs: &Vec<(String, JsonValue)>, key: &str) -> (r: Option<usize>)
    ensures
        match r {
            Some(i) => i as int == model_key_index(model_pairs(pairs@), key@) && i < pairs@.len(),
            None => model_key_index(model_pairs(pairs@), key@) < 0,
        },
{
    proof {
        lemma_first_key_index(pairs@, key@);
        lemma_key_index_model(pairs@, key@);
    }
    let mut i: usize = 0;
    while i < pairs.len()
        invariant
            i <= pairs@.len(),
            -1 <= first_key_index(pairs@, key@) < pairs@.len(),
            first_key_index(pairs@, key@) >= 0 ==> pairs@[first_key_index(pairs@, key@)].0@ == key@,
            forall|j: int|
                0 <= j < pairs@.len() && (first_key_index(pairs@, key@) < 0 || j < first_key_index(pairs@, key@))
                    ==> pairs@[j].0@ != key@,
            forall|j: int| 0 <= j < i ==> pairs@[j].0@ != key@,
            model_key_index(model_pairs(pairs@), key@) == first_key_index(pairs@, key@),
        decreases pairs@.len() - i,
    {
        if str_eq(pairs[i].0.as_str(), key) {
            return Some(i);
        }
        i += 1;
    }
    None
}

pub fn object_insert(pairs: &mut Vec<(String, JsonValue)>, key: String, value: JsonValue)
    ensures
        model_pairs(final(pairs)@) == model_insert(model_pairs(old(pairs)@), key@, value.model()),
{
    let ghost before = pairs@;
    proof {
        lemma_model_pairs_index(before);
    }
    match find_key(pairs, key.as_str()) {
        Some(i) => {
            pairs.set(i, (key, value));
            proof {
                lemma_model_pairs_index(pairs@);
                assert(model_pairs(pairs@) =~= model_pairs(before).update(i as int, (key@, value.model())));
            }
        },
        None => {
            let ghost k = key@;
            let ghost m = value.model();
            pairs.push((key, value));
            proof {
                lemma_model_pairs_index(pairs@);
                assert(model_pairs(pairs@) =~= model_pairs(before).push((k, m)));
            }
        },
    }
}

/// The plan's properties as object members, in the plan's order.
fn property_members_of(plan: &ExportPlan) -> (r: Vec<(String, JsonValue)>)
    ensures
        model_pairs(r@) == property_entries(plan.properties),
{
    let n = property_map_len(&plan.properties);
    let mut out: Vec<(String, JsonValue)> = Vec::new();
    let mut i: usize = 0;
    while i < n
        invariant
            i <= n,
            n == property_entries(plan.properties).len(),
            out@.len() == i,
            forall|j: int| 0 <= j < i ==> ((#[trigger] out@[j]).0@, out@[j].1.model()) == property_entries(plan.properties)[j],
        decreases n - i,
    {
        let (key, value) = property_map_get_index(&plan.properties, i);
        out.push((key.clone(), value.deep_clone()));
        i += 1;
    }
    proof {
        lemma_model_pairs_index(out@);
        assert(model_pairs(out@) =~= property_entries(plan.properties));
    }
    out
}

fn general_properties_error(what: &str) -> (e: Error)
    ensures
        e matches Error::InvalidProject { reason } && reason@ == what@ + " must be an object"@,
{
    Error::InvalidProject { reason: concat(what, " must be an object") }
}

/// Sets `/general/properties` of a root object.
pub fn set_general_properties(root: &mut Vec<(String, JsonValue)>, properties: Vec<(String, JsonValue)>) -> (r: Result<()>)
    ensures
        r is Ok <==> spec_set_general(model_pairs(old(root)@), model_pairs(properties@)) is Some,
        r is Ok ==> model_pairs(final(root)@) == spec_set_general(model_pairs(old(root)@), model_pairs(properties@))->0,
        r matches Err(e) ==> e is InvalidProject,
{
    let ghost r0 = model_pairs(root@);
    let ghost props = model_pairs(properties@);
    proof {
        lemma_model_pairs_index(root@);
    }
    let gi = find_key(root, "general");
    match gi {
        None => {
            let mut inner: Vec<(String, JsonValue)> = Vec::new();
            inner.push(("properties".to_owned(), JsonValue::Object(properties)));
            proof {
                lemma_model_pairs_index(inner@);
                assert(model_pairs(inner@) =~= seq![("properties"@, JsonModel::Object(props))]);
            }
            object_insert(root, "general".to_owned(), JsonValue::Object(inner));
            Ok(())
        },
        Some(i) => {
            let kind = match &root[i].1 {
                JsonValue::Null => 0u8,
                JsonValue::Object(_) => 1u8,
                _ => 2u8,
            };
            if kind == 2 {
                return Err(general_properties_error("project.json /general"));
            }
            if kind == 0 {
                let mut inner: Vec<(String, JsonValue)> = Vec::new();
                inner.push(("properties".to_owned(), JsonValue::Object(properties)));
                proof {
                    lemma_model_pairs_index(inner@);
                assert(model_pairs(inner@) =~= seq![("properties"@, JsonModel::Object(props))]);
                }
                object_insert(root, "general".to_owned(), JsonValue::Object(inner));
                return Ok(());
            }
            let mut general: Vec<(String, JsonValue)> = match &root[i].1 {
                JsonValue::Object(g) => {
                    let mut copy: Vec<(String, JsonValue)> = Vec::new();
                    let mut k: usize = 0;
                    while k < g.len()
                        invariant
                            k <= g@.len(),
                            copy@.len() == k,
                            forall|j: int| 0 <= j < k ==> (#[trigger] copy@[j]).0@ == g@[j].0@ && copy@[j].1.model() == g@[j].1.model(),
                        decreases g@.len() - k,
                    {
                        copy.push((g[k].0.clone(), g[k].1.deep_clone()));
                        k += 1;
                    }
                    proof {
                        crate::json::lemma_model_pairs_ext(copy@, g@);
                    }
                    copy
                },
                _ => Vec::new(),
            };
            let ghost g0 = model_pairs(general@);
            proof {
                assert(r0[i as int].1 == JsonModel::Object(g0));
                lemma_model_pairs_index(general@);
            }
            match find_key(&general, "properties") {
                Some(p) => {
                    let ok = match &general[p].1 {
                        JsonValue::Null => true,
                        JsonValue::Object(_) => true,
                        _ => false,
                    };
                    if !ok {
                        return Err(general_properties_error("project.json /general/properties"));
                    }
                },
                None => {},
            }
            object_insert(&mut general, "properties".to_owned(), JsonValue::Object(properties));
            object_insert(root, "general".to_owned(), JsonValue::Object(general));
            Ok(())
        },
    }
}

/// The declared type of a mobile Scene manifest must be absent, null or
/// `scene` in any case.
pub open spec fn mobile_type_ok(raw: JsonValue) -> bool {
    match raw.spec_get("type"@) {
        None => true,
        Some(JsonValue::Null) => true,
        Some(JsonValue::String(k)) => eq_ignore_case(text_bytes(k@), text_bytes("scene"@)),
        Some(_) => false,
    }
}

/// The Scene entry a mobile manifest is built for: the source must be a
/// Scene whose `file` is a safe archive path. The caller then checks on
/// disk that the entry is a regular file.
pub fn mobile_scene_entry(source: &SourceProject) -> (r: Result<String>)
    ensures
        r is Ok <==> (source.kind is Scene && (spec_str_member(source.manifest.spec_raw(), "file"@) matches Some(e)
            && archive_text_ok(e))),
        r matches Ok(s) ==> spec_str_member(source.manifest.spec_raw(), "file"@) == Some(s@),
        r matches Err(e) ==> e is InvalidProject,
{
    match source.kind {
        WallpaperKind::Scene => {},
        _ => {
            return Err(Error::InvalidProject {
                reason: concat("mobile scene project.json requires a Scene source, got ", source.kind.as_str()),
            });
        },
    }
    let entry = match source.manifest.entry() {
        Some(e) => e,
        None => {
            return Err(Error::InvalidProject { reason: "project.json is missing a string file field".to_owned() });
        },
    };
    match normalize_archive_path(entry.as_str()) {
        Ok(s) => Ok(s),
        Err(bad) => Err(Error::InvalidProject { reason: concat("unsafe scene entry path: ", bad.as_str()) }),
    }
}

/// The mobile `project.json` document: the source manifest (an object with
/// a Scene type) with `/general/properties` replaced by the plan's
/// properties, and every object's members in key order.
pub fn mobile_scene_project_value(source: &SourceProject, plan: &ExportPlan) -> (r: Result<JsonValue>)
    ensures
        match source.manifest.spec_raw() {
            JsonValue::Object(pairs) => {
                if !mobile_type_ok(source.manifest.spec_raw()) {
                    r matches Err(e) && e is InvalidProject
                } else {
                    match spec_set_general(model_pairs(pairs@), property_entries(plan.properties)) {
                        None => r matches Err(e) && e is InvalidProject,
                        Some(root) => r matches Ok(v) && v.model() == sort_model(JsonModel::Object(root)),
                    }
                }
            },
            _ => r matches Err(e) && e is InvalidProject,
        },
{
    let mut root: Vec<(String, JsonValue)> = match source.manifest.raw() {
        JsonValue::Object(pairs) => {
            let mut copy: Vec<(String, JsonValue)> = Vec::new();
            let mut k: usize = 0;
            while k < pairs.len()
                invariant
                    k <= pairs@.len(),
                    copy@.len() == k,
                    forall|j: int| 0 <= j < k ==> (#[trigger] copy@[j]).0@ == pairs@[j].0@ && copy@[j].1.model() == pairs@[j].1.model(),
                decreases pairs@.len() - k,
            {
                copy.push((pairs[k].0.clone(), pairs[k].1.deep_clone()));
                k += 1;
            }
            proof {
                crate::json::lemma_model_pairs_ext(copy@, pairs@);
            }
            copy
        },
        _ => {
            return Err(Error::InvalidProject { reason: "project.json root must be an object".to_owned() });
        },
    };
    match source.manifest.raw().get("type") {
        None => {},
        Some(JsonValue::Null) => {},
        Some(JsonValue::String(kind)) => {
            if !bytes_eq_ignore_case(kind.as_str().as_bytes(), "scene".as_bytes()) {
                return Err(Error::InvalidProject {
                    reason: concat("mobile scene project.json cannot change type away from scene: ", kind.as_str()),
                });
            }
        },
        Some(_) => {
            return Err(Error::InvalidProject { reason: "project.json type must be a string".to_owned() });
        },
    }
    let properties = property_members_of(plan);
    set_general_properties(&mut root, properties)?;
    let value = JsonValue::Object(root);
    Ok(sort_value_keys(&value))
}

proof fn lemma_key_index_bounds(ps: Seq<(Seq<char>, JsonModel)>, key: Seq<char>)
    ensures
        -1 <= model_key_index(ps, key) < ps.len(),
        model_key_index(ps, key) >= 0 ==> ps[model_key_index(ps, key)].0 == key,
        forall|j: int| 0 <= j < ps.len() && (model_key_index(ps, key) < 0 || j < model_key_index(ps, key)) ==> ps[j].0 != key,
    decreases ps.len(),
{
    if ps.len() > 0 {
        lemma_key_index_bounds(ps.drop_last(), key);
        assert forall|j: int| 0 <= j < ps.len() && (model_key_index(ps, key) < 0 || j < model_key_index(ps, key)) implies ps[j].0 != key by {
            if j < ps.len() - 1 {
                assert(ps.drop_last()[j] == ps[j]);
            }
        }
    }
}

/// The first member named `k` of a sequence whose first-occurrence
/// positions are known.
proof fn lemma_key_index_unique(ps: Seq<(Seq<char>, JsonModel)>, key: Seq<char>, i: int)
    requires
        0 <= i < ps.len(),
        ps[i].0 == key,
        forall|j: int| 0 <= j < i ==> ps[j].0 != key,
    ensures
        model_key_index(ps, key) == i,
    decreases ps.len(),
{
    lemma_key_index_bounds(ps, key);
    if i < ps.len() - 1 {
        assert forall|j: int| 0 <= j < i implies ps.drop_last()[j].0 != key by {
            assert(ps.drop_last()[j] == ps[j]);
        }
        assert(ps.drop_last()[i] == ps[i]);
        lemma_key_index_unique(ps.drop_last(), key, i);
    }
}

proof fn lemma_key_index_absent(ps: Seq<(Seq<char>, JsonModel)>, key: Seq<char>)
    requires
        forall|j: int| 0 <= j < ps.len() ==> ps[j].0 != key,
    ensures
        model_key_index(ps, key) == -1,
{
    lemma_key_index_bounds(ps, key);
}

/// Setting a member changes that member only.
pub proof fn lemma_model_insert_member(ps: Seq<(Seq<char>, JsonModel)>, key: Seq<char>, v: JsonModel, k: Seq<char>)
    ensures
        model_member(model_insert(ps, key, v), k) == if k == key {
            Some(v)
        } else {
            model_member(ps, k)
        },
{
    let i = model_key_index(ps, key);
    let r = model_insert(ps, key, v);
    lemma_key_index_bounds(ps, key);
    lemma_key_index_bounds(ps, k);
    lemma_key_index_bounds(r, k);
    if k == key {
        if i >= 0 {
            assert forall|j: int| 0 <= j < i implies r[j].0 != key by {
                assert(r[j] == ps[j]);
            }
            lemma_key_index_unique(r, key, i);
        } else {
            assert forall|j: int| 0 <= j < ps.len() implies r[j].0 != key by {
                assert(r[j] == ps[j]);
            }
            lemma_key_index_unique(r, key, ps.len() as int);
        }
    } else {
        let ki = model_key_index(ps, k);
        if ki >= 0 {
            assert forall|j: int| 0 <= j < ki implies r[j].0 != k by {
                if j != i {
                    assert(r[j] == ps[j]);
                }
            }
            if ki != i {
                assert(r[ki] == ps[ki]);
            }
            lemma_key_index_unique(r, k, ki);
        } else {
            assert forall|j: int| 0 <= j < r.len() implies r[j].0 != k by {
                if j < ps.len() && j != i {
                    assert(r[j] == ps[j]);
                }
            }
            lemma_key_index_absent(r, k);
        }
    }
}

/// The mobile manifest differs from the source manifest only in
/// `/general/properties`: every other root member and every other member
/// of `general` is kept, and `/general/properties` holds the given
/// properties.
pub proof fn lemma_set_general_keeps_other_members(root: Seq<(Seq<char>, JsonModel)>, props: Seq<(Seq<char>, JsonModel)>, k: Seq<char>)
    ensures
        spec_set_general(root, props) matches Some(r) ==> {
            &&& (k != "general"@ ==> model_member(r, k) == model_member(root, k))
            &&& model_member(r, "general"@) matches Some(JsonModel::Object(g)) && model_member(g, "properties"@) == Some(JsonModel::Object(props))
            &&& (k != "properties"@ ==> (model_member(root, "general"@) matches Some(JsonModel::Object(g0)) ==>
                (model_member(r, "general"@) matches Some(JsonModel::Object(g)) && model_member(g, k) == model_member(g0, k))))
        },
{
    let pv = JsonModel::Object(props);
    let fresh = JsonModel::Object(seq![("properties"@, pv)]);
    lemma_model_insert_member(root, "general"@, fresh, k);
    lemma_model_insert_member(root, "general"@, fresh, "general"@);
    lemma_model_insert_member(seq![("properties"@, pv)], "properties"@, pv, "properties"@);
    assert(model_insert(seq![("properties"@, pv)], "properties"@, pv) =~= seq![("properties"@, pv)]) by {
        lemma_key_index_unique(seq![("properties"@, pv)], "properties"@, 0);
    }
    if let Some(JsonModel::Object(g0)) = model_member(root, "general"@) {
        let g = model_insert(g0, "properties"@, pv);
        lemma_model_insert_member(root, "general"@, JsonModel::Object(g), k);
        lemma_model_insert_member(root, "general"@, JsonModel::Object(g), "general"@);
        lemma_model_insert_member(g0, "properties"@, pv, k);
        lemma_model_insert_member(g0, "properties"@, pv, "properties"@);
    }
}

} // verus!
