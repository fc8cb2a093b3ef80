//! Mobile wallpaper input for Scene documents. On Android the cursor (touch)
//! events reach the fullscreen `postprocess` layer; a desktop scene whose
//! jump lives in a character layer's `cursorDown` never jumps there. When it
//! is provably safe, the one non-empty `cursorDown` handler is moved into a
//! shared `doJump` and the postprocess `visible` script gains a relay that
//! calls it. In every other case the document is left as it is.

use vstd::prelude::*;
use vstd::utf8::{decode_utf8, encode_utf8};
use crate::codec::{spec_trim, trim_text};
use crate::json::{model_items, model_pairs, spec_member, str_eq, str_member, JsonModel, JsonValue};
use crate::json_order::{lemma_model_items_index, lemma_model_pairs_index};
use crate::scene::js_lex::JsToken;
use crate::scene::js_literal::{analysis_has_unsafe_computed_member_access, unsafe_from};
use crate::scene::manifest::{find_key, lemma_key_index_model, model_insert, model_key_index, model_member};
use crate::scene::script_rewrite::{
    chars_between, export_ok, non_handler_local_storage_is_safe, rewrite_cursor_down_script, spec_rewrite_cursor_down,
    storage_already_mobile, str_between,
};
use crate::scene::script_rules::{
    analysis_has_executable_identifier, analysis_view, analyze_script, canonical_relay, cursor_handler_is_context_free,
    function_is_canonical_shared_do_jump_relay, handler_context_free, has_identifier, spec_analysis,
};

verus! {

/// The `visible` script given to a postprocess layer that has none.
pub const POSTPROCESS_RELAY_SCRIPT: &'static str = "'use strict';\n\n/**\n * @param {Boolean} value - for property 'visible'\n * @return {Boolean} - update current property value\n */\nexport function update(value) {\n\nreturn value;\n}\n\n/**\n * @param {ICursorEvent} event\n */\nexport function cursorDown(event) {\nshared.doJump();\n}\n";

/// The relay appended to an existing postprocess `visible` script.
pub const POSTPROCESS_CURSOR_RELAY: &'static str = "/**\n * @param {ICursorEvent} event\n */\nexport function cursorDown(event) {\nshared.doJump();\n}\n";

// ---------------------------------------------------------------------------
// Model helpers.

/// Member `key` of an object (its first occurrence); `None` otherwise.
pub open spec fn mget(m: JsonModel, key: Seq<char>) -> Option<JsonModel> {
    match m {
        JsonModel::Object(ps) => model_member(ps, key),
        _ => None,
    }
}

/// The value is an object named `postprocess`.
pub open spec fn is_postprocess(m: JsonModel) -> bool {
    mget(m, "name"@) == Some(JsonModel::String("postprocess"@))
}

/// Number of postprocess objects among `items`.
pub open spec fn postprocess_count(items: Seq<JsonModel>) -> nat
    decreases items.len(),
{
    if items.len() == 0 {
        0
    } else {
        postprocess_count(items.drop_last()) + if is_postprocess(items.last()) {
            1nat
        } else {
            0nat
        }
    }
}

/// Index of the first postprocess object among `items`, or -1.
pub open spec fn first_postprocess(items: Seq<JsonModel>) -> int
    decreases items.len(),
{
    if items.len() == 0 {
        -1
    } else if first_postprocess(items.drop_last()) >= 0 {
        first_postprocess(items.drop_last())
    } else if is_postprocess(items.last()) {
        items.len() - 1
    } else {
        -1
    }
}

/// Where the relay goes: the root's `objects` member index, the index of
/// the only postprocess object in it, and the index of that object's
/// `visible` member, which must be an object.
pub open spec fn relay_target(root: JsonModel) -> Option<(int, int, int)> {
    match root {
        JsonModel::Object(rps) => match mget(root, "objects"@) {
            Some(JsonModel::Array(items)) => if postprocess_count(items) != 1 {
                None
            } else {
                let p = first_postprocess(items);
                match mget(items[p], "visible"@) {
                    Some(JsonModel::Object(_)) => match items[p] {
                        JsonModel::Object(pps) => Some((model_key_index(rps, "objects"@), p, model_key_index(pps, "visible"@))),
                        _ => None,
                    },
                    _ => None,
                }
            },
            _ => None,
        },
        _ => None,
    }
}

/// The `visible` object of the relay target.
pub open spec fn relay_visible(root: JsonModel) -> JsonModel {
    let items = mget(root, "objects"@)->0->Array_0;
    mget(items[first_postprocess(items)], "visible"@)->0
}

pub proof fn lemma_member_model(pairs: Seq<(String, JsonValue)>, key: Seq<char>)
    ensures
        model_key_index(model_pairs(pairs), key) == crate::json::first_key_index(pairs, key),
        -1 <= model_key_index(model_pairs(pairs), key) < pairs.len(),
        model_key_index(model_pairs(pairs), key) >= 0 ==> model_member(model_pairs(pairs), key) == Some(
            pairs[model_key_index(model_pairs(pairs), key)].1.model(),
        ),
        spec_member(pairs, key) matches Some(v) ==> model_member(model_pairs(pairs), key) == Some(v.model()),
        spec_member(pairs, key) is None ==> model_member(model_pairs(pairs), key) is None,
{
    lemma_key_index_model(pairs, key);
    lemma_model_pairs_index(pairs);
    crate::json::lemma_first_key_index(pairs, key);
}

pub proof fn lemma_get_model(v: JsonValue, key: Seq<char>)
    ensures
        v.spec_get(key) matches Some(x) ==> mget(v.model(), key) == Some(x.model()),
        v.spec_get(key) is None ==> mget(v.model(), key) is None,
{
    if let JsonValue::Object(pairs) = v {
        lemma_member_model(pairs@, key);
    }
}

pub proof fn lemma_first_postprocess(items: Seq<JsonModel>)
    ensures
        postprocess_count(items) >= 1 ==> 0 <= first_postprocess(items) < items.len() && is_postprocess(
            items[first_postprocess(items)],
        ),
        postprocess_count(items) == 0 ==> first_postprocess(items) == -1,
    decreases items.len(),
{
    if items.len() > 0 {
        lemma_first_postprocess(items.drop_last());
    }
}

/// The value is an object whose `name` is the text `postprocess`.
pub fn is_postprocess_object(v: &JsonValue) -> (r: bool)
    ensures
        r == is_postprocess(v.model()),
{
    proof {
        lemma_get_model(*v, "name"@);
    }
    match str_member(v, "name") {
        Some(name) => str_eq(name.as_str(), "postprocess"),
        None => {
            proof {
                if let Some(x) = v.spec_get("name"@) {
                    assert(!(x is String));
                }
            }
            false
        },
    }
}

/// The relay target's three indices.
pub fn selected_postprocess_relay_target(root: &JsonValue) -> (r: Option<(usize, usize, usize)>)
    ensures
        match r {
            Some((a, p, c)) => relay_target(root.model()) == Some((a as int, p as int, c as int)),
            None => relay_target(root.model()) is None,
        },
{
    let rps = match root {
        JsonValue::Object(ps) => ps,
        _ => {
            return None;
        },
    };
    proof {
        lemma_member_model(rps@, "objects"@);
        lemma_model_pairs_index(rps@);
    }
    let oi = match find_key(rps, "objects") {
        Some(i) => i,
        None => {
            return None;
        },
    };
    let items = match &rps[oi].1 {
        JsonValue::Array(items) => items,
        _ => {
            return None;
        },
    };
    proof {
        lemma_model_items_index(items@);
        assert(mget(root.model(), "objects"@) == Some(JsonModel::Array(model_items(items@))));
    }
    let ghost ms = model_items(items@);
    let mut count: usize = 0;
    let mut first: usize = 0;
    let mut i: usize = 0;
    while i < items.len()
        invariant
            i <= items@.len(),
            ms == model_items(items@),
            ms.len() == items@.len(),
            forall|j: int| 0 <= j < items@.len() ==> #[trigger] ms[j] == items@[j].model(),
            count as int == postprocess_count(ms.subrange(0, i as int)),
            count <= i,
            count > 0 ==> first as int == first_postprocess(ms.subrange(0, i as int)) && first < i,
            count == 0 ==> first_postprocess(ms.subrange(0, i as int)) == -1,
        decreases items@.len() - i,
    {
        proof {
            assert(ms.subrange(0, i + 1).drop_last() =~= ms.subrange(0, i as int));
            assert(ms.subrange(0, i + 1).last() == items@[i as int].model());
        }
        if is_postprocess_object(&items[i]) {
            if count == 0 {
                first = i;
            }
            count += 1;
        }
        i += 1;
    }
    proof {
        assert(ms.subrange(0, items@.len() as int) =~= ms);
    }
    if count != 1 {
        return None;
    }
    let pps = match &items[first] {
        JsonValue::Object(ps) => ps,
        _ => {
            proof {
                lemma_get_model(items@[first as int], "visible"@);
            }
            return None;
        },
    };
    proof {
        lemma_member_model(pps@, "visible"@);
        lemma_model_pairs_index(pps@);
    }
    let vi = match find_key(pps, "visible") {
        Some(k) => k,
        None => {
            return None;
        },
    };
    match &pps[vi].1 {
        JsonValue::Object(_) => Some((oi, first, vi)),
        _ => None,
    }
}

// ---------------------------------------------------------------------------
// Source handler audit.

/// What a source script contributes to the audit: `None` where the rewrite
/// must be refused, else (cursor declarations, non-empty handlers).
pub open spec fn script_verdict(s: Seq<char>) -> Option<(int, int)> {
    let b = encode_utf8(s);
    match spec_analysis(b) {
        None => None,
        Some((ts, fs, owner)) => if has_identifier(b, ts, "eval"@) || owner || fs.len() > 1 || unsafe_from(
            b,
            ts,
            0,
            Seq::empty(),
        ) || (fs.len() == 0 && !storage_already_mobile(s, ts)) {
            None
        } else if fs.len() == 1 {
            if has_identifier(b, ts, "shared"@) || has_identifier(b, ts, "doJump"@) || !handler_context_free(
                b,
                ts,
                fs[0],
            ) {
                None
            } else {
                Some(
                    (
                        1,
                        if spec_trim(chars_between(s, fs[0].body_start as int, fs[0].body_end as int)).len() > 0 {
                            1
                        } else {
                            0
                        },
                    ),
                )
            }
        } else {
            Some((0, 0))
        },
    }
}

pub open spec fn add_counts(a: Option<(int, int)>, b: Option<(int, int)>) -> Option<(int, int)> {
    match (a, b) {
        (Some(x), Some(y)) => Some((x.0 + y.0, x.1 + y.1)),
        _ => None,
    }
}

/// The rest of the path below child `j`, if the path goes through it.
pub open spec fn step(path: Option<Seq<int>>, j: int) -> Option<Seq<int>> {
    match path {
        Some(p) => if p.len() > 0 && p[0] == j {
            Some(p.drop_first())
        } else {
            None
        },
        None => None,
    }
}

/// Audit of every `script` member below `m` except the one of the object
/// at the end of `path` (the relay target): `None` where one refuses,
/// else the summed counts.
pub open spec fn audit(m: JsonModel, path: Option<Seq<int>>) -> Option<(int, int)>
    decreases m, 2int,
{
    match m {
        JsonModel::Object(ps) => {
            proof {
                assert(decreases_to!(m => ps));
            }
            let here = if path != Some(Seq::<int>::empty()) {
                match model_member(ps, "script"@) {
                    Some(JsonModel::String(s)) => script_verdict(s),
                    _ => Some((0, 0)),
                }
            } else {
                Some((0, 0))
            };
            add_counts(here, audit_pairs(ps, path))
        },
        JsonModel::Array(items) => {
            proof {
                assert(decreases_to!(m => items));
            }
            audit_items(items, path)
        },
        _ => Some((0, 0)),
    }
}

pub open spec fn audit_pairs(ps: Seq<(Seq<char>, JsonModel)>, path: Option<Seq<int>>) -> Option<(int, int)>
    decreases ps, 1int,
{
    if ps.len() == 0 {
        Some((0, 0))
    } else {
        proof {
            assert(decreases_to!(ps => ps[ps.len() - 1]));
            assert(decreases_to!(ps[ps.len() - 1] => ps[ps.len() - 1].1));
        }
        add_counts(audit_pairs(ps.drop_last(), path), audit(ps.last().1, step(path, ps.len() - 1)))
    }
}

pub open spec fn audit_items(items: Seq<JsonModel>, path: Option<Seq<int>>) -> Option<(int, int)>
    decreases items, 1int,
{
    if items.len() == 0 {
        Some((0, 0))
    } else {
        proof {
            assert(decreases_to!(items => items[items.len() - 1]));
        }
        add_counts(audit_items(items.drop_last(), path), audit(items.last(), step(path, items.len() - 1)))
    }
}

/// Counts kept up to 2 (only "exactly one" matters to the caller).
pub open spec fn capped(a: Option<(int, int)>) -> Option<(int, int)> {
    match a {
        Some((x, y)) => Some((if x > 2 { 2 } else { x }, if y > 2 { 2 } else { y })),
        None => None,
    }
}

fn add_capped(a: (usize, usize), b: (usize, usize)) -> (r: (usize, usize))
    requires
        a.0 <= 2,
        a.1 <= 2,
        b.0 <= 2,
        b.1 <= 2,
    ensures
        r.0 <= 2,
        r.1 <= 2,
        forall|x: (int, int), y: (int, int)|
            capped(Some(x)) == Some((a.0 as int, a.1 as int)) && capped(Some(y)) == Some((b.0 as int, b.1 as int)) && x.0 >= 0
                && x.1 >= 0 && y.0 >= 0 && y.1 >= 0 ==> #[trigger] capped(add_counts(Some(x), Some(y))) == Some(
                (r.0 as int, r.1 as int),
            ),
{
    let c = if a.0 + b.0 > 2 { 2 } else { a.0 + b.0 };
    let e = if a.1 + b.1 > 2 { 2 } else { a.1 + b.1 };
    (c, e)
}

/// Exec path: `on` tells whether the path is still followed; `rest` is
/// what remains of it.
pub open spec fn path_of(on: bool, rest: Seq<usize>) -> Option<Seq<int>> {
    if on {
        Some(rest.map_values(|x: usize| x as int))
    } else {
        None
    }
}

fn step_path(on: bool, rest: &[usize], j: usize) -> (r: (bool, &[usize]))
    ensures
        path_of(r.0, r.1@) == step(path_of(on, rest@), j as int),
{
    if on && rest.len() > 0 && rest[0] == j {
        let tail = &rest[1..rest.len()];
        proof {
            assert(tail@.map_values(|x: usize| x as int) =~= rest@.map_values(|x: usize| x as int).drop_first());
        }
        (true, tail)
    } else {
        (false, rest)
    }
}

/// Audit of one script (see `script_verdict`).
pub fn audit_script(script: &str) -> (r: Option<(usize, usize)>)
    ensures
        match r {
            Some((c, e)) => script_verdict(script@) == Some((c as int, e as int)) && c <= 1 && e <= 1,
            None => script_verdict(script@) is None,
        },
{
    let b = script.as_bytes();
    let analysis = match analyze_script(b) {
        Some(a) => a,
        None => {
            return None;
        },
    };
    let ts = analysis.tokens.as_slice();
    if analysis_has_executable_identifier(b, ts, "eval") || analysis.has_shared_do_jump_owner
        || analysis.cursor_down_functions.len() > 1 || analysis_has_unsafe_computed_member_access(b, ts) || (
    analysis.cursor_down_functions.len() == 0 && !non_handler_local_storage_is_safe(script, ts)) {
        return None;
    }
    if analysis.cursor_down_functions.len() == 0 {
        return Some((0, 0));
    }
    let f = analysis.cursor_down_functions[0];
    if analysis_has_executable_identifier(b, ts, "shared") || analysis_has_executable_identifier(b, ts, "doJump")
        || !cursor_handler_is_context_free(b, ts, &f) {
        return None;
    }
    let _blen = b.len();
    proof {
        crate::scene::js_lex::lemma_lex_wf(b@, 0);
        crate::scene::script_rewrite::lemma_exports_ok(b@, ts@, 0, text_bytes_cursor_down());
        assert(export_ok(b@, analysis.cursor_down_functions@[0]));
    }
    let raw_body = str_between(script, f.body_start, f.body_end);
    proof {
        crate::scene::script_rewrite::lemma_chars_between(script@, f.body_start as int, f.body_end as int);
    }
    let body = trim_text(raw_body);
    if body.is_empty() {
        Some((1, 0))
    } else {
        Some((1, 1))
    }
}

pub open spec fn text_bytes_cursor_down() -> Seq<u8> {
    crate::project::kind::text_bytes("cursorDown"@)
}

/// Audit of every script below `v` except the relay target's (see `audit`).
#[verifier::loop_isolation(false)]
pub fn audit_value(v: &JsonValue, on: bool, rest: &[usize]) -> (r: Option<(usize, usize)>)
    ensures
        match r {
            Some((c, e)) => capped(audit(v.model(), path_of(on, rest@))) == Some((c as int, e as int)) && c <= 2 && e <= 2,
            None => audit(v.model(), path_of(on, rest@)) is None,
        },
    decreases v,
{
    proof {
        lemma_audit_nonneg(v.model(), path_of(on, rest@));
    }
    match v {
        JsonValue::Object(pairs) => {
            proof {
                lemma_member_model(pairs@, "script"@);
                lemma_model_pairs_index(pairs@);
            }
            let at_target = on && rest.len() == 0;
            proof {
                if on && rest@.len() == 0 {
                    assert(rest@.map_values(|x: usize| x as int) =~= Seq::<int>::empty());
                }
            }
            let mut acc: (usize, usize) = (0, 0);
            if !at_target {
                match str_member(v, "script") {
                    Some(s) => match audit_script(s.as_str()) {
                        Some(here) => {
                            acc = here;
                        },
                        None => {
                            return None;
                        },
                    },
                    None => {
                        proof {
                            if let Some(x) = v.spec_get("script"@) {
                                assert(!(x is String));
                            }
                        }
                    },
                }
            }
            let ghost ps = model_pairs(pairs@);
            let ghost here_spec = if path_of(on, rest@) != Some(Seq::<int>::empty()) {
                match model_member(ps, "script"@) {
                    Some(JsonModel::String(s)) => crate::scene::mobile_input::script_verdict(s),
                    _ => Some((0int, 0int)),
                }
            } else {
                Some((0int, 0int))
            };
            proof {
                if let Some(JsonModel::String(s)) = model_member(ps, "script"@) {
                    lemma_verdict_nonneg(s);
                }
            }
            assert(capped(here_spec) == Some((acc.0 as int, acc.1 as int)));
            assert(add_counts(here_spec, Some((0int, 0int))) == here_spec);
            assert(ps.subrange(0, 0) =~= Seq::<(Seq<char>, JsonModel)>::empty());
            let mut i: usize = 0;
            while i < pairs.len()
                invariant
                    i <= pairs@.len(),
                    ps == model_pairs(pairs@),
                    ps.len() == pairs@.len(),
                    forall|j: int| 0 <= j < pairs@.len() ==> #[trigger] ps[j] == (pairs@[j].0@, pairs@[j].1.model()),
                    acc.0 <= 2,
                    acc.1 <= 2,
                    here_spec matches Some((hx, hy)) && hx >= 0 && hy >= 0,
                    audit_pairs(ps.subrange(0, i as int), path_of(on, rest@)) is Some,
                    capped(add_counts(here_spec, audit_pairs(ps.subrange(0, i as int), path_of(on, rest@)))) == Some(
                        (acc.0 as int, acc.1 as int),
                    ),
                decreases pairs@.len() - i,
            {
                proof {
                    assert(*pairs == v->Object_0);
                    assert(decreases_to!(*v => v->Object_0));
                    vstd::std_specs::vec::axiom_vec_index_decreases(*pairs, i as int);
                    assert(decreases_to!(*pairs => pairs[i as int]));
                    assert(decreases_to!(pairs[i as int] => pairs[i as int].1));
                }
                let (son, srest) = step_path(on, rest, i);
                let child = match audit_value(&pairs[i].1, son, srest) {
                    Some(c) => c,
                    None => {
                        proof {
                            lemma_audit_pairs_none(ps, path_of(on, rest@), i as int);
                        }
                        return None;
                    },
                };
                proof {
                    let sub = ps.subrange(0, i + 1);
                    assert(sub.drop_last() =~= ps.subrange(0, i as int));
                    assert(sub.last() == ps[i as int]);
                    lemma_audit_nonneg(pairs@[i as int].1.model(), step(path_of(on, rest@), i as int));
                    lemma_audit_pairs_nonneg(ps.subrange(0, i as int), path_of(on, rest@));
                    lemma_add_counts_assoc(here_spec, audit_pairs(ps.subrange(0, i as int), path_of(on, rest@)), audit(pairs@[i as int].1.model(), step(path_of(on, rest@), i as int)));
                }
                let next = add_capped(acc, child);
                proof {
                    lemma_audit_pairs_nonneg(ps.subrange(0, i as int), path_of(on, rest@));
                    let x = add_counts(here_spec, audit_pairs(ps.subrange(0, i as int), path_of(on, rest@)))->0;
                    let y = audit(pairs@[i as int].1.model(), step(path_of(on, rest@), i as int))->0;
                    assert(capped(add_counts(Some(x), Some(y))) == Some((next.0 as int, next.1 as int)));
                }
                acc = next;
                i += 1;
            }
            proof {
                assert(ps.subrange(0, pairs@.len() as int) =~= ps);
            }
            Some(acc)
        },
        JsonValue::Array(items) => {
            proof {
                lemma_model_items_index(items@);
            }
            let ghost ms = model_items(items@);
            let mut acc: (usize, usize) = (0, 0);
            let mut i: usize = 0;
            assert(ms.subrange(0, 0) =~= Seq::<JsonModel>::empty());
            while i < items.len()
                invariant
                    i <= items@.len(),
                    ms == model_items(items@),
                    ms.len() == items@.len(),
                    forall|j: int| 0 <= j < items@.len() ==> #[trigger] ms[j] == items@[j].model(),
                    acc.0 <= 2,
                    acc.1 <= 2,
                    audit_items(ms.subrange(0, i as int), path_of(on, rest@)) is Some,
                    capped(audit_items(ms.subrange(0, i as int), path_of(on, rest@))) == Some((acc.0 as int, acc.1 as int)),
                decreases items@.len() - i,
            {
                proof {
                    assert(*items == v->Array_0);
                    assert(decreases_to!(*v => v->Array_0));
                    vstd::std_specs::vec::axiom_vec_index_decreases(*items, i as int);
                    assert(decreases_to!(*items => items[i as int]));
                }
                let (son, srest) = step_path(on, rest, i);
                let child = match audit_value(&items[i], son, srest) {
                    Some(c) => c,
                    None => {
                        proof {
                            lemma_audit_items_none(ms, path_of(on, rest@), i as int);
                        }
                        return None;
                    },
                };
                proof {
                    let sub = ms.subrange(0, i + 1);
                    assert(sub.drop_last() =~= ms.subrange(0, i as int));
                    assert(sub.last() == ms[i as int]);
                    lemma_audit_nonneg(items@[i as int].model(), step(path_of(on, rest@), i as int));
                    lemma_audit_items_nonneg(ms.subrange(0, i as int), path_of(on, rest@));
                }
                let next = add_capped(acc, child);
                proof {
                    let x = audit_items(ms.subrange(0, i as int), path_of(on, rest@))->0;
                    let y = audit(items@[i as int].model(), step(path_of(on, rest@), i as int))->0;
                    assert(capped(add_counts(Some(x), Some(y))) == Some((next.0 as int, next.1 as int)));
                }
                acc = next;
                i += 1;
            }
            proof {
                assert(ms.subrange(0, items@.len() as int) =~= ms);
            }
            Some(acc)
        },
        _ => Some((0, 0)),
    }
}

proof fn lemma_add_counts_assoc(a: Option<(int, int)>, b: Option<(int, int)>, c: Option<(int, int)>)
    ensures
        add_counts(a, add_counts(b, c)) == add_counts(add_counts(a, b), c),
{
}

proof fn lemma_verdict_nonneg(s: Seq<char>)
    ensures
        script_verdict(s) matches Some((x, y)) ==> x >= 0 && y >= 0,
{
}

pub proof fn lemma_audit_nonneg(m: JsonModel, path: Option<Seq<int>>)
    ensures
        audit(m, path) matches Some((x, y)) ==> x >= 0 && y >= 0,
    decreases m, 2int,
{
    match m {
        JsonModel::Object(ps) => {
            assert(decreases_to!(m => ps));
            lemma_audit_pairs_nonneg(ps, path);
            if let Some(JsonModel::String(s)) = model_member(ps, "script"@) {
                lemma_verdict_nonneg(s);
            }
        },
        JsonModel::Array(items) => {
            assert(decreases_to!(m => items));
            lemma_audit_items_nonneg(items, path);
        },
        _ => {},
    }
}

pub proof fn lemma_audit_pairs_nonneg(ps: Seq<(Seq<char>, JsonModel)>, path: Option<Seq<int>>)
    ensures
        audit_pairs(ps, path) matches Some((x, y)) ==> x >= 0 && y >= 0,
    decreases ps, 1int,
{
    if ps.len() > 0 {
        assert(decreases_to!(ps => ps[ps.len() - 1]));
        assert(decreases_to!(ps[ps.len() - 1] => ps[ps.len() - 1].1));
        lemma_audit_pairs_nonneg(ps.drop_last(), path);
        lemma_audit_nonneg(ps.last().1, step(path, ps.len() - 1));
    }
}

pub proof fn lemma_audit_items_nonneg(items: Seq<JsonModel>, path: Option<Seq<int>>)
    ensures
        audit_items(items, path) matches Some((x, y)) ==> x >= 0 && y >= 0,
    decreases items, 1int,
{
    if items.len() > 0 {
        assert(decreases_to!(items => items[items.len() - 1]));
        lemma_audit_items_nonneg(items.drop_last(), path);
        lemma_audit_nonneg(items.last(), step(path, items.len() - 1));
    }
}

/// A refusal by child `i` is a refusal of the whole member list.
proof fn lemma_audit_pairs_none(ps: Seq<(Seq<char>, JsonModel)>, path: Option<Seq<int>>, i: int)
    requires
        0 <= i < ps.len(),
        audit(ps[i].1, step(path, i)) is None,
    ensures
        audit_pairs(ps, path) is None,
    decreases ps.len(),
{
    if i < ps.len() - 1 {
        assert(ps.drop_last()[i] == ps[i]);
        lemma_audit_pairs_none(ps.drop_last(), path, i);
    }
}

proof fn lemma_audit_items_none(items: Seq<JsonModel>, path: Option<Seq<int>>, i: int)
    requires
        0 <= i < items.len(),
        audit(items[i], step(path, i)) is None,
    ensures
        audit_items(items, path) is None,
    decreases items.len(),
{
    if i < items.len() - 1 {
        assert(items.drop_last()[i] == items[i]);
        lemma_audit_items_none(items.drop_last(), path, i);
    }
}

// ---------------------------------------------------------------------------
// The relay target's own script.

/// The postprocess `visible` script may receive (or already is) the relay:
/// it scans, uses no `eval`, does not own `shared.doJump`, reads no
/// computed member it cannot name, its storage uses are in mobile form, and
/// it either has no `cursorDown` and does not name `shared` or `doJump`, or
/// its one `cursorDown` is the canonical relay.
pub open spec fn relay_script_safe(s: Seq<char>) -> bool {
    let b = encode_utf8(s);
    match spec_analysis(b) {
        None => false,
        Some((ts, fs, owner)) => !(has_identifier(b, ts, "eval"@) || owner || unsafe_from(b, ts, 0, Seq::empty())
            || !storage_already_mobile(s, ts)) && if fs.len() == 0 {
            !has_identifier(b, ts, "shared"@) && !has_identifier(b, ts, "doJump"@)
        } else if fs.len() == 1 {
            canonical_relay(b, ts, fs[0])
        } else {
            false
        },
    }
}

/// There is a relay target and its script (if any) is a safe place for the
/// relay.
pub open spec fn relay_safe(root: JsonModel) -> bool {
    match relay_target(root) {
        None => false,
        Some(_) => match mget(relay_visible(root), "script"@) {
            None => true,
            Some(JsonModel::String(s)) => relay_script_safe(s),
            Some(_) => false,
        },
    }
}

/// The members of the relay target's `visible` object.
fn relay_visible_pairs(root: &JsonValue, t: (usize, usize, usize)) -> (r: &Vec<(String, JsonValue)>)
    requires
        relay_target(root.model()) == Some((t.0 as int, t.1 as int, t.2 as int)),
    ensures
        JsonModel::Object(model_pairs(r@)) == relay_visible(root.model()),
{
    let (oi, p, vi) = t;
    let rps = match root {
        JsonValue::Object(ps) => ps,
        _ => unreached(),
    };
    proof {
        lemma_member_model(rps@, "objects"@);
        lemma_model_pairs_index(rps@);
    }
    let items = match &rps[oi].1 {
        JsonValue::Array(items) => items,
        _ => unreached(),
    };
    proof {
        lemma_model_items_index(items@);
        lemma_first_postprocess(model_items(items@));
    }
    let pps = match &items[p] {
        JsonValue::Object(ps) => ps,
        _ => unreached(),
    };
    proof {
        lemma_member_model(pps@, "visible"@);
        lemma_model_pairs_index(pps@);
    }
    match &pps[vi].1 {
        JsonValue::Object(vps) => vps,
        _ => unreached(),
    }
}

fn relay_script_is_safe(script: &str) -> (r: bool)
    ensures
        r == relay_script_safe(script@),
{
    let b = script.as_bytes();
    let analysis = match analyze_script(b) {
        Some(a) => a,
        None => {
            return false;
        },
    };
    let ts = analysis.tokens.as_slice();
    if analysis_has_executable_identifier(b, ts, "eval") || analysis.has_shared_do_jump_owner
        || analysis_has_unsafe_computed_member_access(b, ts) || !non_handler_local_storage_is_safe(script, ts) {
        return false;
    }
    let n = analysis.cursor_down_functions.len();
    if n == 0 {
        !analysis_has_executable_identifier(b, ts, "shared") && !analysis_has_executable_identifier(b, ts, "doJump")
    } else if n == 1 {
        function_is_canonical_shared_do_jump_relay(b, ts, &analysis.cursor_down_functions[0])
    } else {
        false
    }
}

/// The postprocess relay target exists and its script is safe (see
/// `relay_safe`).
pub fn postprocess_relay_is_safe(root: &JsonValue) -> (r: bool)
    ensures
        r == relay_safe(root.model()),
{
    let t = match selected_postprocess_relay_target(root) {
        Some(t) => t,
        None => {
            return false;
        },
    };
    let vps = relay_visible_pairs(root, t);
    proof {
        lemma_member_model(vps@, "script"@);
    }
    match find_key(vps, "script") {
        None => true,
        Some(k) => {
            proof {
                lemma_model_pairs_index(vps@);
            }
            match &vps[k].1 {
                JsonValue::String(s) => relay_script_is_safe(s.as_str()),
                _ => false,
            }
        },
    }
}

/// The source handlers and the relay target together allow the rewrite:
/// exactly one audited `cursorDown` declaration, non-empty, and a safe
/// relay target.
pub open spec fn rewrite_is_safe(root: JsonModel) -> bool {
    match relay_target(root) {
        None => false,
        Some((a, p, c)) => audit(root, Some(seq![a, p, c])) == Some((1int, 1int)) && relay_safe(root),
    }
}

pub fn mobile_input_rewrite_is_safe(root: &JsonValue) -> (r: bool)
    ensures
        r == rewrite_is_safe(root.model()),
{
    let (a, p, c) = match selected_postprocess_relay_target(root) {
        Some(t) => t,
        None => {
            return false;
        },
    };
    let path = [a, p, c];
    proof {
        assert(path@.map_values(|x: usize| x as int) =~= seq![a as int, p as int, c as int]);
    }
    match audit_value(root, true, &path) {
        Some((cursor_declarations, eligible_handlers)) => {
            cursor_declarations == 1 && eligible_handlers == 1 && postprocess_relay_is_safe(root)
        },
        None => false,
    }
}

// ---------------------------------------------------------------------------
// Rewriting the source handler.

/// The replacement text of the `script` member at index `si`, if that
/// member is a string whose handler can be moved.
pub open spec fn script_replacement(ps: Seq<(Seq<char>, JsonModel)>, si: int) -> Option<Seq<char>> {
    if 0 <= si < ps.len() {
        match ps[si].1 {
            JsonModel::String(s) => match spec_rewrite_cursor_down(s) {
                Some(bytes) => Some(decode_utf8(bytes)),
                None => None,
            },
            _ => None,
        }
    } else {
        None
    }
}

/// Every non-postprocess object's `script` handler moved (see
/// `spec_rewrite_cursor_down`), with the number of scripts rewritten.
/// Objects named `postprocess` are left whole.
pub open spec fn rewrite_m(m: JsonModel) -> (JsonModel, int)
    decreases m, 2int,
{
    match m {
        JsonModel::Object(ps) => if is_postprocess(m) {
            (m, 0)
        } else {
            proof {
                assert(decreases_to!(m => ps));
            }
            let si = model_key_index(ps, "script"@);
            let rep = script_replacement(ps, si);
            let (ps2, c) = rewrite_pairs(ps, si, rep);
            (JsonModel::Object(ps2), (if rep is Some { 1int } else { 0int }) + c)
        },
        JsonModel::Array(items) => {
            proof {
                assert(decreases_to!(m => items));
            }
            let (items2, c) = rewrite_items(items);
            (JsonModel::Array(items2), c)
        },
        _ => (m, 0),
    }
}

pub open spec fn rewrite_pairs(ps: Seq<(Seq<char>, JsonModel)>, si: int, rep: Option<Seq<char>>) -> (Seq<(Seq<char>, JsonModel)>, int)
    decreases ps, 1int,
{
    if ps.len() == 0 {
        (Seq::empty(), 0)
    } else {
        proof {
            assert(decreases_to!(ps => ps[ps.len() - 1]));
            assert(decreases_to!(ps[ps.len() - 1] => ps[ps.len() - 1].1));
        }
        let (init, c) = rewrite_pairs(ps.drop_last(), si, rep);
        let (v, cv) = if ps.len() - 1 == si && rep is Some {
            (JsonModel::String(rep->0), 0int)
        } else {
            rewrite_m(ps.last().1)
        };
        (init.push((ps.last().0, v)), c + cv)
    }
}

pub open spec fn rewrite_items(items: Seq<JsonModel>) -> (Seq<JsonModel>, int)
    decreases items, 1int,
{
    if items.len() == 0 {
        (Seq::empty(), 0)
    } else {
        proof {
            assert(decreases_to!(items => items[items.len() - 1]));
        }
        let (init, c) = rewrite_items(items.drop_last());
        let (v, cv) = rewrite_m(items.last());
        (init.push(v), c + cv)
    }
}

pub open spec fn cap2(x: int) -> int {
    if x > 2 {
        2
    } else {
        x
    }
}

pub proof fn lemma_rewrite_nonneg(m: JsonModel)
    ensures
        rewrite_m(m).1 >= 0,
    decreases m, 2int,
{
    match m {
        JsonModel::Object(ps) => {
            if !is_postprocess(m) {
                assert(decreases_to!(m => ps));
                let si = model_key_index(ps, "script"@);
                lemma_rewrite_pairs_nonneg(ps, si, script_replacement(ps, si));
            }
        },
        JsonModel::Array(items) => {
            assert(decreases_to!(m => items));
            lemma_rewrite_items_nonneg(items);
        },
        _ => {},
    }
}

pub proof fn lemma_rewrite_pairs_nonneg(ps: Seq<(Seq<char>, JsonModel)>, si: int, rep: Option<Seq<char>>)
    ensures
        rewrite_pairs(ps, si, rep).1 >= 0,
        rewrite_pairs(ps, si, rep).0.len() == ps.len(),
    decreases ps, 1int,
{
    if ps.len() > 0 {
        assert(decreases_to!(ps => ps[ps.len() - 1]));
        assert(decreases_to!(ps[ps.len() - 1] => ps[ps.len() - 1].1));
        lemma_rewrite_pairs_nonneg(ps.drop_last(), si, rep);
        lemma_rewrite_nonneg(ps.last().1);
    }
}

pub proof fn lemma_rewrite_items_nonneg(items: Seq<JsonModel>)
    ensures
        rewrite_items(items).1 >= 0,
        rewrite_items(items).0.len() == items.len(),
    decreases items, 1int,
{
    if items.len() > 0 {
        assert(decreases_to!(items => items[items.len() - 1]));
        lemma_rewrite_items_nonneg(items.drop_last());
        lemma_rewrite_nonneg(items.last());
    }
}

/// A copy of `v` with every source handler moved, and the number of
/// scripts rewritten (counted up to 2).
#[verifier::loop_isolation(false)]
#[verifier::rlimit(50)]
#[verifier::spinoff_prover]
pub fn rewrite_scripts_in_value(v: &JsonValue) -> (r: (JsonValue, usize))
    ensures
        r.0.model() == rewrite_m(v.model()).0,
        r.1 as int == cap2(rewrite_m(v.model()).1),
    decreases v,
{
    proof {
        lemma_rewrite_nonneg(v.model());
    }
    match v {
        JsonValue::Object(pairs) => {
            if is_postprocess_object(v) {
                return (v.deep_clone(), 0);
            }
            let ghost ps = model_pairs(pairs@);
            proof {
                lemma_member_model(pairs@, "script"@);
                lemma_model_pairs_index(pairs@);
            }
            let si = find_key(pairs, "script");
            let rep: Option<String> = match si {
                Some(k) => match &pairs[k].1 {
                    JsonValue::String(s) => rewrite_cursor_down_script(s.as_str()),
                    _ => None,
                },
                None => None,
            };
            let ghost sis: int = match si {
                Some(k) => k as int,
                None => -1,
            };
            let ghost reps: Option<Seq<char>> = match &rep {
                Some(t) => Some(t@),
                None => None,
            };
            proof {
                assert(sis == model_key_index(ps, "script"@));
                if let Some(t) = &rep {
                    vstd::utf8::encode_utf8_decode_utf8(t@);
                }
                assert(reps == script_replacement(ps, sis));
            }
            let mut out: Vec<(String, JsonValue)> = Vec::new();
            let mut count: usize = if rep.is_some() { 1 } else { 0 };
            let mut i: usize = 0;
            while i < pairs.len()
                invariant
                    i <= pairs@.len(),
                    ps == model_pairs(pairs@),
                    model_pairs(out@) == rewrite_pairs(ps.subrange(0, i as int), sis, reps).0,
                    count as int == cap2((if reps is Some { 1int } else { 0int }) + rewrite_pairs(ps.subrange(0, i as int), sis, reps).1),
                    rewrite_pairs(ps.subrange(0, i as int), sis, reps).1 >= 0,
                decreases pairs@.len() - i,
            {
                proof {
                    assert(*pairs == v->Object_0);
                    assert(decreases_to!(*v => v->Object_0));
                    vstd::std_specs::vec::axiom_vec_index_decreases(*pairs, i as int);
                    assert(decreases_to!(*pairs => pairs[i as int]));
                    assert(decreases_to!(pairs[i as int] => pairs[i as int].1));
                    let sub = ps.subrange(0, i + 1);
                    assert(sub.drop_last() =~= ps.subrange(0, i as int));
                    assert(sub.last() == ps[i as int]);
                    lemma_rewrite_nonneg(pairs@[i as int].1.model());
                }
                let key = pairs[i].0.clone();
                let (value, c) = if rep.is_some() && si == Some(i) {
                    let t = match &rep {
                        Some(t) => t.clone(),
                        None => unreached(),
                    };
                    (JsonValue::String(t), 0)
                } else {
                    rewrite_scripts_in_value(&pairs[i].1)
                };
                let ghost before = out@;
                out.push((key, value));
                proof {
                    lemma_model_pairs_index(out@);
                    lemma_model_pairs_index(before);
                    assert(model_pairs(out@) =~= model_pairs(before).push((key@, value.model())));
                }
                count = if count + c > 2 { 2 } else { count + c };
                i += 1;
            }
            proof {
                assert(ps.subrange(0, pairs@.len() as int) =~= ps);
            }
            (JsonValue::Object(out), count)
        },
        JsonValue::Array(items) => {
            let ghost ms = model_items(items@);
            proof {
                lemma_model_items_index(items@);
            }
            let mut out: Vec<JsonValue> = Vec::new();
            let mut count: usize = 0;
            let mut i: usize = 0;
            while i < items.len()
                invariant
                    i <= items@.len(),
                    ms == model_items(items@),
                    model_items(out@) == rewrite_items(ms.subrange(0, i as int)).0,
                    count as int == cap2(rewrite_items(ms.subrange(0, i as int)).1),
                    rewrite_items(ms.subrange(0, i as int)).1 >= 0,
                decreases items@.len() - i,
            {
                proof {
                    assert(*items == v->Array_0);
                    assert(decreases_to!(*v => v->Array_0));
                    vstd::std_specs::vec::axiom_vec_index_decreases(*items, i as int);
                    assert(decreases_to!(*items => items[i as int]));
                    let sub = ms.subrange(0, i + 1);
                    assert(sub.drop_last() =~= ms.subrange(0, i as int));
                    assert(sub.last() == ms[i as int]);
                    lemma_rewrite_nonneg(items@[i as int].model());
                }
                let (value, c) = rewrite_scripts_in_value(&items[i]);
                let ghost before = out@;
                out.push(value);
                proof {
                    lemma_model_items_index(out@);
                    lemma_model_items_index(before);
                    assert(model_items(out@) =~= model_items(before).push(value.model()));
                }
                count = if count + c > 2 { 2 } else { count + c };
                i += 1;
            }
            proof {
                assert(ms.subrange(0, items@.len() as int) =~= ms);
            }
            (JsonValue::Array(out), count)
        },
        _ => (v.deep_clone(), 0),
    }
}

// ---------------------------------------------------------------------------
// The relay.

/// An existing relay-target script followed by the relay: a line feed ends
/// the script if it does not end in one, then an empty line separates them.
pub open spec fn appended_relay(x: Seq<char>) -> Seq<char> {
    let sep = if x.len() == 0 {
        Seq::<char>::empty()
    } else if x.last() != '\n' {
        "\n\n"@
    } else {
        "\n"@
    };
    x + sep + POSTPROCESS_CURSOR_RELAY@
}

/// What becomes of the relay target's `script`: `None` refuses, `Some(None)`
/// keeps it (it already is the canonical relay), `Some(Some(t))` sets it to
/// `t` (the relay script where there was none, else the script with the
/// relay appended).
pub open spec fn relay_update(script: Option<JsonModel>) -> Option<Option<Seq<char>>> {
    match script {
        None => Some(Some(POSTPROCESS_RELAY_SCRIPT@)),
        Some(JsonModel::String(x)) => {
            let b = encode_utf8(x);
            match spec_analysis(b) {
                None => None,
                Some((ts, fs, _)) => if fs.len() == 1 {
                    if canonical_relay(b, ts, fs[0]) {
                        Some(None)
                    } else {
                        None
                    }
                } else {
                    Some(Some(appended_relay(x)))
                },
            }
        },
        Some(_) => None,
    }
}

/// The document with the relay target's `script` set to `text`.
pub open spec fn set_relay_script(m: JsonModel, a: int, p: int, c: int, text: Seq<char>) -> JsonModel {
    let rps = m->Object_0;
    let items = rps[a].1->Array_0;
    let pps = items[p]->Object_0;
    let vps = pps[c].1->Object_0;
    JsonModel::Object(
        rps.update(
            a,
            (
                rps[a].0,
                JsonModel::Array(
                    items.update(
                        p,
                        JsonModel::Object(
                            pps.update(c, (pps[c].0, JsonModel::Object(model_insert(vps, "script"@, JsonModel::String(text))))),
                        ),
                    ),
                ),
            ),
        ),
    )
}

/// The document with the relay in place, or `None` where it cannot be put.
pub open spec fn spec_ensure_relay(m: JsonModel) -> Option<JsonModel> {
    match relay_target(m) {
        None => None,
        Some((a, p, c)) => match relay_update(mget(relay_visible(m), "script"@)) {
            None => None,
            Some(None) => Some(m),
            Some(Some(t)) => Some(set_relay_script(m, a, p, c, t)),
        },
    }
}

proof fn lemma_model_pairs_update(ps: Seq<(String, JsonValue)>, i: int, x: (String, JsonValue))
    requires
        0 <= i < ps.len(),
    ensures
        model_pairs(ps.update(i, x)) == model_pairs(ps).update(i, (x.0@, x.1.model())),
{
    lemma_model_pairs_index(ps);
    lemma_model_pairs_index(ps.update(i, x));
    assert(model_pairs(ps.update(i, x)) =~= model_pairs(ps).update(i, (x.0@, x.1.model())));
}

proof fn lemma_model_items_update(items: Seq<JsonValue>, i: int, x: JsonValue)
    requires
        0 <= i < items.len(),
    ensures
        model_items(items.update(i, x)) == model_items(items).update(i, x.model()),
{
    lemma_model_items_index(items);
    lemma_model_items_index(items.update(i, x));
    assert(model_items(items.update(i, x)) =~= model_items(items).update(i, x.model()));
}

/// Sets the relay target's `script` to `text`.
fn set_visible_script(root: JsonValue, t: (usize, usize, usize), text: String) -> (r: JsonValue)
    requires
        relay_target(root.model()) == Some((t.0 as int, t.1 as int, t.2 as int)),
    ensures
        r.model() == set_relay_script(root.model(), t.0 as int, t.1 as int, t.2 as int, text@),
{
    let ghost m = root.model();
    let (a, p, c) = t;
    match root {
        JsonValue::Object(mut rps) => {
            let ghost rps0 = rps@;
            proof {
                lemma_member_model(rps@, "objects"@);
                lemma_model_pairs_index(rps@);
            }
            let (k, val) = rps.remove(a);
            match val {
                JsonValue::Array(mut items) => {
                    let ghost items0 = items@;
                    proof {
                        lemma_model_items_index(items@);
                        lemma_first_postprocess(model_items(items@));
                    }
                    let obj = items.remove(p);
                    match obj {
                        JsonValue::Object(mut pps) => {
                            let ghost pps0 = pps@;
                            proof {
                                lemma_member_model(pps@, "visible"@);
                                lemma_model_pairs_index(pps@);
                            }
                            let (vk, vis) = pps.remove(c);
                            match vis {
                                JsonValue::Object(mut vps) => {
                                    let ghost vps0 = vps@;
                                    crate::scene::manifest::object_insert(&mut vps, "script".to_owned(), JsonValue::String(text));
                                    let new_vis = JsonValue::Object(vps);
                                    pps.insert(c, (vk, new_vis));
                                    proof {
                                        assert(pps@ =~= pps0.update(c as int, (vk, new_vis)));
                                        lemma_model_pairs_update(pps0, c as int, (vk, new_vis));
                                    }
                                    let new_obj = JsonValue::Object(pps);
                                    items.insert(p, new_obj);
                                    proof {
                                        assert(items@ =~= items0.update(p as int, new_obj));
                                        lemma_model_items_update(items0, p as int, new_obj);
                                    }
                                    let new_val = JsonValue::Array(items);
                                    rps.insert(a, (k, new_val));
                                    proof {
                                        assert(rps@ =~= rps0.update(a as int, (k, new_val)));
                                        lemma_model_pairs_update(rps0, a as int, (k, new_val));
                                    }
                                    JsonValue::Object(rps)
                                },
                                _ => unreached(),
                            }
                        },
                        _ => unreached(),
                    }
                },
                _ => unreached(),
            }
        },
        _ => unreached(),
    }
}

/// The relay-target script with the relay appended.
fn append_relay(x: &String) -> (r: String)
    ensures
        r@ == appended_relay(x@),
{
    let mut t = x.clone();
    if !x.as_str().is_empty() {
        let n = x.as_str().unicode_len();
        if x.as_str().get_char(n - 1) != '\n' {
            t.append("\n\n");
        } else {
            t.append("\n");
        }
    }
    t.append(POSTPROCESS_CURSOR_RELAY);
    t
}

/// Puts the relay in place (see `spec_ensure_relay`).
pub fn ensure_postprocess_cursor_relay(root: JsonValue) -> (r: Option<JsonValue>)
    ensures
        match r {
            Some(v) => spec_ensure_relay(root.model()) == Some(v.model()),
            None => spec_ensure_relay(root.model()) is None,
        },
{
    let t = match selected_postprocess_relay_target(&root) {
        Some(t) => t,
        None => {
            return None;
        },
    };
    let text: String;
    {
        let vps = relay_visible_pairs(&root, t);
        proof {
            lemma_member_model(vps@, "script"@);
            lemma_model_pairs_index(vps@);
        }
        match find_key(vps, "script") {
            None => {
                text = POSTPROCESS_RELAY_SCRIPT.to_owned();
            },
            Some(k) => match &vps[k].1 {
                JsonValue::String(x) => {
                    let b = x.as_str().as_bytes();
                    let analysis = match analyze_script(b) {
                        Some(a) => a,
                        None => {
                            return None;
                        },
                    };
                    if analysis.cursor_down_functions.len() == 1 {
                        if function_is_canonical_shared_do_jump_relay(
                            b,
                            analysis.tokens.as_slice(),
                            &analysis.cursor_down_functions[0],
                        ) {
                            return Some(root);
                        }
                        return None;
                    }
                    text = append_relay(x);
                },
                _ => {
                    return None;
                },
            },
        }
    }
    Some(set_visible_script(root, t, text))
}

// ---------------------------------------------------------------------------
// The whole transform.

/// The Scene document for mobile input, or `None` where it is to be kept
/// as it is: the rewrite must be safe, exactly one handler must be moved,
/// and the relay must be put in place.
pub open spec fn spec_mobile_input(root: JsonModel) -> Option<JsonModel> {
    if !rewrite_is_safe(root) {
        None
    } else {
        let (rewritten, count) = rewrite_m(root);
        if count != 1 {
            None
        } else {
            spec_ensure_relay(rewritten)
        }
    }
}

/// The Scene document rewritten for mobile cursor input, or `None` where
/// it is to be kept byte for byte.
pub fn transform_scene_for_mobile_input(root: &JsonValue) -> (r: Option<JsonValue>)
    ensures
        match r {
            Some(v) => spec_mobile_input(root.model()) == Some(v.model()),
            None => spec_mobile_input(root.model()) is None,
        },
{
    if !mobile_input_rewrite_is_safe(root) {
        return None;
    }
    let (rewritten, count) = rewrite_scripts_in_value(root);
    if count != 1 {
        return None;
    }
    ensure_postprocess_cursor_relay(rewritten)
}

} // verus!
