//! User properties that a mobile wallpaper must not carry.

use vstd::prelude::*;
use crate::json::{model_pairs, str_eq, JsonModel, JsonValue};
use crate::json_order::lemma_model_pairs_index;

verus! {

/// Desktop-only property names removed for mobile packages.
pub open spec fn blacklisted(key: Seq<char>) -> bool {
    ||| key == "alignment"@
    ||| key == "alignmentx"@
    ||| key == "alignmenty"@
    ||| key == "alignmentz"@
    ||| key == "alignmentposition"@
    ||| key == "alignmentfliph"@
    ||| key == "pluginledextensionsenableleds"@
    ||| key == "wec_e"@
    ||| key == "wec_brs"@
    ||| key == "wec_con"@
    ||| key == "wec_sat"@
    ||| key == "wec_hue"@
    ||| key == "rate"@
}

/// The members whose names are not blacklisted, in order.
pub open spec fn keep_allowed(ps: Seq<(Seq<char>, JsonModel)>) -> Seq<(Seq<char>, JsonModel)>
    decreases ps.len(),
{
    if ps.len() == 0 {
        Seq::empty()
    } else {
        let p = keep_allowed(ps.drop_last());
        if blacklisted(ps.last().0) {
            p
        } else {
            p.push(ps.last())
        }
    }
}

pub fn is_blacklisted(key: &str) -> (r: bool)
    ensures
        r == blacklisted(key@),
{
    str_eq(key, "alignment") || str_eq(key, "alignmentx") || str_eq(key, "alignmenty") || str_eq(
        key,
        "alignmentz",
    ) || str_eq(key, "alignmentposition") || str_eq(key, "alignmentfliph") || str_eq(
        key,
        "pluginledextensionsenableleds",
    ) || str_eq(key, "wec_e") || str_eq(key, "wec_brs") || str_eq(key, "wec_con") || str_eq(
        key,
        "wec_sat",
    ) || str_eq(key, "wec_hue") || str_eq(key, "rate")
}

/// A copy of the properties without the blacklisted ones.
pub fn sanitize_mobile_properties(input: &Vec<(String, JsonValue)>) -> (r: Vec<(String, JsonValue)>)
    ensures
        model_pairs(r@) == keep_allowed(model_pairs(input@)),
{
    let ghost ms = model_pairs(input@);
    proof {
        lemma_model_pairs_index(input@);
        assert(ms.take(0) =~= Seq::<(Seq<char>, JsonModel)>::empty());
    }
    let mut out: Vec<(String, JsonValue)> = Vec::new();
    let mut i: usize = 0;
    while i < input.len()
        invariant
            i <= input@.len(),
            ms == model_pairs(input@),
            ms.len() == input@.len(),
            forall|j: int| 0 <= j < input@.len() ==> #[trigger] ms[j] == (input@[j].0@, input@[j].1.model()),
            model_pairs(out@) == keep_allowed(ms.take(i as int)),
        decreases input@.len() - i,
    {
        proof {
            assert(ms.take(i + 1).drop_last() =~= ms.take(i as int));
            assert(ms.take(i + 1).last() == ms[i as int]);
        }
        if !is_blacklisted(input[i].0.as_str()) {
            let key = input[i].0.clone();
            let value = input[i].1.deep_clone();
            let ghost before = out@;
            out.push((key, value));
            proof {
                assert(out@.drop_last() =~= before);
            }
        }
        i += 1;
    }
    proof {
        assert(ms.take(input@.len() as int) =~= ms);
    }
    out
}

/// Law: sanitized properties hold no blacklisted name, keep every allowed
/// member, and sanitizing them again changes nothing.
pub proof fn lemma_sanitized_properties(ps: Seq<(Seq<char>, JsonModel)>)
    ensures
        forall|k: int| 0 <= k < keep_allowed(ps).len() ==> !blacklisted(#[trigger] keep_allowed(ps)[k].0),
        forall|k: int| 0 <= k < ps.len() && !blacklisted(#[trigger] ps[k].0) ==> keep_allowed(ps).contains(ps[k]),
        keep_allowed(keep_allowed(ps)) == keep_allowed(ps),
    decreases ps.len(),
{
    if ps.len() > 0 {
        let init = ps.drop_last();
        let x = ps.last();
        lemma_sanitized_properties(init);
        let p = keep_allowed(init);
        assert forall|k: int| 0 <= k < ps.len() && !blacklisted(#[trigger] ps[k].0) implies keep_allowed(ps).contains(ps[k]) by {
            if k < init.len() {
                assert(ps[k] == init[k]);
                assert(p.contains(init[k]));
                let j = choose|j: int| 0 <= j < p.len() && p[j] == init[k];
                if !blacklisted(x.0) {
                    assert(keep_allowed(ps)[j] == p[j]);
                }
            } else {
                assert(keep_allowed(ps)[p.len() as int] == x);
            }
        }
        if !blacklisted(x.0) {
            assert(p.push(x).drop_last() =~= p);
            assert(keep_allowed(p.push(x)) == keep_allowed(p).push(x));
        }
    }
}

/// Law: sanitizing keeps exactly the members whose names are none of the
/// thirteen desktop-only names (alignment, alignmentx, alignmenty,
/// alignmentz, alignmentposition, alignmentfliph,
/// pluginledextensionsenableleds, wec_e, wec_brs, wec_con, wec_sat, wec_hue,
/// rate): no kept member has one of them, every kept member comes from the
/// input, and every input member with another name is kept.
pub proof fn lemma_desktop_only_names_removed(ps: Seq<(Seq<char>, JsonModel)>)
    ensures
        forall|k: int| 0 <= k < keep_allowed(ps).len() ==> ({
            let key = #[trigger] keep_allowed(ps)[k].0;
            &&& key != "alignment"@
            &&& key != "alignmentx"@
            &&& key != "alignmenty"@
            &&& key != "alignmentz"@
            &&& key != "alignmentposition"@
            &&& key != "alignmentfliph"@
            &&& key != "pluginledextensionsenableleds"@
            &&& key != "wec_e"@
            &&& key != "wec_brs"@
            &&& key != "wec_con"@
            &&& key != "wec_sat"@
            &&& key != "wec_hue"@
            &&& key != "rate"@
        }),
        forall|k: int| 0 <= k < keep_allowed(ps).len() ==> ps.contains(#[trigger] keep_allowed(ps)[k]),
        forall|k: int| 0 <= k < ps.len() ==> ({
            let key = #[trigger] ps[k].0;
            &&& ({
                ||| key == "alignment"@
                ||| key == "alignmentx"@
                ||| key == "alignmenty"@
                ||| key == "alignmentz"@
                ||| key == "alignmentposition"@
                ||| key == "alignmentfliph"@
                ||| key == "pluginledextensionsenableleds"@
                ||| key == "wec_e"@
                ||| key == "wec_brs"@
                ||| key == "wec_con"@
                ||| key == "wec_sat"@
                ||| key == "wec_hue"@
                ||| key == "rate"@
            }) || keep_allowed(ps).contains(ps[k])
        }),
        forall|k: int| 0 <= k < ps.len() ==> ({
            let key = #[trigger] ps[k].0;
            ({
                ||| key == "alignment"@
                ||| key == "alignmentx"@
                ||| key == "alignmenty"@
                ||| key == "alignmentz"@
                ||| key == "alignmentposition"@
                ||| key == "alignmentfliph"@
                ||| key == "pluginledextensionsenableleds"@
                ||| key == "wec_e"@
                ||| key == "wec_brs"@
                ||| key == "wec_con"@
                ||| key == "wec_sat"@
                ||| key == "wec_hue"@
                ||| key == "rate"@
            }) ==> !keep_allowed(ps).contains(ps[k])
        }),
{
    lemma_sanitized_properties(ps);
    lemma_kept_from_input(ps);
    assert forall|k: int| 0 <= k < ps.len() && blacklisted(#[trigger] ps[k].0) implies !keep_allowed(ps).contains(ps[k]) by {
        if keep_allowed(ps).contains(ps[k]) {
            let j = choose|j: int| 0 <= j < keep_allowed(ps).len() && keep_allowed(ps)[j] == ps[k];
            assert(!blacklisted(keep_allowed(ps)[j].0));
        }
    }
}

/// Every kept member is a member of the input.
proof fn lemma_kept_from_input(ps: Seq<(Seq<char>, JsonModel)>)
    ensures
        forall|k: int| 0 <= k < keep_allowed(ps).len() ==> ps.contains(#[trigger] keep_allowed(ps)[k]),
    decreases ps.len(),
{
    if ps.len() > 0 {
        let init = ps.drop_last();
        lemma_kept_from_input(init);
        assert forall|k: int| 0 <= k < keep_allowed(ps).len() implies ps.contains(#[trigger] keep_allowed(ps)[k]) by {
            if k < keep_allowed(init).len() {
                assert(keep_allowed(ps)[k] == keep_allowed(init)[k]);
                let j = choose|j: int| 0 <= j < init.len() && init[j] == keep_allowed(init)[k];
                assert(ps[j] == init[j]);
            } else {
                assert(keep_allowed(ps)[k] == ps.last());
                assert(ps[ps.len() - 1] == ps.last());
            }
        }
    }
}

/// Law: sanitizing is the filter, in input order, that keeps a member
/// exactly when its name is none of the thirteen desktop-only names.
pub proof fn lemma_sanitize_is_ordered_filter(ps: Seq<(Seq<char>, JsonModel)>)
    ensures
        keep_allowed(ps) == ps.filter(|m: (Seq<char>, JsonModel)| {
            m.0 != "alignment"@
            && m.0 != "alignmentx"@
            && m.0 != "alignmenty"@
            && m.0 != "alignmentz"@
            && m.0 != "alignmentposition"@
            && m.0 != "alignmentfliph"@
            && m.0 != "pluginledextensionsenableleds"@
            && m.0 != "wec_e"@
            && m.0 != "wec_brs"@
            && m.0 != "wec_con"@
            && m.0 != "wec_sat"@
            && m.0 != "wec_hue"@
            && m.0 != "rate"@
        }),
{
    lemma_keep_is_filter(ps, |m: (Seq<char>, JsonModel)| {
        m.0 != "alignment"@
        && m.0 != "alignmentx"@
        && m.0 != "alignmenty"@
        && m.0 != "alignmentz"@
        && m.0 != "alignmentposition"@
        && m.0 != "alignmentfliph"@
        && m.0 != "pluginledextensionsenableleds"@
        && m.0 != "wec_e"@
        && m.0 != "wec_brs"@
        && m.0 != "wec_con"@
        && m.0 != "wec_sat"@
        && m.0 != "wec_hue"@
        && m.0 != "rate"@
    });
}

proof fn lemma_keep_is_filter(ps: Seq<(Seq<char>, JsonModel)>, f: spec_fn((Seq<char>, JsonModel)) -> bool)
    requires
        forall|m: (Seq<char>, JsonModel)| #[trigger] f(m) == !blacklisted(m.0),
    ensures
        keep_allowed(ps) == ps.filter(f),
    decreases ps.len(),
{
    reveal_with_fuel(Seq::filter, 1);
    if ps.len() > 0 {
        lemma_keep_is_filter(ps.drop_last(), f);
        assert(f(ps.last()) == !blacklisted(ps.last().0));
    }
}

} // verus!
