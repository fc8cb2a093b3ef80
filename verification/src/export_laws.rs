//! Laws that tie the export's package layout to the staged-package check.

use vstd::prelude::*;
use crate::execute::{pending_entries, PackedSource};
use crate::json_order::{key_lt, keys_sorted, lemma_insert_pos, lemma_sort_pairs_permutes, lemma_sort_pairs_sorted, sort_pairs, insert_pos};
use crate::mpkg::version::ContainerVersion;
use crate::project::kind::text_bytes;
use crate::scene::package::{forbidden, project_json_count, staged_directory_ok};
use crate::scene::script_rewrite::lemma_ascii_bytes;
use crate::mpkg::path::starts_piece;
use crate::scene::source_tree::{excluded, excluded_suffix, has_staging_component};
use crate::text::{eq_ignore_case, lower};

verus! {

/// The archive paths of laid-out entries, in order.
pub open spec fn plan_paths(ps: Seq<(Seq<char>, PackedSource)>) -> Seq<Seq<char>> {
    Seq::new(ps.len(), |k: int| ps[k].0)
}

/// No text occurs twice.
pub open spec fn distinct_texts(s: Seq<Seq<char>>) -> bool {
    forall|i: int, j: int| 0 <= i < j < s.len() ==> #[trigger] s[i] != #[trigger] s[j]
}

/// What the pending entries hold: `project.json` first, then the other
/// paths, each once where the paths are distinct.
proof fn lemma_pending_entries(paths: Seq<Seq<char>>)
    ensures
        pending_entries(paths).len() > 0,
        pending_entries(paths)[0].0 == "project.json"@,
        forall|k: int| 0 <= k < pending_entries(paths).len() ==> (#[trigger] pending_entries(paths)[k]).0
            == "project.json"@ || (paths.contains(pending_entries(paths)[k].0) && pending_entries(paths)[k].0
            != "project.json"@),
        forall|j: int| 0 <= j < paths.len() ==> exists|k: int| 0 <= k < pending_entries(paths).len() && (#[trigger] pending_entries(paths)[k]).0 == #[trigger] paths[j],
        distinct_texts(paths) ==> distinct_texts(plan_paths(pending_entries(paths))),
    decreases paths.len(),
{
    if paths.len() > 0 {
        let init = paths.drop_last();
        let last = paths.last();
        lemma_pending_entries(init);
        let p = pending_entries(init);
        let r = pending_entries(paths);
        assert forall|k: int| 0 <= k < r.len() implies (#[trigger] r[k]).0 == "project.json"@ || (paths.contains(r[k].0)
            && r[k].0 != "project.json"@) by {
            if k < p.len() {
                assert(r[k] == p[k]);
                if p[k].0 != "project.json"@ {
                    let m = choose|m: int| 0 <= m < init.len() && init[m] == p[k].0;
                    assert(paths[m] == init[m]);
                }
            } else {
                assert(r[k].0 == last);
                assert(paths[paths.len() - 1] == last);
            }
        }
        assert forall|j: int| 0 <= j < paths.len() implies exists|k: int| 0 <= k < r.len() && (#[trigger] r[k]).0 == #[trigger] paths[j] by {
            if j < init.len() {
                assert(paths[j] == init[j]);
                let k = choose|k: int| 0 <= k < p.len() && (#[trigger] p[k]).0 == init[j];
                assert(r[k] == p[k]);
            } else if last == "project.json"@ {
                assert(r[0].0 == paths[j]);
            } else {
                assert(r[r.len() - 1].0 == paths[j]);
            }
        }
        if distinct_texts(paths) {
            assert(distinct_texts(init)) by {
                assert forall|i: int, j: int| 0 <= i < j < init.len() implies #[trigger] init[i] != #[trigger] init[j] by {
                    assert(init[i] == paths[i] && init[j] == paths[j]);
                }
            }
            let kr = plan_paths(r);
            let kp = plan_paths(p);
            assert forall|i: int, j: int| 0 <= i < j < kr.len() implies #[trigger] kr[i] != #[trigger] kr[j] by {
                if j >= p.len() {
                    // The added entry is the last path, which is not `project.json`.
                    assert(kr[j] == last);
                    assert(kr[i] == kp[i]);
                    if kp[i] != "project.json"@ {
                        let m = choose|m: int| 0 <= m < init.len() && init[m] == kp[i];
                        assert(paths[m] == init[m]);
                        assert(paths[paths.len() - 1] == last);
                    }
                } else {
                    assert(kr[i] == kp[i] && kr[j] == kp[j]);
                }
            }
        }
    } else {
        assert(pending_entries(paths) =~= seq![("project.json"@, PackedSource::ProjectJson)]);
        assert forall|i: int, j: int| 0 <= i < j < plan_paths(pending_entries(paths)).len() implies #[trigger] plan_paths(pending_entries(paths))[i] != #[trigger] plan_paths(pending_entries(paths))[j] by {}
    }
}

/// The stable sort only moves entries: an entry is in the sorted sequence
/// exactly when it is in the input.
proof fn lemma_sort_same_members(ps: Seq<(Seq<char>, PackedSource)>, x: (Seq<char>, PackedSource))
    ensures
        sort_pairs(ps).contains(x) <==> ps.contains(x),
{
    lemma_sort_pairs_permutes(ps);
    vstd::seq_lib::to_multiset_contains(ps, x);
    vstd::seq_lib::to_multiset_contains(sort_pairs(ps), x);
}

/// Sorting keeps keys that were distinct distinct.
proof fn lemma_sort_distinct_keys(ps: Seq<(Seq<char>, PackedSource)>)
    requires
        distinct_texts(plan_paths(ps)),
    ensures
        distinct_texts(plan_paths(sort_pairs(ps))),
    decreases ps.len(),
{
    if ps.len() > 0 {
        let init = ps.drop_last();
        let x = ps.last();
        let kp = plan_paths(ps);
        let ki = plan_paths(init);
        assert(distinct_texts(ki)) by {
            assert forall|a: int, b: int| 0 <= a < b < ki.len() implies #[trigger] ki[a] != #[trigger] ki[b] by {
                assert(ki[a] == kp[a] && ki[b] == kp[b]);
            }
        }
        lemma_sort_distinct_keys(init);
        lemma_sort_pairs_sorted(init);
        let s = sort_pairs(init);
        let q = insert_pos(s, x.0);
        lemma_insert_pos(s, x.0);
        let t = sort_pairs(ps);
        assert(t == s.insert(q, x));
        let ks = plan_paths(s);
        let kt = plan_paths(t);
        assert forall|a: int| 0 <= a < s.len() implies #[trigger] ks[a] != x.0 by {
            lemma_sort_same_members(init, s[a]);
            assert(s.contains(s[a]));
            let j = choose|j: int| 0 <= j < init.len() && init[j] == s[a];
            assert(kp[j] == init[j].0);
            assert(kp[ps.len() - 1] == x.0);
        }
        assert forall|a: int, b: int| 0 <= a < b < kt.len() implies #[trigger] kt[a] != #[trigger] kt[b] by {
            if a == q {
                assert(kt[b] == ks[b - 1]);
            } else if b == q {
                assert(kt[a] == ks[a]);
            } else {
                let sa = if a < q { a } else { a - 1 };
                let sb = if b < q { b } else { b - 1 };
                assert(kt[a] == ks[sa] && kt[b] == ks[sb]);
            }
        }
    }
}

/// A sequence without repeats counts `project.json` once when it holds it.
proof fn lemma_project_json_once(s: Seq<Seq<char>>)
    requires
        distinct_texts(s),
    ensures
        project_json_count(s) == (if s.contains("project.json"@) { 1nat } else { 0nat }),
    decreases s.len(),
{
    if s.len() > 0 {
        let init = s.drop_last();
        assert(distinct_texts(init)) by {
            assert forall|a: int, b: int| 0 <= a < b < init.len() implies #[trigger] init[a] != #[trigger] init[b] by {
                assert(init[a] == s[a] && init[b] == s[b]);
            }
        }
        lemma_project_json_once(init);
        if s.last() == "project.json"@ {
            assert(s[s.len() - 1] == "project.json"@);
            if init.contains("project.json"@) {
                let k = choose|k: int| 0 <= k < init.len() && init[k] == "project.json"@;
                assert(s[k] == s[s.len() - 1]);
            }
        } else {
            if s.contains("project.json"@) {
                let k = choose|k: int| 0 <= k < s.len() && s[k] == "project.json"@;
                assert(init[k] == "project.json"@);
            }
            if init.contains("project.json"@) {
                let k = choose|k: int| 0 <= k < init.len() && init[k] == "project.json"@;
                assert(s[k] == "project.json"@);
            }
        }
    } else {
        assert(!s.contains("project.json"@));
    }
}

/// `project.json` is neither a staging nor a derived file.
proof fn lemma_project_json_allowed()
    ensures
        !forbidden("project.json"@),
{
    reveal_strlit("project.json");
    reveal_strlit(".pkg2mpkg-");
    reveal_strlit(".tex-json");
    reveal_strlit(".mpkg");
    reveal_strlit(".partial");
    lemma_ascii_bytes("project.json"@);
    lemma_ascii_bytes(".pkg2mpkg-"@);
    lemma_ascii_bytes(".tex-json"@);
    lemma_ascii_bytes(".mpkg"@);
    lemma_ascii_bytes(".partial"@);
    let b = text_bytes("project.json"@);
    let staging = text_bytes(".pkg2mpkg-"@);
    assert(b.len() == 12);
    assert(b[0] == 112 && b[1] == 114 && b[3] == 106 && b[4] == 101 && b[8] == 106);
    assert(staging[0] == 46);
    assert forall|i: int| 0 <= i && i + 10 <= b.len() && starts_piece(b, i) implies !#[trigger] eq_ignore_case(
        b.subrange(i, i + 10),
        staging,
    ) by {
        if i == 0 {
            assert(lower(b.subrange(0, 10)[0]) != lower(staging[0]));
        } else {
            assert(b[i - 1] != 47);
        }
    }
    assert(!has_staging_component(b));
    let tex_json = text_bytes(".tex-json"@);
    let mpkg = text_bytes(".mpkg"@);
    let partial = text_bytes(".partial"@);
    assert(tex_json.len() == 9 && tex_json[0] == 46);
    assert(mpkg.len() == 5 && mpkg[1] == 109);
    assert(partial.len() == 8 && partial[0] == 46);
    assert(lower(b.subrange(3, 12)[0]) != lower(tex_json[0]));
    assert(lower(b.subrange(7, 12)[1]) != lower(mpkg[1]));
    assert(lower(b.subrange(4, 12)[0]) != lower(partial[0]));
    assert(!excluded_suffix(b));
    assert(!excluded(b));
}

/// Law: the package an export lays out from snapshot paths that are
/// distinct, none of them a staging or derived file, and among them the
/// Scene entry, passes the staged-directory check: PKGM0020, paths in byte
/// order, nothing forbidden, one `project.json`, and the Scene entry.
pub proof fn lemma_entry_plan_passes_staged_check(paths: Seq<Seq<char>>, scene_entry: Seq<char>)
    requires
        distinct_texts(paths),
        forall|k: int| 0 <= k < paths.len() ==> !forbidden(#[trigger] paths[k]),
        paths.contains(scene_entry),
    ensures
        staged_directory_ok(
            ContainerVersion::Pkgm0020,
            plan_paths(sort_pairs(pending_entries(paths))),
            plan_paths(sort_pairs(pending_entries(paths))),
            scene_entry,
        ),
{
    let pend = pending_entries(paths);
    let laid = sort_pairs(pend);
    let keys = plan_paths(laid);
    lemma_pending_entries(paths);
    lemma_sort_pairs_sorted(pend);
    lemma_sort_distinct_keys(pend);
    lemma_project_json_allowed();
    assert forall|i: int| 0 <= i < keys.len() - 1 implies !key_lt(#[trigger] keys[i + 1], keys[i]) by {
        assert(keys[i + 1] == laid[i + 1].0 && keys[i] == laid[i].0);
    }
    assert forall|i: int| 0 <= i < keys.len() implies !forbidden(#[trigger] keys[i]) by {
        lemma_sort_same_members(pend, laid[i]);
        assert(laid.contains(laid[i]));
        let j = choose|j: int| 0 <= j < pend.len() && pend[j] == laid[i];
        assert(keys[i] == pend[j].0);
        if pend[j].0 != "project.json"@ {
            assert(paths.contains(pend[j].0));
            let m = choose|m: int| 0 <= m < paths.len() && paths[m] == pend[j].0;
            assert(!forbidden(paths[m]));
        }
    }
    lemma_project_json_once(keys);
    lemma_sort_same_members(pend, pend[0]);
    assert(pend.contains(pend[0]));
    let i0 = choose|i: int| 0 <= i < laid.len() && laid[i] == pend[0];
    assert(keys[i0] == "project.json"@);
    assert(keys.contains("project.json"@));
    let e = choose|j: int| 0 <= j < paths.len() && paths[j] == scene_entry;
    let k = choose|k: int| 0 <= k < pend.len() && (#[trigger] pend[k]).0 == paths[e];
    lemma_sort_same_members(pend, pend[k]);
    assert(pend.contains(pend[k]));
    let i1 = choose|i: int| 0 <= i < laid.len() && laid[i] == pend[k];
    assert(keys[i1] == scene_entry);
}

} // verus!
