//! Where a `localStorage.LOCATION_*` read sits in a script: whether it is
//! only read (not assigned, incremented, deleted, iterated into, or a target
//! inside a destructuring pattern).

use vstd::prelude::*;
use crate::project::kind::text_bytes;
use crate::scene::js_lex::{delim_kind, text_at, text_is, token_at_is, token_is, JsToken};
use crate::scene::script_rules::{
    assignment_at, expand_parens, expand_parenthesized_expression, find_matching_token, for_target, is_assignment_operator,
    is_for_iteration_target, lemma_match_from_range, matching, text2_at, tokens_match2,
};

verus! {

/// A `[` strictly inside the pattern, before the access, closes after it and
/// is followed by `:` — the access is part of a computed key, which is read.
pub open spec fn computed_key_around(b: Seq<u8>, ts: Seq<JsToken>, pattern_open: int, es: int, ee: int) -> bool {
    exists|open: int|
        pattern_open + 1 <= open < es && #[trigger] text_at(b, ts, open, text_bytes("["@)) && match matching(
            b,
            ts,
            open,
            text_bytes("["@),
            text_bytes("]"@),
        ) {
            Some(c) => c > ee && text_at(b, ts, c + 1, text_bytes(":"@)),
            None => false,
        }
}

/// Per nesting level, whether the current element has passed its default
/// `=`: an opening delimiter starts a level, a closing one ends it, a `,`
/// starts a new element, an assignment operator marks a default.
pub open spec fn defaults_walk(b: Seq<u8>, ts: Seq<JsToken>, k: int, end: int, stack: Seq<bool>) -> Seq<bool>
    decreases end - k,
{
    if k >= end || k < 0 || k >= ts.len() {
        stack
    } else {
        let next = if delim_kind(b, ts[k]) > 0 {
            stack.push(false)
        } else if delim_kind(b, ts[k]) < 0 {
            if stack.len() > 0 {
                stack.drop_last()
            } else {
                stack
            }
        } else if text_is(b, ts[k], text_bytes(","@)) {
            if stack.len() > 0 {
                stack.update(stack.len() - 1, false)
            } else {
                stack
            }
        } else if assignment_at(b, ts, k) {
            if stack.len() > 0 {
                stack.update(stack.len() - 1, true)
            } else {
                stack
            }
        } else {
            stack
        };
        defaults_walk(b, ts, k + 1, end, next)
    }
}

/// The access `es..=ee` inside the pattern opened at `pattern_open` is an
/// assignment target (not a computed key, not a default value).
pub open spec fn destructuring_target(b: Seq<u8>, ts: Seq<JsToken>, pattern_open: int, es: int, ee: int) -> bool {
    &&& !computed_key_around(b, ts, pattern_open, es, ee)
    &&& !defaults_walk(b, ts, pattern_open + 1, es, seq![false]).contains(true)
}

fn delimiter_kind_of(b: &[u8], t: JsToken) -> (r: i8)
    ensures
        r as int == delim_kind(b@, t),
{
    if token_is(b, t, "(") {
        1
    } else if token_is(b, t, "[") {
        2
    } else if token_is(b, t, "{") {
        3
    } else if token_is(b, t, ")") {
        -1
    } else if token_is(b, t, "]") {
        -2
    } else if token_is(b, t, "}") {
        -3
    } else {
        0
    }
}

/// The access is an assignment target of the pattern opened at
/// `pattern_open`.
pub fn local_storage_access_is_destructuring_target(b: &[u8], ts: &[JsToken], pattern_open: usize, es: usize, ee: usize) -> (r: bool)
    requires
        es < ts@.len(),
    ensures
        r == destructuring_target(b@, ts@, pattern_open as int, es as int, ee as int),
{
    let n = ts.len();
    let mut open: usize = if pattern_open < es { pattern_open + 1 } else { es };
    while open < es
        invariant
            n == ts@.len(),
            es < n,
            open >= pattern_open + 1 || open >= es,
            forall|o: int|
                pattern_open + 1 <= o < open ==> !(#[trigger] text_at(b@, ts@, o, text_bytes("["@)) && match matching(
                    b@,
                    ts@,
                    o,
                    text_bytes("["@),
                    text_bytes("]"@),
                ) {
                    Some(c) => c > ee && text_at(b@, ts@, c + 1, text_bytes(":"@)),
                    None => false,
                }),
        decreases es - open,
    {
        if token_is(b, ts[open], "[") {
            match find_matching_token(b, ts, open, "[", "]") {
                Some(close) => {
                    proof {
                        lemma_match_from_range(b@, ts@, open as int, 0, text_bytes("["@), text_bytes("]"@));
                    }
                    if close > ee && token_at_is(b, ts, close + 1, ":") {
                        assert(text_at(b@, ts@, open as int, text_bytes("["@)));
                        return false;
                    }
                },
                None => {},
            }
        }
        open += 1;
    }
    let mut stack: Vec<bool> = Vec::new();
    stack.push(false);
    let mut k: usize = if pattern_open < es { pattern_open + 1 } else { es };
    proof {
        assert(stack@ =~= seq![false]);
    }
    while k < es
        invariant
            n == ts@.len(),
            es < n,
            defaults_walk(b@, ts@, pattern_open + 1, es as int, seq![false]) == defaults_walk(b@, ts@, k as int, es as int, stack@),
        decreases es - k,
    {
        let d = delimiter_kind_of(b, ts[k]);
        if d > 0 {
            stack.push(false);
        } else if d < 0 {
            stack.pop();
        } else if token_is(b, ts[k], ",") {
            let len = stack.len();
            if len > 0 {
                stack.set(len - 1, false);
            }
        } else if is_assignment_operator(b, ts, k) {
            let len = stack.len();
            if len > 0 {
                stack.set(len - 1, true);
            }
        }
        k += 1;
    }
    let mut i: usize = 0;
    while i < stack.len()
        invariant
            i <= stack@.len(),
            stack@ == defaults_walk(b@, ts@, pattern_open + 1, es as int, seq![false]),
            forall|j: int| 0 <= j < i ==> !stack@[j],
        decreases stack@.len() - i,
    {
        if stack[i] {
            assert(stack@.contains(true));
            return false;
        }
        i += 1;
    }
    assert(!stack@.contains(true));
    true
}

/// The delimiter opened at `open` (a `[` or `{`) closes after the access
/// and is then assigned to or iterated into, with the access as a target.
pub open spec fn enclosing_target(b: Seq<u8>, ts: Seq<JsToken>, open: int, es: int, ee: int) -> bool {
    let close = if text_at(b, ts, open, text_bytes("["@)) {
        matching(b, ts, open, text_bytes("["@), text_bytes("]"@))
    } else if text_at(b, ts, open, text_bytes("{"@)) {
        matching(b, ts, open, text_bytes("{"@), text_bytes("}"@))
    } else {
        None
    };
    match close {
        Some(c) => c > ee && (assignment_at(b, ts, c + 1) || for_target(b, ts, open, c + 1)) && destructuring_target(
            b,
            ts,
            open,
            es,
            ee,
        ),
        None => false,
    }
}

/// The `localStorage . LOCATION_*` access at `access` (widened over
/// wrapping parentheses) is only read.
pub open spec fn read_only(b: Seq<u8>, ts: Seq<JsToken>, access: int) -> bool {
    let (es, ee) = expand_parens(b, ts, access, access + 2);
    let after = ee + 1;
    &&& !(assignment_at(b, ts, after) || text2_at(b, ts, after, "+"@, "+"@) || text2_at(b, ts, after, "-"@, "-"@)
        || for_target(b, ts, es, after))
    &&& !(es >= 2 && (text2_at(b, ts, es - 2, "+"@, "+"@) || text2_at(b, ts, es - 2, "-"@, "-"@)))
    &&& !(es > 0 && text_at(b, ts, es - 1, text_bytes("delete"@)))
    &&& forall|open: int| 0 <= open < access ==> !#[trigger] enclosing_target(b, ts, open, es, ee)
}

/// The location access at `access` is only read.
pub fn local_storage_location_access_is_read_only(b: &[u8], ts: &[JsToken], access: usize) -> (r: bool)
    requires
        access + 2 < ts@.len(),
    ensures
        r == read_only(b@, ts@, access as int),
{
    let n = ts.len();
    let (es, ee) = expand_parenthesized_expression(b, ts, access, access + 2);
    let after = ee + 1;
    if is_assignment_operator(b, ts, after) || tokens_match2(b, ts, after, "+", "+") || tokens_match2(
        b,
        ts,
        after,
        "-",
        "-",
    ) || is_for_iteration_target(b, ts, es, after) {
        return false;
    }
    if es >= 2 && (tokens_match2(b, ts, es - 2, "+", "+") || tokens_match2(b, ts, es - 2, "-", "-")) {
        return false;
    }
    if es > 0 && token_at_is(b, ts, es - 1, "delete") {
        return false;
    }
    let mut open: usize = 0;
    while open < access
        invariant
            n == ts@.len(),
            access + 2 < n,
            es <= access,
            ee < n,
            (es as int, ee as int) == expand_parens(b@, ts@, access as int, access + 2),
            forall|o: int| 0 <= o < open ==> !#[trigger] enclosing_target(b@, ts@, o, es as int, ee as int),
        decreases access - open,
    {
        let t = ts[open];
        let close = if token_is(b, t, "[") {
            find_matching_token(b, ts, open, "[", "]")
        } else if token_is(b, t, "{") {
            find_matching_token(b, ts, open, "{", "}")
        } else {
            None
        };
        match close {
            Some(c) => {
                proof {
                    lemma_match_from_range(b@, ts@, open as int, 0, text_bytes("["@), text_bytes("]"@));
                    lemma_match_from_range(b@, ts@, open as int, 0, text_bytes("{"@), text_bytes("}"@));
                }
                if c > ee {
                    let after_close = c + 1;
                    if (is_assignment_operator(b, ts, after_close) || is_for_iteration_target(b, ts, open, after_close))
                        && local_storage_access_is_destructuring_target(b, ts, open, es, ee) {
                        assert(enclosing_target(b@, ts@, open as int, es as int, ee as int));
                        return false;
                    }
                }
            },
            None => {},
        }
        open += 1;
    }
    true
}

} // verus!
