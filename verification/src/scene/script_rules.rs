//! Token-level rules over a scanned Scene script: matching delimiters,
//! exported functions, assignment operators, and the shape checks that the
//! mobile input rewrite relies on.

use vstd::prelude::*;
use crate::project::kind::text_bytes;
use crate::scene::js_lex::{
    balanced_from, delimiters_are_balanced, lemma_lex_wf, lex, lex_javascript, text_at, text_is, token_at_is,
    token_is, tokens_wf, JsToken,
};

verus! {

// ---------------------------------------------------------------------------
// Matching delimiters.

/// Index of the token that brings the nesting depth (counted from `depth`
/// at token `j`) back to zero with a `close`, if any.
pub open spec fn match_from(b: Seq<u8>, ts: Seq<JsToken>, j: int, depth: int, open: Seq<u8>, close: Seq<u8>) -> Option<int>
    decreases ts.len() - j,
{
    if j < 0 || j >= ts.len() {
        None
    } else if text_is(b, ts[j], open) {
        match_from(b, ts, j + 1, depth + 1, open, close)
    } else if text_is(b, ts[j], close) {
        if depth - 1 == 0 {
            Some(j)
        } else {
            match_from(b, ts, j + 1, depth - 1, open, close)
        }
    } else {
        match_from(b, ts, j + 1, depth, open, close)
    }
}

/// The token that closes the delimiter opened at `open_index`.
pub open spec fn matching(b: Seq<u8>, ts: Seq<JsToken>, open_index: int, open: Seq<u8>, close: Seq<u8>) -> Option<int> {
    match_from(b, ts, open_index, 0, open, close)
}

pub proof fn lemma_match_from_range(b: Seq<u8>, ts: Seq<JsToken>, j: int, depth: int, open: Seq<u8>, close: Seq<u8>)
    ensures
        match_from(b, ts, j, depth, open, close) matches Some(k) ==> 0 <= j <= k < ts.len() && text_is(b, ts[k], close),
    decreases ts.len() - j,
{
    if 0 <= j < ts.len() {
        if text_is(b, ts[j], open) {
            lemma_match_from_range(b, ts, j + 1, depth + 1, open, close);
        } else if text_is(b, ts[j], close) {
            lemma_match_from_range(b, ts, j + 1, depth - 1, open, close);
        } else {
            lemma_match_from_range(b, ts, j + 1, depth, open, close);
        }
    }
}

/// Index of the token closing the delimiter opened at `open_index`.
pub fn find_matching_token(b: &[u8], tokens: &[JsToken], open_index: usize, open: &str, close: &str) -> (r: Option<usize>)
    ensures
        match r {
            Some(k) => matching(b@, tokens@, open_index as int, text_bytes(open@), text_bytes(close@)) == Some(k as int),
            None => matching(b@, tokens@, open_index as int, text_bytes(open@), text_bytes(close@)) is None,
        },
{
    let ghost o = text_bytes(open@);
    let ghost c = text_bytes(close@);
    let mut opens: usize = 0;
    let mut closes: usize = 0;
    let mut j = open_index;
    while j < tokens.len()
        invariant
            o == text_bytes(open@),
            c == text_bytes(close@),
            open_index <= j,
            opens <= j - open_index,
            closes <= j - open_index,
            matching(b@, tokens@, open_index as int, o, c) == match_from(b@, tokens@, j as int, opens - closes, o, c),
        decreases tokens@.len() - j,
    {
        let is_open = token_is(b, tokens[j], open);
        let is_close = token_is(b, tokens[j], close);
        proof {
            let d = opens - closes;
            assert(match_from(b@, tokens@, j as int, d, o, c) == if is_open {
                match_from(b@, tokens@, j + 1, d + 1, o, c)
            } else if is_close {
                if d - 1 == 0 {
                    Some(j as int)
                } else {
                    match_from(b@, tokens@, j + 1, d - 1, o, c)
                }
            } else {
                match_from(b@, tokens@, j + 1, d, o, c)
            });
        }
        if is_open {
            opens += 1;
        } else if is_close {
            closes += 1;
            if opens == closes {
                return Some(j);
            }
        }
        j += 1;
    }
    None
}

// ---------------------------------------------------------------------------
// Exported functions.

/// Byte positions of an `export function name(...) { ... }` declaration.
#[derive(Debug, Clone, Copy)]
pub struct ExportFunction {
    pub function_start: usize,
    pub parameters_start: usize,
    pub parameters_end: usize,
    pub body_start: usize,
    pub body_end: usize,
    pub function_end: usize,
}

pub open spec fn export_at(ts: Seq<JsToken>, index: int, params_close: int, body_close: int) -> ExportFunction {
    ExportFunction {
        function_start: ts[index].start,
        parameters_start: ts[index + 3].end,
        parameters_end: ts[params_close].start,
        body_start: ts[params_close + 1].end,
        body_end: ts[body_close].start,
        function_end: ts[body_close].end,
    }
}

pub open spec fn cons_fn(f: ExportFunction, rest: Option<Seq<ExportFunction>>) -> Option<Seq<ExportFunction>> {
    match rest {
        Some(r) => Some(seq![f] + r),
        None => None,
    }
}

pub open spec fn prepend_fns(p: Seq<ExportFunction>, o: Option<Seq<ExportFunction>>) -> Option<Seq<ExportFunction>> {
    match o {
        Some(r) => Some(p + r),
        None => None,
    }
}

/// The `export function <name>` declarations from token `index` on; `None`
/// where one is not followed by a parameter list and a body that close.
pub open spec fn exports_from(b: Seq<u8>, ts: Seq<JsToken>, index: int, name: Seq<u8>) -> Option<Seq<ExportFunction>>
    decreases ts.len() - index,
{
    if index < 0 || index + 2 >= ts.len() {
        Some(Seq::empty())
    } else if !(text_at(b, ts, index, text_bytes("export"@)) && text_at(b, ts, index + 1, text_bytes("function"@))
        && text_at(b, ts, index + 2, name)) {
        exports_from(b, ts, index + 1, name)
    } else if !text_at(b, ts, index + 3, text_bytes("("@)) {
        None
    } else {
        match matching(b, ts, index + 3, text_bytes("("@), text_bytes(")"@)) {
            None => None,
            Some(pc) => if !text_at(b, ts, pc + 1, text_bytes("{"@)) {
                None
            } else {
                proof {
                    lemma_match_from_range(b, ts, index + 3, 0, text_bytes("("@), text_bytes(")"@));
                    lemma_match_from_range(b, ts, pc + 1, 0, text_bytes("{"@), text_bytes("}"@));
                }
                match matching(b, ts, pc + 1, text_bytes("{"@), text_bytes("}"@)) {
                    None => None,
                    Some(bc) => cons_fn(export_at(ts, index, pc, bc), exports_from(b, ts, bc + 1, name)),
                }
            },
        }
    }
}

proof fn lemma_prepend_cons_fn(p: Seq<ExportFunction>, f: ExportFunction, o: Option<Seq<ExportFunction>>)
    ensures
        prepend_fns(p, cons_fn(f, o)) == prepend_fns(p.push(f), o),
{
    if let Some(r) = o {
        assert(p + (seq![f] + r) =~= p.push(f) + r);
    }
}

/// The exported functions called `name`.
pub fn find_export_functions(b: &[u8], tokens: &[JsToken], name: &str) -> (r: Option<Vec<ExportFunction>>)
    ensures
        match r {
            Some(fs) => exports_from(b@, tokens@, 0, text_bytes(name@)) == Some(fs@),
            None => exports_from(b@, tokens@, 0, text_bytes(name@)) is None,
        },
{
    let ghost nm = text_bytes(name@);
    let mut functions: Vec<ExportFunction> = Vec::new();
    let mut index: usize = 0;
    proof {
        if let Some(r) = exports_from(b@, tokens@, 0, nm) {
            assert(Seq::<ExportFunction>::empty() + r =~= r);
        }
    }
    while tokens.len() >= 3 && index < tokens.len() - 2
        invariant
            nm == text_bytes(name@),
            exports_from(b@, tokens@, 0, nm) == prepend_fns(functions@, exports_from(b@, tokens@, index as int, nm)),
        decreases tokens@.len() - index,
    {
        let head = token_is(b, tokens[index], "export") && token_is(b, tokens[index + 1], "function")
            && token_is(b, tokens[index + 2], name);
        proof {
            assert(head == (text_at(b@, tokens@, index as int, text_bytes("export"@)) && text_at(b@, tokens@, index + 1, text_bytes("function"@))
                && text_at(b@, tokens@, index + 2, nm)));
        }
        if !head {
            proof {
                assert(exports_from(b@, tokens@, index as int, nm) == exports_from(b@, tokens@, index + 1, nm));
            }
            index += 1;
            continue;
        }
        let params_open = index + 3;
        if !token_at_is(b, tokens, params_open, "(") {
            proof {
                assert(exports_from(b@, tokens@, index as int, nm) is None);
            }
            return None;
        }
        let params_close = match find_matching_token(b, tokens, params_open, "(", ")") {
            Some(k) => k,
            None => {
                return None;
            },
        };
        proof {
            lemma_match_from_range(b@, tokens@, params_open as int, 0, text_bytes("("@), text_bytes(")"@));
        }
        let body_open = params_close + 1;
        if !token_at_is(b, tokens, body_open, "{") {
            return None;
        }
        let body_close = match find_matching_token(b, tokens, body_open, "{", "}") {
            Some(k) => k,
            None => {
                return None;
            },
        };
        proof {
            lemma_match_from_range(b@, tokens@, body_open as int, 0, text_bytes("{"@), text_bytes("}"@));
        }
        let f = ExportFunction {
            function_start: tokens[index].start,
            parameters_start: tokens[params_open].end,
            parameters_end: tokens[params_close].start,
            body_start: tokens[body_open].end,
            body_end: tokens[body_close].start,
            function_end: tokens[body_close].end,
        };
        proof {
            assert(f == export_at(tokens@, index as int, params_close as int, body_close as int));
            lemma_prepend_cons_fn(functions@, f, exports_from(b@, tokens@, body_close + 1, nm));
        }
        functions.push(f);
        index = body_close + 1;
    }
    proof {
        assert(functions@ + Seq::<ExportFunction>::empty() =~= functions@);
    }
    Some(functions)
}

// ---------------------------------------------------------------------------
// Operators.

pub open spec fn text2_at(b: Seq<u8>, ts: Seq<JsToken>, i: int, x: Seq<char>, y: Seq<char>) -> bool {
    text_at(b, ts, i, text_bytes(x)) && text_at(b, ts, i + 1, text_bytes(y))
}

pub open spec fn text3_at(b: Seq<u8>, ts: Seq<JsToken>, i: int, x: Seq<char>, y: Seq<char>, z: Seq<char>) -> bool {
    text2_at(b, ts, i, x, y) && text_at(b, ts, i + 2, text_bytes(z))
}

pub open spec fn text4_at(b: Seq<u8>, ts: Seq<JsToken>, i: int, w: Seq<char>, x: Seq<char>, y: Seq<char>, z: Seq<char>) -> bool {
    text3_at(b, ts, i, w, x, y) && text_at(b, ts, i + 3, text_bytes(z))
}

/// Token `index` starts an assignment operator: a lone `=` (not part of
/// `==`, `!=`, `<=`, `>=`, `=>`), or a compound assignment.
pub open spec fn assignment_at(b: Seq<u8>, ts: Seq<JsToken>, index: int) -> bool {
    let plain = text_at(b, ts, index, text_bytes("="@)) && !(index > 0 && (text_at(b, ts, index - 1, text_bytes("="@))
        || text_at(b, ts, index - 1, text_bytes("!"@)) || text_at(b, ts, index - 1, text_bytes("<"@))
        || text_at(b, ts, index - 1, text_bytes(">"@)))) && !(text_at(b, ts, index + 1, text_bytes("="@))
        || text_at(b, ts, index + 1, text_bytes(">"@)));
    ||| plain
    ||| text2_at(b, ts, index, "+"@, "="@)
    ||| text2_at(b, ts, index, "-"@, "="@)
    ||| text2_at(b, ts, index, "*"@, "="@)
    ||| text2_at(b, ts, index, "%"@, "="@)
    ||| text2_at(b, ts, index, "&"@, "="@)
    ||| text2_at(b, ts, index, "|"@, "="@)
    ||| text2_at(b, ts, index, "^"@, "="@)
    ||| text3_at(b, ts, index, "*"@, "*"@, "="@)
    ||| text3_at(b, ts, index, "&"@, "&"@, "="@)
    ||| text3_at(b, ts, index, "|"@, "|"@, "="@)
    ||| text3_at(b, ts, index, "?"@, "?"@, "="@)
    ||| text3_at(b, ts, index, "<"@, "<"@, "="@)
    ||| text3_at(b, ts, index, ">"@, ">"@, "="@)
    ||| text4_at(b, ts, index, ">"@, ">"@, ">"@, "="@)
}

pub fn tokens_match2(b: &[u8], ts: &[JsToken], i: usize, x: &str, y: &str) -> (r: bool)
    ensures
        r == text2_at(b@, ts@, i as int, x@, y@),
{
    token_at_is(b, ts, i, x) && i < ts.len() && token_at_is(b, ts, i + 1, y)
}

pub fn tokens_match3(b: &[u8], ts: &[JsToken], i: usize, x: &str, y: &str, z: &str) -> (r: bool)
    ensures
        r == text3_at(b@, ts@, i as int, x@, y@, z@),
{
    let _n = ts.len();
    tokens_match2(b, ts, i, x, y) && token_at_is(b, ts, i + 2, z)
}

pub fn tokens_match4(b: &[u8], ts: &[JsToken], i: usize, w: &str, x: &str, y: &str, z: &str) -> (r: bool)
    ensures
        r == text4_at(b@, ts@, i as int, w@, x@, y@, z@),
{
    let _n = ts.len();
    tokens_match3(b, ts, i, w, x, y) && token_at_is(b, ts, i + 3, z)
}

/// Token `index` starts an assignment operator.
pub fn is_assignment_operator(b: &[u8], ts: &[JsToken], index: usize) -> (r: bool)
    ensures
        r == assignment_at(b@, ts@, index as int),
{
    if index >= ts.len() {
        return false;
    }
    let plain = token_at_is(b, ts, index, "=") && !(index > 0 && (token_at_is(b, ts, index - 1, "=")
        || token_at_is(b, ts, index - 1, "!") || token_at_is(b, ts, index - 1, "<") || token_at_is(
        b,
        ts,
        index - 1,
        ">",
    ))) && !(token_at_is(b, ts, index + 1, "=") || token_at_is(b, ts, index + 1, ">"));
    plain || tokens_match2(b, ts, index, "+", "=") || tokens_match2(b, ts, index, "-", "=")
        || tokens_match2(b, ts, index, "*", "=") || tokens_match2(b, ts, index, "%", "=")
        || tokens_match2(b, ts, index, "&", "=") || tokens_match2(b, ts, index, "|", "=")
        || tokens_match2(b, ts, index, "^", "=") || tokens_match3(b, ts, index, "*", "*", "=")
        || tokens_match3(b, ts, index, "&", "&", "=") || tokens_match3(b, ts, index, "|", "|", "=")
        || tokens_match3(b, ts, index, "?", "?", "=") || tokens_match3(b, ts, index, "<", "<", "=")
        || tokens_match3(b, ts, index, ">", ">", "=") || tokens_match4(b, ts, index, ">", ">", ">", "=")
}

// ---------------------------------------------------------------------------
// Script analysis.

/// A scanned script: its tokens, its `export function cursorDown`
/// declarations, and whether it assigns `shared.doJump` or reads a computed
/// member of `shared`.
pub struct ScriptAnalysis {
    pub tokens: Vec<JsToken>,
    pub cursor_down_functions: Vec<ExportFunction>,
    pub has_shared_do_jump_owner: bool,
}

/// `shared . doJump <assignment>` or `shared [` occurs among the tokens.
pub open spec fn shared_owner(b: Seq<u8>, ts: Seq<JsToken>) -> bool {
    ||| exists|i: int|
        0 <= i && i + 3 < ts.len() && #[trigger] text3_at(b, ts, i, "shared"@, "."@, "doJump"@) && assignment_at(
            b,
            ts,
            i + 3,
        )
    ||| exists|i: int| 0 <= i && i + 1 < ts.len() && #[trigger] text2_at(b, ts, i, "shared"@, "["@)
}

/// Tokens, `cursorDown` exports and the owner flag of a script, or `None`
/// where it does not scan, its delimiters do not balance, or a `cursorDown`
/// export is malformed.
pub open spec fn spec_analysis(b: Seq<u8>) -> Option<(Seq<JsToken>, Seq<ExportFunction>, bool)> {
    match lex(b) {
        None => None,
        Some(ts) => if !balanced_from(b, ts, 0, Seq::empty()) {
            None
        } else {
            match exports_from(b, ts, 0, text_bytes("cursorDown"@)) {
                None => None,
                Some(fs) => Some((ts, fs, shared_owner(b, ts))),
            }
        },
    }
}

pub open spec fn analysis_view(a: ScriptAnalysis) -> (Seq<JsToken>, Seq<ExportFunction>, bool) {
    (a.tokens@, a.cursor_down_functions@, a.has_shared_do_jump_owner)
}

fn has_shared_owner(b: &[u8], ts: &[JsToken]) -> (r: bool)
    ensures
        r == shared_owner(b@, ts@),
{
    let n = ts.len();
    let mut i: usize = 0;
    while i < n
        invariant
            n == ts@.len(),
            i <= n,
            forall|k: int|
                0 <= k < i && k + 3 < ts@.len() ==> !(#[trigger] text3_at(b@, ts@, k, "shared"@, "."@, "doJump"@)
                    && assignment_at(b@, ts@, k + 3)),
            forall|k: int| 0 <= k < i && k + 1 < ts@.len() ==> !#[trigger] text2_at(b@, ts@, k, "shared"@, "["@),
        decreases n - i,
    {
        if n - i > 3 && tokens_match3(b, ts, i, "shared", ".", "doJump") && is_assignment_operator(b, ts, i + 3) {
            return true;
        }
        if n - i > 1 && tokens_match2(b, ts, i, "shared", "[") {
            return true;
        }
        i += 1;
    }
    false
}

/// Scans a script and collects what the rewrite checks need.
pub fn analyze_script(b: &[u8]) -> (r: Option<ScriptAnalysis>)
    ensures
        match r {
            Some(a) => spec_analysis(b@) == Some(analysis_view(a)),
            None => spec_analysis(b@) is None,
        },
{
    let tokens = match lex_javascript(b) {
        Some(ts) => ts,
        None => {
            return None;
        },
    };
    if !delimiters_are_balanced(b, tokens.as_slice()) {
        return None;
    }
    let cursor_down_functions = match find_export_functions(b, tokens.as_slice(), "cursorDown") {
        Some(fs) => fs,
        None => {
            return None;
        },
    };
    let owner = has_shared_owner(b, tokens.as_slice());
    Some(ScriptAnalysis { tokens, cursor_down_functions, has_shared_do_jump_owner: owner })
}

/// Some token's text is `identifier`.
pub open spec fn has_identifier(b: Seq<u8>, ts: Seq<JsToken>, identifier: Seq<char>) -> bool {
    exists|k: int| #[trigger] text_at(b, ts, k, text_bytes(identifier))
}

/// Some token of the analysis is `identifier` (outside strings and comments).
pub fn analysis_has_executable_identifier(b: &[u8], ts: &[JsToken], identifier: &str) -> (r: bool)
    ensures
        r == has_identifier(b@, ts@, identifier@),
{
    let mut k: usize = 0;
    while k < ts.len()
        invariant
            k <= ts@.len(),
            forall|j: int| 0 <= j < k ==> !#[trigger] text_at(b@, ts@, j, text_bytes(identifier@)),
        decreases ts@.len() - k,
    {
        if token_is(b, ts[k], identifier) {
            assert(text_at(b@, ts@, k as int, text_bytes(identifier@)));
            return true;
        }
        k += 1;
    }
    false
}

// ---------------------------------------------------------------------------
// Counting and selecting tokens.

/// Number of tokens whose text is `e`.
pub open spec fn count_text(b: Seq<u8>, ts: Seq<JsToken>, e: Seq<u8>) -> nat
    decreases ts.len(),
{
    if ts.len() == 0 {
        0
    } else {
        count_text(b, ts.drop_last(), e) + if text_is(b, ts.last(), e) {
            1nat
        } else {
            0nat
        }
    }
}

/// The tokens lying within `lo..hi`, in order.
pub open spec fn within(ts: Seq<JsToken>, lo: int, hi: int) -> Seq<JsToken>
    decreases ts.len(),
{
    if ts.len() == 0 {
        Seq::empty()
    } else if ts.last().start >= lo && ts.last().end <= hi {
        within(ts.drop_last(), lo, hi).push(ts.last())
    } else {
        within(ts.drop_last(), lo, hi)
    }
}

fn count_tokens(b: &[u8], ts: &[JsToken], e: &str) -> (r: usize)
    ensures
        r == count_text(b@, ts@, text_bytes(e@)),
{
    let mut n: usize = 0;
    let mut k: usize = 0;
    while k < ts.len()
        invariant
            k <= ts@.len(),
            n <= k,
            n == count_text(b@, ts@.subrange(0, k as int), text_bytes(e@)),
        decreases ts@.len() - k,
    {
        proof {
            assert(ts@.subrange(0, k + 1).drop_last() =~= ts@.subrange(0, k as int));
        }
        if token_is(b, ts[k], e) {
            n += 1;
        }
        k += 1;
    }
    proof {
        assert(ts@.subrange(0, ts@.len() as int) =~= ts@);
    }
    n
}

fn tokens_within(ts: &[JsToken], lo: usize, hi: usize) -> (r: Vec<JsToken>)
    ensures
        r@ == within(ts@, lo as int, hi as int),
{
    let mut out: Vec<JsToken> = Vec::new();
    let mut k: usize = 0;
    while k < ts.len()
        invariant
            k <= ts@.len(),
            out@ == within(ts@.subrange(0, k as int), lo as int, hi as int),
        decreases ts@.len() - k,
    {
        proof {
            assert(ts@.subrange(0, k + 1).drop_last() =~= ts@.subrange(0, k as int));
        }
        let t = ts[k];
        if t.start >= lo && t.end <= hi {
            out.push(t);
        }
        k += 1;
    }
    proof {
        assert(ts@.subrange(0, ts@.len() as int) =~= ts@);
    }
    out
}

/// The handler's only parameter is `event`; the script names `cursorDown`
/// once (the declaration); the body uses none of `event`, `this`,
/// `arguments`, `cursorDown`.
pub open spec fn handler_context_free(b: Seq<u8>, ts: Seq<JsToken>, f: ExportFunction) -> bool {
    let params = within(ts, f.parameters_start as int, f.parameters_end as int);
    &&& count_text(b, ts, text_bytes("cursorDown"@)) == 1
    &&& params.len() == 1
    &&& text_is(b, params[0], text_bytes("event"@))
    &&& !exists|k: int|
        0 <= k < ts.len() && ts[k].start >= f.body_start && ts[k].end <= f.body_end && (text_is(
            b,
            #[trigger] ts[k],
            text_bytes("event"@),
        ) || text_is(b, ts[k], text_bytes("this"@)) || text_is(b, ts[k], text_bytes("arguments"@)) || text_is(
            b,
            ts[k],
            text_bytes("cursorDown"@),
        ))
}

/// Moving the handler body elsewhere keeps its meaning.
pub fn cursor_handler_is_context_free(b: &[u8], ts: &[JsToken], f: &ExportFunction) -> (r: bool)
    ensures
        r == handler_context_free(b@, ts@, *f),
{
    if count_tokens(b, ts, "cursorDown") != 1 {
        return false;
    }
    let params = tokens_within(ts, f.parameters_start, f.parameters_end);
    if params.len() != 1 || !token_is(b, params[0], "event") {
        return false;
    }
    let mut k: usize = 0;
    while k < ts.len()
        invariant
            k <= ts@.len(),
            forall|j: int|
                0 <= j < k ==> !(ts@[j].start >= f.body_start && ts@[j].end <= f.body_end && (text_is(
                    b@,
                    #[trigger] ts@[j],
                    text_bytes("event"@),
                ) || text_is(b@, ts@[j], text_bytes("this"@)) || text_is(b@, ts@[j], text_bytes("arguments"@))
                    || text_is(b@, ts@[j], text_bytes("cursorDown"@)))),
        decreases ts@.len() - k,
    {
        let t = ts[k];
        if t.start >= f.body_start && t.end <= f.body_end && (token_is(b, t, "event") || token_is(b, t, "this")
            || token_is(b, t, "arguments") || token_is(b, t, "cursorDown")) {
            return false;
        }
        k += 1;
    }
    true
}

/// The function is exactly `cursorDown(event) { shared.doJump(); }` (the
/// `;` optional) and `shared` occurs once in the script.
pub open spec fn canonical_relay(b: Seq<u8>, ts: Seq<JsToken>, f: ExportFunction) -> bool {
    let params = within(ts, f.parameters_start as int, f.parameters_end as int);
    let body = within(ts, f.body_start as int, f.body_end as int);
    &&& count_text(b, ts, text_bytes("shared"@)) == 1
    &&& params.len() == 1
    &&& text_is(b, params[0], text_bytes("event"@))
    &&& (body.len() == 5 || body.len() == 6)
    &&& text_is(b, body[0], text_bytes("shared"@))
    &&& text_is(b, body[1], text_bytes("."@))
    &&& text_is(b, body[2], text_bytes("doJump"@))
    &&& text_is(b, body[3], text_bytes("("@))
    &&& text_is(b, body[4], text_bytes(")"@))
    &&& (body.len() == 5 || text_is(b, body[5], text_bytes(";"@)))
}

/// The handler is the canonical `shared.doJump()` relay.
pub fn function_is_canonical_shared_do_jump_relay(b: &[u8], ts: &[JsToken], f: &ExportFunction) -> (r: bool)
    ensures
        r == canonical_relay(b@, ts@, *f),
{
    if count_tokens(b, ts, "shared") != 1 {
        return false;
    }
    let params = tokens_within(ts, f.parameters_start, f.parameters_end);
    if params.len() != 1 || !token_is(b, params[0], "event") {
        return false;
    }
    let body = tokens_within(ts, f.body_start, f.body_end);
    if body.len() != 5 && body.len() != 6 {
        return false;
    }
    token_is(b, body[0], "shared") && token_is(b, body[1], ".") && token_is(b, body[2], "doJump") && token_is(
        b,
        body[3],
        "(",
    ) && token_is(b, body[4], ")") && (body.len() == 5 || token_is(b, body[5], ";"))
}

// ---------------------------------------------------------------------------
// Expression context of a token range.

/// Widens `start..=end` over enclosing parentheses that wrap exactly it.
pub open spec fn expand_parens(b: Seq<u8>, ts: Seq<JsToken>, start: int, end: int) -> (int, int)
    decreases start,
{
    if start > 0 && text_at(b, ts, start - 1, text_bytes("("@)) {
        match matching(b, ts, start - 1, text_bytes("("@), text_bytes(")"@)) {
            Some(close) => if close == end + 1 {
                expand_parens(b, ts, start - 1, close)
            } else {
                (start, end)
            },
            None => (start, end),
        }
    } else {
        (start, end)
    }
}

/// The widest parenthesized form `(...(start..=end)...)`.
pub fn expand_parenthesized_expression(b: &[u8], ts: &[JsToken], start: usize, end: usize) -> (r: (usize, usize))
    requires
        start <= end < ts@.len(),
    ensures
        (r.0 as int, r.1 as int) == expand_parens(b@, ts@, start as int, end as int),
        r.0 <= start,
        r.1 < ts@.len(),
{
    let n = ts.len();
    let mut s = start;
    let mut e = end;
    while s > 0 && token_at_is(b, ts, s - 1, "(")
        invariant
            n == ts@.len(),
            s <= start,
            e < n,
            expand_parens(b@, ts@, start as int, end as int) == expand_parens(b@, ts@, s as int, e as int),
        decreases s,
    {
        let open = s - 1;
        let close = match find_matching_token(b, ts, open, "(", ")") {
            Some(c) => c,
            None => {
                return (s, e);
            },
        };
        proof {
            lemma_match_from_range(b@, ts@, open as int, 0, text_bytes("("@), text_bytes(")"@));
        }
        if close != e + 1 {
            return (s, e);
        }
        s = open;
        e = close;
    }
    (s, e)
}

/// Token `op` is `in`/`of` and `target_start` directly follows `for (` or
/// `for await (`.
pub open spec fn for_target(b: Seq<u8>, ts: Seq<JsToken>, target_start: int, op: int) -> bool {
    &&& (text_at(b, ts, op, text_bytes("in"@)) || text_at(b, ts, op, text_bytes("of"@)))
    &&& target_start >= 2
    &&& ((text_at(b, ts, target_start - 1, text_bytes("("@)) && text_at(b, ts, target_start - 2, text_bytes("for"@)))
        || (target_start >= 3 && text_at(b, ts, target_start - 1, text_bytes("("@)) && text_at(
        b,
        ts,
        target_start - 2,
        text_bytes("await"@),
    ) && text_at(b, ts, target_start - 3, text_bytes("for"@))))
}

pub fn is_for_iteration_target(b: &[u8], ts: &[JsToken], target_start: usize, op: usize) -> (r: bool)
    ensures
        r == for_target(b@, ts@, target_start as int, op as int),
{
    if !(token_at_is(b, ts, op, "in") || token_at_is(b, ts, op, "of")) || target_start < 2 {
        return false;
    }
    let ordinary = token_at_is(b, ts, target_start - 1, "(") && token_at_is(b, ts, target_start - 2, "for");
    let awaited = target_start >= 3 && token_at_is(b, ts, target_start - 1, "(") && token_at_is(
        b,
        ts,
        target_start - 2,
        "await",
    ) && token_at_is(b, ts, target_start - 3, "for");
    ordinary || awaited
}

} // verus!
