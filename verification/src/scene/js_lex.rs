//! A narrow scanner for Scene scripts (JavaScript). It yields tokens for
//! identifiers, string literals and every other single byte; line
//! terminators, whitespace and comments are skipped. Anything whose reading
//! needs the full grammar (a `/` that is not a comment, a backslash outside a
//! string, a template literal, an unterminated string or comment) makes the
//! whole scan fail, so callers leave such scripts alone.

use vstd::prelude::*;
use crate::text::{ascii_alnum, ascii_alpha, ascii_space, bytes_eq_at, is_alnum, is_alpha, is_space};
use crate::project::kind::text_bytes;

verus! {

/// Byte range `start..end` of a token in the script.
#[derive(Debug, Clone, Copy)]
pub struct JsToken {
    pub start: usize,
    pub end: usize,
}

pub open spec fn tok(s: int, e: int) -> JsToken {
    JsToken { start: s as usize, end: e as usize }
}

/// Length of the line terminator (CR LF, CR, LF, U+2028, U+2029) at `i`,
/// 0 where there is none.
pub open spec fn line_term_len(b: Seq<u8>, i: int) -> int {
    if 0 <= i < b.len() {
        if b[i] == 13 {
            if i + 1 < b.len() && b[i + 1] == 10 {
                2
            } else {
                1
            }
        } else if b[i] == 10 {
            1
        } else if b[i] == 0xE2 && i + 2 < b.len() && b[i + 1] == 0x80 && (b[i + 2] == 0xA8
            || b[i + 2] == 0xA9) {
            3
        } else {
            0
        }
    } else {
        0
    }
}

pub open spec fn ident_start(c: u8) -> bool {
    is_alpha(c) || c == 95 || c == 36
}

pub open spec fn ident_continue(c: u8) -> bool {
    is_alnum(c) || c == 95 || c == 36
}

/// End of the identifier characters starting at `j`.
pub open spec fn ident_end(b: Seq<u8>, j: int) -> int
    decreases b.len() - j,
{
    if 0 <= j < b.len() && ident_continue(b[j]) {
        ident_end(b, j + 1)
    } else {
        j
    }
}

/// End of a `//` comment whose text starts at `j`: the next line terminator
/// or the end of the script.
pub open spec fn line_comment_end(b: Seq<u8>, j: int) -> int
    decreases b.len() - j,
{
    if 0 <= j < b.len() && line_term_len(b, j) == 0 {
        line_comment_end(b, j + 1)
    } else {
        j
    }
}

/// Position after the `*/` that closes a block comment whose text starts at
/// `j`, if there is one.
pub open spec fn block_comment_end(b: Seq<u8>, j: int) -> Option<int>
    decreases b.len() - j,
{
    if 0 <= j && j + 1 < b.len() {
        if b[j] == 42 && b[j + 1] == 47 {
            Some(j + 2)
        } else {
            block_comment_end(b, j + 1)
        }
    } else {
        None
    }
}

/// Position after the closing `quote` of a string literal whose body starts
/// at `j`. A backslash escapes the next byte or line terminator; an
/// unescaped line terminator or the end of the script leaves it unclosed.
pub open spec fn string_end(b: Seq<u8>, quote: u8, j: int) -> Option<int>
    decreases b.len() + 4 - j,
{
    if 0 <= j < b.len() {
        if b[j] == 92 {
            let step = if line_term_len(b, j + 1) > 0 {
                line_term_len(b, j + 1) + 1
            } else {
                2
            };
            if j + step > usize::MAX {
                None
            } else {
                string_end(b, quote, j + step)
            }
        } else if b[j] == quote {
            Some(j + 1)
        } else if line_term_len(b, j) > 0 {
            None
        } else {
            string_end(b, quote, j + 1)
        }
    } else {
        None
    }
}

pub proof fn lemma_ident_end(b: Seq<u8>, j: int)
    requires
        0 <= j <= b.len(),
    ensures
        j <= ident_end(b, j) <= b.len(),
    decreases b.len() - j,
{
    if j < b.len() && ident_continue(b[j]) {
        lemma_ident_end(b, j + 1);
    }
}

pub proof fn lemma_line_comment_end(b: Seq<u8>, j: int)
    requires
        0 <= j <= b.len(),
    ensures
        j <= line_comment_end(b, j) <= b.len(),
    decreases b.len() - j,
{
    if j < b.len() && line_term_len(b, j) == 0 {
        lemma_line_comment_end(b, j + 1);
    }
}

pub proof fn lemma_block_comment_end(b: Seq<u8>, j: int)
    requires
        0 <= j,
    ensures
        block_comment_end(b, j) matches Some(e) ==> j + 2 <= e <= b.len(),
    decreases b.len() - j,
{
    if j + 1 < b.len() && !(b[j] == 42 && b[j + 1] == 47) {
        lemma_block_comment_end(b, j + 1);
    }
}

pub proof fn lemma_string_end(b: Seq<u8>, quote: u8, j: int)
    requires
        0 <= j,
    ensures
        string_end(b, quote, j) matches Some(e) ==> j < e <= b.len(),
    decreases b.len() + 4 - j,
{
    if j < b.len() {
        if b[j] == 92 {
            let step = if line_term_len(b, j + 1) > 0 {
                line_term_len(b, j + 1) + 1
            } else {
                2
            };
            if j + step <= usize::MAX {
                lemma_string_end(b, quote, j + step);
            }
        } else if b[j] != quote && line_term_len(b, j) == 0 {
            lemma_string_end(b, quote, j + 1);
        }
    }
}

/// Puts token `t` in front of the tokens of a successful scan.
pub open spec fn cons_tok(t: JsToken, rest: Option<Seq<JsToken>>) -> Option<Seq<JsToken>> {
    match rest {
        Some(r) => Some(seq![t] + r),
        None => None,
    }
}

/// The tokens of the script bytes from position `i` on, or `None` where the
/// scan refuses the script.
pub open spec fn lex_from(b: Seq<u8>, i: int) -> Option<Seq<JsToken>>
    decreases b.len() - i,
{
    if i < 0 || i >= b.len() {
        Some(Seq::empty())
    } else if line_term_len(b, i) > 0 {
        lex_from(b, i + line_term_len(b, i))
    } else if is_space(b[i]) {
        lex_from(b, i + 1)
    } else if b[i] == 47 && i + 1 < b.len() && b[i + 1] == 47 {
        proof {
            lemma_line_comment_end(b, i + 2);
        }
        lex_from(b, line_comment_end(b, i + 2))
    } else if b[i] == 47 && i + 1 < b.len() && b[i + 1] == 42 {
        proof {
            lemma_block_comment_end(b, i + 2);
        }
        match block_comment_end(b, i + 2) {
            Some(e) => lex_from(b, e),
            None => None,
        }
    } else if b[i] == 47 || b[i] == 92 || b[i] == 96 {
        None
    } else if b[i] == 39 || b[i] == 34 {
        proof {
            lemma_string_end(b, b[i], i + 1);
        }
        match string_end(b, b[i], i + 1) {
            Some(e) => cons_tok(tok(i, e), lex_from(b, e)),
            None => None,
        }
    } else if ident_start(b[i]) {
        proof {
            lemma_ident_end(b, i + 1);
        }
        cons_tok(tok(i, ident_end(b, i + 1)), lex_from(b, ident_end(b, i + 1)))
    } else {
        cons_tok(tok(i, i + 1), lex_from(b, i + 1))
    }
}

/// The tokens of a whole script.
pub open spec fn lex(b: Seq<u8>) -> Option<Seq<JsToken>> {
    lex_from(b, 0)
}

/// Tokens lie inside the script, in order, without overlapping.
pub open spec fn tokens_wf(ts: Seq<JsToken>, lo: int, n: int) -> bool {
    &&& forall|k: int| 0 <= k < ts.len() ==> lo <= (#[trigger] ts[k]).start < ts[k].end <= n
    &&& forall|k: int, l: int| 0 <= k < l < ts.len() ==> (#[trigger] ts[k]).end <= (#[trigger] ts[l]).start
}

proof fn lemma_cons_wf(t: JsToken, r: Seq<JsToken>, lo: int, n: int)
    requires
        lo <= t.start < t.end <= n,
        tokens_wf(r, t.end as int, n),
    ensures
        tokens_wf(seq![t] + r, lo, n),
{
    let s = seq![t] + r;
    assert forall|k: int| 0 <= k < s.len() implies lo <= (#[trigger] s[k]).start < s[k].end <= n by {
        if k > 0 {
            assert(s[k] == r[k - 1]);
        }
    }
    assert forall|k: int, l: int| 0 <= k < l < s.len() implies (#[trigger] s[k]).end <= (#[trigger] s[l]).start by {
        assert(s[l] == r[l - 1]);
        if k > 0 {
            assert(s[k] == r[k - 1]);
        } else {
            assert(r[l - 1].start >= t.end);
        }
    }
}

proof fn lemma_wf_weaken(ts: Seq<JsToken>, lo: int, lo2: int, n: int)
    requires
        tokens_wf(ts, lo, n),
        lo2 <= lo,
    ensures
        tokens_wf(ts, lo2, n),
{
}

/// Every successful scan yields well-placed tokens.
pub proof fn lemma_lex_wf(b: Seq<u8>, i: int)
    requires
        0 <= i,
        b.len() <= usize::MAX,
    ensures
        lex_from(b, i) matches Some(ts) ==> tokens_wf(ts, i, b.len() as int),
    decreases b.len() - i,
{
    let n = b.len() as int;
    if i >= n {
    } else if line_term_len(b, i) > 0 {
        lemma_lex_wf(b, i + line_term_len(b, i));
        if let Some(ts) = lex_from(b, i) {
            lemma_wf_weaken(ts, i + line_term_len(b, i), i, n);
        }
    } else if is_space(b[i]) {
        lemma_lex_wf(b, i + 1);
    } else if b[i] == 47 && i + 1 < n && b[i + 1] == 47 {
        lemma_line_comment_end(b, i + 2);
        lemma_lex_wf(b, line_comment_end(b, i + 2));
        if let Some(ts) = lex_from(b, i) {
            lemma_wf_weaken(ts, line_comment_end(b, i + 2), i, n);
        }
    } else if b[i] == 47 && i + 1 < n && b[i + 1] == 42 {
        lemma_block_comment_end(b, i + 2);
        if let Some(e) = block_comment_end(b, i + 2) {
            lemma_lex_wf(b, e);
            if let Some(ts) = lex_from(b, i) {
                lemma_wf_weaken(ts, e, i, n);
            }
        }
    } else if b[i] == 47 || b[i] == 92 || b[i] == 96 {
    } else if b[i] == 39 || b[i] == 34 {
        lemma_string_end(b, b[i], i + 1);
        if let Some(e) = string_end(b, b[i], i + 1) {
            lemma_lex_wf(b, e);
            if let Some(r) = lex_from(b, e) {
                lemma_cons_wf(tok(i, e), r, i, n);
            }
        }
    } else if ident_start(b[i]) {
        lemma_ident_end(b, i + 1);
        let e = ident_end(b, i + 1);
        lemma_lex_wf(b, e);
        if let Some(r) = lex_from(b, e) {
            lemma_cons_wf(tok(i, e), r, i, n);
        }
    } else {
        lemma_lex_wf(b, i + 1);
        if let Some(r) = lex_from(b, i + 1) {
            lemma_cons_wf(tok(i, i + 1), r, i, n);
        }
    }
}

/// Length of the line terminator at `index`, if one starts there.
pub fn line_terminator_sequence_len_at(bytes: &[u8], index: usize) -> (r: Option<usize>)
    ensures
        r is Some <==> line_term_len(bytes@, index as int) > 0,
        r matches Some(n) ==> n == line_term_len(bytes@, index as int),
{
    let n = bytes.len();
    if index >= n {
        return None;
    }
    let c = bytes[index];
    if c == 13 {
        if n - index > 1 && bytes[index + 1] == 10 {
            Some(2)
        } else {
            Some(1)
        }
    } else if c == 10 {
        Some(1)
    } else if c == 0xE2 && n - index > 2 && bytes[index + 1] == 0x80 && (bytes[index + 2] == 0xA8
        || bytes[index + 2] == 0xA9) {
        Some(3)
    } else {
        None
    }
}

fn skip_identifier(b: &[u8], j: usize) -> (r: usize)
    requires
        j <= b@.len(),
    ensures
        r == ident_end(b@, j as int),
{
    let mut i = j;
    while i < b.len() && (ascii_alnum(b[i]) || b[i] == 95 || b[i] == 36)
        invariant
            j <= i <= b@.len(),
            ident_end(b@, j as int) == ident_end(b@, i as int),
        decreases b@.len() - i,
    {
        i += 1;
    }
    i
}

fn skip_line_comment(b: &[u8], j: usize) -> (r: usize)
    requires
        j <= b@.len(),
    ensures
        r == line_comment_end(b@, j as int),
{
    let mut i = j;
    while i < b.len() && line_terminator_sequence_len_at(b, i).is_none()
        invariant
            j <= i <= b@.len(),
            line_comment_end(b@, j as int) == line_comment_end(b@, i as int),
        decreases b@.len() - i,
    {
        i += 1;
    }
    i
}

fn skip_block_comment(b: &[u8], j: usize) -> (r: Option<usize>)
    requires
        j <= b@.len(),
    ensures
        match r {
            Some(e) => block_comment_end(b@, j as int) == Some(e as int),
            None => block_comment_end(b@, j as int) is None,
        },
{
    let mut i = j;
    while b.len() - i > 1
        invariant
            j <= i <= b@.len(),
            block_comment_end(b@, j as int) == block_comment_end(b@, i as int),
        decreases b@.len() - i,
    {
        if b[i] == 42 && b[i + 1] == 47 {
            return Some(i + 2);
        }
        i += 1;
    }
    None
}

fn skip_string(b: &[u8], quote: u8, j: usize) -> (r: Option<usize>)
    requires
        j <= b@.len(),
    ensures
        match r {
            Some(e) => string_end(b@, quote, j as int) == Some(e as int),
            None => string_end(b@, quote, j as int) is None,
        },
{
    let mut i = j;
    while i < b.len()
        invariant
            i <= b@.len() + 3,
            string_end(b@, quote, j as int) == string_end(b@, quote, i as int),
        decreases b@.len() + 4 - i,
    {
        if b[i] == 92 {
            let step: usize = match line_terminator_sequence_len_at(b, i + 1) {
                Some(length) => length + 1,
                None => 2,
            };
            match i.checked_add(step) {
                Some(next) => {
                    i = next;
                },
                None => {
                    return None;
                },
            }
            continue;
        }
        if b[i] == quote {
            return Some(i + 1);
        }
        if line_terminator_sequence_len_at(b, i).is_some() {
            return None;
        }
        i += 1;
    }
    None
}

proof fn lemma_prepend_cons(p: Seq<JsToken>, t: JsToken, o: Option<Seq<JsToken>>)
    ensures
        prepend(p, cons_tok(t, o)) == prepend(p.push(t), o),
{
    if let Some(r) = o {
        assert(p + (seq![t] + r) =~= p.push(t) + r);
    }
}

/// `p` followed by the tokens of a successful scan.
pub open spec fn prepend(p: Seq<JsToken>, o: Option<Seq<JsToken>>) -> Option<Seq<JsToken>> {
    match o {
        Some(r) => Some(p + r),
        None => None,
    }
}

/// Tokens of a Scene script's bytes, or `None` where the narrow scanner
/// refuses the script.
pub fn lex_javascript(bytes: &[u8]) -> (r: Option<Vec<JsToken>>)
    ensures
        match r {
            Some(ts) => lex(bytes@) == Some(ts@),
            None => lex(bytes@) is None,
        },
{
    let n = bytes.len();
    let mut tokens: Vec<JsToken> = Vec::new();
    let mut i: usize = 0;
    proof {
        assert(tokens@ + Seq::<JsToken>::empty() =~= tokens@);
        if let Some(r) = lex_from(bytes@, 0) {
            assert(Seq::<JsToken>::empty() + r =~= r);
        }
    }
    while i < n
        invariant
            n == bytes@.len(),
            i <= n,
            lex(bytes@) == prepend(tokens@, lex_from(bytes@, i as int)),
        decreases n - i,
    {
        let c = bytes[i];
        let next_slash = n - i > 1 && bytes[i + 1] == 47;
        let next_star = n - i > 1 && bytes[i + 1] == 42;
        match line_terminator_sequence_len_at(bytes, i) {
            Some(length) => {
                i += length;
                continue;
            },
            None => {},
        }
        if ascii_space(c) {
            i += 1;
            continue;
        }
        if c == 47 && next_slash {
            proof {
                lemma_line_comment_end(bytes@, i + 2);
            }
            i = skip_line_comment(bytes, i + 2);
            continue;
        }
        if c == 47 && next_star {
            proof {
                lemma_block_comment_end(bytes@, i + 2);
            }
            match skip_block_comment(bytes, i + 2) {
                Some(e) => {
                    i = e;
                    continue;
                },
                None => {
                    return None;
                },
            }
        }
        if c == 47 || c == 92 || c == 96 {
            return None;
        }
        let start = i;
        if c == 39 || c == 34 {
            proof {
                lemma_string_end(bytes@, c, i + 1);
            }
            match skip_string(bytes, c, i + 1) {
                Some(e) => {
                    i = e;
                },
                None => {
                    return None;
                },
            }
        } else if ascii_alpha(c) || c == 95 || c == 36 {
            proof {
                lemma_ident_end(bytes@, i + 1);
            }
            i = skip_identifier(bytes, i + 1);
        } else {
            i += 1;
        }
        let t = JsToken { start, end: i };
        proof {
            assert(t == tok(start as int, i as int));
            lemma_prepend_cons(tokens@, t, lex_from(bytes@, i as int));
        }
        tokens.push(t);
    }
    proof {
        assert(tokens@ + Seq::<JsToken>::empty() =~= tokens@);
    }
    Some(tokens)
}

// ---------------------------------------------------------------------------
// Token text.

/// The token's bytes are exactly `expected`.
pub open spec fn text_is(b: Seq<u8>, t: JsToken, expected: Seq<u8>) -> bool {
    t.start <= t.end <= b.len() && b.subrange(t.start as int, t.end as int) == expected
}

/// Token `index` exists and its text is `expected`.
pub open spec fn text_at(b: Seq<u8>, ts: Seq<JsToken>, index: int, expected: Seq<u8>) -> bool {
    0 <= index < ts.len() && text_is(b, ts[index], expected)
}

/// The token's text is `expected` (an ASCII word or punctuator; the byte
/// comparison is then the same as comparing the script's text).
pub fn token_is(b: &[u8], t: JsToken, expected: &str) -> (r: bool)
    ensures
        r == text_is(b@, t, text_bytes(expected@)),
{
    let e = expected.as_bytes();
    if t.start <= t.end && t.end <= b.len() && t.end - t.start == e.len() {
        bytes_eq_at(b, t.start, e)
    } else {
        false
    }
}

/// Token `index` exists and its text is `expected`.
pub fn token_at_is(b: &[u8], ts: &[JsToken], index: usize, expected: &str) -> (r: bool)
    ensures
        r == text_at(b@, ts@, index as int, text_bytes(expected@)),
{
    index < ts.len() && token_is(b, ts[index], expected)
}

// ---------------------------------------------------------------------------
// Delimiters.

/// 1, 2, 3 for `(`, `[`, `{`; -1, -2, -3 for `)`, `]`, `}`; else 0.
pub open spec fn delim_kind(b: Seq<u8>, t: JsToken) -> int {
    if text_is(b, t, text_bytes("("@)) {
        1
    } else if text_is(b, t, text_bytes("["@)) {
        2
    } else if text_is(b, t, text_bytes("{"@)) {
        3
    } else if text_is(b, t, text_bytes(")"@)) {
        -1
    } else if text_is(b, t, text_bytes("]"@)) {
        -2
    } else if text_is(b, t, text_bytes("}"@)) {
        -3
    } else {
        0
    }
}

/// Tokens `k..` close the open delimiters on `stack` and every delimiter
/// they open, each with its own kind.
pub open spec fn balanced_from(b: Seq<u8>, ts: Seq<JsToken>, k: int, stack: Seq<int>) -> bool
    decreases ts.len() - k,
{
    if k < 0 || k >= ts.len() {
        stack.len() == 0
    } else if delim_kind(b, ts[k]) > 0 {
        balanced_from(b, ts, k + 1, stack.push(delim_kind(b, ts[k])))
    } else if delim_kind(b, ts[k]) < 0 {
        stack.len() > 0 && stack.last() == -delim_kind(b, ts[k]) && balanced_from(
            b,
            ts,
            k + 1,
            stack.drop_last(),
        )
    } else {
        balanced_from(b, ts, k + 1, stack)
    }
}

fn delimiter_kind(b: &[u8], t: JsToken) -> (r: i8)
    ensures
        r as int == delim_kind(b@, t),
{
    if token_is(b, t, "(") {
        1
    } else if token_is(b, t, "[") {
        2
    } else if token_is(b, t, "{") {
        3
    } else if token_is(b, t, ")") {
        -1
    } else if token_is(b, t, "]") {
        -2
    } else if token_is(b, t, "}") {
        -3
    } else {
        0
    }
}

pub open spec fn kind_view(s: Seq<i8>) -> Seq<int> {
    Seq::new(s.len(), |i: int| s[i] as int)
}

/// Every `(`, `[`, `{` is closed by its own kind, in nesting order.
pub fn delimiters_are_balanced(b: &[u8], tokens: &[JsToken]) -> (r: bool)
    ensures
        r == balanced_from(b@, tokens@, 0, Seq::empty()),
{
    let mut stack: Vec<i8> = Vec::new();
    let mut k: usize = 0;
    proof {
        assert(kind_view(stack@) =~= Seq::<int>::empty());
    }
    while k < tokens.len()
        invariant
            k <= tokens@.len(),
            balanced_from(b@, tokens@, 0, Seq::empty()) == balanced_from(b@, tokens@, k as int, kind_view(stack@)),
        decreases tokens@.len() - k,
    {
        let d = delimiter_kind(b, tokens[k]);
        if d > 0 {
            proof {
                assert(kind_view(stack@.push(d)) =~= kind_view(stack@).push(d as int));
            }
            stack.push(d);
        } else if d < 0 {
            let ghost before = stack@;
            match stack.pop() {
                Some(top) => {
                    proof {
                        assert(kind_view(stack@) =~= kind_view(before).drop_last());
                        assert(kind_view(before).last() == top as int);
                    }
                    if top != -d {
                        return false;
                    }
                },
                None => {
                    return false;
                },
            }
        }
        k += 1;
    }
    stack.len() == 0
}

} // verus!
