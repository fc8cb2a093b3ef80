//! Rewrites of Scene scripts for mobile input: the desktop storage location
//! constants become the string locations the mobile engine reads, and a
//! non-empty `cursorDown` handler is moved into a shared `doJump` function
//! that the fullscreen layer can call.

use vstd::prelude::*;
use vstd::utf8::{encode_utf8, decode_utf8, valid_utf8, is_continuation_byte, is_ascii_chars};
use crate::project::kind::text_bytes;
use crate::scene::js_lex::{balanced_from, delimiters_are_balanced, lemma_lex_wf, lex, lex_javascript, text_at, text_is, token_at_is, token_is, tokens_wf, JsToken};
use crate::scene::script_rules::{
    analysis_has_executable_identifier, analysis_view, analyze_script, cursor_handler_is_context_free, exports_from,
    export_at, handler_context_free, has_identifier, lemma_match_from_range, match_from, matching, spec_analysis, ExportFunction,
};
use crate::scene::storage_rules::{local_storage_location_access_is_read_only, read_only};
use crate::codec::{spec_trim, trim_text, is_white_space, trim_end, trim_start};
use crate::text::{concat, lemma_encode_concat, string_from_utf8};

verus! {

// ---------------------------------------------------------------------------
// UTF-8 facts for cutting a script next to ASCII bytes.

/// A cut at `p` falls between characters because the byte there or the
/// byte before it is ASCII (or `p` is an end).
pub open spec fn ascii_edge(b: Seq<u8>, p: int) -> bool {
    ||| p == 0
    ||| p == b.len()
    ||| (0 <= p < b.len() && b[p] < 128)
    ||| (0 < p <= b.len() && b[p - 1] < 128)
}

proof fn lemma_after_ascii(b: Seq<u8>, i: int)
    requires
        valid_utf8(b),
        0 < i < b.len(),
        b[i - 1] < 128,
    ensures
        !is_continuation_byte(b[i]),
    decreases b.len(),
{
    reveal_with_fuel(valid_utf8, 2);
    let l = vstd::utf8::length_of_first_scalar(b);
    let rest = vstd::utf8::pop_first_scalar(b);
    assert(rest.len() == b.len() - l);
    if i - 1 < l {
        assert(i - 1 == 0);
        assert(l == 1);
        assert(rest[0] == b[i]);
        assert(rest.len() > 0);
    } else {
        assert(rest[i - l - 1] == b[i - 1]);
        assert(rest[i - l] == b[i]);
        lemma_after_ascii(rest, i - l);
    }
}

proof fn lemma_edge_boundary(b: Seq<u8>, p: int)
    requires
        valid_utf8(b),
        0 <= p <= b.len(),
        ascii_edge(b, p),
    ensures
        vstd::utf8::is_char_boundary(b, p),
        p < b.len() ==> !is_continuation_byte(b[p]),
{
    vstd::utf8::is_char_boundary_start_end_of_seq(b);
    if p < b.len() {
        if p > 0 && b[p - 1] < 128 {
            lemma_after_ascii(b, p);
        }
        vstd::utf8::is_char_boundary_iff_not_is_continuation_byte(b, p);
    }
}

/// The bytes between two ASCII edges of valid UTF-8 are valid UTF-8.
pub proof fn lemma_valid_piece(b: Seq<u8>, p: int, q: int)
    requires
        valid_utf8(b),
        0 <= p <= q <= b.len(),
        ascii_edge(b, p),
        ascii_edge(b, q),
    ensures
        valid_utf8(b.subrange(p, q)),
{
    lemma_edge_boundary(b, p);
    lemma_edge_boundary(b, q);
    vstd::utf8::valid_utf8_split(b, p);
    let s = b.subrange(p, b.len() as int);
    vstd::utf8::is_char_boundary_start_end_of_seq(s);
    if q < b.len() {
        assert(s[q - p] == b[q]);
        vstd::utf8::is_char_boundary_iff_not_is_continuation_byte(s, q - p);
    }
    vstd::utf8::valid_utf8_split(s, q - p);
    assert(s.subrange(0, q - p) =~= b.subrange(p, q));
}

/// The UTF-8 bytes of an ASCII literal are its characters.
pub proof fn lemma_ascii_bytes(lit: Seq<char>)
    requires
        is_ascii_chars(lit),
    ensures
        text_bytes(lit).len() == lit.len(),
        forall|i: int| 0 <= i < lit.len() ==> (#[trigger] text_bytes(lit)[i]) == lit[i] as u8 && text_bytes(lit)[i] < 128,
{
    vstd::utf8::is_ascii_chars_encode_utf8(lit);
    assert forall|i: int| 0 <= i < lit.len() implies (#[trigger] text_bytes(lit)[i]) == lit[i] as u8 && text_bytes(lit)[i] < 128 by {
        assert('\0' <= lit[i] <= '\u{7f}');
    }
}

/// A token whose text is a non-empty ASCII literal starts and ends on ASCII.
pub proof fn lemma_ascii_token(b: Seq<u8>, t: JsToken, lit: Seq<char>)
    requires
        text_is(b, t, text_bytes(lit)),
        is_ascii_chars(lit),
        lit.len() > 0,
    ensures
        t.start < t.end <= b.len(),
        t.end - t.start == lit.len(),
        b[t.start as int] < 128,
        b[t.end - 1] < 128,
        ascii_edge(b, t.start as int),
        ascii_edge(b, t.end as int),
{
    lemma_ascii_bytes(lit);
    let sub = b.subrange(t.start as int, t.end as int);
    assert(sub[0] == b[t.start as int]);
    assert(sub[lit.len() - 1] == b[t.end - 1]);
}

/// Text of the bytes `p..q` of a string cut at two ASCII edges.
pub fn str_between(s: &str, p: usize, q: usize) -> (r: &str)
    requires
        p <= q <= encode_utf8(s@).len(),
        ascii_edge(encode_utf8(s@), p as int),
        ascii_edge(encode_utf8(s@), q as int),
    ensures
        encode_utf8(r@) == encode_utf8(s@).subrange(p as int, q as int),
{
    let ghost b = encode_utf8(s@);
    proof {
        vstd::utf8::encode_utf8_valid_utf8(s@);
        lemma_edge_boundary(b, p as int);
        lemma_edge_boundary(b, q as int);
    }
    let (_, tail) = s.split_at(p);
    let ghost t = b.subrange(p as int, b.len() as int);
    proof {
        vstd::utf8::encode_utf8_valid_utf8(tail@);
        vstd::utf8::is_char_boundary_start_end_of_seq(t);
        if q < b.len() {
            assert(t[q - p] == b[q as int]);
            vstd::utf8::is_char_boundary_iff_not_is_continuation_byte(t, q - p);
        }
    }
    let (mid, _) = tail.split_at(q - p);
    proof {
        assert(t.subrange(0, q - p) =~= b.subrange(p as int, q as int));
    }
    mid
}

fn push_range(out: &mut Vec<u8>, b: &[u8], p: usize, q: usize)
    requires
        p <= q <= b@.len(),
    ensures
        final(out)@ == old(out)@ + b@.subrange(p as int, q as int),
{
    let ghost start = out@;
    let mut i = p;
    while i < q
        invariant
            p <= i <= q <= b@.len(),
            out@ == start + b@.subrange(p as int, i as int),
        decreases q - i,
    {
        out.push(b[i]);
        proof {
            assert(b@.subrange(p as int, i + 1) =~= b@.subrange(p as int, i as int).push(b@[i as int]));
        }
        i += 1;
    }
}

// ---------------------------------------------------------------------------
// Storage locations.

/// The string location that replaces `localStorage.LOCATION_*` at `k`.
pub open spec fn location_replacement(b: Seq<u8>, ts: Seq<JsToken>, k: int) -> Option<Seq<char>> {
    if text_at(b, ts, k + 2, text_bytes("LOCATION_GLOBAL"@)) {
        Some("'global'"@)
    } else if text_at(b, ts, k + 2, text_bytes("LOCATION_DEFAULT"@)) {
        Some("'default'"@)
    } else {
        None
    }
}

/// `localStorage . LOCATION_*` at `k`, not itself read off another object.
pub open spec fn target_access(b: Seq<u8>, ts: Seq<JsToken>, k: int) -> bool {
    &&& text_at(b, ts, k, text_bytes("localStorage"@))
    &&& text_at(b, ts, k + 1, text_bytes("."@))
    &&& location_replacement(b, ts, k) is Some
    &&& !(k > 0 && text_at(b, ts, k - 1, text_bytes("."@)))
}

/// The `localStorage` at `k` is `localStorage.LOCATION_*` (not read off
/// another object) or a direct `localStorage.get(` / `localStorage.set(`.
pub open spec fn storage_use_ok(b: Seq<u8>, ts: Seq<JsToken>, k: int) -> bool {
    &&& text_at(b, ts, k + 1, text_bytes("."@))
    &&& if location_replacement(b, ts, k) is Some {
        !(k > 0 && text_at(b, ts, k - 1, text_bytes("."@)))
    } else {
        (text_at(b, ts, k + 2, text_bytes("get"@)) || text_at(b, ts, k + 2, text_bytes("set"@))) && text_at(
            b,
            ts,
            k + 3,
            text_bytes("("@),
        )
    }
}

/// Indices of the target accesses from token `k` on.
pub open spec fn targets_from(b: Seq<u8>, ts: Seq<JsToken>, k: int) -> Seq<int>
    decreases ts.len() - k,
{
    if k < 0 || k >= ts.len() {
        Seq::empty()
    } else if target_access(b, ts, k) {
        seq![k] + targets_from(b, ts, k + 1)
    } else {
        targets_from(b, ts, k + 1)
    }
}

/// The script from byte `pos` on with each target access in `targets`
/// (in order) replaced: `localStorage` by the string location, the `.` and
/// the constant removed, the bytes around them kept.
pub open spec fn splice_targets(b: Seq<u8>, ts: Seq<JsToken>, pos: int, targets: Seq<int>) -> Seq<u8>
    decreases targets.len(),
{
    if targets.len() == 0 {
        b.subrange(pos, b.len() as int)
    } else {
        let k = targets[0];
        b.subrange(pos, ts[k].start as int) + text_bytes(location_replacement(b, ts, k)->0) + b.subrange(
            ts[k].end as int,
            ts[k + 1].start as int,
        ) + b.subrange(ts[k + 1].end as int, ts[k + 2].start as int) + splice_targets(
            b,
            ts,
            ts[k + 2].end as int,
            targets.drop_first(),
        )
    }
}

/// The rewritten script bytes, or `None` where the script does not scan,
/// its delimiters do not balance, a location access is written to, or a
/// `localStorage` use is of another shape.
pub open spec fn spec_rewrite_locations(b: Seq<u8>) -> Option<Seq<u8>> {
    match lex(b) {
        None => None,
        Some(ts) => if !balanced_from(b, ts, 0, Seq::empty()) {
            None
        } else if exists|k: int| #[trigger] target_access(b, ts, k) && !read_only(b, ts, k) {
            None
        } else if exists|k: int| #[trigger] text_at(b, ts, k, text_bytes("localStorage"@)) && !storage_use_ok(b, ts, k) {
            None
        } else {
            Some(splice_targets(b, ts, 0, targets_from(b, ts, 0)))
        },
    }
}

fn location_replacement_at(b: &[u8], ts: &[JsToken], k: usize) -> (r: Option<&'static str>)
    ensures
        match r {
            Some(s) => location_replacement(b@, ts@, k as int) == Some(s@),
            None => location_replacement(b@, ts@, k as int) is None,
        },
{
    let n = ts.len();
    if k < n && n - k > 2 && token_is(b, ts[k + 2], "LOCATION_GLOBAL") {
        Some("'global'")
    } else if k < n && n - k > 2 && token_is(b, ts[k + 2], "LOCATION_DEFAULT") {
        Some("'default'")
    } else {
        None
    }
}

proof fn lemma_literals_ascii()
    ensures
        is_ascii_chars("localStorage"@),
        is_ascii_chars("."@),
        is_ascii_chars("LOCATION_GLOBAL"@),
        is_ascii_chars("LOCATION_DEFAULT"@),
        is_ascii_chars("'global'"@),
        is_ascii_chars("'default'"@),
        "localStorage"@.len() == 12,
        "."@.len() == 1,
        "LOCATION_GLOBAL"@.len() == 15,
        "LOCATION_DEFAULT"@.len() == 16,
{
    reveal_strlit("localStorage");
    reveal_strlit(".");
    reveal_strlit("LOCATION_GLOBAL");
    reveal_strlit("LOCATION_DEFAULT");
    reveal_strlit("'global'");
    reveal_strlit("'default'");
}

/// Edges and order of the three tokens of a target access.
proof fn lemma_target_edges(b: Seq<u8>, ts: Seq<JsToken>, k: int)
    requires
        target_access(b, ts, k),
        tokens_wf(ts, 0, b.len() as int),
    ensures
        k + 2 < ts.len(),
        ts[k].start < ts[k].end <= ts[k + 1].start < ts[k + 1].end <= ts[k + 2].start < ts[k + 2].end <= b.len(),
        ascii_edge(b, ts[k].start as int),
        ascii_edge(b, ts[k].end as int),
        ascii_edge(b, ts[k + 1].start as int),
        ascii_edge(b, ts[k + 1].end as int),
        ascii_edge(b, ts[k + 2].start as int),
        ascii_edge(b, ts[k + 2].end as int),
        is_ascii_chars(location_replacement(b, ts, k)->0),
{
    lemma_literals_ascii();
    lemma_ascii_token(b, ts[k], "localStorage"@);
    lemma_ascii_token(b, ts[k + 1], "."@);
    if text_at(b, ts, k + 2, text_bytes("LOCATION_GLOBAL"@)) {
        lemma_ascii_token(b, ts[k + 2], "LOCATION_GLOBAL"@);
    } else {
        lemma_ascii_token(b, ts[k + 2], "LOCATION_DEFAULT"@);
    }
    assert(ts[k].end <= ts[k + 1].start);
    assert(ts[k + 1].end <= ts[k + 2].start);
}

/// Rewrites `localStorage.LOCATION_GLOBAL` / `LOCATION_DEFAULT` reads to
/// `'global'` / `'default'` in executable code; `None` where any storage use
/// is outside the shapes known to work on mobile.
pub fn rewrite_local_storage_locations(script: &str) -> (r: Option<String>)
    ensures
        match r {
            Some(out) => spec_rewrite_locations(encode_utf8(script@)) == Some(encode_utf8(out@)),
            None => spec_rewrite_locations(encode_utf8(script@)) is None,
        },
{
    let b = script.as_bytes();
    let ghost bs = b@;
    let tokens = match lex_javascript(b) {
        Some(ts) => ts,
        None => {
            return None;
        },
    };
    let ts = tokens.as_slice();
    let n = ts.len();
    let blen = b.len();
    if !delimiters_are_balanced(b, ts) {
        return None;
    }
    proof {
        lemma_lex_wf(bs, 0);
        lemma_literals_ascii();
    }
    assert(bs == encode_utf8(script@));
    assert(lex(bs) == Some(ts@));
    // Target accesses, each only read.
    let mut targets: Vec<usize> = Vec::new();
    let mut k: usize = 0;
    while k < n
        invariant
            n == ts@.len(),
            k <= n,
            b@ == bs,
            bs == encode_utf8(script@),
            lex(bs) == Some(ts@),
            balanced_from(bs, ts@, 0, Seq::empty()),
            forall|j: int| 0 <= j < k ==> !(#[trigger] target_access(bs, ts@, j) && !read_only(bs, ts@, j)),
            targets_from(bs, ts@, 0) == targets@.map_values(|x: usize| x as int) + targets_from(bs, ts@, k as int),
            forall|i: int| 0 <= i < targets@.len() ==> (#[trigger] targets@[i]) < k && target_access(bs, ts@, targets@[i] as int),
            forall|i: int, j: int| 0 <= i < j < targets@.len() ==> (#[trigger] targets@[i]) < (#[trigger] targets@[j]),
        decreases n - k,
    {
        let is_target = token_is(b, ts[k], "localStorage") && token_at_is(b, ts, k + 1, ".")
            && location_replacement_at(b, ts, k).is_some() && !(k > 0 && token_is(b, ts[k - 1], "."));
        proof {
            assert(is_target == target_access(bs, ts@, k as int));
            let m = targets@.map_values(|x: usize| x as int);
            if is_target {
                assert(targets_from(bs, ts@, k as int) == seq![k as int] + targets_from(bs, ts@, k + 1));
                assert((targets@.push(k)).map_values(|x: usize| x as int) =~= m.push(k as int));
                assert(m + (seq![k as int] + targets_from(bs, ts@, k + 1)) =~= m.push(k as int) + targets_from(bs, ts@, k + 1));
            } else {
                assert(targets_from(bs, ts@, k as int) == targets_from(bs, ts@, k + 1));
            }
        }
        if is_target {
            if !local_storage_location_access_is_read_only(b, ts, k) {
                assert(target_access(bs, ts@, k as int));
                return None;
            }
            targets.push(k);
        }
        k += 1;
    }
    // Every `localStorage` use has a known shape.
    let mut k: usize = 0;
    while k < n
        invariant
            n == ts@.len(),
            k <= n,
            b@ == bs,
            bs == encode_utf8(script@),
            lex(bs) == Some(ts@),
            balanced_from(bs, ts@, 0, Seq::empty()),
            forall|j: int| 0 <= j < bs.len() ==> !(#[trigger] target_access(bs, ts@, j) && !read_only(bs, ts@, j)),
            forall|j: int| 0 <= j < k ==> !(#[trigger] text_at(bs, ts@, j, text_bytes("localStorage"@)) && !storage_use_ok(bs, ts@, j)),
        decreases n - k,
    {
        if token_is(b, ts[k], "localStorage") {
            if !token_at_is(b, ts, k + 1, ".") {
                assert(text_at(bs, ts@, k as int, text_bytes("localStorage"@)));
                return None;
            }
            let is_location = location_replacement_at(b, ts, k).is_some();
            if !is_location {
                let verified_method = (token_at_is(b, ts, k + 2, "get") || token_at_is(b, ts, k + 2, "set"))
                    && token_at_is(b, ts, k + 3, "(");
                if !verified_method {
                    assert(text_at(bs, ts@, k as int, text_bytes("localStorage"@)));
                    return None;
                }
            } else if k > 0 && token_is(b, ts[k - 1], ".") {
                assert(text_at(bs, ts@, k as int, text_bytes("localStorage"@)));
                return None;
            }
        }
        k += 1;
    }
    proof {
        assert(targets_from(bs, ts@, n as int) == Seq::<int>::empty());
        assert(targets@.map_values(|x: usize| x as int) + Seq::<int>::empty() =~= targets@.map_values(|x: usize| x as int));
        vstd::utf8::encode_utf8_valid_utf8(script@);
    }
    // Output: kept bytes and replacements, left to right.
    let mut out: Vec<u8> = Vec::new();
    let mut pos: usize = 0;
    let mut i: usize = 0;
    let ghost all = targets@.map_values(|x: usize| x as int);
    proof {
        assert(all.subrange(0, all.len() as int) =~= all);
        assert(Seq::<u8>::empty() + splice_targets(bs, ts@, 0, all) =~= splice_targets(bs, ts@, 0, all));
        assert(valid_utf8(Seq::<u8>::empty()));
    }
    while i < targets.len()
        invariant
            n == ts@.len(),
            b@ == bs,
            valid_utf8(bs),
            tokens_wf(ts@, 0, bs.len() as int),
            all == targets@.map_values(|x: usize| x as int),
            forall|j: int| 0 <= j < targets@.len() ==> target_access(bs, ts@, #[trigger] targets@[j] as int),
            forall|x: int, y: int| 0 <= x < y < targets@.len() ==> (#[trigger] targets@[x]) < (#[trigger] targets@[y]),
            i <= targets@.len(),
            pos <= bs.len(),
            ascii_edge(bs, pos as int),
            i < targets@.len() ==> pos <= ts@[targets@[i as int] as int].start,
            valid_utf8(out@),
            splice_targets(bs, ts@, 0, all) == out@ + splice_targets(bs, ts@, pos as int, all.subrange(i as int, all.len() as int)),
        decreases targets@.len() - i,
    {
        let k = targets[i];
        proof {
            lemma_target_edges(bs, ts@, k as int);
        }
        let rep = location_replacement_at(b, ts, k).unwrap();
        let ghost before = out@;
        let t0 = ts[k];
        let t1 = ts[k + 1];
        let t2 = ts[k + 2];
        push_range(&mut out, b, pos, t0.start);
        let rb = rep.as_bytes();
        let mut j: usize = 0;
        while j < rb.len()
            invariant
                j <= rb@.len(),
                out@ == before + bs.subrange(pos as int, t0.start as int) + rb@.subrange(0, j as int),
            decreases rb@.len() - j,
        {
            out.push(rb[j]);
            proof {
                assert(rb@.subrange(0, j + 1) =~= rb@.subrange(0, j as int).push(rb@[j as int]));
            }
            j += 1;
        }
        proof {
            assert(rb@.subrange(0, rb@.len() as int) =~= rb@);
        }
        push_range(&mut out, b, t0.end, t1.start);
        push_range(&mut out, b, t1.end, t2.start);
        proof {
            lemma_output_step(bs, ts@, before, pos as int, all, i as int, rb@);
            if i + 1 < targets@.len() {
                let k2 = targets@[i + 1];
                lemma_targets_spaced(bs, ts@, k as int, k2 as int);
            }
        }
        pos = t2.end;
        i += 1;
    }
    let ghost before_last = out@;
    push_range(&mut out, b, pos, blen);
    proof {
        lemma_valid_piece(bs, pos as int, bs.len() as int);
        vstd::utf8::valid_utf8_concat(before_last, bs.subrange(pos as int, bs.len() as int));
        assert(all.subrange(i as int, all.len() as int) =~= Seq::<int>::empty());
        assert(targets_from(bs, ts@, n as int) == Seq::<int>::empty());
        assert(all + Seq::<int>::empty() =~= all);
    }
    let ghost bytes = out@;
    match string_from_utf8(out) {
        Some(s) => {
            proof {
                vstd::utf8::decode_utf8_encode_utf8(bytes);
            }
            Some(s)
        },
        None => None,
    }
}

/// Two target accesses are at least three tokens apart.
proof fn lemma_targets_spaced(b: Seq<u8>, ts: Seq<JsToken>, k: int, k2: int)
    requires
        target_access(b, ts, k),
        target_access(b, ts, k2),
        k < k2,
    ensures
        k2 >= k + 3,
{
    lemma_literals_ascii();
    lemma_ascii_bytes("."@);
    lemma_ascii_bytes("localStorage"@);
    lemma_ascii_bytes("LOCATION_GLOBAL"@);
    lemma_ascii_bytes("LOCATION_DEFAULT"@);
    if k2 == k + 1 {
        assert(b.subrange(ts[k2].start as int, ts[k2].end as int).len() == 1);
    }
    if k2 == k + 2 {
        assert(b.subrange(ts[k2].start as int, ts[k2].end as int).len() == 12);
    }
}

/// One target access of the output: the appended pieces are valid UTF-8
/// and match one unfolding of `splice_targets`.
proof fn lemma_output_step(b: Seq<u8>, ts: Seq<JsToken>, before: Seq<u8>, pos: int, all: Seq<int>, i: int, rb: Seq<u8>)
    requires
        valid_utf8(b),
        valid_utf8(before),
        tokens_wf(ts, 0, b.len() as int),
        0 <= i < all.len(),
        target_access(b, ts, all[i]),
        0 <= pos <= ts[all[i]].start,
        ascii_edge(b, pos),
        rb == text_bytes(location_replacement(b, ts, all[i])->0),
    ensures
        ({
            let k = all[i];
            let after = before + b.subrange(pos, ts[k].start as int) + rb + b.subrange(ts[k].end as int, ts[k + 1].start as int)
                + b.subrange(ts[k + 1].end as int, ts[k + 2].start as int);
            &&& valid_utf8(after)
            &&& before + splice_targets(b, ts, pos, all.subrange(i, all.len() as int)) == after + splice_targets(
                b,
                ts,
                ts[k + 2].end as int,
                all.subrange(i + 1, all.len() as int),
            )
        }),
{
    let k = all[i];
    lemma_target_edges(b, ts, k);
    let p1 = b.subrange(pos, ts[k].start as int);
    let p3 = b.subrange(ts[k].end as int, ts[k + 1].start as int);
    let p4 = b.subrange(ts[k + 1].end as int, ts[k + 2].start as int);
    lemma_valid_piece(b, pos, ts[k].start as int);
    lemma_valid_piece(b, ts[k].end as int, ts[k + 1].start as int);
    lemma_valid_piece(b, ts[k + 1].end as int, ts[k + 2].start as int);
    vstd::utf8::encode_utf8_valid_utf8(location_replacement(b, ts, k)->0);
    vstd::utf8::valid_utf8_concat(before, p1);
    vstd::utf8::valid_utf8_concat(before + p1, rb);
    vstd::utf8::valid_utf8_concat(before + p1 + rb, p3);
    vstd::utf8::valid_utf8_concat(before + p1 + rb + p3, p4);
    let rest = all.subrange(i, all.len() as int);
    assert(rest[0] == k);
    assert(rest.drop_first() =~= all.subrange(i + 1, all.len() as int));
    let tail = splice_targets(b, ts, ts[k + 2].end as int, rest.drop_first());
    assert(splice_targets(b, ts, pos, rest) == p1 + rb + p3 + p4 + tail);
    assert(before + (p1 + rb + p3 + p4 + tail) =~= before + p1 + rb + p3 + p4 + tail);
}

// ---------------------------------------------------------------------------
// Moving the cursor handler.

/// The characters of the script's bytes `p..q`.
pub open spec fn chars_between(s: Seq<char>, p: int, q: int) -> Seq<char> {
    decode_utf8(encode_utf8(s).subrange(p, q))
}

/// Positions of a well-formed export: ordered, each next to an ASCII byte.
pub open spec fn export_ok(b: Seq<u8>, f: ExportFunction) -> bool {
    &&& f.function_start < f.body_start <= f.body_end < f.function_end <= b.len()
    &&& ascii_edge(b, f.function_start as int)
    &&& ascii_edge(b, f.body_start as int)
    &&& ascii_edge(b, f.body_end as int)
    &&& ascii_edge(b, f.function_end as int)
}

pub proof fn lemma_exports_ok(b: Seq<u8>, ts: Seq<JsToken>, k: int, name: Seq<u8>)
    requires
        tokens_wf(ts, 0, b.len() as int),
    ensures
        exports_from(b, ts, k, name) matches Some(fs) ==> forall|i: int| 0 <= i < fs.len() ==> export_ok(b, #[trigger] fs[i]),
    decreases ts.len() - k,
{
    if k < 0 || k + 2 >= ts.len() {
    } else if !(text_at(b, ts, k, text_bytes("export"@)) && text_at(b, ts, k + 1, text_bytes("function"@)) && text_at(b, ts, k + 2, name)) {
        lemma_exports_ok(b, ts, k + 1, name);
    } else if !text_at(b, ts, k + 3, text_bytes("("@)) {
    } else {
        lemma_match_from_range(b, ts, k + 3, 0, text_bytes("("@), text_bytes(")"@));
        if let Some(pc) = matching(b, ts, k + 3, text_bytes("("@), text_bytes(")"@)) {
            if text_at(b, ts, pc + 1, text_bytes("{"@)) {
                lemma_match_from_range(b, ts, pc + 1, 0, text_bytes("{"@), text_bytes("}"@));
                lemma_match_from_range(b, ts, pc + 2, 1, text_bytes("{"@), text_bytes("}"@));
                reveal_strlit("export");
                reveal_strlit("{");
                reveal_strlit("}");
                if let Some(bc) = matching(b, ts, pc + 1, text_bytes("{"@), text_bytes("}"@)) {
                    assert(bc > pc + 1);
                    lemma_exports_ok(b, ts, bc + 1, name);
                    let f = export_at(ts, k, pc, bc);
                    lemma_ascii_token(b, ts[k], "export"@);
                    lemma_ascii_token(b, ts[pc + 1], "{"@);
                    lemma_ascii_token(b, ts[bc], "}"@);
                    assert(ts[k].end <= ts[pc + 1].start);
                    assert(ts[pc + 1].end <= ts[bc].start);
                    assert(export_ok(b, f));
                    if let Some(rest) = exports_from(b, ts, bc + 1, name) {
                        let all = seq![f] + rest;
                        assert forall|i: int| 0 <= i < all.len() implies export_ok(b, #[trigger] all[i]) by {
                            if i > 0 {
                                assert(all[i] == rest[i - 1]);
                            }
                        }
                    }
                }
            }
        }
    }
}

/// The script with its `cursorDown` handler `f` emptied and the trimmed
/// body (which never ends in white space) moved into `doJump`, shared as
/// `shared.doJump`.
pub open spec fn moved_handler(s: Seq<char>, f: ExportFunction) -> Seq<char> {
    chars_between(s, 0, f.function_start as int) + "function doJump() {\n"@ + spec_trim(
        chars_between(s, f.body_start as int, f.body_end as int),
    ) + "\n"@ + "}\n\nshared.doJump = doJump;\n\n"@
        + "/**\n * @param {ICursorEvent} event\n */\nexport function cursorDown(event) {\n}\n"@ + chars_between(
        s,
        f.function_end as int,
        encode_utf8(s).len() as int,
    )
}

/// The bytes of the rewritten script, or `None` where the handler cannot be
/// moved safely: the script does not scan, uses `eval`, already owns
/// `shared.doJump`, has other than one `cursorDown` export, names `shared`
/// or `doJump`, has a handler that depends on its context, an empty
/// handler, or storage uses of unknown shape.
pub open spec fn spec_rewrite_cursor_down(s: Seq<char>) -> Option<Seq<u8>> {
    let b = encode_utf8(s);
    match spec_analysis(b) {
        None => None,
        Some((ts, fs, owner)) => if has_identifier(b, ts, "eval"@) || owner || fs.len() != 1 || has_identifier(
            b,
            ts,
            "shared"@,
        ) || has_identifier(b, ts, "doJump"@) || !handler_context_free(b, ts, fs[0]) || spec_trim(
            chars_between(s, fs[0].body_start as int, fs[0].body_end as int),
        ).len() == 0 {
            None
        } else {
            spec_rewrite_locations(encode_utf8(moved_handler(s, fs[0])))
        },
    }
}

/// Moves a non-empty `cursorDown` body into `shared.doJump` (see
/// `spec_rewrite_cursor_down`), then rewrites storage locations.
pub fn rewrite_cursor_down_script(script: &str) -> (r: Option<String>)
    ensures
        match r {
            Some(out) => spec_rewrite_cursor_down(script@) == Some(encode_utf8(out@)),
            None => spec_rewrite_cursor_down(script@) is None,
        },
{
    let b = script.as_bytes();
    let blen = b.len();
    let analysis = match analyze_script(b) {
        Some(a) => a,
        None => {
            return None;
        },
    };
    let ts = analysis.tokens.as_slice();
    if analysis_has_executable_identifier(b, ts, "eval") || analysis.has_shared_do_jump_owner {
        return None;
    }
    if analysis.cursor_down_functions.len() != 1 {
        return None;
    }
    let f = analysis.cursor_down_functions[0];
    if analysis_has_executable_identifier(b, ts, "shared") || analysis_has_executable_identifier(b, ts, "doJump")
        || !cursor_handler_is_context_free(b, ts, &f) {
        return None;
    }
    proof {
        lemma_lex_wf(b@, 0);
        lemma_exports_ok(b@, ts@, 0, text_bytes("cursorDown"@));
        assert(export_ok(b@, analysis.cursor_down_functions@[0]));
    }
    let raw_body = str_between(script, f.body_start, f.body_end);
    let prefix = str_between(script, 0, f.function_start);
    let suffix = str_between(script, f.function_end, blen);
    proof {
        lemma_chars_between(script@, 0, f.function_start as int);
        lemma_chars_between(script@, f.body_start as int, f.body_end as int);
        lemma_chars_between(script@, f.function_end as int, blen as int);
        assert(raw_body@ == chars_between(script@, f.body_start as int, f.body_end as int));
        assert(prefix@ == chars_between(script@, 0, f.function_start as int));
        assert(suffix@ == chars_between(script@, f.function_end as int, blen as int));
        assert(b@ == encode_utf8(script@));
        assert(spec_analysis(b@) == Some(analysis_view(analysis)));
    }
    let body = trim_text(raw_body);
    if body.is_empty() {
        return None;
    }
    let mut out = prefix.to_owned();
    out.append("function doJump() {\n");
    out.append(body);
    out.append("\n");
    out.append("}\n\nshared.doJump = doJump;\n\n");
    out.append("/**\n * @param {ICursorEvent} event\n */\nexport function cursorDown(event) {\n}\n");
    out.append(suffix);
    assert(out@ == moved_handler(script@, f));
    rewrite_local_storage_locations(out.as_str())
}

/// A text whose bytes are the bytes `p..q` of `s` is `chars_between(s, p, q)`.
pub proof fn lemma_chars_between(s: Seq<char>, p: int, q: int)
    ensures
        forall|t: Seq<char>| encode_utf8(t) == #[trigger] encode_utf8(s).subrange(p, q) ==> t == chars_between(s, p, q),
{
    assert forall|t: Seq<char>| encode_utf8(t) == #[trigger] encode_utf8(s).subrange(p, q) implies t == chars_between(s, p, q) by {
        vstd::utf8::encode_utf8_decode_utf8(t);
    }
}

/// Storage uses outside a handler are already in mobile form: no
/// `localStorage` token, or the location rewrite leaves the script as is.
pub open spec fn storage_already_mobile(s: Seq<char>, ts: Seq<JsToken>) -> bool {
    !has_identifier(encode_utf8(s), ts, "localStorage"@) || spec_rewrite_locations(encode_utf8(s)) == Some(
        encode_utf8(s),
    )
}

pub fn non_handler_local_storage_is_safe(script: &str, ts: &[JsToken]) -> (r: bool)
    ensures
        r == storage_already_mobile(script@, ts@),
{
    if !analysis_has_executable_identifier(script.as_bytes(), ts, "localStorage") {
        return true;
    }
    match rewrite_local_storage_locations(script) {
        Some(rewritten) => {
            proof {
                vstd::utf8::encode_utf8_decode_utf8(rewritten@);
                vstd::utf8::encode_utf8_decode_utf8(script@);
            }
            crate::json::str_eq(rewritten.as_str(), script)
        },
        None => false,
    }
}

} // verus!
