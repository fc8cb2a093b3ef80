//! Scene references: the strings of JSON documents that look like project
//! paths, and a small lexical scanner for explicit
//! `engine.registerAsset('...')` calls in scripts.

use vstd::prelude::*;
use crate::error::{Error, Result};
use crate::json::{model_items, model_pairs, JsonModel, JsonValue};
use crate::json_order::{lemma_model_items_index, lemma_model_pairs_index};
use crate::project::kind::text_bytes;
use crate::text::{ascii_alnum, ascii_space, bytes_eq_ignore_case_at, eq_ignore_case, has_ascii_extension,
    is_alnum, is_space, last_index_of, lemma_last_index_of, spec_has_extension, string_from_utf8};

verus! {

/// Read-only closure of the local references of a Scene: its entry and the
/// existing project-relative paths it reaches, sorted by path bytes.
#[derive(Debug, Clone, PartialEq, Eq)]
pub struct SceneReferenceReport {
    pub scene_entry: String,
    pub local_references: Vec<String>,
}

// ---------------------------------------------------------------------------
// JSON strings

/// Every string in a value, in document order.
pub open spec fn json_strings(m: JsonModel) -> Seq<Seq<char>>
    decreases m, 2int,
{
    match m {
        JsonModel::String(s) => seq![s],
        JsonModel::Array(items) => items_strings(items),
        JsonModel::Object(ps) => pairs_strings(ps),
        _ => Seq::empty(),
    }
}

pub open spec fn items_strings(items: Seq<JsonModel>) -> Seq<Seq<char>>
    decreases items, 1int,
{
    if items.len() == 0 {
        Seq::empty()
    } else {
        proof {
            assert(decreases_to!(items => items[items.len() - 1]));
        }
        items_strings(items.drop_last()) + json_strings(items.last())
    }
}

pub open spec fn pairs_strings(ps: Seq<(Seq<char>, JsonModel)>) -> Seq<Seq<char>>
    decreases ps, 1int,
{
    if ps.len() == 0 {
        Seq::empty()
    } else {
        proof {
            assert(decreases_to!(ps => ps[ps.len() - 1]));
            assert(decreases_to!(ps[ps.len() - 1] => ps[ps.len() - 1].1));
        }
        pairs_strings(ps.drop_last()) + json_strings(ps.last().1)
    }
}

pub open spec fn texts(v: Seq<String>) -> Seq<Seq<char>> {
    Seq::new(v.len(), |k: int| v[k]@)
}

#[verifier::loop_isolation(false)]
fn collect_json_strings_into(value: &JsonValue, out: &mut Vec<String>)
    ensures
        texts(final(out)@) == texts(old(out)@) + json_strings(value.model()),
    decreases value,
{
    match value {
        JsonValue::String(text) => {
            let ghost before = out@;
            out.push(text.clone());
            assert(texts(out@) =~= texts(before) + seq![text@]);
        },
        JsonValue::Array(items) => {
            let ghost start = texts(out@);
            let ghost ms = model_items(items@);
            proof {
                lemma_model_items_index(items@);
                assert(ms.take(0) =~= Seq::<JsonModel>::empty());
                assert(start + items_strings(ms.take(0)) =~= start);
            }
            let mut i: usize = 0;
            while i < items.len()
                invariant
                    i <= items@.len(),
                    ms == model_items(items@),
                    ms.len() == items@.len(),
                    forall|j: int| 0 <= j < items@.len() ==> #[trigger] ms[j] == items@[j].model(),
                    texts(out@) == start + items_strings(ms.take(i as int)),
                decreases items@.len() - i,
            {
                proof {
                    assert(*items == value->Array_0);
                    assert(decreases_to!(*value => value->Array_0));
                    vstd::std_specs::vec::axiom_vec_index_decreases(*items, i as int);
                    assert(decreases_to!(*items => items[i as int]));
                    assert(decreases_to!(*value => items[i as int]));
                    assert(ms.take(i + 1).drop_last() =~= ms.take(i as int));
                    assert(ms.take(i + 1).last() == ms[i as int]);
                }
                collect_json_strings_into(&items[i], out);
                proof {
                    assert(texts(out@) =~= start + items_strings(ms.take(i + 1)));
                }
                i += 1;
            }
            proof {
                assert(ms.take(items@.len() as int) =~= ms);
            }
        },
        JsonValue::Object(pairs) => {
            let ghost start = texts(out@);
            let ghost ms = model_pairs(pairs@);
            proof {
                lemma_model_pairs_index(pairs@);
                assert(ms.take(0) =~= Seq::<(Seq<char>, JsonModel)>::empty());
                assert(start + pairs_strings(ms.take(0)) =~= start);
            }
            let mut i: usize = 0;
            while i < pairs.len()
                invariant
                    i <= pairs@.len(),
                    ms == model_pairs(pairs@),
                    ms.len() == pairs@.len(),
                    forall|j: int| 0 <= j < pairs@.len() ==> #[trigger] ms[j] == (pairs@[j].0@, pairs@[j].1.model()),
                    texts(out@) == start + pairs_strings(ms.take(i as int)),
                decreases pairs@.len() - i,
            {
                proof {
                    assert(*pairs == value->Object_0);
                    assert(decreases_to!(*value => value->Object_0));
                    vstd::std_specs::vec::axiom_vec_index_decreases(*pairs, i as int);
                    assert(decreases_to!(*pairs => pairs[i as int]));
                    assert(decreases_to!(*value => pairs[i as int]));
                    assert(decreases_to!(pairs[i as int] => pairs[i as int].1));
                    assert(ms.take(i + 1).drop_last() =~= ms.take(i as int));
                    assert(ms.take(i + 1).last() == ms[i as int]);
                }
                collect_json_strings_into(&pairs[i].1, out);
                proof {
                    assert(texts(out@) =~= start + pairs_strings(ms.take(i + 1)));
                }
                i += 1;
            }
            proof {
                assert(ms.take(pairs@.len() as int) =~= ms);
            }
        },
        _ => {
            assert(texts(out@) =~= texts(out@) + json_strings(value.model()));
        },
    }
}

/// Every string of a JSON document, in document order.
pub fn collect_json_strings(value: &JsonValue) -> (r: Vec<String>)
    ensures
        texts(r@) == json_strings(value.model()),
{
    let mut out: Vec<String> = Vec::new();
    assert(texts(out@) =~= Seq::<Seq<char>>::empty());
    collect_json_strings_into(value, &mut out);
    assert(Seq::<Seq<char>>::empty() + json_strings(value.model()) =~= json_strings(value.model()));
    out
}

/// A byte of an asset-like extension.
pub open spec fn ext_byte(b: u8) -> bool {
    is_alnum(b) || b == 95 || b == 45
}

/// A JSON string that names a project file: non-empty, without NUL or
/// space, and either holding a `/` or ending in a dot and an extension of
/// 1 to 16 letters, digits, `_` or `-`.
pub open spec fn looks_like_relative(b: Seq<u8>) -> bool {
    if b.len() == 0 || b.contains(0u8) || b.contains(32u8) {
        false
    } else if b.contains(47u8) {
        true
    } else {
        let k = last_index_of(b, 46);
        k >= 0 && 0 < b.len() - k - 1 <= 16 && forall|j: int| k < j < b.len() ==> #[trigger] ext_byte(b[j])
    }
}

#[verifier::loop_isolation(false)]
pub fn looks_like_relative_path(value: &str) -> (r: bool)
    ensures
        r == looks_like_relative(text_bytes(value@)),
{
    let b = value.as_bytes();
    let n = b.len();
    if n == 0 {
        return false;
    }
    let mut i: usize = 0;
    let mut slash = false;
    let mut dot: usize = n;
    while i < n
        invariant
            n == b@.len(),
            b@ == text_bytes(value@),
            i <= n,
            dot <= n,
            forall|j: int| 0 <= j < i ==> b@[j] != 0 && b@[j] != 32,
            slash == exists|j: int| 0 <= j < i && b@[j] == 47,
            dot < n ==> dot < i && b@[dot as int] == 46 && forall|j: int| dot < j < i ==> b@[j] != 46,
            dot == n ==> forall|j: int| 0 <= j < i ==> b@[j] != 46,
        decreases n - i,
    {
        let c = b[i];
        if c == 0 || c == 32 {
            assert(b@.contains(c));
            return false;
        }
        if c == 47 {
            slash = true;
        }
        if c == 46 {
            dot = i;
        }
        i += 1;
    }
    proof {
        assert(!b@.contains(0u8));
        assert(!b@.contains(32u8));
        if slash {
            let j = choose|j: int| 0 <= j < n && b@[j] == 47;
            assert(b@.contains(b@[j]));
        } else {
            assert(!b@.contains(47u8));
        }
        lemma_last_index_of(b@, 46);
        if dot < n {
            assert(last_index_of(b@, 46) == dot);
        } else {
            assert(last_index_of(b@, 46) < 0);
        }
    }
    if slash {
        return true;
    }
    if dot == n {
        return false;
    }
    let ext_len = n - dot - 1;
    if ext_len == 0 || ext_len > 16 {
        return false;
    }
    let mut j = dot + 1;
    while j < n
        invariant
            n == b@.len(),
            b@ == text_bytes(value@),
            dot < j <= n,
            forall|m: int| dot < m < j ==> #[trigger] ext_byte(b@[m]),
        decreases n - j,
    {
        let c = b[j];
        if !(ascii_alnum(c) || c == 95 || c == 45) {
            assert(!ext_byte(b@[j as int]));
            return false;
        }
        j += 1;
    }
    true
}

pub open spec fn json_path(b: Seq<u8>) -> bool {
    spec_has_extension(b, text_bytes("json"@))
}

pub open spec fn script_path(b: Seq<u8>) -> bool {
    spec_has_extension(b, text_bytes("js"@))
}

pub fn is_json_path(path: &str) -> (r: bool)
    ensures
        r == json_path(text_bytes(path@)),
{
    has_ascii_extension(path.as_bytes(), "json".as_bytes())
}

pub fn is_script_path(path: &str) -> (r: bool)
    ensures
        r == script_path(text_bytes(path@)),
{
    has_ascii_extension(path.as_bytes(), "js".as_bytes())
}

// ---------------------------------------------------------------------------
// Script scanner

/// A byte that continues a JavaScript identifier (ASCII view).
pub open spec fn ident_byte(b: u8) -> bool {
    is_alnum(b) || b == 95 || b == 36
}

pub fn is_ident_byte(b: u8) -> (r: bool)
    ensures
        r == ident_byte(b),
{
    ascii_alnum(b) || b == 95 || b == 36
}

/// `kw` stands at `i`, in any ASCII case, as a whole identifier.
pub open spec fn keyword_at(src: Seq<u8>, i: int, kw: Seq<u8>) -> bool {
    &&& 0 <= i
    &&& i + kw.len() <= src.len()
    &&& eq_ignore_case(src.subrange(i, i + kw.len()), kw)
    &&& !(i > 0 && ident_byte(src[i - 1]))
    &&& !(i + kw.len() < src.len() && ident_byte(src[i + kw.len()]))
}

pub fn match_keyword_at(src: &[u8], index: usize, keyword: &[u8]) -> (r: bool)
    ensures
        r == keyword_at(src@, index as int, keyword@),
{
    if index > src.len() || keyword.len() > src.len() - index {
        return false;
    }
    if !bytes_eq_ignore_case_at(src, index, keyword) {
        return false;
    }
    if index > 0 && is_ident_byte(src[index - 1]) {
        return false;
    }
    let end = index + keyword.len();
    if end < src.len() && is_ident_byte(src[end]) {
        return false;
    }
    true
}

/// First position at or after `k` that is not ASCII whitespace.
pub open spec fn ws_end(src: Seq<u8>, k: int) -> int
    decreases src.len() - k,
{
    if k < src.len() && is_space(src[k]) {
        ws_end(src, k + 1)
    } else {
        k
    }
}

pub fn skip_ws(src: &[u8], index: usize) -> (r: usize)
    ensures
        r == ws_end(src@, index as int),
{
    let mut i = index;
    while i < src.len() && ascii_space(src[i])
        invariant
            index <= i,
            ws_end(src@, i as int) == ws_end(src@, index as int),
        decreases src@.len() - i,
    {
        i += 1;
    }
    i
}

/// End of a line comment whose text starts at `k`: the next line feed, or
/// the end of the source.
pub open spec fn line_end(src: Seq<u8>, k: int) -> int
    decreases src.len() - k,
{
    if k < src.len() && src[k] != 10 {
        line_end(src, k + 1)
    } else {
        k
    }
}

fn skip_line(src: &[u8], index: usize) -> (r: usize)
    ensures
        r == line_end(src@, index as int),
{
    let mut i = index;
    while i < src.len() && src[i] != 10
        invariant
            index <= i,
            line_end(src@, i as int) == line_end(src@, index as int),
        decreases src@.len() - i,
    {
        i += 1;
    }
    i
}

/// Position after a block comment whose text starts at `k`: two past the
/// closing `*/`, or at least the end of the source when it is missing.
pub open spec fn block_end(src: Seq<u8>, k: int) -> int
    decreases src.len() - k,
{
    if k + 1 < src.len() && !(src[k] == 42 && src[k + 1] == 47) {
        block_end(src, k + 1)
    } else {
        k + 2
    }
}

fn skip_block(src: &[u8], index: usize) -> (r: usize)
    requires
        index <= src@.len() + 1,
        src@.len() + 8 <= usize::MAX,
    ensures
        r == block_end(src@, index as int),
{
    let mut i = index;
    while i + 1 < src.len() && !(src[i] == 42 && src[i + 1] == 47)
        invariant
            index <= i <= src@.len() + 1,
            src@.len() + 8 <= usize::MAX,
            block_end(src@, i as int) == block_end(src@, index as int),
        decreases src@.len() - i,
    {
        i += 1;
    }
    i + 2
}

/// The bytes of a quoted string whose text starts at `k` (escapes keep the
/// escaped byte) and the position after its closing `quote`; `None` where
/// a line break or the end of the source comes first.
pub open spec fn quoted_from(src: Seq<u8>, k: int, quote: u8) -> Option<(Seq<u8>, int)>
    decreases src.len() - k,
{
    if k < 0 || k >= src.len() {
        None
    } else if src[k] == quote {
        Some((Seq::empty(), k + 1))
    } else if src[k] == 92 {
        if k + 1 >= src.len() {
            None
        } else {
            match quoted_from(src, k + 2, quote) {
                Some((rest, e)) => Some((seq![src[k + 1]] + rest, e)),
                None => None,
            }
        }
    } else if src[k] == 10 || src[k] == 13 {
        None
    } else {
        match quoted_from(src, k + 1, quote) {
            Some((rest, e)) => Some((seq![src[k]] + rest, e)),
            None => None,
        }
    }
}

/// A quoted string at `start` whose bytes are valid UTF-8.
pub open spec fn quoted_at(src: Seq<u8>, start: int) -> Option<(Seq<u8>, int)> {
    match quoted_from(src, start + 1, src[start]) {
        Some((b, e)) => if vstd::utf8::valid_utf8(b) { Some((b, e)) } else { None },
        None => None,
    }
}

proof fn lemma_quoted_from_end(src: Seq<u8>, k: int, quote: u8)
    ensures
        quoted_from(src, k, quote) matches Some((_, e)) ==> k < e <= src.len(),
    decreases src.len() - k,
{
    if 0 <= k < src.len() && src[k] != quote {
        if src[k] == 92 && k + 1 < src.len() {
            lemma_quoted_from_end(src, k + 2, quote);
        } else if src[k] != 10 && src[k] != 13 {
            lemma_quoted_from_end(src, k + 1, quote);
        }
    }
}

fn unterminated_string() -> (e: Error)
    ensures
        e matches Error::InvalidProject { reason } && reason@ == "unterminated string while scanning engine.registerAsset"@,
{
    Error::InvalidProject { reason: "unterminated string while scanning engine.registerAsset".to_owned() }
}

/// Reads the quoted string at `start`: its text and the position after it.
pub fn read_quoted(src: &[u8], start: usize) -> (r: Result<(String, usize)>)
    requires
        start < src@.len(),
    ensures
        r is Ok <==> quoted_at(src@, start as int) is Some,
        r matches Ok((s, e)) ==> quoted_at(src@, start as int) == Some((text_bytes(s@), e as int)),
        r matches Err(e) ==> e is InvalidProject,
{
    let quote = src[start];
    let mut i = start + 1;
    let mut out: Vec<u8> = Vec::new();
    proof {
        lemma_quoted_from_end(src@, (start + 1) as int, quote);
    }
    while i < src.len()
        invariant
            start < i <= src@.len() + 1,
            quote == src@[start as int],
            quoted_from(src@, (start + 1) as int, quote) == match quoted_from(src@, i as int, quote) {
                Some((rest, e)) => Some((out@ + rest, e)),
                None => None::<(Seq<u8>, int)>,
            },
        decreases src@.len() + 1 - i,
    {
        let byte = src[i];
        if byte == quote {
            assert(out@ + Seq::<u8>::empty() =~= out@);
            return match string_from_utf8(out) {
                Some(text) => {
                    proof {
                        vstd::utf8::decode_utf8_encode_utf8(out@);
                    }
                    Ok((text, i + 1))
                },
                None => Err(Error::InvalidProject { reason: "engine.registerAsset path is not valid UTF-8".to_owned() }),
            };
        }
        if byte == 92 {
            if i + 1 >= src.len() {
                return Err(unterminated_string());
            }
            let ghost before = out@;
            out.push(src[i + 1]);
            proof {
                match quoted_from(src@, i + 2, quote) {
                    Some((rest, e)) => {
                        assert(before + (seq![src@[i + 1]] + rest) =~= out@ + rest);
                    },
                    None => {},
                }
            }
            i += 2;
            continue;
        }
        if byte == 10 || byte == 13 {
            return Err(unterminated_string());
        }
        let ghost before = out@;
        out.push(byte);
        proof {
            match quoted_from(src@, i + 1, quote) {
                Some((rest, e)) => {
                    assert(before + (seq![byte] + rest) =~= out@ + rest);
                },
                None => {},
            }
        }
        i += 1;
    }
    Err(unterminated_string())
}

/// Position after a template literal whose text starts at `k` (after the
/// opening backquote); `None` where it is not closed or holds a bad string.
pub open spec fn template_from(src: Seq<u8>, k: int) -> Option<int>
    decreases src.len() + 8 - k, 0int,
{
    if k < 0 || k >= src.len() {
        None
    } else if src[k] == 96 {
        Some(k + 1)
    } else if src[k] == 92 {
        template_from(src, k + 2)
    } else if src[k] == 36 && k + 1 < src.len() && src[k + 1] == 123 {
        match interp_from(src, k + 2, 1) {
            Some(j) => if k < j <= src.len() + 4 {
                template_from(src, j)
            } else {
                None
            },
            None => None,
        }
    } else {
        template_from(src, k + 1)
    }
}

/// Position where a `${` interpolation at depth `depth` closes (or where
/// the source ends); `None` where a string or template inside is bad.
pub open spec fn interp_from(src: Seq<u8>, k: int, depth: nat) -> Option<int>
    decreases src.len() + 8 - k, 1int,
{
    if depth == 0 || k < 0 || k >= src.len() {
        Some(k)
    } else {
        let c = src[k];
        if c == 39 || c == 34 {
            match quoted_at(src, k) {
                Some((_, j)) => if k < j <= src.len() + 4 {
                    interp_from(src, j, depth)
                } else {
                    None
                },
                None => None,
            }
        } else if c == 96 {
            match template_from(src, k + 1) {
                Some(j) => if k < j <= src.len() + 4 {
                    interp_from(src, j, depth)
                } else {
                    None
                },
                None => None,
            }
        } else if c == 47 && k + 1 < src.len() && src[k + 1] == 47 {
            let j = line_end(src, k + 2);
            if k < j <= src.len() + 4 { interp_from(src, j, depth) } else { None }
        } else if c == 47 && k + 1 < src.len() && src[k + 1] == 42 {
            let j = block_end(src, k + 2);
            if k < j <= src.len() + 4 { interp_from(src, j, depth) } else { None }
        } else if c == 123 {
            interp_from(src, k + 1, depth + 1)
        } else if c == 125 {
            interp_from(src, k + 1, (depth - 1) as nat)
        } else {
            interp_from(src, k + 1, depth)
        }
    }
}

proof fn lemma_line_end(src: Seq<u8>, k: int)
    ensures
        line_end(src, k) >= k,
        k <= src.len() ==> line_end(src, k) <= src.len(),
    decreases src.len() - k,
{
    if k < src.len() && src[k] != 10 {
        lemma_line_end(src, k + 1);
    }
}

proof fn lemma_block_end(src: Seq<u8>, k: int)
    ensures
        block_end(src, k) >= k + 2,
        k <= src.len() + 1 ==> block_end(src, k) <= src.len() + 3,
    decreases src.len() - k,
{
    if k + 1 < src.len() && !(src[k] == 42 && src[k + 1] == 47) {
        lemma_block_end(src, k + 1);
    }
}

proof fn lemma_interp_from(src: Seq<u8>, k: int, depth: nat)
    requires
        0 <= k,
    ensures
        interp_from(src, k, depth) matches Some(j) ==> k <= j && (k <= src.len() + 4 ==> j <= src.len() + 4),
    decreases src.len() + 8 - k, 1int,
{
    if depth == 0 || k >= src.len() {
    } else {
        let c = src[k];
        if c == 39 || c == 34 {
            lemma_quoted_from_end(src, k + 1, c);
            match quoted_at(src, k) {
                Some((_, j)) => {
                    if k < j <= src.len() + 4 {
                        lemma_interp_from(src, j, depth);
                    }
                },
                None => {},
            }
        } else if c == 96 {
            lemma_template_from(src, k + 1);
            match template_from(src, k + 1) {
                Some(j) => {
                    if k < j <= src.len() + 4 {
                        lemma_interp_from(src, j, depth);
                    }
                },
                None => {},
            }
        } else if c == 47 && k + 1 < src.len() && src[k + 1] == 47 {
            lemma_line_end(src, k + 2);
            let j = line_end(src, k + 2);
            if k < j <= src.len() + 4 {
                lemma_interp_from(src, j, depth);
            }
        } else if c == 47 && k + 1 < src.len() && src[k + 1] == 42 {
            lemma_block_end(src, k + 2);
            let j = block_end(src, k + 2);
            if k < j <= src.len() + 4 {
                lemma_interp_from(src, j, depth);
            }
        } else if c == 123 {
            lemma_interp_from(src, k + 1, depth + 1);
        } else if c == 125 {
            lemma_interp_from(src, k + 1, (depth - 1) as nat);
        } else {
            lemma_interp_from(src, k + 1, depth);
        }
    }
}

proof fn lemma_template_from(src: Seq<u8>, k: int)
    ensures
        template_from(src, k) matches Some(j) ==> k < j <= src.len(),
    decreases src.len() + 8 - k, 0int,
{
    if 0 <= k < src.len() && src[k] != 96 {
        if src[k] == 92 {
            lemma_template_from(src, k + 2);
        } else if src[k] == 36 && k + 1 < src.len() && src[k + 1] == 123 {
            lemma_interp_from(src, k + 2, 1);
            match interp_from(src, k + 2, 1) {
                Some(j) => {
                    if k < j <= src.len() + 4 {
                        lemma_template_from(src, j);
                    }
                },
                None => {},
            }
        } else {
            lemma_template_from(src, k + 1);
        }
    }
}

fn unterminated_template() -> (e: Error)
    ensures
        e matches Error::InvalidProject { reason } && reason@ == "unterminated template string while scanning scripts"@,
{
    Error::InvalidProject { reason: "unterminated template string while scanning scripts".to_owned() }
}

/// Skips the template literal that opens at `start`.
pub fn skip_template(src: &[u8], start: usize) -> (r: Result<usize>)
    requires
        start < src@.len(),
        src@.len() + 8 <= usize::MAX,
    ensures
        r is Ok <==> template_from(src@, start + 1) is Some,
        r matches Ok(e) ==> template_from(src@, start + 1) == Some(e as int),
        r matches Err(e) ==> e is InvalidProject,
    decreases src@.len() + 8 - start, 0int,
{
    let mut i = start + 1;
    while i < src.len()
        invariant
            start < i <= src@.len() + 4,
            src@.len() + 8 <= usize::MAX,
            template_from(src@, start + 1) == template_from(src@, i as int),
        decreases src@.len() + 4 - i,
    {
        let c = src[i];
        if c == 96 {
            return Ok(i + 1);
        } else if c == 92 {
            i += 2;
        } else if c == 36 && i + 1 < src.len() && src[i + 1] == 123 {
            let ghost k = i;
            let (j, ok) = skip_interpolation(src, i + 2);
            if !ok {
                return Err(unterminated_template());
            }
            proof {
                lemma_interp_from(src@, k + 2, 1);
            }
            i = j;
        } else {
            i += 1;
        }
    }
    Err(unterminated_template())
}

/// Skips an interpolation body from `start` at depth one: the position
/// where it closes (or the source ends), with `false` on a bad string or
/// template inside.
fn skip_interpolation(src: &[u8], start: usize) -> (r: (usize, bool))
    requires
        2 <= start <= src@.len() + 1,
        src@.len() + 8 <= usize::MAX,
    ensures
        r.1 <==> interp_from(src@, start as int, 1) is Some,
        r.1 ==> interp_from(src@, start as int, 1) == Some(r.0 as int) && r.0 > start - 2,
    decreases src@.len() + 8 - start, 1int,
{
    let mut i = start;
    let mut depth: usize = 1;
    proof {
        lemma_interp_from(src@, start as int, 1);
    }
    while i < src.len() && depth > 0
        invariant
            start <= i <= src@.len() + 4,
            depth <= i - start + 1,
            src@.len() + 8 <= usize::MAX,
            interp_from(src@, start as int, 1) == interp_from(src@, i as int, depth as nat),
        decreases src@.len() + 4 - i,
    {
        let c = src[i];
        if c == 39 || c == 34 {
            match read_quoted(src, i) {
                Ok((_, j)) => {
                    proof {
                        lemma_quoted_from_end(src@, i + 1, c);
                    }
                    i = j;
                },
                Err(_) => {
                    return (i, false);
                },
            }
        } else if c == 96 {
            match skip_template(src, i) {
                Ok(j) => {
                    proof {
                        lemma_template_from(src@, i + 1);
                    }
                    i = j;
                },
                Err(_) => {
                    return (i, false);
                },
            }
        } else if c == 47 && i + 1 < src.len() && src[i + 1] == 47 {
            proof {
                lemma_line_end(src@, i + 2);
            }
            i = skip_line(src, i + 2);
        } else if c == 47 && i + 1 < src.len() && src[i + 1] == 42 {
            proof {
                lemma_block_end(src@, i + 2);
            }
            i = skip_block(src, i + 2);
        } else if c == 123 {
            depth += 1;
            i += 1;
        } else if c == 125 {
            depth -= 1;
            i += 1;
        } else {
            i += 1;
        }
    }
    (i, true)
}

/// The assets of a script: for each explicit `engine.registerAsset(...)`
/// call with a quoted first argument, that argument's bytes, in order.
/// Comments, strings and templates are skipped; `None` where a string or
/// template is unterminated or not UTF-8, or a call is cut off.
pub open spec fn scan_from(src: Seq<u8>, k: int) -> Option<Seq<Seq<u8>>>
    decreases src.len() + 8 - k,
{
    if k < 0 || k >= src.len() {
        Some(Seq::empty())
    } else {
        let c = src[k];
        if c == 47 && k + 1 < src.len() && src[k + 1] == 47 {
            let j = line_end(src, k + 2);
            if k < j <= src.len() + 4 { scan_from(src, j) } else { None }
        } else if c == 47 && k + 1 < src.len() && src[k + 1] == 42 {
            let j = block_end(src, k + 2);
            if k < j <= src.len() + 4 { scan_from(src, j) } else { None }
        } else if c == 39 || c == 34 {
            match quoted_at(src, k) {
                Some((_, j)) => if k < j <= src.len() + 4 { scan_from(src, j) } else { None },
                None => None,
            }
        } else if c == 96 {
            match template_from(src, k + 1) {
                Some(j) => if k < j <= src.len() + 4 { scan_from(src, j) } else { None },
                None => None,
            }
        } else if c == 101 && keyword_at(src, k, text_bytes("engine"@)) {
            let d = ws_end(src, k + 6);
            if !(d < src.len() && src[d] == 46) {
                scan_from(src, k + 1)
            } else {
                let e = ws_end(src, d + 1);
                if !keyword_at(src, e, text_bytes("registerAsset"@)) {
                    scan_from(src, k + 1)
                } else {
                    let p = ws_end(src, e + 13);
                    if !(p < src.len() && src[p] == 40) {
                        scan_from(src, k + 1)
                    } else {
                        let o = ws_end(src, p + 1);
                        if o >= src.len() {
                            None
                        } else if src[o] != 39 && src[o] != 34 {
                            if o > k { scan_from(src, o) } else { None }
                        } else {
                            match quoted_at(src, o) {
                                Some((b, j)) => if k < j <= src.len() + 4 {
                                    match scan_from(src, j) {
                                        Some(rest) => Some(seq![b] + rest),
                                        None => None,
                                    }
                                } else {
                                    None
                                },
                                None => None,
                            }
                        }
                    }
                }
            }
        } else {
            scan_from(src, k + 1)
        }
    }
}

proof fn lemma_ws_end(src: Seq<u8>, k: int)
    ensures
        ws_end(src, k) >= k,
        k <= src.len() ==> ws_end(src, k) <= src.len(),
    decreases src.len() - k,
{
    if k < src.len() && is_space(src[k]) {
        lemma_ws_end(src, k + 1);
    }
}

pub open spec fn byte_texts(v: Seq<String>) -> Seq<Seq<u8>> {
    Seq::new(v.len(), |k: int| text_bytes(v[k]@))
}

fn truncated_call() -> (e: Error)
    ensures
        e matches Error::InvalidProject { reason } && reason@ == "engine.registerAsset call is truncated"@,
{
    Error::InvalidProject { reason: "engine.registerAsset call is truncated".to_owned() }
}

/// The explicit `engine.registerAsset` paths of a script, in order.
pub fn extract_register_assets(src: &[u8]) -> (r: Result<Vec<String>>)
    requires
        src@.len() + 64 <= usize::MAX,
    ensures
        r is Ok <==> scan_from(src@, 0) is Some,
        r matches Ok(v) ==> scan_from(src@, 0) == Some(byte_texts(v@)),
        r matches Err(e) ==> e is InvalidProject,
{
    let engine = "engine".as_bytes();
    let register = "registerAsset".as_bytes();
    let mut assets: Vec<String> = Vec::new();
    let mut i: usize = 0;
    proof {
        assert(byte_texts(assets@) =~= Seq::<Seq<u8>>::empty());
    }
    while i < src.len()
        invariant
            src@.len() + 64 <= usize::MAX,
            i <= src@.len() + 4,
            engine@ == text_bytes("engine"@),
            register@ == text_bytes("registerAsset"@),
            scan_from(src@, 0) == match scan_from(src@, i as int) {
                Some(rest) => Some(byte_texts(assets@) + rest),
                None => None::<Seq<Seq<u8>>>,
            },
        decreases src@.len() + 4 - i,
    {
        let c = src[i];
        if c == 47 && i + 1 < src.len() && src[i + 1] == 47 {
            proof {
                lemma_line_end(src@, i + 2);
            }
            i = skip_line(src, i + 2);
        } else if c == 47 && i + 1 < src.len() && src[i + 1] == 42 {
            proof {
                lemma_block_end(src@, i + 2);
            }
            i = skip_block(src, i + 2);
        } else if c == 39 || c == 34 {
            match read_quoted(src, i) {
                Ok((_, j)) => {
                    proof {
                        lemma_quoted_from_end(src@, i + 1, c);
                    }
                    i = j;
                },
                Err(e) => {
                    return Err(e);
                },
            }
        } else if c == 96 {
            match skip_template(src, i) {
                Ok(j) => {
                    proof {
                        lemma_template_from(src@, i + 1);
                    }
                    i = j;
                },
                Err(e) => {
                    return Err(e);
                },
            }
        } else if c == 101 && match_keyword_at(src, i, engine) {
            proof {
                reveal_strlit("engine");
                reveal_strlit("registerAsset");
                vstd::utf8::is_ascii_chars_encode_utf8("engine"@);
                vstd::utf8::is_ascii_chars_encode_utf8("registerAsset"@);
            }
            let after_engine = i + engine.len();
            let after_dot = skip_ws(src, after_engine);
            proof {
                lemma_ws_end(src@, after_engine as int);
            }
            if !(after_dot < src.len() && src[after_dot] == 46) {
                i += 1;
                continue;
            }
            let after_ident = skip_ws(src, after_dot + 1);
            proof {
                lemma_ws_end(src@, after_dot + 1);
            }
            if !match_keyword_at(src, after_ident, register) {
                i += 1;
                continue;
            }
            let after_name = after_ident + register.len();
            let after_paren = skip_ws(src, after_name);
            proof {
                lemma_ws_end(src@, after_name as int);
            }
            if !(after_paren < src.len() && src[after_paren] == 40) {
                i += 1;
                continue;
            }
            let after_open = skip_ws(src, after_paren + 1);
            proof {
                lemma_ws_end(src@, after_paren + 1);
            }
            if after_open >= src.len() {
                return Err(truncated_call());
            }
            let quote = src[after_open];
            if quote != 39 && quote != 34 {
                i = after_open;
                continue;
            }
            match read_quoted(src, after_open) {
                Ok((path, next)) => {
                    proof {
                        lemma_quoted_from_end(src@, after_open + 1, quote);
                    }
                    let ghost before = assets@;
                    assets.push(path);
                    proof {
                        assert(byte_texts(assets@) =~= byte_texts(before) + seq![text_bytes(path@)]);
                        match scan_from(src@, next as int) {
                            Some(rest) => {
                                assert(byte_texts(before) + (seq![text_bytes(path@)] + rest) =~= byte_texts(assets@) + rest);
                            },
                            None => {},
                        }
                    }
                    i = next;
                },
                Err(e) => {
                    return Err(e);
                },
            }
        } else {
            i += 1;
        }
    }
    proof {
        assert(byte_texts(assets@) + Seq::<Seq<u8>>::empty() =~= byte_texts(assets@));
    }
    Ok(assets)
}

} // verus!
