//! zcompat shader rules: per-workshop-project shader replacements, their
//! `config.json`, and the checks on shader names and project ids.

use vstd::prelude::*;
use crate::error::{Error, Result};
use crate::json::{str_eq, JsonValue};
use crate::json_order::{bytes_lt, key_lt, lemma_lex_irreflexive, lemma_lex_total, lemma_lex_transitive};
use crate::project::kind::text_bytes;
use crate::profile::digits_value;
use crate::text::{concat, contains_byte, decimal, is_alpha, is_digit, ascii_alpha, spec_decimal};

verus! {

/// Parsed `config.json` of a zcompat rule.
#[derive(Debug, Clone, PartialEq, Eq)]
pub struct CompatShaderConfig {
    pub maximum_project_id: u64,
    pub frag: Option<String>,
    pub vert: Option<String>,
}

/// One zcompat rule directory; its name is the workshop project id.
#[derive(Debug, Clone, PartialEq, Eq)]
pub struct CompatShaderRule {
    pub project_id: String,
    pub config: CompatShaderConfig,
    pub rule_dir: String,
}

/// Archive paths (forward slash) whose shaders were replaced.
#[derive(Debug, Clone, PartialEq, Eq)]
pub struct CompatShaderApplyReport {
    pub replaced: Vec<String>,
}

impl CompatShaderApplyReport {
    pub fn empty() -> (r: CompatShaderApplyReport)
        ensures
            r.replaced@.len() == 0,
    {
        CompatShaderApplyReport { replaced: Vec::new() }
    }
}

/// `u64::from_str`: an optional `+`, then one or more decimal digits whose
/// value fits in `u64`.
/// The digits part of a number's text: without a leading `+`.
pub open spec fn unsigned_digits(b: Seq<u8>) -> Seq<u8> {
    if b.len() > 0 && b[0] == 43 { b.drop_first() } else { b }
}

pub open spec fn spec_parse_u64(b: Seq<u8>) -> Option<u64> {
    let d = unsigned_digits(b);
    if d.len() == 0 || exists|i: int| 0 <= i < d.len() && !is_digit(#[trigger] d[i]) {
        None
    } else if digits_value(d) > u64::MAX {
        None
    } else {
        Some(digits_value(d) as u64)
    }
}

proof fn lemma_digits_value_step(d: Seq<u8>, i: int)
    requires
        0 <= i < d.len(),
        is_digit(d[i]),
    ensures
        digits_value(d.take(i + 1)) == digits_value(d.take(i)) * 10 + (d[i] - 48),
{
    assert(d.take(i + 1).drop_last() =~= d.take(i));
    assert(d.take(i + 1).last() == d[i]);
}

proof fn lemma_digits_value_grows(d: Seq<u8>, i: int, j: int)
    requires
        0 <= i <= j <= d.len(),
        forall|k: int| 0 <= k < d.len() ==> is_digit(#[trigger] d[k]),
    ensures
        digits_value(d.take(i)) <= digits_value(d.take(j)),
    decreases j - i,
{
    if i < j {
        lemma_digits_value_grows(d, i, j - 1);
        lemma_digits_value_step(d, j - 1);
    }
}

#[verifier::loop_isolation(false)]
pub fn parse_u64(b: &[u8]) -> (r: Option<u64>)
    ensures
        r == spec_parse_u64(b@),
{
    let start: usize = if b.len() > 0 && b[0] == 43 { 1 } else { 0 };
    let ghost d = unsigned_digits(b@);
    proof {
        assert(d =~= b@.subrange(start as int, b@.len() as int));
    }
    if start == b.len() {
        return None;
    }
    let mut i = start;
    while i < b.len()
        invariant
            start <= i <= b@.len(),
            d == b@.subrange(start as int, b@.len() as int),
            forall|k: int| start <= k < i ==> is_digit(#[trigger] b@[k]),
        decreases b@.len() - i,
    {
        if !(48 <= b[i] && b[i] <= 57) {
            proof {
                assert(!is_digit(d[i - start]));
            }
            return None;
        }
        i += 1;
    }
    let mut value: u64 = 0;
    let mut k = start;
    proof {
        assert(d.take(0) =~= Seq::<u8>::empty());
    }
    while k < b.len()
        invariant
            start <= k <= b@.len(),
            d == b@.subrange(start as int, b@.len() as int),
            forall|m: int| 0 <= m < d.len() ==> is_digit(#[trigger] d[m]),
            value == digits_value(d.take(k - start)),
        decreases b@.len() - k,
    {
        proof {
            assert(d[k - start] == b@[k as int]);
            assert(is_digit(d[k - start]));
            lemma_digits_value_step(d, k - start);
        }
        let digit = (b[k] - 48) as u64;
        if value > (u64::MAX - digit) / 10 {
            proof {
                lemma_digits_value_grows(d, k - start + 1, d.len() as int);
                assert(d.take(d.len() as int) =~= d);
            }
            return None;
        }
        value = value * 10 + digit;
        k += 1;
    }
    proof {
        assert(d.take(d.len() as int) =~= d);
    }
    Some(value)
}

/// A control character (Unicode general category Cc).
pub open spec fn is_control(c: char) -> bool {
    (c as u32) <= 0x1f || (0x7f <= (c as u32) && (c as u32) <= 0x9f)
}

/// A bare file name for a shader: non-empty, no control characters, no
/// `/` or `\`, not `.` or `..`, and no drive prefix.
pub open spec fn shader_basename_ok(name: Seq<char>) -> bool {
    let b = text_bytes(name);
    &&& name.len() > 0
    &&& !exists|i: int| 0 <= i < name.len() && is_control(#[trigger] name[i])
    &&& !b.contains(47u8)
    &&& !b.contains(92u8)
    &&& name != "."@
    &&& name != ".."@
    &&& !(b.len() >= 2 && is_alpha(b[0]) && b[1] == 58)
}

fn has_control_char(name: &str) -> (r: bool)
    ensures
        r == exists|i: int| 0 <= i < name@.len() && is_control(#[trigger] name@[i]),
{
    broadcast use vstd::string::axiom_spec_iter;
    for c in it: name.chars()
        invariant
            it.seq() == name@,
            forall|j: int| 0 <= j < it.index() ==> !is_control(#[trigger] name@[j]),
    {
        let v = c as u32;
        if v <= 0x1f || (0x7f <= v && v <= 0x9f) {
            assert(is_control(name@[it.index() as int]));
            return true;
        }
    }
    false
}

fn unsafe_shader(name: &str) -> (e: Error)
    ensures
        e matches Error::InvalidProject { reason } && reason@ == "unsafe zcompat shader path: "@ + name@,
{
    Error::InvalidProject { reason: concat("unsafe zcompat shader path: ", name) }
}

pub fn validate_shader_basename(name: &str) -> (r: Result<()>)
    ensures
        r is Ok <==> shader_basename_ok(name@),
        r matches Err(e) ==> e is InvalidProject,
{
    let b = name.as_bytes();
    if name.is_empty() || has_control_char(name) || contains_byte(b, 47) || contains_byte(b, 92) || str_eq(
        name,
        ".",
    ) || str_eq(name, "..") {
        return Err(unsafe_shader(name));
    }
    if b.len() >= 2 && ascii_alpha(b[0]) && b[1] == 58 {
        return Err(unsafe_shader(name));
    }
    Ok(())
}

/// A `frag` or `vert` member: absent or null gives none; a string must be
/// a safe shader name.
pub open spec fn spec_optional_basename(value: Option<JsonValue>) -> Option<Option<Seq<char>>> {
    match value {
        None => Some(None),
        Some(JsonValue::Null) => Some(None),
        Some(JsonValue::String(s)) => if shader_basename_ok(s@) { Some(Some(s@)) } else { None },
        Some(_) => None,
    }
}

fn optional_shader_basename(value: Option<&JsonValue>, field: &str) -> (r: Result<Option<String>>)
    ensures
        r is Ok <==> spec_optional_basename(match value { Some(v) => Some(*v), None => None }) is Some,
        r matches Ok(o) ==> spec_optional_basename(match value { Some(v) => Some(*v), None => None }) == Some(
            match o { Some(s) => Some(s@), None => None::<Seq<char>> },
        ),
        r matches Err(e) ==> e is InvalidProject,
{
    match value {
        None => Ok(None),
        Some(JsonValue::Null) => Ok(None),
        Some(JsonValue::String(text)) => {
            validate_shader_basename(text.as_str())?;
            Ok(Some(text.clone()))
        },
        Some(_) => {
            let m1 = concat("zcompat config.json ", field);
            Err(Error::InvalidProject { reason: concat(m1.as_str(), " must be a string when present") })
        },
    }
}

pub open spec fn opt_text(o: Option<String>) -> Option<Seq<char>> {
    match o {
        Some(s) => Some(s@),
        None => None,
    }
}

/// The rule a `config.json` document states: an object with a string
/// `maximumprojectid` holding a `u64`, and at least one safe `frag` or
/// `vert` shader name.
pub open spec fn spec_shader_config(v: JsonValue) -> Option<(u64, Option<Seq<char>>, Option<Seq<char>>)> {
    if !(v is Object) {
        None
    } else {
        match v.spec_get("maximumprojectid"@) {
            Some(JsonValue::String(m)) => match spec_parse_u64(text_bytes(m@)) {
                None => None,
                Some(max) => match (spec_optional_basename(v.spec_get("frag"@)), spec_optional_basename(v.spec_get("vert"@))) {
                    (Some(frag), Some(vert)) => if frag is None && vert is None {
                        None
                    } else {
                        Some((max, frag, vert))
                    },
                    _ => None,
                },
            },
            _ => None,
        }
    }
}

/// A zcompat `config.json`, already parsed as JSON.
pub fn compat_shader_config_from_value(value: &JsonValue) -> (r: Result<CompatShaderConfig>)
    ensures
        r is Ok <==> spec_shader_config(*value) is Some,
        r matches Ok(c) ==> spec_shader_config(*value) == Some((c.maximum_project_id, opt_text(c.frag), opt_text(c.vert))),
        r matches Err(e) ==> e is InvalidProject,
{
    if !value.is_object() {
        return Err(Error::InvalidProject { reason: "zcompat config.json root must be an object".to_owned() });
    }
    let maximum_raw = match value.get("maximumprojectid") {
        Some(JsonValue::String(m)) => m,
        _ => {
            return Err(Error::InvalidProject { reason: "zcompat config.json is missing string maximumprojectid".to_owned() });
        },
    };
    let maximum_project_id = match parse_u64(maximum_raw.as_str().as_bytes()) {
        Some(v) => v,
        None => {
            return Err(Error::InvalidProject {
                reason: concat("zcompat maximumprojectid is not a decimal u64: ", maximum_raw.as_str()),
            });
        },
    };
    let frag = optional_shader_basename(value.get("frag"), "frag")?;
    let vert = optional_shader_basename(value.get("vert"), "vert")?;
    if frag.is_none() && vert.is_none() {
        return Err(Error::InvalidProject { reason: "zcompat config.json must name at least one of frag or vert".to_owned() });
    }
    Ok(CompatShaderConfig { maximum_project_id, frag, vert })
}

/// A workshop project id usable as a directory name: non-empty decimal
/// digits.
pub open spec fn project_id_ok(id: Seq<char>) -> bool {
    let b = text_bytes(id);
    b.len() > 0 && forall|i: int| 0 <= i < b.len() ==> is_digit(#[trigger] b[i])
}

pub fn validate_project_id_token(project_id: &str) -> (r: Result<()>)
    ensures
        r is Ok <==> project_id_ok(project_id@),
        r matches Err(e) ==> e is InvalidProject,
{
    let b = project_id.as_bytes();
    proof {
        reveal_strlit(".");
        reveal_strlit("..");
        vstd::utf8::is_ascii_chars_encode_utf8("."@);
        vstd::utf8::is_ascii_chars_encode_utf8(".."@);
    }
    if b.len() == 0 || contains_byte(b, 47) || contains_byte(b, 92) || contains_byte(b, 0) || str_eq(
        project_id,
        ".",
    ) || str_eq(project_id, "..") {
        proof {
            if b@.len() > 0 && project_id_ok(project_id@) {
                if b@.contains(47u8) || b@.contains(92u8) || b@.contains(0u8) {
                    let j = choose|j: int| 0 <= j < b@.len() && (b@[j] == 47u8 || b@[j] == 92u8 || b@[j] == 0u8);
                    assert(is_digit(b@[j]));
                }
                if project_id@ == "."@ || project_id@ == ".."@ {
                    assert(b@[0] == 46u8);
                    assert(is_digit(b@[0]));
                }
            }
        }
        return Err(Error::InvalidProject { reason: concat("unsafe workshop project id: ", project_id) });
    }
    let mut i: usize = 0;
    while i < b.len()
        invariant
            i <= b@.len(),
            b@ == text_bytes(project_id@),
            forall|j: int| 0 <= j < i ==> is_digit(#[trigger] b@[j]),
        decreases b@.len() - i,
    {
        if !(48 <= b[i] && b[i] <= 57) {
            assert(!is_digit(b@[i as int]));
            return Err(Error::InvalidProject { reason: concat("workshop project id must be decimal digits: ", project_id) });
        }
        i += 1;
    }
    Ok(())
}

impl CompatShaderRule {
    /// The rule applies to exactly its own project id, when that id is at
    /// most the rule's maximum.
    pub fn applies_to(&self, project_id: &str) -> (r: bool)
        ensures
            r == (self.project_id@ == project_id@ && (match spec_parse_u64(text_bytes(project_id@)) {
                Some(id) => id <= self.config.maximum_project_id,
                None => false,
            })),
    {
        if !str_eq(self.project_id.as_str(), project_id) {
            return false;
        }
        match parse_u64(project_id.as_bytes()) {
            Some(id) => id <= self.config.maximum_project_id,
            None => false,
        }
    }
}

/// A plain JSON integer's text: digits only, within `u64`.
pub open spec fn spec_json_u64(text: Seq<char>) -> Option<u64> {
    let b = text_bytes(text);
    if b.len() > 0 && b[0] == 43 {
        None
    } else {
        spec_parse_u64(b)
    }
}

/// The manifest's `workshopid`: a string as it is, or a non-negative
/// integer in decimal.
pub open spec fn spec_workshop_id(raw: JsonValue) -> Option<Seq<char>> {
    match raw.spec_get("workshopid"@) {
        Some(JsonValue::String(s)) => Some(s@),
        Some(JsonValue::Number(n)) => match spec_json_u64(n@) {
            Some(v) => Some(spec_decimal(v as nat)),
            None => None,
        },
        _ => None,
    }
}

pub fn workshop_project_id(raw: &JsonValue) -> (r: Option<String>)
    ensures
        opt_text(r) == spec_workshop_id(*raw),
{
    match raw.get("workshopid") {
        Some(JsonValue::String(text)) => Some(text.clone()),
        Some(JsonValue::Number(n)) => {
            let b = n.as_str().as_bytes();
            if b.len() > 0 && b[0] == 43 {
                return None;
            }
            match parse_u64(b) {
                Some(v) => Some(decimal(v)),
                None => None,
            }
        },
        _ => None,
    }
}

/// The shader names a rule replaces: `frag`, then `vert`.
pub fn compat_targets(config: &CompatShaderConfig) -> (r: Vec<String>)
    ensures
        r@.len() == (if config.frag is Some { 1int } else { 0 }) + (if config.vert is Some { 1int } else { 0 }),
        config.frag matches Some(f) ==> r@[0]@ == f@,
        config.vert matches Some(v) ==> r@[r@.len() - 1]@ == v@,
{
    let mut targets: Vec<String> = Vec::new();
    match &config.frag {
        Some(f) => targets.push(f.clone()),
        None => {},
    }
    match &config.vert {
        Some(v) => targets.push(v.clone()),
        None => {},
    }
    targets
}

/// Texts in strictly increasing byte order (hence without repeats).
pub open spec fn strictly_sorted(s: Seq<Seq<char>>) -> bool {
    forall|i: int, j: int| 0 <= i < j < s.len() ==> key_lt(#[trigger] s[i], #[trigger] s[j])
}

pub open spec fn texts(v: Seq<String>) -> Seq<Seq<char>> {
    Seq::new(v.len(), |k: int| v[k]@)
}

/// Adds `x` to texts in strictly increasing byte order unless it is there
/// already; says whether it was added.
pub fn insert_sorted_path(out: &mut Vec<String>, x: &str) -> (added: bool)
    requires
        strictly_sorted(texts(old(out)@)),
    ensures
        strictly_sorted(texts(final(out)@)),
        forall|t: Seq<char>| texts(final(out)@).contains(t) <==> (texts(old(out)@).contains(t) || t == x@),
        added == !texts(old(out)@).contains(x@),
        !added ==> final(out)@ == old(out)@,
{
    let ghost before = texts(out@);
    let mut p: usize = 0;
    while p < out.len() && !bytes_lt(x.as_bytes(), out[p].as_str().as_bytes())
        invariant
            p <= out@.len(),
            before == texts(out@),
            forall|j: int| 0 <= j < p ==> !key_lt(x@, #[trigger] before[j]),
        decreases out@.len() - p,
    {
        p += 1;
    }
    let ghost ex = vstd::utf8::encode_utf8(x@);
    if p > 0 && str_eq(out[p - 1].as_str(), x) {
        proof {
            assert(before[p - 1] == x@);
        }
        return false;
    }
    proof {
        if before.contains(x@) {
            let k = choose|k: int| 0 <= k < before.len() && before[k] == x@;
            if k >= p {
                assert(key_lt(x@, before[p as int]));
                if k > p {
                    assert(key_lt(before[p as int], before[k]));
                    lemma_lex_transitive(ex, vstd::utf8::encode_utf8(before[p as int]), ex);
                }
                lemma_lex_irreflexive(ex);
            } else {
                assert(before[p - 1] != x@);
                assert(!key_lt(x@, before[p - 1]));
                assert(k < p - 1);
                assert(key_lt(before[k], before[p - 1]));
            }
        }
    }
    out.insert(p, x.to_owned());
    proof {
        let after = texts(out@);
        assert(after =~= before.insert(p as int, x@));
        assert forall|a: int, b: int| 0 <= a < b < after.len() implies key_lt(#[trigger] after[a], #[trigger] after[b]) by {
            let ea = vstd::utf8::encode_utf8(after[a]);
            let eb = vstd::utf8::encode_utf8(after[b]);
            if a < p && b == p {
                assert(!key_lt(x@, before[a]));
                lemma_lex_total(ea, ex);
                if ea == ex {
                    vstd::utf8::encode_utf8_decode_utf8(before[a]);
                    vstd::utf8::encode_utf8_decode_utf8(x@);
                    assert(before[a] == x@);
                }
            } else if a == p && b > p {
                assert(key_lt(x@, before[p as int]));
                if b - 1 > p {
                    assert(key_lt(before[p as int], before[b - 1]));
                    lemma_lex_transitive(ex, vstd::utf8::encode_utf8(before[p as int]), eb);
                }
            } else if a < p && b > p {
                assert(after[a] == before[a] && after[b] == before[b - 1]);
            } else if b < p {
                assert(after[a] == before[a] && after[b] == before[b]);
            } else {
                assert(after[a] == before[a - 1] && after[b] == before[b - 1]);
            }
        }
        assert forall|t: Seq<char>| after.contains(t) <==> (before.contains(t) || t == x@) by {
            if after.contains(t) {
                let k = choose|k: int| 0 <= k < after.len() && after[k] == t;
                if k < p {
                    assert(before[k] == t);
                } else if k > p {
                    assert(before[k - 1] == t);
                }
            }
            if before.contains(t) {
                let m = choose|m: int| 0 <= m < before.len() && before[m] == t;
                if m < p {
                    assert(after[m] == t);
                } else {
                    assert(after[m + 1] == t);
                }
            }
            if t == x@ {
                assert(after[p as int] == t);
            }
        }
    }
    true
}

/// The paths sorted by their bytes, each kept once.
pub fn sort_dedup_paths(paths: &Vec<String>) -> (r: Vec<String>)
    ensures
        strictly_sorted(texts(r@)),
        forall|t: Seq<char>| texts(r@).contains(t) <==> texts(paths@).contains(t),
{
    let mut out: Vec<String> = Vec::new();
    let mut i: usize = 0;
    while i < paths.len()
        invariant
            i <= paths@.len(),
            strictly_sorted(texts(out@)),
            forall|t: Seq<char>| texts(out@).contains(t) <==> texts(paths@).take(i as int).contains(t),
        decreases paths@.len() - i,
    {
        let ghost prefix = texts(paths@).take(i as int);
        let ghost x = paths@[i as int]@;
        insert_sorted_path(&mut out, paths[i].as_str());
        proof {
            let next = texts(paths@).take(i + 1);
            assert(next =~= prefix.push(x));
            assert forall|t: Seq<char>| next.contains(t) <==> (prefix.contains(t) || t == x) by {
                if next.contains(t) {
                    let k = choose|k: int| 0 <= k < next.len() && next[k] == t;
                    if k < i {
                        assert(prefix[k] == t);
                    }
                }
                if prefix.contains(t) {
                    let m = choose|m: int| 0 <= m < prefix.len() && prefix[m] == t;
                    assert(next[m] == t);
                }
                if t == x {
                    assert(next[i as int] == t);
                }
            }
        }
        i += 1;
    }
    proof {
        assert(texts(paths@).take(paths@.len() as int) =~= texts(paths@));
    }
    out
}

} // verus!
