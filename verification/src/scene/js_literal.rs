//! Values of JavaScript string literals and of computed member names made
//! of literals: `'a'`, `("a")`, `"a" + 'b'`. Decoded values are held up to a
//! byte limit, with a flag for what did not fit.

use vstd::prelude::*;
use crate::project::kind::text_bytes;
use crate::scene::js_lex::{ident_start, line_term_len, line_terminator_sequence_len_at, text_at, text_is, token_at_is, token_is, JsToken};
use crate::text::{ascii_alpha, is_digit};

verus! {

// ---------------------------------------------------------------------------
// Hexadecimal numbers as `from_str_radix(_, 16)` reads them for an unsigned
// type: an optional `+`, then one or more ASCII hex digits.

pub open spec fn hex_digit(c: u8) -> int {
    if 48 <= c <= 57 {
        c - 48
    } else if 97 <= c <= 102 {
        c - 97 + 10
    } else if 65 <= c <= 70 {
        c - 65 + 10
    } else {
        -1
    }
}

/// Value of a non-empty run of hex digits.
pub open spec fn hex_run(s: Seq<u8>) -> Option<int>
    decreases s.len(),
{
    if s.len() == 0 {
        None
    } else if hex_digit(s.last()) < 0 {
        None
    } else if s.len() == 1 {
        Some(hex_digit(s.last()))
    } else {
        match hex_run(s.drop_last()) {
            Some(v) => Some(v * 16 + hex_digit(s.last())),
            None => None,
        }
    }
}

pub open spec fn radix16(s: Seq<u8>) -> Option<int> {
    if s.len() > 0 && s[0] == 43 {
        hex_run(s.subrange(1, s.len() as int))
    } else {
        hex_run(s)
    }
}

pub open spec fn pow16(k: nat) -> int
    decreases k,
{
    if k == 0 {
        1
    } else {
        16 * pow16((k - 1) as nat)
    }
}

proof fn lemma_hex_run_bound(s: Seq<u8>)
    ensures
        hex_run(s) matches Some(v) ==> 0 <= v < pow16(s.len()),
    decreases s.len(),
{
    reveal_with_fuel(pow16, 2);
    if s.len() > 1 {
        lemma_hex_run_bound(s.drop_last());
    }
}

fn hex_digit_value(c: u8) -> (r: Option<u32>)
    ensures
        match r {
            Some(d) => hex_digit(c) == d as int && d < 16,
            None => hex_digit(c) < 0,
        },
{
    if 48 <= c && c <= 57 {
        Some((c - 48) as u32)
    } else if 97 <= c && c <= 102 {
        Some((c - 97 + 10) as u32)
    } else if 65 <= c && c <= 70 {
        Some((c - 65 + 10) as u32)
    } else {
        None
    }
}

/// `from_str_radix(text, 16)` on at most six bytes.
pub fn parse_hex(s: &[u8]) -> (r: Option<u32>)
    requires
        s@.len() <= 6,
    ensures
        match r {
            Some(v) => radix16(s@) == Some(v as int),
            None => radix16(s@) is None,
        },
{
    let n = s.len();
    let from: usize = if n > 0 && s[0] == 43 { 1 } else { 0 };
    let ghost digits = s@.subrange(from as int, n as int);
    proof {
        if from == 0 {
            assert(digits =~= s@);
        }
        assert(radix16(s@) == hex_run(digits));
    }
    if from == n {
        return None;
    }
    let mut v: u32 = 0;
    let mut i = from;
    proof {
        reveal_with_fuel(pow16, 7);
    }
    while i < n
        invariant
            from < n <= 6,
            n == s@.len(),
            from <= i <= n,
            digits == s@.subrange(from as int, n as int),
            i > from ==> hex_run(s@.subrange(from as int, i as int)) == Some(v as int),
            i == from ==> v == 0,
            radix16(s@) == hex_run(digits),
            v < pow16((i - from) as nat),
            pow16(6) == 16777216,
        decreases n - i,
    {
        let d = match hex_digit_value(s[i]) {
            Some(d) => d,
            None => {
                proof {
                    assert(digits[(i - from) as int] == s@[i as int]);
                    lemma_hex_run_prefix_fails(digits, (i - from) as int);
                }
                return None;
            },
        };
        proof {
            let t = s@.subrange(from as int, i + 1);
            assert(t.drop_last() =~= s@.subrange(from as int, i as int));
            assert(t.last() == s@[i as int]);
            lemma_pow16_le((i - from + 1) as nat, 6);
        }
        v = v * 16 + d;
        i += 1;
    }
    proof {
        assert(s@.subrange(from as int, n as int) == digits);
    }
    Some(v)
}

proof fn lemma_pow16_le(a: nat, b: nat)
    requires
        a <= b,
    ensures
        pow16(a) <= pow16(b),
        pow16(a) >= 1,
    decreases b,
{
    if a < b {
        lemma_pow16_le(a, (b - 1) as nat);
    } else if a > 0 {
        lemma_pow16_le((a - 1) as nat, (a - 1) as nat);
    }
}

/// A run with a non-digit at position `k` has no value.
proof fn lemma_hex_run_prefix_fails(s: Seq<u8>, k: int)
    requires
        0 <= k < s.len(),
        hex_digit(s[k]) < 0,
    ensures
        hex_run(s) is None,
    decreases s.len(),
{
    if k < s.len() - 1 {
        assert(s.drop_last()[k] == s[k]);
        lemma_hex_run_prefix_fails(s.drop_last(), k);
    }
}

// ---------------------------------------------------------------------------
// UTF-8 encoding of a scalar value.

fn is_scalar_value(v: u32) -> (r: bool)
    ensures
        r == vstd::utf8::is_scalar(v),
{
    v <= 0x7F || (0x80 <= v && v <= 0x7FF) || (0x800 <= v && v <= 0xFFFF && !(0xD800 <= v && v <= 0xDFFF))
        || (0x10000 <= v && v <= 0x10FFFF)
}

fn encode_scalar_bytes(v: u32) -> (r: Vec<u8>)
    requires
        vstd::utf8::is_scalar(v),
    ensures
        r@ == vstd::utf8::encode_scalar(v),
{
    if v <= 0x7F {
        vec![(v & 0x7F) as u8]
    } else if v <= 0x7FF {
        vec![0xC0 | ((v >> 6) & 0x1F) as u8, 0x80 | (v & 0x3F) as u8]
    } else if v <= 0xFFFF {
        vec![0xE0 | ((v >> 12) & 0x0F) as u8, 0x80 | ((v >> 6) & 0x3F) as u8, 0x80 | (v & 0x3F) as u8]
    } else {
        vec![
            0xF0 | ((v >> 18) & 0x7) as u8,
            0x80 | ((v >> 12) & 0x3F) as u8,
            0x80 | ((v >> 6) & 0x3F) as u8,
            0x80 | (v & 0x3F) as u8,
        ]
    }
}

// ---------------------------------------------------------------------------
// Bounded values.

/// The first `limit` bytes of `s`.
pub open spec fn take_upto(s: Seq<u8>, limit: int) -> Seq<u8> {
    if s.len() <= limit {
        s
    } else {
        s.subrange(0, limit)
    }
}

/// A decoded value kept up to a byte limit: `bytes` holds its first bytes
/// and `truncated` says that more did not fit. `full` is the whole value.
pub struct BoundedStaticString {
    pub bytes: Vec<u8>,
    pub truncated: bool,
    pub full: Ghost<Seq<u8>>,
}

impl BoundedStaticString {
    pub open spec fn holds(&self, limit: int) -> bool {
        &&& self.bytes@ == take_upto(self.full@, limit)
        &&& self.truncated == (self.full@.len() > limit)
    }

    pub fn new() -> (r: BoundedStaticString)
        ensures
            r.full@ == Seq::<u8>::empty(),
            forall|limit: int| 0 <= limit ==> #[trigger] r.holds(limit),
    {
        BoundedStaticString { bytes: Vec::new(), truncated: false, full: Ghost(Seq::empty()) }
    }

    /// Appends `more`, keeping at most `limit` bytes.
    pub fn append(&mut self, more: &[u8], limit: usize)
        requires
            old(self).holds(limit as int),
        ensures
            final(self).holds(limit as int),
            final(self).full@ == old(self).full@ + more@,
    {
        let ghost f = self.full@;
        let len = self.bytes.len();
        let remaining: usize = if limit > len { limit - len } else { 0 };
        let take: usize = if more.len() < remaining { more.len() } else { remaining };
        let mut i: usize = 0;
        while i < take
            invariant
                take <= more@.len(),
                i <= take,
                self.truncated == (f.len() > limit),
                self.bytes@ == take_upto(f, limit as int) + more@.subrange(0, i as int),
            decreases take - i,
        {
            self.bytes.push(more[i]);
            proof {
                assert(more@.subrange(0, i + 1) =~= more@.subrange(0, i as int).push(more@[i as int]));
            }
            i += 1;
        }
        self.truncated = self.truncated || more.len() > remaining;
        self.full = Ghost(f + more@);
        proof {
            let g = f + more@;
            if f.len() >= limit {
                assert(more@.subrange(0, 0) =~= Seq::<u8>::empty());
                if g.len() > limit {
                    assert(take_upto(f, limit as int) + more@.subrange(0, 0) =~= g.subrange(0, limit as int));
                } else {
                    assert(take_upto(f, limit as int) + more@.subrange(0, 0) =~= g);
                }
            } else {
                if g.len() > limit {
                    assert(f + more@.subrange(0, take as int) =~= g.subrange(0, limit as int));
                } else {
                    assert(more@.subrange(0, take as int) =~= more@);
                }
            }
        }
    }

    /// Appends another bounded value.
    pub fn append_value(&mut self, value: BoundedStaticString, limit: usize)
        requires
            old(self).holds(limit as int),
            value.holds(limit as int),
        ensures
            final(self).holds(limit as int),
            final(self).full@ == old(self).full@ + value.full@,
    {
        let ghost f = self.full@;
        let ghost v = value.full@;
        self.append(value.bytes.as_slice(), limit);
        self.truncated = self.truncated || value.truncated;
        self.full = Ghost(f + v);
        proof {
            let g = f + v;
            if v.len() > limit {
                let h = f + v.subrange(0, limit as int);
                if h.len() <= limit {
                    assert(h =~= g.subrange(0, limit as int));
                } else {
                    assert(h.subrange(0, limit as int) =~= g.subrange(0, limit as int));
                }
            }
        }
    }

    /// The whole value is `expected` (whose length is the limit kept).
    pub fn equals(&self, expected: &[u8]) -> (r: bool)
        requires
            self.holds(expected@.len() as int),
        ensures
            r == (self.full@ == expected@),
    {
        !self.truncated && crate::text::bytes_eq(self.bytes.as_slice(), expected)
    }
}

// ---------------------------------------------------------------------------
// String literals.

pub open spec fn cons_bytes(p: Seq<u8>, rest: Option<Seq<u8>>) -> Option<Seq<u8>> {
    match rest {
        Some(r) => Some(p + r),
        None => None,
    }
}

/// Index of the first `}` at or after `j`.
pub open spec fn close_brace(s: Seq<u8>, j: int) -> Option<int>
    decreases s.len() - j,
{
    if j < 0 || j >= s.len() {
        None
    } else if s[j] == 125 {
        Some(j)
    } else {
        close_brace(s, j + 1)
    }
}

pub proof fn lemma_close_brace(s: Seq<u8>, j: int)
    requires
        0 <= j,
    ensures
        close_brace(s, j) matches Some(k) ==> j <= k < s.len() && s[k] == 125,
    decreases s.len() - j,
{
    if j < s.len() && s[j] != 125 {
        lemma_close_brace(s, j + 1);
    }
}

/// Value of the escape-decoded literal body from `i` on; `None` where an
/// escape is malformed, a legacy octal (a digit), or a non-ASCII byte.
pub open spec fn decode_from(s: Seq<u8>, i: int) -> Option<Seq<u8>>
    decreases s.len() - i,
{
    if i < 0 || i >= s.len() {
        Some(Seq::empty())
    } else if s[i] != 92 {
        cons_bytes(seq![s[i]], decode_from(s, i + 1))
    } else if i + 1 >= s.len() {
        None
    } else if line_term_len(s, i + 1) > 0 {
        decode_from(s, i + 1 + line_term_len(s, i + 1))
    } else {
        let e = s[i + 1];
        if e == 117 {
            if i + 2 < s.len() && s[i + 2] == 123 {
                proof {
                    lemma_close_brace(s, i + 3);
                }
                match close_brace(s, i + 3) {
                    None => None,
                    Some(close) => {
                        let digits = s.subrange(i + 3, close);
                        if digits.len() == 0 || digits.len() > 6 {
                            None
                        } else {
                            match radix16(digits) {
                                Some(v) => if 0 <= v <= u32::MAX && vstd::utf8::is_scalar(v as u32) {
                                    cons_bytes(vstd::utf8::encode_scalar(v as u32), decode_from(s, close + 1))
                                } else {
                                    None
                                },
                                None => None,
                            }
                        }
                    },
                }
            } else if i + 6 > s.len() {
                None
            } else {
                match radix16(s.subrange(i + 2, i + 6)) {
                    Some(v) => if 0 <= v <= u32::MAX && vstd::utf8::is_scalar(v as u32) {
                        cons_bytes(vstd::utf8::encode_scalar(v as u32), decode_from(s, i + 6))
                    } else {
                        None
                    },
                    None => None,
                }
            }
        } else if e == 120 {
            if i + 4 > s.len() {
                None
            } else {
                match radix16(s.subrange(i + 2, i + 4)) {
                    Some(v) => cons_bytes(seq![v as u8], decode_from(s, i + 4)),
                    None => None,
                }
            }
        } else if e == 110 {
            cons_bytes(seq![10u8], decode_from(s, i + 2))
        } else if e == 114 {
            cons_bytes(seq![13u8], decode_from(s, i + 2))
        } else if e == 116 {
            cons_bytes(seq![9u8], decode_from(s, i + 2))
        } else if e == 98 {
            cons_bytes(seq![8u8], decode_from(s, i + 2))
        } else if e == 102 {
            cons_bytes(seq![12u8], decode_from(s, i + 2))
        } else if e == 118 {
            cons_bytes(seq![11u8], decode_from(s, i + 2))
        } else if is_digit(e) || e >= 128 {
            None
        } else {
            cons_bytes(seq![e], decode_from(s, i + 2))
        }
    }
}

/// The token starts with a quote.
pub open spec fn string_token(b: Seq<u8>, t: JsToken) -> bool {
    t.start < b.len() && (b[t.start as int] == 39 || b[t.start as int] == 34)
}

/// Decoded value of a string-literal token: its bytes between matching
/// quotes, escapes resolved.
pub open spec fn literal_value(b: Seq<u8>, t: JsToken) -> Option<Seq<u8>> {
    if !(t.start <= t.end <= b.len()) || t.start == t.end {
        None
    } else {
        let raw = b.subrange(t.start as int, t.end as int);
        let q = raw[0];
        if !(q == 39 || q == 34) || raw.len() < 2 || raw.last() != q {
            None
        } else {
            decode_from(raw.subrange(1, raw.len() - 1), 0)
        }
    }
}

/// Value of a string-literal token, kept up to `output_limit` bytes.
pub fn javascript_string_literal_value(b: &[u8], t: JsToken, output_limit: usize) -> (r: Option<BoundedStaticString>)
    ensures
        match r {
            Some(v) => literal_value(b@, t) == Some(v.full@) && v.holds(output_limit as int),
            None => literal_value(b@, t) is None,
        },
{
    if !(t.start <= t.end && t.end <= b.len()) || t.start == t.end {
        return None;
    }
    let raw = &b[t.start..t.end];
    assert(raw@ == b@.subrange(t.start as int, t.end as int));
    let quote = raw[0];
    if !(quote == 39 || quote == 34) || raw.len() < 2 || raw[raw.len() - 1] != quote {
        return None;
    }
    let body = &raw[1..raw.len() - 1];
    let n = body.len();
    let mut decoded = BoundedStaticString::new();
    let mut index: usize = 0;
    proof {
        if let Some(r) = decode_from(body@, 0) {
            assert(Seq::<u8>::empty() + r =~= r);
        }
    }
    while index < n
        invariant
            n == body@.len(),
            index <= n,
            decoded.holds(output_limit as int),
            literal_value(b@, t) == decode_from(body@, 0),
            decode_from(body@, 0) == cons_bytes(decoded.full@, decode_from(body@, index as int)),
        decreases n - index,
    {
        let c = body[index];
        if c != 92 {
            let one = [c];
            proof {
                assert(one@ =~= seq![c]);
                lemma_cons_assoc(decoded.full@, one@, decode_from(body@, index + 1));
            }
            decoded.append(&one, output_limit);
            index += 1;
            continue;
        }
        if index + 1 >= n {
            return None;
        }
        let escape = body[index + 1];
        match line_terminator_sequence_len_at(body, index + 1) {
            Some(length) => {
                index += length + 1;
                continue;
            },
            None => {},
        }
        if escape == 117 {
            if n - index > 2 && body[index + 2] == 123 {
                let digits_start = index + 3;
                let mut close = digits_start;
                while close < n && body[close] != 125
                    invariant
                        digits_start <= close <= n,
                        n == body@.len(),
                        close_brace(body@, digits_start as int) == close_brace(body@, close as int),
                    decreases n - close,
                {
                    close += 1;
                }
                if close >= n {
                    return None;
                }
                proof {
                    lemma_close_brace(body@, digits_start as int);
                }
                let dlen = close - digits_start;
                if dlen == 0 || dlen > 6 {
                    return None;
                }
                let digits = &body[digits_start..close];
                assert(digits@ == body@.subrange(digits_start as int, close as int));
                let value = match parse_hex(digits) {
                    Some(v) => v,
                    None => {
                        return None;
                    },
                };
                if !is_scalar_value(value) {
                    return None;
                }
                let enc = encode_scalar_bytes(value);
                proof {
                    lemma_cons_assoc(decoded.full@, enc@, decode_from(body@, close + 1));
                }
                decoded.append(enc.as_slice(), output_limit);
                index = close + 1;
            } else {
                if n - index < 6 {
                    return None;
                }
                let hex = &body[index + 2..index + 6];
                let value = match parse_hex(hex) {
                    Some(v) => v,
                    None => {
                        return None;
                    },
                };
                if !is_scalar_value(value) {
                    return None;
                }
                let enc = encode_scalar_bytes(value);
                proof {
                    lemma_cons_assoc(decoded.full@, enc@, decode_from(body@, index + 6));
                }
                decoded.append(enc.as_slice(), output_limit);
                index += 6;
            }
            continue;
        }
        let replacement: u8;
        if escape == 120 {
            if n - index < 4 {
                return None;
            }
            let hex = &body[index + 2..index + 4];
            let value = match parse_hex(hex) {
                Some(v) => v,
                None => {
                    return None;
                },
            };
            proof {
                lemma_hex_run_bound(hex@);
                lemma_hex_run_bound(hex@.subrange(1, hex@.len() as int));
                reveal_with_fuel(pow16, 3);
            }
            let one = [value as u8];
            proof {
                assert(one@ =~= seq![value as u8]);
                lemma_cons_assoc(decoded.full@, one@, decode_from(body@, index + 4));
            }
            decoded.append(&one, output_limit);
            index += 4;
            continue;
        } else if escape == 110 {
            replacement = 10;
        } else if escape == 114 {
            replacement = 13;
        } else if escape == 116 {
            replacement = 9;
        } else if escape == 98 {
            replacement = 8;
        } else if escape == 102 {
            replacement = 12;
        } else if escape == 118 {
            replacement = 11;
        } else if (48 <= escape && escape <= 57) || escape >= 128 {
            return None;
        } else {
            replacement = escape;
        }
        let one = [replacement];
        proof {
            assert(one@ =~= seq![replacement]);
            lemma_cons_assoc(decoded.full@, one@, decode_from(body@, index + 2));
        }
        decoded.append(&one, output_limit);
        index += 2;
    }
    proof {
        assert(decoded.full@ + Seq::<u8>::empty() =~= decoded.full@);
    }
    Some(decoded)
}

proof fn lemma_cons_assoc(p: Seq<u8>, x: Seq<u8>, o: Option<Seq<u8>>)
    ensures
        cons_bytes(p, cons_bytes(x, o)) == cons_bytes(p + x, o),
{
    if let Some(r) = o {
        assert(p + (x + r) =~= (p + x) + r);
    }
}

// ---------------------------------------------------------------------------
// Static computed member names: a string literal, a parenthesized name, or
// names joined by `+`, parentheses nested at most 64 deep.

pub open spec fn clip(x: int) -> int {
    if x > 0 {
        x
    } else {
        0
    }
}

/// One operand from `es[idx]`: its value and the index after it.
pub open spec fn term_spec(b: Seq<u8>, es: Seq<JsToken>, idx: int, depth: int) -> Option<(Seq<u8>, int)>
    decreases clip(es.len() - idx), 0int,
{
    if idx < 0 || idx >= es.len() {
        None
    } else if string_token(b, es[idx]) {
        match literal_value(b, es[idx]) {
            Some(v) => Some((v, idx + 1)),
            None => None,
        }
    } else if !text_is(b, es[idx], text_bytes("("@)) || depth >= 64 {
        None
    } else {
        match concat_spec(b, es, idx + 1, depth + 1) {
            Some((v, j)) => if text_at(b, es, j, text_bytes(")"@)) {
                Some((v, j + 1))
            } else {
                None
            },
            None => None,
        }
    }
}

/// Operands joined by `+` from `es[idx]`: their joined value and the index
/// after the last.
pub open spec fn concat_spec(b: Seq<u8>, es: Seq<JsToken>, idx: int, depth: int) -> Option<(Seq<u8>, int)>
    decreases clip(es.len() - idx), 1int,
{
    if idx < 0 || idx >= es.len() {
        None
    } else {
        match term_spec(b, es, idx, depth) {
            None => None,
            Some((v, j)) => if j <= idx {
                None
            } else {
                rest_spec(b, es, v, j, depth)
            },
        }
    }
}

/// Further `+ operand` parts from `es[j]`, joined onto `v`.
pub open spec fn rest_spec(b: Seq<u8>, es: Seq<JsToken>, v: Seq<u8>, j: int, depth: int) -> Option<(Seq<u8>, int)>
    decreases clip(es.len() - j), 2int,
{
    if text_at(b, es, j, text_bytes("+"@)) {
        match term_spec(b, es, j + 1, depth) {
            None => None,
            Some((p, k)) => if k <= j + 1 {
                None
            } else {
                rest_spec(b, es, v + p, k, depth)
            },
        }
    } else {
        Some((v, j))
    }
}

/// The value of a whole token run that is a static member name.
pub open spec fn static_name(b: Seq<u8>, es: Seq<JsToken>) -> Option<Seq<u8>> {
    match concat_spec(b, es, 0, 0) {
        Some((v, j)) => if j == es.len() {
            Some(v)
        } else {
            None
        },
        None => None,
    }
}

fn parse_term(b: &[u8], es: &[JsToken], idx: usize, depth: usize, limit: usize) -> (r: Option<(BoundedStaticString, usize)>)
    requires
        depth <= 64,
    ensures
        match r {
            Some((v, j)) => term_spec(b@, es@, idx as int, depth as int) == Some((v.full@, j as int)) && v.holds(
                limit as int,
            ) && idx < j <= es@.len(),
            None => term_spec(b@, es@, idx as int, depth as int) is None,
        },
    decreases clip(es@.len() - idx), 0int,
{
    if idx >= es.len() {
        return None;
    }
    let t = es[idx];
    if t.start < b.len() && (b[t.start] == 39 || b[t.start] == 34) {
        return match javascript_string_literal_value(b, t, limit) {
            Some(v) => Some((v, idx + 1)),
            None => None,
        };
    }
    if !token_is(b, t, "(") || depth >= 64 {
        return None;
    }
    match parse_concatenation(b, es, idx + 1, depth + 1, limit) {
        Some((v, j)) => if token_at_is(b, es, j, ")") {
            Some((v, j + 1))
        } else {
            None
        },
        None => None,
    }
}

fn parse_concatenation(b: &[u8], es: &[JsToken], idx: usize, depth: usize, limit: usize) -> (r: Option<(BoundedStaticString, usize)>)
    requires
        depth <= 64,
    ensures
        match r {
            Some((v, j)) => concat_spec(b@, es@, idx as int, depth as int) == Some((v.full@, j as int)) && v.holds(
                limit as int,
            ) && idx < j <= es@.len(),
            None => concat_spec(b@, es@, idx as int, depth as int) is None,
        },
    decreases clip(es@.len() - idx), 1int,
{
    if idx >= es.len() {
        return None;
    }
    let (mut value, mut j) = match parse_term(b, es, idx, depth, limit) {
        Some(p) => p,
        None => {
            return None;
        },
    };
    let n = es.len();
    while token_at_is(b, es, j, "+")
        invariant
            n == es@.len(),
            depth <= 64,
            idx < es@.len(),
            idx < j <= es@.len(),
            value.holds(limit as int),
            concat_spec(b@, es@, idx as int, depth as int) == rest_spec(b@, es@, value.full@, j as int, depth as int),
        decreases es@.len() - j,
    {
        let (part, k) = match parse_term(b, es, j + 1, depth, limit) {
            Some(p) => p,
            None => {
                return None;
            },
        };
        value.append_value(part, limit);
        j = k;
    }
    Some((value, j))
}

/// Value of a static member-name expression, kept up to `output_limit`.
pub fn static_computed_member_name(b: &[u8], es: &[JsToken], output_limit: usize) -> (r: Option<BoundedStaticString>)
    ensures
        match r {
            Some(v) => static_name(b@, es@) == Some(v.full@) && v.holds(output_limit as int),
            None => static_name(b@, es@) is None,
        },
{
    match parse_concatenation(b, es, 0, 0, output_limit) {
        Some((v, j)) => if j == es.len() {
            Some(v)
        } else {
            None
        },
        None => None,
    }
}

// ---------------------------------------------------------------------------
// Computed member access.

pub open spec fn identifier_token(b: Seq<u8>, t: JsToken) -> bool {
    t.start < b.len() && ident_start(b[t.start as int])
}

pub open spec fn can_end_member_base(b: Seq<u8>, t: JsToken) -> bool {
    identifier_token(b, t) || text_is(b, t, text_bytes(")"@)) || text_is(b, t, text_bytes("]"@))
}

/// The `[` at `open` follows something a member can be read from (an
/// identifier, `)` or `]`, directly or through `?.`).
pub open spec fn member_bracket(b: Seq<u8>, ts: Seq<JsToken>, open: int) -> bool {
    ||| open > 0 && can_end_member_base(b, ts[open - 1])
    ||| open >= 3 && text_at(b, ts, open - 1, text_bytes("."@)) && text_at(b, ts, open - 2, text_bytes("?"@))
        && can_end_member_base(b, ts[open - 3])
}

fn token_is_javascript_identifier(b: &[u8], t: JsToken) -> (r: bool)
    ensures
        r == identifier_token(b@, t),
{
    t.start < b.len() && (ascii_alpha(b[t.start]) || b[t.start] == 95 || b[t.start] == 36)
}

fn token_can_end_member_base(b: &[u8], t: JsToken) -> (r: bool)
    ensures
        r == can_end_member_base(b@, t),
{
    token_is_javascript_identifier(b, t) || token_is(b, t, ")") || token_is(b, t, "]")
}

fn computed_bracket_has_member_base(b: &[u8], ts: &[JsToken], open: usize) -> (r: bool)
    requires
        open < ts@.len(),
    ensures
        r == member_bracket(b@, ts@, open as int),
{
    if open > 0 && token_can_end_member_base(b, ts[open - 1]) {
        return true;
    }
    open >= 3 && token_at_is(b, ts, open - 1, ".") && token_at_is(b, ts, open - 2, "?") && token_can_end_member_base(
        b,
        ts[open - 3],
    )
}

/// From token `k` on, with the open brackets on `stack`: some bracket does
/// not close, or a member bracket holds something other than a static name,
/// or names `localStorage`.
pub open spec fn unsafe_from(b: Seq<u8>, ts: Seq<JsToken>, k: int, stack: Seq<(usize, bool)>) -> bool
    decreases ts.len() - k,
{
    if k < 0 || k >= ts.len() {
        stack.len() > 0
    } else if text_is(b, ts[k], text_bytes("["@)) {
        unsafe_from(b, ts, k + 1, stack.push((k as usize, member_bracket(b, ts, k))))
    } else if !text_is(b, ts[k], text_bytes("]"@)) {
        unsafe_from(b, ts, k + 1, stack)
    } else if stack.len() == 0 {
        true
    } else if !stack.last().1 {
        unsafe_from(b, ts, k + 1, stack.drop_last())
    } else {
        match static_name(b, ts.subrange(stack.last().0 + 1, k)) {
            None => true,
            Some(v) => if v == text_bytes("localStorage"@) {
                true
            } else {
                unsafe_from(b, ts, k + 1, stack.drop_last())
            },
        }
    }
}

/// Some computed member access is not provably a static name other than
/// `localStorage`, or the brackets do not pair up.
pub fn analysis_has_unsafe_computed_member_access(b: &[u8], ts: &[JsToken]) -> (r: bool)
    ensures
        r == unsafe_from(b@, ts@, 0, Seq::empty()),
{
    let name = "localStorage".as_bytes();
    let limit = name.len();
    let mut stack: Vec<(usize, bool)> = Vec::new();
    let mut k: usize = 0;
    while k < ts.len()
        invariant
            k <= ts@.len(),
            name@ == text_bytes("localStorage"@),
            limit == name@.len(),
            forall|i: int| 0 <= i < stack@.len() ==> (#[trigger] stack@[i]).0 < k,
            unsafe_from(b@, ts@, 0, Seq::empty()) == unsafe_from(b@, ts@, k as int, stack@),
        decreases ts@.len() - k,
    {
        let t = ts[k];
        if token_is(b, t, "[") {
            let member = computed_bracket_has_member_base(b, ts, k);
            stack.push((k, member));
            k += 1;
            continue;
        }
        if !token_is(b, t, "]") {
            k += 1;
            continue;
        }
        let ghost before = stack@;
        let (open, is_member) = match stack.pop() {
            Some(top) => top,
            None => {
                return true;
            },
        };
        proof {
            assert(stack@ == before.drop_last());
            assert(before.last() == (open, is_member));
            assert(open < k);
        }
        if !is_member {
            k += 1;
            continue;
        }
        let expression = &ts[open + 1..k];
        let value = match static_computed_member_name(b, expression, limit) {
            Some(v) => v,
            None => {
                return true;
            },
        };
        if value.equals(name) {
            return true;
        }
        k += 1;
    }
    stack.len() > 0
}

} // verus!
