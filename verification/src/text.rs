//! Byte-level text helpers: ASCII classification, case-insensitive
//! comparison, decimal numbers and the file-name / extension rules of
//! slash-separated paths.

use vstd::prelude::*;

verus! {

pub open spec fn is_digit(b: u8) -> bool {
    48 <= b <= 57
}

pub open spec fn is_alpha(b: u8) -> bool {
    (65 <= b <= 90) || (97 <= b <= 122)
}

pub open spec fn is_alnum(b: u8) -> bool {
    is_digit(b) || is_alpha(b)
}

/// ASCII whitespace as `u8::is_ascii_whitespace` defines it.
pub open spec fn is_space(b: u8) -> bool {
    b == 32 || b == 9 || b == 10 || b == 12 || b == 13
}

pub open spec fn lower(b: u8) -> u8 {
    if 65 <= b <= 90 {
        (b + 32) as u8
    } else {
        b
    }
}

/// ASCII case-insensitive equality of two byte strings.
pub open spec fn eq_ignore_case(a: Seq<u8>, b: Seq<u8>) -> bool {
    &&& a.len() == b.len()
    &&& forall|i: int| 0 <= i < a.len() ==> #[trigger] lower(a[i]) == lower(b[i])
}

pub fn ascii_digit(b: u8) -> (r: bool)
    ensures
        r == is_digit(b),
{
    48 <= b && b <= 57
}

pub fn ascii_alpha(b: u8) -> (r: bool)
    ensures
        r == is_alpha(b),
{
    (65 <= b && b <= 90) || (97 <= b && b <= 122)
}

pub fn ascii_alnum(b: u8) -> (r: bool)
    ensures
        r == is_alnum(b),
{
    ascii_digit(b) || ascii_alpha(b)
}

pub fn ascii_space(b: u8) -> (r: bool)
    ensures
        r == is_space(b),
{
    b == 32 || b == 9 || b == 10 || b == 12 || b == 13
}

pub fn ascii_lower(b: u8) -> (r: u8)
    ensures
        r == lower(b),
{
    if 65 <= b && b <= 90 {
        b + 32
    } else {
        b
    }
}

/// Case-insensitive (ASCII) comparison of `a[start..start + b.len()]` with `b`.
pub fn bytes_eq_ignore_case_at(a: &[u8], start: usize, b: &[u8]) -> (r: bool)
    requires
        start + b@.len() <= a@.len(),
    ensures
        r == eq_ignore_case(a@.subrange(start as int, start + b@.len()), b@),
{
    let alen = a.len();
    let mut i: usize = 0;
    while i < b.len()
        invariant
            i <= b@.len(),
            alen == a@.len(),
            start + b@.len() <= a@.len(),
            forall|j: int| 0 <= j < i ==> lower(a@[start + j]) == lower(b@[j]),
        decreases b@.len() - i,
    {
        if ascii_lower(a[start + i]) != ascii_lower(b[i]) {
            assert(lower(a@.subrange(start as int, start + b@.len())[i as int]) != lower(b@[i as int]));
            return false;
        }
        i += 1;
    }
    assert forall|j: int| 0 <= j < b@.len() implies #[trigger] lower(
        a@.subrange(start as int, start + b@.len())[j],
    ) == lower(b@[j]) by {
        assert(a@.subrange(start as int, start + b@.len())[j] == a@[start + j]);
    }
    true
}

/// ASCII case-insensitive equality of two byte strings.
pub fn bytes_eq_ignore_case(a: &[u8], b: &[u8]) -> (r: bool)
    ensures
        r == eq_ignore_case(a@, b@),
{
    if a.len() != b.len() {
        return false;
    }
    let r = bytes_eq_ignore_case_at(a, 0, b);
    assert(a@.subrange(0, b@.len() as int) =~= a@);
    r
}

/// Exact equality of `a[start..start + b.len()]` and `b`.
pub fn bytes_eq_at(a: &[u8], start: usize, b: &[u8]) -> (r: bool)
    requires
        start + b@.len() <= a@.len(),
    ensures
        r == (a@.subrange(start as int, start + b@.len()) == b@),
{
    let alen = a.len();
    let mut i: usize = 0;
    while i < b.len()
        invariant
            i <= b@.len(),
            alen == a@.len(),
            start + b@.len() <= a@.len(),
            forall|j: int| 0 <= j < i ==> a@[start + j] == b@[j],
        decreases b@.len() - i,
    {
        if a[start + i] != b[i] {
            assert(a@.subrange(start as int, start + b@.len())[i as int] != b@[i as int]);
            return false;
        }
        i += 1;
    }
    assert(a@.subrange(start as int, start + b@.len()) =~= b@);
    true
}

/// Exact equality of two byte strings.
pub fn bytes_eq(a: &[u8], b: &[u8]) -> (r: bool)
    ensures
        r == (a@ == b@),
{
    if a.len() != b.len() {
        return false;
    }
    let r = bytes_eq_at(a, 0, b);
    assert(a@.subrange(0, b@.len() as int) =~= a@);
    r
}

/// True when `s` contains the byte `c`.
pub fn contains_byte(s: &[u8], c: u8) -> (r: bool)
    ensures
        r == s@.contains(c),
{
    let mut i: usize = 0;
    while i < s.len()
        invariant
            i <= s@.len(),
            forall|j: int| 0 <= j < i ==> s@[j] != c,
        decreases s@.len() - i,
    {
        if s[i] == c {
            assert(s@[i as int] == c);
            return true;
        }
        i += 1;
    }
    false
}

/// Decimal text of an unsigned number, most significant digit first.
pub open spec fn spec_decimal(n: nat) -> Seq<char>
    decreases n,
{
    if n < 10 {
        seq![digit_char(n)]
    } else {
        spec_decimal(n / 10).push(digit_char(n % 10))
    }
}

pub open spec fn digit_char(d: nat) -> char {
    if d == 0 { '0' }
    else if d == 1 { '1' }
    else if d == 2 { '2' }
    else if d == 3 { '3' }
    else if d == 4 { '4' }
    else if d == 5 { '5' }
    else if d == 6 { '6' }
    else if d == 7 { '7' }
    else if d == 8 { '8' }
    else { '9' }
}

/// Digit bytes of the decimal text of a number.
pub open spec fn decimal_bytes(n: nat) -> Seq<u8>
    decreases n,
{
    if n < 10 {
        seq![(48 + n) as u8]
    } else {
        decimal_bytes(n / 10).push((48 + n % 10) as u8)
    }
}

proof fn lemma_decimal_bytes(n: nat)
    ensures
        all_ascii(decimal_bytes(n)),
        ascii_chars(decimal_bytes(n)) == spec_decimal(n),
    decreases n,
{
    if n >= 10 {
        lemma_decimal_bytes(n / 10);
        let p = decimal_bytes(n / 10);
        assert(ascii_chars(p.push((48 + n % 10) as u8)) =~= ascii_chars(p).push(digit_char(n % 10)));
    } else {
        assert(ascii_chars(seq![(48 + n) as u8]) =~= seq![digit_char(n)]);
    }
}

fn push_decimal(n: u64, out: &mut Vec<u8>)
    ensures
        final(out)@ == old(out)@ + decimal_bytes(n as nat),
    decreases n,
{
    if n >= 10 {
        push_decimal(n / 10, out);
    }
    out.push(48 + (n % 10) as u8);
    assert(out@ =~= old(out)@ + decimal_bytes(n as nat));
}

/// Decimal text of a number, as `u64::to_string` writes it: digits without
/// sign or padding.
pub fn decimal(n: u64) -> (s: String)
    ensures
        s@ == spec_decimal(n as nat),
{
    let mut bytes: Vec<u8> = Vec::new();
    push_decimal(n, &mut bytes);
    proof {
        assert(bytes@ =~= decimal_bytes(n as nat));
        lemma_decimal_bytes(n as nat);
    }
    ascii_string(bytes)
}

/// `String::from_utf8`: succeeds exactly on valid UTF-8 and then holds the
/// decoded characters.
#[verifier::external_body]
pub(crate) fn string_from_utf8(bytes: Vec<u8>) -> (r: Option<String>)
    ensures
        r is Some <==> vstd::utf8::valid_utf8(bytes@),
        r matches Some(s) ==> s@ == vstd::utf8::decode_utf8(bytes@),
{
    String::from_utf8(bytes).ok()
}

/// Characters of an ASCII byte string.
pub open spec fn ascii_chars(b: Seq<u8>) -> Seq<char> {
    Seq::new(b.len(), |i: int| b[i] as char)
}

pub open spec fn all_ascii(b: Seq<u8>) -> bool {
    forall|i: int| 0 <= i < b.len() ==> #[trigger] b[i] < 128
}

/// Text of an ASCII byte string.
pub fn ascii_string(bytes: Vec<u8>) -> (s: String)
    requires
        all_ascii(bytes@),
    ensures
        s@ == ascii_chars(bytes@),
{
    let ghost chars = ascii_chars(bytes@);
    proof {
        assert(vstd::utf8::is_ascii_chars(chars));
        vstd::utf8::is_ascii_chars_encode_utf8(chars);
        assert forall|i: int| 0 <= i < chars.len() implies chars[i] as u8 == bytes@[i] by {
            assert(bytes@[i] < 128);
        }
        assert(vstd::utf8::encode_utf8(chars) =~= bytes@);
        vstd::utf8::encode_utf8_valid_utf8(chars);
        vstd::utf8::encode_utf8_decode_utf8(chars);
    }
    match string_from_utf8(bytes) {
        Some(s) => s,
        None => String::new(),
    }
}

/// Concatenation of two texts into a new `String`.
pub fn concat(a: &str, b: &str) -> (s: String)
    ensures
        s@ == a@ + b@,
{
    let mut s = a.to_owned();
    s.append(b);
    s
}

/// The UTF-8 bytes of two joined texts are the joined bytes of each.
pub proof fn lemma_encode_concat(a: Seq<char>, b: Seq<char>)
    ensures
        vstd::utf8::encode_utf8(a + b) == vstd::utf8::encode_utf8(a) + vstd::utf8::encode_utf8(b),
    decreases a.len(),
{
    if a.len() == 0 {
        assert(a + b =~= b);
        assert(vstd::utf8::encode_utf8(a) + vstd::utf8::encode_utf8(b) =~= vstd::utf8::encode_utf8(b));
    } else {
        assert((a + b).drop_first() =~= a.drop_first() + b);
        assert((a + b)[0] == a[0]);
        lemma_encode_concat(a.drop_first(), b);
        assert(vstd::utf8::encode_utf8(a + b) =~= vstd::utf8::encode_utf8(a) + vstd::utf8::encode_utf8(b));
    }
}

/// Splits a text at byte `i`, which is the end of the text or an ASCII
/// byte (hence a character boundary): the two parts' bytes are the bytes
/// before and from `i`, and their characters make up the text.
pub fn split_at_ascii(s: &str, i: usize) -> (r: (&str, &str))
    requires
        i <= vstd::utf8::encode_utf8(s@).len(),
        i < vstd::utf8::encode_utf8(s@).len() ==> vstd::utf8::encode_utf8(s@)[i as int] < 128,
    ensures
        vstd::utf8::encode_utf8(r.0@) == vstd::utf8::encode_utf8(s@).subrange(0, i as int),
        vstd::utf8::encode_utf8(r.1@) == vstd::utf8::encode_utf8(s@).subrange(i as int, vstd::utf8::encode_utf8(s@).len() as int),
        r.0@ + r.1@ == s@,
{
    let ghost b = vstd::utf8::encode_utf8(s@);
    proof {
        vstd::utf8::encode_utf8_valid_utf8(s@);
        vstd::utf8::encode_utf8_decode_utf8(s@);
        if i < b.len() {
            vstd::utf8::is_char_boundary_iff_not_is_continuation_byte(b, i as int);
        } else {
            vstd::utf8::is_char_boundary_start_end_of_seq(b);
        }
    }
    let r = s.split_at(i);
    proof {
        vstd::utf8::valid_utf8_split(b, i as int);
        vstd::utf8::decode_utf8_split(b, i as int);
        vstd::utf8::encode_utf8_decode_utf8(r.0@);
        vstd::utf8::encode_utf8_decode_utf8(r.1@);
    }
    r
}

// ---------------------------------------------------------------------------
// Paths: `/`-separated, as `std::path::Path` reads them on Unix.

pub open spec fn slash() -> u8 {
    47
}

pub open spec fn dot() -> u8 {
    46
}

/// The path with trailing separators and trailing `/.` components removed.
pub open spec fn trim_tail(b: Seq<u8>) -> Seq<u8>
    decreases b.len(),
{
    if b.len() > 0 && b.last() == slash() {
        trim_tail(b.drop_last())
    } else if b.len() >= 2 && b.last() == dot() && b[b.len() - 2] == slash() {
        trim_tail(b.drop_last())
    } else {
        b
    }
}

/// Index of the last occurrence of `c`, or -1.
pub open spec fn last_index_of(s: Seq<u8>, c: u8) -> int
    decreases s.len(),
{
    if s.len() == 0 {
        -1
    } else if s.last() == c {
        s.len() - 1
    } else {
        last_index_of(s.drop_last(), c)
    }
}

pub proof fn lemma_last_index_of(s: Seq<u8>, c: u8)
    ensures
        -1 <= last_index_of(s, c) < s.len(),
        last_index_of(s, c) >= 0 ==> s[last_index_of(s, c)] == c,
        forall|j: int| last_index_of(s, c) < j < s.len() ==> s[j] != c,
    decreases s.len(),
{
    if s.len() > 0 && s.last() != c {
        lemma_last_index_of(s.drop_last(), c);
        assert forall|j: int| last_index_of(s, c) < j < s.len() implies s[j] != c by {
            if j < s.len() - 1 {
                assert(s.drop_last()[j] == s[j]);
            }
        }
    }
}

/// Start and end of the final normal component (`Path::file_name`), if any.
pub open spec fn spec_file_name_range(b: Seq<u8>) -> Option<(int, int)> {
    let t = trim_tail(b);
    let start = last_index_of(t, slash()) + 1;
    let name = t.subrange(start, t.len() as int);
    if name.len() == 0 || name == seq![dot()] || name == seq![dot(), dot()] {
        None
    } else {
        Some((start, t.len() as int))
    }
}

/// Range of the extension (`Path::extension`): the text after the last dot
/// of the file name, when that dot is not the name's first byte.
pub open spec fn spec_extension_range(b: Seq<u8>) -> Option<(int, int)> {
    match spec_file_name_range(b) {
        None => None,
        Some((start, end)) => {
            let k = last_index_of(b.subrange(start, end), dot());
            if k <= 0 {
                None
            } else {
                Some((start + k + 1, end))
            }
        },
    }
}

proof fn lemma_trim_tail_prefix(b: Seq<u8>)
    ensures
        trim_tail(b).len() <= b.len(),
        trim_tail(b) =~= b.subrange(0, trim_tail(b).len() as int),
    decreases b.len(),
{
    if b.len() > 0 && b.last() == slash() {
        lemma_trim_tail_prefix(b.drop_last());
    } else if b.len() >= 2 && b.last() == dot() && b[b.len() - 2] == slash() {
        lemma_trim_tail_prefix(b.drop_last());
    }
}

/// `Path::file_name` as a byte range of `b`.
pub fn file_name_range(b: &[u8]) -> (r: Option<(usize, usize)>)
    ensures
        match r {
            None => spec_file_name_range(b@) is None,
            Some((s, e)) => spec_file_name_range(b@) == Some((s as int, e as int)) && s <= e
                <= b@.len(),
        },
{
    let mut end = b.len();
    proof {
        assert(b@.subrange(0, end as int) =~= b@);
    }
    loop
        invariant
            end <= b@.len(),
            trim_tail(b@.subrange(0, end as int)) == trim_tail(b@),
        ensures
            end <= b@.len(),
            trim_tail(b@) == b@.subrange(0, end as int),
        decreases end,
    {
        let ghost cur = b@.subrange(0, end as int);
        if end > 0 && b[end - 1] == 47 {
            assert(cur.drop_last() =~= b@.subrange(0, end - 1));
            end -= 1;
        } else if end >= 2 && b[end - 1] == 46 && b[end - 2] == 47 {
            assert(cur.drop_last() =~= b@.subrange(0, end - 1));
            end -= 1;
        } else {
            assert(trim_tail(cur) == cur);
            break;
        }
    }
    let ghost t = b@.subrange(0, end as int);
    assert(t.subrange(0, end as int) =~= t);
    // find the last separator before `end`
    let mut i = end;
    while i > 0
        invariant
            i <= end <= b@.len(),
            t == b@.subrange(0, end as int),
            forall|j: int| i <= j < end ==> b@[j] != 47,
            last_index_of(t, slash()) == last_index_of(t.subrange(0, i as int), slash()),
        ensures
            i <= end <= b@.len(),
            i == 0 || b@[i - 1] == 47,
            forall|j: int| i <= j < end ==> b@[j] != 47,
            last_index_of(t, slash()) == last_index_of(t.subrange(0, i as int), slash()),
        decreases i,
    {
        if b[i - 1] == 47 {
            break;
        }
        assert(t.subrange(0, i as int).drop_last() =~= t.subrange(0, i - 1));
        i -= 1;
    }
    proof {
        if i > 0 {
            assert(t.subrange(0, i as int).last() == b@[i - 1]);
        } else {
            assert(t.subrange(0, 0) =~= Seq::<u8>::empty());
        }
        assert(last_index_of(t, slash()) + 1 == i);
    }
    let start = i;
    let len = end - start;
    assert(t.subrange(start as int, end as int) =~= b@.subrange(start as int, end as int));
    if len == 0 {
        return None;
    }
    if len == 1 && b[start] == 46 {
        assert(b@.subrange(start as int, end as int) =~= seq![dot()]);
        return None;
    }
    if len == 2 && b[start] == 46 && b[start + 1] == 46 {
        assert(b@.subrange(start as int, end as int) =~= seq![dot(), dot()]);
        return None;
    }
    proof {
        let name = b@.subrange(start as int, end as int);
        if name == seq![dot()] {
            assert(name[0] == dot());
        }
        if name == seq![dot(), dot()] {
            assert(name[0] == dot() && name[1] == dot());
        }
    }
    Some((start, end))
}

/// `Path::extension` as a byte range of `b`.
pub fn extension_range(b: &[u8]) -> (r: Option<(usize, usize)>)
    ensures
        match r {
            None => spec_extension_range(b@) is None,
            Some((s, e)) => spec_extension_range(b@) == Some((s as int, e as int)) && 1 <= s <= e
                <= b@.len() && b@[s - 1] == 46,
        },
{
    match file_name_range(b) {
        None => None,
        Some((start, end)) => {
            let ghost name = b@.subrange(start as int, end as int);
            assert(name.subrange(0, end - start) =~= name);
            let mut i = end;
            while i > start
                invariant
                    start <= i <= end <= b@.len(),
                    name == b@.subrange(start as int, end as int),
                    last_index_of(name, dot()) == last_index_of(
                        name.subrange(0, i - start),
                        dot(),
                    ),
                ensures
                    start <= i <= end <= b@.len(),
                    i == start || b@[i - 1] == 46,
                    last_index_of(name, dot()) == last_index_of(
                        name.subrange(0, i - start),
                        dot(),
                    ),
                decreases i,
            {
                if b[i - 1] == 46 {
                    break;
                }
                assert(name.subrange(0, i - start).drop_last() =~= name.subrange(0, i - 1 - start));
                i -= 1;
            }
            proof {
                if i > start {
                    assert(name.subrange(0, i - start).last() == b@[i - 1]);
                } else {
                    assert(name.subrange(0, 0) =~= Seq::<u8>::empty());
                }
                assert(last_index_of(name, dot()) == i - start - 1);
            }
            if i <= start + 1 {
                None
            } else {
                Some((i, end))
            }
        },
    }
}

/// No dot and no separator among the bytes.
pub open spec fn plain_piece(b: Seq<u8>) -> bool {
    forall|i: int| 0 <= i < b.len() ==> b[i] != 46u8 && b[i] != 47u8
}

/// Where `c` stands at `i` and nowhere after it, `i` is its last index.
proof fn lemma_last_index_at(s: Seq<u8>, c: u8, i: int)
    requires
        -1 <= i < s.len(),
        i >= 0 ==> s[i] == c,
        forall|j: int| i < j < s.len() ==> s[j] != c,
    ensures
        last_index_of(s, c) == i,
{
    lemma_last_index_of(s, c);
    let l = last_index_of(s, c);
    if l > i {
        assert(s[l] == c);
    }
    if l < i {
        assert(s[i] != c);
    }
}

/// No separator among the bytes.
pub open spec fn no_separator(b: Seq<u8>) -> bool {
    forall|i: int| 0 <= i < b.len() ==> b[i] != 47u8
}

/// The extension of `prefix + stem + "." + ext`, where `prefix` is empty
/// or ends in a separator, `stem` is not empty and holds no separator, and
/// `ext` is not empty and holds neither a dot nor a separator, is `ext`: the
/// path has extension `e` exactly when `ext` equals `e` ignoring ASCII case.
pub proof fn lemma_extension_of(prefix: Seq<u8>, stem: Seq<u8>, ext: Seq<u8>)
    requires
        prefix.len() == 0 || prefix.last() == 47u8,
        stem.len() > 0,
        ext.len() > 0,
        no_separator(stem),
        plain_piece(ext),
    ensures
        forall|e: Seq<u8>| #[trigger] spec_has_extension(prefix + stem + seq![46u8] + ext, e) == eq_ignore_case(ext, e),
{
    let b = prefix + stem + seq![46u8] + ext;
    let n = b.len();
    let p = prefix.len() as int;
    let d = p + stem.len();
    assert(b[n - 1] == ext[ext.len() - 1]);
    assert(trim_tail(b) == b);
    assert forall|j: int| p - 1 < j < n implies b[j] != slash() by {
        if j < d {
            assert(b[j] == stem[j - p]);
        } else if j > d {
            assert(b[j] == ext[j - d - 1]);
        }
    }
    if p > 0 {
        assert(b[p - 1] == prefix.last());
    }
    lemma_last_index_at(b, slash(), p - 1);
    let name = b.subrange(p, n as int);
    assert(name =~= stem + seq![46u8] + ext);
    assert(name.len() >= 3);
    if name == seq![dot()] || name == seq![dot(), dot()] {
        assert(name.len() <= 2);
    }
    assert(spec_file_name_range(b) == Some((p, n as int)));
    let k = stem.len() as int;
    assert forall|j: int| k < j < name.len() implies name[j] != dot() by {
        assert(name[j] == ext[j - k - 1]);
    }
    assert(name[k] == dot());
    lemma_last_index_at(name, dot(), k);
    assert(spec_extension_range(b) == Some((d + 1, n as int)));
    assert(b.subrange(d + 1, n as int) =~= ext);
}

/// A file name without a dot, after an empty prefix or one that ends in a
/// separator, has no extension.
pub proof fn lemma_no_extension(prefix: Seq<u8>, stem: Seq<u8>)
    requires
        prefix.len() == 0 || prefix.last() == 47u8,
        stem.len() > 0,
        plain_piece(stem),
    ensures
        forall|e: Seq<u8>| !#[trigger] spec_has_extension(prefix + stem, e),
{
    let b = prefix + stem;
    let n = b.len();
    let p = prefix.len() as int;
    assert(b[n - 1] == stem[stem.len() - 1]);
    assert(trim_tail(b) == b);
    assert forall|j: int| p - 1 < j < n implies b[j] != slash() by {
        assert(b[j] == stem[j - p]);
    }
    if p > 0 {
        assert(b[p - 1] == prefix.last());
    }
    lemma_last_index_at(b, slash(), p - 1);
    let name = b.subrange(p, n as int);
    assert(name =~= stem);
    if name == seq![dot()] {
        assert(name[0] == dot());
    }
    if name == seq![dot(), dot()] {
        assert(name[0] == dot());
    }
    assert(spec_file_name_range(b) == Some((p, n as int)));
    lemma_last_index_at(name, dot(), -1);
    assert(spec_extension_range(b) is None);
}

/// Case-insensitive test of a path's extension against `expected`.
pub open spec fn spec_has_extension(path: Seq<u8>, expected: Seq<u8>) -> bool {
    match spec_extension_range(path) {
        None => false,
        Some((s, e)) => eq_ignore_case(path.subrange(s, e), expected),
    }
}

/// True when the extension of `path` equals `expected` ignoring ASCII case.
pub fn has_ascii_extension(path: &[u8], expected: &[u8]) -> (r: bool)
    ensures
        r == spec_has_extension(path@, expected@),
{
    match extension_range(path) {
        None => false,
        Some((s, e)) => {
            if e - s != expected.len() {
                return false;
            }
            let r = bytes_eq_ignore_case_at(path, s, expected);
            r
        },
    }
}

} // verus!
