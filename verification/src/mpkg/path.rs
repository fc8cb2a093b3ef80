//! Archive paths: relative, `/`-separated, without empty, `.` or `..`
//! components, NUL bytes, backslashes or drive prefixes.

use vstd::prelude::*;
use crate::error::{Error, Result};
use crate::text::{is_alpha, ascii_alpha, concat};

verus! {

pub open spec fn starts_piece(b: Seq<u8>, i: int) -> bool {
    i == 0 || b[i - 1] == 47
}

pub open spec fn ends_piece(b: Seq<u8>, j: int) -> bool {
    j == b.len() || b[j] == 47
}

/// A `.` component starts at `i`.
pub open spec fn dot_piece_at(b: Seq<u8>, i: int) -> bool {
    0 <= i < b.len() && b[i] == 46 && starts_piece(b, i) && ends_piece(b, i + 1)
}

/// A `..` component starts at `i`.
pub open spec fn dot_dot_piece_at(b: Seq<u8>, i: int) -> bool {
    0 <= i && i + 1 < b.len() && b[i] == 46 && b[i + 1] == 46 && starts_piece(b, i)
        && ends_piece(b, i + 2)
}

/// Two separators meet at `i` (an empty component between them).
pub open spec fn double_slash_at(b: Seq<u8>, i: int) -> bool {
    0 <= i && i + 1 < b.len() && b[i] == 47 && b[i + 1] == 47
}

/// The rules an archive path obeys, over its UTF-8 bytes.
pub open spec fn archive_path_ok(b: Seq<u8>) -> bool {
    &&& b.len() > 0
    &&& !b.contains(0u8)
    &&& !b.contains(92u8)
    &&& b[0] != 47
    &&& !(b.len() >= 2 && is_alpha(b[0]) && b[1] == 58)
    &&& b.last() != 47
    &&& forall|i: int| 0 <= i < b.len() ==> !#[trigger] double_slash_at(b, i)
    &&& forall|i: int| 0 <= i < b.len() ==> !#[trigger] dot_piece_at(b, i)
    &&& forall|i: int| 0 <= i < b.len() ==> !#[trigger] dot_dot_piece_at(b, i)
}

/// The same rules over the characters of a text.
pub open spec fn archive_text_ok(s: Seq<char>) -> bool {
    archive_path_ok(vstd::utf8::encode_utf8(s))
}

/// Check of the archive-path rules over bytes.
pub fn archive_path_bytes_ok(b: &[u8]) -> (r: bool)
    ensures
        r == archive_path_ok(b@),
{
    let n = b.len();
    if n == 0 {
        return false;
    }
    if b[0] == 47 || b[n - 1] == 47 {
        return false;
    }
    if n >= 2 && ascii_alpha(b[0]) && b[1] == 58 {
        return false;
    }
    let mut i: usize = 0;
    while i < n
        invariant
            n == b@.len(),
            n > 0,
            i <= n,
            b@[0] != 47,
            b@.last() != 47,
            forall|j: int| 0 <= j < i ==> b@[j] != 0 && b@[j] != 92,
            forall|j: int| 0 <= j < i ==> !#[trigger] double_slash_at(b@, j),
            forall|j: int| 0 <= j < i ==> !#[trigger] dot_piece_at(b@, j),
            forall|j: int| 0 <= j < i ==> !#[trigger] dot_dot_piece_at(b@, j),
        decreases n - i,
    {
        let c = b[i];
        if c == 0 || c == 92 {
            assert(b@.contains(c));
            return false;
        }
        if c == 47 && i + 1 < n && b[i + 1] == 47 {
            assert(double_slash_at(b@, i as int));
            return false;
        }
        let starts = i == 0 || b[i - 1] == 47;
        if c == 46 && starts {
            if i + 1 == n || b[i + 1] == 47 {
                assert(dot_piece_at(b@, i as int));
                return false;
            }
            if b[i + 1] == 46 && (i + 2 == n || b[i + 2] == 47) {
                assert(dot_dot_piece_at(b@, i as int));
                return false;
            }
        }
        i += 1;
    }
    assert(!b@.contains(0u8));
    assert(!b@.contains(92u8));
    true
}

/// Archive-path normalization shared by MPKG I/O and Scene inventory: an
/// accepted path comes back as an owned copy; a rejected one is returned as
/// the error value.
pub fn normalize_archive_path(path: &str) -> (r: core::result::Result<String, String>)
    ensures
        archive_text_ok(path@) ==> (r matches Ok(s) && s@ == path@),
        !archive_text_ok(path@) ==> (r matches Err(s) && s@ == path@),
{
    if archive_path_bytes_ok(path.as_bytes()) {
        Ok(path.to_owned())
    } else {
        Err(path.to_owned())
    }
}

/// Writer / MPKG path gate: a rejected path is an `InvalidMpkg` error.
pub fn validate_archive_path(path: &str) -> (r: Result<String>)
    ensures
        archive_text_ok(path@) ==> (r matches Ok(s) && s@ == path@),
        !archive_text_ok(path@) ==> (r matches Err(e) && e is InvalidMpkg),
{
    match normalize_archive_path(path) {
        Ok(s) => Ok(s),
        Err(bad) => Err(Error::InvalidMpkg { reason: concat("unsafe archive path: ", bad.as_str()) }),
    }
}

/// Path of an archive entry below `root`: `root`, a `/` unless the root is
/// empty or already ends with one, then the archive path.
pub open spec fn spec_join(root: Seq<char>, archive_path: Seq<char>) -> Seq<char> {
    let rb = vstd::utf8::encode_utf8(root);
    if rb.len() == 0 {
        archive_path
    } else if rb.last() == 47 {
        root + archive_path
    } else {
        root + seq!['/'] + archive_path
    }
}

/// Join a normalized archive path below a directory.
pub fn join_archive_path(root: &str, archive_path: &str) -> (r: String)
    ensures
        r@ == spec_join(root@, archive_path@),
{
    let bytes = root.as_bytes();
    if bytes.len() == 0 {
        return archive_path.to_owned();
    }
    let mut out = root.to_owned();
    if bytes[bytes.len() - 1] != 47 {
        let sep = "/";
        proof {
            reveal_strlit("/");
        }
        out.append(sep);
    }
    out.append(archive_path);
    out
}

} // verus!
