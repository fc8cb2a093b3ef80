//! On-disk directory shared by desktop PKGV and mobile PKGM containers.
//!
//! Layout (little-endian):
//! `u32 magic_len | magic[magic_len] | u32 entry_count | entries... | payload`
//! where each entry is `u32 path_len | path | u32 offset | u32 size` and the
//! offsets count from the payload start, right after the directory.

use vstd::prelude::*;
use vstd::multiset::Multiset;
use indexmap::IndexMap;
use crate::error::{Error, Result, Stage};
use crate::collections::{path_index_entries, path_index_with_capacity, path_index_contains,
    path_index_insert, key_position, lemma_key_position, entries_insert};
use crate::mpkg::path::{archive_path_ok, archive_path_bytes_ok};
use crate::text::string_from_utf8;

verus! {

broadcast use vstd::seq_lib::group_to_multiset_ensures;

pub const MAGIC_LENGTH: u32 = 8;
pub const MAX_ENTRY_COUNT: u32 = 1_000_000;
pub const MAX_PATH_LENGTH: u32 = 16_384;

/// One directory entry: archive path, payload-relative offset and size.
#[derive(Debug, Clone, PartialEq, Eq)]
pub struct MpkgEntry {
    pub path: String,
    pub offset: u64,
    pub size: u64,
}

/// Entry as plain values: path text, offset, size.
pub open spec fn entry_view(e: MpkgEntry) -> (Seq<char>, int, int) {
    (e.path@, e.offset as int, e.size as int)
}

pub open spec fn entries_view(es: Seq<MpkgEntry>) -> Seq<(Seq<char>, int, int)> {
    es.map_values(|e: MpkgEntry| entry_view(e))
}

/// Which package flavour a format or I/O failure belongs to.
#[derive(Debug, Clone, Copy, PartialEq, Eq)]
pub enum PackageErrorDomain {
    /// Mobile MPKG: format failures are `InvalidMpkg`, I/O at `Verify`.
    Mpkg,
    /// Desktop `scene.pkg`: format failures are `InvalidProject`, I/O at `Unpack`.
    DesktopPkg,
}

/// Error variant a domain gives to a format failure.
pub open spec fn domain_format_error(domain: PackageErrorDomain, e: Error) -> bool {
    match domain {
        PackageErrorDomain::Mpkg => e is InvalidMpkg,
        PackageErrorDomain::DesktopPkg => e is InvalidProject,
    }
}

pub fn invalid_mpkg_reason(reason: String) -> (e: Error)
    ensures
        e == (Error::InvalidMpkg { reason }),
{
    Error::InvalidMpkg { reason }
}

pub fn invalid_desktop_package(reason: String) -> (e: Error)
    ensures
        e == (Error::InvalidProject { reason }),
{
    Error::InvalidProject { reason }
}

impl PackageErrorDomain {
    pub fn mpkg() -> (d: PackageErrorDomain)
        ensures
            d == PackageErrorDomain::Mpkg,
    {
        PackageErrorDomain::Mpkg
    }

    pub fn desktop_pkg() -> (d: PackageErrorDomain)
        ensures
            d == PackageErrorDomain::DesktopPkg,
    {
        PackageErrorDomain::DesktopPkg
    }

    pub fn stage(&self) -> (s: Stage)
        ensures
            s == (match *self {
                PackageErrorDomain::Mpkg => Stage::Verify,
                PackageErrorDomain::DesktopPkg => Stage::Unpack,
            }),
    {
        match self {
            PackageErrorDomain::Mpkg => Stage::Verify,
            PackageErrorDomain::DesktopPkg => Stage::Unpack,
        }
    }

    /// Format failure in this domain.
    pub fn format(&self, reason: &str) -> (e: Error)
        ensures
            domain_format_error(*self, e),
            e matches Error::InvalidMpkg { reason: r } ==> r@ == reason@,
            e matches Error::InvalidProject { reason: r } ==> r@ == reason@,
    {
        match self {
            PackageErrorDomain::Mpkg => invalid_mpkg_reason(reason.to_owned()),
            PackageErrorDomain::DesktopPkg => invalid_desktop_package(reason.to_owned()),
        }
    }

    /// I/O failure in this domain at `path`.
    pub fn io(&self, path: String, source: String) -> (e: Error)
        ensures
            e == (Error::Io { stage: match *self {
                PackageErrorDomain::Mpkg => Stage::Verify,
                PackageErrorDomain::DesktopPkg => Stage::Unpack,
            }, path, source }),
    {
        Error::Io { stage: self.stage(), path, source }
    }
}

// ---------------------------------------------------------------------------
// Ranges

pub open spec fn entry_end(e: (Seq<char>, int, int)) -> int {
    e.1 + e.2
}

/// Every entry lies inside the payload.
pub open spec fn ranges_within(es: Seq<(Seq<char>, int, int)>, payload_len: int) -> bool {
    forall|i: int| 0 <= i < es.len() ==> entry_end(#[trigger] es[i]) <= payload_len
}

/// No two non-empty entries share a payload byte.
pub open spec fn ranges_disjoint(es: Seq<(Seq<char>, int, int)>) -> bool {
    forall|i: int, j: int|
        0 <= i < j < es.len() && (#[trigger] es[i]).2 > 0 && (#[trigger] es[j]).2 > 0 ==> entry_end(es[i])
            <= es[j].1 || entry_end(es[j]) <= es[i].1
}

pub open spec fn ranges_ok(es: Seq<(Seq<char>, int, int)>, payload_len: int) -> bool {
    ranges_within(es, payload_len) && ranges_disjoint(es)
}

/// `slice::sort_unstable_by_key` keyed by the range start: the result is a
/// permutation of the input in non-decreasing order of the first component.
#[verifier::external_body]
fn sort_ranges_by_offset(ranges: &mut Vec<(u64, u64, usize)>)
    ensures
        final(ranges)@.to_multiset() == old(ranges)@.to_multiset(),
        forall|i: int, j: int|
            0 <= i <= j < final(ranges)@.len() ==> (#[trigger] final(ranges)@[i]).0 <= (
            #[trigger] final(ranges)@[j]).0,
{
    ranges.sort_unstable_by_key(|range| range.0);
}

proof fn lemma_chain(s: Seq<(u64, u64, usize)>, p: int, q: int)
    requires
        0 <= p < q < s.len(),
        forall|k: int| 0 < k < s.len() ==> (#[trigger] s[k]).0 >= s[k - 1].1,
        forall|k: int| 0 <= k < s.len() ==> (#[trigger] s[k]).0 <= s[k].1,
    ensures
        s[p].1 <= s[q].0,
    decreases q - p,
{
    if q > p + 1 {
        lemma_chain(s, p, q - 1);
        assert(s[q].0 >= s[q - 1].1);
    }
}

proof fn lemma_seq_contains_index<A>(s: Seq<A>, x: A) -> (k: int)
    requires
        s.contains(x),
    ensures
        0 <= k < s.len(),
        s[k] == x,
{
    choose|k: int| 0 <= k < s.len() && s[k] == x
}

/// Check that every entry lies in a payload of `payload_len` bytes and that
/// non-empty entries do not overlap.
#[verifier::loop_isolation(false)]
pub fn validate_ranges(entries: &Vec<MpkgEntry>, payload_len: u64, domain: &PackageErrorDomain) -> (r: Result<()>)
    ensures
        r is Ok <==> ranges_ok(entries_view(entries@), payload_len as int),
        r matches Err(e) ==> domain_format_error(*domain, e),
{
    let ghost es = entries_view(entries@);
    let mut ranges: Vec<(u64, u64, usize)> = Vec::with_capacity(entries.len());
    let mut i: usize = 0;
    while i < entries.len()
        invariant
            i <= entries@.len(),
            es == entries_view(entries@),
            forall|k: int| 0 <= k < i ==> entry_end(#[trigger] es[k]) <= payload_len,
            forall|m: int| 0 <= m < ranges@.len() ==> {
                let t = #[trigger] ranges@[m];
                &&& t.2 < i
                &&& t.0 == es[t.2 as int].1
                &&& t.1 == entry_end(es[t.2 as int])
                &&& es[t.2 as int].2 > 0
            },
            forall|m: int, n: int| 0 <= m < n < ranges@.len() ==> (#[trigger] ranges@[m]).2 < (#[trigger] ranges@[n]).2,
            forall|k: int| 0 <= k < i && es[k].2 > 0 ==> #[trigger] ranges@.contains(
                (es[k].1 as u64, entry_end(es[k]) as u64, k as usize),
            ),
        decreases entries@.len() - i,
    {
        let entry = &entries[i];
        assert(es[i as int] == entry_view(*entry));
        let end = entry.offset as u128 + entry.size as u128;
        if end > payload_len as u128 {
            return Err(domain.format("entry range exceeds payload length"));
        }
        let end = end as u64;
        let ghost old_ranges = ranges@;
        if entry.size != 0 {
            ranges.push((entry.offset, end, i));
            proof {
                assert forall|k: int| 0 <= k <= i && es[k].2 > 0 implies #[trigger] ranges@.contains(
                    (es[k].1 as u64, entry_end(es[k]) as u64, k as usize),
                ) by {
                    if k < i {
                        let m = lemma_seq_contains_index(old_ranges, (es[k].1 as u64, entry_end(es[k]) as u64, k as usize));
                        assert(ranges@[m] == old_ranges[m]);
                    } else {
                        assert(ranges@[ranges@.len() - 1] == (es[k].1 as u64, entry_end(es[k]) as u64, k as usize));
                    }
                }
            }
        }
        i += 1;
    }
    let ghost unsorted = ranges@;
    proof {
        assert(unsorted.no_duplicates()) by {
            assert forall|m: int, n: int| 0 <= m < unsorted.len() && 0 <= n < unsorted.len() && m != n implies unsorted[m] != unsorted[n] by {
                if m < n {
                    assert(unsorted[m].2 < unsorted[n].2);
                } else {
                    assert(unsorted[n].2 < unsorted[m].2);
                }
            }
        }
        unsorted.lemma_multiset_has_no_duplicates();
    }
    sort_ranges_by_offset(&mut ranges);
    let ghost sorted = ranges@;
    proof {
        assert forall|x| sorted.to_multiset().contains(x) implies sorted.to_multiset().count(x) == 1 by {
            assert(unsorted.to_multiset().contains(x));
        }
        sorted.lemma_multiset_has_no_duplicates_conv();
        assert forall|m: int| 0 <= m < sorted.len() implies #[trigger] unsorted.contains(sorted[m]) by {
            assert(sorted.contains(sorted[m]));
            assert(sorted.to_multiset().count(sorted[m]) > 0);
        }
    }
    let mut previous_end: u64 = 0;
    let mut k: usize = 0;
    while k < ranges.len()
        invariant
            sorted == ranges@,
            k <= sorted.len(),
            k > 0 ==> previous_end == sorted[k - 1].1,
            k == 0 ==> previous_end == 0,
            forall|m: int| 0 < m < k ==> (#[trigger] sorted[m]).0 >= sorted[m - 1].1,
        decreases sorted.len() - k,
    {
        let (offset, end, _index) = ranges[k];
        if offset < previous_end {
            proof {
                let a = sorted[k - 1];
                let b = sorted[k as int];
                assert(unsorted.contains(a));
                assert(unsorted.contains(b));
                let ma = lemma_seq_contains_index(unsorted, a);
                let mb = lemma_seq_contains_index(unsorted, b);
                assert(a != b);
                let ia = a.2 as int;
                let ib = b.2 as int;
                assert(sorted[k - 1].0 <= sorted[k as int].0);
                assert(es[ia].2 > 0 && es[ib].2 > 0);
                if ia < ib {
                    assert(!(entry_end(es[ia]) <= es[ib].1 || entry_end(es[ib]) <= es[ia].1));
                } else {
                    assert(ia != ib);
                    assert(!(entry_end(es[ib]) <= es[ia].1 || entry_end(es[ia]) <= es[ib].1));
                }
                assert(!ranges_disjoint(es));
            }
            return Err(domain.format("entry ranges overlap"));
        }
        previous_end = end;
        k += 1;
    }
    proof {
        assert forall|m: int| 0 <= m < sorted.len() implies (#[trigger] sorted[m]).0 <= sorted[m].1 by {
            assert(unsorted.contains(sorted[m]));
        }
        assert forall|i: int, j: int|
            0 <= i < j < es.len() && (#[trigger] es[i]).2 > 0 && (#[trigger] es[j]).2 > 0 implies entry_end(es[i])
                <= es[j].1 || entry_end(es[j]) <= es[i].1 by {
            let ti = (es[i].1 as u64, entry_end(es[i]) as u64, i as usize);
            let tj = (es[j].1 as u64, entry_end(es[j]) as u64, j as usize);
            assert(unsorted.contains(ti));
            assert(unsorted.contains(tj));
            assert(unsorted.to_multiset().count(ti) > 0);
            assert(unsorted.to_multiset().count(tj) > 0);
            assert(sorted.contains(ti));
            assert(sorted.contains(tj));
            let p = lemma_seq_contains_index(sorted, ti);
            let q = lemma_seq_contains_index(sorted, tj);
            assert(p != q);
            if p < q {
                lemma_chain(sorted, p, q);
            } else {
                lemma_chain(sorted, q, p);
            }
        }
    }
    Ok(())
}

// ---------------------------------------------------------------------------
// Directory

/// Little-endian `u32` stored at `pos`.
pub open spec fn u32_le(b: Seq<u8>, pos: int) -> int {
    b[pos] + 256 * b[pos + 1] + 65536 * b[pos + 2] + 16777216 * b[pos + 3]
}

/// Outcome of reading directory entries.
pub enum EntryStep {
    /// The bytes ended inside an entry.
    Eof,
    /// An entry breaks the format.
    Bad,
    /// Entries read so far and the position after them.
    Parsed(Seq<(Seq<char>, int, int)>, int),
}

pub open spec fn path_taken(es: Seq<(Seq<char>, int, int)>, path: Seq<char>) -> bool {
    exists|j: int| 0 <= j < es.len() && (#[trigger] es[j]).0 == path
}

/// One entry at `pos`, after the entries `es`.
pub open spec fn spec_entry(b: Seq<u8>, es: Seq<(Seq<char>, int, int)>, pos: int) -> EntryStep {
    if pos + 4 > b.len() {
        EntryStep::Eof
    } else {
        let plen = u32_le(b, pos);
        if plen == 0 || plen > MAX_PATH_LENGTH {
            EntryStep::Bad
        } else if pos + 4 + plen > b.len() {
            EntryStep::Eof
        } else {
            let pb = b.subrange(pos + 4, pos + 4 + plen);
            if !vstd::utf8::valid_utf8(pb) || !archive_path_ok(pb) {
                EntryStep::Bad
            } else if path_taken(es, vstd::utf8::decode_utf8(pb)) {
                EntryStep::Bad
            } else if pos + 4 + plen + 8 > b.len() {
                EntryStep::Eof
            } else {
                EntryStep::Parsed(
                    es.push((vstd::utf8::decode_utf8(pb), u32_le(b, pos + 4 + plen), u32_le(b, pos + 8 + plen))),
                    pos + 12 + plen,
                )
            }
        }
    }
}

/// The first `n` entries, starting right after the 16-byte header.
pub open spec fn spec_entries(b: Seq<u8>, n: nat) -> EntryStep
    decreases n,
{
    if n == 0 {
        EntryStep::Parsed(Seq::empty(), 16)
    } else {
        match spec_entries(b, (n - 1) as nat) {
            EntryStep::Parsed(es, pos) => spec_entry(b, es, pos),
            other => other,
        }
    }
}

/// What the first bytes of a file of `file_len` bytes say about its directory.
pub enum DirectorySpec {
    /// The bytes end before the directory does, and the file goes on.
    NeedMore,
    /// The directory breaks the format.
    Invalid,
    /// Magic, payload start and entries.
    Valid(Seq<u8>, int, Seq<(Seq<char>, int, int)>),
}

pub open spec fn eof_outcome(b: Seq<u8>, file_len: int) -> DirectorySpec {
    if b.len() < file_len {
        DirectorySpec::NeedMore
    } else {
        DirectorySpec::Invalid
    }
}

pub open spec fn spec_read_directory(b: Seq<u8>, file_len: int) -> DirectorySpec {
    if b.len() < 4 {
        eof_outcome(b, file_len)
    } else if u32_le(b, 0) != MAGIC_LENGTH {
        DirectorySpec::Invalid
    } else if b.len() < 16 {
        eof_outcome(b, file_len)
    } else if u32_le(b, 12) > MAX_ENTRY_COUNT {
        DirectorySpec::Invalid
    } else {
        match spec_entries(b, u32_le(b, 12) as nat) {
            EntryStep::Eof => eof_outcome(b, file_len),
            EntryStep::Bad => DirectorySpec::Invalid,
            EntryStep::Parsed(es, pos) => {
                if pos > file_len || !ranges_ok(es, file_len - pos) {
                    DirectorySpec::Invalid
                } else {
                    DirectorySpec::Valid(b.subrange(4, 12), pos, es)
                }
            },
        }
    }
}

/// Directory of an opened package.
pub struct PackageDirectory {
    pub magic: [u8; 8],
    pub payload_start: u64,
    pub entries: Vec<MpkgEntry>,
    /// Archive path to entry index.
    pub by_path: IndexMap<String, usize>,
}

/// Index entries `(path, position)` for a sequence of entries.
pub open spec fn index_of(es: Seq<(Seq<char>, int, int)>) -> Seq<(Seq<char>, usize)> {
    Seq::new(es.len(), |k: int| (es[k].0, k as usize))
}

pub open spec fn directory_matches(dir: PackageDirectory, magic: Seq<u8>, payload_start: int, es: Seq<(Seq<char>, int, int)>) -> bool {
    &&& dir.magic@ == magic
    &&& dir.payload_start == payload_start
    &&& entries_view(dir.entries@) == es
    &&& path_index_entries(dir.by_path) == index_of(es)
}

/// Result of reading a directory from the first bytes of a file.
pub enum DirectoryRead {
    Complete(PackageDirectory),
    /// More bytes of the file are needed before the directory ends.
    NeedMoreData,
}

/// Little-endian `u32` at `pos`.
pub fn read_u32(data: &[u8], pos: usize) -> (r: u32)
    requires
        pos + 4 <= data@.len(),
    ensures
        r == u32_le(data@, pos as int),
{
    data[pos] as u32 + 256 * (data[pos + 1] as u32) + 65536 * (data[pos + 2] as u32) + 16777216 * (
    data[pos + 3] as u32)
}

/// Outcome when the bytes end before `len` more bytes at `pos`: either the
/// file goes on (more must be read) or it is truncated (a format error).
pub fn read_format_exact(data: &[u8], file_len: u64, domain: &PackageErrorDomain) -> (r: Result<DirectoryRead>)
    ensures
        (data@.len() < file_len) ==> (r matches Ok(DirectoryRead::NeedMoreData)),
        !(data@.len() < file_len) ==> (r matches Err(e) && domain_format_error(*domain, e)),
{
    if (data.len() as u64) < file_len {
        Ok(DirectoryRead::NeedMoreData)
    } else {
        Err(domain.format("unexpected EOF while reading package directory"))
    }
}

/// Copy of `data[start..end]`.
pub fn copy_range(data: &[u8], start: usize, end: usize) -> (r: Vec<u8>)
    requires
        start <= end <= data@.len(),
    ensures
        r@ == data@.subrange(start as int, end as int),
{
    let mut out: Vec<u8> = Vec::with_capacity(end - start);
    let mut i = start;
    while i < end
        invariant
            start <= i <= end <= data@.len(),
            out@ == data@.subrange(start as int, i as int),
        decreases end - i,
    {
        out.push(data[i]);
        i += 1;
        assert(out@ =~= data@.subrange(start as int, i as int));
    }
    out
}

proof fn lemma_index_of_push(es: Seq<(Seq<char>, int, int)>, e: (Seq<char>, int, int))
    ensures
        index_of(es.push(e)) == index_of(es).push((e.0, es.len() as usize)),
{
    assert(index_of(es.push(e)) =~= index_of(es).push((e.0, es.len() as usize)));
}

proof fn lemma_index_of_position(es: Seq<(Seq<char>, int, int)>, key: Seq<char>)
    ensures
        key_position(index_of(es), key) >= 0 <==> path_taken(es, key),
{
    let idx = index_of(es);
    lemma_key_position(idx, key);
    if key_position(idx, key) >= 0 {
        assert(es[key_position(idx, key)].0 == key);
    } else {
        if path_taken(es, key) {
            let j = choose|j: int| 0 <= j < es.len() && (#[trigger] es[j]).0 == key;
            assert(idx[j].0 == key);
        }
    }
}

proof fn lemma_spec_entries_len(b: Seq<u8>, n: nat)
    ensures
        spec_entries(b, n) matches EntryStep::Parsed(es, pos) ==> es.len() == n && 16 <= pos && (n > 0 ==> pos <= b.len()),
    decreases n,
{
    if n > 0 {
        lemma_spec_entries_len(b, (n - 1) as nat);
        match spec_entries(b, (n - 1) as nat) {
            EntryStep::Parsed(es, pos) => {
                if pos + 4 <= b.len() {
                    let plen = u32_le(b, pos);
                    assert(plen >= 0);
                }
            },
            _ => {},
        }
    }
}

/// Once reading stops at an entry, reading more entries stops the same way.
proof fn lemma_spec_entries_stuck(b: Seq<u8>, m: nat, n: nat)
    requires
        m <= n,
        !(spec_entries(b, m) is Parsed),
    ensures
        spec_entries(b, n) == spec_entries(b, m),
    decreases n - m,
{
    if n > m {
        lemma_spec_entries_stuck(b, m, (n - 1) as nat);
    }
}

/// Read the magic, entry table and payload bounds of a package directory
/// from the first bytes of a file of `file_len` bytes.
#[verifier::loop_isolation(false)]
pub fn read_package_directory(data: &[u8], file_len: u64, domain: &PackageErrorDomain) -> (r: Result<DirectoryRead>)
    ensures
        r matches Ok(DirectoryRead::NeedMoreData) ==> spec_read_directory(data@, file_len as int) is NeedMore,
        r matches Ok(DirectoryRead::Complete(dir)) ==> (spec_read_directory(data@, file_len as int) matches DirectorySpec::Valid(m, p, es) && directory_matches(dir, m, p, es)),
        r matches Err(e) ==> spec_read_directory(data@, file_len as int) is Invalid && domain_format_error(*domain, e),
        spec_read_directory(data@, file_len as int) is Valid ==> r matches Ok(DirectoryRead::Complete(_)),
        spec_read_directory(data@, file_len as int) is NeedMore ==> r matches Ok(DirectoryRead::NeedMoreData),
        spec_read_directory(data@, file_len as int) is Invalid ==> r is Err,
{
    let n = data.len();
    if n < 4 {
        return read_format_exact(data, file_len, domain);
    }
    let magic_length = read_u32(data, 0);
    if magic_length != MAGIC_LENGTH {
        return Err(domain.format("magic length must be 8"));
    }
    if n < 16 {
        return read_format_exact(data, file_len, domain);
    }
    let magic: [u8; 8] = [data[4], data[5], data[6], data[7], data[8], data[9], data[10], data[11]];
    assert(magic@ =~= data@.subrange(4, 12));
    let entry_count = read_u32(data, 12);
    if entry_count > MAX_ENTRY_COUNT {
        return Err(domain.format("entry count exceeds the limit"));
    }
    let mut entries: Vec<MpkgEntry> = Vec::with_capacity(entry_count as usize);
    let mut by_path = path_index_with_capacity(entry_count as usize);
    let mut pos: usize = 16;
    let mut index: u32 = 0;
    assert(entries_view(entries@) =~= Seq::<(Seq<char>, int, int)>::empty());
    assert(index_of(Seq::<(Seq<char>, int, int)>::empty()) =~= Seq::<(Seq<char>, usize)>::empty());
    while index < entry_count
        invariant
            n == data@.len(),
            n >= 16,
            index <= entry_count <= MAX_ENTRY_COUNT,
            spec_entries(data@, index as nat) == EntryStep::Parsed(entries_view(entries@), pos as int),
            entries@.len() == index,
            path_index_entries(by_path) == index_of(entries_view(entries@)),
            16 <= pos <= n,
        decreases entry_count - index,
    {
        let ghost es = entries_view(entries@);
        if n - pos < 4 {
            proof {
                lemma_spec_entries_stuck(data@, (index + 1) as nat, entry_count as nat);
            }
            return read_format_exact(data, file_len, domain);
        }
        let path_length = read_u32(data, pos);
        if path_length == 0 || path_length > MAX_PATH_LENGTH {
            proof {
                lemma_spec_entries_stuck(data@, (index + 1) as nat, entry_count as nat);
            }
            return Err(domain.format("entry path length is outside 1..=16384"));
        }
        let plen = path_length as usize;
        if n - pos - 4 < plen {
            proof {
                lemma_spec_entries_stuck(data@, (index + 1) as nat, entry_count as nat);
            }
            return read_format_exact(data, file_len, domain);
        }
        let path_bytes = copy_range(data, pos + 4, pos + 4 + plen);
        let ghost pb = path_bytes@;
        let path_text = match string_from_utf8(path_bytes) {
            Some(text) => text,
            None => {
                proof {
                lemma_spec_entries_stuck(data@, (index + 1) as nat, entry_count as nat);
            }
            return Err(domain.format("entry path is not UTF-8"));
            },
        };
        proof {
            vstd::utf8::decode_utf8_encode_utf8(pb);
        }
        if !archive_path_bytes_ok(path_text.as_str().as_bytes()) {
            proof {
                lemma_spec_entries_stuck(data@, (index + 1) as nat, entry_count as nat);
            }
            return Err(domain.format("unsafe archive path"));
        }
        proof {
            lemma_index_of_position(es, path_text@);
        }
        if path_index_contains(&by_path, path_text.as_str()) {
            proof {
                lemma_spec_entries_stuck(data@, (index + 1) as nat, entry_count as nat);
            }
            return Err(domain.format("duplicate archive path"));
        }
        if n - pos - 4 - plen < 8 {
            proof {
                lemma_spec_entries_stuck(data@, (index + 1) as nat, entry_count as nat);
            }
            return read_format_exact(data, file_len, domain);
        }
        let offset = read_u32(data, pos + 4 + plen) as u64;
        let size = read_u32(data, pos + 8 + plen) as u64;
        let ghost old_entries = entries@;
        let key = path_text.clone();
        path_index_insert(&mut by_path, key, entries.len());
        entries.push(MpkgEntry { path: path_text, offset, size });
        proof {
            let e = (pb.len(), 0int, 0int);
            assert(entries_view(entries@) =~= es.push(entry_view(entries@[entries@.len() - 1])));
            lemma_index_of_push(es, entry_view(entries@[entries@.len() - 1]));
            lemma_key_position(index_of(es), path_text@);
        }
        pos = pos + 12 + plen;
        index += 1;
    }
    let ghost es = entries_view(entries@);
    let payload_start = pos as u64;
    if payload_start > file_len {
        return Err(domain.format("directory exceeds file length"));
    }
    let payload_len = file_len - payload_start;
    match validate_ranges(&entries, payload_len, domain) {
        Ok(()) => {},
        Err(e) => {
            return Err(e);
        },
    }
    Ok(DirectoryRead::Complete(PackageDirectory { magic, payload_start, entries, by_path }))
}

} // verus!

