//! Writer side of the container: pending entries, the checked layout and the
//! bytes of the header and entry table.

use vstd::prelude::*;
use indexmap::IndexMap;
use crate::error::{Error, Result, Stage};
use crate::collections::{path_index_entries, path_index_with_capacity, path_index_contains,
    path_index_insert, key_position, lemma_key_position};
use crate::mpkg::path::{archive_text_ok, validate_archive_path};
use crate::mpkg::version::{ContainerVersion, magic_bytes, spec_is_writable};
use crate::mpkg::format::{MpkgEntry, MAX_PATH_LENGTH};
use crate::json::str_eq;
use crate::text::concat;

verus! {

pub const HEADER_SIZE: u64 = 16;
pub const FOUR_GIB: u64 = 4 * 1024 * 1024 * 1024;

/// Payload of a pending entry: bytes in memory, or a file of known size.
#[derive(Debug)]
pub enum EntrySource {
    Bytes(Vec<u8>),
    File { path: String, size: u64 },
}

pub open spec fn spec_source_size(s: EntrySource) -> int {
    match s {
        EntrySource::Bytes(b) => b@.len() as int,
        EntrySource::File { size, .. } => size as int,
    }
}

impl EntrySource {
    pub fn size(&self) -> (r: u64)
        ensures
            r == spec_source_size(*self),
    {
        match self {
            EntrySource::Bytes(bytes) => bytes.len() as u64,
            EntrySource::File { size, .. } => *size,
        }
    }
}

/// What a pending entry's payload is, as plain values: the bytes held, or
/// the file and the size it was added with.
pub enum SourceModel {
    Bytes(Seq<u8>),
    File(Seq<char>, u64),
}

pub open spec fn source_model(s: EntrySource) -> SourceModel {
    match s {
        EntrySource::Bytes(b) => SourceModel::Bytes(b@),
        EntrySource::File { path, size } => SourceModel::File(path@, size),
    }
}

/// The sources of pending entries, in order.
pub open spec fn sources_view(es: Seq<PendingEntry>) -> Seq<SourceModel> {
    es.map_values(|e: PendingEntry| source_model(e.source))
}

#[derive(Debug)]
pub struct PendingEntry {
    pub archive_path: String,
    pub source: EntrySource,
}

/// Whether an existing output may be replaced.
#[derive(Debug, Clone, Copy, PartialEq, Eq)]
pub enum OverwritePolicy {
    Deny,
    Replace,
}

/// Summary of a written package.
#[derive(Debug, Clone, PartialEq, Eq)]
pub struct WriteReport {
    pub output: String,
    pub version: ContainerVersion,
    pub entries: usize,
    pub bytes: u64,
}

/// Pending entries as plain values: archive path and payload size.
pub open spec fn pending_view(es: Seq<PendingEntry>) -> Seq<(Seq<char>, int)> {
    es.map_values(|e: PendingEntry| (e.archive_path@, spec_source_size(e.source)))
}

pub open spec fn path_len(p: Seq<char>) -> int {
    vstd::utf8::encode_utf8(p).len() as int
}

/// A pending path the writer accepts.
pub open spec fn writable_path(p: Seq<char>) -> bool {
    archive_text_ok(p) && path_len(p) <= MAX_PATH_LENGTH
}

/// Pending entries with writable, pairwise distinct paths.
pub open spec fn pending_ok(es: Seq<(Seq<char>, int)>) -> bool {
    &&& forall|k: int| 0 <= k < es.len() ==> writable_path(#[trigger] es[k].0)
    &&& forall|i: int, j: int| 0 <= i < j < es.len() ==> (#[trigger] es[i]).0 != (#[trigger] es[j]).0
    &&& forall|k: int| 0 <= k < es.len() ==> (#[trigger] es[k]).1 >= 0
}

/// Builder of a PKGM container: entries in the order they were added.
#[derive(Debug)]
pub struct MpkgBuilder {
    version: ContainerVersion,
    entries: Vec<PendingEntry>,
    paths: IndexMap<String, usize>,
}

impl MpkgBuilder {
    pub closed spec fn spec_version(&self) -> ContainerVersion {
        self.version
    }

    pub fn version(&self) -> (v: ContainerVersion)
        ensures
            v == self.spec_version(),
    {
        self.version
    }

    pub closed spec fn view_entries(&self) -> Seq<(Seq<char>, int)> {
        pending_view(self.entries@)
    }

    /// What each pending entry carries, in the order they were added.
    pub closed spec fn view_sources(&self) -> Seq<SourceModel> {
        sources_view(self.entries@)
    }

    /// Entries with writable, distinct paths, and a path index that maps
    /// each path to its position.
    #[verifier::type_invariant]
    closed spec fn wf(&self) -> bool {
        &&& pending_ok(self.view_entries())
        &&& path_index_entries(self.paths) == Seq::new(
            self.entries@.len(),
            |k: int| (self.entries@[k].archive_path@, k as usize),
        )
    }

    pub fn new(version: ContainerVersion) -> (b: MpkgBuilder)
        ensures
            b.spec_version() == version,
            b.view_entries() == Seq::<(Seq<char>, int)>::empty(),
            b.view_sources() == Seq::<SourceModel>::empty(),
    {
        let entries: Vec<PendingEntry> = Vec::new();
        let paths = path_index_with_capacity(0);
        assert(pending_view(entries@) =~= Seq::<(Seq<char>, int)>::empty());
        assert(sources_view(entries@) =~= Seq::<SourceModel>::empty());
        assert(Seq::new(0, |k: int| (entries@[k].archive_path@, k as usize)) =~= Seq::<(Seq<char>, usize)>::empty());
        MpkgBuilder { version, entries, paths }
    }

    /// Each pending entry's size is the size of what it carries.
    pub proof fn lemma_sizes_of_sources(&self)
        ensures
            self.view_sources().len() == self.view_entries().len(),
            forall|k: int| 0 <= k < self.view_entries().len() ==> (#[trigger] self.view_entries()[k]).1 == match self.view_sources()[k] {
                SourceModel::Bytes(b) => b.len() as int,
                SourceModel::File(_, n) => n as int,
            },
    {
    }

    pub fn entries(&self) -> (r: &Vec<PendingEntry>)
        ensures
            pending_view(r@) == self.view_entries(),
            sources_view(r@) == self.view_sources(),
    {
        &self.entries
    }

    proof fn lemma_taken(&self, key: Seq<char>)
        requires
            self.wf(),
        ensures
            key_position(path_index_entries(self.paths), key) >= 0 <==> exists|j: int|
                0 <= j < self.view_entries().len() && (#[trigger] self.view_entries()[j]).0 == key,
    {
        let idx = path_index_entries(self.paths);
        lemma_key_position(idx, key);
        if key_position(idx, key) >= 0 {
            let p = key_position(idx, key);
            assert(self.view_entries()[p].0 == key);
        } else {
            if exists|j: int| 0 <= j < self.view_entries().len() && (#[trigger] self.view_entries()[j]).0 == key {
                let j = choose|j: int| 0 <= j < self.view_entries().len() && (#[trigger] self.view_entries()[j]).0 == key;
                assert(idx[j].0 == key);
            }
        }
    }

    /// Accept `path` as a new archive path: well formed, at most 16384 bytes,
    /// and not yet used.
    pub fn validate_new_path(&self, path: &str) -> (r: Result<String>)
        ensures
            r matches Ok(s) ==> s@ == path@,
            r is Ok <==> (writable_path(path@) && !exists|j: int|
                0 <= j < self.view_entries().len() && (#[trigger] self.view_entries()[j]).0 == path@),
            r matches Err(e) ==> e is InvalidMpkg,
    {
        let archive_path = match validate_archive_path(path) {
            Ok(p) => p,
            Err(e) => {
                return Err(e);
            },
        };
        assert(archive_path@ == path@);
        proof {
            use_type_invariant(self);
        }
        let text = archive_path.as_str();
        let plen = text.as_bytes().len();
        assert(text@ == path@);
        assert(plen == vstd::utf8::encode_utf8(text@).len());
        assert(plen == path_len(path@));
        if plen > 16384 {
            assert(!writable_path(path@));
            return Err(Error::InvalidMpkg { reason: "archive path exceeds 16384 bytes".to_owned() });
        }
        proof {
            self.lemma_taken(archive_path@);
        }
        if path_index_contains(&self.paths, archive_path.as_str()) {
            assert(exists|j: int| 0 <= j < self.view_entries().len() && (#[trigger] self.view_entries()[j]).0 == path@);
            return Err(Error::InvalidMpkg { reason: "duplicate archive path".to_owned() });
        }
        Ok(archive_path)
    }

    fn push_entry(&mut self, archive_path: String, source: EntrySource)
        requires
            writable_path(archive_path@),
            !exists|j: int|
                0 <= j < old(self).view_entries().len() && (#[trigger] old(self).view_entries()[j]).0
                    == archive_path@,
        ensures
            final(self).spec_version() == old(self).spec_version(),
            final(self).view_entries() == old(self).view_entries().push(
                (archive_path@, spec_source_size(source)),
            ),
            final(self).view_sources() == old(self).view_sources().push(source_model(source)),
    {
        proof {
            use_type_invariant(&*self);
            old(self).lemma_taken(archive_path@);
        }
        let index = self.entries.len();
        let mut taken = MpkgBuilder::new(self.version);
        std::mem::swap(self, &mut taken);
        let MpkgBuilder { version, mut entries, mut paths } = taken;
        let ghost old_entries = entries@;
        path_index_insert(&mut paths, archive_path.clone(), index);
        entries.push(PendingEntry { archive_path, source });
        proof {
            let before = pending_view(old_entries);
            let es = pending_view(entries@);
            assert(sources_view(entries@) =~= sources_view(old_entries).push(source_model(entries@[index as int].source)));
            assert(before == old(self).view_entries());
            assert(es =~= before.push(
                (entries@[index as int].archive_path@, spec_source_size(entries@[index as int].source)),
            ));
            assert(path_index_entries(paths) =~= Seq::new(
                entries@.len(),
                |k: int| (entries@[k].archive_path@, k as usize),
            ));
            assert forall|i: int, j: int| 0 <= i < j < es.len() implies (#[trigger] es[i]).0 != (#[trigger] es[j]).0 by {
                if j < es.len() - 1 {
                    assert(es[i] == before[i]);
                    assert(es[j] == before[j]);
                } else {
                    assert(es[i] == before[i]);
                }
            }
            assert forall|k: int| 0 <= k < es.len() implies writable_path(#[trigger] es[k].0) && es[k].1 >= 0 by {
                if k < es.len() - 1 {
                    assert(es[k] == before[k]);
                }
            }
        }
        *self = MpkgBuilder { version, entries, paths };
    }

    /// Add an entry whose payload is held in memory.
    pub fn add_bytes(&mut self, path: &str, bytes: Vec<u8>) -> (r: Result<()>)
        ensures
            final(self).spec_version() == old(self).spec_version(),
            r is Ok <==> (writable_path(path@) && !exists|j: int|
                0 <= j < old(self).view_entries().len() && (#[trigger] old(self).view_entries()[j]).0
                    == path@),
            r is Ok ==> final(self).view_entries() == old(self).view_entries().push(
                (path@, bytes@.len() as int),
            ),
            r is Ok ==> final(self).view_sources() == old(self).view_sources().push(SourceModel::Bytes(bytes@)),
            r is Err ==> final(self).view_entries() == old(self).view_entries(),
            r is Err ==> final(self).view_sources() == old(self).view_sources(),
            r matches Err(e) ==> e is InvalidMpkg,
    {
        let archive_path = self.validate_new_path(path)?;
        let ghost n = bytes@.len();
        self.push_entry(archive_path, EntrySource::Bytes(bytes));
        Ok(())
    }

    /// Add an entry whose payload is the file at `source`, of `size` bytes
    /// (the caller has checked that `source` is a regular file).
    pub fn add_file_entry(&mut self, path: &str, source: String, size: u64) -> (r: Result<()>)
        ensures
            final(self).spec_version() == old(self).spec_version(),
            r is Ok <==> (writable_path(path@) && !exists|j: int|
                0 <= j < old(self).view_entries().len() && (#[trigger] old(self).view_entries()[j]).0
                    == path@),
            r is Ok ==> final(self).view_entries() == old(self).view_entries().push(
                (path@, size as int),
            ),
            r is Ok ==> final(self).view_sources() == old(self).view_sources().push(SourceModel::File(source@, size)),
            r is Err ==> final(self).view_entries() == old(self).view_entries(),
            r is Err ==> final(self).view_sources() == old(self).view_sources(),
            r matches Err(e) ==> e is InvalidMpkg,
    {
        let archive_path = self.validate_new_path(path)?;
        self.push_entry(archive_path, EntrySource::File { path: source, size });
        Ok(())
    }
}

/// The writer emits only PKGM0018 and PKGM0020 containers.
pub fn check_writable(version: ContainerVersion) -> (r: Result<()>)
    ensures
        r is Ok <==> spec_is_writable(version),
        r matches Err(e) ==> e is InvalidArguments,
{
    if version.is_writable() {
        Ok(())
    } else {
        let m = version.as_magic();
        Err(Error::InvalidArguments { reason: concat("writer only supports PKGM0018/PKGM0020, got ", m.as_str()) })
    }
}

// ---------------------------------------------------------------------------
// Layout

/// Bytes of the entry table for the given pending entries.
pub open spec fn table_len(es: Seq<(Seq<char>, int)>) -> int
    decreases es.len(),
{
    if es.len() == 0 {
        0
    } else {
        table_len(es.drop_last()) + 12 + path_len(es.last().0)
    }
}

/// Sum of the payload sizes.
pub open spec fn payload_total(es: Seq<(Seq<char>, int)>) -> int
    decreases es.len(),
{
    if es.len() == 0 {
        0
    } else {
        payload_total(es.drop_last()) + es.last().1
    }
}

/// Size of the whole container: header, table and payloads.
pub open spec fn spec_total_size(es: Seq<(Seq<char>, int)>) -> int {
    HEADER_SIZE + table_len(es) + payload_total(es)
}

/// Payload offset of entry `k`: the sizes of the entries before it.
pub open spec fn entry_offset(es: Seq<(Seq<char>, int)>, k: int) -> int {
    payload_total(es.take(k))
}

/// Offsets and total size of a container before it is written.
#[derive(Debug)]
pub struct Layout {
    pub entry_count: u32,
    /// `(offset, size)` of each entry, in order.
    pub offsets: Vec<(u64, u64)>,
    pub total_size: u64,
}

pub open spec fn layout_of(es: Seq<(Seq<char>, int)>, l: Layout) -> bool {
    &&& l.entry_count == es.len()
    &&& l.total_size == spec_total_size(es)
    &&& l.offsets@.len() == es.len()
    &&& forall|k: int| 0 <= k < es.len() ==> (#[trigger] l.offsets@[k]) == (entry_offset(es, k) as u64, es[k].1 as u64)
}

pub proof fn lemma_prefix_sums(es: Seq<(Seq<char>, int)>, i: int, j: int)
    requires
        0 <= i <= j <= es.len(),
        forall|k: int| 0 <= k < es.len() ==> (#[trigger] es[k]).1 >= 0,
    ensures
        payload_total(es.take(i)) <= payload_total(es.take(j)),
        table_len(es.take(i)) <= table_len(es.take(j)),
        payload_total(es.take(j)) >= 0,
        table_len(es.take(j)) >= 0,
    decreases j,
{
    if j > 0 {
        assert(es.take(j).drop_last() =~= es.take(j - 1));
        if i < j {
            lemma_prefix_sums(es, i, j - 1);
        } else {
            lemma_prefix_sums(es, j - 1, j - 1);
        }
    }
}

pub proof fn lemma_take_step(es: Seq<(Seq<char>, int)>, k: int)
    requires
        0 <= k < es.len(),
    ensures
        table_len(es.take(k + 1)) == table_len(es.take(k)) + 12 + path_len(es[k].0),
        payload_total(es.take(k + 1)) == payload_total(es.take(k)) + es[k].1,
{
    assert(es.take(k + 1).drop_last() =~= es.take(k));
}

impl MpkgBuilder {
    /// Offsets and size of the container; fails with `PackageTooLarge` when
    /// it would hold more than `u32::MAX` entries or reach 4 GiB.
    pub fn checked_layout(&self) -> (r: Result<Layout>)
        ensures
            pending_ok(self.view_entries()),
            r is Ok <==> (spec_is_writable(self.spec_version()) && self.view_entries().len() <= u32::MAX
                && spec_total_size(self.view_entries()) < FOUR_GIB),
            r matches Ok(l) ==> layout_of(self.view_entries(), l),
            r matches Err(e) ==> if spec_is_writable(self.spec_version()) {
                e is PackageTooLarge
            } else {
                e is InvalidArguments
            },
    {
        proof {
            use_type_invariant(self);
        }
        check_writable(self.version)?;
        let ghost es = self.view_entries();
        if self.entries.len() > 4294967295 {
            return Err(Error::PackageTooLarge { size: self.entries.len() as u64 });
        }
        let entry_count = self.entries.len() as u32;
        let mut table_size: u64 = 0;
        let mut payload_size: u64 = 0;
        let mut offsets: Vec<(u64, u64)> = Vec::with_capacity(self.entries.len());
        let mut i: usize = 0;
        assert(es.take(0) =~= Seq::<(Seq<char>, int)>::empty());
        while i < self.entries.len()
            invariant
                es == self.view_entries(),
                pending_ok(es),
                spec_is_writable(self.spec_version()),
                es.len() == self.entries@.len(),
                i <= es.len(),
                table_size == table_len(es.take(i as int)),
                payload_size == payload_total(es.take(i as int)),
                offsets@.len() == i,
                forall|k: int| 0 <= k < i ==> (#[trigger] offsets@[k]) == (entry_offset(es, k) as u64, es[k].1 as u64),
            decreases es.len() - i,
        {
            let entry = &self.entries[i];
            let path_size = entry.archive_path.as_str().as_bytes().len() as u64;
            let size = entry.source.size();
            proof {
                assert(es[i as int] == (entry.archive_path@, spec_source_size(entry.source)));
                lemma_take_step(es, i as int);
                lemma_prefix_sums(es, i as int + 1, es.len() as int);
                assert(es.take(es.len() as int) =~= es);
            }
            if table_size > u64::MAX - 12 - path_size {
                return Err(Error::PackageTooLarge { size: u64::MAX });
            }
            table_size = table_size + 4 + path_size + 8;
            offsets.push((payload_size, size));
            if payload_size > u64::MAX - size {
                return Err(Error::PackageTooLarge { size: u64::MAX });
            }
            payload_size = payload_size + size;
            i += 1;
        }
        assert(es.take(es.len() as int) =~= es);
        if table_size > u64::MAX - 16 || payload_size > u64::MAX - 16 - table_size {
            return Err(Error::PackageTooLarge { size: u64::MAX });
        }
        let total_size = 16 + table_size + payload_size;
        if total_size >= FOUR_GIB {
            return Err(Error::PackageTooLarge { size: total_size });
        }
        Ok(Layout { entry_count, offsets, total_size })
    }
}

// ---------------------------------------------------------------------------
// Encoding

/// Little-endian bytes of a `u32` value.
pub open spec fn u32_bytes(v: int) -> Seq<u8> {
    seq![(v % 256) as u8, ((v / 256) % 256) as u8, ((v / 65536) % 256) as u8, ((v / 16777216) % 256) as u8]
}

/// Bytes of one table entry.
pub open spec fn entry_bytes(path: Seq<char>, offset: int, size: int) -> Seq<u8> {
    u32_bytes(path_len(path)) + vstd::utf8::encode_utf8(path) + u32_bytes(offset) + u32_bytes(size)
}

/// Bytes of the entry table.
pub open spec fn table_bytes(es: Seq<(Seq<char>, int)>) -> Seq<u8>
    decreases es.len(),
{
    if es.len() == 0 {
        Seq::empty()
    } else {
        table_bytes(es.drop_last()) + entry_bytes(es.last().0, payload_total(es.drop_last()), es.last().1)
    }
}

/// Bytes of the header and entry table of a container.
pub open spec fn spec_directory_bytes(version: ContainerVersion, es: Seq<(Seq<char>, int)>) -> Seq<u8> {
    u32_bytes(8) + magic_bytes(version) + u32_bytes(es.len() as int) + table_bytes(es)
}

/// Append the little-endian bytes of `value`.
pub fn write_u32(out: &mut Vec<u8>, value: u32)
    ensures
        final(out)@ == old(out)@ + u32_bytes(value as int),
{
    out.push((value % 256) as u8);
    out.push(((value / 256) % 256) as u8);
    out.push(((value / 65536) % 256) as u8);
    out.push(((value / 16777216) % 256) as u8);
    assert(final(out)@ =~= old(out)@ + u32_bytes(value as int));
}

/// Append `src` to `out`.
pub fn append_bytes(out: &mut Vec<u8>, src: &[u8])
    ensures
        final(out)@ == old(out)@ + src@,
{
    let ghost start = out@;
    let mut i: usize = 0;
    while i < src.len()
        invariant
            i <= src@.len(),
            out@ == start + src@.subrange(0, i as int),
        decreases src@.len() - i,
    {
        out.push(src[i]);
        i += 1;
        assert(out@ =~= start + src@.subrange(0, i as int));
    }
    assert(src@.subrange(0, src@.len() as int) =~= src@);
}

pub proof fn lemma_table_bytes_step(es: Seq<(Seq<char>, int)>, k: int)
    requires
        0 <= k < es.len(),
    ensures
        table_bytes(es.take(k + 1)) == table_bytes(es.take(k)) + entry_bytes(
            es[k].0,
            payload_total(es.take(k)),
            es[k].1,
        ),
{
    assert(es.take(k + 1).drop_last() =~= es.take(k));
    assert(es.take(k + 1).last() == es[k]);
}

proof fn lemma_entry_fields_fit(es: Seq<(Seq<char>, int)>, l: Layout, k: int)
    requires
        pending_ok(es),
        layout_of(es, l),
        spec_total_size(es) < FOUR_GIB,
        0 <= k < es.len(),
    ensures
        l.offsets@[k].0 as int == entry_offset(es, k),
        l.offsets@[k].1 as int == es[k].1,
        entry_offset(es, k) < 4294967296,
        es[k].1 < 4294967296,
        path_len(es[k].0) <= MAX_PATH_LENGTH,
{
    lemma_take_step(es, k);
    lemma_prefix_sums(es, k + 1, es.len() as int);
    lemma_prefix_sums(es, k, k + 1);
    assert(es.take(es.len() as int) =~= es);
    assert(payload_total(es.take(es.len() as int)) == payload_total(es));
    assert(table_len(es.take(es.len() as int)) == table_len(es));
    assert(payload_total(es.take(k + 1)) == payload_total(es.take(k)) + es[k].1);
    lemma_prefix_sums(es, k, k);
    assert(payload_total(es.take(k)) >= 0);
    assert(l.offsets@[k] == (entry_offset(es, k) as u64, es[k].1 as u64));
    assert(0 <= entry_offset(es, k) < 4294967296);
    assert(0 <= es[k].1 < 4294967296);
}

impl MpkgBuilder {
    /// Header and entry table for the layout computed by `checked_layout`.
    #[verifier::rlimit(40)]
    pub fn write_header_and_table(&self, layout: &Layout) -> (r: Vec<u8>)
        requires
            layout_of(self.view_entries(), *layout),
            spec_total_size(self.view_entries()) < FOUR_GIB,
        ensures
            r@ == spec_directory_bytes(self.spec_version(), self.view_entries()),
    {
        proof {
            use_type_invariant(self);
        }
        let ghost es = self.view_entries();
        let mut out: Vec<u8> = Vec::new();
        write_u32(&mut out, 8);
        let magic = self.version.magic();
        append_bytes(&mut out, magic.as_slice());
        write_u32(&mut out, layout.entry_count);
        let ghost header = out@;
        assert(header =~= u32_bytes(8) + magic_bytes(self.spec_version()) + u32_bytes(es.len() as int));
        let mut i: usize = 0;
        assert(es.take(0) =~= Seq::<(Seq<char>, int)>::empty());
        while i < self.entries.len()
            invariant
                es == self.view_entries(),
                pending_ok(es),
                layout_of(es, *layout),
                spec_total_size(es) < FOUR_GIB,
                es.len() == self.entries@.len(),
                i <= es.len(),
                out@ == header + table_bytes(es.take(i as int)),
            decreases es.len() - i,
        {
            let entry = &self.entries[i];
            let path = entry.archive_path.as_str().as_bytes();
            let (offset, size) = layout.offsets[i];
            proof {
                assert(es[i as int] == (entry.archive_path@, spec_source_size(entry.source)));
                lemma_entry_fields_fit(es, *layout, i as int);
                lemma_table_bytes_step(es, i as int);
            }
            let ghost before = out@;
            write_u32(&mut out, path.len() as u32);
            append_bytes(&mut out, path);
            write_u32(&mut out, offset as u32);
            write_u32(&mut out, size as u32);
            proof {
                assert(out@ =~= before + entry_bytes(es[i as int].0, payload_total(es.take(i as int)), es[i as int].1));
            }
            i += 1;
        }
        assert(es.take(es.len() as int) =~= es);
        out
    }
}

/// A staged package reads back as it was laid out: the builder's version,
/// and each entry, in order, with the path and size it was added with.
pub open spec fn staged_matches(es: Seq<(Seq<char>, int)>, version: ContainerVersion, staged_version: ContainerVersion, staged: Seq<MpkgEntry>) -> bool {
    &&& staged_version == version
    &&& staged.len() == es.len()
    &&& forall|k: int| 0 <= k < es.len() ==> (#[trigger] staged[k]).path@ == es[k].0 && staged[k].size == es[k].1
}

impl MpkgBuilder {
    /// Checks what a staged package read back against what was laid out.
    pub fn check_staged_entries(&self, staged_version: ContainerVersion, staged: &Vec<MpkgEntry>) -> (r: Result<()>)
        ensures
            r is Ok <==> staged_matches(self.view_entries(), self.spec_version(), staged_version, staged@),
            r matches Err(e) ==> e is VerificationFailed,
    {
        if !staged_version.same(self.version) || staged.len() != self.entries.len() {
            return Err(Error::VerificationFailed { reason: "temporary package header did not round-trip".to_owned() });
        }
        let mut k: usize = 0;
        while k < staged.len()
            invariant
                k <= staged@.len(),
                staged@.len() == self.entries@.len(),
                staged_version == self.version,
                forall|j: int| 0 <= j < k ==> (#[trigger] staged@[j]).path@ == self.view_entries()[j].0
                    && staged@[j].size == self.view_entries()[j].1,
            decreases staged@.len() - k,
        {
            let expected = &self.entries[k];
            let actual = &staged[k];
            if !str_eq(actual.path.as_str(), expected.archive_path.as_str()) || actual.size != expected.source.size() {
                return Err(Error::VerificationFailed {
                    reason: concat("temporary package entry mismatch: ", actual.path.as_str()),
                });
            }
            k += 1;
        }
        Ok(())
    }
}

} // verus!

