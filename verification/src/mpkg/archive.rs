//! Opened packages: a mobile MPKG or a desktop `scene.pkg` whose directory
//! has been read, with entry lookup by archive path. Reading payload bytes
//! from the file is left to the caller, at the region given here.

use indexmap::IndexMap;
use vstd::prelude::*;
use crate::collections::{key_position, lemma_key_position, path_index_entries, path_index_get};
use crate::error::{Error, Result};
use crate::json::str_eq;
use crate::mpkg::format::{entries_view, index_of, MpkgEntry, PackageDirectory, PackageErrorDomain,
    domain_format_error};
use crate::mpkg::version::{spec_from_magic, ContainerVersion};
use crate::scene::package_input::ScenePackageUnpackLimits;
use crate::text::{ascii_chars, bytes_eq_at, concat, string_from_utf8};

verus! {

/// The index maps each entry's path to its position.
pub open spec fn index_consistent(by_path: IndexMap<String, usize>, entries: Seq<MpkgEntry>) -> bool {
    path_index_entries(by_path) == index_of(entries_view(entries))
}

pub open spec fn has_entry(entries: Seq<MpkgEntry>, path: Seq<char>) -> bool {
    exists|k: int| 0 <= k < entries.len() && (#[trigger] entries[k]).path@ == path
}

/// Looks an entry up by path through the index, checking what it finds.
fn lookup<'a>(entries: &'a Vec<MpkgEntry>, by_path: &IndexMap<String, usize>, path: &str) -> (r: Option<&'a MpkgEntry>)
    ensures
        r matches Some(e) ==> e.path@ == path@ && exists|k: int| 0 <= k < entries@.len() && entries@[k] == *e,
        index_consistent(*by_path, entries@) ==> (r is Some <==> has_entry(entries@, path@)),
{
    proof {
        lemma_key_position(path_index_entries(*by_path), path@);
        if index_consistent(*by_path, entries@) {
            lemma_key_position(index_of(entries_view(entries@)), path@);
            if has_entry(entries@, path@) {
                let k = choose|k: int| 0 <= k < entries@.len() && (#[trigger] entries@[k]).path@ == path@;
                assert(index_of(entries_view(entries@))[k].0 == path@);
            }
        }
    }
    match path_index_get(by_path, path) {
        Some(i) => {
            if i < entries.len() && str_eq(entries[i].path.as_str(), path) {
                Some(&entries[i])
            } else {
                None
            }
        },
        None => None,
    }
}

/// An opened mobile package.
#[derive(Debug)]
pub struct MpkgArchive {
    source: String,
    version: ContainerVersion,
    payload_start: u64,
    entries: Vec<MpkgEntry>,
    by_path: IndexMap<String, usize>,
}

impl MpkgArchive {
    pub closed spec fn spec_version(&self) -> ContainerVersion {
        self.version
    }

    /// The path (as text) the archive was read from.
    pub closed spec fn spec_source(&self) -> Seq<char> {
        self.source@
    }

    pub closed spec fn spec_entries(&self) -> Seq<MpkgEntry> {
        self.entries@
    }

    pub closed spec fn spec_payload_start(&self) -> u64 {
        self.payload_start
    }

    pub closed spec fn wf(&self) -> bool {
        index_consistent(self.by_path, self.entries@)
    }

    /// An archive from a directory read from `source`; its magic must name
    /// a PKGM version.
    pub fn from_directory(source: String, directory: PackageDirectory) -> (r: Result<MpkgArchive>)
        ensures
            r is Ok <==> spec_from_magic(directory.magic@) is Some,
            r matches Ok(a) ==> a.spec_version() == spec_from_magic(directory.magic@)->0 && a.spec_entries()
                == directory.entries@ && a.spec_payload_start() == directory.payload_start && a.spec_source() == source@
                && (index_consistent(directory.by_path, directory.entries@) ==> a.wf()),
            r matches Err(e) ==> e is InvalidMpkg,
    {
        let version = ContainerVersion::from_magic(directory.magic.as_slice())?;
        Ok(MpkgArchive {
            source,
            version,
            payload_start: directory.payload_start,
            entries: directory.entries,
            by_path: directory.by_path,
        })
    }

    pub fn version(&self) -> (v: ContainerVersion)
        ensures
            v == self.spec_version(),
    {
        self.version
    }

    pub fn entries(&self) -> (r: &Vec<MpkgEntry>)
        ensures
            r@ == self.spec_entries(),
    {
        &self.entries
    }

    pub fn source(&self) -> (r: &String)
        ensures
            r@ == self.spec_source(),
    {
        &self.source
    }

    pub fn payload_start(&self) -> (r: u64)
        ensures
            r == self.spec_payload_start(),
    {
        self.payload_start
    }

    /// The entry stored under `path`; a missing one is an invalid MPKG.
    pub fn entry_by_path(&self, path: &str) -> (r: Result<&MpkgEntry>)
        ensures
            r matches Ok(e) ==> e.path@ == path@ && exists|k: int| 0 <= k < self.spec_entries().len() && self.spec_entries()[k] == *e,
            self.wf() ==> (r is Ok <==> has_entry(self.spec_entries(), path@)),
            r matches Err(e) ==> e is InvalidMpkg,
    {
        match lookup(&self.entries, &self.by_path, path) {
            Some(e) => {
                proof {
                    let k = choose|k: int| 0 <= k < self.entries@.len() && self.entries@[k] == *e;
                    assert(self.spec_entries()[k] == *e);
                }
                Ok(e)
            },
            None => Err(Error::invalid_mpkg(concat("archive entry not found: ", path))),
        }
    }
}

/// An opened desktop `scene.pkg`.
#[derive(Debug)]
pub struct DesktopPackageArchive {
    source: String,
    magic: String,
    payload_start: u64,
    entries: Vec<MpkgEntry>,
    by_path: IndexMap<String, usize>,
}

/// The `PKGV` prefix of desktop package magic.
pub open spec fn pkgv_prefix() -> Seq<u8> {
    seq![80u8, 75u8, 71u8, 86u8]
}

/// Desktop magic must start with `PKGV` and be UTF-8; it is kept as text.
pub fn validate_desktop_magic(magic: &[u8], domain: &PackageErrorDomain) -> (r: Result<String>)
    ensures
        r is Ok <==> (magic@.len() >= 4 && magic@.subrange(0, 4) == pkgv_prefix() && vstd::utf8::valid_utf8(magic@)),
        r matches Ok(s) ==> vstd::utf8::encode_utf8(s@) == magic@,
        r matches Err(e) ==> domain_format_error(*domain, e),
{
    let prefix: [u8; 4] = [80u8, 75u8, 71u8, 86u8];
    assert(prefix@ =~= pkgv_prefix());
    if magic.len() < 4 || !bytes_eq_at(magic, 0, prefix.as_slice()) {
        return Err(domain.format("desktop scene package magic must start with PKGV"));
    }
    let mut copy: Vec<u8> = Vec::new();
    let mut i: usize = 0;
    while i < magic.len()
        invariant
            i <= magic@.len(),
            copy@ == magic@.subrange(0, i as int),
        decreases magic@.len() - i,
    {
        copy.push(magic[i]);
        i += 1;
        assert(copy@ =~= magic@.subrange(0, i as int));
    }
    assert(copy@ =~= magic@);
    match string_from_utf8(copy) {
        Some(s) => {
            proof {
                vstd::utf8::decode_utf8_encode_utf8(magic@);
            }
            Ok(s)
        },
        None => Err(domain.format("desktop package magic is not UTF-8")),
    }
}

impl DesktopPackageArchive {
    /// The path (as text) the package was read from.
    pub closed spec fn spec_source(&self) -> Seq<char> {
        self.source@
    }

    pub closed spec fn spec_magic(&self) -> Seq<char> {
        self.magic@
    }

    pub closed spec fn spec_entries(&self) -> Seq<MpkgEntry> {
        self.entries@
    }

    pub closed spec fn spec_payload_start(&self) -> u64 {
        self.payload_start
    }

    pub closed spec fn wf(&self) -> bool {
        index_consistent(self.by_path, self.entries@)
    }

    /// An archive from a directory read from `source`; its magic must be
    /// desktop magic.
    pub fn from_directory(source: String, directory: PackageDirectory) -> (r: Result<DesktopPackageArchive>)
        ensures
            r is Ok <==> (directory.magic@.subrange(0, 4) == pkgv_prefix() && vstd::utf8::valid_utf8(directory.magic@)),
            r matches Ok(a) ==> vstd::utf8::encode_utf8(a.spec_magic()) == directory.magic@ && a.spec_entries()
                == directory.entries@ && a.spec_payload_start() == directory.payload_start && a.spec_source() == source@
                && (index_consistent(directory.by_path, directory.entries@) ==> a.wf()),
            r matches Err(e) ==> e is InvalidProject,
    {
        let domain = PackageErrorDomain::desktop_pkg();
        let magic = validate_desktop_magic(directory.magic.as_slice(), &domain)?;
        Ok(DesktopPackageArchive {
            source,
            magic,
            payload_start: directory.payload_start,
            entries: directory.entries,
            by_path: directory.by_path,
        })
    }

    pub fn magic(&self) -> (r: &str)
        ensures
            r@ == self.spec_magic(),
    {
        self.magic.as_str()
    }

    pub fn entries(&self) -> (r: &Vec<MpkgEntry>)
        ensures
            r@ == self.spec_entries(),
    {
        &self.entries
    }

    pub fn source(&self) -> (r: &String)
        ensures
            r@ == self.spec_source(),
    {
        &self.source
    }

    pub fn payload_start(&self) -> (r: u64)
        ensures
            r == self.spec_payload_start(),
    {
        self.payload_start
    }

    /// The entry stored under `path`; a missing one is an invalid project.
    pub fn entry_by_path(&self, path: &str) -> (r: Result<&MpkgEntry>)
        ensures
            r matches Ok(e) ==> e.path@ == path@ && exists|k: int| 0 <= k < self.spec_entries().len() && self.spec_entries()[k] == *e,
            self.wf() ==> (r is Ok <==> has_entry(self.spec_entries(), path@)),
            r matches Err(e) ==> e is InvalidProject,
    {
        match lookup(&self.entries, &self.by_path, path) {
            Some(e) => {
                proof {
                    let k = choose|k: int| 0 <= k < self.entries@.len() && self.entries@[k] == *e;
                    assert(self.spec_entries()[k] == *e);
                }
                Ok(e)
            },
            None => Err(Error::InvalidProject { reason: concat("desktop package entry not found: ", path) }),
        }
    }
}

/// Where an entry's payload lies in the file: its absolute offset and its
/// length; an offset past `u64` is a format failure.
pub fn entry_region(payload_start: u64, entry: &MpkgEntry, domain: &PackageErrorDomain) -> (r: Result<(u64, u64)>)
    ensures
        r is Ok <==> payload_start + entry.offset <= u64::MAX,
        r matches Ok((o, n)) ==> o == payload_start + entry.offset && n == entry.size,
        r matches Err(e) ==> domain_format_error(*domain, e),
{
    match payload_start.checked_add(entry.offset) {
        Some(o) => Ok((o, entry.size)),
        None => Err(domain.format("entry absolute offset overflow")),
    }
}

/// The limits a desktop entry must meet while it is unpacked, given the
/// bytes unpacked before it.
pub open spec fn entry_within_limits(path_len: int, size: int, limits: ScenePackageUnpackLimits, total_so_far: int) -> bool {
    path_len <= limits.max_path_length && size <= limits.max_file_bytes && total_so_far + size <= u64::MAX
        && total_so_far + size <= limits.max_total_bytes
}

pub fn enforce_entry_limits(entry: &MpkgEntry, limits: &ScenePackageUnpackLimits, total_so_far: u64) -> (r: Result<()>)
    ensures
        r is Ok <==> entry_within_limits(vstd::utf8::encode_utf8(entry.path@).len() as int, entry.size as int, *limits, total_so_far as int),
        r matches Err(e) ==> e is InvalidProject,
{
    let path = entry.path.as_str();
    if path.as_bytes().len() > limits.max_path_length {
        return Err(Error::InvalidProject { reason: concat("entry path length exceeds limit: ", path) });
    }
    if entry.size > limits.max_file_bytes {
        return Err(Error::InvalidProject { reason: concat("file size exceeds per-file limit for ", path) });
    }
    let next_total = match total_so_far.checked_add(entry.size) {
        Some(t) => t,
        None => {
            return Err(Error::InvalidProject { reason: concat("total byte count overflow while validating ", path) });
        },
    };
    if next_total > limits.max_total_bytes {
        return Err(Error::InvalidProject { reason: concat("total size exceeds total limit while validating ", path) });
    }
    Ok(())
}

/// The payload read for a desktop entry must have the table's size.
pub fn check_entry_payload_size(entry: &MpkgEntry, payload_len: u64) -> (r: Result<()>)
    ensures
        r is Ok <==> payload_len == entry.size,
        r matches Err(e) ==> e is InvalidProject,
{
    if payload_len != entry.size {
        return Err(Error::InvalidProject { reason: concat("desktop package entry size mismatch: ", entry.path.as_str()) });
    }
    Ok(())
}

/// A desktop package may hold at most the entry limit.
pub fn check_entry_count(count: usize, limits: &ScenePackageUnpackLimits) -> (r: Result<()>)
    ensures
        r is Ok <==> (#[verifier::truncate] (count as u32)) <= limits.max_entries,
        r matches Err(e) ==> e is InvalidProject,
{
    if (#[verifier::truncate] (count as u32)) > limits.max_entries {
        return Err(Error::InvalidProject { reason: "desktop package entry count exceeds limit".to_owned() });
    }
    Ok(())
}

} // verus!
