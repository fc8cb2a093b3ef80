//! Following a Scene's local references: the closure of project files
//! reached from the entry, grown as each reached file is read. Reading the
//! files and asking whether a path is a regular file is the caller's work;
//! which files are read next, which strings count as references and what
//! the closure holds is decided here.

use vstd::prelude::*;
use crate::error::{Error, Result};
use crate::mpkg::path::{archive_text_ok, normalize_archive_path};
use crate::project::kind::text_bytes;
use crate::scene::compat_shader::{insert_sorted_path, strictly_sorted, texts};
use crate::scene::references::{is_json_path, is_script_path, json_path, looks_like_relative,
    looks_like_relative_path, script_path, SceneReferenceReport};
use crate::text::concat;

verus! {

/// How a reached file is followed: its JSON strings, its
/// `engine.registerAsset` calls, or not at all.
#[derive(Debug, Clone, Copy, PartialEq, Eq, Structural)]
pub enum ReferenceDocument {
    Json,
    Script,
    Other,
}

pub open spec fn document_kind(path: Seq<char>) -> ReferenceDocument {
    if json_path(text_bytes(path)) {
        ReferenceDocument::Json
    } else if script_path(text_bytes(path)) {
        ReferenceDocument::Script
    } else {
        ReferenceDocument::Other
    }
}

/// No text occurs twice.
pub open spec fn distinct(s: Seq<Seq<char>>) -> bool {
    forall|i: int, j: int| 0 <= i < j < s.len() ==> #[trigger] s[i] != #[trigger] s[j]
}

/// The references reached so far (sorted by bytes), the order in which
/// they were reached, and how many of them have been followed.
#[derive(Debug)]
pub struct ReferenceClosure {
    scene_entry: String,
    references: Vec<String>,
    queue: Vec<String>,
    next: usize,
}

impl ReferenceClosure {
    pub closed spec fn spec_entry(&self) -> Seq<char> {
        self.scene_entry@
    }

    /// The references reached so far, in byte order.
    pub closed spec fn spec_references(&self) -> Seq<Seq<char>> {
        texts(self.references@)
    }

    /// The references in the order they were reached.
    pub closed spec fn spec_queue(&self) -> Seq<Seq<char>> {
        texts(self.queue@)
    }

    /// How many reached references have been followed.
    pub closed spec fn spec_next(&self) -> int {
        self.next as int
    }

    /// The references are sorted and are exactly the reached paths, each
    /// reached once, the entry first.
    pub open spec fn wf(&self) -> bool {
        &&& strictly_sorted(self.spec_references())
        &&& forall|t: Seq<char>| self.spec_references().contains(t) <==> self.spec_queue().contains(t)
        &&& distinct(self.spec_queue())
        &&& 0 <= self.spec_next() <= self.spec_queue().len()
        &&& self.spec_queue().len() > 0
        &&& self.spec_queue()[0] == self.spec_entry()
    }

    /// A closure holding only the Scene entry, which must be a safe archive
    /// path.
    pub fn start(scene_entry: &str) -> (r: Result<ReferenceClosure>)
        ensures
            r is Ok <==> archive_text_ok(scene_entry@),
            r matches Ok(c) ==> c.wf() && c.spec_entry() == scene_entry@ && c.spec_references() == seq![scene_entry@]
                && c.spec_queue() == seq![scene_entry@] && c.spec_next() == 0,
            r matches Err(e) ==> e is InvalidProject,
    {
        let entry = match normalize_archive_path(scene_entry) {
            Ok(s) => s,
            Err(bad) => {
                return Err(Error::InvalidProject { reason: concat("unsafe scene entry path: ", bad.as_str()) });
            },
        };
        let mut references: Vec<String> = Vec::new();
        references.push(entry.clone());
        let mut queue: Vec<String> = Vec::new();
        queue.push(entry.clone());
        let c = ReferenceClosure { scene_entry: entry, references, queue, next: 0 };
        proof {
            assert(c.spec_references() =~= seq![scene_entry@]);
            assert(c.spec_queue() =~= seq![scene_entry@]);
            assert forall|t: Seq<char>| c.spec_references().contains(t) <==> c.spec_queue().contains(t) by {
                if c.spec_references().contains(t) {
                    assert(c.spec_queue()[0] == t);
                }
                if c.spec_queue().contains(t) {
                    assert(c.spec_references()[0] == t);
                }
            }
        }
        Ok(c)
    }

    pub fn scene_entry(&self) -> (r: &String)
        ensures
            r@ == self.spec_entry(),
    {
        &self.scene_entry
    }

    /// The next reached file to follow, with how to follow it; `None` once
    /// every reached file has been followed.
    pub fn next_document(&mut self) -> (r: Option<(String, ReferenceDocument)>)
        requires
            old(self).wf(),
        ensures
            final(self).wf(),
            final(self).spec_entry() == old(self).spec_entry(),
            final(self).spec_references() == old(self).spec_references(),
            final(self).spec_queue() == old(self).spec_queue(),
            old(self).spec_next() < old(self).spec_queue().len() ==> (r matches Some((p, k)) && p@ == old(
                self,
            ).spec_queue()[old(self).spec_next()] && k == document_kind(p@) && final(self).spec_next() == old(
                self,
            ).spec_next() + 1),
            old(self).spec_next() == old(self).spec_queue().len() ==> (r is None && final(self).spec_next()
                == old(self).spec_next()),
    {
        if self.next >= self.queue.len() {
            return None;
        }
        let path = self.queue[self.next].clone();
        self.next = self.next + 1;
        let kind = if is_json_path(path.as_str()) {
            ReferenceDocument::Json
        } else if is_script_path(path.as_str()) {
            ReferenceDocument::Script
        } else {
            ReferenceDocument::Other
        };
        Some((path, kind))
    }

    /// Records an existing project file reached from a followed file; a
    /// path reached before changes nothing.
    pub fn reach(&mut self, path: String)
        requires
            old(self).wf(),
        ensures
            final(self).wf(),
            final(self).spec_entry() == old(self).spec_entry(),
            final(self).spec_next() == old(self).spec_next(),
            forall|t: Seq<char>| final(self).spec_references().contains(t) <==> (old(self).spec_references().contains(t)
                || t == path@),
            old(self).spec_references().contains(path@) ==> final(self).spec_queue() == old(self).spec_queue(),
            !old(self).spec_references().contains(path@) ==> final(self).spec_queue() == old(
                self,
            ).spec_queue().push(path@),
    {
        let ghost q0 = self.spec_queue();
        let ghost r0 = self.spec_references();
        let added = insert_sorted_path(&mut self.references, path.as_str());
        if added {
            let ghost p = path@;
            self.queue.push(path);
            proof {
                assert(self.spec_queue() =~= q0.push(p));
                assert(!q0.contains(p));
                assert forall|i: int, j: int| 0 <= i < j < self.spec_queue().len() implies #[trigger] self.spec_queue()[i]
                    != #[trigger] self.spec_queue()[j] by {
                    if j == q0.len() {
                        assert(self.spec_queue()[i] == q0[i]);
                    } else {
                        assert(self.spec_queue()[i] == q0[i] && self.spec_queue()[j] == q0[j]);
                    }
                }
                assert forall|t: Seq<char>| self.spec_references().contains(t) <==> self.spec_queue().contains(t) by {
                    if q0.contains(t) {
                        let k = choose|k: int| 0 <= k < q0.len() && q0[k] == t;
                        assert(self.spec_queue()[k] == t);
                    }
                    if t == p {
                        assert(self.spec_queue()[q0.len() as int] == t);
                    }
                    if self.spec_queue().contains(t) {
                        let k = choose|k: int| 0 <= k < self.spec_queue().len() && self.spec_queue()[k] == t;
                        if k < q0.len() {
                            assert(q0[k] == t);
                        }
                    }
                }
                assert(self.spec_queue()[0] == q0[0]);
            }
        }
    }

    /// The report: the entry and every reference reached, in byte order.
    pub fn finish(self) -> (r: SceneReferenceReport)
        requires
            self.wf(),
        ensures
            r.scene_entry@ == self.spec_entry(),
            texts(r.local_references@) == self.spec_references(),
    {
        SceneReferenceReport { scene_entry: self.scene_entry, local_references: self.references }
    }
}

/// Law: a closure's report lists the Scene entry and every path reached,
/// each once and in byte order of the paths.
pub proof fn lemma_report_lists_reached_paths(c: ReferenceClosure)
    requires
        c.wf(),
    ensures
        strictly_sorted(c.spec_references()),
        c.spec_references().contains(c.spec_entry()),
        forall|t: Seq<char>| c.spec_references().contains(t) <==> c.spec_queue().contains(t),
{
    assert(c.spec_queue().contains(c.spec_queue()[0]));
}

/// What a JSON string of a followed document is: no reference (`None`),
/// or a safe project path to look for; a path-like string that is not a
/// safe archive path is refused.
pub open spec fn spec_reference_candidate(s: Seq<char>) -> Option<Option<Seq<char>>> {
    if !looks_like_relative(text_bytes(s)) {
        Some(None)
    } else if !archive_text_ok(s) {
        None
    } else {
        Some(Some(s))
    }
}

pub fn reference_candidate(value: &str) -> (r: Result<Option<String>>)
    ensures
        r is Ok <==> spec_reference_candidate(value@) is Some,
        r matches Ok(Some(p)) ==> spec_reference_candidate(value@) == Some(Some(p@)),
        r matches Ok(None) ==> spec_reference_candidate(value@) == Some(None::<Seq<char>>),
        r matches Err(e) ==> e is InvalidProject,
{
    if !looks_like_relative_path(value) {
        return Ok(None);
    }
    match normalize_archive_path(value) {
        Ok(p) => Ok(Some(p)),
        Err(bad) => Err(Error::InvalidProject { reason: concat("unsafe scene reference path: ", bad.as_str()) }),
    }
}

/// The path an `engine.registerAsset` call names; it must be a safe
/// archive path.
pub fn register_asset_path(asset: &str) -> (r: Result<String>)
    ensures
        r is Ok <==> archive_text_ok(asset@),
        r matches Ok(p) ==> p@ == asset@,
        r matches Err(e) ==> e is InvalidProject,
{
    match normalize_archive_path(asset) {
        Ok(p) => Ok(p),
        Err(bad) => Err(Error::InvalidProject { reason: concat("unsafe engine.registerAsset path: ", bad.as_str()) }),
    }
}

/// An `engine.registerAsset` call must name an existing project file.
pub fn missing_register_asset(path: &str) -> (e: Error)
    ensures
        e matches Error::InvalidProject { reason } && reason@ == "engine.registerAsset reference is missing: "@ + path@,
{
    Error::InvalidProject { reason: concat("engine.registerAsset reference is missing: ", path) }
}

} // verus!
