//! `project.json`: an object whose `title`, `file` and `type` members
//! describe the wallpaper; every other member is kept as it is.

use vstd::prelude::*;
use crate::error::{Error, Result};
use crate::json::{str_member, spec_str_member, JsonValue};
use crate::project::kind::{spec_infer_from_entry, spec_parse_declared, WallpaperKind};
use crate::text::concat;

verus! {

/// A parsed `project.json` whose root is an object.
#[derive(Debug)]
pub struct ProjectManifest {
    raw: JsonValue,
}

/// The declared kind: absent or null gives none, a string names a kind,
/// anything else (or an unknown name) is refused (`Err`).
pub open spec fn spec_declared_kind(raw: JsonValue) -> core::result::Result<Option<WallpaperKind>, ()> {
    match raw.spec_get("type"@) {
        None => Ok(None),
        Some(JsonValue::Null) => Ok(None),
        Some(JsonValue::String(s)) => match spec_parse_declared(s@) {
            Some(k) => Ok(Some(k)),
            None => Err(()),
        },
        Some(_) => Err(()),
    }
}

/// The kind of a project: declared, else inferred from its entry file.
pub open spec fn spec_manifest_kind(raw: JsonValue) -> Option<WallpaperKind> {
    match spec_declared_kind(raw) {
        Err(()) => None,
        Ok(Some(k)) => Some(k),
        Ok(None) => match spec_str_member(raw, "file"@) {
            None => None,
            Some(e) => spec_infer_from_entry(e),
        },
    }
}

impl ProjectManifest {
    pub closed spec fn spec_raw(&self) -> JsonValue {
        self.raw
    }

    /// A manifest from a parsed document; the root must be an object.
    pub fn from_value(raw: JsonValue) -> (r: Result<ProjectManifest>)
        ensures
            r is Ok <==> raw is Object,
            r matches Ok(m) ==> m.spec_raw() == raw,
            r matches Err(e) ==> e is InvalidProject,
    {
        if !raw.is_object() {
            return Err(Error::InvalidProject { reason: "project.json root must be an object".to_owned() });
        }
        ProjectManifest { raw }.into_ok()
    }

    fn into_ok(self) -> (r: Result<ProjectManifest>)
        ensures
            r == Ok::<ProjectManifest, Error>(self),
    {
        Ok(self)
    }

    pub fn title(&self) -> (r: Option<&String>)
        ensures
            r matches Some(s) ==> spec_str_member(self.spec_raw(), "title"@) == Some(s@),
            r is None ==> spec_str_member(self.spec_raw(), "title"@) is None,
    {
        str_member(&self.raw, "title")
    }

    pub fn entry(&self) -> (r: Option<&String>)
        ensures
            r matches Some(s) ==> spec_str_member(self.spec_raw(), "file"@) == Some(s@),
            r is None ==> spec_str_member(self.spec_raw(), "file"@) is None,
    {
        str_member(&self.raw, "file")
    }

    pub fn raw(&self) -> (r: &JsonValue)
        ensures
            *r == self.spec_raw(),
    {
        &self.raw
    }

    pub fn into_raw(self) -> (r: JsonValue)
        ensures
            r == self.spec_raw(),
    {
        self.raw
    }

    /// The `type` member's kind: none where it is absent or null.
    pub fn declared_kind(&self) -> (r: Result<Option<WallpaperKind>>)
        ensures
            r is Ok <==> spec_declared_kind(self.spec_raw()) is Ok,
            r matches Ok(k) ==> spec_declared_kind(self.spec_raw()) == Ok::<Option<WallpaperKind>, ()>(k),
            r matches Err(e) ==> e is InvalidProject,
    {
        match self.raw.get("type") {
            None => Ok(None),
            Some(JsonValue::Null) => Ok(None),
            Some(JsonValue::String(value)) => match WallpaperKind::parse_declared(value.as_str()) {
                Ok(k) => Ok(Some(k)),
                Err(e) => Err(e),
            },
            Some(_) => Err(Error::InvalidProject { reason: "project.json type must be a string".to_owned() }),
        }
    }

    /// The project's kind: declared, else inferred from the entry file.
    pub fn kind(&self) -> (r: Result<WallpaperKind>)
        ensures
            r is Ok <==> spec_manifest_kind(self.spec_raw()) is Some,
            r matches Ok(k) ==> spec_manifest_kind(self.spec_raw()) == Some(k),
            r matches Err(e) ==> e is InvalidProject,
    {
        if let Some(kind) = self.declared_kind()? {
            return Ok(kind);
        }
        let entry = match self.entry() {
            Some(e) => e,
            None => {
                return Err(Error::InvalidProject { reason: "project.json is missing a string file field".to_owned() });
            },
        };
        match WallpaperKind::infer_from_entry(entry.as_str()) {
            Some(k) => Ok(k),
            None => Err(Error::InvalidProject { reason: concat("cannot infer wallpaper type from entry: ", entry.as_str()) }),
        }
    }
}

} // verus!
