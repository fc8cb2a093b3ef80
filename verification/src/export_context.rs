//! What an export runs with, and what it reports.

use vstd::prelude::*;
use crate::backend::ResourceTranscodeBackend;
use crate::export::ExportMode;
use crate::mpkg::version::ContainerVersion;
use crate::project::kind::WallpaperKind;
use crate::scene::package_input::ScenePackageUnpackBackend;

verus! {

/// The optional helper backends, zcompat shader root (as text) and
/// workshop project id an export runs with.
pub struct ExportContext<'a> {
    resource_backend: Option<&'a dyn ResourceTranscodeBackend>,
    package_unpack_backend: Option<&'a dyn ScenePackageUnpackBackend>,
    compat_shader_root: Option<&'a str>,
    project_id_override: Option<&'a str>,
}

impl<'a> ExportContext<'a> {
    pub closed spec fn has_resource_backend(&self) -> bool {
        self.resource_backend is Some
    }

    pub closed spec fn has_unpack_backend(&self) -> bool {
        self.package_unpack_backend is Some
    }

    pub closed spec fn spec_shader_root(&self) -> Option<Seq<char>> {
        match self.compat_shader_root {
            Some(s) => Some(s@),
            None => None,
        }
    }

    pub closed spec fn spec_project_id(&self) -> Option<Seq<char>> {
        match self.project_id_override {
            Some(s) => Some(s@),
            None => None,
        }
    }

    /// A context with nothing declared.
    pub fn new() -> (c: ExportContext<'a>)
        ensures
            !c.has_resource_backend(),
            !c.has_unpack_backend(),
            c.spec_shader_root() is None,
            c.spec_project_id() is None,
    {
        ExportContext { resource_backend: None, package_unpack_backend: None, compat_shader_root: None, project_id_override: None }
    }

    /// A context with only a resource transcoding backend.
    pub fn with_resource_backend(backend: &'a dyn ResourceTranscodeBackend) -> (c: ExportContext<'a>)
        ensures
            c.has_resource_backend(),
            !c.has_unpack_backend(),
            c.spec_shader_root() is None,
            c.spec_project_id() is None,
    {
        ExportContext { resource_backend: Some(backend), package_unpack_backend: None, compat_shader_root: None, project_id_override: None }
    }

    /// A context with only a Scene package unpack backend.
    pub fn with_package_unpack_backend(backend: &'a dyn ScenePackageUnpackBackend) -> (c: ExportContext<'a>)
        ensures
            !c.has_resource_backend(),
            c.has_unpack_backend(),
            c.spec_shader_root() is None,
            c.spec_project_id() is None,
    {
        ExportContext { resource_backend: None, package_unpack_backend: Some(backend), compat_shader_root: None, project_id_override: None }
    }

    pub fn resource_backend(self, backend: &'a dyn ResourceTranscodeBackend) -> (c: ExportContext<'a>)
        ensures
            c.has_resource_backend(),
            c.has_unpack_backend() == self.has_unpack_backend(),
            c.spec_shader_root() == self.spec_shader_root(),
            c.spec_project_id() == self.spec_project_id(),
    {
        ExportContext { resource_backend: Some(backend), ..self }
    }

    pub fn package_unpack_backend(self, backend: &'a dyn ScenePackageUnpackBackend) -> (c: ExportContext<'a>)
        ensures
            c.has_unpack_backend(),
            c.has_resource_backend() == self.has_resource_backend(),
            c.spec_shader_root() == self.spec_shader_root(),
            c.spec_project_id() == self.spec_project_id(),
    {
        ExportContext { package_unpack_backend: Some(backend), ..self }
    }

    /// Sets the runtime's `assets/zcompat/scene/shaders` root.
    pub fn compat_shader_root(self, path: &'a str) -> (c: ExportContext<'a>)
        ensures
            c.spec_shader_root() == Some(path@),
            c.has_resource_backend() == self.has_resource_backend(),
            c.has_unpack_backend() == self.has_unpack_backend(),
            c.spec_project_id() == self.spec_project_id(),
    {
        ExportContext { compat_shader_root: Some(path), ..self }
    }

    /// Sets the workshop project id used for zcompat rules.
    pub fn project_id_override(self, project_id: &'a str) -> (c: ExportContext<'a>)
        ensures
            c.spec_project_id() == Some(project_id@),
            c.has_resource_backend() == self.has_resource_backend(),
            c.has_unpack_backend() == self.has_unpack_backend(),
            c.spec_shader_root() == self.spec_shader_root(),
    {
        ExportContext { project_id_override: Some(project_id), ..self }
    }

    pub fn resource(&self) -> (r: Option<&'a dyn ResourceTranscodeBackend>)
        ensures
            r is Some == self.has_resource_backend(),
    {
        self.resource_backend
    }

    pub fn unpacker(&self) -> (r: Option<&'a dyn ScenePackageUnpackBackend>)
        ensures
            r is Some == self.has_unpack_backend(),
    {
        self.package_unpack_backend
    }

    pub fn shader_root(&self) -> (r: Option<&'a str>)
        ensures
            match r {
                Some(s) => self.spec_shader_root() == Some(s@),
                None => self.spec_shader_root() is None,
            },
    {
        self.compat_shader_root
    }

    pub fn project_id(&self) -> (r: Option<&'a str>)
        ensures
            match r {
                Some(s) => self.spec_project_id() == Some(s@),
                None => self.spec_project_id() is None,
            },
    {
        self.project_id_override
    }
}

impl<'a> Default for ExportContext<'a> {
    fn default() -> (c: ExportContext<'a>)
        ensures
            !c.has_resource_backend(),
            !c.has_unpack_backend(),
            c.spec_shader_root() is None,
            c.spec_project_id() is None,
    {
        ExportContext::new()
    }
}

/// Deterministic summary of a successful export (paths as text).
#[derive(Debug, Clone, PartialEq, Eq)]
pub struct ExportReport {
    pub source: String,
    pub output: String,
    pub kind: WallpaperKind,
    pub mode: ExportMode,
    pub container_version: ContainerVersion,
    pub entry_count: usize,
    pub output_bytes: u64,
    pub texture_count: usize,
    pub texture_input_bytes: u64,
    pub texture_output_bytes: u64,
}

} // verus!
