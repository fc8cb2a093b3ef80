//! Wallpaper Engine mobile package (`.mpkg`) library: container format,
//! archive paths, export planning, Scene preparation rules and helper checks.

pub mod error;
pub mod text;
pub mod os_path;
pub mod json;
pub mod json_order;
pub mod collections;
pub mod mpkg;
pub mod resolution;
pub mod project;
pub mod profile;
pub mod backend;
pub mod property;
pub mod export;
pub mod scene;
pub mod cli;
pub mod codec;
pub mod export_context;
pub mod execute;
pub mod export_laws;

pub use error::{Error, ErrorCode, Result, Stage};
pub use backend::{
    transcode_texture_checked, BackendCapabilities, HelperRequirement, ResourceTranscodeBackend, TextureTranscodeReport,
    TextureTranscodeRequest,
};
pub use export::{
    build_export_plan, CompatibilityTarget, ExportMode, ExportPlan, ExportRequest, RequestedExportMode, Transformation,
    VideoInputCompatibility,
};
pub use export_context::{ExportContext, ExportReport};
pub use mpkg::archive::{DesktopPackageArchive, MpkgArchive};
pub use mpkg::format::MpkgEntry;
pub use mpkg::layout::{MpkgBuilder, OverwritePolicy, WriteReport};
pub use mpkg::ContainerVersion;
pub use profile::{resolve_scene_profile, Compression, ContentClass, Reduction, SceneMode, SceneProfile};
pub use project::kind::WallpaperKind;
pub use project::manifest::ProjectManifest;
pub use project::source::{source_requires_package_unpack, SourceProject};
pub use property::sanitize_mobile_properties;
pub use resolution::{resolve_video_geometry, Alignment, CropMode, CropRect, Dimensions, ResolvedVideoGeometry};
pub use scene::compat_shader::{workshop_project_id, CompatShaderApplyReport, CompatShaderConfig, CompatShaderRule};
pub use scene::package_input::{
    package_entry_is_raw_scene_pkg, unpack_scene_package_checked, validate_unpacked_scene_tree, ScenePackageEntry,
    ScenePackageUnpackBackend, ScenePackageUnpackLimits, ScenePackageUnpackReport, ScenePackageUnpackRequest,
};
pub use scene::references::SceneReferenceReport;
pub use scene::source_tree::{SceneSourceEntry, SceneSourceLimits, SceneSourceTree};
