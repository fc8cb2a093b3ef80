//! Wallpaper projects: the kind of a wallpaper, its `project.json`
//! manifest and the checks on a project's entry.

pub mod kind;
pub mod manifest;
pub mod source;

pub use kind::WallpaperKind;
pub use manifest::ProjectManifest;
