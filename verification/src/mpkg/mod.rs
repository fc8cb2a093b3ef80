//! The PKGM/PKGV container: version magic, archive paths, the on-disk
//! directory layout shared by desktop and mobile packages, and the writer's
//! layout.

pub mod version;
pub mod path;
pub mod format;
pub mod layout;
pub mod archive;
pub mod laws;

pub use version::ContainerVersion;
