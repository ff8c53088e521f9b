//! Tree view over the file-system records of an Xcode project file: files,
//! groups, variant groups and version groups, stored flat in a collection
//! addressed by identifier, with children resolved from identifiers and
//! parent links stamped from the child lists.
pub mod fs;
pub mod kind;
pub mod laws;
pub mod objects;

pub use fs::PBXFSReference;
pub use kind::{PBXFSReferenceKind, PBXSourceTree};
pub use objects::{PBXObject, PBXObjectCollection};
