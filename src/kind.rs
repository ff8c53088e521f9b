use vstd::prelude::*;

verus! {

/// The four record kinds that make up the file-system tree of a project.
#[derive(Debug, Clone, Copy, PartialEq, Eq, Structural)]
pub enum PBXFSReferenceKind {
    /// `PBXFileReference`
    File,
    /// `PBXGroup`
    Group,
    /// `PBXVariantGroup`
    VariantGroup,
    /// `XCVersionGroup`
    VersionGroup,
}

impl PBXFSReferenceKind {
    pub open spec fn spec_is_file(&self) -> bool {
        *self == PBXFSReferenceKind::File
    }

    /// Group-like kinds: the ones that may own child identifiers.
    pub open spec fn spec_is_group(&self) -> bool {
        *self != PBXFSReferenceKind::File
    }

    #[verifier::when_used_as_spec(spec_is_file)]
    pub fn is_file(&self) -> (r: bool)
        ensures
            r == self.spec_is_file(),
    {
        matches!(self, PBXFSReferenceKind::File)
    }

    #[verifier::when_used_as_spec(spec_is_group)]
    pub fn is_group(&self) -> (r: bool)
        ensures
            r == self.spec_is_group(),
    {
        !matches!(self, PBXFSReferenceKind::File)
    }
}

/// Where a record's path is anchored.
#[derive(Debug, Clone, Copy, PartialEq, Eq, Structural)]
pub enum PBXSourceTree {
    /// An absolute path.
    Absolute,
    /// Relative to the enclosing group.
    Group,
    /// Relative to the project directory.
    SourceRoot,
    /// Relative to the build products directory.
    BuildProductsDir,
    /// Relative to the SDK root.
    SdkRoot,
    /// Relative to the developer directory.
    DeveloperDir,
}

} // verus!
