//! The sources of package documents, and what they say of a package
//! before it is loaded.

use vstd::prelude::*;
use crate::crate_name::CrateName;
use crate::rustdoc_data::RustdocData;

verus! {

/// The kind of source that supplied a package document.
#[derive(Debug, Clone, Copy, PartialEq, Eq, Structural)]
pub enum CrateProvenance {
    /// A member of the local workspace.
    Workspace,
    /// A dependency of the local workspace.
    LocalDependency,
    /// A part of the standard library distribution.
    Std,
    /// Fetched from the remote registry and cached.
    DocsRs,
}

impl CrateProvenance {
    pub fn is_workspace(&self) -> (r: bool)
        ensures
            r == (*self == CrateProvenance::Workspace),
    {
        matches!(self, CrateProvenance::Workspace)
    }

    pub fn is_local_dependency(&self) -> (r: bool)
        ensures
            r == (*self == CrateProvenance::LocalDependency),
    {
        matches!(self, CrateProvenance::LocalDependency)
    }

    pub fn is_std(&self) -> (r: bool)
        ensures
            r == (*self == CrateProvenance::Std),
    {
        matches!(self, CrateProvenance::Std)
    }

    pub fn is_docs_rs(&self) -> (r: bool)
        ensures
            r == (*self == CrateProvenance::DocsRs),
    {
        matches!(self, CrateProvenance::DocsRs)
    }
}

/// What a source knows of a package without loading its document.
#[derive(Debug)]
pub struct CrateInfo {
    pub name: String,
    pub version: Option<String>,
    pub provenance: CrateProvenance,
    pub description: Option<String>,
    /// The workspace members that depend on the package.
    pub used_by: Vec<String>,
    /// The package is the one that `crate` stands for.
    pub default_crate: bool,
}

/// A source of package documents: the standard library distribution, the
/// build output of the local workspace, or the cache of the remote
/// registry.
///
/// Every method may answer that it has nothing; the registry decides what
/// that means.
pub trait Source {
    /// Another spelling of a package name that this source knows of,
    /// found without loading anything.
    fn canonicalize(&self, input_name: &str) -> Option<CrateName>;

    /// Looks a package up by name and version requirement, without
    /// necessarily loading its document.
    fn lookup(&self, crate_name: &str, version_req: &str) -> Option<CrateInfo>;

    /// Loads the document of a package.
    fn load(&self, crate_name: &str, version: Option<&str>) -> Option<RustdocData>;

    /// The packages that this source can enumerate.
    fn list_available(&self) -> Vec<CrateInfo>;
}

} // verus!
