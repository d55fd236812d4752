//! Project manifest data: the names and dependency locations a project
//! descriptor declares, held as plain values. Reading and writing the
//! descriptor's serialized form is the surrounding program's work.

use vstd::prelude::*;

verus! {

/// The declared name of a package.
#[derive(Debug, Clone)]
pub struct PackageName(pub String);

/// The declared name of a module.
#[derive(Debug, Clone)]
pub struct ModuleName(pub String);

/// The path a local dependency lives at.
#[derive(Debug, Clone)]
pub struct DependencyPath(pub String);

/// Where a dependency is found.
#[derive(Debug, Clone)]
pub enum DependencyLocation {
    /// A dependency in the local filesystem.
    Local(DependencyPath),
    /// A dependency behind a URL, kept as its spelling.
    Url(String),
}

/// One declared dependency.
#[derive(Debug, Clone)]
pub struct DependencyInfo {
    pub location: DependencyLocation,
}

/// A project descriptor: what a project manifest declares.
#[derive(Debug, Clone)]
pub struct MorphirProject {
    pub name: PackageName,
    pub source_directory: String,
    pub exposed_modules: Vec<ModuleName>,
    pub local_dependencies: Vec<DependencyPath>,
    pub dependencies: Vec<DependencyInfo>,
}

} // verus!
