//! Module identities and the module shape of the code model.

use vstd::prelude::*;

use crate::name::Name;
use crate::path::Path;

verus! {

/// The name of a module: a path distinguished by its kind, with the same
/// representation and equality.
#[derive(Debug, Clone)]
pub struct ModuleName(Path);

impl View for ModuleName {
    type V = Seq<Seq<Seq<char>>>;

    closed spec fn view(&self) -> Seq<Seq<Seq<char>>> {
        self.0@
    }
}

impl ModuleName {
    /// Wrap a path as a module name.
    pub fn new(path: Path) -> (r: ModuleName)
        ensures
            r@ == path@,
    {
        ModuleName(path)
    }

    /// Wrap a path as a module name.
    pub fn from_path(path: Path) -> (r: ModuleName)
        ensures
            r@ == path@,
    {
        ModuleName(path)
    }

    /// The underlying path.
    pub fn path(&self) -> (r: &Path)
        ensures
            r@ == self@,
    {
        &self.0
    }
}

/// A module name qualified by the package it belongs to.
#[derive(Debug, Clone)]
pub struct QualifiedModuleName {
    package: Path,
    module: Path,
}

impl View for QualifiedModuleName {
    type V = (Seq<Seq<Seq<char>>>, Seq<Seq<Seq<char>>>);

    closed spec fn view(&self) -> (Seq<Seq<Seq<char>>>, Seq<Seq<Seq<char>>>) {
        (self.package@, self.module@)
    }
}

impl QualifiedModuleName {
    /// Compose a qualified module name from its package and module paths.
    pub fn new(package: Path, module: Path) -> (r: QualifiedModuleName)
        ensures
            r@ == (package@, module@),
    {
        QualifiedModuleName { package, module }
    }
}

/// A marker for the specification side of a module item.
pub trait Spec {

}

/// A marker for the definition side of a module item.
pub trait Def {

}

/// Whether an exported item is a specification or a definition.
#[derive(Debug, Clone)]
pub enum Export {
    Spec(),
    Def(),
}

/// Whether an imported item is a specification or a definition.
#[derive(Debug, Clone)]
pub enum SpecOrDef {
    Spec(),
    Def(),
}

/// A module of the code model: its place in the namespace hierarchy, its
/// name, and what it imports and exports.
#[derive(Debug, Clone)]
pub struct Module {
    pub namespace: Box<Path>,
    pub name: Name,
    pub imports: Vec<SpecOrDef>,
    pub exports: Vec<Export>,
}

} // verus!
