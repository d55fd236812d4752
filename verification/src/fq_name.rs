//! Fully-qualified names: the unique address of a named entity in the code
//! model, a triple of package path, module path and local name.

use vstd::prelude::*;

use crate::name::Name;
use crate::path::Path;

verus! {

/// A fully-qualified name. The package path and the module path are
/// independent hierarchies: neither is required to be a prefix or suffix of
/// the other.
#[derive(Debug, Clone)]
pub struct FQName {
    package: Path,
    module: Path,
    local: Name,
}

impl View for FQName {
    type V = (Seq<Seq<Seq<char>>>, Seq<Seq<Seq<char>>>, Seq<Seq<char>>);

    closed spec fn view(&self) -> (Seq<Seq<Seq<char>>>, Seq<Seq<Seq<char>>>, Seq<Seq<char>>) {
        (self.package@, self.module@, self.local@)
    }
}

impl FQName {
    /// Compose a fully-qualified name from its three components.
    pub fn new(package_path: Path, mod_path: Path, local_name: Name) -> (r: FQName)
        ensures
            r@ == (package_path@, mod_path@, local_name@),
    {
        FQName { package: package_path, module: mod_path, local: local_name }
    }

    /// The local name.
    pub fn local_name(&self) -> (r: &Name)
        ensures
            r@ == self@.2,
    {
        &self.local
    }

    /// The module path.
    pub fn mod_path(&self) -> (r: &Path)
        ensures
            r@ == self@.1,
    {
        &self.module
    }

    /// The package path.
    pub fn package_path(&self) -> (r: &Path)
        ensures
            r@ == self@.0,
    {
        &self.package
    }
}

impl PartialEq for FQName {
    /// Two fully-qualified names are equal iff package path, module path and
    /// local name are all pairwise equal.
    fn eq(&self, other: &FQName) -> (r: bool) {
        self.package == other.package && self.module == other.module && self.local == other.local
    }
}

impl Eq for FQName {}

impl vstd::std_specs::cmp::PartialEqSpecImpl for FQName {
    open spec fn obeys_eq_spec() -> bool {
        true
    }

    open spec fn eq_spec(&self, other: &FQName) -> bool {
        self@ == other@
    }
}

/// Lexicographic order on fully-qualified names, over (package path,
/// module path, local name) in that order.
pub open spec fn cmp_fq(
    a: (Seq<Seq<Seq<char>>>, Seq<Seq<Seq<char>>>, Seq<Seq<char>>),
    b: (Seq<Seq<Seq<char>>>, Seq<Seq<Seq<char>>>, Seq<Seq<char>>),
) -> core::cmp::Ordering {
    match crate::path::cmp_names(a.0, b.0) {
        core::cmp::Ordering::Equal => match crate::path::cmp_names(a.1, b.1) {
            core::cmp::Ordering::Equal => crate::name::cmp_segs(a.2, b.2),
            c => c,
        },
        c => c,
    }
}

impl FQName {
    /// Compare two fully-qualified names lexicographically over (package
    /// path, module path, local name). This is the total order under which
    /// they serve as map keys.
    pub fn compare(&self, other: &FQName) -> (r: core::cmp::Ordering)
        ensures
            r == cmp_fq(self@, other@),
    {
        match self.package.compare(&other.package) {
            core::cmp::Ordering::Equal => match self.module.compare(&other.module) {
                core::cmp::Ordering::Equal => self.local.compare(&other.local),
                c => c,
            },
            c => c,
        }
    }
}

/// Comparing fully-qualified names the other way around flips the verdict
/// (antisymmetry).
pub proof fn lemma_cmp_fq_flip(x: FQName, y: FQName)
    ensures
        cmp_fq(y@, x@) == crate::name::flip(cmp_fq(x@, y@)),
{
    crate::path::lemma_cmp_names_flip(x@.0, y@.0);
    crate::path::lemma_cmp_names_flip(x@.1, y@.1);
    crate::name::lemma_cmp_segs_flip(x@.2, y@.2);
}

/// The order on fully-qualified names is transitive; with antisymmetry and
/// consistency with equality, it is the total order the model graph keys
/// on.
pub proof fn lemma_cmp_fq_trans(x: FQName, y: FQName, z: FQName)
    requires
        cmp_fq(x@, y@) == core::cmp::Ordering::Less,
        cmp_fq(y@, z@) == core::cmp::Ordering::Less,
    ensures
        cmp_fq(x@, z@) == core::cmp::Ordering::Less,
{
    crate::path::lemma_cmp_names_eq(x@.0, y@.0);
    crate::path::lemma_cmp_names_eq(y@.0, z@.0);
    crate::path::lemma_cmp_names_eq(x@.1, y@.1);
    crate::path::lemma_cmp_names_eq(y@.1, z@.1);
    let p_xy = crate::path::cmp_names(x@.0, y@.0);
    let p_yz = crate::path::cmp_names(y@.0, z@.0);
    if p_xy == core::cmp::Ordering::Less && p_yz == core::cmp::Ordering::Less {
        crate::path::lemma_cmp_names_trans(x@.0, y@.0, z@.0);
    } else if p_xy == core::cmp::Ordering::Equal && p_yz == core::cmp::Ordering::Equal {
        let m_xy = crate::path::cmp_names(x@.1, y@.1);
        let m_yz = crate::path::cmp_names(y@.1, z@.1);
        if m_xy == core::cmp::Ordering::Less && m_yz == core::cmp::Ordering::Less {
            crate::path::lemma_cmp_names_trans(x@.1, y@.1, z@.1);
        } else if m_xy == core::cmp::Ordering::Equal && m_yz == core::cmp::Ordering::Equal {
            crate::name::lemma_cmp_segs_trans(x@.2, y@.2, z@.2);
        }
    }
}

/// Comparing fully-qualified names is consistent with their equality: they
/// compare equal exactly when they are equal.
pub proof fn lemma_cmp_fq_eq(x: FQName, y: FQName)
    ensures
        cmp_fq(x@, y@) == core::cmp::Ordering::Equal <==> x@ == y@,
{
    crate::path::lemma_cmp_names_eq(x@.0, y@.0);
    crate::path::lemma_cmp_names_eq(x@.1, y@.1);
    crate::name::lemma_cmp_segs_eq(x@.2, y@.2);
}

/// Two fully-qualified names are equal exactly when all three of their
/// components are pairwise equal; changing any one component breaks the
/// equality.
pub proof fn lemma_fq_name_eq_components(x: FQName, y: FQName)
    ensures
        x@ == y@ <==> (x@.0 == y@.0 && x@.1 == y@.1 && x@.2 == y@.2),
{
}

} // verus!
