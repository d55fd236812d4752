//! Distributions: how a built package is delivered, each carrying the name
//! of the package it holds.

use vstd::prelude::*;

use crate::project::PackageName;

verus! {

/// How a distribution is delivered.
#[derive(Debug, Clone)]
pub enum Distribution {
    Application(ApplicationDistributionInfo),
    Bundle(BundleDistributionInfo),
    Library(ApplicationDistributionInfo),
}

impl Distribution {
    /// The name of the packaged package, whatever the delivery form.
    pub open spec fn spec_package_name(&self) -> PackageName {
        match self {
            Distribution::Application(info) => info.package_name,
            Distribution::Bundle(info) => info.package_name,
            Distribution::Library(info) => info.package_name,
        }
    }

    /// The name of the packaged package.
    pub fn package_name(&self) -> (r: &PackageName)
        ensures
            *r == self.spec_package_name(),
    {
        match self {
            Distribution::Application(info) => &info.package_name,
            Distribution::Bundle(info) => &info.package_name,
            Distribution::Library(info) => &info.package_name,
        }
    }
}

/// A set of distributions.
#[derive(Debug, Clone)]
pub struct Distributions(pub Vec<Distribution>);

impl Distributions {
    /// No distributions at all.
    pub fn empty() -> (r: Distributions)
        ensures
            r.0@.len() == 0,
    {
        Distributions(Vec::new())
    }
}

/// What an application distribution carries.
#[derive(Debug, Clone)]
pub struct ApplicationDistributionInfo {
    pub package_name: PackageName,
}

/// What a bundle distribution carries.
#[derive(Debug, Clone)]
pub struct BundleDistributionInfo {
    pub package_name: PackageName,
}

/// What a library distribution carries.
#[derive(Debug, Clone)]
pub struct LibraryDistributionInfo {
    pub package_name: PackageName,
}

} // verus!
