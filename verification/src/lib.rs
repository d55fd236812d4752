//! Naming core of a cross-language code model: canonical identifiers
//! (`name`), hierarchical paths (`path`), fully-qualified names (`fq_name`),
//! and an interning context for cheap symbol comparison (`naming`).

pub mod distribution;
pub mod fq_name;
pub mod host;
pub mod ir;
pub mod module;
pub mod name;
pub mod naming;
pub mod package_management;
pub mod path;
pub mod project;
pub mod services;
pub mod tools;
pub mod workspace;
