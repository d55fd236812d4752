//! The smallest slice of the code model's intermediate representation that
//! carries names: enough to show canonical names used as identity values.

use vstd::prelude::*;

use crate::name::Name;

verus! {

/// A type of the model.
#[derive(Debug, Clone)]
pub enum Type {
    Variable(TypeVariable),
    Unit,
}

/// A type variable, identified by its canonical name.
#[derive(Debug, Clone)]
pub struct TypeVariable {
    pub name: Name,
}

/// A value of the model.
#[derive(Debug, Clone)]
pub enum Value {
    Literal(Literal),
}

/// A literal value.
#[derive(Debug, Clone)]
pub enum Literal {
    Bool(bool),
    Unit,
}

/// A piece of plain data.
#[derive(Debug, Clone)]
pub enum Data {
    Bool(bool),
    String(String),
    Unit,
}

/// The identity of a node in the model graph.
#[derive(Debug, Clone)]
pub enum NodeId {
    TypeId(),
    ValueId(),
    ModuleId(),
}

} // verus!
