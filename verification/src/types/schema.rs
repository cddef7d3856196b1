//! The declarations that an operation is checked against.

use vstd::prelude::*;
use crate::types::Name;

verus! {

/// The type of a field or of an argument.
#[derive(Debug, PartialEq, Eq)]
pub enum Type {
    /// A type known by its name: `String`, an object of the schema, or any
    /// other scalar or enumeration.
    Named(Name),
    /// A list of items of one type.
    List(Box<Type>),
    /// A type without `null`.
    NonNull(Box<Type>),
}

/// The declaration of a field of an object.
#[derive(Debug, PartialEq, Eq)]
pub struct FieldDef {
    pub name: Name,
    pub args: Vec<(Name, Type)>,
    pub ty: Type,
}

/// The declaration of an object type.
#[derive(Debug, PartialEq, Eq)]
pub struct Object {
    pub name: Name,
    pub fields: Vec<FieldDef>,
}

/// The object types that a service declares, and which of them queries
/// start from. Of two declarations with one name, only the first counts.
#[derive(Debug, PartialEq, Eq)]
pub struct Schema {
    /// The name of the object that the root field of a query is selected on.
    pub query: Name,
    pub objects: Vec<Object>,
}

} // verus!
