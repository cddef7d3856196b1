//! What resolution produces, and the capability that produces it.

use vstd::prelude::*;
use crate::error::QlResult;
use crate::types::{Id, Name};
use crate::types::query::{Field, FieldView, field_views};

verus! {

/// A node of the tree that resolving a query yields.
#[derive(Debug, PartialEq, Eq)]
pub enum Value {
    Null,
    String(String),
    Id(Id),
    /// Named members, in the order in which they were resolved.
    Object(Vec<(Name, Value)>),
    Array(Vec<Value>),
}

/// The capability to turn requested fields into data.
pub trait Resolve {
    /// Whether `res` is an outcome that resolving `fields` may have. Every
    /// outcome is, unless the implementation says otherwise.
    open spec fn resolves(&self, fields: Seq<FieldView>, res: QlResult<Value>) -> bool {
        true
    }

    /// Resolves a non-empty run of fields, in order.
    fn resolve(&self, fields: &[Field]) -> (res: QlResult<Value>)
        requires
            fields@.len() > 0,
        ensures
            self.resolves(field_views(fields@), res),
    ;
}

} // verus!
