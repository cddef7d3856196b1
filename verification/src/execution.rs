//! Running an operation against a resolver.

use vstd::prelude::*;
use crate::types::query::{Field, Variables};

verus! {

/// What is known while an operation runs: the variables it was given and
/// the field that is being resolved.
pub struct Context {
    pub variables: Variables,
    pub field: Field,
}

impl Context {
    pub fn new(variables: Variables, field: Field) -> (res: Context)
        ensures
            res.variables == variables,
            res.field == field,
    {
        Context { variables, field }
    }
}

} // verus!
