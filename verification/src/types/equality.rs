//! Equality of values, fields and operations: two are equal when their
//! models are.

use vstd::prelude::*;
use vstd::std_specs::cmp::PartialEqSpecImpl;
use crate::error::QlResult;
use crate::parser::parse_query::{parse_source, parsed_as};
use crate::types::Name;
use crate::types::query::{
    Field,
    Operation,
    Value,
    arg_views,
    field_views,
    lemma_array_view,
    lemma_field_view,
    value_views,
};

verus! {

/// Whether `a` and `b` are the same literal.
pub fn value_eq(a: &Value, b: &Value) -> (res: bool)
    ensures
        res == (a@ == b@),
    decreases a,
{
    match (a, b) {
        (Value::Null, Value::Null) => true,
        (Value::String(x), Value::String(y)) => *x == *y,
        (Value::Name(x), Value::Name(y)) => *x == *y,
        (Value::Array(x), Value::Array(y)) => {
            proof {
                lemma_array_view(*x);
                lemma_array_view(*y);
            }
            if x.len() != y.len() {
                assert(value_views(x@).len() != value_views(y@).len());
                return false;
            }
            let mut i: usize = 0;
            while i < x.len()
                invariant
                    i <= x.len(),
                    x.len() == y.len(),
                    *a == Value::Array(*x),
                    a@->Array_0 == value_views(x@),
                    b@->Array_0 == value_views(y@),
                    a@ is Array,
                    b@ is Array,
                    forall|j: int| 0 <= j < i ==> x@[j]@ == y@[j]@,
                decreases x.len() - i,
            {
                proof {
                    assert(decreases_to!(*a => a->Array_0));
                    assert(decreases_to!(a->Array_0 => a->Array_0[i + 0]));
                }
                if !value_eq(&x[i], &y[i]) {
                    assert(value_views(x@)[i + 0] != value_views(y@)[i + 0]);
                    return false;
                }
                i = i + 1;
            }
            assert(value_views(x@) =~= value_views(y@));
            true
        },
        _ => false,
    }
}

/// Whether `a` and `b` are the same list of arguments.
pub fn args_eq(a: &Vec<(Name, Value)>, b: &Vec<(Name, Value)>) -> (res: bool)
    ensures
        res == (arg_views(a@) == arg_views(b@)),
{
    if a.len() != b.len() {
        assert(arg_views(a@).len() != arg_views(b@).len());
        return false;
    }
    let mut i: usize = 0;
    while i < a.len()
        invariant
            i <= a.len(),
            a.len() == b.len(),
            forall|j: int| 0 <= j < i ==> arg_views(a@)[j] == arg_views(b@)[j],
        decreases a.len() - i,
    {
        if !(a[i].0 == b[i].0 && value_eq(&a[i].1, &b[i].1)) {
            assert(arg_views(a@)[i + 0] != arg_views(b@)[i + 0]);
            return false;
        }
        i = i + 1;
    }
    assert(arg_views(a@) =~= arg_views(b@));
    true
}

/// Whether `a` and `b` are the same selection.
pub fn field_eq(a: &Field, b: &Field) -> (res: bool)
    ensures
        res == (a@ == b@),
    decreases a,
{
    proof {
        lemma_field_view(*a);
        lemma_field_view(*b);
    }
    if !(a.name == b.name) {
        return false;
    }
    let same_alias = match (&a.alias, &b.alias) {
        (Some(x), Some(y)) => *x == *y,
        (None, None) => true,
        _ => false,
    };
    if !same_alias || !args_eq(&a.args, &b.args) {
        return false;
    }
    if a.fields.len() != b.fields.len() {
        assert(field_views(a.fields@).len() != field_views(b.fields@).len());
        return false;
    }
    let mut i: usize = 0;
    while i < a.fields.len()
        invariant
            i <= a.fields.len(),
            a.fields.len() == b.fields.len(),
            a@.fields == field_views(a.fields@),
            b@.fields == field_views(b.fields@),
            forall|j: int| 0 <= j < i ==> a.fields@[j]@ == b.fields@[j]@,
        decreases a.fields.len() - i,
    {
        proof {
            assert(decreases_to!(*a => a.fields));
            assert(decreases_to!(a.fields => a.fields[i + 0]));
        }
        if !field_eq(&a.fields[i], &b.fields[i]) {
            assert(field_views(a.fields@)[i + 0] != field_views(b.fields@)[i + 0]);
            return false;
        }
        i = i + 1;
    }
    assert(field_views(a.fields@) =~= field_views(b.fields@));
    true
}

impl PartialEq for Value {
    fn eq(&self, other: &Value) -> (res: bool) {
        value_eq(self, other)
    }
}

impl PartialEqSpecImpl for Value {
    open spec fn obeys_eq_spec() -> bool {
        true
    }

    open spec fn eq_spec(&self, other: &Value) -> bool {
        self@ == other@
    }
}

impl PartialEq for Field {
    fn eq(&self, other: &Field) -> (res: bool) {
        field_eq(self, other)
    }
}

impl PartialEqSpecImpl for Field {
    open spec fn obeys_eq_spec() -> bool {
        true
    }

    open spec fn eq_spec(&self, other: &Field) -> bool {
        self@ == other@
    }
}

impl PartialEq for Operation {
    fn eq(&self, other: &Operation) -> (res: bool) {
        match (self, other) {
            (Operation::Query(a), Operation::Query(b)) => field_eq(a, b),
            (Operation::Mutation, Operation::Mutation) => true,
            _ => false,
        }
    }
}

impl PartialEqSpecImpl for Operation {
    open spec fn obeys_eq_spec() -> bool {
        true
    }

    open spec fn eq_spec(&self, other: &Operation) -> bool {
        self@ == other@
    }
}


/// Parsing one source twice gives equal outcomes: two operations that `==`
/// holds of, or twice the same error.
pub proof fn law_parse_twice(
    source: Seq<char>,
    first: QlResult<Operation>,
    second: QlResult<Operation>,
)
    requires
        parsed_as(first, parse_source(source)),
        parsed_as(second, parse_source(source)),
    ensures
        match (first, second) {
            (Ok(a), Ok(b)) => a@ == b@ && vstd::std_specs::cmp::PartialEqSpec::eq_spec(&a, &b),
            (Err(a), Err(b)) => a@ == b@,
            _ => false,
        },
{
}

} // verus!
