//! Names, identifiers and the data model built on them.

use vstd::prelude::*;
use vstd::std_specs::cmp::PartialEqSpecImpl;

pub mod equality;
pub mod query;
pub mod result;
pub mod schema;

verus! {

/// An identifier. It names fields, arguments and types, and doubles as the
/// unquoted literal of the query language.
///
/// Its model is the text it wraps.
#[derive(Debug, Eq, PartialOrd, Ord, Hash)]
pub struct Name(pub String);

impl View for Name {
    type V = Seq<char>;

    open spec fn view(&self) -> Seq<char> {
        self.0@
    }
}

impl Clone for Name {
    fn clone(&self) -> (res: Name)
        ensures
            res@ == self@,
    {
        Name(self.0.clone())
    }
}

impl PartialEq for Name {
    fn eq(&self, other: &Name) -> (res: bool) {
        self.0 == other.0
    }
}

impl PartialEqSpecImpl for Name {
    open spec fn obeys_eq_spec() -> bool {
        true
    }

    open spec fn eq_spec(&self, other: &Name) -> bool {
        self@ == other@
    }
}

/// An opaque entity identifier. It is only ever made from a name-shaped
/// literal.
///
/// Its model is the text it wraps.
#[derive(Debug, Eq, PartialOrd, Ord, Hash)]
pub struct Id(pub String);

impl View for Id {
    type V = Seq<char>;

    open spec fn view(&self) -> Seq<char> {
        self.0@
    }
}

impl Clone for Id {
    fn clone(&self) -> (res: Id)
        ensures
            res@ == self@,
    {
        Id(self.0.clone())
    }
}

impl PartialEq for Id {
    fn eq(&self, other: &Id) -> (res: bool) {
        self.0 == other.0
    }
}

impl PartialEqSpecImpl for Id {
    open spec fn obeys_eq_spec() -> bool {
        true
    }

    open spec fn eq_spec(&self, other: &Id) -> bool {
        self@ == other@
    }
}


/// The index of the first of `names`, from `from` on, that is `name`.
pub open spec fn position(names: Seq<Seq<char>>, name: Seq<char>, from: int) -> Option<int>
    decreases names.len() - from,
{
    if 0 <= from < names.len() {
        if names[from] == name {
            Some(from)
        } else {
            position(names, name, from + 1)
        }
    } else {
        None
    }
}

/// Lookup by name takes the first match: what is found is called `name` and
/// nothing before it is, and nothing is found only where nothing is called
/// `name`.
pub proof fn law_first_match(names: Seq<Seq<char>>, name: Seq<char>, from: int)
    requires
        0 <= from,
    ensures
        match position(names, name, from) {
            Some(i) => from <= i < names.len() && names[i] == name && forall|j: int|
                from <= j < i ==> names[j] != name,
            None => forall|j: int| from <= j < names.len() ==> names[j] != name,
        },
    decreases names.len() - from,
{
    if from < names.len() && names[from] != name {
        law_first_match(names, name, from + 1);
    }
}

} // verus!
