//! The parsed form of a query: operations, fields and literal values.

use std::collections::HashMap;
use vstd::prelude::*;
use vstd::string::StringExecFns;
use crate::error::{QlError, QlErrorView, QlResult};
use crate::execution::Context;
use crate::parser::parse_query::{parse_query, parse_source, parsed_as};
use crate::types::{Id, Name, position};
use crate::types::result;
use crate::types::result::Resolve;
use crate::types::schema::Schema;
use crate::validation::{validate_query, validated};

verus! {

/// The values of the variables of an operation, by name.
pub type Variables = HashMap<String, Value>;

/// A literal as it appears in query source.
#[derive(Debug, Eq)]
pub enum Value {
    Null,
    String(String),
    /// Anything unquoted: an enum value, a bare identifier, a number.
    Name(Name),
    Array(Vec<Value>),
}

/// The model of a [`Value`].
pub enum ValueView {
    Null,
    String(Seq<char>),
    Name(Seq<char>),
    Array(Seq<ValueView>),
}

/// The model of a value: arrays hold the models of their items, in order.
pub open spec fn value_model(v: Value) -> ValueView
    decreases v,
{
    match v {
        Value::Null => ValueView::Null,
        Value::String(s) => ValueView::String(s@),
        Value::Name(n) => ValueView::Name(n@),
        Value::Array(a) => ValueView::Array(
            Seq::new(
                a@.len(),
                |i: int|
                    if 0 <= i < a@.len() {
                        value_model(a@[i])
                    } else {
                        ValueView::Null
                    },
            ),
        ),
    }
}

impl View for Value {
    type V = ValueView;

    open spec fn view(&self) -> ValueView {
        value_model(*self)
    }
}

/// One selection of a query.
#[derive(Debug, Eq)]
pub struct Field {
    pub name: Name,
    pub alias: Option<Name>,
    pub args: Vec<(Name, Value)>,
    pub fields: Vec<Field>,
}

/// The model of a [`Field`].
pub struct FieldView {
    pub name: Seq<char>,
    pub alias: Option<Seq<char>>,
    pub args: Seq<(Seq<char>, ValueView)>,
    pub fields: Seq<FieldView>,
}

/// The model of a field: the models of its parts, in order.
pub open spec fn field_model(f: Field) -> FieldView
    decreases f,
{
    FieldView {
        name: f.name@,
        alias: match f.alias {
            Some(a) => Some(a@),
            None => None,
        },
        args: Seq::new(f.args@.len(), |i: int| (f.args@[i].0@, f.args@[i].1@)),
        fields: Seq::new(
            f.fields@.len(),
            |i: int|
                if 0 <= i < f.fields@.len() {
                    field_model(f.fields@[i])
                } else {
                    FieldView {
                        name: Seq::empty(),
                        alias: None,
                        args: Seq::empty(),
                        fields: Seq::empty(),
                    }
                },
        ),
    }
}

impl View for Field {
    type V = FieldView;

    open spec fn view(&self) -> FieldView {
        field_model(*self)
    }
}

/// The models of `values`, in order.
pub open spec fn value_views(values: Seq<Value>) -> Seq<ValueView> {
    Seq::new(values.len(), |i: int| values[i]@)
}

/// The models of `args`, in order.
pub open spec fn arg_views(args: Seq<(Name, Value)>) -> Seq<(Seq<char>, ValueView)> {
    Seq::new(args.len(), |i: int| (args[i].0@, args[i].1@))
}

/// The models of `fields`, in order.
pub open spec fn field_views(fields: Seq<Field>) -> Seq<FieldView> {
    Seq::new(fields.len(), |i: int| fields[i]@)
}

/// The model of an array is made of the models of its items.
pub proof fn lemma_array_view(items: Vec<Value>)
    ensures
        Value::Array(items)@ == ValueView::Array(value_views(items@)),
{
    assert(Value::Array(items)@->Array_0 =~= value_views(items@));
}

/// The model of a field is made of the models of its parts.
pub proof fn lemma_field_view(f: Field)
    ensures
        f@.name == f.name@,
        f@.alias == match f.alias {
            Some(a) => Some(a@),
            None => None,
        },
        f@.args == arg_views(f.args@),
        f@.fields == field_views(f.fields@),
{
    assert(f@.args =~= arg_views(f.args@));
    assert(f@.fields =~= field_views(f.fields@));
}

/// A parsed operation.
#[derive(Debug, Eq)]
pub enum Operation {
    /// A query, with the one field at its root.
    Query(Field),
    /// A mutation. It is recognised and cannot be executed.
    Mutation,
}

/// The model of an [`Operation`].
pub enum OperationView {
    Query(FieldView),
    Mutation,
}

impl View for Operation {
    type V = OperationView;

    open spec fn view(&self) -> OperationView {
        match self {
            Operation::Query(f) => OperationView::Query(f@),
            Operation::Mutation => OperationView::Mutation,
        }
    }
}

/// What the embedding application supplies: it resolves the fields at the
/// root of a query, and it knows the schema that it serves.
pub trait Root: Resolve {
    /// The schema that roots of this type serve.
    fn schema() -> Schema;
}

/// A copy of `v`.
pub fn clone_value(v: &Value) -> (res: Value)
    ensures
        res@ == v@,
    decreases v,
{
    match v {
        Value::Null => Value::Null,
        Value::String(s) => Value::String(s.clone()),
        Value::Name(n) => Value::Name(n.clone()),
        Value::Array(items) => {
            let mut out: Vec<Value> = Vec::new();
            let mut i: usize = 0;
            while i < items.len()
                invariant
                    i <= items.len(),
                    *v == Value::Array(*items),
                    out@.len() == i,
                    forall|j: int| 0 <= j < i ==> (#[trigger] out@[j])@ == items@[j]@,
                decreases items.len() - i,
            {
                proof {
                    assert(decreases_to!(*v => v->Array_0));
                    assert(decreases_to!(v->Array_0 => v->Array_0[i as int]));
                }
                out.push(clone_value(&items[i]));
                i = i + 1;
            }
            proof {
                lemma_array_view(*items);
                lemma_array_view(out);
                assert(value_views(out@) =~= value_views(items@));
            }
            Value::Array(out)
        },
    }
}

/// A copy of `f`.
pub fn clone_field(f: &Field) -> (res: Field)
    ensures
        res@ == f@,
    decreases f,
{
    let alias = match &f.alias {
        Some(a) => Some(a.clone()),
        None => None,
    };
    let mut args: Vec<(Name, Value)> = Vec::new();
    let mut i: usize = 0;
    while i < f.args.len()
        invariant
            i <= f.args.len(),
            args@.len() == i,
            forall|j: int|
                0 <= j < i ==> (#[trigger] args@[j]).0@ == f.args@[j].0@ && args@[j].1@
                    == f.args@[j].1@,
        decreases f.args.len() - i,
    {
        args.push((f.args[i].0.clone(), clone_value(&f.args[i].1)));
        i = i + 1;
    }
    let mut fields: Vec<Field> = Vec::new();
    let mut k: usize = 0;
    while k < f.fields.len()
        invariant
            k <= f.fields.len(),
            fields@.len() == k,
            forall|j: int| 0 <= j < k ==> (#[trigger] fields@[j])@ == f.fields@[j]@,
        decreases f.fields.len() - k,
    {
        proof {
            assert(decreases_to!(*f => f.fields));
            assert(decreases_to!(f.fields => f.fields[k as int]));
        }
        fields.push(clone_field(&f.fields[k]));
        k = k + 1;
    }
    let res = Field { name: f.name.clone(), alias, args, fields };
    proof {
        lemma_field_view(res);
        lemma_field_view(*f);
        assert(arg_views(res.args@) =~= arg_views(f.args@));
        assert(field_views(res.fields@) =~= field_views(f.fields@));
    }
    res
}

impl Clone for Value {
    fn clone(&self) -> (res: Value)
        ensures
            res@ == self@,
    {
        clone_value(self)
    }
}

impl Clone for Field {
    fn clone(&self) -> (res: Field)
        ensures
            res@ == self@,
    {
        clone_field(self)
    }
}

impl Clone for Operation {
    fn clone(&self) -> (res: Operation)
        ensures
            res@ == self@,
    {
        match self {
            Operation::Query(f) => Operation::Query(clone_field(f)),
            Operation::Mutation => Operation::Mutation,
        }
    }
}

impl Operation {
    /// Parses source text into an operation.
    ///
    /// The result is the one that [`parse_source`] defines: the operation
    /// that the text spells, or the first error of the lexer or of the
    /// grammar, with its position.
    pub fn parse(input: &str) -> (res: QlResult<Operation>)
        ensures
            parsed_as(res, parse_source(input@)),
    {
        parse_query(input)
    }

    /// Checks the operation against `schema`.
    ///
    /// Succeeds exactly when [`validated`] finds no mismatch, and else
    /// fails with the first one.
    pub fn validate(&self, schema: &Schema) -> (res: QlResult<()>)
        ensures
            match validated(self@, *schema) {
                Ok(()) => res is Ok,
                Err(e) => res matches Err(x) && x@ == QlErrorView::ValidationError(e),
            },
    {
        validate_query(self, schema)
    }

    /// Runs a query: hands its root field, alone in a sequence, to `root`
    /// and returns what `root` makes of it, unchanged.
    ///
    /// A mutation cannot be executed.
    pub fn execute<R: Root>(&self, variables: Variables, _schema: &Schema, root: R) -> (res:
        QlResult<result::Value>)
        requires
            self is Query,
        ensures
            root.resolves(seq![self->Query_0@], res),
    {
        let _context = Context::new(variables, clone_field(self.get_field()));
        match self {
            Operation::Query(f) => {
                let fields = [clone_field(f)];
                assert(field_views(fields@) =~= seq![f@]);
                root.resolve(&fields)
            },
            Operation::Mutation => vstd::pervasive::unreached(),
        }
    }

    /// The root field of a query. A mutation has none.
    pub fn get_field(&self) -> (res: &Field)
        requires
            self is Query,
        ensures
            *res == self->Query_0,
    {
        match self {
            Operation::Query(f) => f,
            Operation::Mutation => vstd::pervasive::unreached(),
        }
    }
}

/// The names of `args`, in order.
pub open spec fn names_of(args: Seq<(Seq<char>, ValueView)>) -> Seq<Seq<char>> {
    Seq::new(args.len(), |i: int| args[i].0)
}

impl FieldView {
    /// The value of the first argument called `name`.
    pub open spec fn find_arg(self, name: Seq<char>) -> Option<ValueView> {
        match position(names_of(self.args), name, 0) {
            Some(i) => Some(self.args[i].1),
            None => None,
        }
    }
}

impl Field {
    /// The value of the first argument called `name`, scanning in source
    /// order. Later arguments of the same name are never seen.
    pub fn find_arg(&self, name: &Name) -> (res: Option<&Value>)
        ensures
            match position(names_of(self@.args), name@, 0) {
                Some(i) => res == Some(&self.args@[i].1),
                None => res is None,
            },
            match self@.find_arg(name@) {
                Some(value) => res matches Some(v) && v@ == value,
                None => res is None,
            },
    {
        let ghost names = names_of(self@.args);
        proof {
            lemma_field_view(*self);
        }
        let mut i: usize = 0;
        while i < self.args.len()
            invariant
                i <= self.args.len(),
                self@.args == arg_views(self.args@),
                names == names_of(self@.args),
                position(names, name@, 0) == position(names, name@, i as int),
            decreases self.args.len() - i,
        {
            if self.args[i].0 == *name {
                return Some(&self.args[i].1);
            }
            i = i + 1;
        }
        None
    }
}

/// The text that formatting with `{:?}` gives for a string of the
/// characters `s`: the string in double quotes, with the characters escaped
/// that std escapes.
pub uninterp spec fn str_debug(s: Seq<char>) -> Seq<char>;

/// Formats a string with `{:?}`, through the `Debug` impl of `str` of std.
/// The result is a function of the characters alone; it is known here only
/// by its name, [`str_debug`].
#[verifier::external_body]
fn debug_str(s: &str) -> (res: String)
    ensures
        res@ == str_debug(s@),
{
    format!("{:?}", s)
}

/// The texts `parts` from `from` on, with a comma and a space between them.
pub open spec fn joined(parts: Seq<Seq<char>>, from: int) -> Seq<char>
    decreases parts.len() - from,
{
    if 0 <= from < parts.len() {
        if from + 1 == parts.len() {
            parts[from]
        } else {
            parts[from] + ", "@ + joined(parts, from + 1)
        }
    } else {
        Seq::empty()
    }
}

/// The texts of `parts`, in order.
pub open spec fn texts_of(parts: Seq<String>) -> Seq<Seq<char>> {
    Seq::new(parts.len(), |i: int| parts[i]@)
}

/// Puts `inner` between `open` and `close`.
pub fn enclose(open: &str, inner: &str, close: &str) -> (res: String)
    ensures
        res@ == open@ + inner@ + close@,
{
    let mut res = String::from_str(open);
    res.append(inner);
    res.append(close);
    res
}

/// Joins `parts` with a comma and a space between them.
pub fn join(parts: &Vec<String>) -> (res: String)
    ensures
        res@ == joined(texts_of(parts@), 0),
{
    let ghost texts = texts_of(parts@);
    let mut res = String::new();
    let mut i: usize = 0;
    while i < parts.len()
        invariant
            i <= parts.len(),
            texts == texts_of(parts@),
            res@ + joined(texts, i as int) == joined(texts, 0),
        decreases parts.len() - i,
    {
        let ghost before = res@;
        res.append(parts[i].as_str());
        if i + 1 < parts.len() {
            res.append(", ");
        }
        assert(res@ + joined(texts, i + 1) =~= before + joined(texts, i as int));
        i = i + 1;
    }
    assert(res@ =~= res@ + joined(texts, i as int));
    res
}

impl ValueView {
    /// The text that formatting the value with `{:?}` gives: the name of
    /// the variant and, in round brackets, what it holds; the items of an
    /// array stand in square brackets with a comma and a space between
    /// them.
    pub open spec fn debug_text(self) -> Seq<char>
        decreases self, 0int,
    {
        match self {
            ValueView::Null => "Null"@,
            ValueView::String(s) => "String("@ + str_debug(s) + ")"@,
            ValueView::Name(n) => "Name(Name("@ + str_debug(n) + "))"@,
            ValueView::Array(items) => "Array(["@ + debug_texts(items, 0) + "])"@,
        }
    }
}

/// The texts of the items from `from` on, with a comma and a space between
/// them.
pub open spec fn debug_texts(items: Seq<ValueView>, from: int) -> Seq<char>
    decreases items, items.len() - from,
{
    if 0 <= from < items.len() {
        if from + 1 == items.len() {
            items[from].debug_text()
        } else {
            items[from].debug_text() + ", "@ + debug_texts(items, from + 1)
        }
    } else {
        Seq::empty()
    }
}

/// The texts of items are the texts of each, joined.
pub proof fn lemma_debug_texts(items: Seq<ValueView>, parts: Seq<Seq<char>>, from: int)
    requires
        parts.len() == items.len(),
        forall|i: int| 0 <= i < items.len() ==> #[trigger] parts[i] == items[i].debug_text(),
    ensures
        debug_texts(items, from) == joined(parts, from),
    decreases items.len() - from,
{
    if 0 <= from < items.len() && from + 1 < items.len() {
        lemma_debug_texts(items, parts, from + 1);
    }
}

impl Value {
    /// The text that formatting the value with `{:?}` gives.
    pub fn debug_text(&self) -> (res: String)
        ensures
            res@ == self@.debug_text(),
        decreases self,
    {
        match self {
            Value::Null => String::from_str("Null"),
            Value::String(s) => {
                let inner = debug_str(s.as_str());
                enclose("String(", inner.as_str(), ")")
            },
            Value::Name(n) => {
                let inner = debug_str(n.0.as_str());
                enclose("Name(Name(", inner.as_str(), "))")
            },
            Value::Array(items) => {
                let ghost models = value_views(items@);
                let mut parts: Vec<String> = Vec::new();
                let mut i: usize = 0;
                while i < items.len()
                    invariant
                        i <= items.len(),
                        *self == Value::Array(*items),
                        models == value_views(items@),
                        parts@.len() == i,
                        forall|j: int| 0 <= j < i ==> (#[trigger] parts@[j])@ == models[j].debug_text(),
                    decreases items.len() - i,
                {
                    proof {
                        assert(decreases_to!(*self => self->Array_0));
                        assert(decreases_to!(self->Array_0 => self->Array_0[i as int]));
                    }
                    parts.push(items[i].debug_text());
                    i = i + 1;
                }
                let inner = join(&parts);
                proof {
                    lemma_array_view(*items);
                    lemma_debug_texts(models, texts_of(parts@), 0);
                }
                enclose("Array([", inner.as_str(), "])")
            },
        }
    }
}

/// The error of a value that is not of the native type called `target`: it
/// holds the value as `{:?}` formats it, and the name of the type.
pub open spec fn mismatch(value: ValueView, target: Seq<char>) -> QlErrorView {
    QlErrorView::TranslationError(value.debug_text(), target)
}

/// Makes the error of a value that is not of the native type `target`.
pub fn translation_error(value: &Value, target: &str) -> (res: QlError)
    ensures
        res@ == mismatch(value@, target@),
{
    QlError::TranslationError(value.debug_text(), String::from_str(target))
}

/// The capability to be made from a literal of a query.
///
/// Any type may have it; the library gives it to strings, identifiers,
/// names, sequences and optional values.
pub trait FromValue: Sized {
    /// Whether `res` is an outcome that converting `value` may have. Every
    /// outcome is, unless the implementation says otherwise.
    open spec fn converts(value: ValueView, res: QlResult<Self>) -> bool {
        true
    }

    /// Converts `value`, or says why it cannot be converted.
    fn from(value: &Value) -> (res: QlResult<Self>)
        ensures
            Self::converts(value@, res),
    ;
}

/// Whether some conversion of `value` to `T` succeeds.
pub open spec fn accepted<T: FromValue>(value: ValueView) -> bool {
    exists|x: T| T::converts(value, Ok(x))
}

impl FromValue for String {
    /// A string literal converts to its text; nothing else converts.
    open spec fn converts(value: ValueView, res: QlResult<String>) -> bool {
        match value {
            ValueView::String(s) => res matches Ok(x) && x@ == s,
            _ => res matches Err(e) && e@ == mismatch(value, "String"@),
        }
    }

    fn from(value: &Value) -> (res: QlResult<String>) {
        match value {
            Value::String(s) => Ok(s.clone()),
            _ => Err(translation_error(value, "String")),
        }
    }
}

impl FromValue for Id {
    /// A name converts to the identifier of the same text; nothing else
    /// converts.
    open spec fn converts(value: ValueView, res: QlResult<Id>) -> bool {
        match value {
            ValueView::Name(n) => res matches Ok(x) && x@ == n,
            _ => res matches Err(e) && e@ == mismatch(value, "Id"@),
        }
    }

    fn from(value: &Value) -> (res: QlResult<Id>) {
        match value {
            Value::Name(n) => Ok(Id(n.0.clone())),
            _ => Err(translation_error(value, "Id")),
        }
    }
}

impl FromValue for Name {
    /// A name converts to itself; nothing else converts.
    open spec fn converts(value: ValueView, res: QlResult<Name>) -> bool {
        match value {
            ValueView::Name(n) => res matches Ok(x) && x@ == n,
            _ => res matches Err(e) && e@ == mismatch(value, "Name"@),
        }
    }

    fn from(value: &Value) -> (res: QlResult<Name>) {
        match value {
            Value::Name(n) => Ok(n.clone()),
            _ => Err(translation_error(value, "Name")),
        }
    }
}

impl<T: FromValue> FromValue for Vec<T> {
    /// An array converts item by item, in order. It fails with the error of
    /// its first item that fails, all items before that one having
    /// converted. Nothing but an array converts.
    open spec fn converts(value: ValueView, res: QlResult<Vec<T>>) -> bool {
        match value {
            ValueView::Array(items) => match res {
                Ok(out) => out@.len() == items.len() && forall|i: int|
                    0 <= i < items.len() ==> T::converts(#[trigger] items[i], Ok(out@[i])),
                Err(e) => exists|i: int|
                    0 <= i < items.len() && T::converts(#[trigger] items[i], Err(e)) && forall|
                        j: int,
                    |
                        0 <= j < i ==> accepted::<T>(#[trigger] items[j]),
            },
            _ => res matches Err(e) && e@ == mismatch(value, "Array"@),
        }
    }

    fn from(value: &Value) -> (res: QlResult<Vec<T>>) {
        match value {
            Value::Array(items) => {
                let ghost models = value_views(items@);
                proof {
                    lemma_array_view(*items);
                }
                let mut out: Vec<T> = Vec::new();
                let mut i: usize = 0;
                while i < items.len()
                    invariant
                        i <= items.len(),
                        out@.len() == i,
                        models == value_views(items@),
                        value@ == ValueView::Array(models),
                        forall|j: int| 0 <= j < i ==> T::converts(#[trigger] models[j], Ok(out@[j])),
                    decreases items.len() - i,
                {
                    match T::from(&items[i]) {
                        Ok(x) => {
                            out.push(x);
                        },
                        Err(e) => {
                            proof {
                                assert forall|j: int| 0 <= j < i implies accepted::<T>(
                                    #[trigger] models[j],
                                ) by {
                                    assert(T::converts(models[j], Ok(out@[j])));
                                }
                                assert(T::converts(models[i as int], Err(e)));
                            }
                            return Err(e);
                        },
                    }
                    i = i + 1;
                }
                Ok(out)
            },
            _ => Err(translation_error(value, "Array")),
        }
    }
}

impl<T: FromValue> FromValue for Option<T> {
    /// `null` converts to nothing. Any other value converts as `T` converts
    /// it, and fails as `T` fails on it.
    open spec fn converts(value: ValueView, res: QlResult<Option<T>>) -> bool {
        match value {
            ValueView::Null => res matches Ok(None),
            _ => match res {
                Ok(Some(x)) => T::converts(value, Ok(x)),
                Ok(None) => false,
                Err(e) => T::converts(value, Err(e)),
            },
        }
    }

    fn from(value: &Value) -> (res: QlResult<Option<T>>) {
        match value {
            Value::Null => Ok(None),
            _ => match T::from(value) {
                Ok(x) => Ok(Some(x)),
                Err(e) => Err(e),
            },
        }
    }
}


/// Whether no conversion of `value` to `T` fails.
pub open spec fn never_fails<T: FromValue>(value: ValueView) -> bool {
    forall|e: QlError| !#[trigger] T::converts(value, Err(e))
}

/// Whether every conversion of `value` to `T` fails with `e`.
pub open spec fn always_fails<T: FromValue>(value: ValueView, e: QlError) -> bool {
    forall|r: QlResult<T>| #[trigger] T::converts(value, r) ==> r == Err::<T, QlError>(e)
}

/// The first failure wins: where the items before `i` never fail and item
/// `i` always fails with `e`, converting the array fails with `e`,
/// whatever the items behind `i` are.
pub proof fn law_first_failure_wins<T: FromValue>(
    items: Seq<ValueView>,
    i: int,
    e: QlError,
    res: QlResult<Vec<T>>,
)
    requires
        0 <= i < items.len(),
        forall|j: int| 0 <= j < i ==> never_fails::<T>(#[trigger] items[j]),
        always_fails::<T>(items[i], e),
        Vec::<T>::converts(ValueView::Array(items), res),
    ensures
        res == Err::<Vec<T>, QlError>(e),
{
    match res {
        Ok(out) => {
            assert(T::converts(items[i], Ok(out@[i])));
        },
        Err(x) => {
            let k = choose|k: int|
                0 <= k < items.len() && T::converts(#[trigger] items[k], Err(x)) && forall|
                    j: int,
                |
                    0 <= j < k ==> accepted::<T>(#[trigger] items[j]);
            if k < i {
                assert(never_fails::<T>(items[k]));
            } else if k > i {
                assert(accepted::<T>(items[i]));
                let y = choose|y: T| T::converts(items[i], Ok(y));
                assert(T::converts(items[i], Ok(y)));
            }
        },
    }
}

/// Execution hands the resolver's result back unchanged: where `expected`
/// is the only outcome of resolving the root field alone, it is the
/// outcome of executing the query.
pub proof fn law_execute_hands_back<R: Root>(
    root: R,
    f: FieldView,
    expected: QlResult<result::Value>,
    res: QlResult<result::Value>,
)
    requires
        forall|r: QlResult<result::Value>| #[trigger] root.resolves(seq![f], r) ==> r == expected,
        root.resolves(seq![f], res),
    ensures
        res == expected,
{
}

} // verus!
