//! Checking an operation against a schema.

use vstd::prelude::*;
use vstd::string::StringExecFns;
use crate::error::{QlError, QlErrorView, QlResult};
use crate::types::{Name, position};
use crate::types::query::{
    Field,
    FieldView,
    Operation,
    OperationView,
    Value,
    ValueView,
    arg_views,
    field_views,
    lemma_array_view,
    lemma_field_view,
    value_views,
};
use crate::types::schema::{FieldDef, Object, Schema, Type};

verus! {

/// How an operation can fail to fit a schema.
#[derive(Clone, Copy, Debug, PartialEq, Eq, Structural)]
pub enum ValidationErrorKind {
    /// The schema does not declare the type that a selection is made on.
    UnknownType,
    /// The type has no field of this name.
    UnknownField,
    /// The field declares no argument of this name.
    UnknownArgument,
    /// The argument's value is not of the declared type.
    ArgumentType,
    /// Fields are selected on something that is not an object.
    NotAnObject,
    /// An object is selected without any of its fields.
    MissingSelection,
}

/// A mismatch between an operation and a schema, with the name at which it
/// was found.
#[derive(Debug)]
pub struct ValidationError {
    pub kind: ValidationErrorKind,
    pub name: Name,
}

/// The model of a [`ValidationError`].
pub struct ValidationErrorView {
    pub kind: ValidationErrorKind,
    pub name: Seq<char>,
}

impl View for ValidationError {
    type V = ValidationErrorView;

    open spec fn view(&self) -> ValidationErrorView {
        ValidationErrorView { kind: self.kind, name: self.name@ }
    }
}


/// The names of the objects of `schema`, in order.
pub open spec fn object_names(schema: Schema) -> Seq<Seq<char>> {
    Seq::new(schema.objects@.len(), |i: int| schema.objects@[i].name@)
}

/// The names of the fields of `object`, in order.
pub open spec fn field_names(object: Object) -> Seq<Seq<char>> {
    Seq::new(object.fields@.len(), |i: int| object.fields@[i].name@)
}

/// The names of the arguments that `def` declares, in order.
pub open spec fn arg_names(def: FieldDef) -> Seq<Seq<char>> {
    Seq::new(def.args@.len(), |i: int| def.args@[i].0@)
}

/// The first object of `schema` called `name`.
pub open spec fn object_of(schema: Schema, name: Seq<char>) -> Option<Object> {
    match position(object_names(schema), name, 0) {
        Some(i) => Some(schema.objects@[i]),
        None => None,
    }
}

/// The first field of `object` called `name`.
pub open spec fn field_of(object: Object, name: Seq<char>) -> Option<FieldDef> {
    match position(field_names(object), name, 0) {
        Some(i) => Some(object.fields@[i]),
        None => None,
    }
}

/// The type of the first argument called `name` that `def` declares.
pub open spec fn arg_type_of(def: FieldDef, name: Seq<char>) -> Option<Type> {
    match position(arg_names(def), name, 0) {
        Some(i) => Some(def.args@[i].1),
        None => None,
    }
}

/// The name at the core of `ty`, under its lists and its marks of
/// non-nullness.
pub open spec fn base_name(ty: Type) -> Seq<char>
    decreases ty,
{
    match ty {
        Type::Named(n) => n@,
        Type::List(item) => base_name(*item),
        Type::NonNull(inner) => base_name(*inner),
    }
}

/// Whether the literal `value` is of type `ty`.
///
/// `null` is of every type that is not marked non-null. An array is of a
/// list type if its items are of the item type. A string is of the type
/// called `String`. A name is of any other named type that is not an object.
pub open spec fn fits(schema: Schema, value: ValueView, ty: Type) -> bool
    decreases ty,
{
    match ty {
        Type::NonNull(inner) => !(value is Null) && fits(schema, value, *inner),
        Type::List(item) => match value {
            ValueView::Null => true,
            ValueView::Array(items) => forall|i: int|
                0 <= i < items.len() ==> fits(schema, #[trigger] items[i], *item),
            _ => false,
        },
        Type::Named(n) => match value {
            ValueView::Null => true,
            ValueView::String(_) => n@ == "String"@,
            ValueView::Name(_) => n@ != "String"@ && object_of(schema, n@) is None,
            ValueView::Array(_) => false,
        },
    }
}

/// The outcome of a check: nothing, or the first mismatch.
pub type Checked = Result<(), ValidationErrorView>;

/// The check of the arguments from `from` on against what `def` declares:
/// each has to be declared and of its declared type.
pub open spec fn args_checked(
    schema: Schema,
    def: FieldDef,
    args: Seq<(Seq<char>, ValueView)>,
    from: int,
) -> Checked
    decreases args.len() - from,
{
    if 0 <= from < args.len() {
        let (name, value) = args[from];
        match arg_type_of(def, name) {
            None => Err(ValidationErrorView { kind: ValidationErrorKind::UnknownArgument, name }),
            Some(ty) => if fits(schema, value, ty) {
                args_checked(schema, def, args, from + 1)
            } else {
                Err(ValidationErrorView { kind: ValidationErrorKind::ArgumentType, name })
            },
        }
    } else {
        Ok(())
    }
}

/// The check of the field `f`, selected on the type called `on`: the type
/// is an object that has the field, the arguments are declared and of their
/// types, and fields are selected on it exactly if its type is an object at
/// the core, in which case they are checked against that object.
pub open spec fn field_checked(schema: Schema, on: Seq<char>, f: FieldView) -> Checked
    decreases f, 0int,
{
    match object_of(schema, on) {
        None => Err(ValidationErrorView { kind: ValidationErrorKind::UnknownType, name: on }),
        Some(object) => match field_of(object, f.name) {
            None => Err(
                ValidationErrorView { kind: ValidationErrorKind::UnknownField, name: f.name },
            ),
            Some(def) => match args_checked(schema, def, f.args, 0) {
                Err(e) => Err(e),
                Ok(()) => {
                    let target = base_name(def.ty);
                    if object_of(schema, target) is None {
                        if f.fields.len() == 0 {
                            Ok(())
                        } else {
                            Err(
                                ValidationErrorView {
                                    kind: ValidationErrorKind::NotAnObject,
                                    name: f.name,
                                },
                            )
                        }
                    } else if f.fields.len() == 0 {
                        Err(
                            ValidationErrorView {
                                kind: ValidationErrorKind::MissingSelection,
                                name: f.name,
                            },
                        )
                    } else {
                        fields_checked(schema, target, f.fields, 0)
                    }
                },
            },
        },
    }
}

/// The check of the fields from `from` on, all selected on the type called
/// `on`: the first mismatch, in source order.
pub open spec fn fields_checked(schema: Schema, on: Seq<char>, fields: Seq<FieldView>, from: int)
    -> Checked
    decreases fields, fields.len() - from,
{
    if 0 <= from < fields.len() {
        match field_checked(schema, on, fields[from]) {
            Err(e) => Err(e),
            Ok(()) => fields_checked(schema, on, fields, from + 1),
        }
    } else {
        Ok(())
    }
}

/// The check of an operation: the root field of a query is checked against
/// the query object of the schema; a mutation holds nothing to check.
pub open spec fn validated(op: OperationView, schema: Schema) -> Checked {
    match op {
        OperationView::Query(f) => field_checked(schema, schema.query@, f),
        OperationView::Mutation => Ok(()),
    }
}

/// Whether `res` is the outcome `expected`, up to models.
pub open spec fn checked_as(res: Result<(), ValidationError>, expected: Checked) -> bool {
    match expected {
        Ok(()) => res is Ok,
        Err(e) => res matches Err(x) && x@ == e,
    }
}

/// Finds the first object of `schema` called `name`.
pub fn find_object<'a>(schema: &'a Schema, name: &Name) -> (res: Option<&'a Object>)
    ensures
        match object_of(*schema, name@) {
            Some(object) => res matches Some(x) && *x == object,
            None => res is None,
        },
{
    let ghost names = object_names(*schema);
    let mut i: usize = 0;
    while i < schema.objects.len()
        invariant
            i <= schema.objects.len(),
            names == object_names(*schema),
            position(names, name@, 0) == position(names, name@, i as int),
        decreases schema.objects.len() - i,
    {
        if schema.objects[i].name == *name {
            return Some(&schema.objects[i]);
        }
        i = i + 1;
    }
    None
}

/// Finds the first field of `object` called `name`.
pub fn find_field<'a>(object: &'a Object, name: &Name) -> (res: Option<&'a FieldDef>)
    ensures
        match field_of(*object, name@) {
            Some(def) => res matches Some(x) && *x == def,
            None => res is None,
        },
{
    let ghost names = field_names(*object);
    let mut i: usize = 0;
    while i < object.fields.len()
        invariant
            i <= object.fields.len(),
            names == field_names(*object),
            position(names, name@, 0) == position(names, name@, i as int),
        decreases object.fields.len() - i,
    {
        if object.fields[i].name == *name {
            return Some(&object.fields[i]);
        }
        i = i + 1;
    }
    None
}

/// Finds the type of the first argument called `name` that `def` declares.
pub fn find_arg_type<'a>(def: &'a FieldDef, name: &Name) -> (res: Option<&'a Type>)
    ensures
        match arg_type_of(*def, name@) {
            Some(ty) => res matches Some(x) && *x == ty,
            None => res is None,
        },
{
    let ghost names = arg_names(*def);
    let mut i: usize = 0;
    while i < def.args.len()
        invariant
            i <= def.args.len(),
            names == arg_names(*def),
            position(names, name@, 0) == position(names, name@, i as int),
        decreases def.args.len() - i,
    {
        if def.args[i].0 == *name {
            return Some(&def.args[i].1);
        }
        i = i + 1;
    }
    None
}

/// The name at the core of `ty`.
pub fn base_of<'a>(ty: &'a Type) -> (res: &'a Name)
    ensures
        res@ == base_name(*ty),
    decreases ty,
{
    match ty {
        Type::Named(n) => n,
        Type::List(item) => base_of(item),
        Type::NonNull(inner) => base_of(inner),
    }
}

/// Decides whether the literal `value` is of type `ty`.
pub fn value_fits(schema: &Schema, value: &Value, ty: &Type) -> (res: bool)
    ensures
        res == fits(*schema, value@, *ty),
    decreases ty,
{
    match ty {
        Type::NonNull(inner) => match value {
            Value::Null => false,
            _ => value_fits(schema, value, inner),
        },
        Type::List(item) => match value {
            Value::Null => true,
            Value::Array(items) => {
                proof {
                    lemma_array_view(*items);
                }
                let ghost models = value_views(items@);
                let mut i: usize = 0;
                while i < items.len()
                    invariant
                        i <= items.len(),
                        models == value_views(items@),
                        value@ == ValueView::Array(models),
                        *ty == Type::List(*item),
                        forall|j: int| 0 <= j < i ==> fits(*schema, #[trigger] models[j], **item),
                    decreases items.len() - i,
                {
                    proof {
                        assert(decreases_to!(*ty => ty->List_0));
                    }
                    if !value_fits(schema, &items[i], item) {
                        assert(value@->Array_0[i as int] == models[i as int]);
                        return false;
                    }
                    i = i + 1;
                }
                true
            },
            _ => false,
        },
        Type::Named(n) => match value {
            Value::Null => true,
            Value::String(_) => n.0 == String::from_str("String"),
            Value::Name(_) => !(n.0 == String::from_str("String")) && find_object(
                schema,
                n,
            ).is_none(),
            Value::Array(_) => false,
        },
    }
}

/// Checks arguments against what `def` declares.
pub fn check_args(schema: &Schema, def: &FieldDef, args: &Vec<(Name, Value)>) -> (res: Result<
    (),
    ValidationError,
>)
    ensures
        checked_as(res, args_checked(*schema, *def, arg_views(args@), 0)),
{
    let ghost models = arg_views(args@);
    let mut i: usize = 0;
    while i < args.len()
        invariant
            i <= args.len(),
            models == arg_views(args@),
            args_checked(*schema, *def, models, 0) == args_checked(*schema, *def, models, i as int),
        decreases args.len() - i,
    {
        match find_arg_type(def, &args[i].0) {
            None => {
                return Err(
                    ValidationError {
                        kind: ValidationErrorKind::UnknownArgument,
                        name: args[i].0.clone(),
                    },
                );
            },
            Some(ty) => {
                if !value_fits(schema, &args[i].1, ty) {
                    return Err(
                        ValidationError {
                            kind: ValidationErrorKind::ArgumentType,
                            name: args[i].0.clone(),
                        },
                    );
                }
            },
        }
        i = i + 1;
    }
    Ok(())
}

/// Checks the field `f`, selected on the type called `on`.
pub fn check_field(schema: &Schema, on: &Name, f: &Field) -> (res: Result<(), ValidationError>)
    ensures
        checked_as(res, field_checked(*schema, on@, f@)),
    decreases f, 1int,
{
    proof {
        lemma_field_view(*f);
    }
    let object = match find_object(schema, on) {
        Some(object) => object,
        None => {
            return Err(
                ValidationError { kind: ValidationErrorKind::UnknownType, name: on.clone() },
            );
        },
    };
    let def = match find_field(object, &f.name) {
        Some(def) => def,
        None => {
            return Err(
                ValidationError { kind: ValidationErrorKind::UnknownField, name: f.name.clone() },
            );
        },
    };
    match check_args(schema, def, &f.args) {
        Err(e) => {
            return Err(e);
        },
        Ok(()) => {},
    }
    let target = base_of(&def.ty);
    if find_object(schema, target).is_none() {
        if f.fields.len() == 0 {
            Ok(())
        } else {
            Err(ValidationError { kind: ValidationErrorKind::NotAnObject, name: f.name.clone() })
        }
    } else if f.fields.len() == 0 {
        Err(ValidationError { kind: ValidationErrorKind::MissingSelection, name: f.name.clone() })
    } else {
        check_fields(schema, target, f)
    }
}

/// Checks the fields selected under `parent`, all on the type called `on`.
pub fn check_fields(schema: &Schema, on: &Name, parent: &Field) -> (res: Result<
    (),
    ValidationError,
>)
    ensures
        checked_as(res, fields_checked(*schema, on@, field_views(parent.fields@), 0)),
    decreases parent, 0int,
{
    let ghost models = field_views(parent.fields@);
    let mut i: usize = 0;
    while i < parent.fields.len()
        invariant
            i <= parent.fields.len(),
            models == field_views(parent.fields@),
            fields_checked(*schema, on@, models, 0) == fields_checked(
                *schema,
                on@,
                models,
                i as int,
            ),
        decreases parent.fields.len() - i,
    {
        proof {
            assert(decreases_to!(*parent => parent.fields));
            assert(decreases_to!(parent.fields => parent.fields[i as int]));
        }
        match check_field(schema, on, &parent.fields[i]) {
            Err(e) => {
                return Err(e);
            },
            Ok(()) => {},
        }
        i = i + 1;
    }
    Ok(())
}

/// Checks an operation against a schema.
///
/// Succeeds exactly when [`validated`] finds no mismatch, and else fails
/// with the first one. Neither the operation nor the schema is changed.
pub fn validate_query(op: &Operation, schema: &Schema) -> (res: QlResult<()>)
    ensures
        match validated(op@, *schema) {
            Ok(()) => res is Ok,
            Err(e) => res matches Err(x) && x@ == QlErrorView::ValidationError(e),
        },
{
    match op {
        Operation::Query(f) => match check_field(schema, &schema.query, f) {
            Ok(()) => Ok(()),
            Err(e) => Err(QlError::ValidationError(e)),
        },
        Operation::Mutation => Ok(()),
    }
}

} // verus!
