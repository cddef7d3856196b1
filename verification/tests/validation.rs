use graphql::types::query::Operation;
use graphql::types::schema::{FieldDef, Object, Schema, Type};
use graphql::types::Name;
use graphql::validation::{ValidationError, ValidationErrorKind};
use graphql::QlError;

fn name(text: &str) -> Name {
    Name(text.to_string())
}

fn named(text: &str) -> Type {
    Type::Named(name(text))
}

fn star_wars() -> Schema {
    Schema {
        query: name("Query"),
        objects: vec![
            Object {
                name: name("Query"),
                fields: vec![
                    FieldDef {
                        name: name("human"),
                        args: vec![(name("id"), Type::NonNull(Box::new(named("ID"))))],
                        ty: named("Human"),
                    },
                    FieldDef {
                        name: name("search"),
                        args: vec![
                            (name("text"), named("String")),
                            (name("episodes"), Type::List(Box::new(named("Episode")))),
                        ],
                        ty: Type::NonNull(Box::new(Type::List(Box::new(named("Human"))))),
                    },
                    FieldDef { name: name("version"), args: vec![], ty: named("String") },
                ],
            },
            Object {
                name: name("Human"),
                fields: vec![
                    FieldDef { name: name("name"), args: vec![], ty: named("String") },
                    FieldDef {
                        name: name("appearsIn"),
                        args: vec![],
                        ty: Type::List(Box::new(named("Episode"))),
                    },
                    FieldDef {
                        name: name("friends"),
                        args: vec![],
                        ty: Type::List(Box::new(named("Human"))),
                    },
                ],
            },
        ],
    }
}

fn check(source: &str) -> Result<(), ValidationError> {
    match Operation::parse(source).unwrap().validate(&star_wars()) {
        Ok(()) => Ok(()),
        Err(QlError::ValidationError(e)) => Err(e),
        Err(_) => panic!("validation error expected"),
    }
}

fn mismatch(source: &str) -> (ValidationErrorKind, String) {
    let e = check(source).unwrap_err();
    (e.kind, e.name.0)
}

#[test]
fn valid_queries_pass() {
    assert!(check("query { human(id: 1002) { name, appearsIn, friends { name } } }").is_ok());
    assert!(check("query { search(text: \"Luke\", episodes: [EMPIRE, JEDI]) { name } }").is_ok());
    assert!(check("query { search(text: null, episodes: null) { name } }").is_ok());
    assert!(check("query { version }").is_ok());
    assert!(check("query { human { name } }").is_ok());
}

#[test]
fn mutation_holds_nothing_to_check() {
    assert!(check("mutation { anything(at: all) }").is_ok());
}

#[test]
fn unknown_root_type() {
    let schema = Schema { query: name("Query"), objects: vec![] };
    let op = Operation::parse("query { a }").unwrap();
    match op.validate(&schema) {
        Err(QlError::ValidationError(e)) => {
            assert_eq!(e.kind, ValidationErrorKind::UnknownType);
            assert_eq!(e.name, name("Query"));
        },
        _ => panic!("validation error expected"),
    }
}

#[test]
fn unknown_field() {
    assert_eq!(
        mismatch("query { droid { name } }"),
        (ValidationErrorKind::UnknownField, "droid".to_string())
    );
    assert_eq!(
        mismatch("query { human(id: 1) { name, height } }"),
        (ValidationErrorKind::UnknownField, "height".to_string())
    );
}

#[test]
fn unknown_argument() {
    assert_eq!(
        mismatch("query { human(id: 1, name: \"x\") { name } }"),
        (ValidationErrorKind::UnknownArgument, "name".to_string())
    );
    assert_eq!(
        mismatch("query { human(202) { name } }"),
        (ValidationErrorKind::UnknownArgument, "".to_string())
    );
}

#[test]
fn argument_of_wrong_type() {
    assert_eq!(
        mismatch("query { human(id: \"1002\") { name } }"),
        (ValidationErrorKind::ArgumentType, "id".to_string())
    );
    assert_eq!(
        mismatch("query { human(id: null) { name } }"),
        (ValidationErrorKind::ArgumentType, "id".to_string())
    );
    assert_eq!(
        mismatch("query { search(text: Luke) { name } }"),
        (ValidationErrorKind::ArgumentType, "text".to_string())
    );
    assert_eq!(
        mismatch("query { search(episodes: [EMPIRE, \"JEDI\"]) { name } }"),
        (ValidationErrorKind::ArgumentType, "episodes".to_string())
    );
    assert_eq!(
        mismatch("query { search(episodes: EMPIRE) { name } }"),
        (ValidationErrorKind::ArgumentType, "episodes".to_string())
    );
}

#[test]
fn nesting_follows_the_types() {
    assert_eq!(
        mismatch("query { version { major } }"),
        (ValidationErrorKind::NotAnObject, "version".to_string())
    );
    assert_eq!(
        mismatch("query { human(id: 1) }"),
        (ValidationErrorKind::MissingSelection, "human".to_string())
    );
    assert_eq!(
        mismatch("query { human(id: 1) { friends } }"),
        (ValidationErrorKind::MissingSelection, "friends".to_string())
    );
}

#[test]
fn first_mismatch_in_source_order_wins() {
    assert_eq!(
        mismatch("query { human(id: 1) { friends { nope }, alsoNope } }"),
        (ValidationErrorKind::UnknownField, "nope".to_string())
    );
    assert_eq!(
        mismatch("query { human(x: 1, id: \"s\") { nope } }"),
        (ValidationErrorKind::UnknownArgument, "x".to_string())
    );
}

#[test]
fn first_declaration_of_a_name_counts() {
    let mut schema = star_wars();
    schema.objects.push(Object {
        name: name("Query"),
        fields: vec![FieldDef { name: name("later"), args: vec![], ty: named("String") }],
    });
    let op = Operation::parse("query { later }").unwrap();
    match op.validate(&schema) {
        Err(QlError::ValidationError(e)) => {
            assert_eq!(e.kind, ValidationErrorKind::UnknownField);
            assert_eq!(e.name, name("later"));
        },
        _ => panic!("validation error expected"),
    }
    assert!(Operation::parse("query { version }").unwrap().validate(&schema).is_ok());
}
