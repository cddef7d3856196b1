use graphql::types::query::{enclose, join, Field, FromValue, Operation, Root, Value, Variables};
use graphql::types::result;
use graphql::types::result::Resolve;
use graphql::types::schema::Schema;
use graphql::types::{Id, Name};
use graphql::{QlError, QlResult};

fn name(text: &str) -> Name {
    Name(text.to_string())
}

fn leaf(text: &str) -> Field {
    Field { name: name(text), alias: None, args: vec![], fields: vec![] }
}

fn rejection<T>(res: QlResult<T>) -> (String, String) {
    match res {
        Err(QlError::TranslationError(literal, target)) => (literal, target),
        _ => panic!("translation error expected"),
    }
}

fn empty_schema() -> Schema {
    Schema { query: name("Query"), objects: vec![] }
}

struct StarWars;

impl Resolve for StarWars {
    fn resolve(&self, fields: &[Field]) -> QlResult<result::Value> {
        if fields.len() == 1 && fields[0].name == name("human") {
            Ok(result::Value::Object(vec![
                (name("name"), result::Value::String("Luke".to_string())),
                (
                    name("appearsIn"),
                    result::Value::Array(vec![result::Value::String("A_NEW_HOPE".to_string())]),
                ),
            ]))
        } else {
            Err(QlError::ExecutionError("no such field".to_string()))
        }
    }
}

impl Root for StarWars {
    fn schema() -> Schema {
        empty_schema()
    }
}

#[test]
fn find_arg_takes_first_match() {
    let f = Field {
        name: name("f"),
        alias: None,
        args: vec![
            (name("a"), Value::String("x".to_string())),
            (name("a"), Value::String("y".to_string())),
            (name("b"), Value::Null),
        ],
        fields: vec![],
    };
    assert_eq!(f.find_arg(&name("a")), Some(&Value::String("x".to_string())));
    assert_eq!(f.find_arg(&name("b")), Some(&Value::Null));
    assert_eq!(f.find_arg(&name("c")), None);
}

#[test]
fn find_arg_on_no_arguments() {
    assert_eq!(leaf("f").find_arg(&name("a")), None);
}

#[test]
fn end_to_end_human_query() {
    let op = Operation::parse("query { human(202) { name, appearsIn } }").unwrap();
    let expected = Operation::Query(Field {
        name: name("human"),
        alias: None,
        args: vec![(name(""), Value::Name(name("202")))],
        fields: vec![leaf("name"), leaf("appearsIn")],
    });
    assert_eq!(op, expected);
    let res = op.execute(Variables::new(), &StarWars::schema(), StarWars).unwrap();
    let luke = result::Value::Object(vec![
        (name("name"), result::Value::String("Luke".to_string())),
        (
            name("appearsIn"),
            result::Value::Array(vec![result::Value::String("A_NEW_HOPE".to_string())]),
        ),
    ]);
    assert_eq!(res, luke);
}

#[test]
fn execute_hands_over_the_root_field_alone() {
    let op = Operation::parse("query { droid }").unwrap();
    let res = op.execute(Variables::new(), &empty_schema(), StarWars);
    match res {
        Err(QlError::ExecutionError(message)) => assert_eq!(message, "no such field"),
        _ => panic!("the resolver's error expected"),
    }
}

#[test]
fn get_field_gives_the_root() {
    let op = Operation::Query(leaf("hero"));
    assert_eq!(op.get_field(), &leaf("hero"));
}

#[test]
fn string_converts_only_from_string() {
    let ok: QlResult<String> = FromValue::from(&Value::String("x".to_string()));
    assert_eq!(ok.unwrap(), "x");
    let bad: QlResult<String> = FromValue::from(&Value::Name(name("x")));
    assert_eq!(rejection(bad), ("Name(Name(\"x\"))".to_string(), "String".to_string()));
    let bad: QlResult<String> = FromValue::from(&Value::Null);
    assert_eq!(rejection(bad), ("Null".to_string(), "String".to_string()));
}

#[test]
fn id_and_name_convert_only_from_name() {
    let id: QlResult<Id> = FromValue::from(&Value::Name(name("1002")));
    assert_eq!(id.unwrap(), Id("1002".to_string()));
    let n: QlResult<Name> = FromValue::from(&Value::Name(name("JEDI")));
    assert_eq!(n.unwrap(), name("JEDI"));
    let bad: QlResult<Id> = FromValue::from(&Value::Null);
    assert_eq!(rejection(bad), ("Null".to_string(), "Id".to_string()));
    let bad: QlResult<Id> = FromValue::from(&Value::String("202".to_string()));
    assert_eq!(rejection(bad), ("String(\"202\")".to_string(), "Id".to_string()));
    let bad: QlResult<Id> = FromValue::from(&Value::Array(vec![]));
    assert_eq!(rejection(bad), ("Array([])".to_string(), "Id".to_string()));
    let bad: QlResult<Name> = FromValue::from(&Value::String("x".to_string()));
    assert_eq!(rejection(bad), ("String(\"x\")".to_string(), "Name".to_string()));
}

#[test]
fn array_conversion_stops_at_first_bad_element() {
    let v = Value::Array(vec![
        Value::Name(name("ok")),
        Value::String("bad".to_string()),
        Value::Null,
    ]);
    let res: QlResult<Vec<Id>> = FromValue::from(&v);
    assert_eq!(rejection(res), ("String(\"bad\")".to_string(), "Id".to_string()));
    let two = Value::Array(vec![Value::Name(name("ok")), Value::String("bad".to_string())]);
    let res: QlResult<Vec<Id>> = FromValue::from(&two);
    assert_eq!(rejection(res), ("String(\"bad\")".to_string(), "Id".to_string()));
}

#[test]
fn array_conversion_keeps_order() {
    let v = Value::Array(vec![Value::Name(name("a")), Value::Name(name("b"))]);
    let res: QlResult<Vec<Name>> = FromValue::from(&v);
    assert_eq!(res.unwrap(), vec![name("a"), name("b")]);
    let empty: QlResult<Vec<Name>> = FromValue::from(&Value::Array(vec![]));
    assert_eq!(empty.unwrap(), Vec::<Name>::new());
}

#[test]
fn array_conversion_refuses_what_is_no_array() {
    let res: QlResult<Vec<String>> = FromValue::from(&Value::String("x".to_string()));
    assert_eq!(rejection(res), ("String(\"x\")".to_string(), "Array".to_string()));
    let res: QlResult<Vec<String>> = FromValue::from(&Value::Null);
    assert_eq!(rejection(res), ("Null".to_string(), "Array".to_string()));
}

#[test]
fn nullable_conversion() {
    let absent: QlResult<Option<String>> = FromValue::from(&Value::Null);
    assert_eq!(absent.unwrap(), None);
    let present: QlResult<Option<String>> = FromValue::from(&Value::String("x".to_string()));
    assert_eq!(present.unwrap(), Some("x".to_string()));
    let v = Value::Name(name("x"));
    let bad: QlResult<Option<String>> = FromValue::from(&v);
    assert_eq!(rejection(bad), (format!("{:?}", v), "String".to_string()));
    let nested = Value::Array(vec![Value::Name(name("a")), Value::Null]);
    let bad: QlResult<Option<Vec<Id>>> = FromValue::from(&nested);
    assert_eq!(rejection(bad), ("Null".to_string(), "Id".to_string()));
}

#[test]
fn debug_text_of_nested_arrays() {
    let v = Value::Array(vec![
        Value::Null,
        Value::Array(vec![Value::String("a b".to_string()), Value::Name(name("RED"))]),
        Value::Array(vec![]),
    ]);
    assert_eq!(
        v.debug_text(),
        "Array([Null, Array([String(\"a b\"), Name(Name(\"RED\"))]), Array([])])"
    );
    assert_eq!(v.debug_text(), format!("{:?}", v));
}

#[test]
fn debug_text_escapes_as_std_does() {
    let v = Value::Array(vec![
        Value::String("say \"hi\"\n\tnow \\ \u{e9}\u{301}\u{0}".to_string()),
        Value::Name(name("")),
    ]);
    assert_eq!(v.debug_text(), format!("{:?}", v));
    let bad: QlResult<Id> = FromValue::from(&Value::String("a\"b".to_string()));
    assert_eq!(rejection(bad), ("String(\"a\\\"b\")".to_string(), "Id".to_string()));
}

struct Episode(u8);

impl FromValue for Episode {
    fn from(value: &Value) -> QlResult<Episode> {
        match value {
            Value::Name(n) if n.0 == "NEW_HOPE" => Ok(Episode(4)),
            Value::Name(n) if n.0 == "EMPIRE" => Ok(Episode(5)),
            _ => Err(QlError::TranslationError(value.debug_text(), "Episode".to_string())),
        }
    }
}

#[test]
fn conversion_is_open_to_new_types() {
    let v = Value::Array(vec![Value::Name(name("EMPIRE")), Value::Name(name("NEW_HOPE"))]);
    let res: QlResult<Vec<Episode>> = FromValue::from(&v);
    let episodes = res.unwrap();
    assert_eq!(episodes.len(), 2);
    assert_eq!(episodes[0].0, 5);
    assert_eq!(episodes[1].0, 4);
    let res: QlResult<Option<Episode>> = FromValue::from(&Value::Name(name("JEDI")));
    assert!(res.is_err());
}

#[test]
fn clones_are_equal() {
    let op = Operation::parse("query { a(x: [1, \"s\", null]) { b { c } } }").unwrap();
    assert_eq!(op.clone(), op);
    assert_ne!(op, Operation::Mutation);
}

#[test]
fn context_keeps_what_it_is_given() {
    let mut variables = Variables::new();
    variables.insert("id".to_string(), Value::Name(name("1002")));
    let context = graphql::execution::Context::new(variables, leaf("human"));
    assert_eq!(context.field, leaf("human"));
    assert_eq!(context.variables.get("id"), Some(&Value::Name(name("1002"))));
    assert_eq!(context.variables.len(), 1);
}

#[test]
fn names_compare_by_text() {
    assert_eq!(name("a"), name("a"));
    assert_ne!(name("a"), name("b"));
    assert!(name("a") < name("b"));
    assert_eq!(Id("7".to_string()).clone(), Id("7".to_string()));
}

#[test]
fn enclose_and_join_on_given_texts() {
    assert_eq!(enclose("String(", "\"a\"", ")"), "String(\"a\")");
    assert_eq!(enclose("", "", ""), "");
    assert_eq!(join(&vec![]), "");
    assert_eq!(join(&vec!["a".to_string()]), "a");
    assert_eq!(join(&vec!["a".to_string(), "".to_string(), "c".to_string()]), "a, , c");
}
