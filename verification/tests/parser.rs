use graphql::parser::lexer::{tokenise, LexError, LexErrorKind};
use graphql::parser::parse_base::{ParseError, ParseErrorKind};
use graphql::parser::token::{Position, TokenKind};
use graphql::types::query::{Field, Operation, Value};
use graphql::types::Name;
use graphql::QlError;

fn name(text: &str) -> Name {
    Name(text.to_string())
}

fn leaf(text: &str) -> Field {
    Field { name: name(text), alias: None, args: vec![], fields: vec![] }
}

fn parse_error(source: &str) -> ParseError {
    match Operation::parse(source) {
        Err(QlError::ParseError(e)) => e,
        _ => panic!("parse error expected"),
    }
}

fn lex_error(source: &str) -> LexError {
    match Operation::parse(source) {
        Err(QlError::LexError(e)) => e,
        _ => panic!("lex error expected"),
    }
}

#[test]
fn tokens_of_a_small_query() {
    let tokens = tokenise("query { human(id: \"10 02\") # who\n }").unwrap();
    let kinds: Vec<String> = tokens.iter().map(|t| format!("{:?}", t.kind)).collect();
    assert_eq!(
        kinds,
        vec![
            "Name(\"query\")",
            "LBrace",
            "Name(\"human\")",
            "LParen",
            "Name(\"id\")",
            "Colon",
            "Str(\"10 02\")",
            "RParen",
            "RBrace",
        ]
    );
    let offsets: Vec<usize> = tokens.iter().map(|t| t.offset).collect();
    assert_eq!(offsets, vec![0, 6, 8, 13, 14, 16, 18, 25, 34]);
}

#[test]
fn names_and_numbers_are_longest_runs() {
    let tokens = tokenise("ab_1 12ab").unwrap();
    assert_eq!(tokens.len(), 3);
    assert!(matches!(&tokens[0].kind, TokenKind::Name(s) if s == "ab_1"));
    assert!(matches!(&tokens[1].kind, TokenKind::Number(s) if s == "12"));
    assert!(matches!(&tokens[2].kind, TokenKind::Name(s) if s == "ab"));
}

#[test]
fn empty_source_has_no_tokens() {
    assert_eq!(tokenise("").unwrap().len(), 0);
    assert_eq!(tokenise(" \t\r\n# only a comment").unwrap().len(), 0);
}

#[test]
fn unexpected_character_is_located() {
    let e = lex_error("query {\n  a ? }");
    assert_eq!(e.kind, LexErrorKind::UnexpectedChar);
    assert_eq!(e.position, Position { offset: 12, line: 1, column: 4 });
}

#[test]
fn unterminated_string_is_located_at_its_quote() {
    let e = lex_error("query { a(b: \"xy) }");
    assert_eq!(e.kind, LexErrorKind::UnterminatedString);
    assert_eq!(e.position, Position { offset: 13, line: 0, column: 13 });
}

#[test]
fn offsets_count_bytes_and_columns_count_characters() {
    let source = "query { a(b: \"\u{e9}\u{e9}\") \u{e9} }";
    let e = lex_error(source);
    assert_eq!(e.kind, LexErrorKind::UnexpectedChar);
    assert_eq!(e.position, Position { offset: 21, line: 0, column: 19 });
    assert!(source[e.position.offset..].starts_with('\u{e9}'));
    let source = "query {\n  \u{20ac}(\"\u{1f600}\") }";
    let e = lex_error(source);
    assert_eq!(e.position, Position { offset: 10, line: 1, column: 2 });
    let source = "query {\n  a(\"\u{20ac}\u{1f600}\u{e9}z\") ; }";
    let e = lex_error(source);
    assert_eq!(e.position, Position { offset: 26, line: 1, column: 12 });
    assert!(source[e.position.offset..].starts_with(';'));
}

#[test]
fn parse_errors_are_located_in_bytes_too() {
    let source = "query { a(b: \"\u{1f600}\") { } }";
    let e = parse_error(source);
    assert_eq!(e.kind, ParseErrorKind::ExpectedName);
    assert_eq!(e.position, Position { offset: 23, line: 0, column: 20 });
    assert!(source[e.position.offset..].starts_with('}'));
    let source = "query { a(b: \"\u{e9}\")";
    let e = parse_error(source);
    assert_eq!(e.kind, ParseErrorKind::UnexpectedEnd);
    assert_eq!(e.position.offset, source.len());
}

#[test]
fn parse_keeps_shape_and_order() {
    let op = Operation::parse(
        "query { hero(episode: EMPIRE, first: 2) { name, friends(of: [\"a\", b]) { id name }, height } }",
    )
    .unwrap();
    let expected = Operation::Query(Field {
        name: name("hero"),
        alias: None,
        args: vec![
            (name("episode"), Value::Name(name("EMPIRE"))),
            (name("first"), Value::Name(name("2"))),
        ],
        fields: vec![
            leaf("name"),
            Field {
                name: name("friends"),
                alias: None,
                args: vec![(
                    name("of"),
                    Value::Array(vec![Value::String("a".to_string()), Value::Name(name("b"))]),
                )],
                fields: vec![leaf("id"), leaf("name")],
            },
            leaf("height"),
        ],
    });
    assert_eq!(op, expected);
}

#[test]
fn parse_values() {
    let op = Operation::parse("query { f(a: null, b: [], c: [[x] null \"s\",], 7) }").unwrap();
    let f = op.get_field();
    assert_eq!(
        f.args,
        vec![
            (name("a"), Value::Null),
            (name("b"), Value::Array(vec![])),
            (
                name("c"),
                Value::Array(vec![
                    Value::Array(vec![Value::Name(name("x"))]),
                    Value::Null,
                    Value::String("s".to_string()),
                ]),
            ),
            (name(""), Value::Name(name("7"))),
        ]
    );
}

#[test]
fn commas_are_optional_between_items() {
    let with = Operation::parse("query { a { b, c, d } }").unwrap();
    let without = Operation::parse("query{a{b\nc d}}").unwrap();
    let trailing = Operation::parse("query { a { b, c, d, }, }").unwrap();
    assert_eq!(with, without);
    assert_eq!(with, trailing);
}

#[test]
fn parsing_twice_gives_equal_operations() {
    let source = "query { human(202) { name, appearsIn } }";
    assert_eq!(Operation::parse(source).unwrap(), Operation::parse(source).unwrap());
}

#[test]
fn mutation_is_recognised() {
    assert_eq!(Operation::parse("mutation { like(story: 1) }").unwrap(), Operation::Mutation);
}

#[test]
fn source_must_start_with_an_operation() {
    let e = parse_error("");
    assert_eq!(e.kind, ParseErrorKind::ExpectedOperation);
    assert_eq!(e.position, Position { offset: 0, line: 0, column: 0 });
    assert_eq!(parse_error("{ a }").kind, ParseErrorKind::ExpectedOperation);
    assert_eq!(parse_error("subscription { a }").kind, ParseErrorKind::ExpectedOperation);
}

#[test]
fn selection_set_must_open() {
    let e = parse_error("query a");
    assert_eq!(e.kind, ParseErrorKind::ExpectedSelection);
    assert_eq!(e.position.offset, 6);
    assert_eq!(parse_error("query").kind, ParseErrorKind::UnexpectedEnd);
}

#[test]
fn unterminated_selection_set() {
    let e = parse_error("query {\n  a {\n    b\n");
    assert_eq!(e.kind, ParseErrorKind::UnexpectedEnd);
    assert_eq!(e.position, Position { offset: 20, line: 3, column: 0 });
}

#[test]
fn missing_field_name() {
    let e = parse_error("query { }");
    assert_eq!(e.kind, ParseErrorKind::ExpectedName);
    assert_eq!(e.position.offset, 8);
    assert_eq!(parse_error("query { a { , b } }").kind, ParseErrorKind::ExpectedName);
    assert_eq!(parse_error("query { 12 }").kind, ParseErrorKind::ExpectedName);
    assert_eq!(parse_error("query { a: b }").kind, ParseErrorKind::ExpectedName);
}

#[test]
fn malformed_argument_lists() {
    let e = parse_error("query { a() }");
    assert_eq!(e.kind, ParseErrorKind::ExpectedValue);
    assert_eq!(e.position.offset, 10);
    assert_eq!(parse_error("query { a(b: ) }").kind, ParseErrorKind::ExpectedValue);
    assert_eq!(parse_error("query { a(b: 1,, c: 2) }").kind, ParseErrorKind::ExpectedValue);
    assert_eq!(parse_error("query { a(b: 1").kind, ParseErrorKind::UnexpectedEnd);
    assert_eq!(parse_error("query { a(b: [1, 2) }").kind, ParseErrorKind::ExpectedValue);
}

#[test]
fn unrecognised_value_token() {
    let e = parse_error("query { a(b: {}) }");
    assert_eq!(e.kind, ParseErrorKind::ExpectedValue);
    assert_eq!(e.position.offset, 13);
}

#[test]
fn query_has_one_root_field() {
    let e = parse_error("query { a, b }");
    assert_eq!(e.kind, ParseErrorKind::SingleRoot);
    assert_eq!(e.position.offset, 6);
}

#[test]
fn nothing_follows_the_operation() {
    let e = parse_error("query { a } }");
    assert_eq!(e.kind, ParseErrorKind::TrailingInput);
    assert_eq!(e.position.offset, 12);
    assert_eq!(parse_error("mutation { a } query { b }").kind, ParseErrorKind::TrailingInput);
}

#[test]
fn messages_are_readable() {
    let e = parse_error("query { }");
    assert_eq!(e.message(), "expected a field name");
    let e = parse_error("query");
    assert_eq!(e.message(), "unexpected end of input");
    assert_eq!(parse_error("x").message(), "expected `query` or `mutation`");
    assert_eq!(parse_error("query x").message(), "expected `{`");
    assert_eq!(parse_error("query { a(:) }").message(), "expected a value");
    assert_eq!(parse_error("query { a b }").message(), "a query selects exactly one root field");
    assert_eq!(parse_error("query { a } b").message(), "unexpected input after the operation");
    assert_eq!(lex_error("query { a! }").message(), "unexpected character");
    assert_eq!(lex_error("query { a(\"b) }").message(), "unterminated string");
}

#[test]
fn comments_and_white_space_are_dropped() {
    let plain = Operation::parse("query { a(b: \"#x\") { c } }").unwrap();
    let spread = Operation::parse(
        "# leading\nquery\t{\r\n  a ( b : \"#x\" ) # trailing { ignored\n  { c }\n}\n# end",
    )
    .unwrap();
    assert_eq!(plain, spread);
    assert_eq!(
        plain.get_field().args,
        vec![(name("b"), Value::String("#x".to_string()))]
    );
}

#[test]
fn strings_may_span_lines() {
    let op = Operation::parse("query { a(b: \"x\ny\") }").unwrap();
    assert_eq!(op.get_field().args, vec![(name("b"), Value::String("x\ny".to_string()))]);
}

#[test]
fn null_is_a_value_only_where_a_value_stands() {
    let op = Operation::parse("query { null(null: null, nulls) }").unwrap();
    let f = op.get_field();
    assert_eq!(f.name, name("null"));
    assert_eq!(
        f.args,
        vec![(name("null"), Value::Null), (name(""), Value::Name(name("nulls")))]
    );
}

#[test]
fn locate_counts_bytes_lines_and_columns_from_zero() {
    let chars = graphql::parser::lexer::chars_of("ab\n\ncd\u{e9}f");
    assert_eq!(chars.len(), 8);
    let at = |offset: usize| graphql::parser::lexer::locate(&chars, offset);
    assert_eq!(at(0), Position { offset: 0, line: 0, column: 0 });
    assert_eq!(at(2), Position { offset: 2, line: 0, column: 2 });
    assert_eq!(at(3), Position { offset: 3, line: 1, column: 0 });
    assert_eq!(at(4), Position { offset: 4, line: 2, column: 0 });
    assert_eq!(at(6), Position { offset: 6, line: 2, column: 2 });
    assert_eq!(at(7), Position { offset: 8, line: 2, column: 3 });
    assert_eq!(at(8), Position { offset: 9, line: 2, column: 4 });
}

#[test]
fn deep_nesting_is_kept() {
    let op = Operation::parse("query { a { b { c { d(x: [[[1]]]) } } } }").unwrap();
    let d = &op.get_field().fields[0].fields[0].fields[0];
    assert_eq!(d.name, name("d"));
    assert_eq!(
        d.args[0].1,
        Value::Array(vec![Value::Array(vec![Value::Array(vec![Value::Name(name("1"))])])])
    );
}
