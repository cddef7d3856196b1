//! The grammar of the query language.
//!
//! ```text
//! operation := "query" selection | "mutation" selection
//! selection := "{" field+ "}"
//! field     := name [ "(" argument+ ")" ] [ selection ]
//! argument  := [ name ":" ] value
//! value     := "null" | string | name | number | "[" value* "]"
//! ```
//!
//! Every item of a list may be followed by one comma. An argument without a
//! name gets the empty name. A number is kept as a name. A query selects
//! exactly one root field.

use vstd::prelude::*;
use vstd::string::StringExecFns;
use crate::error::{QlError, QlErrorView, QlResult};
use crate::parser::lexer::{chars_of, lemma_lex_offsets, lex, locate, position_at, tokenise_chars};
use crate::parser::parse_base::ParseError;
use crate::parser::parse_base::{
    ParseErrorKind,
    Parsed,
    Step,
    bounded,
    extend,
    lemma_extend_empty,
    lemma_extend_prepend,
    pass_comma,
    prepend,
    skip_comma,
    yields,
};
use crate::parser::token::{Lexeme, Token, TokenKind, TokenView, kinds, lemma_kinds, lexemes, token_is, token_views};
use crate::types::Name;
use crate::types::query::{
    Field,
    FieldView,
    Operation,
    OperationView,
    Value,
    ValueView,
    arg_views,
    field_views,
    lemma_array_view,
    lemma_field_view,
    value_views,
};

verus! {

/// The value that starts at token `p`.
pub open spec fn value_at(ts: Seq<Lexeme>, p: int) -> Step<ValueView>
    decreases ts.len() - p, 0int,
{
    if 0 <= p < ts.len() {
        match ts[p] {
            Lexeme::Name(n) => if n == "null"@ {
                Ok((ValueView::Null, p + 1))
            } else {
                Ok((ValueView::Name(n), p + 1))
            },
            Lexeme::Number(n) => Ok((ValueView::Name(n), p + 1)),
            Lexeme::Str(s) => Ok((ValueView::String(s), p + 1)),
            Lexeme::LBracket => match values_at(ts, p + 1) {
                Ok((items, next)) => Ok((ValueView::Array(items), next)),
                Err(e) => Err(e),
            },
            _ => Err((ParseErrorKind::ExpectedValue, p)),
        }
    } else {
        Err((ParseErrorKind::UnexpectedEnd, p))
    }
}

/// The values from token `p` up to the `]` that closes their array.
pub open spec fn values_at(ts: Seq<Lexeme>, p: int) -> Step<Seq<ValueView>>
    decreases ts.len() - p, 1int,
{
    if 0 <= p < ts.len() {
        if ts[p] == Lexeme::RBracket {
            Ok((Seq::empty(), p + 1))
        } else {
            match value_at(ts, p) {
                Ok((first, next)) => if p < next <= ts.len() {
                    prepend(first, values_at(ts, skip_comma(ts, next)))
                } else {
                    // Never taken: a value holds at least one token.
                    Err((ParseErrorKind::ExpectedValue, p))
                },
                Err(e) => Err(e),
            }
        }
    } else {
        Err((ParseErrorKind::UnexpectedEnd, p))
    }
}

/// A value ends behind its start and within the tokens; an error lies at or
/// behind the start.
pub proof fn lemma_value_at(ts: Seq<Lexeme>, p: int)
    requires
        0 <= p <= ts.len(),
    ensures
        bounded(value_at(ts, p), p, ts.len() as int),
    decreases ts.len() - p, 0int,
{
    if p < ts.len() {
        if ts[p] is LBracket {
            lemma_values_at(ts, p + 1);
        }
    }
}

/// A list of values ends behind its start and within the tokens.
pub proof fn lemma_values_at(ts: Seq<Lexeme>, p: int)
    requires
        0 <= p <= ts.len(),
    ensures
        bounded(values_at(ts, p), p, ts.len() as int),
    decreases ts.len() - p, 1int,
{
    if p < ts.len() && ts[p] != Lexeme::RBracket {
        lemma_value_at(ts, p);
        if let Ok((_, next)) = value_at(ts, p) {
            lemma_values_at(ts, skip_comma(ts, next));
        }
    }
}

/// The argument that starts at token `p`: a name, a colon and a value, or a
/// value alone under the empty name.
pub open spec fn arg_at(ts: Seq<Lexeme>, p: int) -> Step<(Seq<char>, ValueView)> {
    if 0 <= p && p + 1 < ts.len() && ts[p] is Name && ts[p + 1] == Lexeme::Colon {
        match value_at(ts, p + 2) {
            Ok((value, next)) => Ok(((ts[p]->Name_0, value), next)),
            Err(e) => Err(e),
        }
    } else {
        match value_at(ts, p) {
            Ok((value, next)) => Ok(((Seq::empty(), value), next)),
            Err(e) => Err(e),
        }
    }
}

/// The arguments from token `p` up to the `)` that closes their list.
pub open spec fn args_at(ts: Seq<Lexeme>, p: int) -> Step<Seq<(Seq<char>, ValueView)>>
    decreases ts.len() - p,
{
    if 0 <= p < ts.len() {
        if ts[p] == Lexeme::RParen {
            Ok((Seq::empty(), p + 1))
        } else {
            match arg_at(ts, p) {
                Ok((first, next)) => {
                    proof {
                        lemma_arg_at(ts, p);
                    }
                    prepend(first, args_at(ts, skip_comma(ts, next)))
                },
                Err(e) => Err(e),
            }
        }
    } else {
        Err((ParseErrorKind::UnexpectedEnd, p))
    }
}

/// The arguments of a field whose name is the token before `p`: none if no
/// `(` stands at `p`, else at least one.
pub open spec fn arguments_at(ts: Seq<Lexeme>, p: int) -> Step<Seq<(Seq<char>, ValueView)>> {
    if 0 <= p < ts.len() && ts[p] == Lexeme::LParen {
        match args_at(ts, p + 1) {
            Ok((args, next)) => if args.len() == 0 {
                Err((ParseErrorKind::ExpectedValue, p + 1))
            } else {
                Ok((args, next))
            },
            Err(e) => Err(e),
        }
    } else {
        Ok((Seq::empty(), p))
    }
}

/// The field that starts at token `p`.
pub open spec fn field_at(ts: Seq<Lexeme>, p: int) -> Step<FieldView>
    decreases ts.len() - p, 0int,
{
    if 0 <= p < ts.len() {
        match ts[p] {
            Lexeme::Name(name) => match arguments_at(ts, p + 1) {
                Ok((args, next)) => if p < next < ts.len() && ts[next] == Lexeme::LBrace {
                    match selection_at(ts, next) {
                        Ok((fields, end)) => Ok((FieldView { name, alias: None, args, fields }, end)),
                        Err(e) => Err(e),
                    }
                } else {
                    Ok((FieldView { name, alias: None, args, fields: Seq::empty() }, next))
                },
                Err(e) => Err(e),
            },
            _ => Err((ParseErrorKind::ExpectedName, p)),
        }
    } else {
        Err((ParseErrorKind::UnexpectedEnd, p))
    }
}

/// The fields from token `p` up to the `}` that closes their selection set.
pub open spec fn fields_at(ts: Seq<Lexeme>, p: int) -> Step<Seq<FieldView>>
    decreases ts.len() - p, 1int,
{
    if 0 <= p < ts.len() {
        if ts[p] == Lexeme::RBrace {
            Ok((Seq::empty(), p + 1))
        } else {
            match field_at(ts, p) {
                Ok((first, next)) => if p < next <= ts.len() {
                    prepend(first, fields_at(ts, skip_comma(ts, next)))
                } else {
                    // Never taken: a field holds at least one token.
                    Err((ParseErrorKind::ExpectedName, p))
                },
                Err(e) => Err(e),
            }
        }
    } else {
        Err((ParseErrorKind::UnexpectedEnd, p))
    }
}

/// The selection set whose `{` is expected at token `p`: at least one field.
pub open spec fn selection_at(ts: Seq<Lexeme>, p: int) -> Step<Seq<FieldView>>
    decreases ts.len() - p, 2int,
{
    if 0 <= p < ts.len() {
        if ts[p] == Lexeme::LBrace {
            match fields_at(ts, p + 1) {
                Ok((fields, next)) => if fields.len() == 0 {
                    Err((ParseErrorKind::ExpectedName, p + 1))
                } else {
                    Ok((fields, next))
                },
                Err(e) => Err(e),
            }
        } else {
            Err((ParseErrorKind::ExpectedSelection, p))
        }
    } else {
        Err((ParseErrorKind::UnexpectedEnd, p))
    }
}

/// The operation that the tokens spell.
pub open spec fn operation_of(ts: Seq<Lexeme>) -> Result<OperationView, (ParseErrorKind, int)> {
    if ts.len() > 0 && ts[0] == Lexeme::Name("query"@) {
        match selection_at(ts, 1) {
            Ok((fields, next)) => if fields.len() != 1 {
                Err((ParseErrorKind::SingleRoot, 1))
            } else if next != ts.len() {
                Err((ParseErrorKind::TrailingInput, next))
            } else {
                Ok(OperationView::Query(fields[0]))
            },
            Err(e) => Err(e),
        }
    } else if ts.len() > 0 && ts[0] == Lexeme::Name("mutation"@) {
        match selection_at(ts, 1) {
            Ok((_, next)) => if next != ts.len() {
                Err((ParseErrorKind::TrailingInput, next))
            } else {
                Ok(OperationView::Mutation)
            },
            Err(e) => Err(e),
        }
    } else {
        Err((ParseErrorKind::ExpectedOperation, 0))
    }
}


/// Reads the value that starts at token `p`.
pub fn parse_value(tokens: &Vec<Token>, p: usize) -> (res: Parsed<Value>)
    requires
        p <= tokens.len(),
    ensures
        yields(res, |v: Value| v@, value_at(kinds(tokens@), p as int)),
    decreases tokens.len() - p, 0int,
{
    if p >= tokens.len() {
        return Err((ParseErrorKind::UnexpectedEnd, p));
    }
    match &tokens[p].kind {
        TokenKind::Name(n) => {
            if *n == String::from_str("null") {
                Ok((Value::Null, p + 1))
            } else {
                Ok((Value::Name(Name(n.clone())), p + 1))
            }
        },
        TokenKind::Number(n) => Ok((Value::Name(Name(n.clone())), p + 1)),
        TokenKind::Str(s) => Ok((Value::String(s.clone()), p + 1)),
        TokenKind::LBracket => match parse_values(tokens, p + 1) {
            Ok((items, next)) => {
                proof {
                    lemma_array_view(items);
                }
                Ok((Value::Array(items), next))
            },
            Err(e) => Err(e),
        },
        _ => Err((ParseErrorKind::ExpectedValue, p)),
    }
}

/// Reads the values from token `p` up to the `]` that closes their array.
pub fn parse_values(tokens: &Vec<Token>, p: usize) -> (res: Parsed<Vec<Value>>)
    requires
        p <= tokens.len(),
    ensures
        yields(res, |v: Vec<Value>| value_views(v@), values_at(kinds(tokens@), p as int)),
    decreases tokens.len() - p, 1int,
{
    let ghost ts = kinds(tokens@);
    let mut items: Vec<Value> = Vec::new();
    let mut i: usize = p;
    proof {
        assert(value_views(items@) =~= Seq::empty());
        lemma_extend_empty(values_at(ts, p as int));
    }
    loop
        invariant
            ts == kinds(tokens@),
            p <= i <= tokens.len(),
            values_at(ts, p as int) == extend(value_views(items@), values_at(ts, i as int)),
        decreases tokens.len() - i,
    {
        if i >= tokens.len() {
            return Err((ParseErrorKind::UnexpectedEnd, i));
        }
        if token_is(tokens, i, &TokenKind::RBracket) {
            assert(value_views(items@) + Seq::empty() =~= value_views(items@));
            return Ok((items, i + 1));
        }
        match parse_value(tokens, i) {
            Ok((first, next)) => {
                proof {
                    lemma_value_at(ts, i as int);
                    lemma_extend_prepend(
                        value_views(items@),
                        first@,
                        values_at(ts, skip_comma(ts, next as int)),
                    );
                    assert(value_views(items@.push(first)) =~= value_views(items@).push(first@));
                }
                items.push(first);
                i = pass_comma(tokens, next);
            },
            Err(e) => {
                return Err(e);
            },
        }
    }
}


/// An argument ends behind its start and within the tokens.
pub proof fn lemma_arg_at(ts: Seq<Lexeme>, p: int)
    requires
        0 <= p <= ts.len(),
    ensures
        bounded(arg_at(ts, p), p, ts.len() as int),
{
    lemma_value_at(ts, p);
    if p + 1 < ts.len() {
        lemma_value_at(ts, p + 2);
    }
}

/// A list of arguments ends behind its start and within the tokens.
pub proof fn lemma_args_at(ts: Seq<Lexeme>, p: int)
    requires
        0 <= p <= ts.len(),
    ensures
        bounded(args_at(ts, p), p, ts.len() as int),
    decreases ts.len() - p,
{
    if p < ts.len() && ts[p] != Lexeme::RParen {
        lemma_arg_at(ts, p);
        if let Ok((_, next)) = arg_at(ts, p) {
            lemma_args_at(ts, skip_comma(ts, next));
        }
    }
}

/// The arguments of a field end at or behind their start and within the
/// tokens.
pub proof fn lemma_arguments_at(ts: Seq<Lexeme>, p: int)
    requires
        0 <= p <= ts.len(),
    ensures
        match arguments_at(ts, p) {
            Ok((_, next)) => p <= next <= ts.len(),
            Err((_, at)) => p <= at <= ts.len(),
        },
{
    if p < ts.len() {
        lemma_args_at(ts, p + 1);
    }
}

/// A field ends behind its start and within the tokens.
pub proof fn lemma_field_at(ts: Seq<Lexeme>, p: int)
    requires
        0 <= p <= ts.len(),
    ensures
        bounded(field_at(ts, p), p, ts.len() as int),
    decreases ts.len() - p, 0int,
{
    if p < ts.len() && ts[p] is Name {
        lemma_arguments_at(ts, p + 1);
        if let Ok((_, next)) = arguments_at(ts, p + 1) {
            if next < ts.len() && ts[next] == Lexeme::LBrace {
                lemma_selection_at(ts, next);
            }
        }
    }
}

/// A list of fields ends behind its start and within the tokens.
pub proof fn lemma_fields_at(ts: Seq<Lexeme>, p: int)
    requires
        0 <= p <= ts.len(),
    ensures
        bounded(fields_at(ts, p), p, ts.len() as int),
    decreases ts.len() - p, 1int,
{
    if p < ts.len() && ts[p] != Lexeme::RBrace {
        lemma_field_at(ts, p);
        if let Ok((_, next)) = field_at(ts, p) {
            lemma_fields_at(ts, skip_comma(ts, next));
        }
    }
}

/// A selection set ends behind its start and within the tokens.
pub proof fn lemma_selection_at(ts: Seq<Lexeme>, p: int)
    requires
        0 <= p <= ts.len(),
    ensures
        bounded(selection_at(ts, p), p, ts.len() as int),
    decreases ts.len() - p, 2int,
{
    if p < ts.len() && ts[p] == Lexeme::LBrace {
        lemma_fields_at(ts, p + 1);
    }
}

/// Reads the argument that starts at token `p`.
pub fn parse_arg(tokens: &Vec<Token>, p: usize) -> (res: Parsed<(Name, Value)>)
    requires
        p <= tokens.len(),
    ensures
        yields(res, |a: (Name, Value)| (a.0@, a.1@), arg_at(kinds(tokens@), p as int)),
{
    if p < tokens.len() && token_is(tokens, p + 1, &TokenKind::Colon) {
        if let TokenKind::Name(n) = &tokens[p].kind {
            return match parse_value(tokens, p + 2) {
                Ok((value, next)) => Ok(((Name(n.clone()), value), next)),
                Err(e) => Err(e),
            };
        }
    }
    match parse_value(tokens, p) {
        Ok((value, next)) => Ok(((Name(String::new()), value), next)),
        Err(e) => Err(e),
    }
}

/// Reads the arguments from token `p` up to the `)` that closes their list.
pub fn parse_args(tokens: &Vec<Token>, p: usize) -> (res: Parsed<Vec<(Name, Value)>>)
    requires
        p <= tokens.len(),
    ensures
        yields(res, |v: Vec<(Name, Value)>| arg_views(v@), args_at(kinds(tokens@), p as int)),
{
    let ghost ts = kinds(tokens@);
    let mut items: Vec<(Name, Value)> = Vec::new();
    let mut i: usize = p;
    proof {
        assert(arg_views(items@) =~= Seq::empty());
        lemma_extend_empty(args_at(ts, p as int));
    }
    loop
        invariant
            ts == kinds(tokens@),
            p <= i <= tokens.len(),
            args_at(ts, p as int) == extend(arg_views(items@), args_at(ts, i as int)),
        decreases tokens.len() - i,
    {
        if i >= tokens.len() {
            return Err((ParseErrorKind::UnexpectedEnd, i));
        }
        if token_is(tokens, i, &TokenKind::RParen) {
            assert(arg_views(items@) + Seq::empty() =~= arg_views(items@));
            return Ok((items, i + 1));
        }
        match parse_arg(tokens, i) {
            Ok((first, next)) => {
                proof {
                    lemma_arg_at(ts, i as int);
                    lemma_extend_prepend(
                        arg_views(items@),
                        (first.0@, first.1@),
                        args_at(ts, skip_comma(ts, next as int)),
                    );
                    assert(arg_views(items@.push(first)) =~= arg_views(items@).push(
                        (first.0@, first.1@),
                    ));
                }
                items.push(first);
                i = pass_comma(tokens, next);
            },
            Err(e) => {
                return Err(e);
            },
        }
    }
}

/// Reads the arguments of a field whose name is the token before `p`.
pub fn parse_arguments(tokens: &Vec<Token>, p: usize) -> (res: Parsed<Vec<(Name, Value)>>)
    requires
        p <= tokens.len(),
    ensures
        yields(
            res,
            |v: Vec<(Name, Value)>| arg_views(v@),
            arguments_at(kinds(tokens@), p as int),
        ),
{
    if token_is(tokens, p, &TokenKind::LParen) {
        match parse_args(tokens, p + 1) {
            Ok((args, next)) => {
                if args.len() == 0 {
                    Err((ParseErrorKind::ExpectedValue, p + 1))
                } else {
                    Ok((args, next))
                }
            },
            Err(e) => Err(e),
        }
    } else {
        let args: Vec<(Name, Value)> = Vec::new();
        assert(arg_views(args@) =~= Seq::empty());
        Ok((args, p))
    }
}

/// Reads the field that starts at token `p`.
pub fn parse_field(tokens: &Vec<Token>, p: usize) -> (res: Parsed<Field>)
    requires
        p <= tokens.len(),
    ensures
        yields(res, |f: Field| f@, field_at(kinds(tokens@), p as int)),
    decreases tokens.len() - p, 0int,
{
    let ghost ts = kinds(tokens@);
    if p >= tokens.len() {
        return Err((ParseErrorKind::UnexpectedEnd, p));
    }
    match &tokens[p].kind {
        TokenKind::Name(n) => {
            let (args, next) = match parse_arguments(tokens, p + 1) {
                Ok(read) => read,
                Err(e) => {
                    return Err(e);
                },
            };
            proof {
                lemma_arguments_at(ts, p + 1);
            }
            if token_is(tokens, next, &TokenKind::LBrace) {
                match parse_selection(tokens, next) {
                    Ok((fields, end)) => {
                        let field = Field { name: Name(n.clone()), alias: None, args, fields };
                        proof {
                            lemma_field_view(field);
                        }
                        Ok((field, end))
                    },
                    Err(e) => Err(e),
                }
            } else {
                let field = Field { name: Name(n.clone()), alias: None, args, fields: Vec::new() };
                proof {
                    lemma_field_view(field);
                    assert(field_views(field.fields@) =~= Seq::empty());
                }
                Ok((field, next))
            }
        },
        _ => Err((ParseErrorKind::ExpectedName, p)),
    }
}

/// Reads the fields from token `p` up to the `}` that closes their
/// selection set.
pub fn parse_fields(tokens: &Vec<Token>, p: usize) -> (res: Parsed<Vec<Field>>)
    requires
        p <= tokens.len(),
    ensures
        yields(res, |v: Vec<Field>| field_views(v@), fields_at(kinds(tokens@), p as int)),
    decreases tokens.len() - p, 1int,
{
    let ghost ts = kinds(tokens@);
    let mut items: Vec<Field> = Vec::new();
    let mut i: usize = p;
    proof {
        assert(field_views(items@) =~= Seq::empty());
        lemma_extend_empty(fields_at(ts, p as int));
    }
    loop
        invariant
            ts == kinds(tokens@),
            p <= i <= tokens.len(),
            fields_at(ts, p as int) == extend(field_views(items@), fields_at(ts, i as int)),
        decreases tokens.len() - i,
    {
        if i >= tokens.len() {
            return Err((ParseErrorKind::UnexpectedEnd, i));
        }
        if token_is(tokens, i, &TokenKind::RBrace) {
            assert(field_views(items@) + Seq::empty() =~= field_views(items@));
            return Ok((items, i + 1));
        }
        match parse_field(tokens, i) {
            Ok((first, next)) => {
                proof {
                    lemma_field_at(ts, i as int);
                    lemma_extend_prepend(
                        field_views(items@),
                        first@,
                        fields_at(ts, skip_comma(ts, next as int)),
                    );
                    assert(field_views(items@.push(first)) =~= field_views(items@).push(first@));
                }
                items.push(first);
                i = pass_comma(tokens, next);
            },
            Err(e) => {
                return Err(e);
            },
        }
    }
}

/// Reads the selection set whose `{` is expected at token `p`.
pub fn parse_selection(tokens: &Vec<Token>, p: usize) -> (res: Parsed<Vec<Field>>)
    requires
        p <= tokens.len(),
    ensures
        yields(res, |v: Vec<Field>| field_views(v@), selection_at(kinds(tokens@), p as int)),
    decreases tokens.len() - p, 2int,
{
    if p >= tokens.len() {
        return Err((ParseErrorKind::UnexpectedEnd, p));
    }
    if !token_is(tokens, p, &TokenKind::LBrace) {
        return Err((ParseErrorKind::ExpectedSelection, p));
    }
    match parse_fields(tokens, p + 1) {
        Ok((fields, next)) => {
            if fields.len() == 0 {
                Err((ParseErrorKind::ExpectedName, p + 1))
            } else {
                Ok((fields, next))
            }
        },
        Err(e) => Err(e),
    }
}

/// Reads the operation that the tokens spell.
pub fn parse_operation(tokens: &Vec<Token>) -> (res: Result<Operation, (ParseErrorKind, usize)>)
    ensures
        match operation_of(kinds(tokens@)) {
            Ok(op) => res matches Ok(x) && x@ == op,
            Err((kind, at)) => res matches Err((k, a)) && k == kind && a == at && a
                <= tokens.len(),
        },
{
    let ghost ts = kinds(tokens@);
    proof {
        if ts.len() >= 1 {
            lemma_selection_at(ts, 1);
        }
    }
    if token_is(tokens, 0, &TokenKind::Name(String::from_str("query"))) {
        match parse_selection(tokens, 1) {
            Ok((mut fields, next)) => {
                if fields.len() != 1 {
                    Err((ParseErrorKind::SingleRoot, 1))
                } else if next != tokens.len() {
                    Err((ParseErrorKind::TrailingInput, next))
                } else {
                    let ghost before = fields@;
                    let root = fields.remove(0);
                    assert(root == before[0]);
                    Ok(Operation::Query(root))
                }
            },
            Err(e) => Err(e),
        }
    } else if token_is(tokens, 0, &TokenKind::Name(String::from_str("mutation"))) {
        match parse_selection(tokens, 1) {
            Ok((_, next)) => {
                if next != tokens.len() {
                    Err((ParseErrorKind::TrailingInput, next))
                } else {
                    Ok(Operation::Mutation)
                }
            },
            Err(e) => Err(e),
        }
    } else {
        Err((ParseErrorKind::ExpectedOperation, 0))
    }
}


/// The offset of token `at`, or `end` where there is no such token.
pub open spec fn offset_of(tokens: Seq<TokenView>, at: int, end: int) -> int {
    if 0 <= at < tokens.len() {
        tokens[at].offset
    } else {
        end
    }
}

/// What parsing the source text `s` gives: the operation it spells, or the
/// first error of the lexer or of the grammar, with its place in `s`.
pub open spec fn parse_source(s: Seq<char>) -> Result<OperationView, QlErrorView> {
    match lex(s) {
        Err(e) => Err(QlErrorView::LexError(e)),
        Ok(tokens) => match operation_of(lexemes(tokens)) {
            Ok(op) => Ok(op),
            Err((kind, at)) => Err(
                QlErrorView::ParseError(
                    ParseError { kind, position: position_at(s, offset_of(tokens, at, s.len() as int)) },
                ),
            ),
        },
    }
}

/// Whether `res` is the outcome `expected`, up to models.
pub open spec fn parsed_as(res: QlResult<Operation>, expected: Result<OperationView, QlErrorView>)
    -> bool {
    match expected {
        Ok(op) => res matches Ok(x) && x@ == op,
        Err(e) => res matches Err(x) && x@ == e,
    }
}

/// Parses source text into an operation.
///
/// The result is the one that [`parse_source`] defines: the operation, or
/// the first error with its position.
pub fn parse_query(input: &str) -> (res: QlResult<Operation>)
    ensures
        parsed_as(res, parse_source(input@)),
{
    let chars = chars_of(input);
    let tokens = match tokenise_chars(&chars) {
        Ok(tokens) => tokens,
        Err(e) => {
            return Err(QlError::LexError(e));
        },
    };
    proof {
        lemma_kinds(tokens@);
        lemma_lex_offsets(chars@, 0);
    }
    match parse_operation(&tokens) {
        Ok(op) => Ok(op),
        Err((kind, at)) => {
            let offset = if at < tokens.len() {
                tokens[at].offset
            } else {
                chars.len()
            };
            assert(offset == offset_of(token_views(tokens@), at as int, chars@.len() as int));
            Err(QlError::ParseError(ParseError { kind, position: locate(&chars, offset) }))
        },
    }
}

} // verus!
