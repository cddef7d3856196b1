//! What the grammars share: the parse error and the rules on lists.
//!
//! In a bracketed list every item may be followed by one comma; commas are
//! never required, and an item is never empty.

use vstd::prelude::*;
use crate::parser::token::{Lexeme, Position, Token, TokenKind, kinds, token_is};

verus! {

/// What the parser found in place of what the grammar asks for.
#[derive(Clone, Copy, Debug, PartialEq, Eq, Structural)]
pub enum ParseErrorKind {
    /// The source does not start with `query` or `mutation`.
    ExpectedOperation,
    /// No `{` where a selection set has to start.
    ExpectedSelection,
    /// No name where a field has to start.
    ExpectedName,
    /// No literal where a value has to stand.
    ExpectedValue,
    /// The source ends inside an operation.
    UnexpectedEnd,
    /// A query does not select exactly one root field.
    SingleRoot,
    /// The source goes on behind the operation.
    TrailingInput,
}

/// A violation of the grammar, and where in the source it was found.
#[derive(Clone, Copy, Debug, PartialEq, Eq, Structural)]
pub struct ParseError {
    pub kind: ParseErrorKind,
    pub position: Position,
}

impl ParseErrorKind {
    /// The message of this kind of error.
    pub open spec fn text(self) -> Seq<char> {
        match self {
            ParseErrorKind::ExpectedOperation => "expected `query` or `mutation`"@,
            ParseErrorKind::ExpectedSelection => "expected `{`"@,
            ParseErrorKind::ExpectedName => "expected a field name"@,
            ParseErrorKind::ExpectedValue => "expected a value"@,
            ParseErrorKind::UnexpectedEnd => "unexpected end of input"@,
            ParseErrorKind::SingleRoot => "a query selects exactly one root field"@,
            ParseErrorKind::TrailingInput => "unexpected input after the operation"@,
        }
    }
}

impl ParseError {
    /// A message for people.
    pub fn message(&self) -> (res: String)
        ensures
            res@ == self.kind.text(),
    {
        match self.kind {
            ParseErrorKind::ExpectedOperation => String::from_str("expected `query` or `mutation`"),
            ParseErrorKind::ExpectedSelection => String::from_str("expected `{`"),
            ParseErrorKind::ExpectedName => String::from_str("expected a field name"),
            ParseErrorKind::ExpectedValue => String::from_str("expected a value"),
            ParseErrorKind::UnexpectedEnd => String::from_str("unexpected end of input"),
            ParseErrorKind::SingleRoot => String::from_str(
                "a query selects exactly one root field",
            ),
            ParseErrorKind::TrailingInput => String::from_str(
                "unexpected input after the operation",
            ),
        }
    }
}

/// How a step of the parser ends: with what it read and the place behind it,
/// or with an error and the index of the token it was found at (the number
/// of tokens, where the source ended too early).
pub type Step<T> = Result<(T, int), (ParseErrorKind, int)>;

/// The step that read `value` and ended before token `next`.
pub open spec fn read<T>(value: T, next: int) -> Step<T> {
    Ok((value, next))
}

/// Whether a step that started at token `p` of `len` ended within the
/// tokens: behind `p` if it read something, at or behind `p` if it failed.
pub open spec fn bounded<T>(step: Step<T>, p: int, len: int) -> bool {
    match step {
        Ok((_, next)) => p < next <= len,
        Err((_, at)) => p <= at <= len,
    }
}

/// The place behind the comma at `p`, or `p` itself if no comma stands there.
pub open spec fn skip_comma(ts: Seq<Lexeme>, p: int) -> int {
    if 0 <= p < ts.len() && ts[p] == Lexeme::Comma {
        p + 1
    } else {
        p
    }
}

/// `first` put in front of the items that `rest` read.
pub open spec fn prepend<T>(first: T, rest: Step<Seq<T>>) -> Step<Seq<T>> {
    match rest {
        Ok((items, next)) => Ok((seq![first] + items, next)),
        Err(e) => Err(e),
    }
}

/// `items` put in front of the items that `rest` read.
pub open spec fn extend<T>(items: Seq<T>, rest: Step<Seq<T>>) -> Step<Seq<T>> {
    match rest {
        Ok((more, next)) => Ok((items + more, next)),
        Err(e) => Err(e),
    }
}

/// Reading an item and then the rest is reading the rest behind one more
/// item.
pub proof fn lemma_extend_prepend<T>(items: Seq<T>, first: T, rest: Step<Seq<T>>)
    ensures
        extend(items, prepend(first, rest)) == extend(items.push(first), rest),
{
    match rest {
        Ok((more, _)) => {
            assert(items + (seq![first] + more) =~= items.push(first) + more);
        },
        Err(_) => {},
    }
}

pub proof fn lemma_extend_empty<T>(rest: Step<Seq<T>>)
    ensures
        extend(Seq::empty(), rest) == rest,
{
    match rest {
        Ok((more, _)) => {
            assert(Seq::<T>::empty() + more =~= more);
        },
        Err(_) => {},
    }
}


/// How a step of the executable parser ends.
pub type Parsed<T> = Result<(T, usize), (ParseErrorKind, usize)>;

/// Whether `res` is the outcome `step`, with `model` taking what was read
/// to its model.
pub open spec fn yields<T, V>(res: Parsed<T>, model: spec_fn(T) -> V, step: Step<V>) -> bool {
    match step {
        Ok((value, next)) => res matches Ok((x, n)) && model(x) == value && n == next,
        Err((kind, at)) => res matches Err((k, a)) && k == kind && a == at,
    }
}

/// Steps over the comma at `p`, if one stands there.
pub fn pass_comma(tokens: &Vec<Token>, p: usize) -> (next: usize)
    requires
        p <= tokens.len(),
    ensures
        next == skip_comma(kinds(tokens@), p as int),
        p <= next <= tokens.len(),
{
    if token_is(tokens, p, &TokenKind::Comma) {
        p + 1
    } else {
        p
    }
}

} // verus!
