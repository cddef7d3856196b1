//! The errors of the library.

use vstd::prelude::*;
use crate::parser::lexer::LexError;
use crate::parser::parse_base::ParseError;
use crate::validation::{ValidationError, ValidationErrorView};

verus! {

/// Any failure of lexing, parsing, validation, conversion or execution.
#[derive(Debug)]
pub enum QlError {
    /// The source is not made of tokens.
    LexError(LexError),
    /// The tokens do not follow the grammar.
    ParseError(ParseError),
    /// The operation does not fit the schema.
    ValidationError(ValidationError),
    /// A literal is not of the native type that was asked for. Holds the
    /// literal, as `{:?}` formats it, and the name of the type.
    TranslationError(String, String),
    /// A resolver could not produce its data.
    ExecutionError(String),
}

/// The model of a [`QlError`].
pub enum QlErrorView {
    LexError(LexError),
    ParseError(ParseError),
    ValidationError(ValidationErrorView),
    TranslationError(Seq<char>, Seq<char>),
    ExecutionError(Seq<char>),
}

impl View for QlError {
    type V = QlErrorView;

    open spec fn view(&self) -> QlErrorView {
        match self {
            QlError::LexError(e) => QlErrorView::LexError(*e),
            QlError::ParseError(e) => QlErrorView::ParseError(*e),
            QlError::ValidationError(e) => QlErrorView::ValidationError(e@),
            QlError::TranslationError(literal, target) => QlErrorView::TranslationError(
                literal@,
                target@,
            ),
            QlError::ExecutionError(message) => QlErrorView::ExecutionError(message@),
        }
    }
}

pub type QlResult<T> = Result<T, QlError>;

} // verus!
