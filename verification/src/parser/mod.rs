//! From source text to an operation tree: tokens, the lexer and the grammar.

pub mod lexer;
pub mod parse_base;
pub mod parse_query;
pub mod print;
pub mod source;
pub mod token;
