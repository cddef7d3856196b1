//! Front end and execution core of a small declarative query language.
//!
//! Source text is split into tokens and parsed into an
//! [`types::query::Operation`]; the operation is checked against a
//! [`types::schema::Schema`]; and it is executed by handing its root field to
//! a resolver that the application supplies, which produces a
//! [`types::result::Value`]. Resolvers turn the literals of a query into
//! native values through [`types::query::FromValue`].
//!
//! Every function states what it returns over a model of its arguments, and
//! the statement is proved. The grammar is the one that
//! [`parser::parse_query::parse_source`] defines; that parsing the text of a
//! query gives the query back is proved in [`parser::source`].

pub mod error;
pub mod execution;
pub mod parser;
pub mod types;
pub mod validation;

pub use crate::error::{QlError, QlResult};
