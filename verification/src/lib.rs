//! Declaring command-line arguments and parsing a sequence of tokens into a
//! mapping from argument name to typed value.
//!
//! An [`Argument`] is declared with a kind, a name and any number of
//! invocators, and registered in a [`Parser`], which refuses a declaration
//! that shares an invocator with one it holds. [`Parser::parse_arguments`]
//! then reads a token sequence left to right, in one pass, and gives the
//! [`Value`] found for each argument, or the first error.
//!
//! - `argument`: declarations, their kinds and the forms of an invocator.
//! - `parsing`: the registry, negation, the meaning of a token sequence
//!   (`grammar`), the parser that computes it, and what holds of every
//!   registry and token sequence (`laws`). This parser is tolerant: a token
//!   it does not recognize is passed over.
//! - `defarg` and `parser`: a second, strict parser for options that have
//!   one short and one long form. Its values begin with no dash, and an
//!   option it does not know is an error.
//! - `text`: comparisons and slicing on strings.

pub mod argument;
pub mod defarg;
pub mod parser;
pub mod parsing;
pub mod text;

pub use argument::arguments::Argument;
pub use argument::types::ArgumentType;
pub use parsing::errors::{ParseError, RegistrationError};
pub use parsing::parsed_arguments::ParsedArguments;
pub use parsing::parser::Parser;
pub use parsing::values::Value;
