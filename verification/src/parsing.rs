//! The registry of declared arguments and the walk over the tokens.

pub mod errors;
pub mod grammar;
pub mod laws;
pub mod negation;
pub mod parsed_arguments;
pub mod parser;
pub mod registry;
pub mod values;
