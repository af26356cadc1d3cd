//! Declarations of arguments.

pub mod arguments;
pub mod invocators;
pub mod types;
