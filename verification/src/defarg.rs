//! Declarations of options for the strict parser.

pub mod arg;
pub mod atypes;
