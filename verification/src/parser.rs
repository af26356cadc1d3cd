//! The strict parser: options with one short and one long form, values that
//! begin with no dash, and an error for any option it does not know.

pub mod argparser;
pub mod argvalues;
pub mod parsedargs;
pub mod rules;
