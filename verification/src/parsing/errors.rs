//! Why a registration or a parse fails.

use vstd::prelude::*;

verus! {

/// Why a declaration is not taken into the registry.
#[derive(Debug, Clone, Copy, PartialEq, Eq, Structural)]
pub enum RegistrationError {
    /// The declaration has no name.
    InvalidSpec,
    /// The name, an invocator or the negated form of an invocator belongs to
    /// a declaration registered before.
    DuplicateAlias,
}

/// Why a token sequence is not parsed.
#[derive(Debug, Clone, PartialEq, Eq)]
pub enum ParseError {
    /// A token is no argument and no argument takes it as a value. Only the
    /// strict parser reports it; the tolerant one passes such a token over.
    UnrecognizedToken,
    /// A negated token stands for an argument that is no flag.
    NegationOnNonFlag,
    /// An argument that takes one value is the last token, or is followed
    /// by an argument.
    MissingValue,
    /// A vector argument is the last token, or is followed by an argument.
    EmptyVector,
    /// A required argument was not given. Holds its identity: its first
    /// short and first long invocator joined by `/` where it has both, the one
    /// it has where it has one, its name where it has neither.
    MissingRequired(String),
}

/// A parse error as contracts see it.
pub enum ParseErrorView {
    UnrecognizedToken,
    NegationOnNonFlag,
    MissingValue,
    EmptyVector,
    MissingRequired(Seq<char>),
}

impl View for ParseError {
    type V = ParseErrorView;

    open spec fn view(&self) -> ParseErrorView {
        match self {
            ParseError::UnrecognizedToken => ParseErrorView::UnrecognizedToken,
            ParseError::NegationOnNonFlag => ParseErrorView::NegationOnNonFlag,
            ParseError::MissingValue => ParseErrorView::MissingValue,
            ParseError::EmptyVector => ParseErrorView::EmptyVector,
            ParseError::MissingRequired(identity) => ParseErrorView::MissingRequired(identity@),
        }
    }
}

} // verus!
