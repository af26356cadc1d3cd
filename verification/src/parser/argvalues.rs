//! What an option parsed by the strict parser holds.

use vstd::prelude::*;
use crate::defarg::atypes::AType;
use crate::text::texts;

verus! {

/// The payload of a parsed option.
#[derive(Debug, Clone)]
pub enum ArgValue {
    /// A flag, set or negated.
    Flag(bool),
    /// One text.
    Text(String),
    /// Any number of texts, in the order in which they were given.
    Vector(Vec<String>),
}

/// A payload as contracts see it.
pub enum ArgValueView {
    Flag(bool),
    Text(Seq<char>),
    Vector(Seq<Seq<char>>),
}

impl ArgValueView {
    /// The kind of option that holds such a payload.
    pub open spec fn kind(self) -> AType {
        match self {
            ArgValueView::Flag(_) => AType::Flag,
            ArgValueView::Text(_) => AType::Text,
            ArgValueView::Vector(_) => AType::Vector,
        }
    }
}

impl View for ArgValue {
    type V = ArgValueView;

    open spec fn view(&self) -> ArgValueView {
        match self {
            ArgValue::Flag(set) => ArgValueView::Flag(*set),
            ArgValue::Text(text) => ArgValueView::Text(text@),
            ArgValue::Vector(texts_given) => ArgValueView::Vector(texts(texts_given@)),
        }
    }
}

impl Default for ArgValue {
    /// A flag that is set.
    fn default() -> (r: ArgValue)
        ensures
            r == ArgValue::Flag(true),
    {
        ArgValue::Flag(true)
    }
}

impl ArgValue {
    /// The label of the kind of the payload: `flag`, `text` or `vector`.
    pub fn arg_type(&self) -> (r: String)
        ensures
            r@ == self@.kind().label(),
    {
        match self {
            ArgValue::Flag(_) => AType::Flag.to_string(),
            ArgValue::Text(_) => AType::Text.to_string(),
            ArgValue::Vector(_) => AType::Vector.to_string(),
        }
    }
}

} // verus!
