//! What a parsed argument holds.

use vstd::prelude::*;
use vstd::std_specs::convert::FromSpecImpl;
use crate::argument::types::ArgumentType;
use crate::text::{copied_texts, owned_texts, slice_texts, texts};

verus! {

/// The payload of a parsed argument.
#[derive(Debug, Clone, PartialEq, Eq)]
pub enum Value {
    /// A flag, set or negated.
    Flag(bool),
    /// One word.
    Word(String),
    /// One or more words, in the order in which they were given.
    Vector(Vec<String>),
}

/// A payload as contracts see it.
pub enum ValueView {
    Flag(bool),
    Word(Seq<char>),
    Vector(Seq<Seq<char>>),
}

impl ValueView {
    /// The kind of argument that holds such a payload.
    pub open spec fn kind(self) -> ArgumentType {
        match self {
            ValueView::Flag(_) => ArgumentType::Flag,
            ValueView::Word(_) => ArgumentType::Word,
            ValueView::Vector(_) => ArgumentType::Vector,
        }
    }
}

impl View for Value {
    type V = ValueView;

    open spec fn view(&self) -> ValueView {
        match self {
            Value::Flag(set) => ValueView::Flag(*set),
            Value::Word(word) => ValueView::Word(word@),
            Value::Vector(words) => ValueView::Vector(texts(words@)),
        }
    }
}

impl Default for Value {
    /// A flag that is set.
    fn default() -> (r: Value)
        ensures
            r == Value::Flag(true),
    {
        Value::Flag(true)
    }
}

impl From<bool> for Value {
    fn from(s: bool) -> (r: Value)
        ensures
            r == Value::Flag(s),
    {
        Value::Flag(s)
    }
}

impl FromSpecImpl<bool> for Value {
    open spec fn obeys_from_spec() -> bool {
        true
    }

    open spec fn from_spec(s: bool) -> Value {
        Value::Flag(s)
    }
}

impl From<String> for Value {
    fn from(s: String) -> (r: Value)
        ensures
            r == Value::Word(s),
    {
        Value::Word(s)
    }
}

impl FromSpecImpl<String> for Value {
    open spec fn obeys_from_spec() -> bool {
        true
    }

    open spec fn from_spec(s: String) -> Value {
        Value::Word(s)
    }
}

impl From<&str> for Value {
    fn from(s: &str) -> (r: Value)
        ensures
            r@ == ValueView::Word(s@),
    {
        Value::Word(String::from_str(s))
    }
}

/// The word is a new string, which a contract can name only by its
/// characters: see the `ensures` of `from`.
impl FromSpecImpl<&str> for Value {
    open spec fn obeys_from_spec() -> bool {
        false
    }

    open spec fn from_spec(s: &str) -> Value {
        arbitrary()
    }
}

impl From<Vec<String>> for Value {
    fn from(s: Vec<String>) -> (r: Value)
        ensures
            r == Value::Vector(s),
    {
        Value::Vector(s)
    }
}

impl FromSpecImpl<Vec<String>> for Value {
    open spec fn obeys_from_spec() -> bool {
        true
    }

    open spec fn from_spec(s: Vec<String>) -> Value {
        Value::Vector(s)
    }
}

impl From<&Vec<String>> for Value {
    fn from(s: &Vec<String>) -> (r: Value)
        ensures
            r@ == ValueView::Vector(texts(s@)),
    {
        Value::Vector(copied_texts(s.as_slice()))
    }
}

/// The words are new strings: see the `ensures` of `from`.
impl FromSpecImpl<&Vec<String>> for Value {
    open spec fn obeys_from_spec() -> bool {
        false
    }

    open spec fn from_spec(s: &Vec<String>) -> Value {
        arbitrary()
    }
}

impl From<Vec<&str>> for Value {
    fn from(s: Vec<&str>) -> (r: Value)
        ensures
            r@ == ValueView::Vector(slice_texts(s@)),
    {
        Value::Vector(owned_texts(s.as_slice()))
    }
}

/// The words are new strings: see the `ensures` of `from`.
impl FromSpecImpl<Vec<&str>> for Value {
    open spec fn obeys_from_spec() -> bool {
        false
    }

    open spec fn from_spec(s: Vec<&str>) -> Value {
        arbitrary()
    }
}

impl From<&[String]> for Value {
    fn from(s: &[String]) -> (r: Value)
        ensures
            r@ == ValueView::Vector(texts(s@)),
    {
        Value::Vector(copied_texts(s))
    }
}

/// The words are new strings: see the `ensures` of `from`.
impl FromSpecImpl<&[String]> for Value {
    open spec fn obeys_from_spec() -> bool {
        false
    }

    open spec fn from_spec(s: &[String]) -> Value {
        arbitrary()
    }
}

impl From<&[&str]> for Value {
    fn from(s: &[&str]) -> (r: Value)
        ensures
            r@ == ValueView::Vector(slice_texts(s@)),
    {
        Value::Vector(owned_texts(s))
    }
}

/// The words are new strings: see the `ensures` of `from`.
impl FromSpecImpl<&[&str]> for Value {
    open spec fn obeys_from_spec() -> bool {
        false
    }

    open spec fn from_spec(s: &[&str]) -> Value {
        arbitrary()
    }
}

} // verus!
