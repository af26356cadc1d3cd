//! The outcome of a parse: the value found for each argument that was given.

use vstd::prelude::*;
use vstd::hash_map::StringHashMap;
use crate::parsing::values::{Value, ValueView};

verus! {

/// The values found by one parse, by argument name.
pub struct ParsedArguments {
    pub(crate) arguments: StringHashMap<Value>,
}

impl View for ParsedArguments {
    type V = Map<Seq<char>, ValueView>;

    open(crate) spec fn view(&self) -> Map<Seq<char>, ValueView> {
        self.arguments@.map_values(|value: Value| value@)
    }
}

impl ParsedArguments {
    /// An outcome without entries.
    pub fn new() -> (r: ParsedArguments)
        ensures
            r@ == Map::<Seq<char>, ValueView>::empty(),
    {
        let r = ParsedArguments { arguments: StringHashMap::new() };
        assert(r@ =~= Map::<Seq<char>, ValueView>::empty());
        r
    }

    /// An outcome without entries, with room for `capacity` of them.
    pub fn with_capacity(capacity: usize) -> (r: ParsedArguments)
        ensures
            r@ == Map::<Seq<char>, ValueView>::empty(),
    {
        let r = ParsedArguments { arguments: StringHashMap::with_capacity(capacity) };
        assert(r@ =~= Map::<Seq<char>, ValueView>::empty());
        r
    }

    /// The number of arguments that have a value.
    pub fn count(&self) -> (r: usize)
        ensures
            r == self@.len(),
    {
        broadcast use vstd::hash_map::group_hash_map_axioms;

        assert(self@.dom() =~= self.arguments@.dom());
        self.arguments.len()
    }

    /// The value found for the argument `name`, if it was given.
    pub fn get_value(&self, name: &str) -> (r: Option<&Value>)
        ensures
            match r {
                Some(value) => self@.contains_key(name@) && self@[name@] == value@,
                None => !self@.contains_key(name@),
            },
    {
        self.arguments.get(name)
    }

    /// Whether the argument `name` was given.
    pub fn contains(&self, name: &str) -> (r: bool)
        ensures
            r == self@.contains_key(name@),
    {
        self.arguments.contains_key(name)
    }

    /// Stores `value` under `name`, in place of what was there.
    pub(crate) fn store(&mut self, name: String, value: Value)
        ensures
            final(self)@ == old(self)@.insert(name@, value@),
    {
        self.arguments.insert(name, value);
        assert(final(self)@ =~= old(self)@.insert(name@, value@));
    }
}

impl Default for ParsedArguments {
    /// An outcome without entries.
    fn default() -> (r: ParsedArguments)
        ensures
            r@ == Map::<Seq<char>, ValueView>::empty(),
    {
        ParsedArguments::new()
    }
}

} // verus!
