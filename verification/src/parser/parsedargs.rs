//! The outcome of a strict parse.

use vstd::prelude::*;
use vstd::hash_map::StringHashMap;
use crate::parser::argvalues::{ArgValue, ArgValueView};

verus! {

/// The values found by one strict parse, by option name.
pub struct ParsedArguments {
    /// The value of each option that was given.
    pub args: StringHashMap<ArgValue>,
}

impl View for ParsedArguments {
    type V = Map<Seq<char>, ArgValueView>;

    open spec fn view(&self) -> Map<Seq<char>, ArgValueView> {
        self.args@.map_values(|value: ArgValue| value@)
    }
}

impl ParsedArguments {
    /// An outcome without entries.
    pub fn new() -> (r: ParsedArguments)
        ensures
            r@ == Map::<Seq<char>, ArgValueView>::empty(),
    {
        let r = ParsedArguments { args: StringHashMap::new() };
        assert(r@ =~= Map::<Seq<char>, ArgValueView>::empty());
        r
    }

    /// Stores `value` under `name`, in place of what was there.
    pub(crate) fn store(&mut self, name: String, value: ArgValue)
        ensures
            final(self)@ == old(self)@.insert(name@, value@),
    {
        self.args.insert(name, value);
        assert(final(self)@ =~= old(self)@.insert(name@, value@));
    }
}

impl Default for ParsedArguments {
    /// An outcome without entries.
    fn default() -> (r: ParsedArguments)
        ensures
            r@ == Map::<Seq<char>, ArgValueView>::empty(),
    {
        ParsedArguments::new()
    }
}

} // verus!
