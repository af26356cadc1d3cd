//! The kinds of option that the strict parser knows.

use vstd::prelude::*;
use vstd::std_specs::convert::FromSpecImpl;
use crate::text::same_text;

verus! {

/// What an option takes: nothing, one text, or any number of texts.
#[derive(Debug, Clone, Copy, PartialEq, Eq, Structural)]
pub enum AType {
    Flag,
    Text,
    Vector,
}

impl AType {
    /// The name a kind is written with: `flag`, `text` or `vector`.
    pub open spec fn label(self) -> Seq<char> {
        match self {
            AType::Flag => seq!['f', 'l', 'a', 'g'],
            AType::Text => seq!['t', 'e', 'x', 't'],
            AType::Vector => seq!['v', 'e', 'c', 't', 'o', 'r'],
        }
    }

    /// The kind that `name` is the label of, if it is one.
    pub open spec fn named(name: Seq<char>) -> Option<AType> {
        if name == AType::Flag.label() {
            Some(AType::Flag)
        } else if name == AType::Text.label() {
            Some(AType::Text)
        } else if name == AType::Vector.label() {
            Some(AType::Vector)
        } else {
            None
        }
    }

    /// No two kinds share a label, so reading a label gives back its kind.
    pub proof fn lemma_labels_differ()
        ensures
            forall|kind: AType| AType::named(#[trigger] kind.label()) == Some(kind),
    {
        assert(AType::Flag.label()[0] == 'f');
        assert(AType::Text.label()[0] == 't');
        assert(AType::Vector.label()[0] == 'v');
    }

    /// Reads a kind from its label; `None` for any other string.
    pub fn from_name(name: &str) -> (r: Option<AType>)
        ensures
            r == AType::named(name@),
    {
        proof {
            reveal_strlit("flag");
            reveal_strlit("text");
            reveal_strlit("vector");
            assert("flag"@ =~= AType::Flag.label());
            assert("text"@ =~= AType::Text.label());
            assert("vector"@ =~= AType::Vector.label());
        }
        if same_text(name, "flag") {
            Some(AType::Flag)
        } else if same_text(name, "text") {
            Some(AType::Text)
        } else if same_text(name, "vector") {
            Some(AType::Vector)
        } else {
            None
        }
    }

    /// The label of a kind, as a slice.
    pub fn as_str(&self) -> (r: &'static str)
        ensures
            r@ == self.label(),
            AType::named(r@) == Some(*self),
    {
        proof {
            reveal_strlit("flag");
            reveal_strlit("text");
            reveal_strlit("vector");
            assert("flag"@ =~= AType::Flag.label());
            assert("text"@ =~= AType::Text.label());
            assert("vector"@ =~= AType::Vector.label());
            AType::lemma_labels_differ();
        }
        match self {
            AType::Flag => "flag",
            AType::Text => "text",
            AType::Vector => "vector",
        }
    }

    /// The label of a kind, as a string.
    pub fn to_string(&self) -> (r: String)
        ensures
            r@ == self.label(),
    {
        String::from_str(self.as_str())
    }
}

impl Default for AType {
    /// A flag.
    fn default() -> (r: AType)
        ensures
            r == AType::Flag,
    {
        AType::Flag
    }
}

impl From<AType> for String {
    fn from(some_atype: AType) -> (r: String)
        ensures
            r@ == some_atype.label(),
    {
        some_atype.to_string()
    }
}

/// The label is a new string, which a contract can name only by its
/// characters: see the `ensures` of `from`.
impl FromSpecImpl<AType> for String {
    open spec fn obeys_from_spec() -> bool {
        false
    }

    open spec fn from_spec(some_atype: AType) -> String {
        arbitrary()
    }
}

} // verus!
