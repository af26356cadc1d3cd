//! The three kinds of argument and their names.

use vstd::prelude::*;
use vstd::std_specs::convert::FromSpecImpl;
use crate::text::same_text;

verus! {

/// What an argument takes: nothing, one word, or one or more words.
#[derive(Debug, Clone, Copy, PartialEq, Eq, Structural)]
pub enum ArgumentType {
    Flag,
    Word,
    Vector,
}

impl ArgumentType {
    /// The name a kind is written with: `flag`, `word` or `vector`.
    pub open spec fn label(self) -> Seq<char> {
        match self {
            ArgumentType::Flag => seq!['f', 'l', 'a', 'g'],
            ArgumentType::Word => seq!['w', 'o', 'r', 'd'],
            ArgumentType::Vector => seq!['v', 'e', 'c', 't', 'o', 'r'],
        }
    }

    /// The kind that `name` is the label of, if it is one.
    pub open spec fn named(name: Seq<char>) -> Option<ArgumentType> {
        if name == ArgumentType::Flag.label() {
            Some(ArgumentType::Flag)
        } else if name == ArgumentType::Word.label() {
            Some(ArgumentType::Word)
        } else if name == ArgumentType::Vector.label() {
            Some(ArgumentType::Vector)
        } else {
            None
        }
    }

    /// Reads a kind from its label; `None` for any other string.
    pub fn from_name(name: &str) -> (r: Option<ArgumentType>)
        ensures
            r == ArgumentType::named(name@),
    {
        proof {
            reveal_strlit("flag");
            reveal_strlit("word");
            reveal_strlit("vector");
            assert("flag"@ =~= ArgumentType::Flag.label());
            assert("word"@ =~= ArgumentType::Word.label());
            assert("vector"@ =~= ArgumentType::Vector.label());
        }
        if same_text(name, "flag") {
            Some(ArgumentType::Flag)
        } else if same_text(name, "word") {
            Some(ArgumentType::Word)
        } else if same_text(name, "vector") {
            Some(ArgumentType::Vector)
        } else {
            None
        }
    }

    /// The label of a kind.
    pub fn as_str(&self) -> (r: &'static str)
        ensures
            r@ == self.label(),
            ArgumentType::named(r@) == Some(*self),
    {
        proof {
            reveal_strlit("flag");
            reveal_strlit("word");
            reveal_strlit("vector");
            assert("flag"@ =~= ArgumentType::Flag.label());
            assert("word"@ =~= ArgumentType::Word.label());
            assert("vector"@ =~= ArgumentType::Vector.label());
            ArgumentType::lemma_labels_differ();
        }
        match self {
            ArgumentType::Flag => "flag",
            ArgumentType::Word => "word",
            ArgumentType::Vector => "vector",
        }
    }

    /// No two kinds share a label, so reading a label gives back its kind.
    pub proof fn lemma_labels_differ()
        ensures
            forall|kind: ArgumentType| ArgumentType::named(#[trigger] kind.label()) == Some(kind),
    {
        assert(ArgumentType::Flag.label()[0] == 'f');
        assert(ArgumentType::Word.label()[0] == 'w');
        assert(ArgumentType::Vector.label()[0] == 'v');
    }
}

impl From<ArgumentType> for String {
    fn from(s: ArgumentType) -> (r: String)
        ensures
            r@ == s.label(),
    {
        String::from_str(s.as_str())
    }
}

/// The label is a new string, which a contract can name only by its
/// characters: see the `ensures` of `from`.
impl FromSpecImpl<ArgumentType> for String {
    open spec fn obeys_from_spec() -> bool {
        false
    }

    open spec fn from_spec(s: ArgumentType) -> String {
        arbitrary()
    }
}

impl Default for ArgumentType {
    /// A flag.
    fn default() -> (r: ArgumentType)
        ensures
            r == ArgumentType::Flag,
    {
        ArgumentType::Flag
    }
}

} // verus!
