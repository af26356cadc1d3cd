//! One declared argument: its name, its kind, the strings that invoke it and
//! whether it must be given.

use vstd::prelude::*;
use crate::argument::invocators::{find_long, find_short, first_long, first_short};
use crate::argument::types::ArgumentType;
use crate::text::{copied_texts, holds_text, joined, texts};

verus! {

/// A declaration as contracts see it.
pub struct ArgumentView {
    /// The name under which the parsed value is stored.
    pub name: Seq<char>,
    /// The invocators, in the order in which they were added.
    pub aliases: Seq<Seq<char>>,
    /// Whether parsing fails when the argument is not given.
    pub required: bool,
    /// What the argument takes.
    pub kind: ArgumentType,
}

impl ArgumentView {
    /// No invocator is listed twice, and a name that has been given is among
    /// the invocators.
    pub open spec fn consistent(self) -> bool {
        &&& self.aliases.no_duplicates()
        &&& self.name.len() > 0 ==> self.aliases.contains(self.name)
    }

    /// The declaration with `alias` among its invocators: added at the end
    /// where it is new, unchanged where it is there already.
    pub open spec fn with_alias(self, alias: Seq<char>) -> ArgumentView {
        ArgumentView {
            aliases: if self.aliases.contains(alias) {
                self.aliases
            } else {
                self.aliases.push(alias)
            },
            ..self
        }
    }

    /// How the declaration is named to the user: its first short and first
    /// long invocator joined by `/` where it has both, the one it has where it
    /// has one, its name where it has neither.
    pub open spec fn identity(self) -> Seq<char> {
        match (first_short(self.aliases, 0), first_long(self.aliases, 0)) {
            (Some(short), Some(long)) => short + seq!['/'] + long,
            (Some(short), None) => short,
            (None, Some(long)) => long,
            (None, None) => self.name,
        }
    }

    /// A consistent declaration stays consistent when it gains an invocator.
    pub proof fn lemma_with_alias_consistent(self, alias: Seq<char>)
        requires
            self.consistent(),
        ensures
            self.with_alias(alias).consistent(),
            self.with_alias(alias).aliases.contains(alias),
            forall|other: Seq<char>|
                self.aliases.contains(other) ==> #[trigger] self.with_alias(alias).aliases.contains(
                    other,
                ),
    {
        let grown = self.with_alias(alias).aliases;
        if !self.aliases.contains(alias) {
            assert(grown[self.aliases.len() as int] == alias);
            assert forall|other: Seq<char>| self.aliases.contains(other) implies grown.contains(
                other,
            ) by {
                let i = choose|i: int| 0 <= i < self.aliases.len() && self.aliases[i] == other;
                assert(grown[i] == other);
            }
        }
    }
}

/// A declared argument, built step by step: `with_type`, then `name`, then any
/// number of `invoke_with`, and `required`.
#[derive(Debug)]
pub struct Argument {
    pub(crate) name: String,
    pub(crate) invoke_with: Vec<String>,
    pub(crate) required: bool,
    pub(crate) argument_type: ArgumentType,
}

impl View for Argument {
    type V = ArgumentView;

    open(crate) spec fn view(&self) -> ArgumentView {
        ArgumentView {
            name: self.name@,
            aliases: texts(self.invoke_with@),
            required: self.required,
            kind: self.argument_type,
        }
    }
}

impl Argument {
    #[verifier::type_invariant]
    pub(crate) open(crate) spec fn sound(self) -> bool {
        self@.consistent()
    }

    /// A blank argument of the kind that `argument_type` names: `"flag"`,
    /// `"word"` or `"vector"`.
    pub fn with_type(argument_type: &str) -> (r: Argument)
        requires
            ArgumentType::named(argument_type@) is Some,
        ensures
            r@ == (ArgumentView {
                name: Seq::empty(),
                aliases: Seq::empty(),
                required: false,
                kind: ArgumentType::named(argument_type@).unwrap(),
            }),
            r@.consistent(),
    {
        let r = Argument {
            name: String::new(),
            invoke_with: Vec::new(),
            required: false,
            argument_type: ArgumentType::from_name(argument_type).unwrap(),
        };
        assert(r@.aliases =~= Seq::empty());
        r
    }

    /// Names the argument. The parsed value is found under this name, and the
    /// name is an invocator too.
    pub fn name(self, name: &str) -> (r: Argument)
        requires
            self@.name.len() == 0,
        ensures
            r@ == (ArgumentView { name: name@, ..self@.with_alias(name@) }),
            r@.consistent(),
    {
        proof {
            use_type_invariant(&self);
            self@.lemma_with_alias_consistent(name@);
        }
        let Argument { name: _, invoke_with, required, argument_type } = self;
        let mut invoke_with = invoke_with;
        if !holds_text(&invoke_with, name) {
            invoke_with.push(String::from_str(name));
            assert(texts(invoke_with@) =~= self@.aliases.push(name@));
        }
        Argument { name: String::from_str(name), invoke_with, required, argument_type }
    }

    /// Adds an invocator: a string that, met among the tokens, stands for this
    /// argument. Adding one twice changes nothing.
    pub fn invoke_with(self, option: &str) -> (r: Argument)
        ensures
            r@ == self@.with_alias(option@),
            r@.consistent(),
    {
        proof {
            use_type_invariant(&self);
            self@.lemma_with_alias_consistent(option@);
        }
        let Argument { name, invoke_with, required, argument_type } = self;
        let mut invoke_with = invoke_with;
        if !holds_text(&invoke_with, option) {
            invoke_with.push(String::from_str(option));
            assert(texts(invoke_with@) =~= self@.aliases.push(option@));
        }
        Argument { name, invoke_with, required, argument_type }
    }

    /// Says whether the argument must be given.
    pub fn required(self, required: bool) -> (r: Argument)
        ensures
            r@ == (ArgumentView { required, ..self@ }),
            r@.consistent(),
    {
        proof {
            use_type_invariant(&self);
        }
        let Argument { name, invoke_with, required: _, argument_type } = self;
        Argument { name, invoke_with, required, argument_type }
    }

    /// Whether `identity` is the name or another invocator of this argument.
    pub fn same_as(&self, identity: &str) -> (r: bool)
        ensures
            r == self@.aliases.contains(identity@),
    {
        holds_text(&self.invoke_with, identity)
    }

    /// Whether the argument has a name.
    pub fn is_valid(&self) -> (r: bool)
        ensures
            r == (self@.name.len() > 0),
    {
        !self.name.as_str().is_empty()
    }

    /// The label of the argument's kind.
    pub fn get_type(&self) -> (r: &str)
        ensures
            r@ == self@.kind.label(),
            ArgumentType::named(r@) == Some(self@.kind),
    {
        self.argument_type.as_str()
    }

    /// The argument's name; empty until `name` has been called.
    pub fn get_name(&self) -> (r: &str)
        ensures
            r@ == self@.name,
    {
        self.name.as_str()
    }

    /// Whether the argument must be given.
    pub fn is_required(&self) -> (r: bool)
        ensures
            r == self@.required,
    {
        self.required
    }

    /// How the argument is named to the user: see `ArgumentView::identity`.
    pub fn identity(&self) -> (r: String)
        ensures
            r@ == self@.identity(),
    {
        proof {
            reveal_strlit("/");
            assert("/"@ =~= seq!['/']);
        }
        let short = find_short(&self.invoke_with);
        let long = find_long(&self.invoke_with);
        match (short, long) {
            (Some(short), Some(long)) => {
                let mut r = joined(self.invoke_with[short].as_str(), "/");
                r.append(self.invoke_with[long].as_str());
                r
            },
            (Some(short), None) => self.invoke_with[short].clone(),
            (None, Some(long)) => self.invoke_with[long].clone(),
            (None, None) => self.name.clone(),
        }
    }

    /// The invocators, in the order in which they were added.
    pub fn invocators(&self) -> (r: &Vec<String>)
        ensures
            texts(r@) == self@.aliases,
            self@.consistent(),
    {
        proof {
            use_type_invariant(self);
        }
        &self.invoke_with
    }
}

impl Clone for Argument {
    /// A declaration with the same name, kind and invocators.
    fn clone(&self) -> (r: Argument)
        ensures
            r@ == self@,
    {
        proof {
            use_type_invariant(self);
        }
        Argument {
            name: self.name.clone(),
            invoke_with: copied_texts(self.invoke_with.as_slice()),
            required: self.required,
            argument_type: self.argument_type,
        }
    }
}

impl Default for Argument {
    /// A blank flag: no name, no invocator, not required.
    fn default() -> (r: Argument)
        ensures
            r@ == (ArgumentView {
                name: Seq::empty(),
                aliases: Seq::empty(),
                required: false,
                kind: ArgumentType::Flag,
            }),
    {
        let r = Argument {
            name: String::new(),
            invoke_with: Vec::new(),
            required: false,
            argument_type: ArgumentType::Flag,
        };
        assert(r@.aliases =~= Seq::empty());
        r
    }
}

} // verus!
