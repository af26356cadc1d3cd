//! The parser: a registry of declared arguments, and the walk that reads a
//! token sequence against it.

use vstd::prelude::*;
use vstd::hash_map::StringHashMap;
use crate::argument::arguments::{Argument, ArgumentView};
use crate::argument::invocators::{long_dashes, short_dash};
use crate::argument::types::ArgumentType;
use crate::parsing::errors::{ParseError, RegistrationError};
use crate::parsing::grammar::{
    argument_like, cluster_names, effect, first_missing, is_cluster, parse, raise, raises_flag,
    splittable, sub_aliases, value_run, walk,
};
use crate::parsing::negation::{
    bare_marker, is_negated, long_marker, negated, negation_kind, short_marker, stripped,
};
use crate::parsing::parsed_arguments::ParsedArguments;
use crate::parsing::registry::{
    answers_to, collides, declares, known, lemma_flag_answers_to_negated, lemma_owner_is_unique,
    lemma_register_keeps_ok, owned, owner, register, registry_ok, resolve,
};
use crate::parsing::values::Value;
use crate::text::{char_text, joined, slice_texts, starts_with, text_after, texts};

verus! {

/// Whether `alias` is one of the first `n` invocators of `spec`, or the
/// negated form of one of them and `spec` is a flag.
spec fn listed(spec: ArgumentView, n: int, alias: Seq<char>) -> bool {
    exists|j: int|
        0 <= j < n && j < spec.aliases.len() && (alias == #[trigger] spec.aliases[j] || (spec.kind
            == ArgumentType::Flag && alias == negated(spec.aliases[j])))
}

/// For a named declaration, the strings listed over all its invocators are
/// the strings it answers to.
proof fn lemma_listed_is_answers_to(spec: ArgumentView, alias: Seq<char>)
    requires
        spec.consistent(),
        spec.name.len() > 0,
    ensures
        listed(spec, spec.aliases.len() as int, alias) <==> answers_to(spec, alias),
{
    if listed(spec, spec.aliases.len() as int, alias) {
        let j = choose|j: int|
            0 <= j < spec.aliases.len() && (alias == #[trigger] spec.aliases[j] || (spec.kind
                == ArgumentType::Flag && alias == negated(spec.aliases[j])));
        assert(declares(spec, spec.aliases[j]));
        if alias != spec.aliases[j] {
            lemma_flag_answers_to_negated(spec, spec.aliases[j]);
        }
    }
    if answers_to(spec, alias) {
        if declares(spec, alias) {
            assert(spec.aliases.contains(alias));
            let j = choose|j: int| 0 <= j < spec.aliases.len() && spec.aliases[j] == alias;
            assert(alias == spec.aliases[j]);
        } else {
            assert(spec.aliases.contains(stripped(alias)));
            let j = choose|j: int| 0 <= j < spec.aliases.len() && spec.aliases[j] == stripped(alias);
            assert(alias == negated(spec.aliases[j]));
        }
    }
}

/// A registry of declared arguments.
pub struct Parser {
    /// The declarations, in the order of their registration.
    arguments: Vec<Argument>,
    /// For every string that invokes a declaration, the position of that
    /// declaration.
    invocators: StringHashMap<usize>,
}

impl View for Parser {
    type V = Seq<ArgumentView>;

    /// The declarations, in the order of their registration.
    closed spec fn view(&self) -> Seq<ArgumentView> {
        self.arguments@.map_values(|argument: Argument| argument@)
    }
}

impl Parser {
    #[verifier::type_invariant]
    spec fn sound(self) -> bool {
        &&& registry_ok(self@)
        &&& forall|alias: Seq<char>| #[trigger]
            self.invocators@.contains_key(alias) ==> self.invocators@[alias] < self.arguments.len()
                && answers_to(self@[self.invocators@[alias] as int], alias)
        &&& forall|i: int, alias: Seq<char>|
            0 <= i < self@.len() && #[trigger] answers_to(self@[i], alias)
                ==> self.invocators@.contains_key(alias)
    }

    /// A registry without declarations.
    pub fn new() -> (r: Parser)
        ensures
            r@ == Seq::<ArgumentView>::empty(),
            registry_ok(r@),
    {
        let r = Parser { arguments: Vec::new(), invocators: StringHashMap::new() };
        assert(r@ =~= Seq::<ArgumentView>::empty());
        r
    }

    /// A registry without declarations, with room for `capacity` of them.
    pub fn with_capacity(capacity: usize) -> (r: Parser)
        ensures
            r@ == Seq::<ArgumentView>::empty(),
            registry_ok(r@),
    {
        let room = if capacity <= usize::MAX / 4 {
            capacity * 4
        } else {
            capacity
        };
        let r = Parser {
            arguments: Vec::with_capacity(capacity),
            invocators: StringHashMap::with_capacity(room),
        };
        assert(r@ =~= Seq::<ArgumentView>::empty());
        r
    }

    /// The number of registered declarations.
    pub fn count(&self) -> (r: usize)
        ensures
            r == self@.len(),
            registry_ok(self@),
    {
        proof {
            use_type_invariant(self);
        }
        self.arguments.len()
    }

    /// Which negation marker `s` begins with: 1 for `--no-`, 2 for `-no-`,
    /// 3 for `no-`, 0 for none.
    pub fn negation_type(s: &str) -> (r: u8)
        ensures
            r == negation_kind(s@),
    {
        proof {
            reveal_strlit("--no-");
            reveal_strlit("-no-");
            reveal_strlit("no-");
            assert("--no-"@ =~= long_marker());
            assert("-no-"@ =~= short_marker());
            assert("no-"@ =~= bare_marker());
        }
        if starts_with(s, "--no-") {
            1u8
        } else if starts_with(s, "-no-") {
            2u8
        } else if starts_with(s, "no-") {
            3u8
        } else {
            0u8
        }
    }

    /// Whether `s` begins with a negation marker.
    pub fn detect_negation(s: &str) -> (r: bool)
        ensures
            r == is_negated(s@),
    {
        Parser::negation_type(s) != 0u8
    }

    /// `s` without its negation marker.
    pub fn strip_negation(s: &str) -> (r: String)
        ensures
            r@ == stripped(s@),
    {
        proof {
            reveal_strlit("--");
            reveal_strlit("-");
            assert("--"@ =~= long_dashes());
            assert("-"@ =~= short_dash());
        }
        let negation_type = Parser::negation_type(s);
        if negation_type == 1u8 {
            joined("--", text_after(s, 5))
        } else if negation_type == 2u8 {
            joined("-", text_after(s, 4))
        } else if negation_type == 3u8 {
            String::from_str(text_after(s, 3))
        } else {
            String::from_str(s)
        }
    }

    /// The negated form of `alias`.
    pub fn negate(alias: &str) -> (r: String)
        ensures
            r@ == negated(alias@),
    {
        proof {
            reveal_strlit("--");
            reveal_strlit("-");
            reveal_strlit("--no-");
            reveal_strlit("-no-");
            reveal_strlit("no-");
            assert("--"@ =~= long_dashes());
            assert("-"@ =~= short_dash());
            assert("--no-"@ =~= long_marker());
            assert("-no-"@ =~= short_marker());
            assert("no-"@ =~= bare_marker());
        }
        if starts_with(alias, "--") {
            joined("--no-", text_after(alias, 2))
        } else if starts_with(alias, "-") {
            joined("-no-", text_after(alias, 1))
        } else {
            joined("no-", alias)
        }
    }

    /// Whether `other`, its negation marker set aside, invokes a registered
    /// declaration.
    pub fn contains_argument(&self, other: &str) -> (r: bool)
        ensures
            r == known(self@, other@),
            registry_ok(self@),
    {
        proof {
            use_type_invariant(self);
        }
        let other = Parser::strip_negation(other);
        let r = self.invocators.contains_key(other.as_str());
        proof {
            if r {
                let i = self.invocators@[other@] as int;
                assert(answers_to(self@[i], other@));
            }
        }
        r
    }

    /// The position of the declaration that `other` invokes, its negation
    /// marker set aside.
    fn locate(&self, other: &str) -> (r: Option<usize>)
        ensures
            match r {
                Some(at) => at < self@.len() && resolve(self@, other@) == Some(self@[at as int]),
                None => resolve(self@, other@) is None,
            },
    {
        proof {
            use_type_invariant(self);
        }
        let other = Parser::strip_negation(other);
        match self.invocators.get(other.as_str()) {
            Some(position) => {
                proof {
                    lemma_owner_is_unique(self@, *position as int, other@);
                }
                Some(*position)
            },
            None => None,
        }
    }

    /// The declaration that `other` invokes, its negation marker set aside.
    pub fn get_argument(&self, other: &str) -> (r: Option<&Argument>)
        ensures
            match r {
                Some(argument) => resolve(self@, other@) == Some(argument@),
                None => resolve(self@, other@) is None,
            },
            registry_ok(self@),
    {
        proof {
            use_type_invariant(self);
        }
        match self.locate(other) {
            Some(at) => Some(&self.arguments[at]),
            None => None,
        }
    }

    /// Registers `argument`. It is refused, and the registry left as it was,
    /// where it has no name (`InvalidSpec`) or where its name, one of its
    /// invocators or, for a flag, the negated form of one of them invokes a
    /// declaration registered before (`DuplicateAlias`).
    pub fn add_argument(&mut self, argument: Argument) -> (r: Result<(), RegistrationError>)
        ensures
            match register(old(self)@, argument@) {
                Ok(specs) => r is Ok && final(self)@ == specs,
                Err(e) => r == Err::<(), RegistrationError>(e) && final(self)@ == old(self)@,
            },
            registry_ok(final(self)@),
    {
        proof {
            use_type_invariant(&*self);
            use_type_invariant(&argument);
        }
        if !argument.is_valid() {
            return Err(RegistrationError::InvalidSpec);
        }
        let is_flag = match argument.argument_type {
            ArgumentType::Flag => true,
            _ => false,
        };
        let ghost spec = argument@;
        let ghost taken = self.invocators@;
        let mut i: usize = 0;
        while i < argument.invoke_with.len()
            invariant
                i <= argument.invoke_with.len(),
                spec == argument@,
                spec.name.len() > 0,
                taken == self.invocators@,
                *self == *old(self),
                is_flag == (spec.kind == ArgumentType::Flag),
                forall|alias: Seq<char>| listed(spec, i as int, alias) ==> !taken.contains_key(alias),
            decreases argument.invoke_with.len() - i,
        {
            let item = argument.invoke_with[i].as_str();
            assert(item@ == spec.aliases[i as int]);
            if self.invocators.contains_key(item) {
                proof {
                    use_type_invariant(&*self);
                    assert(declares(spec, item@));
                    assert(answers_to(spec, item@));
                    let at = self.invocators@[item@] as int;
                    assert(answers_to(self@[at], item@));
                    assert(owned(self@, item@));
                    assert(collides(self@, spec));
                }
                return Err(RegistrationError::DuplicateAlias);
            }
            if is_flag {
                let negative = Parser::negate(item);
                if self.invocators.contains_key(negative.as_str()) {
                    proof {
                        use_type_invariant(&*self);
                        assert(declares(spec, item@));
                        lemma_flag_answers_to_negated(spec, item@);
                        let at = self.invocators@[negative@] as int;
                        assert(answers_to(self@[at], negative@));
                        assert(owned(self@, negative@));
                        assert(collides(self@, spec));
                    }
                    return Err(RegistrationError::DuplicateAlias);
                }
            }
            assert forall|alias: Seq<char>| listed(spec, i + 1, alias) implies !taken.contains_key(
                alias,
            ) by {
                if !listed(spec, i as int, alias) {
                    let j = choose|j: int|
                        0 <= j < i + 1 && j < spec.aliases.len() && (alias
                            == #[trigger] spec.aliases[j] || (spec.kind == ArgumentType::Flag
                            && alias == negated(spec.aliases[j])));
                    assert(j == i);
                }
            }
            i += 1;
        }
        proof {
            use_type_invariant(&*self);
            assert(!collides(self@, spec)) by {
                if collides(self@, spec) {
                    let alias = choose|alias: Seq<char>| #[trigger]
                        answers_to(spec, alias) && owned(self@, alias);
                    lemma_listed_is_answers_to(spec, alias);
                    let at = owner(self@, alias);
                    assert(answers_to(self@[at], alias));
                    assert(taken.contains_key(alias));
                }
            }
            lemma_register_keeps_ok(self@, spec);
        }
        let ghost specs = self@;
        let mut whole = Parser::new();
        std::mem::swap(self, &mut whole);
        let Parser { arguments, invocators } = whole;
        let mut arguments = arguments;
        let mut invocators = invocators;
        let position = arguments.len();
        let mut i: usize = 0;
        while i < argument.invoke_with.len()
            invariant
                i <= argument.invoke_with.len(),
                spec == argument@,
                is_flag == (spec.kind == ArgumentType::Flag),
                forall|alias: Seq<char>|
                    #![trigger invocators@.contains_key(alias)]
                    #![trigger listed(spec, i as int, alias)]
                    invocators@.contains_key(alias) <==> (taken.contains_key(alias) || listed(
                        spec,
                        i as int,
                        alias,
                    )),
                forall|alias: Seq<char>|
                    taken.contains_key(alias) ==> #[trigger] invocators@[alias] == taken[alias],
                forall|alias: Seq<char>|
                    listed(spec, i as int, alias) ==> #[trigger] invocators@[alias] == position,
                forall|alias: Seq<char>| #[trigger]
                    listed(spec, spec.aliases.len() as int, alias) ==> !taken.contains_key(alias),
            decreases argument.invoke_with.len() - i,
        {
            let item = argument.invoke_with[i].clone();
            assert(item@ == spec.aliases[i as int]);
            let ghost earlier = invocators@;
            let ghost plain = spec.aliases[i as int];
            let ghost next = i + 1;
            if is_flag {
                let negative = Parser::negate(item.as_str());
                invocators.insert(negative, position);
            }
            invocators.insert(item, position);
            proof {
                assert forall|alias: Seq<char>| #[trigger]
                    listed(spec, next, alias) <==> (listed(spec, i as int, alias) || alias == plain
                        || (is_flag && alias == negated(plain))) by {
                    if listed(spec, next, alias) && !listed(spec, i as int, alias) {
                        let j = choose|j: int|
                            0 <= j < next && j < spec.aliases.len() && (alias
                                == #[trigger] spec.aliases[j] || (spec.kind == ArgumentType::Flag
                                && alias == negated(spec.aliases[j])));
                        assert(j == i);
                    }
                    if listed(spec, i as int, alias) {
                        let j = choose|j: int|
                            0 <= j < i && j < spec.aliases.len() && (alias
                                == #[trigger] spec.aliases[j] || (spec.kind == ArgumentType::Flag
                                && alias == negated(spec.aliases[j])));
                        assert(alias == spec.aliases[j] || (spec.kind == ArgumentType::Flag
                            && alias == negated(spec.aliases[j])));
                    }
                    if alias == plain || (is_flag && alias == negated(plain)) {
                        assert(alias == spec.aliases[i as int] || (spec.kind
                            == ArgumentType::Flag && alias == negated(spec.aliases[i as int])));
                    }
                }
                assert forall|alias: Seq<char>| #[trigger] listed(spec, next, alias) implies listed(
                    spec,
                    spec.aliases.len() as int,
                    alias,
                ) by {
                    let j = choose|j: int|
                        0 <= j < next && j < spec.aliases.len() && (alias
                            == #[trigger] spec.aliases[j] || (spec.kind == ArgumentType::Flag
                            && alias == negated(spec.aliases[j])));
                    assert(alias == spec.aliases[j] || (spec.kind == ArgumentType::Flag && alias
                        == negated(spec.aliases[j])));
                }
                assert forall|alias: Seq<char>|
                    #![trigger invocators@.contains_key(alias)]
                    #![trigger listed(spec, next, alias)]
                    invocators@.contains_key(alias) <==> (taken.contains_key(alias) || listed(
                        spec,
                        next,
                        alias,
                    )) by {
                    assert(invocators@.contains_key(alias) <==> (earlier.contains_key(alias)
                        || alias == plain || (is_flag && alias == negated(plain))));
                    assert(earlier.contains_key(alias) <==> (taken.contains_key(alias) || listed(
                        spec,
                        i as int,
                        alias,
                    )));
                    assert(listed(spec, next, alias) <==> (listed(spec, i as int, alias) || alias
                        == plain || (is_flag && alias == negated(plain))));
                }
                assert forall|alias: Seq<char>| taken.contains_key(alias) implies #[trigger]
                    invocators@[alias] == taken[alias] by {
                    assert(listed(spec, next, alias) ==> !taken.contains_key(alias));
                    assert(earlier[alias] == taken[alias]);
                }
                assert forall|alias: Seq<char>| listed(spec, next, alias) implies #[trigger]
                    invocators@[alias] == position by {
                    if listed(spec, i as int, alias) {
                        assert(earlier[alias] == position);
                    }
                }
            }
            i += 1;
        }
        arguments.push(argument);
        proof {
            let grown = arguments@.map_values(|argument: Argument| argument@);
            assert(grown =~= specs.push(spec));
            assert(registry_ok(grown));
            assert forall|alias: Seq<char>| #[trigger] invocators@.contains_key(alias) implies
                invocators@[alias] < arguments.len() && answers_to(
                grown[invocators@[alias] as int],
                alias,
            ) by {
                lemma_listed_is_answers_to(spec, alias);
                if taken.contains_key(alias) {
                    assert(grown[taken[alias] as int] == specs[taken[alias] as int]);
                }
            }
            assert forall|i: int, alias: Seq<char>|
                0 <= i < grown.len() && #[trigger] answers_to(
                    grown[i],
                    alias,
                ) implies invocators@.contains_key(alias) by {
                lemma_listed_is_answers_to(spec, alias);
                if i < specs.len() {
                    assert(answers_to(specs[i], alias));
                }
            }
        }
        *self = Parser { arguments, invocators };
        Ok(())
    }

    /// Splits a cluster token into the invocators it stands for: `-abc` into
    /// `-a`, `-b`, `-c`, and `abc` into `a`, `b`, `c`. A token that begins with
    /// `--` is no cluster.
    pub fn break_apart(word: &str) -> (r: Option<Vec<String>>)
        ensures
            match r {
                Some(parts) => splittable(word@) && texts(parts@) == sub_aliases(word@),
                None => !splittable(word@),
            },
    {
        proof {
            reveal_strlit("--");
            reveal_strlit("-");
            assert("--"@ =~= long_dashes());
            assert("-"@ =~= short_dash());
        }
        if starts_with(word, "--") {
            return None;
        }
        let dashed = starts_with(word, "-");
        let length = word.unicode_len();
        let ascii = word.is_ascii();
        let first: usize = if dashed {
            1
        } else {
            0
        };
        assert(dashed ==> word@.len() >= 1);
        let mut parts: Vec<String> = Vec::new();
        let mut at: usize = first;
        while at < length
            invariant
                first <= at <= length,
                length == word@.len(),
                ascii ==> word.is_ascii(),
                first == if dashed { 1usize } else { 0usize },
                dashed == short_dash().is_prefix_of(word@),
                "-"@ == short_dash(),
                parts@.len() == at - first,
                forall|i: int| 0 <= i < parts@.len() ==> parts@[i]@ == sub_aliases(word@)[i],
            decreases length - at,
        {
            let letter = char_text(word, ascii, at);
            let part = if dashed {
                joined("-", letter)
            } else {
                String::from_str(letter)
            };
            assert(part@ =~= sub_aliases(word@)[at - first]);
            parts.push(part);
            at += 1;
        }
        assert(texts(parts@) =~= sub_aliases(word@));
        Some(parts)
    }

    /// The positions of the flags that the cluster `word` raises, in the order
    /// of its sub-aliases; `None` where `word` is no cluster of flags.
    fn cluster(&self, word: &str) -> (r: Option<Vec<usize>>)
        ensures
            match r {
                Some(flags) => {
                    &&& is_cluster(self@, word@)
                    &&& flags@.len() == sub_aliases(word@).len()
                    &&& forall|i: int|
                        0 <= i < flags@.len() ==> #[trigger] flags@[i] < self@.len()
                            && self@[flags@[i] as int].name == cluster_names(self@, word@)[i]
                },
                None => !is_cluster(self@, word@),
            },
    {
        if self.contains_argument(word) {
            return None;
        }
        match Parser::break_apart(word) {
            None => None,
            Some(parts) => {
                let ghost subs = sub_aliases(word@);
                let mut flags: Vec<usize> = Vec::new();
                let mut i: usize = 0;
                while i < parts.len()
                    invariant
                        i <= parts@.len(),
                        subs == texts(parts@),
                        subs == sub_aliases(word@),
                        flags@.len() == i,
                        forall|j: int| 0 <= j < i ==> raises_flag(self@, #[trigger] subs[j]),
                        forall|j: int|
                            0 <= j < i ==> #[trigger] flags@[j] < self@.len() && resolve(
                                self@,
                                subs[j],
                            ) == Some(self@[flags@[j] as int]),
                    decreases parts@.len() - i,
                {
                    assert(subs[i as int] == parts@[i as int]@);
                    match self.locate(parts[i].as_str()) {
                        Some(at) => {
                            match self.arguments[at].argument_type {
                                ArgumentType::Flag => {
                                    flags.push(at);
                                },
                                _ => {
                                    assert(!raises_flag(self@, subs[i as int]));
                                    return None;
                                },
                            }
                        },
                        None => {
                            assert(!raises_flag(self@, subs[i as int]));
                            return None;
                        },
                    }
                    i += 1;
                }
                Some(flags)
            },
        }
    }

    /// Whether `token` is an argument and so cannot be a value.
    fn is_argument(&self, token: &str) -> (r: bool)
        ensures
            r == argument_like(self@, token@),
    {
        if self.contains_argument(token) {
            true
        } else {
            self.cluster(token).is_some()
        }
    }

    /// Copies of the tokens from position `from` up to the next argument or
    /// the end of the sequence.
    fn take_values(&self, arguments: &[&str], from: usize) -> (r: Vec<String>)
        requires
            from <= arguments@.len(),
        ensures
            r@.len() == value_run(self@, slice_texts(arguments@), from as int),
            from + r@.len() <= arguments@.len(),
            texts(r@) == slice_texts(arguments@).subrange(from as int, from + r@.len()),
    {
        let ghost tokens = slice_texts(arguments@);
        let mut values: Vec<String> = Vec::new();
        let mut at: usize = from;
        while at < arguments.len()
            invariant
                from <= at <= arguments@.len(),
                tokens == slice_texts(arguments@),
                values@.len() == at - from,
                forall|i: int| 0 <= i < values@.len() ==> values@[i]@ == tokens[from + i],
                value_run(self@, tokens, from as int) == (at - from) + value_run(
                    self@,
                    tokens,
                    at as int,
                ),
            ensures
                at == arguments@.len() || argument_like(self@, tokens[at as int]),
            decreases arguments@.len() - at,
        {
            let token = arguments[at];
            assert(tokens[at as int] == token@);
            if self.is_argument(token) {
                break ;
            }
            values.push(String::from_str(token));
            at += 1;
        }
        assert(texts(values@) =~= tokens.subrange(from as int, from + values@.len()));
        values
    }

    /// Lets the token at position `pos` take effect on `parsed`, and says
    /// where the walk goes on.
    fn consume(&self, arguments: &[&str], pos: usize, parsed: &mut ParsedArguments) -> (r: Result<
        usize,
        ParseError,
    >)
        requires
            pos < arguments@.len(),
        ensures
            match effect(self@, slice_texts(arguments@), pos as int) {
                Ok(e) => {
                    &&& r matches Ok(next) && next == pos + e.width()
                    &&& pos + e.width() <= arguments@.len()
                    &&& final(parsed)@ == e.apply(old(parsed)@)
                },
                Err(error) => r matches Err(e) && e@ == error,
            },
    {
        let ghost tokens = slice_texts(arguments@);
        let word = arguments[pos];
        assert(tokens[pos as int] == word@);
        match self.locate(word) {
            Some(at) => {
                let argument = &self.arguments[at];
                assert(argument@ == self@[at as int]);
                let negation = Parser::detect_negation(word);
                match argument.argument_type {
                    ArgumentType::Flag => {
                        parsed.store(argument.name.clone(), Value::Flag(!negation));
                        Ok(pos + 1)
                    },
                    ArgumentType::Word => {
                        if negation {
                            return Err(ParseError::NegationOnNonFlag);
                        }
                        if pos + 1 >= arguments.len() {
                            return Err(ParseError::MissingValue);
                        }
                        let next = arguments[pos + 1];
                        assert(tokens[pos + 1] == next@);
                        if self.is_argument(next) {
                            return Err(ParseError::MissingValue);
                        }
                        parsed.store(argument.name.clone(), Value::Word(String::from_str(next)));
                        Ok(pos + 2)
                    },
                    ArgumentType::Vector => {
                        if negation {
                            return Err(ParseError::NegationOnNonFlag);
                        }
                        let values = self.take_values(arguments, pos + 1);
                        if values.len() == 0 {
                            return Err(ParseError::EmptyVector);
                        }
                        let next = pos + 1 + values.len();
                        parsed.store(argument.name.clone(), Value::Vector(values));
                        Ok(next)
                    },
                }
            },
            None => {
                match self.cluster(word) {
                    Some(flags) => {
                        let ghost names = cluster_names(self@, word@);
                        let ghost before = parsed@;
                        let mut i: usize = 0;
                        while i < flags.len()
                            invariant
                                i <= flags@.len(),
                                names == cluster_names(self@, word@),
                                flags@.len() == names.len(),
                                forall|j: int|
                                    0 <= j < flags@.len() ==> #[trigger] flags@[j] < self@.len()
                                        && self@[flags@[j] as int].name == names[j],
                                parsed@ == raise(before, names.take(i as int)),
                            decreases flags@.len() - i,
                        {
                            let flag = &self.arguments[flags[i]];
                            assert(flag@ == self@[flags@[i as int] as int]);
                            parsed.store(flag.name.clone(), Value::Flag(true));
                            proof {
                                let shorter = names.take(i as int);
                                let longer = names.take(i + 1);
                                assert(longer =~= shorter.push(names[i as int]));
                                assert forall|name: Seq<char>| longer.contains(name) <==> (
                                shorter.contains(name) || name == names[i as int]) by {
                                    if shorter.contains(name) {
                                        let k = choose|k: int|
                                            0 <= k < shorter.len() && shorter[k] == name;
                                        assert(longer[k] == name);
                                    }
                                    if name == names[i as int] {
                                        assert(longer[i as int] == name);
                                    }
                                }
                                assert(parsed@ =~= raise(before, longer));
                            }
                            i += 1;
                        }
                        assert(names.take(flags@.len() as int) =~= names);
                        Ok(pos + 1)
                    },
                    None => Ok(pos + 1),
                }
            },
        }
    }

    /// The position of the first required declaration, in the order of
    /// registration, for which `parsed` holds no value.
    fn missing(&self, parsed: &ParsedArguments) -> (r: Option<usize>)
        ensures
            match r {
                Some(at) => at < self@.len() && first_missing(self@, parsed@, 0) == Some(at as int),
                None => first_missing(self@, parsed@, 0) is None,
            },
    {
        let mut at: usize = 0;
        while at < self.arguments.len()
            invariant
                at <= self@.len(),
                self@.len() == self.arguments@.len(),
                first_missing(self@, parsed@, at as int) == first_missing(self@, parsed@, 0),
            decreases self@.len() - at,
        {
            let argument = &self.arguments[at];
            assert(argument@ == self@[at as int]);
            if argument.required && !parsed.contains(argument.name.as_str()) {
                return Some(at);
            }
            at += 1;
        }
        None
    }

    /// Parses `arguments` against the registered declarations, left to right
    /// and in one pass.
    ///
    /// A token that invokes a flag stores `true` under the flag's name, or
    /// `false` where the token is negated. One that invokes a word argument
    /// stores the next token, which must be there and must be no argument. One
    /// that invokes a vector argument stores the tokens behind it up to the
    /// next argument or the end, of which there must be at least one. A
    /// negated token that invokes a word or vector argument is an error. A
    /// cluster of flags stores `true` under the name of each. Any other token
    /// that no argument takes as a value is passed over. At the end every
    /// required argument must have a value.
    pub fn parse_arguments(&self, arguments: &[&str]) -> (r: Result<ParsedArguments, ParseError>)
        ensures
            match parse(self@, slice_texts(arguments@)) {
                Ok(found) => r matches Ok(parsed) && parsed@ == found,
                Err(error) => r matches Err(e) && e@ == error,
            },
            registry_ok(self@),
    {
        proof {
            use_type_invariant(self);
        }
        let ghost tokens = slice_texts(arguments@);
        let mut parsed = ParsedArguments::new();
        let mut pos: usize = 0;
        while pos < arguments.len()
            invariant
                pos <= arguments@.len(),
                tokens == slice_texts(arguments@),
                registry_ok(self@),
                walk(self@, tokens, pos as int, parsed@) == walk(self@, tokens, 0, Map::empty()),
            decreases arguments@.len() - pos,
        {
            match self.consume(arguments, pos, &mut parsed) {
                Ok(next) => {
                    pos = next;
                },
                Err(error) => {
                    return Err(error);
                },
            }
        }
        match self.missing(&parsed) {
            Some(at) => {
                let argument = &self.arguments[at];
                assert(argument@ == self@[at as int]);
                Err(ParseError::MissingRequired(argument.identity()))
            },
            None => Ok(parsed),
        }
    }
}

impl Default for Parser {
    /// A registry without declarations.
    fn default() -> (r: Parser)
        ensures
            r@ == Seq::<ArgumentView>::empty(),
    {
        Parser::new()
    }
}

} // verus!
