//! What a token sequence means against a registry: which tokens are
//! arguments, which are their values, and what the walk over them finds.

use vstd::prelude::*;
use crate::argument::arguments::ArgumentView;
use crate::argument::invocators::{long_dashes, short_dash};
use crate::argument::types::ArgumentType;
use crate::parsing::errors::ParseErrorView;
use crate::parsing::negation::is_negated;
use crate::parsing::registry::{known, resolve};
use crate::parsing::values::ValueView;

verus! {

/// Whether `token` may be read as a cluster of one-character invocators: it
/// does not begin with `--`.
pub open spec fn splittable(token: Seq<char>) -> bool {
    !long_dashes().is_prefix_of(token)
}

/// The invocators that a cluster token stands for: for `-abc` they are `-a`,
/// `-b`, `-c`; for `abc` they are `a`, `b`, `c`.
pub open spec fn sub_aliases(token: Seq<char>) -> Seq<Seq<char>> {
    if short_dash().is_prefix_of(token) {
        Seq::new((token.len() - 1) as nat, |i: int| seq!['-', token[i + 1]])
    } else {
        Seq::new(token.len(), |i: int| seq![token[i]])
    }
}

/// Whether `alias` invokes a flag.
pub open spec fn raises_flag(specs: Seq<ArgumentView>, alias: Seq<char>) -> bool {
    match resolve(specs, alias) {
        Some(spec) => spec.kind == ArgumentType::Flag,
        None => false,
    }
}

/// Whether `token` is a cluster of flags: no invocator itself, not beginning
/// with `--`, and each of its sub-aliases invokes a flag.
pub open spec fn is_cluster(specs: Seq<ArgumentView>, token: Seq<char>) -> bool {
    &&& !known(specs, token)
    &&& splittable(token)
    &&& forall|i: int|
        0 <= i < sub_aliases(token).len() ==> raises_flag(specs, #[trigger] sub_aliases(token)[i])
}

/// The names of the flags that the sub-aliases of `token` invoke, in order.
pub open spec fn cluster_names(specs: Seq<ArgumentView>, token: Seq<char>) -> Seq<Seq<char>> {
    sub_aliases(token).map_values(|alias: Seq<char>| resolve(specs, alias).unwrap().name)
}

/// Whether `token` is an argument and so cannot be a value: it invokes a
/// declaration, or it is a cluster of flags.
pub open spec fn argument_like(specs: Seq<ArgumentView>, token: Seq<char>) -> bool {
    known(specs, token) || is_cluster(specs, token)
}

/// The number of tokens from position `from` on that come before the next
/// argument or the end of the sequence.
pub open spec fn value_run(specs: Seq<ArgumentView>, tokens: Seq<Seq<char>>, from: int) -> nat
    decreases tokens.len() - from,
{
    if from < 0 || from >= tokens.len() || argument_like(specs, tokens[from]) {
        0
    } else {
        1 + value_run(specs, tokens, from + 1)
    }
}

/// The run of values ends inside the sequence, holds no argument, and is
/// followed by an argument or by the end of the sequence.
pub proof fn lemma_value_run(specs: Seq<ArgumentView>, tokens: Seq<Seq<char>>, from: int)
    requires
        0 <= from <= tokens.len(),
    ensures
        from + value_run(specs, tokens, from) <= tokens.len(),
        forall|at: int|
            from <= at < from + value_run(specs, tokens, from) ==> !argument_like(
                specs,
                #[trigger] tokens[at],
            ),
        from + value_run(specs, tokens, from) == tokens.len() || argument_like(
            specs,
            tokens[from + value_run(specs, tokens, from)],
        ),
    decreases tokens.len() - from,
{
    if from < tokens.len() && !argument_like(specs, tokens[from]) {
        lemma_value_run(specs, tokens, from + 1);
    }
}

/// What the token at one position does to the outcome.
pub enum Effect {
    /// It is no argument and is passed over.
    Skip,
    /// It invokes an argument: `value` is stored under `name`, and the
    /// `taken` tokens behind it are used up as its value.
    Store { name: Seq<char>, value: ValueView, taken: nat },
    /// It is a cluster: each of `names` is stored as a flag that is set.
    Raise { names: Seq<Seq<char>> },
}

impl Effect {
    /// The number of tokens that the effect uses up.
    pub open spec fn width(self) -> nat {
        match self {
            Effect::Skip => 1,
            Effect::Store { taken, .. } => 1 + taken,
            Effect::Raise { .. } => 1,
        }
    }

    /// Whether the effect stores a value under `name`.
    pub open spec fn touches(self, name: Seq<char>) -> bool {
        match self {
            Effect::Skip => false,
            Effect::Store { name: stored, .. } => stored == name,
            Effect::Raise { names } => names.contains(name),
        }
    }

    /// The value that the effect stores under a name it touches.
    pub open spec fn written(self) -> ValueView {
        match self {
            Effect::Store { value, .. } => value,
            _ => ValueView::Flag(true),
        }
    }

    /// The outcome `found` after the effect.
    pub open spec fn apply(self, found: Map<Seq<char>, ValueView>) -> Map<Seq<char>, ValueView> {
        match self {
            Effect::Skip => found,
            Effect::Store { name, value, .. } => found.insert(name, value),
            Effect::Raise { names } => raise(found, names),
        }
    }
}

/// The outcome `found` with each of `names` stored as a flag that is set.
pub open spec fn raise(found: Map<Seq<char>, ValueView>, names: Seq<Seq<char>>) -> Map<
    Seq<char>,
    ValueView,
> {
    Map::new(
        |name: Seq<char>| found.contains_key(name) || names.contains(name),
        |name: Seq<char>|
            if names.contains(name) {
                ValueView::Flag(true)
            } else {
                found[name]
            },
    )
}

/// What the token at position `pos` does, or the error at which the walk
/// stops there.
pub open spec fn effect(specs: Seq<ArgumentView>, tokens: Seq<Seq<char>>, pos: int) -> Result<
    Effect,
    ParseErrorView,
>
    recommends
        0 <= pos < tokens.len(),
{
    let token = tokens[pos];
    match resolve(specs, token) {
        Some(spec) => match spec.kind {
            ArgumentType::Flag => Ok(
                Effect::Store {
                    name: spec.name,
                    value: ValueView::Flag(!is_negated(token)),
                    taken: 0,
                },
            ),
            ArgumentType::Word => if is_negated(token) {
                Err(ParseErrorView::NegationOnNonFlag)
            } else if pos + 1 >= tokens.len() || argument_like(specs, tokens[pos + 1]) {
                Err(ParseErrorView::MissingValue)
            } else {
                Ok(Effect::Store { name: spec.name, value: ValueView::Word(tokens[pos + 1]), taken: 1 })
            },
            ArgumentType::Vector => if is_negated(token) {
                Err(ParseErrorView::NegationOnNonFlag)
            } else {
                let taken = value_run(specs, tokens, pos + 1);
                if taken == 0 {
                    Err(ParseErrorView::EmptyVector)
                } else {
                    Ok(
                        Effect::Store {
                            name: spec.name,
                            value: ValueView::Vector(tokens.subrange(pos + 1, pos + 1 + taken)),
                            taken,
                        },
                    )
                }
            },
        },
        None => if is_cluster(specs, token) {
            Ok(Effect::Raise { names: cluster_names(specs, token) })
        } else {
            Ok(Effect::Skip)
        },
    }
}

/// The outcome of walking the tokens from position `pos` on, left to right,
/// with `found` in hand: what is found at the end, or the first error.
pub open spec fn walk(
    specs: Seq<ArgumentView>,
    tokens: Seq<Seq<char>>,
    pos: int,
    found: Map<Seq<char>, ValueView>,
) -> Result<Map<Seq<char>, ValueView>, ParseErrorView>
    decreases tokens.len() - pos,
    via walk_ends
{
    if pos < 0 || pos >= tokens.len() {
        Ok(found)
    } else {
        match effect(specs, tokens, pos) {
            Ok(e) => walk(specs, tokens, pos + e.width(), e.apply(found)),
            Err(error) => Err(error),
        }
    }
}

#[via_fn]
proof fn walk_ends(
    specs: Seq<ArgumentView>,
    tokens: Seq<Seq<char>>,
    pos: int,
    found: Map<Seq<char>, ValueView>,
) {
    if 0 <= pos < tokens.len() {
        lemma_effect_width(specs, tokens, pos);
    }
}

/// An effect uses up at least the token it stands at, and no token beyond
/// the end of the sequence.
pub proof fn lemma_effect_width(specs: Seq<ArgumentView>, tokens: Seq<Seq<char>>, pos: int)
    requires
        0 <= pos < tokens.len(),
    ensures
        effect(specs, tokens, pos) matches Ok(e) ==> pos < pos + e.width() <= tokens.len(),
{
    lemma_value_run(specs, tokens, pos + 1);
}

/// Whether the walk that starts at position `from` comes to stand at position
/// `to`: the tokens in between are used up, without error, by the arguments
/// the walk meets on its way.
pub open spec fn reaches(specs: Seq<ArgumentView>, tokens: Seq<Seq<char>>, from: int, to: int) -> bool
    decreases to - from,
{
    if from >= to {
        from == to
    } else if from < 0 || from >= tokens.len() {
        false
    } else {
        match effect(specs, tokens, from) {
            Ok(e) => from + e.width() <= to && reaches(specs, tokens, from + e.width(), to),
            Err(_) => false,
        }
    }
}

/// Whether the walk over `tokens` reads the token at position `at` as a token
/// of its own, and not as the value of an argument before it.
pub open spec fn met(specs: Seq<ArgumentView>, tokens: Seq<Seq<char>>, at: int) -> bool {
    0 <= at < tokens.len() && reaches(specs, tokens, 0, at)
}

/// Whether the token at position `at`, read as a token of its own, stores a
/// value under `name`.
pub open spec fn gives(
    specs: Seq<ArgumentView>,
    tokens: Seq<Seq<char>>,
    at: int,
    name: Seq<char>,
) -> bool {
    match effect(specs, tokens, at) {
        Ok(e) => e.touches(name),
        Err(_) => false,
    }
}

/// The position, from `from` on, of the first required declaration for which
/// `found` holds no value.
pub open spec fn first_missing(
    specs: Seq<ArgumentView>,
    found: Map<Seq<char>, ValueView>,
    from: int,
) -> Option<int>
    decreases specs.len() - from,
{
    if from < 0 || from >= specs.len() {
        None
    } else if specs[from].required && !found.contains_key(specs[from].name) {
        Some(from)
    } else {
        first_missing(specs, found, from + 1)
    }
}

/// The outcome of parsing `tokens`: what the walk finds, where it meets no
/// error and finds every required argument; else the first error of the walk,
/// or the required argument, first in the order of registration, that it did
/// not find.
pub open spec fn parse(specs: Seq<ArgumentView>, tokens: Seq<Seq<char>>) -> Result<
    Map<Seq<char>, ValueView>,
    ParseErrorView,
> {
    match walk(specs, tokens, 0, Map::empty()) {
        Ok(found) => match first_missing(specs, found, 0) {
            Some(at) => Err(ParseErrorView::MissingRequired(specs[at].identity())),
            None => Ok(found),
        },
        Err(error) => Err(error),
    }
}

} // verus!
