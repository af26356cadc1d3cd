//! What a token sequence means to the strict parser.
//!
//! A token that begins with `--`, or with one dash and at most one more
//! byte, is an option and must be known; `--no-` and `-no-` negate a flag. A
//! longer token with one dash is a bundle of short flags, or a negated short
//! flag. A token without a dash in front is a value, and is passed over where
//! no option takes it.

use vstd::prelude::*;
use crate::argument::invocators::{is_long, is_short, long_dashes, short_dash};
use crate::defarg::arg::{byte_length, ArgumentView};
use crate::defarg::atypes::AType;
use crate::parser::argvalues::ArgValueView;
use crate::parsing::errors::{ParseErrorView, RegistrationError};
use crate::parsing::negation::{long_marker, short_marker};
use crate::text::replaced;

verus! {

/// The position, from `from` on, of the first option that `identity`
/// identifies.
pub open spec fn position(specs: Seq<ArgumentView>, identity: Seq<char>, from: int) -> Option<int>
    decreases specs.len() - from,
{
    if from < 0 || from >= specs.len() {
        None
    } else if specs[from].identified_by(identity) {
        Some(from)
    } else {
        position(specs, identity, from + 1)
    }
}

/// Whether `identity` is the name, the short form or the long form of an
/// option.
pub open spec fn contains(specs: Seq<ArgumentView>, identity: Seq<char>) -> bool {
    position(specs, identity, 0) is Some
}

/// The option that `identity` identifies.
pub open spec fn get(specs: Seq<ArgumentView>, identity: Seq<char>) -> Option<ArgumentView> {
    match position(specs, identity, 0) {
        Some(at) => Some(specs[at]),
        None => None,
    }
}

/// Whether `identity` identifies an option of the kind `kind`.
pub open spec fn has_kind(specs: Seq<ArgumentView>, identity: Seq<char>, kind: AType) -> bool {
    match get(specs, identity) {
        Some(spec) => spec.atype == kind,
        None => false,
    }
}

/// The first match is a match, and nothing before it is.
pub proof fn lemma_position(specs: Seq<ArgumentView>, identity: Seq<char>, from: int)
    requires
        0 <= from <= specs.len(),
    ensures
        match position(specs, identity, from) {
            Some(at) => from <= at < specs.len() && specs[at].identified_by(identity) && forall|
                i: int,
            | from <= i < at ==> !(#[trigger] specs[i]).identified_by(identity),
            None => forall|i: int|
                from <= i < specs.len() ==> !(#[trigger] specs[i]).identified_by(identity),
        },
    decreases specs.len() - from,
{
    if from < specs.len() && !specs[from].identified_by(identity) {
        lemma_position(specs, identity, from + 1);
    }
}

/// Whether the name, the short form or the long form of `spec` identifies a
/// registered option.
pub open spec fn clashes(specs: Seq<ArgumentView>, spec: ArgumentView) -> bool {
    ||| contains(specs, spec.name)
    ||| (spec.short matches Some(short) && contains(specs, short))
    ||| (spec.long matches Some(long) && contains(specs, long))
}

/// What registering `spec` gives: the registry with `spec` at its end, or the
/// reason why `spec` is refused.
pub open spec fn register(specs: Seq<ArgumentView>, spec: ArgumentView) -> Result<
    Seq<ArgumentView>,
    RegistrationError,
> {
    if !spec.valid() {
        Err(RegistrationError::InvalidSpec)
    } else if clashes(specs, spec) {
        Err(RegistrationError::DuplicateAlias)
    } else {
        Ok(specs.push(spec))
    }
}

/// Every option is valid, and no string identifies two of them.
pub open spec fn distinct(specs: Seq<ArgumentView>) -> bool {
    &&& forall|i: int| 0 <= i < specs.len() ==> (#[trigger] specs[i]).valid()
    &&& forall|i: int, j: int, identity: Seq<char>|
        0 <= i < specs.len() && 0 <= j < specs.len() && #[trigger] specs[i].identified_by(identity)
            && #[trigger] specs[j].identified_by(identity) ==> i == j
}

/// Registration keeps the options distinct.
pub proof fn lemma_register_keeps_distinct(specs: Seq<ArgumentView>, spec: ArgumentView)
    requires
        distinct(specs),
        register(specs, spec) is Ok,
    ensures
        distinct(specs.push(spec)),
{
    let grown = specs.push(spec);
    let last = specs.len() as int;
    assert forall|i: int, j: int, identity: Seq<char>|
        0 <= i < grown.len() && 0 <= j < grown.len() && #[trigger] grown[i].identified_by(identity)
            && #[trigger] grown[j].identified_by(identity) implies i == j by {
        if i < last && j < last {
            assert(specs[i].identified_by(identity) && specs[j].identified_by(identity));
        } else if i < last || j < last {
            let old = if i < last {
                i
            } else {
                j
            };
            assert(specs[old].identified_by(identity));
            lemma_position(specs, identity, 0);
            assert(contains(specs, identity));
        }
    }
}

/// Among distinct options, the one that `identity` identifies is found
/// whatever the order of registration.
pub proof fn lemma_get_is_the_owner(specs: Seq<ArgumentView>, i: int, identity: Seq<char>)
    requires
        distinct(specs),
        0 <= i < specs.len(),
        specs[i].identified_by(identity),
    ensures
        position(specs, identity, 0) == Some(i),
        get(specs, identity) == Some(specs[i]),
{
    lemma_position(specs, identity, 0);
}

/// Whether `token` is read as one option: it begins with `--`, or with one
/// dash and takes fewer than three bytes.
pub open spec fn is_option(token: Seq<char>) -> bool {
    is_long(token) || (is_short(token) && byte_length(token) < 3)
}

/// Whether `token` is read as a bundle of short flags or as a negated short
/// flag: it begins with one dash and takes more than two bytes.
pub open spec fn is_bundle(token: Seq<char>) -> bool {
    is_short(token) && byte_length(token) > 2
}

/// Whether an option token is negated: `--no-` in front of a long one, `-no-`
/// in front of a short one.
pub open spec fn option_negated(token: Seq<char>) -> bool {
    if is_long(token) {
        long_marker().is_prefix_of(token)
    } else {
        short_marker().is_prefix_of(token)
    }
}

/// The option that an option token names: the token itself, or for a negated
/// token the token with every `--no-` turned into `--` (every `-no-` into `-`
/// for a short one).
pub open spec fn option_word(token: Seq<char>) -> Seq<char> {
    if !option_negated(token) {
        token
    } else if is_long(token) {
        replaced(token, long_marker(), long_dashes())
    } else {
        replaced(token, short_marker(), short_dash())
    }
}

/// The short forms that a bundle stands for: `-c` for each character `c` of
/// the token that is no dash.
pub open spec fn bundle_items(token: Seq<char>) -> Seq<Seq<char>>
    decreases token.len(),
{
    if token.len() == 0 {
        Seq::empty()
    } else if token.last() == '-' {
        bundle_items(token.drop_last())
    } else {
        bundle_items(token.drop_last()).push(seq!['-', token.last()])
    }
}

/// The number of tokens from position `from` on that come before the next
/// token with a dash in front, or the end of the sequence.
pub open spec fn plain_run(tokens: Seq<Seq<char>>, from: int) -> nat
    decreases tokens.len() - from,
{
    if from < 0 || from >= tokens.len() || short_dash().is_prefix_of(tokens[from]) {
        0
    } else {
        1 + plain_run(tokens, from + 1)
    }
}

/// The run of plain tokens ends inside the sequence.
pub proof fn lemma_plain_run(tokens: Seq<Seq<char>>, from: int)
    requires
        0 <= from <= tokens.len(),
    ensures
        from + plain_run(tokens, from) <= tokens.len(),
    decreases tokens.len() - from,
{
    if from < tokens.len() && !short_dash().is_prefix_of(tokens[from]) {
        lemma_plain_run(tokens, from + 1);
    }
}

/// What the token at one position does to the outcome.
pub enum Step {
    /// It is a value that no option takes, and is passed over.
    Skip,
    /// It names an option: `value` is stored under `name`, and the `taken`
    /// tokens behind it are used up as its value.
    Store { name: Seq<char>, value: ArgValueView, taken: nat },
    /// It is a bundle: each of `names` is stored as a flag that is set.
    Raise { names: Seq<Seq<char>> },
}

impl Step {
    /// The number of tokens that the step uses up.
    pub open spec fn width(self) -> nat {
        match self {
            Step::Skip => 1,
            Step::Store { taken, .. } => 1 + taken,
            Step::Raise { .. } => 1,
        }
    }

    /// The outcome `found` after the step.
    pub open spec fn apply(self, found: Map<Seq<char>, ArgValueView>) -> Map<
        Seq<char>,
        ArgValueView,
    > {
        match self {
            Step::Skip => found,
            Step::Store { name, value, .. } => found.insert(name, value),
            Step::Raise { names } => raised(found, names),
        }
    }
}

/// The outcome `found` with each of `names` stored as a flag that is set.
pub open spec fn raised(found: Map<Seq<char>, ArgValueView>, names: Seq<Seq<char>>) -> Map<
    Seq<char>,
    ArgValueView,
> {
    Map::new(
        |name: Seq<char>| found.contains_key(name) || names.contains(name),
        |name: Seq<char>|
            if names.contains(name) {
                ArgValueView::Flag(true)
            } else {
                found[name]
            },
    )
}

/// What an option token does at position `pos`.
pub open spec fn option_step(specs: Seq<ArgumentView>, tokens: Seq<Seq<char>>, pos: int) -> Result<
    Step,
    ParseErrorView,
> {
    let token = tokens[pos];
    let negation = option_negated(token);
    let word = option_word(token);
    if negation && !has_kind(specs, word, AType::Flag) {
        Err(ParseErrorView::NegationOnNonFlag)
    } else {
        match get(specs, word) {
            None => Err(ParseErrorView::UnrecognizedToken),
            Some(spec) => match spec.atype {
                AType::Flag => Ok(
                    Step::Store { name: spec.name, value: ArgValueView::Flag(!negation), taken: 0 },
                ),
                AType::Text => {
                    let run = plain_run(tokens, pos + 1);
                    if run == 0 {
                        Err(ParseErrorView::MissingValue)
                    } else if run > 1 {
                        Err(ParseErrorView::UnrecognizedToken)
                    } else {
                        Ok(
                            Step::Store {
                                name: spec.name,
                                value: ArgValueView::Text(tokens[pos + 1]),
                                taken: 1,
                            },
                        )
                    }
                },
                AType::Vector => {
                    let run = plain_run(tokens, pos + 1);
                    Ok(
                        Step::Store {
                            name: spec.name,
                            value: ArgValueView::Vector(tokens.subrange(pos + 1, pos + 1 + run)),
                            taken: run,
                        },
                    )
                },
            },
        }
    }
}

/// The names of the options that `items` identify, in order.
pub open spec fn names_of(specs: Seq<ArgumentView>, items: Seq<Seq<char>>) -> Seq<Seq<char>> {
    items.map_values(|item: Seq<char>| get(specs, item).unwrap().name)
}

/// What a bundle token does.
pub open spec fn bundle_step(specs: Seq<ArgumentView>, token: Seq<char>) -> Result<
    Step,
    ParseErrorView,
> {
    if short_marker().is_prefix_of(token) {
        let word = replaced(token, short_marker(), short_dash());
        if has_kind(specs, word, AType::Flag) {
            Ok(
                Step::Store {
                    name: get(specs, word).unwrap().name,
                    value: ArgValueView::Flag(false),
                    taken: 0,
                },
            )
        } else {
            Err(ParseErrorView::NegationOnNonFlag)
        }
    } else {
        let items = bundle_items(token);
        if forall|i: int| 0 <= i < items.len() ==> contains(specs, #[trigger] items[i]) {
            Ok(Step::Raise { names: names_of(specs, items) })
        } else {
            Err(ParseErrorView::UnrecognizedToken)
        }
    }
}

/// What the token at position `pos` does, or the error at which the parse
/// stops there.
pub open spec fn step(specs: Seq<ArgumentView>, tokens: Seq<Seq<char>>, pos: int) -> Result<
    Step,
    ParseErrorView,
>
    recommends
        0 <= pos < tokens.len(),
{
    if is_option(tokens[pos]) {
        option_step(specs, tokens, pos)
    } else if is_bundle(tokens[pos]) {
        bundle_step(specs, tokens[pos])
    } else {
        Ok(Step::Skip)
    }
}

/// A step uses up at least the token it stands at, and no token beyond the
/// end of the sequence.
pub proof fn lemma_step_width(specs: Seq<ArgumentView>, tokens: Seq<Seq<char>>, pos: int)
    requires
        0 <= pos < tokens.len(),
    ensures
        step(specs, tokens, pos) matches Ok(s) ==> pos < pos + s.width() <= tokens.len(),
{
    lemma_plain_run(tokens, pos + 1);
}

/// The outcome of reading the tokens from position `pos` on, left to right,
/// with `found` in hand: what is found at the end, or the first error.
pub open spec fn run(
    specs: Seq<ArgumentView>,
    tokens: Seq<Seq<char>>,
    pos: int,
    found: Map<Seq<char>, ArgValueView>,
) -> Result<Map<Seq<char>, ArgValueView>, ParseErrorView>
    decreases tokens.len() - pos,
    via run_ends
{
    if pos < 0 || pos >= tokens.len() {
        Ok(found)
    } else {
        match step(specs, tokens, pos) {
            Ok(s) => run(specs, tokens, pos + s.width(), s.apply(found)),
            Err(error) => Err(error),
        }
    }
}

#[via_fn]
proof fn run_ends(
    specs: Seq<ArgumentView>,
    tokens: Seq<Seq<char>>,
    pos: int,
    found: Map<Seq<char>, ArgValueView>,
) {
    if 0 <= pos < tokens.len() {
        lemma_step_width(specs, tokens, pos);
    }
}

/// The position, from `from` on, of the first required option for which
/// `found` holds no value.
pub open spec fn first_unmet(
    specs: Seq<ArgumentView>,
    found: Map<Seq<char>, ArgValueView>,
    from: int,
) -> Option<int>
    decreases specs.len() - from,
{
    if from < 0 || from >= specs.len() {
        None
    } else if specs[from].required && !found.contains_key(specs[from].name) {
        Some(from)
    } else {
        first_unmet(specs, found, from + 1)
    }
}

/// The outcome of a strict parse of `tokens`: what the run finds, where it
/// meets no error and finds every required option; else the first error of
/// the run, or the required option, first in the order of registration, that
/// it did not find.
pub open spec fn parse_strict(specs: Seq<ArgumentView>, tokens: Seq<Seq<char>>) -> Result<
    Map<Seq<char>, ArgValueView>,
    ParseErrorView,
> {
    match run(specs, tokens, 0, Map::empty()) {
        Ok(found) => match first_unmet(specs, found, 0) {
            Some(at) => Err(ParseErrorView::MissingRequired(specs[at].identity())),
            None => Ok(found),
        },
        Err(error) => Err(error),
    }
}

} // verus!
