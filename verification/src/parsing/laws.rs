//! What holds of every registry and every token sequence.

use vstd::prelude::*;
use crate::argument::arguments::ArgumentView;
use crate::argument::types::ArgumentType;
use crate::parsing::errors::{ParseErrorView, RegistrationError};
use crate::parsing::grammar::{
    argument_like, cluster_names, effect, first_missing, gives, is_cluster, lemma_effect_width,
    met, parse, raises_flag, reaches, splittable, sub_aliases, value_run, walk, Effect,
};
use crate::parsing::negation::{is_negated, lemma_strip_undoes_negate, negated, stripped};
use crate::parsing::registry::{
    answers_to, collides, declares, known, lemma_owner_is_unique, lemma_register_keeps_ok, owned,
    owner, register, registry_ok, resolve,
};
use crate::parsing::values::ValueView;

verus! {

/// Whether some string invokes both `a` and `b`, as declared or in the
/// negated form of a flag.
pub open spec fn share_alias(a: ArgumentView, b: ArgumentView) -> bool {
    exists|alias: Seq<char>| #[trigger] answers_to(a, alias) && #[trigger] answers_to(b, alias)
}

/// Of two named declarations that share an alias, the one registered second
/// is refused as a duplicate, whichever comes first.
pub proof fn lemma_shared_alias_is_refused(
    specs: Seq<ArgumentView>,
    a: ArgumentView,
    b: ArgumentView,
)
    requires
        a.name.len() > 0,
        b.name.len() > 0,
        share_alias(a, b),
    ensures
        register(specs, a) matches Ok(grown) ==> register(grown, b) == Err::<
            Seq<ArgumentView>,
            RegistrationError,
        >(RegistrationError::DuplicateAlias),
        register(specs, b) matches Ok(grown) ==> register(grown, a) == Err::<
            Seq<ArgumentView>,
            RegistrationError,
        >(RegistrationError::DuplicateAlias),
{
    let alias = choose|alias: Seq<char>| #[trigger]
        answers_to(a, alias) && #[trigger] answers_to(b, alias);
    if register(specs, a) is Ok {
        let grown = specs.push(a);
        assert(answers_to(grown[specs.len() as int], alias));
        assert(owned(grown, alias));
        assert(collides(grown, b));
    }
    if register(specs, b) is Ok {
        let grown = specs.push(b);
        assert(answers_to(grown[specs.len() as int], alias));
        assert(owned(grown, alias));
        assert(collides(grown, a));
    }
}

/// A declaration is refused as a duplicate exactly where it is named and
/// shares an alias with a declaration in the registry.
pub proof fn lemma_duplicate_means_shared(specs: Seq<ArgumentView>, spec: ArgumentView)
    ensures
        register(specs, spec) == Err::<Seq<ArgumentView>, RegistrationError>(
            RegistrationError::DuplicateAlias,
        ) <==> spec.name.len() > 0 && exists|i: int|
            0 <= i < specs.len() && share_alias(#[trigger] specs[i], spec),
{
    if spec.name.len() > 0 && collides(specs, spec) {
        let alias = choose|alias: Seq<char>| #[trigger]
            answers_to(spec, alias) && owned(specs, alias);
        let i = owner(specs, alias);
        assert(answers_to(specs[i], alias));
        assert(share_alias(specs[i], spec));
    }
    if exists|i: int| 0 <= i < specs.len() && share_alias(#[trigger] specs[i], spec) {
        let i = choose|i: int| 0 <= i < specs.len() && share_alias(#[trigger] specs[i], spec);
        let alias = choose|alias: Seq<char>| #[trigger]
            answers_to(specs[i], alias) && #[trigger] answers_to(spec, alias);
        assert(owned(specs, alias));
        assert(collides(specs, spec));
    }
}

/// In a sound registry, the name and every invocator of a declaration
/// resolve to that declaration, unless they begin with a negation marker; and
/// for a flag, so does the negated form of each of them.
pub proof fn lemma_alias_resolves_to_owner(specs: Seq<ArgumentView>, i: int, alias: Seq<char>)
    requires
        registry_ok(specs),
        0 <= i < specs.len(),
        declares(specs[i], alias),
    ensures
        !is_negated(alias) ==> resolve(specs, alias) == Some(specs[i]),
        specs[i].kind == ArgumentType::Flag ==> resolve(specs, negated(alias)) == Some(specs[i]),
{
    if !is_negated(alias) {
        assert(stripped(alias) == alias);
        lemma_owner_is_unique(specs, i, alias);
    }
    if specs[i].kind == ArgumentType::Flag {
        lemma_strip_undoes_negate(alias);
        lemma_owner_is_unique(specs, i, alias);
    }
}

/// What a token resolves to does not depend on the order of registration:
/// two sound registries that hold the same declarations resolve every token
/// alike.
pub proof fn lemma_resolve_ignores_order(
    specs: Seq<ArgumentView>,
    other: Seq<ArgumentView>,
    token: Seq<char>,
)
    requires
        registry_ok(specs),
        registry_ok(other),
        forall|i: int| 0 <= i < specs.len() ==> other.contains(#[trigger] specs[i]),
        forall|i: int| 0 <= i < other.len() ==> specs.contains(#[trigger] other[i]),
    ensures
        resolve(specs, token) == resolve(other, token),
{
    let alias = stripped(token);
    if owned(specs, alias) {
        let i = owner(specs, alias);
        assert(other.contains(specs[i]));
        let j = choose|j: int| 0 <= j < other.len() && other[j] == specs[i];
        lemma_owner_is_unique(other, j, alias);
    }
    if owned(other, alias) {
        let j = owner(other, alias);
        assert(specs.contains(other[j]));
        let i = choose|i: int| 0 <= i < specs.len() && specs[i] == other[j];
        lemma_owner_is_unique(specs, i, alias);
    }
}

/// What registering `declared` one after the other, from a registry without
/// declarations, gives: the registry that holds them all, or the reason why
/// the first of them to be refused is refused.
pub open spec fn register_all(declared: Seq<ArgumentView>) -> Result<
    Seq<ArgumentView>,
    RegistrationError,
>
    decreases declared.len(),
{
    if declared.len() == 0 {
        Ok(Seq::empty())
    } else {
        match register_all(declared.drop_last()) {
            Ok(specs) => register(specs, declared.last()),
            Err(error) => Err(error),
        }
    }
}

/// Where every one of `declared` is taken into the registry, the registry
/// holds them in that order, is sound, and resolves the name and every
/// invocator of each of them that has no negation marker to that declaration.
pub proof fn lemma_round_trip(declared: Seq<ArgumentView>)
    requires
        register_all(declared) is Ok,
    ensures
        register_all(declared) == Ok::<Seq<ArgumentView>, RegistrationError>(declared),
        registry_ok(declared),
        forall|i: int, alias: Seq<char>|
            0 <= i < declared.len() && #[trigger] declares(declared[i], alias) && !is_negated(alias)
                ==> resolve(declared, alias) == Some(declared[i]),
    decreases declared.len(),
{
    if declared.len() == 0 {
        assert(declared =~= Seq::empty());
    } else {
        let before = declared.drop_last();
        lemma_round_trip(before);
        assert(before.push(declared.last()) =~= declared);
        lemma_register_keeps_ok(before, declared.last());
    }
    assert forall|i: int, alias: Seq<char>|
        0 <= i < declared.len() && #[trigger] declares(declared[i], alias) && !is_negated(
            alias,
        ) implies resolve(declared, alias) == Some(declared[i]) by {
        lemma_alias_resolves_to_owner(declared, i, alias);
    }
}

/// An effect that touches a name leaves its value there; one that does not
/// leaves what was there before.
pub proof fn lemma_apply(e: Effect, found: Map<Seq<char>, ValueView>, name: Seq<char>)
    ensures
        e.touches(name) ==> e.apply(found).contains_key(name) && e.apply(found)[name]
            == e.written(),
        !e.touches(name) ==> (e.apply(found).contains_key(name) <==> found.contains_key(name))
            && (found.contains_key(name) ==> e.apply(found)[name] == found[name]),
{
}

/// A position that the walk reaches from the position behind an effect is
/// reached from the position of the effect too.
proof fn lemma_reaches_step(specs: Seq<ArgumentView>, tokens: Seq<Seq<char>>, pos: int, to: int)
    requires
        0 <= pos < tokens.len(),
        effect(specs, tokens, pos) is Ok,
        reaches(specs, tokens, pos + effect(specs, tokens, pos)->Ok_0.width(), to),
    ensures
        reaches(specs, tokens, pos, to),
        pos < to,
{
    let next = pos + effect(specs, tokens, pos)->Ok_0.width();
    assert(next <= to) by {
        if next > to {
            assert(!reaches(specs, tokens, next, to));
        }
    }
}

/// Where no token that the walk meets from `pos` on gives a value to `name`,
/// the walk ends with what `found` holds for `name`.
pub proof fn lemma_untouched(
    specs: Seq<ArgumentView>,
    tokens: Seq<Seq<char>>,
    pos: int,
    found: Map<Seq<char>, ValueView>,
    name: Seq<char>,
)
    requires
        0 <= pos <= tokens.len(),
        walk(specs, tokens, pos, found) is Ok,
        forall|at: int|
            pos <= at < tokens.len() && #[trigger] reaches(specs, tokens, pos, at) ==> !gives(
                specs,
                tokens,
                at,
                name,
            ),
    ensures
        walk(specs, tokens, pos, found)->Ok_0.contains_key(name) <==> found.contains_key(name),
        found.contains_key(name) ==> walk(specs, tokens, pos, found)->Ok_0[name] == found[name],
    decreases tokens.len() - pos,
{
    if pos < tokens.len() {
        let e = effect(specs, tokens, pos)->Ok_0;
        lemma_effect_width(specs, tokens, pos);
        assert(reaches(specs, tokens, pos, pos));
        assert(!gives(specs, tokens, pos, name));
        lemma_apply(e, found, name);
        let next = pos + e.width();
        assert forall|at: int|
            next <= at < tokens.len() && #[trigger] reaches(specs, tokens, next, at) implies !gives(
            specs,
            tokens,
            at,
            name,
        ) by {
            lemma_reaches_step(specs, tokens, pos, at);
        }
        lemma_untouched(specs, tokens, next, e.apply(found), name);
    }
}

/// The last token to give a value to `name` decides what the walk ends with
/// for `name`.
pub proof fn lemma_last_gift_stays(
    specs: Seq<ArgumentView>,
    tokens: Seq<Seq<char>>,
    pos: int,
    found: Map<Seq<char>, ValueView>,
    at: int,
    name: Seq<char>,
)
    requires
        0 <= pos <= at < tokens.len(),
        walk(specs, tokens, pos, found) is Ok,
        reaches(specs, tokens, pos, at),
        gives(specs, tokens, at, name),
        forall|later: int|
            at < later < tokens.len() && #[trigger] reaches(specs, tokens, pos, later) ==> !gives(
                specs,
                tokens,
                later,
                name,
            ),
    ensures
        walk(specs, tokens, pos, found)->Ok_0.contains_key(name),
        walk(specs, tokens, pos, found)->Ok_0[name] == effect(specs, tokens, at)->Ok_0.written(),
    decreases at - pos,
{
    let e = effect(specs, tokens, pos)->Ok_0;
    lemma_effect_width(specs, tokens, pos);
    let next = pos + e.width();
    if pos == at {
        lemma_apply(e, found, name);
        assert forall|later: int|
            next <= later < tokens.len() && #[trigger] reaches(
                specs,
                tokens,
                next,
                later,
            ) implies !gives(specs, tokens, later, name) by {
            lemma_reaches_step(specs, tokens, pos, later);
        }
        lemma_untouched(specs, tokens, next, e.apply(found), name);
    } else {
        assert(reaches(specs, tokens, next, at));
        assert forall|later: int|
            at < later < tokens.len() && #[trigger] reaches(
                specs,
                tokens,
                next,
                later,
            ) implies !gives(specs, tokens, later, name) by {
            lemma_reaches_step(specs, tokens, pos, later);
        }
        lemma_last_gift_stays(specs, tokens, next, e.apply(found), at, name);
    }
}

/// An argument that the tokens give once holds what that one token gives
/// it: no other token that the walk meets gives it a value.
pub proof fn lemma_given_once(
    specs: Seq<ArgumentView>,
    tokens: Seq<Seq<char>>,
    at: int,
    name: Seq<char>,
)
    requires
        parse(specs, tokens) is Ok,
        met(specs, tokens, at),
        gives(specs, tokens, at, name),
        forall|other: int|
            other != at && #[trigger] met(specs, tokens, other) ==> !gives(
                specs,
                tokens,
                other,
                name,
            ),
    ensures
        parse(specs, tokens)->Ok_0.contains_key(name),
        parse(specs, tokens)->Ok_0[name] == effect(specs, tokens, at)->Ok_0.written(),
{
    let empty = Map::<Seq<char>, ValueView>::empty();
    assert(walk(specs, tokens, 0, empty) == parse(specs, tokens));
    assert forall|later: int|
        at < later < tokens.len() && #[trigger] reaches(specs, tokens, 0, later) implies !gives(
        specs,
        tokens,
        later,
        name,
    ) by {
        assert(met(specs, tokens, later));
    }
    lemma_last_gift_stays(specs, tokens, 0, empty, at, name);
}

/// The walk fails with the error of the first token it meets that has one.
pub proof fn lemma_walk_fails_where_met(
    specs: Seq<ArgumentView>,
    tokens: Seq<Seq<char>>,
    pos: int,
    found: Map<Seq<char>, ValueView>,
    at: int,
)
    requires
        0 <= pos <= at < tokens.len(),
        reaches(specs, tokens, pos, at),
        effect(specs, tokens, at) is Err,
    ensures
        walk(specs, tokens, pos, found) == Err::<Map<Seq<char>, ValueView>, ParseErrorView>(
            effect(specs, tokens, at)->Err_0,
        ),
    decreases at - pos,
{
    if pos < at {
        let e = effect(specs, tokens, pos)->Ok_0;
        lemma_effect_width(specs, tokens, pos);
        lemma_walk_fails_where_met(specs, tokens, pos + e.width(), e.apply(found), at);
    }
}

/// A word argument that the walk meets as the last token, or in front of an
/// argument, makes the parse fail with `MissingValue`; a vector argument met
/// so makes it fail with `EmptyVector`; and either of them met in a negated
/// token makes it fail with `NegationOnNonFlag`.
pub proof fn lemma_argument_without_value(
    specs: Seq<ArgumentView>,
    tokens: Seq<Seq<char>>,
    at: int,
    spec: ArgumentView,
)
    requires
        met(specs, tokens, at),
        resolve(specs, tokens[at]) == Some(spec),
        spec.kind != ArgumentType::Flag,
        is_negated(tokens[at]) || at + 1 == tokens.len() || argument_like(specs, tokens[at + 1]),
    ensures
        parse(specs, tokens) == Err::<Map<Seq<char>, ValueView>, ParseErrorView>(
            if is_negated(tokens[at]) {
                ParseErrorView::NegationOnNonFlag
            } else if spec.kind == ArgumentType::Word {
                ParseErrorView::MissingValue
            } else {
                ParseErrorView::EmptyVector
            },
        ),
{
    lemma_walk_fails_where_met(specs, tokens, 0, Map::empty(), at);
}

/// A word argument given once, in a token that is not negated and with a
/// token behind it that is no argument, holds that token. A vector argument
/// given once so holds the tokens behind it up to the next argument or the
/// end, in their order.
pub proof fn lemma_argument_takes_values(
    specs: Seq<ArgumentView>,
    tokens: Seq<Seq<char>>,
    at: int,
    spec: ArgumentView,
)
    requires
        parse(specs, tokens) is Ok,
        met(specs, tokens, at),
        resolve(specs, tokens[at]) == Some(spec),
        spec.kind != ArgumentType::Flag,
        forall|other: int|
            other != at && #[trigger] met(specs, tokens, other) ==> !gives(
                specs,
                tokens,
                other,
                spec.name,
            ),
    ensures
        !is_negated(tokens[at]),
        at + 1 < tokens.len(),
        !argument_like(specs, tokens[at + 1]),
        spec.kind == ArgumentType::Word ==> parse(specs, tokens)->Ok_0[spec.name]
            == ValueView::Word(tokens[at + 1]),
        spec.kind == ArgumentType::Vector ==> parse(specs, tokens)->Ok_0[spec.name]
            == ValueView::Vector(
            tokens.subrange(at + 1, at + 1 + value_run(specs, tokens, at + 1)),
        ),
        value_run(specs, tokens, at + 1) >= 1,
{
    if effect(specs, tokens, at) is Err {
        lemma_walk_fails_where_met(specs, tokens, 0, Map::empty(), at);
    }
    lemma_given_once(specs, tokens, at, spec.name);
}

/// A token that is no invocator and whose sub-aliases all invoke flags sets
/// each of those flags; the flags that no other token gives a value hold
/// `true` in the outcome. A token of which one sub-alias invokes no flag is
/// no cluster: it gives nothing to any argument.
pub proof fn lemma_cluster(specs: Seq<ArgumentView>, tokens: Seq<Seq<char>>, at: int, k: int)
    requires
        0 <= at < tokens.len(),
        !known(specs, tokens[at]),
        splittable(tokens[at]),
        0 <= k < sub_aliases(tokens[at]).len(),
    ensures
        !raises_flag(specs, sub_aliases(tokens[at])[k]) ==> effect(specs, tokens, at) == Ok::<
            Effect,
            ParseErrorView,
        >(Effect::Skip),
        is_cluster(specs, tokens[at]) ==> gives(
            specs,
            tokens,
            at,
            resolve(specs, sub_aliases(tokens[at])[k])->Some_0.name,
        ),
        is_cluster(specs, tokens[at]) && parse(specs, tokens) is Ok && met(specs, tokens, at)
            && (forall|other: int|
            other != at && #[trigger] met(specs, tokens, other) ==> !gives(
                specs,
                tokens,
                other,
                resolve(specs, sub_aliases(tokens[at])[k])->Some_0.name,
            )) ==> parse(specs, tokens)->Ok_0[resolve(
            specs,
            sub_aliases(tokens[at])[k],
        )->Some_0.name] == ValueView::Flag(true),
{
    let subs = sub_aliases(tokens[at]);
    let name = resolve(specs, subs[k])->Some_0.name;
    if is_cluster(specs, tokens[at]) {
        let names = cluster_names(specs, tokens[at]);
        assert(names[k] == name);
        assert(names.contains(name));
        if parse(specs, tokens) is Ok && met(specs, tokens, at) && (forall|other: int|
            other != at && #[trigger] met(specs, tokens, other) ==> !gives(
                specs,
                tokens,
                other,
                name,
            )) {
            lemma_given_once(specs, tokens, at, name);
        }
    }
}

/// A flag that the tokens invoke once holds `false` where the token that
/// invokes it is negated, and `true` where it is not.
///
/// The token at position `at` is met by the walk and resolves to the flag, and
/// no other token that the walk meets gives the flag a value.
pub proof fn lemma_flag_given_once(
    specs: Seq<ArgumentView>,
    tokens: Seq<Seq<char>>,
    at: int,
    flag: ArgumentView,
)
    requires
        parse(specs, tokens) is Ok,
        met(specs, tokens, at),
        resolve(specs, tokens[at]) == Some(flag),
        flag.kind == ArgumentType::Flag,
        forall|other: int|
            other != at && #[trigger] met(specs, tokens, other) ==> !gives(
                specs,
                tokens,
                other,
                flag.name,
            ),
    ensures
        parse(specs, tokens)->Ok_0.contains_key(flag.name),
        parse(specs, tokens)->Ok_0[flag.name] == ValueView::Flag(!is_negated(tokens[at])),
{
    lemma_given_once(specs, tokens, at, flag.name);
}

/// A registered flag that the tokens invoke once, by the negated form of its
/// name or of one of its invocators, holds `false`; invoked once by the name
/// or invocator itself, where that has no negation marker, it holds `true`.
pub proof fn lemma_negated_alias_unsets_flag(
    specs: Seq<ArgumentView>,
    tokens: Seq<Seq<char>>,
    at: int,
    i: int,
    alias: Seq<char>,
)
    requires
        registry_ok(specs),
        0 <= i < specs.len(),
        specs[i].kind == ArgumentType::Flag,
        declares(specs[i], alias),
        parse(specs, tokens) is Ok,
        met(specs, tokens, at),
        tokens[at] == negated(alias) || (tokens[at] == alias && !is_negated(alias)),
        forall|other: int|
            other != at && #[trigger] met(specs, tokens, other) ==> !gives(
                specs,
                tokens,
                other,
                specs[i].name,
            ),
    ensures
        parse(specs, tokens)->Ok_0.contains_key(specs[i].name),
        tokens[at] == negated(alias) ==> parse(specs, tokens)->Ok_0[specs[i].name]
            == ValueView::Flag(false),
        tokens[at] == alias && !is_negated(alias) ==> parse(specs, tokens)->Ok_0[specs[i].name]
            == ValueView::Flag(true),
{
    lemma_alias_resolves_to_owner(specs, i, alias);
    lemma_strip_undoes_negate(alias);
    lemma_flag_given_once(specs, tokens, at, specs[i]);
}

/// Whether every entry of `found` stands under the name of a declaration and
/// holds a payload of that declaration's kind.
pub open spec fn well_typed(specs: Seq<ArgumentView>, found: Map<Seq<char>, ValueView>) -> bool {
    forall|name: Seq<char>| #[trigger]
        found.contains_key(name) ==> exists|i: int|
            0 <= i < specs.len() && (#[trigger] specs[i]).name == name && found[name].kind()
                == specs[i].kind
}

/// The walk stores a payload only under the name of a declaration, and only
/// one of that declaration's kind.
pub proof fn lemma_walk_is_well_typed(
    specs: Seq<ArgumentView>,
    tokens: Seq<Seq<char>>,
    pos: int,
    found: Map<Seq<char>, ValueView>,
)
    requires
        well_typed(specs, found),
    ensures
        walk(specs, tokens, pos, found) matches Ok(end) ==> well_typed(specs, end),
    decreases tokens.len() - pos,
{
    if 0 <= pos < tokens.len() {
        lemma_effect_width(specs, tokens, pos);
        match effect(specs, tokens, pos) {
            Ok(e) => {
                let next = e.apply(found);
                assert forall|name: Seq<char>| #[trigger] next.contains_key(name) implies exists|
                    i: int,
                |
                    0 <= i < specs.len() && (#[trigger] specs[i]).name == name && next[name].kind()
                        == specs[i].kind by {
                    if e.touches(name) {
                        match e {
                            Effect::Store { .. } => {
                                let i = owner(specs, stripped(tokens[pos]));
                                assert(specs[i].name == name);
                            },
                            Effect::Raise { names } => {
                                let subs = sub_aliases(tokens[pos]);
                                let k = choose|k: int| 0 <= k < names.len() && names[k] == name;
                                assert(raises_flag(specs, subs[k]));
                                let i = owner(specs, stripped(subs[k]));
                                assert(specs[i].name == name);
                            },
                            Effect::Skip => {},
                        }
                    } else {
                        assert(found.contains_key(name));
                    }
                }
                lemma_walk_is_well_typed(specs, tokens, pos + e.width(), next);
            },
            Err(_) => {},
        }
    }
}

/// In the outcome of a parse, every entry stands under the name of a
/// declaration; and what stands under the name of a declaration is of its
/// kind: a flag holds a `Flag`, a word argument a `Word`, a vector argument a
/// `Vector`.
pub proof fn lemma_value_matches_kind(specs: Seq<ArgumentView>, tokens: Seq<Seq<char>>)
    requires
        registry_ok(specs),
        parse(specs, tokens) is Ok,
    ensures
        well_typed(specs, parse(specs, tokens)->Ok_0),
        forall|i: int|
            0 <= i < specs.len() && parse(specs, tokens)->Ok_0.contains_key(
                (#[trigger] specs[i]).name,
            ) ==> parse(specs, tokens)->Ok_0[specs[i].name].kind() == specs[i].kind,
{
    let empty = Map::<Seq<char>, ValueView>::empty();
    let found = parse(specs, tokens)->Ok_0;
    lemma_walk_is_well_typed(specs, tokens, 0, empty);
    assert forall|i: int|
        0 <= i < specs.len() && found.contains_key((#[trigger] specs[i]).name) implies found[specs[i].name].kind()
        == specs[i].kind by {
        let name = specs[i].name;
        let j = choose|j: int|
            0 <= j < specs.len() && (#[trigger] specs[j]).name == name && found[name].kind()
                == specs[j].kind;
        assert(answers_to(specs[i], name) && answers_to(specs[j], name));
    }
}

/// The walk passes over what it does not recognize: it never fails with
/// `UnrecognizedToken`.
pub proof fn lemma_walk_is_tolerant(
    specs: Seq<ArgumentView>,
    tokens: Seq<Seq<char>>,
    pos: int,
    found: Map<Seq<char>, ValueView>,
)
    ensures
        walk(specs, tokens, pos, found) != Err::<Map<Seq<char>, ValueView>, ParseErrorView>(
            ParseErrorView::UnrecognizedToken,
        ),
    decreases tokens.len() - pos,
{
    if 0 <= pos < tokens.len() {
        lemma_effect_width(specs, tokens, pos);
        match effect(specs, tokens, pos) {
            Ok(e) => {
                lemma_walk_is_tolerant(specs, tokens, pos + e.width(), e.apply(found));
            },
            Err(_) => {},
        }
    }
}

/// No token sequence is refused for a token that is not recognized; and
/// tokens of which none is an argument, parsed against a registry that
/// requires nothing, give an outcome without entries.
pub proof fn lemma_parse_is_tolerant(specs: Seq<ArgumentView>, tokens: Seq<Seq<char>>)
    ensures
        parse(specs, tokens) != Err::<Map<Seq<char>, ValueView>, ParseErrorView>(
            ParseErrorView::UnrecognizedToken,
        ),
        (forall|at: int| 0 <= at < tokens.len() ==> !argument_like(specs, #[trigger] tokens[at]))
            && (forall|i: int| 0 <= i < specs.len() ==> !(#[trigger] specs[i]).required)
            ==> parse(specs, tokens) == Ok::<Map<Seq<char>, ValueView>, ParseErrorView>(
            Map::empty(),
        ),
{
    let empty = Map::<Seq<char>, ValueView>::empty();
    lemma_walk_is_tolerant(specs, tokens, 0, empty);
    if (forall|at: int| 0 <= at < tokens.len() ==> !argument_like(specs, #[trigger] tokens[at]))
        && (forall|i: int| 0 <= i < specs.len() ==> !(#[trigger] specs[i]).required) {
        lemma_all_skipped(specs, tokens, 0, empty);
        lemma_first_missing(specs, empty, 0);
    }
}

/// Tokens of which none is an argument leave what was found as it was.
proof fn lemma_all_skipped(
    specs: Seq<ArgumentView>,
    tokens: Seq<Seq<char>>,
    pos: int,
    found: Map<Seq<char>, ValueView>,
)
    requires
        0 <= pos <= tokens.len(),
        forall|at: int| 0 <= at < tokens.len() ==> !argument_like(specs, #[trigger] tokens[at]),
    ensures
        walk(specs, tokens, pos, found) == Ok::<Map<Seq<char>, ValueView>, ParseErrorView>(found),
    decreases tokens.len() - pos,
{
    if pos < tokens.len() {
        assert(!argument_like(specs, tokens[pos]));
        assert(effect(specs, tokens, pos) == Ok::<Effect, ParseErrorView>(Effect::Skip));
        lemma_all_skipped(specs, tokens, pos + 1, found);
    }
}

/// The first required declaration without a value is the first: it is
/// required and has no value, and every required declaration before it has
/// one.
pub proof fn lemma_first_missing(
    specs: Seq<ArgumentView>,
    found: Map<Seq<char>, ValueView>,
    from: int,
)
    requires
        0 <= from <= specs.len(),
    ensures
        match first_missing(specs, found, from) {
            Some(at) => {
                &&& from <= at < specs.len()
                &&& specs[at].required
                &&& !found.contains_key(specs[at].name)
                &&& forall|j: int|
                    from <= j < at ==> !(#[trigger] specs[j]).required || found.contains_key(
                        specs[j].name,
                    )
            },
            None => forall|j: int|
                from <= j < specs.len() ==> !(#[trigger] specs[j]).required || found.contains_key(
                    specs[j].name,
                ),
        },
    decreases specs.len() - from,
{
    if from < specs.len() && !(specs[from].required && !found.contains_key(specs[from].name)) {
        lemma_first_missing(specs, found, from + 1);
    }
}

/// A required argument that the tokens do not give makes the parse fail.
/// Where the walk meets no error, the failure is `MissingRequired`, and it
/// names this argument unless a required argument registered before it is not
/// given either.
pub proof fn lemma_required_not_given(specs: Seq<ArgumentView>, tokens: Seq<Seq<char>>, i: int)
    requires
        0 <= i < specs.len(),
        specs[i].required,
        forall|at: int| #[trigger] met(specs, tokens, at) ==> !gives(specs, tokens, at, specs[i].name),
    ensures
        parse(specs, tokens) is Err,
        walk(specs, tokens, 0, Map::empty()) matches Ok(found) ==> {
            &&& first_missing(specs, found, 0) matches Some(at)
            &&& at <= i
            &&& parse(specs, tokens) == Err::<Map<Seq<char>, ValueView>, ParseErrorView>(
                ParseErrorView::MissingRequired(specs[at].identity()),
            )
            &&& (forall|j: int|
                0 <= j < i ==> !(#[trigger] specs[j]).required || found.contains_key(specs[j].name))
                ==> at == i
        },
{
    let empty = Map::<Seq<char>, ValueView>::empty();
    if walk(specs, tokens, 0, empty) is Ok {
        let found = walk(specs, tokens, 0, empty)->Ok_0;
        assert forall|at: int|
            0 <= at < tokens.len() && #[trigger] reaches(specs, tokens, 0, at) implies !gives(
            specs,
            tokens,
            at,
            specs[i].name,
        ) by {
            assert(met(specs, tokens, at));
        }
        lemma_untouched(specs, tokens, 0, empty, specs[i].name);
        assert(!found.contains_key(specs[i].name));
        lemma_first_missing(specs, found, 0);
    }
}

} // verus!
