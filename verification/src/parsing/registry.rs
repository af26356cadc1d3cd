//! The registry as contracts see it: the declarations in the order of their
//! registration, and which of them a string invokes.

use vstd::prelude::*;
use crate::argument::arguments::ArgumentView;
use crate::argument::types::ArgumentType;
use crate::parsing::errors::RegistrationError;
use crate::parsing::negation::{lemma_strip_undoes_negate, negated, stripped};

verus! {

/// Whether `alias` is the name or an invocator of `spec`.
pub open spec fn declares(spec: ArgumentView, alias: Seq<char>) -> bool {
    alias == spec.name || spec.aliases.contains(alias)
}

/// Whether `alias` is the negated form of the name or of an invocator of
/// `spec`, and `spec` is a flag.
pub open spec fn negates(spec: ArgumentView, alias: Seq<char>) -> bool {
    &&& spec.kind == ArgumentType::Flag
    &&& declares(spec, stripped(alias))
    &&& negated(stripped(alias)) == alias
}

/// Whether `alias` invokes `spec`, as declared or as the negated form that
/// the registry adds for a flag.
pub open spec fn answers_to(spec: ArgumentView, alias: Seq<char>) -> bool {
    declares(spec, alias) || negates(spec, alias)
}

/// The negated form of whatever a flag declares invokes it.
pub proof fn lemma_flag_answers_to_negated(spec: ArgumentView, alias: Seq<char>)
    requires
        spec.kind == ArgumentType::Flag,
        declares(spec, alias),
    ensures
        negates(spec, negated(alias)),
        answers_to(spec, negated(alias)),
{
    lemma_strip_undoes_negate(alias);
}

/// Every declaration has a name, and no string invokes two of them.
pub open spec fn registry_ok(specs: Seq<ArgumentView>) -> bool {
    &&& forall|i: int| 0 <= i < specs.len() ==> (#[trigger] specs[i]).name.len() > 0
    &&& forall|i: int, j: int, alias: Seq<char>|
        0 <= i < specs.len() && 0 <= j < specs.len() && #[trigger] answers_to(specs[i], alias)
            && #[trigger] answers_to(specs[j], alias) ==> i == j
}

/// Whether `alias` invokes one of the declarations.
pub open spec fn owned(specs: Seq<ArgumentView>, alias: Seq<char>) -> bool {
    exists|i: int| 0 <= i < specs.len() && #[trigger] answers_to(specs[i], alias)
}

/// The position of the declaration that `alias` invokes, where there is one.
pub open spec fn owner(specs: Seq<ArgumentView>, alias: Seq<char>) -> int {
    choose|i: int| 0 <= i < specs.len() && #[trigger] answers_to(specs[i], alias)
}

/// In a sound registry, a declaration that answers to `alias` is its owner.
pub proof fn lemma_owner_is_unique(specs: Seq<ArgumentView>, i: int, alias: Seq<char>)
    requires
        registry_ok(specs),
        0 <= i < specs.len(),
        answers_to(specs[i], alias),
    ensures
        owned(specs, alias),
        owner(specs, alias) == i,
{
    let j = owner(specs, alias);
    assert(answers_to(specs[j], alias));
}

/// Whether `token`, its negation marker set aside, invokes a declaration.
pub open spec fn known(specs: Seq<ArgumentView>, token: Seq<char>) -> bool {
    owned(specs, stripped(token))
}

/// The declaration that `token` invokes, its negation marker set aside.
pub open spec fn resolve(specs: Seq<ArgumentView>, token: Seq<char>) -> Option<ArgumentView> {
    if known(specs, token) {
        Some(specs[owner(specs, stripped(token))])
    } else {
        None
    }
}

/// Whether a string that invokes `spec` invokes a registered declaration too.
pub open spec fn collides(specs: Seq<ArgumentView>, spec: ArgumentView) -> bool {
    exists|alias: Seq<char>| #[trigger] answers_to(spec, alias) && owned(specs, alias)
}

/// What registering `spec` gives: the registry with `spec` at its end, or the
/// reason why `spec` is refused.
pub open spec fn register(specs: Seq<ArgumentView>, spec: ArgumentView) -> Result<
    Seq<ArgumentView>,
    RegistrationError,
> {
    if spec.name.len() == 0 {
        Err(RegistrationError::InvalidSpec)
    } else if collides(specs, spec) {
        Err(RegistrationError::DuplicateAlias)
    } else {
        Ok(specs.push(spec))
    }
}

/// Registration keeps a sound registry sound.
pub proof fn lemma_register_keeps_ok(specs: Seq<ArgumentView>, spec: ArgumentView)
    requires
        registry_ok(specs),
        register(specs, spec) is Ok,
    ensures
        registry_ok(register(specs, spec)->Ok_0),
{
    let grown = specs.push(spec);
    let last = specs.len() as int;
    assert forall|i: int, j: int, alias: Seq<char>|
        0 <= i < grown.len() && 0 <= j < grown.len() && #[trigger] answers_to(grown[i], alias)
            && #[trigger] answers_to(grown[j], alias) implies i == j by {
        if i < last && j < last {
            assert(answers_to(specs[i], alias) && answers_to(specs[j], alias));
        } else if i < last {
            assert(answers_to(specs[i], alias));
            assert(owned(specs, alias));
        } else if j < last {
            assert(answers_to(specs[j], alias));
            assert(owned(specs, alias));
        }
    }
}

} // verus!
