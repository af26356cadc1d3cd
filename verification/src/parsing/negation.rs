//! Negated invocators. A flag declared with invocator `--verbose` is switched
//! off by `--no-verbose`, one declared with `-v` by `-no-v`, one declared with
//! `verbose` by `no-verbose`.

use vstd::prelude::*;
use crate::argument::invocators::{long_dashes, short_dash};

verus! {

/// `--no-`, the marker of a negated long invocator.
pub open spec fn long_marker() -> Seq<char> {
    seq!['-', '-', 'n', 'o', '-']
}

/// `-no-`, the marker of a negated short invocator.
pub open spec fn short_marker() -> Seq<char> {
    seq!['-', 'n', 'o', '-']
}

/// `no-`, the marker of a negated bare invocator.
pub open spec fn bare_marker() -> Seq<char> {
    seq!['n', 'o', '-']
}

/// Which marker `token` begins with: 1 for `--no-`, 2 for `-no-`, 3 for `no-`,
/// 0 for none.
pub open spec fn negation_kind(token: Seq<char>) -> u8 {
    if long_marker().is_prefix_of(token) {
        1
    } else if short_marker().is_prefix_of(token) {
        2
    } else if bare_marker().is_prefix_of(token) {
        3
    } else {
        0
    }
}

/// Whether `token` begins with a negation marker.
pub open spec fn is_negated(token: Seq<char>) -> bool {
    negation_kind(token) != 0
}

/// `token` with its negation marker taken out once, the dashes in front of
/// the marker kept; `token` itself where it has no marker.
pub open spec fn stripped(token: Seq<char>) -> Seq<char> {
    if long_marker().is_prefix_of(token) {
        long_dashes() + token.skip(5)
    } else if short_marker().is_prefix_of(token) {
        short_dash() + token.skip(4)
    } else if bare_marker().is_prefix_of(token) {
        token.skip(3)
    } else {
        token
    }
}

/// The negated form of `alias`: the marker goes behind the leading `--` or
/// `-`, or in front of an alias that begins with neither.
pub open spec fn negated(alias: Seq<char>) -> Seq<char> {
    if long_dashes().is_prefix_of(alias) {
        long_marker() + alias.skip(2)
    } else if short_dash().is_prefix_of(alias) {
        short_marker() + alias.skip(1)
    } else {
        bare_marker() + alias
    }
}

/// Negating an alias gives a token with a marker, and stripping that token
/// gives the alias back.
pub proof fn lemma_strip_undoes_negate(alias: Seq<char>)
    ensures
        is_negated(negated(alias)),
        stripped(negated(alias)) == alias,
{
    let n = negated(alias);
    if long_dashes().is_prefix_of(alias) {
        assert(n.subrange(0, 5) =~= long_marker());
        assert(alias.subrange(0, 2) == long_dashes());
        assert(alias[0] == alias.subrange(0, 2)[0] && alias[1] == alias.subrange(0, 2)[1]);
        assert(long_dashes() + n.skip(5) =~= alias);
    } else if short_dash().is_prefix_of(alias) {
        assert(alias.subrange(0, 1) == short_dash());
        assert(alias[0] == alias.subrange(0, 1)[0]);
        assert(n.subrange(0, 4) =~= short_marker());
        if long_marker().is_prefix_of(n) {
            assert(n[1] == n.subrange(0, 5)[1]);
        }
        assert(short_dash() + n.skip(4) =~= alias);
    } else {
        assert(n.subrange(0, 3) =~= bare_marker());
        if long_marker().is_prefix_of(n) {
            assert(n[0] == n.subrange(0, 5)[0]);
        }
        if short_marker().is_prefix_of(n) {
            assert(n[0] == n.subrange(0, 4)[0]);
        }
        assert(n.skip(3) =~= alias);
    }
}

/// Two aliases with the same negated form are the same alias.
pub proof fn lemma_negate_is_one_to_one(a: Seq<char>, b: Seq<char>)
    requires
        negated(a) == negated(b),
    ensures
        a == b,
{
    lemma_strip_undoes_negate(a);
    lemma_strip_undoes_negate(b);
}

/// A token of fewer than three characters has no negation marker.
pub proof fn lemma_short_token_not_negated(token: Seq<char>)
    requires
        token.len() < 3,
    ensures
        !is_negated(token),
        stripped(token) == token,
{
}

} // verus!
