//! The forms an invocator takes: long (`--name`), short (`-n`) or bare
//! (`name`).

use vstd::prelude::*;
use crate::text::{starts_with, texts};

verus! {

/// `--`, which opens a long invocator.
pub open spec fn long_dashes() -> Seq<char> {
    seq!['-', '-']
}

/// `-`, which opens a short invocator.
pub open spec fn short_dash() -> Seq<char> {
    seq!['-']
}

/// Whether `alias` begins with `--`.
pub open spec fn is_long(alias: Seq<char>) -> bool {
    long_dashes().is_prefix_of(alias)
}

/// Whether `alias` begins with one dash and no second.
pub open spec fn is_short(alias: Seq<char>) -> bool {
    short_dash().is_prefix_of(alias) && !long_dashes().is_prefix_of(alias)
}

/// The first long invocator among `aliases` from position `from` on.
pub open spec fn first_long(aliases: Seq<Seq<char>>, from: int) -> Option<Seq<char>>
    decreases aliases.len() - from,
{
    if from < 0 || from >= aliases.len() {
        None
    } else if is_long(aliases[from]) {
        Some(aliases[from])
    } else {
        first_long(aliases, from + 1)
    }
}

/// The first short invocator among `aliases` from position `from` on.
pub open spec fn first_short(aliases: Seq<Seq<char>>, from: int) -> Option<Seq<char>>
    decreases aliases.len() - from,
{
    if from < 0 || from >= aliases.len() {
        None
    } else if is_short(aliases[from]) {
        Some(aliases[from])
    } else {
        first_short(aliases, from + 1)
    }
}

/// Whether `alias` begins with `--`.
pub fn long_form(alias: &str) -> (r: bool)
    ensures
        r == is_long(alias@),
{
    proof {
        reveal_strlit("--");
        assert("--"@ =~= long_dashes());
    }
    starts_with(alias, "--")
}

/// Whether `alias` begins with one dash and no second.
pub fn short_form(alias: &str) -> (r: bool)
    ensures
        r == is_short(alias@),
{
    proof {
        reveal_strlit("--");
        reveal_strlit("-");
        assert("--"@ =~= long_dashes());
        assert("-"@ =~= short_dash());
    }
    starts_with(alias, "-") && !starts_with(alias, "--")
}

/// The position of the first long invocator in `aliases`.
pub fn find_long(aliases: &Vec<String>) -> (r: Option<usize>)
    ensures
        match r {
            Some(at) => at < aliases@.len() && first_long(texts(aliases@), 0) == Some(aliases@[at as int]@),
            None => first_long(texts(aliases@), 0) is None,
        },
{
    let mut i: usize = 0;
    while i < aliases.len()
        invariant
            i <= aliases@.len(),
            first_long(texts(aliases@), i as int) == first_long(texts(aliases@), 0),
        decreases aliases@.len() - i,
    {
        assert(texts(aliases@)[i as int] == aliases@[i as int]@);
        if long_form(aliases[i].as_str()) {
            return Some(i);
        }
        i += 1;
    }
    None
}

/// The position of the first short invocator in `aliases`.
pub fn find_short(aliases: &Vec<String>) -> (r: Option<usize>)
    ensures
        match r {
            Some(at) => at < aliases@.len() && first_short(texts(aliases@), 0) == Some(
                aliases@[at as int]@,
            ),
            None => first_short(texts(aliases@), 0) is None,
        },
{
    let mut i: usize = 0;
    while i < aliases.len()
        invariant
            i <= aliases@.len(),
            first_short(texts(aliases@), i as int) == first_short(texts(aliases@), 0),
        decreases aliases@.len() - i,
    {
        assert(texts(aliases@)[i as int] == aliases@[i as int]@);
        if short_form(aliases[i].as_str()) {
            return Some(i);
        }
        i += 1;
    }
    None
}

} // verus!
