//! An option with at most one short form (`-x`) and one long form
//! (`--name`).

use vstd::prelude::*;
use crate::argument::invocators::{is_long, is_short, long_form, short_form};
use crate::defarg::atypes::AType;
use crate::text::joined;

verus! {

/// The number of bytes that `text` takes, as `str::len` counts them.
pub open spec fn byte_length(text: Seq<char>) -> usize {
    vstd::utf8::encode_utf8(text).len() as usize
}

/// Whether `text` can be a short form: one dash and one more byte.
pub open spec fn short_option(text: Seq<char>) -> bool {
    is_short(text) && byte_length(text) == 2
}

/// Whether `text` can be a long form: two dashes and at least one more byte.
pub open spec fn long_option(text: Seq<char>) -> bool {
    is_long(text) && byte_length(text) > 2
}

/// Whether `text` can be a short form.
pub fn is_short_option(text: &str) -> (r: bool)
    ensures
        r == short_option(text@),
{
    short_form(text) && text.len() == 2
}

/// Whether `text` can be a long form.
pub fn is_long_option(text: &str) -> (r: bool)
    ensures
        r == long_option(text@),
{
    long_form(text) && text.len() > 2
}

/// A declared option.
#[derive(Debug, Clone)]
pub struct Argument {
    /// What the option takes.
    pub atype: AType,
    /// The name under which the parsed value is stored.
    pub name: String,
    /// The short form, where there is one.
    pub short: Option<String>,
    /// The long form, where there is one.
    pub long: Option<String>,
    /// Whether parsing fails when the option is not given.
    pub required: bool,
}

/// A declared option as contracts see it.
pub struct ArgumentView {
    pub atype: AType,
    pub name: Seq<char>,
    pub short: Option<Seq<char>>,
    pub long: Option<Seq<char>>,
    pub required: bool,
}

impl ArgumentView {
    /// Whether the option has a name and a short or a long form.
    pub open spec fn valid(self) -> bool {
        self.name.len() > 0 && (self.short is Some || self.long is Some)
    }

    /// Whether `identity` is the name, the short form or the long form.
    pub open spec fn identified_by(self, identity: Seq<char>) -> bool {
        self.name == identity || self.short == Some(identity) || self.long == Some(identity)
    }

    /// How the option is named to the user: its short and long form joined
    /// by `/` where it has both, the one it has where it has one, nothing
    /// where it has neither.
    pub open spec fn identity(self) -> Seq<char> {
        match (self.short, self.long) {
            (Some(short), Some(long)) => short + seq!['/'] + long,
            (Some(short), None) => short,
            (None, Some(long)) => long,
            (None, None) => Seq::empty(),
        }
    }
}

/// The characters of a string that may be absent.
pub open spec fn text_of(text: Option<String>) -> Option<Seq<char>> {
    match text {
        Some(text) => Some(text@),
        None => None,
    }
}

impl View for Argument {
    type V = ArgumentView;

    open spec fn view(&self) -> ArgumentView {
        ArgumentView {
            atype: self.atype,
            name: self.name@,
            short: text_of(self.short),
            long: text_of(self.long),
            required: self.required,
        }
    }
}

impl Default for Argument {
    /// A flag without name, short form or long form, not required.
    fn default() -> (r: Argument)
        ensures
            r@ == (ArgumentView {
                atype: AType::Flag,
                name: Seq::empty(),
                short: None,
                long: None,
                required: false,
            }),
    {
        Argument {
            atype: AType::default(),
            name: String::new(),
            short: None,
            long: None,
            required: false,
        }
    }
}

impl Argument {
    /// A blank option of the kind that `atype` names: `"flag"`, `"text"` or
    /// `"vector"`.
    pub fn new(atype: &str) -> (r: Argument)
        requires
            AType::named(atype@) is Some,
        ensures
            r@ == (ArgumentView {
                atype: AType::named(atype@).unwrap(),
                name: Seq::empty(),
                short: None,
                long: None,
                required: false,
            }),
    {
        Argument::with_type(atype)
    }

    /// A blank option of the kind that `atype` names: `"flag"`, `"text"` or
    /// `"vector"`.
    pub fn with_type(atype: &str) -> (r: Argument)
        requires
            AType::named(atype@) is Some,
        ensures
            r@ == (ArgumentView {
                atype: AType::named(atype@).unwrap(),
                name: Seq::empty(),
                short: None,
                long: None,
                required: false,
            }),
    {
        Argument {
            atype: AType::from_name(atype).unwrap(),
            name: String::new(),
            short: None,
            long: None,
            required: false,
        }
    }

    /// Names the option.
    pub fn name(self, name: &str) -> (r: Argument)
        ensures
            r@ == (ArgumentView { name: name@, ..self@ }),
    {
        let Argument { atype, name: _, short, long, required } = self;
        Argument { atype, name: String::from_str(name), short, long, required }
    }

    /// Gives the option its short form: a dash and one more byte.
    pub fn short(self, short: &str) -> (r: Argument)
        requires
            short_option(short@),
        ensures
            r@ == (ArgumentView { short: Some(short@), ..self@ }),
    {
        let Argument { atype, name, short: _, long, required } = self;
        Argument { atype, name, short: Some(String::from_str(short)), long, required }
    }

    /// Gives the option its long form: two dashes and at least one more
    /// byte.
    pub fn long(self, long: &str) -> (r: Argument)
        requires
            long_option(long@),
        ensures
            r@ == (ArgumentView { long: Some(long@), ..self@ }),
    {
        let Argument { atype, name, short, long: _, required } = self;
        Argument { atype, name, short, long: Some(String::from_str(long)), required }
    }

    /// Says whether the option must be given.
    pub fn required(self, required: bool) -> (r: Argument)
        ensures
            r@ == (ArgumentView { required, ..self@ }),
    {
        let Argument { atype, name, short, long, required: _ } = self;
        Argument { atype, name, short, long, required }
    }

    /// How the option is named to the user: see `ArgumentView::identity`.
    pub fn identity(&self) -> (r: String)
        ensures
            r@ == self@.identity(),
    {
        proof {
            reveal_strlit("/");
            assert("/"@ =~= seq!['/']);
        }
        match (&self.short, &self.long) {
            (Some(short), Some(long)) => {
                let mut r = joined(short.as_str(), "/");
                r.append(long.as_str());
                r
            },
            (Some(short), None) => short.clone(),
            (None, Some(long)) => long.clone(),
            (None, None) => String::new(),
        }
    }

    /// Whether `identity` is the name, the short form or the long form.
    pub fn identified_by(&self, identity: &str) -> (r: bool)
        ensures
            r == self@.identified_by(identity@),
    {
        if crate::text::same_text(self.name.as_str(), identity) {
            return true;
        }
        let by_short = match &self.short {
            Some(short) => crate::text::same_text(short.as_str(), identity),
            None => false,
        };
        if by_short {
            return true;
        }
        match &self.long {
            Some(long) => crate::text::same_text(long.as_str(), identity),
            None => false,
        }
    }

    /// Whether the option has a name and a short or a long form.
    pub fn is_valid(&self) -> (r: bool)
        ensures
            r == self@.valid(),
    {
        !self.name.as_str().is_empty() && (self.short.is_some() || self.long.is_some())
    }
}

} // verus!
