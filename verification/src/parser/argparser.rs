//! The strict parser and its registry of options.

use vstd::prelude::*;
use crate::argument::invocators::{long_dashes, long_form, short_dash, short_form};
use crate::defarg::arg::{Argument, ArgumentView};
use crate::defarg::atypes::AType;
use crate::parser::argvalues::ArgValue;
use crate::parser::parsedargs::ParsedArguments;
use crate::parser::rules::{
    bundle_items, bundle_step, clashes, contains, distinct, first_unmet, get, has_kind,
    lemma_register_keeps_distinct, names_of, option_word, parse_strict, plain_run, position,
    raised, register, run, step,
};
use crate::parsing::errors::{ParseError, RegistrationError};
use crate::parsing::negation::{long_marker, short_marker};
use crate::text::{char_text, chars_of, joined, replace_all, slice_texts, starts_with, texts};

verus! {

/// A registry of options, and the strict parser over it.
#[derive(Debug)]
pub struct ArgParser {
    /// The options, in the order of their registration.
    pub parser: Vec<Argument>,
}

impl View for ArgParser {
    type V = Seq<ArgumentView>;

    open spec fn view(&self) -> Seq<ArgumentView> {
        self.parser@.map_values(|argument: Argument| argument@)
    }
}

impl ArgParser {
    /// A registry without options.
    pub fn new() -> (r: ArgParser)
        ensures
            r@ == Seq::<ArgumentView>::empty(),
            distinct(r@),
    {
        let r = ArgParser { parser: Vec::new() };
        assert(r@ =~= Seq::<ArgumentView>::empty());
        r
    }

    /// The position of the first option that `identity` identifies.
    fn find(&self, identity: &str) -> (r: Option<usize>)
        ensures
            match r {
                Some(at) => at < self@.len() && position(self@, identity@, 0) == Some(at as int),
                None => position(self@, identity@, 0) is None,
            },
    {
        let mut at: usize = 0;
        while at < self.parser.len()
            invariant
                at <= self@.len(),
                self@.len() == self.parser@.len(),
                position(self@, identity@, at as int) == position(self@, identity@, 0),
            decreases self@.len() - at,
        {
            assert(self@[at as int] == self.parser@[at as int]@);
            if self.parser[at].identified_by(identity) {
                return Some(at);
            }
            at += 1;
        }
        None
    }

    /// Registers `arg`. It is refused, and the registry left as it was, where
    /// it has no name or neither a short nor a long form (`InvalidSpec`), or
    /// where its name, its short form or its long form identifies an option
    /// registered before (`DuplicateAlias`).
    pub fn add_argument(&mut self, arg: Argument) -> (r: Result<(), RegistrationError>)
        ensures
            match register(old(self)@, arg@) {
                Ok(specs) => r is Ok && final(self)@ == specs,
                Err(e) => r == Err::<(), RegistrationError>(e) && final(self)@ == old(self)@,
            },
            distinct(old(self)@) ==> distinct(final(self)@),
    {
        if !arg.is_valid() {
            return Err(RegistrationError::InvalidSpec);
        }
        if self.contains_arg(arg.name.as_str()) {
            return Err(RegistrationError::DuplicateAlias);
        }
        let short_taken = match &arg.short {
            Some(short) => self.contains_arg(short.as_str()),
            None => false,
        };
        if short_taken {
            return Err(RegistrationError::DuplicateAlias);
        }
        let long_taken = match &arg.long {
            Some(long) => self.contains_arg(long.as_str()),
            None => false,
        };
        if long_taken {
            return Err(RegistrationError::DuplicateAlias);
        }
        proof {
            assert(!clashes(self@, arg@));
            if distinct(self@) {
                lemma_register_keeps_distinct(self@, arg@);
            }
        }
        self.parser.push(arg);
        assert(final(self)@ =~= old(self)@.push(arg@));
        Ok(())
    }

    /// Whether `identity` is the name, the short form or the long form of a
    /// registered option.
    pub fn contains_arg(&self, identity: &str) -> (r: bool)
        ensures
            r == contains(self@, identity@),
    {
        self.find(identity).is_some()
    }

    /// Whether `identity` identifies a flag.
    pub fn is_flag(&self, identity: &str) -> (r: bool)
        ensures
            r == has_kind(self@, identity@, AType::Flag),
    {
        match self.get_arg(identity) {
            None => false,
            Some(found) => match found.atype {
                AType::Flag => true,
                _ => false,
            },
        }
    }

    /// Whether `identity` identifies an option that takes one text.
    pub fn is_text(&self, identity: &str) -> (r: bool)
        ensures
            r == has_kind(self@, identity@, AType::Text),
    {
        match self.get_arg(identity) {
            None => false,
            Some(found) => match found.atype {
                AType::Text => true,
                _ => false,
            },
        }
    }

    /// The option that `identity` identifies by name, short form or long
    /// form.
    pub fn get_arg(&self, identity: &str) -> (r: Option<&Argument>)
        ensures
            match r {
                Some(argument) => get(self@, identity@) == Some(argument@),
                None => get(self@, identity@) is None,
            },
    {
        match self.find(identity) {
            Some(at) => {
                assert(self@[at as int] == self.parser@[at as int]@);
                Some(&self.parser[at])
            },
            None => None,
        }
    }

    /// Copies of the tokens from position `from` up to the next token with a
    /// dash in front, or the end of the sequence.
    fn plain_values(some_args: &[&str], from: usize) -> (r: Vec<String>)
        requires
            from <= some_args@.len(),
        ensures
            r@.len() == plain_run(slice_texts(some_args@), from as int),
            from + r@.len() <= some_args@.len(),
            texts(r@) == slice_texts(some_args@).subrange(from as int, from + r@.len()),
    {
        proof {
            reveal_strlit("-");
            assert("-"@ =~= short_dash());
        }
        let ghost tokens = slice_texts(some_args@);
        let mut values: Vec<String> = Vec::new();
        let mut at: usize = from;
        while at < some_args.len()
            invariant
                from <= at <= some_args@.len(),
                tokens == slice_texts(some_args@),
                "-"@ == short_dash(),
                values@.len() == at - from,
                forall|i: int| 0 <= i < values@.len() ==> values@[i]@ == tokens[from + i],
                plain_run(tokens, from as int) == (at - from) + plain_run(tokens, at as int),
            ensures
                at == some_args@.len() || short_dash().is_prefix_of(tokens[at as int]),
            decreases some_args@.len() - at,
        {
            let token = some_args[at];
            assert(tokens[at as int] == token@);
            if starts_with(token, "-") {
                break ;
            }
            values.push(String::from_str(token));
            at += 1;
        }
        assert(texts(values@) =~= tokens.subrange(from as int, from + values@.len()));
        values
    }

    /// The positions of the options that the bundle `word` stands for, in
    /// order; `None` where one of its items is unknown.
    fn bundle(&self, word: &str) -> (r: Option<Vec<usize>>)
        ensures
            match r {
                Some(owners) => {
                    &&& forall|i: int|
                        0 <= i < bundle_items(word@).len() ==> contains(
                            self@,
                            #[trigger] bundle_items(word@)[i],
                        )
                    &&& owners@.len() == bundle_items(word@).len()
                    &&& forall|i: int|
                        0 <= i < owners@.len() ==> #[trigger] owners@[i] < self@.len()
                            && self@[owners@[i] as int].name == names_of(
                            self@,
                            bundle_items(word@),
                        )[i]
                },
                None => !forall|i: int|
                    0 <= i < bundle_items(word@).len() ==> contains(
                        self@,
                        #[trigger] bundle_items(word@)[i],
                    ),
            },
    {
        proof {
            reveal_strlit("-");
            assert("-"@ =~= seq!['-']);
        }
        let letters = chars_of(word);
        let ascii = word.is_ascii();
        let mut owners: Vec<usize> = Vec::new();
        let mut at: usize = 0;
        assert(word@.take(0) =~= Seq::<char>::empty());
        while at < letters.len()
            invariant
                at <= letters@.len(),
                letters@ == word@,
                ascii ==> word.is_ascii(),
                "-"@ == seq!['-'],
                owners@.len() == bundle_items(word@.take(at as int)).len(),
                forall|i: int|
                    0 <= i < owners@.len() ==> contains(
                        self@,
                        #[trigger] bundle_items(word@.take(at as int))[i],
                    ),
                forall|i: int|
                    0 <= i < owners@.len() ==> #[trigger] owners@[i] < self@.len() && get(
                        self@,
                        bundle_items(word@.take(at as int))[i],
                    ) == Some(self@[owners@[i] as int]),
            decreases letters@.len() - at,
        {
            let ghost shorter = word@.take(at as int);
            let ghost longer = word@.take(at + 1);
            assert(longer.drop_last() =~= shorter);
            assert(longer.last() == word@[at as int]);
            if letters[at] != '-' {
                let item = joined("-", char_text(word, ascii, at));
                assert(item@ =~= seq!['-', word@[at as int]]);
                assert(bundle_items(longer) == bundle_items(shorter).push(item@));
                match self.find(item.as_str()) {
                    Some(owner) => {
                        owners.push(owner);
                    },
                    None => {
                        proof {
                            lemma_items_grow(word@, at + 1);
                            let k = bundle_items(shorter).len() as int;
                            assert(bundle_items(word@)[k] == item@);
                            assert(!contains(self@, bundle_items(word@)[k]));
                        }
                        return None;
                    },
                }
            } else {
                assert(bundle_items(longer) == bundle_items(shorter));
            }
            at += 1;
        }
        assert(word@.take(letters@.len() as int) =~= word@);
        Some(owners)
    }

    /// Lets the token at position `pos` take effect on `parsed`, and says
    /// where the parse goes on.
    fn advance(&self, some_args: &[&str], pos: usize, parsed: &mut ParsedArguments) -> (r: Result<
        usize,
        ParseError,
    >)
        requires
            pos < some_args@.len(),
        ensures
            match step(self@, slice_texts(some_args@), pos as int) {
                Ok(s) => {
                    &&& r matches Ok(next) && next == pos + s.width()
                    &&& pos + s.width() <= some_args@.len()
                    &&& final(parsed)@ == s.apply(old(parsed)@)
                },
                Err(error) => r matches Err(e) && e@ == error,
            },
    {
        proof {
            reveal_strlit("--no-");
            reveal_strlit("-no-");
            reveal_strlit("--");
            reveal_strlit("-");
            assert("--no-"@ =~= long_marker());
            assert("-no-"@ =~= short_marker());
            assert("--"@ =~= long_dashes());
            assert("-"@ =~= short_dash());
        }
        let ghost tokens = slice_texts(some_args@);
        let word = some_args[pos];
        assert(tokens[pos as int] == word@);
        let short = short_form(word);
        let long = long_form(word);
        let length = word.len();
        if long || (short && length < 3) {
            let negation = if long {
                starts_with(word, "--no-")
            } else {
                starts_with(word, "-no-")
            };
            let named = if !negation {
                String::from_str(word)
            } else if long {
                replace_all(word, "--no-", "--")
            } else {
                replace_all(word, "-no-", "-")
            };
            assert(named@ == option_word(word@));
            let flag = self.is_flag(named.as_str());
            if !flag && negation {
                return Err(ParseError::NegationOnNonFlag);
            }
            let arg = match self.get_arg(named.as_str()) {
                Some(arg) => arg,
                None => {
                    return Err(ParseError::UnrecognizedToken);
                },
            };
            match arg.atype {
                AType::Flag => {
                    parsed.store(arg.name.clone(), ArgValue::Flag(!negation));
                    Ok(pos + 1)
                },
                AType::Text => {
                    let mut value = ArgParser::plain_values(some_args, pos + 1);
                    if value.len() == 0 {
                        return Err(ParseError::MissingValue);
                    }
                    if value.len() > 1 {
                        return Err(ParseError::UnrecognizedToken);
                    }
                    assert(texts(value@)[0] == value@[0]@);
                    let text = value.pop().unwrap();
                    parsed.store(arg.name.clone(), ArgValue::Text(text));
                    Ok(pos + 2)
                },
                AType::Vector => {
                    let value = ArgParser::plain_values(some_args, pos + 1);
                    let next = pos + 1 + value.len();
                    parsed.store(arg.name.clone(), ArgValue::Vector(value));
                    Ok(next)
                },
            }
        } else if short && length > 2 {
            assert(step(self@, tokens, pos as int) == bundle_step(self@, word@));
            let negation = starts_with(word, "-no-");
            if negation {
                let named = replace_all(word, "-no-", "-");
                match self.get_arg(named.as_str()) {
                    Some(arg) => match arg.atype {
                        AType::Flag => {
                            parsed.store(arg.name.clone(), ArgValue::Flag(false));
                            Ok(pos + 1)
                        },
                        _ => Err(ParseError::NegationOnNonFlag),
                    },
                    None => Err(ParseError::NegationOnNonFlag),
                }
            } else {
                match self.bundle(word) {
                    Some(owners) => {
                        let ghost names = names_of(self@, bundle_items(word@));
                        let ghost before = parsed@;
                        let mut i: usize = 0;
                        assert(parsed@ =~= raised(before, names.take(0)));
                        while i < owners.len()
                            invariant
                                i <= owners@.len(),
                                names == names_of(self@, bundle_items(word@)),
                                owners@.len() == names.len(),
                                forall|j: int|
                                    0 <= j < owners@.len() ==> #[trigger] owners@[j] < self@.len()
                                        && self@[owners@[j] as int].name == names[j],
                                parsed@ == raised(before, names.take(i as int)),
                            decreases owners@.len() - i,
                        {
                            let owner = &self.parser[owners[i]];
                            assert(owner@ == self@[owners@[i as int] as int]);
                            parsed.store(owner.name.clone(), ArgValue::Flag(true));
                            proof {
                                let shorter = names.take(i as int);
                                let longer = names.take(i + 1);
                                assert(longer =~= shorter.push(names[i as int]));
                                assert forall|name: Seq<char>| longer.contains(name) <==> (
                                shorter.contains(name) || name == names[i as int]) by {
                                    if shorter.contains(name) {
                                        let k = choose|k: int|
                                            0 <= k < shorter.len() && shorter[k] == name;
                                        assert(longer[k] == name);
                                    }
                                    if name == names[i as int] {
                                        assert(longer[i as int] == name);
                                    }
                                }
                                assert(parsed@ =~= raised(before, longer));
                            }
                            i += 1;
                        }
                        assert(names.take(owners@.len() as int) =~= names);
                        Ok(pos + 1)
                    },
                    None => Err(ParseError::UnrecognizedToken),
                }
            }
        } else {
            Ok(pos + 1)
        }
    }

    /// The position of the first required option, in the order of
    /// registration, for which `parsed` holds no value.
    fn unmet(&self, parsed: &ParsedArguments) -> (r: Option<usize>)
        ensures
            match r {
                Some(at) => at < self@.len() && first_unmet(self@, parsed@, 0) == Some(at as int),
                None => first_unmet(self@, parsed@, 0) is None,
            },
    {
        let mut at: usize = 0;
        while at < self.parser.len()
            invariant
                at <= self@.len(),
                self@.len() == self.parser@.len(),
                first_unmet(self@, parsed@, at as int) == first_unmet(self@, parsed@, 0),
            decreases self@.len() - at,
        {
            let argument = &self.parser[at];
            assert(argument@ == self@[at as int]);
            if argument.required && !parsed.args.contains_key(argument.name.as_str()) {
                return Some(at);
            }
            at += 1;
        }
        None
    }

    /// Parses `some_args` against the registered options, left to right and
    /// in one pass.
    ///
    /// A token that begins with `--`, or with one dash and at most one more
    /// byte, names an option, which must be registered (`UnrecognizedToken`
    /// else); with `--no-` or `-no-` in front it negates a flag, and nothing
    /// else (`NegationOnNonFlag`). A flag stores `true`, or `false` where
    /// negated. Another option takes the tokens behind it up to the next that
    /// begins with a dash: a text option exactly one (`MissingValue` for none,
    /// `UnrecognizedToken` for more), a vector option all of them. A longer
    /// token with one dash is `-no-` and a short flag, stored as `false`, or a
    /// bundle: each of its characters but the dashes names a registered
    /// option by its short form, and each is stored as a flag that is set. A
    /// token without a dash in front that no option takes is passed over. At
    /// the end every required option must have a value. The registry is left
    /// as it was.
    pub fn parse_args(&mut self, some_args: &[&str]) -> (r: Result<ParsedArguments, ParseError>)
        ensures
            *final(self) == *old(self),
            match parse_strict(old(self)@, slice_texts(some_args@)) {
                Ok(found) => r matches Ok(parsed) && parsed@ == found,
                Err(error) => r matches Err(e) && e@ == error,
            },
    {
        let ghost tokens = slice_texts(some_args@);
        let mut parsed = ParsedArguments::new();
        let mut pos: usize = 0;
        while pos < some_args.len()
            invariant
                pos <= some_args@.len(),
                *self == *old(self),
                tokens == slice_texts(some_args@),
                run(self@, tokens, pos as int, parsed@) == run(self@, tokens, 0, Map::empty()),
            decreases some_args@.len() - pos,
        {
            match self.advance(some_args, pos, &mut parsed) {
                Ok(next) => {
                    pos = next;
                },
                Err(error) => {
                    return Err(error);
                },
            }
        }
        match self.unmet(&parsed) {
            Some(at) => {
                let argument = &self.parser[at];
                assert(argument@ == self@[at as int]);
                Err(ParseError::MissingRequired(argument.identity()))
            },
            None => Ok(parsed),
        }
    }
}

impl Default for ArgParser {
    /// A registry without options.
    fn default() -> (r: ArgParser)
        ensures
            r@ == Seq::<ArgumentView>::empty(),
    {
        ArgParser::new()
    }
}

/// The items of a prefix of a token open the items of the token.
proof fn lemma_items_grow(token: Seq<char>, n: int)
    requires
        0 <= n <= token.len(),
    ensures
        bundle_items(token.take(n)).len() <= bundle_items(token).len(),
        forall|i: int|
            0 <= i < bundle_items(token.take(n)).len() ==> bundle_items(token)[i] == bundle_items(
                token.take(n),
            )[i],
    decreases token.len() - n,
{
    if n < token.len() {
        let shorter = token.take(n);
        let longer = token.take(n + 1);
        assert(longer.drop_last() =~= shorter);
        lemma_items_grow(token, n + 1);
    } else {
        assert(token.take(n) =~= token);
    }
}

} // verus!
