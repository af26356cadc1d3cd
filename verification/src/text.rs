//! Comparisons and slicing on strings, stated over their character sequences.

use vstd::prelude::*;
use vstd::std_specs::iter::IteratorSpec;

verus! {

/// The character sequences of a list of strings, in order.
pub open spec fn texts(list: Seq<String>) -> Seq<Seq<char>> {
    list.map_values(|s: String| s@)
}

/// The character sequences of a list of string slices, in order.
pub open spec fn slice_texts(list: Seq<&str>) -> Seq<Seq<char>> {
    list.map_values(|s: &str| s@)
}

/// Whether `s` begins with `prefix`, in one pass over both.
pub fn starts_with(s: &str, prefix: &str) -> (r: bool)
    ensures
        r == prefix@.is_prefix_of(s@),
{
    let mut rest = s.chars();
    for c in it: prefix.chars()
        invariant
            it.seq() == prefix@,
            it.index() <= s@.len(),
            rest.remaining() == s@.skip(it.index() as int),
            s@.take(it.index() as int) == prefix@.take(it.index() as int),
    {
        let ghost k = it.index() as int;
        match rest.next() {
            None => {
                assert(s@.skip(k).len() == 0);
                return false;
            },
            Some(d) => {
                assert(d == s@.skip(k)[0]);
                if c != d {
                    assert(prefix@.is_prefix_of(s@) ==> prefix@[k] == s@.subrange(
                        0,
                        prefix@.len() as int,
                    )[k]);
                    return false;
                }
                assert(s@.skip(k).drop_first() =~= s@.skip(k + 1));
                assert(s@.take(k + 1) =~= s@.take(k).push(d));
                assert(prefix@.take(k + 1) =~= prefix@.take(k).push(c));
            },
        }
    }
    assert(s@.subrange(0, prefix@.len() as int) =~= s@.take(prefix@.len() as int));
    assert(prefix@.take(prefix@.len() as int) =~= prefix@);
    true
}

/// Whether `a` and `b` hold the same characters, in one pass over both.
pub fn same_text(a: &str, b: &str) -> (r: bool)
    ensures
        r == (a@ == b@),
{
    let mut rest = a.chars();
    for c in it: b.chars()
        invariant
            it.seq() == b@,
            it.index() <= a@.len(),
            rest.remaining() == a@.skip(it.index() as int),
            a@.take(it.index() as int) == b@.take(it.index() as int),
    {
        let ghost k = it.index() as int;
        match rest.next() {
            None => {
                assert(a@.skip(k).len() == 0);
                return false;
            },
            Some(d) => {
                assert(d == a@.skip(k)[0]);
                if c != d {
                    assert(a@[k] != b@[k]);
                    return false;
                }
                assert(a@.skip(k).drop_first() =~= a@.skip(k + 1));
                assert(a@.take(k + 1) =~= a@.take(k).push(d));
                assert(b@.take(k + 1) =~= b@.take(k).push(c));
            },
        }
    }
    assert(b@.take(b@.len() as int) =~= b@);
    match rest.next() {
        None => {
            assert(a@.skip(b@.len() as int).len() == 0);
            assert(a@.take(b@.len() as int) =~= a@);
            true
        },
        Some(_) => {
            assert(a@.skip(b@.len() as int).len() > 0);
            false
        },
    }
}

/// Whether one of the strings in `list` holds the characters of `item`.
pub fn holds_text(list: &Vec<String>, item: &str) -> (r: bool)
    ensures
        r == texts(list@).contains(item@),
{
    let mut i: usize = 0;
    while i < list.len()
        invariant
            i <= list@.len(),
            forall|j: int| 0 <= j < i ==> texts(list@)[j] != item@,
        decreases list@.len() - i,
    {
        if same_text(list[i].as_str(), item) {
            assert(texts(list@)[i as int] == item@);
            return true;
        }
        i += 1;
    }
    false
}

/// The part of `s` behind its first `n` characters; empty where `s` is
/// shorter than that.
pub fn text_after(s: &str, n: usize) -> (r: &str)
    ensures
        r@ == if n <= s@.len() {
            s@.skip(n as int)
        } else {
            Seq::<char>::empty()
        },
{
    let len = s.unicode_len();
    let from = if n <= len {
        n
    } else {
        len
    };
    let r = s.substring_char(from, len);
    assert(s@.subrange(from as int, len as int) =~= s@.skip(from as int));
    r
}

/// The one character of `s` at position `at`, as a slice. With `ascii` set
/// the slice is cut in constant time.
pub(crate) fn char_text(s: &str, ascii: bool, at: usize) -> (r: &str)
    requires
        at < s@.len() <= usize::MAX,
        ascii ==> s.is_ascii(),
    ensures
        r@ == seq![s@[at as int]],
{
    let r = if ascii {
        s.substring_ascii(at, at + 1)
    } else {
        s.substring_char(at, at + 1)
    };
    assert(s@.subrange(at as int, at + 1) =~= seq![s@[at as int]]);
    r
}

/// The characters of `s`, one by one.
pub fn chars_of(s: &str) -> (r: Vec<char>)
    ensures
        r@ == s@,
{
    let mut r: Vec<char> = Vec::new();
    for c in it: s.chars()
        invariant
            it.seq() == s@,
            r@ == s@.take(it.index() as int),
    {
        r.push(c);
        assert(s@.take(it.index() + 1) =~= s@.take(it.index() as int).push(c));
    }
    assert(s@.take(s@.len() as int) =~= s@);
    r
}

/// `s` with every occurrence of `pattern` replaced by `with`, the occurrences
/// taken from left to right and not overlapping. An empty pattern occurs
/// nowhere.
pub open spec fn replaced(s: Seq<char>, pattern: Seq<char>, with: Seq<char>) -> Seq<char>
    decreases s.len(),
{
    if pattern.len() == 0 || s.len() < pattern.len() {
        s
    } else if pattern.is_prefix_of(s) {
        with + replaced(s.skip(pattern.len() as int), pattern, with)
    } else {
        seq![s[0]] + replaced(s.skip(1), pattern, with)
    }
}

/// Whether `pattern` stands in `text` at position `at`.
fn stands_at(text: &Vec<char>, at: usize, pattern: &Vec<char>) -> (r: bool)
    requires
        at + pattern@.len() <= text@.len(),
    ensures
        r == pattern@.is_prefix_of(text@.skip(at as int)),
{
    let length = text.len();
    let mut i: usize = 0;
    while i < pattern.len()
        invariant
            i <= pattern@.len(),
            at + pattern@.len() <= text@.len() == length,
            forall|j: int| 0 <= j < i ==> text@[at + j] == pattern@[j],
        decreases pattern@.len() - i,
    {
        if text[at + i] != pattern[i] {
            assert(text@.skip(at as int).subrange(0, pattern@.len() as int)[i as int]
                != pattern@[i as int]);
            return false;
        }
        i += 1;
    }
    assert(text@.skip(at as int).subrange(0, pattern@.len() as int) =~= pattern@);
    true
}

/// `s` with every occurrence of `pattern` replaced by `with`.
pub fn replace_all(s: &str, pattern: &str, with: &str) -> (r: String)
    ensures
        r@ == replaced(s@, pattern@, with@),
{
    let text = chars_of(s);
    let sought = chars_of(pattern);
    if sought.len() == 0 || text.len() < sought.len() {
        return String::from_str(s);
    }
    let ascii = s.is_ascii();
    let length = s.unicode_len();
    let mut r = String::new();
    let mut at: usize = 0;
    assert(s@.skip(0) =~= s@);
    assert(r@ + s@ =~= s@);
    while at <= length - sought.len()
        invariant
            at <= length,
            length == s@.len(),
            text@ == s@,
            sought@ == pattern@,
            0 < sought@.len() <= length,
            ascii ==> s.is_ascii(),
            replaced(s@, pattern@, with@) == r@ + replaced(s@.skip(at as int), pattern@, with@),
        decreases length - at,
    {
        let ghost rest = s@.skip(at as int);
        if stands_at(&text, at, &sought) {
            r.append(with);
            assert(rest.skip(sought@.len() as int) =~= s@.skip(at + sought@.len()));
            at += sought.len();
        } else {
            r.append(char_text(s, ascii, at));
            assert(rest.skip(1) =~= s@.skip(at + 1));
            at += 1;
        }
        assert(replaced(s@, pattern@, with@) =~= r@ + replaced(
            s@.skip(at as int),
            pattern@,
            with@,
        ));
    }
    r.append(text_after(s, at));
    r
}

/// Owned copies of the strings in `list`, in order.
pub fn copied_texts(list: &[String]) -> (r: Vec<String>)
    ensures
        texts(r@) == texts(list@),
{
    let mut r: Vec<String> = Vec::with_capacity(list.len());
    let mut i: usize = 0;
    while i < list.len()
        invariant
            i <= list@.len(),
            r@.len() == i,
            forall|j: int| 0 <= j < i ==> r@[j]@ == list@[j]@,
        decreases list@.len() - i,
    {
        r.push(list[i].clone());
        i += 1;
    }
    assert(texts(r@) =~= texts(list@));
    r
}

/// Owned strings with the characters of the slices in `list`, in order.
pub fn owned_texts(list: &[&str]) -> (r: Vec<String>)
    ensures
        texts(r@) == slice_texts(list@),
{
    let mut r: Vec<String> = Vec::with_capacity(list.len());
    let mut i: usize = 0;
    while i < list.len()
        invariant
            i <= list@.len(),
            r@.len() == i,
            forall|j: int| 0 <= j < i ==> r@[j]@ == list@[j]@,
        decreases list@.len() - i,
    {
        r.push(String::from_str(list[i]));
        i += 1;
    }
    assert(texts(r@) =~= slice_texts(list@));
    r
}

/// The string made of `head` followed by `tail`.
pub fn joined(head: &str, tail: &str) -> (r: String)
    ensures
        r@ == head@ + tail@,
{
    let mut r = String::from_str(head);
    r.append(tail);
    r
}

} // verus!
