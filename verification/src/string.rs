//! Text helpers: splitting, prefixes, decimal numbers, and the passage
//! between bytes and text.

use vstd::prelude::*;
use vstd::utf8::{decode_utf8, valid_utf8};

use crate::error::Error;

verus! {

/// The text without characters.
pub const EMPTY: &'static str = "";

/// `core::str::Utf8Error`, as a type that values of are carried through.
#[verifier::external_type_specification]
#[verifier::external_body]
pub struct ExUtf8Error(core::str::Utf8Error);

/// `core::str::from_utf8`: succeeds exactly on well-formed UTF-8, and the
/// text it returns is what those bytes decode to.
pub assume_specification[ core::str::from_utf8 ](v: &[u8]) -> (r: Result<
    &str,
    core::str::Utf8Error,
>)
    ensures
        r is Ok <==> valid_utf8(v@),
        r is Ok ==> r->Ok_0@ == decode_utf8(v@),
;

/// `String::push`: appends one character.
#[verifier::external_body]
pub(crate) fn push_char(text: &mut String, c: char)
    ensures
        final(text)@ == old(text)@.push(c),
{
    text.push(c);
}

/// The characters of `text`, one by one.
pub fn chars_of(text: &str) -> (chars: Vec<char>)
    ensures
        chars@ == text@,
{
    let mut chars: Vec<char> = Vec::new();
    for c in it: text.chars()
        invariant
            it.seq() == text@,
            chars@ =~= text@.take(it.index() as int),
    {
        chars.push(c);
        assert(text@.take(it.index() as int + 1) =~= text@.take(it.index() as int).push(c));
    }
    assert(text@.take(text@.len() as int) =~= text@);
    chars
}

/// The text made of `chars[from..to]`.
pub fn string_from_chars(chars: &Vec<char>, from: usize, to: usize) -> (text: String)
    requires
        from <= to <= chars@.len(),
    ensures
        text@ == chars@.subrange(from as int, to as int),
{
    let mut text = String::new();
    let mut i: usize = from;
    while i < to
        invariant
            from <= i <= to <= chars@.len(),
            text@ =~= chars@.subrange(from as int, i as int),
        decreases to - i,
    {
        push_char(&mut text, chars[i]);
        i = i + 1;
    }
    text
}

/// `first` followed by `second`.
pub fn joined(first: &str, second: &str) -> (text: String)
    ensures
        text@ == first@ + second@,
{
    let mut text = String::new();
    let head = chars_of(first);
    let tail = chars_of(second);
    let mut i: usize = 0;
    while i < head.len()
        invariant
            i <= head@.len(),
            text@ =~= head@.take(i as int),
        decreases head@.len() - i,
    {
        push_char(&mut text, head[i]);
        i = i + 1;
    }
    let mut j: usize = 0;
    while j < tail.len()
        invariant
            i == head@.len(),
            j <= tail@.len(),
            text@ =~= head@ + tail@.take(j as int),
        decreases tail@.len() - j,
    {
        push_char(&mut text, tail[j]);
        j = j + 1;
    }
    assert(tail@.take(tail@.len() as int) =~= tail@);
    text
}

/// The view of an optional text.
pub open spec fn text_of(text: Option<String>) -> Option<Seq<char>> {
    match text {
        Some(text) => Some(text@),
        None => None,
    }
}

/// Whether two texts are the same.
pub fn same_text(first: &str, second: &str) -> (same: bool)
    ensures
        same == (first@ == second@),
{
    let left = chars_of(first);
    let right = chars_of(second);
    if left.len() != right.len() {
        return false;
    }
    let mut i: usize = 0;
    while i < left.len()
        invariant
            left@ == first@,
            right@ == second@,
            left@.len() == right@.len(),
            i <= left@.len(),
            forall|k: int| 0 <= k < i ==> left@[k] == right@[k],
        decreases left@.len() - i,
    {
        if left[i] != right[i] {
            return false;
        }
        i = i + 1;
    }
    assert(left@ =~= right@);
    true
}

/// Whether one of `names` is `name`.
pub open spec fn has_name(names: Seq<String>, name: Seq<char>) -> bool {
    exists|i: int| 0 <= i < names.len() && (#[trigger] names[i])@ == name
}

/// Whether one of `names` is `name`.
pub fn contains_name(names: &[String], name: &str) -> (found: bool)
    ensures
        found == has_name(names@, name@),
{
    let mut i: usize = 0;
    while i < names.len()
        invariant
            i <= names@.len(),
            forall|k: int| 0 <= k < i ==> (#[trigger] names@[k])@ != name@,
        decreases names@.len() - i,
    {
        if same_text(names[i].as_str(), name) {
            return true;
        }
        i = i + 1;
    }
    false
}

/// Finds the first `needle` among `chars`.
pub fn find_char(chars: &Vec<char>, needle: char) -> (at: Option<usize>)
    ensures
        at is Some <==> chars@.index_of_first(needle) is Some,
        at is Some ==> at->0 as int == chars@.index_of_first(needle)->0,
        at is Some ==> at->0 < chars@.len(),
{
    let mut i: usize = 0;
    while i < chars.len()
        invariant
            i <= chars@.len(),
            forall|k: int| 0 <= k < i ==> chars@[k] != needle,
        decreases chars@.len() - i,
    {
        if chars[i] == needle {
            proof {
                chars@.index_of_first_ensures(needle);
            }
            return Some(i);
        }
        i = i + 1;
    }
    proof {
        chars@.index_of_first_ensures(needle);
    }
    None
}

/// `delim` occurs in `input` at position `at`.
pub open spec fn matches_at(input: Seq<char>, delim: Seq<char>, at: int) -> bool {
    0 <= at && at + delim.len() <= input.len() && input.subrange(at, at + delim.len()) == delim
}

/// `at` is where `delim` first occurs in `input`.
pub open spec fn first_match(input: Seq<char>, delim: Seq<char>, at: int) -> bool {
    matches_at(input, delim, at) && forall|earlier: int|
        0 <= earlier < at ==> !matches_at(input, delim, earlier)
}

/// Splits `input` around the first occurrence of `delim`. Where `delim`
/// does not occur the whole input comes first and the rest is empty.
#[must_use]
pub fn split_once_infallible<'a>(input: &'a str, delim: &str) -> (parts: (&'a str, &'a str))
    ensures
        forall|at: int|
            first_match(input@, delim@, at) ==> parts.0@ == input@.take(at) && parts.1@
                == input@.skip(at + delim@.len()),
        (forall|at: int| !matches_at(input@, delim@, at)) ==> parts.0@ == input@ && parts.1@
            == Seq::<char>::empty(),
{
    let text = chars_of(input);
    let pattern = chars_of(delim);
    let n = text.len();
    let m = pattern.len();
    proof {
        reveal_strlit("");
    }
    if m > n {
        return (input, EMPTY);
    }
    let mut at: usize = 0;
    while at <= n - m
        invariant
            m <= n,
            n == text@.len(),
            m == pattern@.len(),
            text@ == input@,
            pattern@ == delim@,
            at <= n - m + 1,
            forall|earlier: int| 0 <= earlier < at ==> !matches_at(input@, delim@, earlier),
        decreases n - m + 1 - at,
    {
        let mut k: usize = 0;
        while k < m && text[at + k] == pattern[k]
            invariant
                m <= n,
                n == text@.len(),
                m == pattern@.len(),
                at <= n - m,
                k <= m,
                forall|j: int| 0 <= j < k ==> text@[at + j] == pattern@[j],
            decreases m - k,
        {
            k = k + 1;
        }
        if k == m {
            proof {
                assert(text@.subrange(at as int, at + m) =~= pattern@);
                assert(first_match(input@, delim@, at as int));
                assert forall|other: int| first_match(input@, delim@, other) implies other
                    == at by {
                    if other < at {
                        assert(!matches_at(input@, delim@, other));
                    } else if other > at {
                        assert(matches_at(input@, delim@, at as int));
                    }
                }
                assert(input@.subrange(0, at as int) =~= input@.take(at as int));
                assert(input@.subrange(at + m, n as int) =~= input@.skip(at + m));
            }
            return (input.substring_char(0, at), input.substring_char(at + m, n));
        }
        proof {
            assert(text@.subrange(at as int, at + m)[k as int] == text@[at + k]);
            assert(!matches_at(input@, delim@, at as int));
        }
        at = at + 1;
    }
    proof {
        assert forall|other: int| !matches_at(input@, delim@, other) by {
            if 0 <= other && other + m <= n {
                assert(other < at);
            }
        }
    }
    (input, EMPTY)
}

/// `prefix` is how `text` begins.
pub open spec fn is_prefix(prefix: Seq<char>, text: Seq<char>) -> bool {
    prefix.len() <= text.len() && text.take(prefix.len() as int) == prefix
}

/// `prefix` begins every one of `choice`.
pub open spec fn is_common_prefix(prefix: Seq<char>, choice: Seq<&str>) -> bool {
    forall|i: int| 0 <= i < choice.len() ==> is_prefix(prefix, (#[trigger] choice[i])@)
}

/// Find the common prefix of a collection of strings, as a slice of the
/// first one. An empty collection has the empty prefix.
#[must_use]
pub fn common_prefix<'a>(choice: &'a [&str]) -> (prefix: &'a str)
    ensures
        is_common_prefix(prefix@, choice@),
        choice@.len() == 0 ==> prefix@ == Seq::<char>::empty(),
        forall|other: Seq<char>|
            choice@.len() > 0 && is_common_prefix(other, choice@) ==> other.len()
                <= prefix@.len(),
{
    proof {
        reveal_strlit("");
    }
    if choice.len() == 0 {
        return EMPTY;
    }
    let best = chars_of(choice[0]);
    let mut len: usize = best.len();
    assert(best@.take(len as int) =~= best@);
    let mut i: usize = 1;
    while i < choice.len()
        invariant
            1 <= i <= choice@.len(),
            best@ == choice@[0]@,
            len <= best@.len(),
            forall|j: int| 0 <= j < i ==> is_prefix(best@.take(len as int), (#[trigger] choice@[j])@),
            forall|other: Seq<char>|
                (forall|j: int| 0 <= j < i ==> is_prefix(other, (#[trigger] choice@[j])@))
                    ==> other.len() <= len,
        decreases choice@.len() - i,
    {
        let cur = chars_of(choice[i]);
        let mut k: usize = 0;
        while k < len && k < cur.len() && best[k] == cur[k]
            invariant
                len <= best@.len(),
                k <= len,
                k <= cur@.len(),
                forall|j: int| 0 <= j < k ==> best@[j] == cur@[j],
            decreases len - k,
        {
            k = k + 1;
        }
        proof {
            let shorter = best@.take(k as int);
            assert(cur@.take(k as int) =~= shorter);
            assert forall|j: int| 0 <= j < i + 1 implies is_prefix(
                shorter,
                (#[trigger] choice@[j])@,
            ) by {
                if j < i {
                    let longer = best@.take(len as int);
                    assert(is_prefix(longer, choice@[j]@));
                    assert(choice@[j]@.take(k as int) =~= longer.take(k as int));
                    assert(longer.take(k as int) =~= shorter);
                }
            }
            assert forall|other: Seq<char>|
                (forall|j: int| 0 <= j < i + 1 ==> is_prefix(other, (#[trigger] choice@[j])@))
                implies other.len() <= k by {
                assert(is_prefix(other, choice@[i as int]@));
                assert(is_prefix(other, choice@[0]@));
                assert(forall|j: int| 0 <= j < i ==> is_prefix(other, (#[trigger] choice@[j])@));
                if other.len() > k {
                    assert(other[k as int] == choice@[0]@.take(other.len() as int)[k as int]);
                    assert(other[k as int] == choice@[i as int]@.take(other.len() as int)[k as int]);
                }
            }
        }
        len = k;
        i = i + 1;
    }
    proof {
        assert(best@.subrange(0, len as int) =~= best@.take(len as int));
    }
    choice[0].substring_char(0, len)
}

/// Parses the bytes into a string.
pub fn string_from_bytes(bytes: &[u8]) -> (text: Result<String, Error>)
    ensures
        valid_utf8(bytes@) ==> text is Ok && text->Ok_0@ == decode_utf8(bytes@),
        !valid_utf8(bytes@) ==> text == Err::<String, Error>(Error::Utf8),
{
    match str_from_bytes(bytes) {
        Ok(text) => Ok(text.to_owned()),
        Err(e) => Err(e),
    }
}

/// Parses the bytes into a string.
pub fn str_from_bytes(bytes: &[u8]) -> (text: Result<&str, Error>)
    ensures
        valid_utf8(bytes@) ==> text is Ok && text->Ok_0@ == decode_utf8(bytes@),
        !valid_utf8(bytes@) ==> text == Err::<&str, Error>(Error::Utf8),
{
    match core::str::from_utf8(bytes) {
        Ok(text) => Ok(text),
        Err(_) => Err(Error::Utf8),
    }
}

} // verus!
