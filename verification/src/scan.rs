//! Character-level scanning.
//!
//! The scanners themselves are nom's; each function here calls one of them on a
//! string slice and states, over the slice's characters, what comes back. These
//! contracts are taken on trust: nothing in this crate proves them.

use vstd::prelude::*;
use nom::IResult;
use nom::bytes::complete::escaped;
use nom::character::complete::alphanumeric1;
use nom::character::complete::char;
use nom::character::complete::multispace0;
use nom::character::complete::none_of;
use nom::character::complete::one_of;
use nom::error::ErrorKind;

verus! {

/// A space, a tab, a carriage return or a line feed.
pub open spec fn is_space(c: char) -> bool {
    c == ' ' || c == '\t' || c == '\r' || c == '\n'
}

/// An ASCII letter or an ASCII digit.
pub open spec fn is_alphanumeric(c: char) -> bool {
    ('a' <= c && c <= 'z') || ('A' <= c && c <= 'Z') || ('0' <= c && c <= '9')
}

/// How many characters at the start of `s` are whitespace.
pub open spec fn space_run(s: Seq<char>) -> nat
    decreases s.len(),
{
    if s.len() > 0 && is_space(s[0]) {
        1 + space_run(s.skip(1))
    } else {
        0
    }
}

/// How many characters at the start of `s` are alphanumeric.
pub open spec fn alphanumeric_run(s: Seq<char>) -> nat
    decreases s.len(),
{
    if s.len() > 0 && is_alphanumeric(s[0]) {
        1 + alphanumeric_run(s.skip(1))
    } else {
        0
    }
}

/// Where a run of plain and escaped characters ends, given that it has reached
/// index `i` of `s` without fault.
///
/// A character outside `stops` is plain and joins the run. The `control`
/// character joins it together with the character after it, which must exist and
/// lie outside `unescapable`; otherwise the run is faulty (`None`). Any other
/// character ends the run in front of it; a run that ends in front of the first
/// character of a non-empty `s` is faulty as well.
pub open spec fn escaped_end(
    s: Seq<char>,
    i: int,
    stops: Seq<char>,
    control: char,
    unescapable: Seq<char>,
) -> Option<nat>
    decreases s.len() - i,
{
    if i < 0 || i >= s.len() {
        Some(s.len())
    } else if !stops.contains(s[i]) {
        escaped_end(s, i + 1, stops, control, unescapable)
    } else if s[i] == control {
        if i + 1 < s.len() && !unescapable.contains(s[i + 1]) {
            escaped_end(s, i + 2, stops, control, unescapable)
        } else {
            None
        }
    } else if i == 0 {
        None
    } else {
        Some(i as nat)
    }
}

/// `input` is `head` followed by `rest`, and `head` has `n` characters.
pub open spec fn split_at(input: Seq<char>, n: nat, head: Seq<char>, rest: Seq<char>) -> bool {
    n <= input.len() && head == input.take(n as int) && rest == input.skip(n as int)
}

/// `s` without its leading whitespace.
pub open spec fn trim_start(s: Seq<char>) -> Seq<char> {
    s.skip(space_run(s) as int)
}

/// Leading whitespace lies inside `s`.
pub proof fn lemma_space_run_bounds(s: Seq<char>)
    ensures
        space_run(s) <= s.len(),
    decreases s.len(),
{
    if s.len() > 0 && is_space(s[0]) {
        lemma_space_run_bounds(s.skip(1));
    }
}

/// An alphanumeric run lies inside `s`.
pub proof fn lemma_alphanumeric_run_bounds(s: Seq<char>)
    ensures
        alphanumeric_run(s) <= s.len(),
    decreases s.len(),
{
    if s.len() > 0 && is_alphanumeric(s[0]) {
        lemma_alphanumeric_run_bounds(s.skip(1));
    }
}

/// A run that has reached `i` ends at or after `i`, and inside `s`.
pub proof fn lemma_escaped_end_bounds(
    s: Seq<char>,
    i: int,
    stops: Seq<char>,
    control: char,
    unescapable: Seq<char>,
)
    requires
        0 <= i <= s.len(),
    ensures
        match escaped_end(s, i, stops, control, unescapable) {
            Some(n) => i <= n <= s.len(),
            None => true,
        },
    decreases s.len() - i,
{
    if i < s.len() {
        if !stops.contains(s[i]) {
            lemma_escaped_end_bounds(s, i + 1, stops, control, unescapable);
        } else if s[i] == control && i + 1 < s.len() && !unescapable.contains(s[i + 1]) {
            lemma_escaped_end_bounds(s, i + 2, stops, control, unescapable);
        }
    }
}

/// Calls nom's `multispace0`: the input without its leading whitespace.
#[verifier::external_body]
pub(crate) fn skip_whitespace<'a>(input: &'a str) -> (rest: &'a str)
    ensures
        rest@ == input@.skip(space_run(input@) as int),
{
    let found: IResult<&'a str, &'a str, (&'a str, ErrorKind)> = multispace0(input);
    match found {
        Ok((rest, _)) => rest,
        Err(_) => input,
    }
}

/// Calls nom's `alphanumeric1`: the longest alphanumeric run at the start of the
/// input and what follows it, or `None` where the input does not start with an
/// alphanumeric character.
#[verifier::external_body]
pub(crate) fn alphanumeric<'a>(input: &'a str) -> (found: Option<(&'a str, &'a str)>)
    ensures
        match found {
            Some((rest, run)) => alphanumeric_run(input@) > 0 && split_at(
                input@,
                alphanumeric_run(input@),
                run@,
                rest@,
            ),
            None => alphanumeric_run(input@) == 0,
        },
{
    let found: IResult<&'a str, &'a str, (&'a str, ErrorKind)> = alphanumeric1(input);
    match found {
        Ok((rest, run)) => Some((rest, run)),
        Err(_) => None,
    }
}

/// Calls the parser that nom's `char` makes for `c`: the input after its first
/// character where that character is `c`, else `None`.
#[verifier::external_body]
pub(crate) fn character<'a>(c: char, input: &'a str) -> (found: Option<&'a str>)
    ensures
        match found {
            Some(rest) => input@.len() > 0 && input@[0] == c && rest@ == input@.skip(1),
            None => input@.len() == 0 || input@[0] != c,
        },
{
    let found: IResult<&'a str, char, (&'a str, ErrorKind)> = char(c)(input);
    match found {
        Ok((rest, _)) => Some(rest),
        Err(_) => None,
    }
}

/// Calls the parser that nom's `one_of` makes for `list`: the input after its
/// first character, and that character, where it occurs in `list`; else `None`.
#[verifier::external_body]
pub(crate) fn one_of_list<'a>(list: &str, input: &'a str) -> (found: Option<(&'a str, char)>)
    ensures
        match found {
            Some((rest, c)) => input@.len() > 0 && list@.contains(c) && input@[0] == c && rest@
                == input@.skip(1),
            None => input@.len() == 0 || !list@.contains(input@[0]),
        },
{
    let found: IResult<&'a str, char, (&'a str, ErrorKind)> = one_of(list)(input);
    match found {
        Ok((rest, c)) => Some((rest, c)),
        Err(_) => None,
    }
}

/// Calls the parser that nom's `escaped` makes from two `none_of` parsers: plain
/// characters are those outside `stops`, and after `control` one character
/// outside `unescapable` is taken. The result is the run that [`escaped_end`]
/// describes and what follows it, or `None` where the run is faulty.
#[verifier::external_body]
pub(crate) fn escaped_text<'a>(
    input: &'a str,
    stops: &str,
    control: char,
    unescapable: &str,
) -> (found: Option<(&'a str, &'a str)>)
    ensures
        match found {
            Some((rest, run)) => match escaped_end(input@, 0, stops@, control, unescapable@) {
                Some(n) => split_at(input@, n, run@, rest@),
                None => false,
            },
            None => escaped_end(input@, 0, stops@, control, unescapable@) is None,
        },
{
    let found: IResult<&'a str, &'a str, (&'a str, ErrorKind)> = escaped(
        none_of(stops),
        control,
        none_of(unescapable),
    )(input);
    match found {
        Ok((rest, run)) => Some((rest, run)),
        Err(_) => None,
    }
}

/// Calls `==` of `str`: whether the two slices hold the same characters.
#[verifier::external_body]
pub(crate) fn same_text(a: &str, b: &str) -> (same: bool)
    ensures
        same == (a@ == b@),
{
    a == b
}

} // verus!
