//! What this library takes from the `regex` crate: whether a pattern
//! matches a text, and `regex::escape`. The Unicode classes `\w` and `\d`
//! that the SQL grammar uses are read through the same engine.
use vstd::prelude::*;
use crate::text;

verus! {

/// What `regex::Regex::new(pattern)` followed by `is_match(haystack)` gives:
/// `None` when the pattern does not compile, else whether it matches
/// somewhere in `haystack`.
pub uninterp spec fn regex_match_outcome(pattern: Seq<char>, haystack: Seq<char>) -> Option<bool>;

/// Calls `regex::Regex::new` and `regex::Regex::is_match`. The contract
/// says only that the outcome is the one named by `regex_match_outcome`
/// for these two texts; the regex semantics themselves are not stated.
#[verifier::external_body]
pub(crate) fn regex_is_match(pattern: &str, haystack: &str) -> (r: Option<bool>)
    ensures
        r == regex_match_outcome(pattern@, haystack@),
{
    match regex::Regex::new(pattern) {
        Ok(re) => Some(re.is_match(haystack)),
        Err(_) => None,
    }
}

/// The characters `regex::escape` puts a backslash before.
pub open spec fn is_meta_character(c: char) -> bool {
    c == '\\' || c == '.' || c == '+' || c == '*' || c == '?' || c == '(' || c == ')' || c == '|'
        || c == '[' || c == ']' || c == '{' || c == '}' || c == '^' || c == '$' || c == '#' || c
        == '&' || c == '-' || c == '~'
}

/// `regex::escape(text)`: each meta character preceded by a backslash.
pub open spec fn escaped(t: Seq<char>) -> Seq<char>
    decreases t.len(),
{
    if t.len() == 0 {
        Seq::empty()
    } else {
        let last = t.last();
        escaped(t.drop_last()) + (if is_meta_character(last) {
            seq!['\\', last]
        } else {
            seq![last]
        })
    }
}

/// Calls `regex::escape`. The contract restates what its source does:
/// every character of the text, with a backslash before each of the
/// characters `\ . + * ? ( ) | [ ] { } ^ $ # & - ~`.
#[verifier::external_body]
pub(crate) fn regex_escape(t: &str) -> (r: String)
    ensures
        r@ == escaped(t@),
{
    regex::escape(t)
}

/// The one-character text `c`.
fn char_text(c: char) -> (s: String)
    ensures
        s@ == seq![c],
{
    let mut s = String::new();
    text::push_char(&mut s, c);
    s
}

/// What a regex outcome says of a match: only a match is a yes (no match,
/// or a pattern that did not compile, is a no).
pub open spec fn matched(outcome: Option<bool>) -> bool {
    outcome == Some(true)
}

/// `c` is a word character, given the outcome of matching `^\w$` on it:
/// for ASCII, letters, digits and `_`; beyond ASCII, what the outcome says.
pub open spec fn word_char_given(c: char, outcome: Option<bool>) -> bool {
    let u = c as u32;
    if u < 128 {
        (48 <= u && u <= 57) || (65 <= u && u <= 90) || (97 <= u && u <= 122) || u == 95
    } else {
        matched(outcome)
    }
}

/// `c` belongs to the regex class `\w` (Unicode word characters). For ASCII
/// that is letters, digits and `_`; beyond ASCII the regex engine decides.
pub open spec fn is_word_char(c: char) -> bool {
    word_char_given(c, regex_match_outcome("^\\w$"@, seq![c]))
}

/// Whether `c` is a word character, given the outcome of matching `^\w$`
/// on its one-character text.
pub fn word_char_from(c: char, outcome: Option<bool>) -> (b: bool)
    ensures
        b == word_char_given(c, outcome),
{
    let u: u32 = c as u32;
    if u < 128 {
        (48 <= u && u <= 57) || (65 <= u && u <= 90) || (97 <= u && u <= 122) || u == 95
    } else {
        match outcome {
            Some(b) => b,
            None => false,
        }
    }
}

pub fn is_word_char_exec(c: char) -> (b: bool)
    ensures
        b == is_word_char(c),
{
    if (c as u32) < 128 {
        word_char_from(c, None)
    } else {
        let t = char_text(c);
        word_char_from(c, regex_is_match("^\\w$", t.as_str()))
    }
}

/// `c` is a decimal digit, given the outcome of matching `^\d$` on it: for
/// ASCII, `0`..`9`; beyond ASCII, what the outcome says.
pub open spec fn decimal_digit_given(c: char, outcome: Option<bool>) -> bool {
    let u = c as u32;
    if u < 128 {
        48 <= u && u <= 57
    } else {
        matched(outcome)
    }
}

/// `c` belongs to the regex class `\d` (Unicode decimal digits). For ASCII
/// that is `0`..`9`; beyond ASCII the regex engine decides.
pub open spec fn is_decimal_digit(c: char) -> bool {
    decimal_digit_given(c, regex_match_outcome("^\\d$"@, seq![c]))
}

/// Whether `c` is a decimal digit, given the outcome of matching `^\d$` on
/// its one-character text.
pub fn decimal_digit_from(c: char, outcome: Option<bool>) -> (b: bool)
    ensures
        b == decimal_digit_given(c, outcome),
{
    let u: u32 = c as u32;
    if u < 128 {
        48 <= u && u <= 57
    } else {
        match outcome {
            Some(b) => b,
            None => false,
        }
    }
}

pub fn is_decimal_digit_exec(c: char) -> (b: bool)
    ensures
        b == is_decimal_digit(c),
{
    if (c as u32) < 128 {
        decimal_digit_from(c, None)
    } else {
        let t = char_text(c);
        decimal_digit_from(c, regex_is_match("^\\d$", t.as_str()))
    }
}

} // verus!
