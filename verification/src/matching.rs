//! Regular expressions, matched by the `regex` crate. What a pattern matches
//! in a text is not defined here: it is named, and the functions of this
//! library say what they make of it. Patterns that the library builds from a
//! text are built here.

use crate::text::{from_chars, to_chars};
use vstd::prelude::*;

verus! {

/// The text of one group of one match, where the group took part.
pub open spec fn group_text(g: Option<String>) -> Option<Seq<char>> {
    match g {
        Some(s) => Some(s@),
        None => None,
    }
}

/// The groups of one match, the whole match first.
pub open spec fn match_view(m: Vec<Option<String>>) -> Seq<Option<Seq<char>>> {
    Seq::new(m@.len(), |i: int| group_text(m@[i]))
}

/// The matches of a pattern, in the order in which they stand in the text.
pub open spec fn matches_view(v: Seq<Vec<Option<String>>>) -> Seq<Seq<Option<Seq<char>>>> {
    Seq::new(v.len(), |i: int| match_view(v[i]))
}

/// The successive matches of `pattern` in `haystack`, none overlapping
/// another, each with its groups; nothing where `pattern` is no regular
/// expression.
pub uninterp spec fn regex_captures(pattern: Seq<char>, haystack: Seq<char>) -> Option<
    Seq<Seq<Option<Seq<char>>>>,
>;

/// Whether `pattern`, letter case left aside, matches anywhere in
/// `haystack`; nothing where `pattern` is no regular expression.
pub uninterp spec fn regex_matches_ignoring_case(pattern: Seq<char>, haystack: Seq<char>) -> Option<
    bool,
>;

/// Characters that mean something in a regular expression.
pub open spec fn is_meta(c: char) -> bool {
    ||| c == '\\'
    ||| c == '.'
    ||| c == '+'
    ||| c == '*'
    ||| c == '?'
    ||| c == '('
    ||| c == ')'
    ||| c == '|'
    ||| c == '['
    ||| c == ']'
    ||| c == '{'
    ||| c == '}'
    ||| c == '^'
    ||| c == '$'
    ||| c == '#'
    ||| c == '&'
    ||| c == '-'
    ||| c == '~'
}

/// The first `n` characters of `s`, a back slash before each one that means
/// something in a regular expression.
pub open spec fn escaped_to(s: Seq<char>, n: int) -> Seq<char>
    decreases n,
{
    if n <= 0 || n > s.len() {
        Seq::empty()
    } else if is_meta(s[n - 1]) {
        escaped_to(s, n - 1).push('\\').push(s[n - 1])
    } else {
        escaped_to(s, n - 1).push(s[n - 1])
    }
}

/// `s` as a pattern that matches `s` itself.
pub open spec fn escaped(s: Seq<char>) -> Seq<char> {
    escaped_to(s, s.len() as int)
}

/// Compiles `pattern` with `regex::Regex::new` and walks `haystack` with
/// `Regex::captures_iter`. The contract claims that the matches and their
/// groups depend on the pattern and the text alone, and gives them a name.
#[verifier::external_body]
pub(crate) fn captures_all(pattern: &str, haystack: &str) -> (out: Option<
    Vec<Vec<Option<String>>>,
>)
    ensures
        match out {
            Some(v) => regex_captures(pattern@, haystack@) == Some(matches_view(v@)),
            None => regex_captures(pattern@, haystack@) is None,
        },
{
    let re = ::regex::Regex::new(pattern).ok()?;
    let found = re.captures_iter(haystack);
    Some(
        found.map(|caps| caps.iter().map(|g| g.map(|m| m.as_str().to_string())).collect()).collect(),
    )
}

/// Compiles `pattern` with `regex::RegexBuilder`, letter case not told
/// apart, and asks `Regex::is_match` of `haystack`. The contract claims that
/// the answer depends on the pattern and the text alone, and gives it a name.
#[verifier::external_body]
pub(crate) fn is_match_ignoring_case(pattern: &str, haystack: &str) -> (out: Option<bool>)
    ensures
        out == regex_matches_ignoring_case(pattern@, haystack@),
{
    let re = ::regex::RegexBuilder::new(pattern).case_insensitive(true).build().ok()?;
    Some(re.is_match(haystack))
}

/// Whether a character means something in a regular expression.
pub fn is_meta_character(c: char) -> (r: bool)
    ensures
        r == is_meta(c),
{
    c == '\\' || c == '.' || c == '+' || c == '*' || c == '?' || c == '(' || c == ')' || c == '|'
        || c == '[' || c == ']' || c == '{' || c == '}' || c == '^' || c == '$' || c == '#' || c
        == '&' || c == '-' || c == '~'
}

/// The text as a pattern that matches the text itself: a back slash is put
/// before each character that means something in a regular expression.
pub fn escape(text: &str) -> (out: String)
    ensures
        out@ == escaped(text@),
{
    let chars = to_chars(text);
    let mut out: Vec<char> = Vec::new();
    let mut i: usize = 0;
    while i < chars.len()
        invariant
            i <= chars.len(),
            chars@ == text@,
            out@ == escaped_to(text@, i as int),
        decreases chars.len() - i,
    {
        if is_meta_character(chars[i]) {
            out.push('\\');
        }
        out.push(chars[i]);
        i += 1;
    }
    from_chars(&out)
}

/// The text of group `index` of a match, where that group took part.
pub open spec fn group(m: Seq<Option<Seq<char>>>, index: int) -> Option<Seq<char>> {
    if 0 <= index < m.len() {
        m[index]
    } else {
        None
    }
}

/// The text of group `index` of a match.
pub fn group_of(m: &Vec<Option<String>>, index: usize) -> (r: Option<&String>)
    ensures
        match r {
            Some(s) => group(match_view(*m), index as int) == Some(s@),
            None => group(match_view(*m), index as int) is None,
        },
{
    if index < m.len() {
        match &m[index] {
            Some(s) => Some(s),
            None => None,
        }
    } else {
        None
    }
}

} // verus!
