//! Comments taken out of source text, string literals left as they are.

use crate::text::{from_chars, is_space, is_whitespace, to_chars};
use vstd::prelude::*;

verus! {

/// What the text at hand is part of.
pub enum Lexing {
    /// Code, outside any literal or comment.
    Code,
    /// A string literal that the given quote opened.
    Literal(char),
    /// A comment that ends with the line.
    LineComment,
    /// A comment that ends with `*/`.
    BlockComment,
}

pub open spec fn is_quote(c: char) -> bool {
    c == '\'' || c == '"' || c == '`'
}

/// What is kept of `s[i..]`, read in the given mode.
///
/// In code, a quote opens a literal, `//` a line comment and `/*` a block
/// comment; any other character is kept. In a literal every character is kept;
/// a back slash keeps the character after it too, whatever it is, and the
/// opening quote closes the literal. Of a line comment only the line break that
/// ends it is kept. Of a block comment only its line breaks are kept; it ends
/// after `*/`, and its last character, where no `*/` came, is read as code.
pub open spec fn kept_from(s: Seq<char>, i: int, mode: Lexing) -> Seq<char>
    decreases s.len() - i, (if mode is BlockComment { 1int } else { 0int }),
{
    if i < 0 || i >= s.len() {
        Seq::empty()
    } else {
        let c = s[i];
        match mode {
            Lexing::Literal(q) => {
                if c == '\\' && i + 1 < s.len() {
                    seq![c, s[i + 1]] + kept_from(s, i + 2, mode)
                } else if c == q {
                    seq![c] + kept_from(s, i + 1, Lexing::Code)
                } else {
                    seq![c] + kept_from(s, i + 1, mode)
                }
            },
            Lexing::Code => {
                if is_quote(c) {
                    seq![c] + kept_from(s, i + 1, Lexing::Literal(c))
                } else if c == '/' && i + 1 < s.len() && s[i + 1] == '/' {
                    kept_from(s, i + 2, Lexing::LineComment)
                } else if c == '/' && i + 1 < s.len() && s[i + 1] == '*' {
                    kept_from(s, i + 2, Lexing::BlockComment)
                } else {
                    seq![c] + kept_from(s, i + 1, Lexing::Code)
                }
            },
            Lexing::LineComment => {
                if c == '\n' {
                    seq![c] + kept_from(s, i + 1, Lexing::Code)
                } else {
                    kept_from(s, i + 1, Lexing::LineComment)
                }
            },
            Lexing::BlockComment => {
                if i + 1 >= s.len() {
                    kept_from(s, i, Lexing::Code)
                } else if c == '*' && s[i + 1] == '/' {
                    kept_from(s, i + 2, Lexing::Code)
                } else if c == '\n' {
                    seq![c] + kept_from(s, i + 1, Lexing::BlockComment)
                } else {
                    kept_from(s, i + 1, Lexing::BlockComment)
                }
            },
        }
    }
}

/// The source without its comments.
pub open spec fn stripped(s: Seq<char>) -> Seq<char> {
    kept_from(s, 0, Lexing::Code)
}

/// How many line breaks `s[i..]` holds.
pub open spec fn line_breaks(s: Seq<char>, i: int) -> nat
    decreases s.len() - i,
{
    if i < 0 || i >= s.len() {
        0
    } else if s[i] == '\n' {
        line_breaks(s, i + 1) + 1
    } else {
        line_breaks(s, i + 1)
    }
}

proof fn lemma_line_breaks_after(a: Seq<char>, b: Seq<char>, k: int)
    requires
        0 <= k,
    ensures
        line_breaks(a + b, a.len() + k) == line_breaks(b, k),
    decreases b.len() - k,
{
    if k < b.len() {
        assert((a + b)[a.len() + k] == b[k]);
        lemma_line_breaks_after(a, b, k + 1);
    }
}

proof fn lemma_line_breaks_joined(a: Seq<char>, b: Seq<char>, i: int)
    requires
        0 <= i <= a.len(),
    ensures
        line_breaks(a + b, i) == line_breaks(a, i) + line_breaks(b, 0),
    decreases a.len() - i,
{
    if i < a.len() {
        assert((a + b)[i] == a[i]);
        lemma_line_breaks_joined(a, b, i + 1);
    } else {
        lemma_line_breaks_after(a, b, 0);
    }
}

/// What is kept of a text holds as many line breaks as the text.
pub proof fn lemma_kept_line_breaks(s: Seq<char>, i: int, mode: Lexing)
    requires
        0 <= i,
    ensures
        line_breaks(kept_from(s, i, mode), 0) == line_breaks(s, i),
    decreases s.len() - i, (if mode is BlockComment { 1int } else { 0int }),
{
    if i < s.len() {
        let c = s[i];
        let one = seq![c];
        assert(line_breaks(one, 0) == if c == '\n' { 1nat } else { 0nat }) by {
            assert(line_breaks(one, 1) == 0);
        }
        match mode {
            Lexing::Literal(q) => {
                if c == '\\' && i + 1 < s.len() {
                    let two = seq![c, s[i + 1]];
                    assert(line_breaks(two, 0) == if s[i + 1] == '\n' { 1nat } else { 0nat }) by {
                        assert(line_breaks(two, 2) == 0);
                        assert(line_breaks(two, 1) == if s[i + 1] == '\n' { 1nat } else { 0nat });
                    }
                    lemma_kept_line_breaks(s, i + 2, mode);
                    lemma_line_breaks_joined(two, kept_from(s, i + 2, mode), 0);
                    assert(line_breaks(s, i + 1) == line_breaks(s, i + 2) + if s[i + 1] == '\n' {
                        1nat
                    } else {
                        0nat
                    });
                } else if c == q {
                    lemma_kept_line_breaks(s, i + 1, Lexing::Code);
                    lemma_line_breaks_joined(one, kept_from(s, i + 1, Lexing::Code), 0);
                } else {
                    lemma_kept_line_breaks(s, i + 1, mode);
                    lemma_line_breaks_joined(one, kept_from(s, i + 1, mode), 0);
                }
            },
            Lexing::Code => {
                if is_quote(c) {
                    lemma_kept_line_breaks(s, i + 1, Lexing::Literal(c));
                    lemma_line_breaks_joined(one, kept_from(s, i + 1, Lexing::Literal(c)), 0);
                } else if c == '/' && i + 1 < s.len() && s[i + 1] == '/' {
                    lemma_kept_line_breaks(s, i + 2, Lexing::LineComment);
                    assert(line_breaks(s, i + 1) == line_breaks(s, i + 2));
                } else if c == '/' && i + 1 < s.len() && s[i + 1] == '*' {
                    lemma_kept_line_breaks(s, i + 2, Lexing::BlockComment);
                    assert(line_breaks(s, i + 1) == line_breaks(s, i + 2));
                } else {
                    lemma_kept_line_breaks(s, i + 1, Lexing::Code);
                    lemma_line_breaks_joined(one, kept_from(s, i + 1, Lexing::Code), 0);
                }
            },
            Lexing::LineComment => {
                if c == '\n' {
                    lemma_kept_line_breaks(s, i + 1, Lexing::Code);
                    lemma_line_breaks_joined(one, kept_from(s, i + 1, Lexing::Code), 0);
                } else {
                    lemma_kept_line_breaks(s, i + 1, Lexing::LineComment);
                }
            },
            Lexing::BlockComment => {
                if i + 1 >= s.len() {
                    lemma_kept_line_breaks(s, i, Lexing::Code);
                } else if c == '*' && s[i + 1] == '/' {
                    lemma_kept_line_breaks(s, i + 2, Lexing::Code);
                    assert(line_breaks(s, i + 1) == line_breaks(s, i + 2));
                } else if c == '\n' {
                    lemma_kept_line_breaks(s, i + 1, Lexing::BlockComment);
                    lemma_line_breaks_joined(one, kept_from(s, i + 1, Lexing::BlockComment), 0);
                } else {
                    lemma_kept_line_breaks(s, i + 1, Lexing::BlockComment);
                }
            },
        }
    }
}

pub fn strip_comment_chars(v: &Vec<char>) -> (out: Vec<char>)
    ensures
        out@ == stripped(v@),
{
    let mut out: Vec<char> = Vec::new();
    let mut i: usize = 0;
    let mut mode = Lexing::Code;
    assert(out@ + kept_from(v@, 0, mode) =~= stripped(v@));
    while i < v.len()
        invariant
            i <= v.len(),
            stripped(v@) == out@ + kept_from(v@, i as int, mode),
        decreases v.len() - i, (if mode is BlockComment { 1int } else { 0int }),
    {
        let c = v[i];
        let ghost before = out@;
        let ghost rest = kept_from(v@, i as int, mode);
        match mode {
            Lexing::Literal(q) => {
                out.push(c);
                if c == '\\' && i + 1 < v.len() {
                    out.push(v[i + 1]);
                    i += 2;
                } else {
                    if c == q {
                        mode = Lexing::Code;
                    }
                    i += 1;
                }
            },
            Lexing::Code => {
                if c == '\'' || c == '"' || c == '`' {
                    out.push(c);
                    mode = Lexing::Literal(c);
                    i += 1;
                } else if c == '/' && i + 1 < v.len() && v[i + 1] == '/' {
                    mode = Lexing::LineComment;
                    i += 2;
                } else if c == '/' && i + 1 < v.len() && v[i + 1] == '*' {
                    mode = Lexing::BlockComment;
                    i += 2;
                } else {
                    out.push(c);
                    i += 1;
                }
            },
            Lexing::LineComment => {
                if c == '\n' {
                    out.push(c);
                    mode = Lexing::Code;
                }
                i += 1;
            },
            Lexing::BlockComment => {
                if i + 1 >= v.len() {
                    mode = Lexing::Code;
                } else if c == '*' && v[i + 1] == '/' {
                    mode = Lexing::Code;
                    i += 2;
                } else {
                    if c == '\n' {
                        out.push(c);
                    }
                    i += 1;
                }
            },
        }
        assert(before + rest =~= out@ + kept_from(v@, i as int, mode));
    }
    assert(out@ + kept_from(v@, i as int, mode) =~= out@);
    out
}

/// Removes `//` and `/* */` comments. String literals in any of the three
/// quotes are kept whole, and so is every line break.
pub fn strip_comments(source: &str) -> (out: String)
    ensures
        out@ == stripped(source@),
        line_breaks(out@, 0) == line_breaks(source@, 0),
{
    proof {
        lemma_kept_line_breaks(source@, 0, Lexing::Code);
    }
    let v = to_chars(source);
    from_chars(&strip_comment_chars(&v))
}

/// Index of the bracket that closes an object or a list and is reached
/// from `i` over white space and commas alone; -1 where none is.
pub open spec fn closing_from(s: Seq<char>, i: int) -> int
    decreases s.len() - i,
{
    if i < 0 || i >= s.len() {
        -1
    } else if s[i] == '}' || s[i] == ']' {
        i
    } else if is_space(s[i]) || s[i] == ',' {
        closing_from(s, i + 1)
    } else {
        -1
    }
}

/// What is left of `s[i..]` without its trailing commas; `quote` is the
/// quote that opened the string literal at hand, if `i` is inside one.
///
/// A string literal is kept whole: a back slash keeps the character after
/// it, and the opening quote closes the literal. Outside literals, a comma
/// from which a closing bracket is reached over white space and commas alone
/// goes, and with it what stands between it and the bracket.
pub open spec fn settled_from(s: Seq<char>, i: int, quote: Option<char>) -> Seq<char>
    decreases s.len() - i,
{
    if i < 0 || i >= s.len() {
        Seq::empty()
    } else {
        let c = s[i];
        match quote {
            Some(q) => {
                if c == '\\' && i + 1 < s.len() {
                    seq![c, s[i + 1]] + settled_from(s, i + 2, quote)
                } else if c == q {
                    seq![c] + settled_from(s, i + 1, None)
                } else {
                    seq![c] + settled_from(s, i + 1, quote)
                }
            },
            None => {
                if is_quote(c) {
                    seq![c] + settled_from(s, i + 1, Some(c))
                } else if c == ',' && i < closing_from(s, i + 1) < s.len() {
                    settled_from(s, closing_from(s, i + 1), None)
                } else {
                    seq![c] + settled_from(s, i + 1, None)
                }
            },
        }
    }
}

/// The text without the commas that stand, outside string literals, before
/// a closing `}` or `]`.
pub open spec fn without_trailing_commas(s: Seq<char>) -> Seq<char> {
    settled_from(s, 0, None)
}

fn closing(v: &Vec<char>, from: usize) -> (r: Option<usize>)
    ensures
        match r {
            Some(k) => closing_from(v@, from as int) == k && from <= k < v.len(),
            None => closing_from(v@, from as int) == -1,
        },
{
    let mut k: usize = from;
    while k < v.len()
        invariant
            from <= k,
            closing_from(v@, from as int) == closing_from(v@, k as int),
        decreases v.len() - k,
    {
        let c = v[k];
        if c == '}' || c == ']' {
            return Some(k);
        }
        if !(is_whitespace(c) || c == ',') {
            return None;
        }
        k += 1;
    }
    None
}

/// Takes the trailing commas out of a text that holds no comments.
pub fn drop_trailing_commas(text: String) -> (out: String)
    ensures
        out@ == without_trailing_commas(text@),
{
    let v = to_chars(text.as_str());
    let mut out: Vec<char> = Vec::new();
    let mut i: usize = 0;
    let mut quote: Option<char> = None;
    assert(out@ + settled_from(v@, 0, quote) =~= without_trailing_commas(v@));
    while i < v.len()
        invariant
            i <= v.len(),
            without_trailing_commas(v@) == out@ + settled_from(v@, i as int, quote),
        decreases v.len() - i,
    {
        let c = v[i];
        let ghost before = out@;
        let ghost rest = settled_from(v@, i as int, quote);
        match quote {
            Some(q) => {
                out.push(c);
                if c == '\\' && i + 1 < v.len() {
                    out.push(v[i + 1]);
                    i += 2;
                } else {
                    if c == q {
                        quote = None;
                    }
                    i += 1;
                }
            },
            None => {
                if c == '\'' || c == '"' || c == '`' {
                    out.push(c);
                    quote = Some(c);
                    i += 1;
                } else if c == ',' {
                    match closing(&v, i + 1) {
                        Some(k) => {
                            i = k;
                        },
                        None => {
                            out.push(c);
                            i += 1;
                        },
                    }
                } else {
                    out.push(c);
                    i += 1;
                }
            },
        }
        assert(before + rest =~= out@ + settled_from(v@, i as int, quote));
    }
    assert(out@ + settled_from(v@, i as int, quote) =~= out@);
    from_chars(&out)
}

/// JSON with comments and trailing commas as plain JSON.
pub open spec fn sanitized(s: Seq<char>) -> Seq<char> {
    without_trailing_commas(stripped(s))
}

/// Removes comments, then the commas that stand, outside string literals,
/// before a closing `}` or `]`.
pub fn sanitize_jsonc(input: &str) -> (out: String)
    ensures
        out@ == sanitized(input@),
{
    drop_trailing_commas(strip_comments(input))
}

} // verus!
