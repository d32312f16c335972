//! Import specifiers: their normal form, their classes, and what path
//! aliases capture from them.

use crate::order::{sort_texts, sorted};
use crate::paths::{strip_extension_chars, stripped_extension};
use crate::text::{
    before_char, concat, contains_char, cut_char, ends, equal, from_chars, has_char,
    lemma_find_char_from, occurs, occurs_at, pieces, replace, replaced, rows, slashed, slice, split,
    split_once_char, starts, starts_with, strip_prefix, take_before_char, texts, to_chars,
    to_forward_slashes, trim, trim_matches, trim_start_matches, trimmed, without_leading,
    without_prefix, without_surrounding,
};
use vstd::prelude::*;

verus! {

/// The specifier without surrounding white space, query and fragment.
pub open spec fn normalized(s: Seq<char>) -> Seq<char> {
    trimmed(before_char(before_char(trimmed(s), '?'), '#'))
}

pub fn normalize_chars(v: &Vec<char>) -> (out: Vec<char>)
    ensures
        out@ == normalized(v@),
{
    let a = trim(v);
    let b = take_before_char(&a, '?');
    let c = take_before_char(&b, '#');
    trim(&c)
}

/// A specifier without surrounding white space, query and fragment.
pub fn normalize_specifier(specifier: &str) -> (out: String)
    ensures
        out@ == normalized(specifier@),
{
    let v = to_chars(specifier);
    from_chars(&normalize_chars(&v))
}

/// The specifier names a path relative to the importing file.
pub open spec fn relative_specifier(s: Seq<char>) -> bool {
    starts(s, "./"@) || starts(s, "../"@)
}

pub fn is_relative_chars(v: &Vec<char>) -> (r: bool)
    ensures
        r == relative_specifier(v@),
{
    starts_with(v, "./") || starts_with(v, "../")
}

/// Whether a specifier names a path relative to the importing file.
pub fn is_relative_specifier(specifier: &str) -> (r: bool)
    ensures
        r == relative_specifier(specifier@),
{
    let v = to_chars(specifier);
    is_relative_chars(&v)
}

/// The specifier starts with `/`: it names a path from the project root.
pub open spec fn rooted_specifier(s: Seq<char>) -> bool {
    s.len() > 0 && s[0] == '/'
}

/// The specifier may name a package: it is neither relative nor rooted, does
/// not start with `#`, and holds no dot.
pub open spec fn package_like(s: Seq<char>) -> bool {
    &&& !relative_specifier(s)
    &&& !rooted_specifier(s)
    &&& !(s.len() > 0 && s[0] == '#')
    &&& !has_char(s, '.')
}

pub fn looks_like_package_chars(v: &Vec<char>) -> (r: bool)
    ensures
        r == package_like(v@),
{
    if is_relative_chars(v) {
        return false;
    }
    if v.len() > 0 && (v[0] == '/' || v[0] == '#') {
        return false;
    }
    !contains_char(v, '.')
}

/// Whether a specifier may name a package.
pub fn looks_like_package_specifier(specifier: &str) -> (r: bool)
    ensures
        r == package_like(specifier@),
{
    let v = to_chars(specifier);
    looks_like_package_chars(&v)
}

/// The package that a specifier names: its first segment, or its first two
/// where the first starts with `@`.
pub open spec fn package_of(s: Seq<char>) -> Seq<char> {
    let parts = pieces(s, '/');
    if parts.len() == 0 {
        Seq::empty()
    } else if parts[0].len() > 0 && parts[0][0] == '@' {
        if parts.len() > 1 {
            parts[0].push('/') + parts[1]
        } else {
            parts[0].push('/')
        }
    } else {
        parts[0]
    }
}

pub fn package_name_chars(v: &Vec<char>) -> (out: Vec<char>)
    ensures
        out@ == package_of(v@),
{
    let parts = split(v, '/');
    assert(rows(parts@).len() == parts@.len());
    if parts.len() == 0 {
        return Vec::new();
    }
    assert(rows(parts@)[0] == parts@[0]@);
    let first = &parts[0];
    if first.len() > 0 && first[0] == '@' {
        let mut head = slice(first, 0, first.len());
        assert(head@ =~= first@);
        head.push('/');
        if parts.len() > 1 {
            assert(rows(parts@)[1] == parts@[1]@);
            concat(&head, &parts[1])
        } else {
            head
        }
    } else {
        let out = slice(first, 0, first.len());
        assert(out@ =~= first@);
        out
    }
}

/// The package that a specifier names.
pub fn package_name(specifier: &str) -> (out: String)
    ensures
        out@ == package_of(specifier@),
{
    let v = to_chars(specifier);
    from_chars(&package_name_chars(&v))
}

/// What the `*` of an alias key stands for in a specifier that the key
/// matches. A key without `*` matches only itself, and captures nothing. A key
/// with `*` matches a specifier that starts with what precedes the `*` and ends
/// with what follows it, the two not overlapping.
pub open spec fn alias_capture(key: Seq<char>, s: Seq<char>) -> Option<Seq<char>> {
    match cut_char(key, '*') {
        Some((prefix, suffix)) => {
            if starts(s, prefix) && ends(s, suffix) && prefix.len() + suffix.len() <= s.len() {
                Some(s.subrange(prefix.len() as int, s.len() - suffix.len()))
            } else {
                None
            }
        },
        None => {
            if key == s {
                Some(Seq::empty())
            } else {
                None
            }
        },
    }
}

pub fn match_alias_chars(key: &Vec<char>, s: &Vec<char>) -> (r: Option<Vec<char>>)
    ensures
        match r {
            Some(mid) => alias_capture(key@, s@) == Some(mid@),
            None => alias_capture(key@, s@) is None,
        },
{
    match split_once_char(key, '*') {
        Some((prefix, suffix)) => {
            if suffix.len() > s.len() || prefix.len() > s.len() - suffix.len() {
                return None;
            }
            if occurs(s, &prefix, 0) && occurs(s, &suffix, s.len() - suffix.len()) {
                Some(slice(s, prefix.len(), s.len() - suffix.len()))
            } else {
                None
            }
        },
        None => {
            if equal(key, s) {
                Some(Vec::new())
            } else {
                None
            }
        },
    }
}

/// What the `*` of an alias key stands for in a specifier, if the key
/// matches it.
pub fn match_alias(alias_key: &str, specifier: &str) -> (r: Option<String>)
    ensures
        match r {
            Some(mid) => alias_capture(alias_key@, specifier@) == Some(mid@),
            None => alias_capture(alias_key@, specifier@) is None,
        },
{
    let k = to_chars(alias_key);
    let s = to_chars(specifier);
    match match_alias_chars(&k, &s) {
        Some(mid) => Some(from_chars(&mid)),
        None => None,
    }
}

/// The target of an alias with each `*` replaced by what the key captured.
pub open spec fn alias_target(target: Seq<char>, wildcard: Seq<char>) -> Seq<char> {
    replaced(target, '*', wildcard)
}

pub fn apply_alias_chars(target: &Vec<char>, wildcard: &Vec<char>) -> (out: Vec<char>)
    ensures
        out@ == alias_target(target@, wildcard@),
{
    replace(target, '*', wildcard)
}

/// The target of an alias with what its key captured in place of `*`.
pub fn apply_alias_target(target: &str, wildcard: &str) -> (out: String)
    ensures
        out@ == alias_target(target@, wildcard@),
{
    let t = to_chars(target);
    let w = to_chars(wildcard);
    from_chars(&apply_alias_chars(&t, &w))
}

/// The specifier without query and fragment, with forward slashes only.
pub open spec fn cleaned(s: Seq<char>) -> Seq<char> {
    slashed(before_char(before_char(s, '?'), '#'))
}

fn clean_chars(v: &Vec<char>) -> (out: Vec<char>)
    ensures
        out@ == cleaned(v@),
{
    let a = take_before_char(v, '?');
    let b = take_before_char(&a, '#');
    to_forward_slashes(&b)
}

/// Index past the run of `./` and `../` that starts at `i`.
pub open spec fn lead_dots(s: Seq<char>, i: int) -> int
    decreases s.len() - i,
{
    if occurs_at(s, seq!['.', '/'], i) {
        lead_dots(s, i + 2)
    } else if occurs_at(s, seq!['.', '.', '/'], i) {
        lead_dots(s, i + 3)
    } else {
        i
    }
}

/// The cleaned, trimmed specifier without its leading `./` and `../`.
pub open spec fn suffix_base(s: Seq<char>) -> Seq<char> {
    let t = trimmed(cleaned(s));
    let a = lead_dots(t, 0);
    if 0 <= a <= t.len() {
        t.skip(a)
    } else {
        t
    }
}

fn suffix_base_chars(v: &Vec<char>) -> (out: Vec<char>)
    ensures
        out@ == suffix_base(v@),
{
    let t = trim(&clean_chars(v));
    let mut one: Vec<char> = Vec::new();
    one.push('.');
    one.push('/');
    assert(one@ =~= seq!['.', '/']);
    let mut two: Vec<char> = Vec::new();
    two.push('.');
    two.push('.');
    two.push('/');
    assert(two@ =~= seq!['.', '.', '/']);
    let mut a: usize = 0;
    loop
        invariant
            a <= t.len(),
            one@ == seq!['.', '/'],
            two@ == seq!['.', '.', '/'],
            lead_dots(t@, 0) == lead_dots(t@, a as int),
        ensures
            lead_dots(t@, 0) == a,
        decreases t.len() - a,
    {
        if occurs(&t, &one, a) {
            a += 2;
        } else if occurs(&t, &two, a) {
            a += 3;
        } else {
            break ;
        }
    }
    slice(&t, a, t.len())
}

/// What follows the first `/` of a specifier that starts with `@`.
pub open spec fn scope_rest(base: Seq<char>) -> Option<Seq<char>> {
    if base.len() > 0 && base[0] == '@' {
        match cut_char(base, '/') {
            Some((_, rest)) => Some(rest),
            None => None,
        }
    } else {
        None
    }
}

/// The list that holds a text, if there is one and it is not empty.
pub open spec fn entry(o: Option<Seq<char>>) -> Seq<Seq<char>> {
    match o {
        Some(x) => if x.len() > 0 {
            seq![x]
        } else {
            Seq::empty()
        },
        None => Seq::empty(),
    }
}

/// The endings that a file's path may share with a specifier that did not
/// resolve: the specifier itself and what follows a leading `/`, `@/`, `~/`,
/// `@scope/` or `src/`; empty ones left out.
pub open spec fn suffix_candidates(base: Seq<char>) -> Seq<Seq<char>> {
    entry(without_prefix(base, "/"@)) + entry(Some(base)) + entry(without_prefix(base, "@/"@))
        + entry(without_prefix(base, "~/"@)) + entry(scope_rest(base)) + entry(
        without_prefix(base, "src/"@),
    )
}

/// The endings of `suffix_candidates`, ascending and without repeats.
pub open spec fn suffixes(s: Seq<char>) -> Seq<Seq<char>> {
    sorted(suffix_candidates(suffix_base(s)))
}

fn push_entry(list: &mut Vec<String>, o: Option<Vec<char>>)
    ensures
        texts(final(list)@) == texts(old(list)@) + entry(
            match o {
                Some(x) => Some(x@),
                None => None,
            },
        ),
{
    let ghost before = texts(list@);
    match o {
        Some(x) => {
            if x.len() > 0 {
                list.push(from_chars(&x));
                assert(texts(list@) =~= before + seq![x@]);
            } else {
                assert(texts(list@) =~= before + Seq::<Seq<char>>::empty());
            }
        },
        None => {
            assert(texts(list@) =~= before + Seq::<Seq<char>>::empty());
        },
    }
}

/// The endings that a file's path may share with a specifier that did not
/// resolve, ascending.
pub fn unresolved_specifier_suffixes(specifier: &str) -> (out: Vec<String>)
    ensures
        texts(out@) == suffixes(specifier@),
{
    let v = to_chars(specifier);
    let base = suffix_base_chars(&v);
    let mut list: Vec<String> = Vec::new();
    assert(texts(list@) =~= Seq::<Seq<char>>::empty());
    push_entry(&mut list, strip_prefix(&base, "/"));
    let copy = slice(&base, 0, base.len());
    assert(copy@ =~= base@);
    push_entry(&mut list, Some(copy));
    push_entry(&mut list, strip_prefix(&base, "@/"));
    push_entry(&mut list, strip_prefix(&base, "~/"));
    let rest = if base.len() > 0 && base[0] == '@' {
        match split_once_char(&base, '/') {
            Some((_, rest)) => Some(rest),
            None => None,
        }
    } else {
        None
    };
    push_entry(&mut list, rest);
    push_entry(&mut list, strip_prefix(&base, "src/"));
    assert(texts(list@) =~= suffix_candidates(base@));
    sort_texts(&list)
}

/// The last entry of the first `n` of `parts` that is not empty.
pub open spec fn last_filled(parts: Seq<Seq<char>>, n: int) -> Option<Seq<char>>
    decreases n,
{
    if n <= 0 || n > parts.len() {
        None
    } else if parts[n - 1].len() > 0 {
        Some(parts[n - 1])
    } else {
        last_filled(parts, n - 1)
    }
}

/// The name that a specifier ends in, without its extension; none where the
/// specifier ends in `.` or `..` or names nothing.
pub open spec fn leaf_name(s: Seq<char>) -> Option<Seq<char>> {
    let parts = pieces(cleaned(s), '/');
    match last_filled(parts, parts.len() as int) {
        Some(leaf) => if leaf == seq!['.'] || leaf == seq!['.', '.'] {
            None
        } else {
            Some(stripped_extension(leaf))
        },
        None => None,
    }
}

pub fn unresolved_leaf_chars(v: &Vec<char>) -> (r: Option<Vec<char>>)
    ensures
        match r {
            Some(leaf) => leaf_name(v@) == Some(leaf@),
            None => leaf_name(v@) is None,
        },
{
    let clean = clean_chars(v);
    let parts = split(&clean, '/');
    assert(rows(parts@).len() == parts@.len());
    let mut n: usize = parts.len();
    while n > 0
        invariant
            n <= parts.len(),
            rows(parts@) == pieces(cleaned(v@), '/'),
            last_filled(rows(parts@), parts@.len() as int) == last_filled(rows(parts@), n as int),
        decreases n,
    {
        assert(rows(parts@)[n - 1] == parts@[n - 1]@);
        let leaf = &parts[n - 1];
        if leaf.len() > 0 {
            if leaf.len() == 1 && leaf[0] == '.' {
                assert(leaf@ =~= seq!['.']);
                return None;
            }
            if leaf.len() == 2 && leaf[0] == '.' && leaf[1] == '.' {
                assert(leaf@ =~= seq!['.', '.']);
                return None;
            }
            assert(leaf@ != seq!['.']) by {
                if leaf@ == seq!['.'] {
                    assert(leaf@.len() == 1);
                    assert(leaf@[0] == '.');
                }
            }
            assert(leaf@ != seq!['.', '.']) by {
                if leaf@ == seq!['.', '.'] {
                    assert(leaf@.len() == 2);
                    assert(leaf@[0] == '.' && leaf@[1] == '.');
                }
            }
            return Some(strip_extension_chars(leaf));
        }
        n -= 1;
    }
    None
}

/// The name that a specifier ends in, without its extension.
pub fn unresolved_leaf_name(specifier: &str) -> (r: Option<String>)
    ensures
        match r {
            Some(leaf) => leaf_name(specifier@) == Some(leaf@),
            None => leaf_name(specifier@) is None,
        },
{
    let v = to_chars(specifier);
    match unresolved_leaf_chars(&v) {
        Some(leaf) => Some(from_chars(&leaf)),
        None => None,
    }
}

/// A root for asset analysis as the user may write it, brought to the form
/// of a path below the project root: trimmed, forward slashes, no leading `./`,
/// no `/` at either end.
pub open spec fn asset_root(s: Seq<char>) -> Seq<char> {
    without_surrounding(without_leading(slashed(trimmed(s)), "./"@), '/')
}

/// A root for asset analysis as a path below the project root.
pub fn normalize_asset_root(value: &str) -> (out: String)
    ensures
        out@ == asset_root(value@),
{
    let v = to_chars(value);
    let a = trim(&v);
    let b = to_forward_slashes(&a);
    let c = trim_start_matches(&b, "./");
    from_chars(&trim_matches(&c, '/'))
}

/// Where a key has a `*`, a specifier made of what precedes it, any text and
/// what follows it is matched, and that text is what the key captures.
pub proof fn lemma_alias_captures_substitution(key: Seq<char>, middle: Seq<char>)
    requires
        has_char(key, '*'),
    ensures
        ({
            let parts = cut_char(key, '*')->0;
            alias_capture(key, parts.0 + middle + parts.1) == Some(middle)
        }),
{
    lemma_find_char_from(key, '*', 0);
    let parts = cut_char(key, '*')->0;
    let s = parts.0 + middle + parts.1;
    assert(s.subrange(0, parts.0.len() as int) =~= parts.0);
    assert(s.subrange(s.len() - parts.1.len(), s.len() as int) =~= parts.1);
    assert(s.subrange(parts.0.len() as int, s.len() - parts.1.len()) =~= middle);
}

} // verus!
