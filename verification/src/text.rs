//! Character sequences and the handful of string operations the analyzer is
//! built from. Every executable function works on `Vec<char>` and is specified
//! over `Seq<char>`.

use vstd::prelude::*;

verus! {

/// `String::push` appends one character.
pub assume_specification[ String::push ](s: &mut String, c: char)
    ensures
        final(s)@ == old(s)@.push(c),
;

/// The views of a list of strings.
pub open spec fn texts(v: Seq<String>) -> Seq<Seq<char>> {
    Seq::new(v.len(), |i: int| v[i]@)
}

/// The views of a list of character vectors.
pub open spec fn rows(v: Seq<Vec<char>>) -> Seq<Seq<char>> {
    Seq::new(v.len(), |i: int| v[i]@)
}

pub fn clone_texts(v: &Vec<String>) -> (out: Vec<String>)
    ensures
        texts(out@) == texts(v@),
{
    let mut out: Vec<String> = Vec::new();
    let mut i: usize = 0;
    while i < v.len()
        invariant
            i <= v.len(),
            out@.len() == i,
            forall|k: int| 0 <= k < i ==> out@[k]@ == v@[k]@,
        decreases v.len() - i,
    {
        out.push(v[i].clone());
        i += 1;
    }
    assert(texts(out@) =~= texts(v@));
    out
}

/// The characters of a string.
pub fn to_chars(s: &str) -> (out: Vec<char>)
    ensures
        out@ == s@,
{
    let mut out: Vec<char> = Vec::new();
    for c in it: s.chars()
        invariant
            out@ == it.seq().take(it.index() as int),
            it.seq() == s@,
    {
        out.push(c);
    }
    out
}

/// The string of these characters.
pub fn from_chars(v: &Vec<char>) -> (out: String)
    ensures
        out@ == v@,
{
    let mut out = String::new();
    let mut i: usize = 0;
    while i < v.len()
        invariant
            i <= v.len(),
            out@ == v@.take(i as int),
        decreases v.len() - i,
    {
        out.push(v[i]);
        i += 1;
    }
    out
}

pub fn equal(a: &Vec<char>, b: &Vec<char>) -> (r: bool)
    ensures
        r == (a@ == b@),
{
    if a.len() != b.len() {
        return false;
    }
    let mut i: usize = 0;
    while i < a.len()
        invariant
            i <= a.len(),
            a.len() == b.len(),
            forall|k: int| 0 <= k < i ==> a@[k] == b@[k],
        decreases a.len() - i,
    {
        if a[i] != b[i] {
            return false;
        }
        i += 1;
    }
    assert(a@ =~= b@);
    true
}

/// `equal` against a string.
pub fn equal_str(a: &Vec<char>, b: &str) -> (r: bool)
    ensures
        r == (a@ == b@),
{
    let other = to_chars(b);
    equal(a, &other)
}

pub fn slice(v: &Vec<char>, from: usize, to: usize) -> (out: Vec<char>)
    requires
        from <= to <= v.len(),
    ensures
        out@ == v@.subrange(from as int, to as int),
{
    let mut out: Vec<char> = Vec::new();
    let mut i: usize = from;
    while i < to
        invariant
            from <= i <= to <= v.len(),
            out@ == v@.subrange(from as int, i as int),
        decreases to - i,
    {
        out.push(v[i]);
        assert(v@.subrange(from as int, i as int).push(v@[i as int]) =~= v@.subrange(
            from as int,
            i + 1,
        ));
        i += 1;
    }
    out
}

pub fn concat(a: &Vec<char>, b: &Vec<char>) -> (out: Vec<char>)
    ensures
        out@ == a@ + b@,
{
    let mut out: Vec<char> = Vec::new();
    let mut i: usize = 0;
    while i < a.len()
        invariant
            i <= a.len(),
            out@ == a@.take(i as int),
        decreases a.len() - i,
    {
        out.push(a[i]);
        i += 1;
    }
    let mut j: usize = 0;
    while j < b.len()
        invariant
            j <= b.len(),
            out@ == a@ + b@.take(j as int),
        decreases b.len() - j,
    {
        out.push(b[j]);
        assert((a@ + b@.take(j as int)).push(b@[j as int]) =~= a@ + b@.take(j + 1));
        j += 1;
    }
    assert(a@.take(a.len() as int) =~= a@);
    assert(b@.take(b.len() as int) =~= b@);
    out
}

/// A text between two others.
pub fn framed(before: &str, middle: &Vec<char>, after: &str) -> (out: String)
    ensures
        out@ == before@ + middle@ + after@,
{
    from_chars(&concat(&concat(&to_chars(before), middle), &to_chars(after)))
}

/// Unicode `White_Space`, the class that `str::trim` removes.
pub open spec fn is_space(c: char) -> bool {
    let n = c as u32;
    ||| 0x09 <= n <= 0x0D
    ||| n == 0x20
    ||| n == 0x85
    ||| n == 0xA0
    ||| n == 0x1680
    ||| 0x2000 <= n <= 0x200A
    ||| n == 0x2028
    ||| n == 0x2029
    ||| n == 0x202F
    ||| n == 0x205F
    ||| n == 0x3000
}

pub fn is_whitespace(c: char) -> (r: bool)
    ensures
        r == is_space(c),
{
    let n: u32 = c as u32;
    (0x09 <= n && n <= 0x0D) || n == 0x20 || n == 0x85 || n == 0xA0 || n == 0x1680 || (0x2000
        <= n && n <= 0x200A) || n == 0x2028 || n == 0x2029 || n == 0x202F || n == 0x205F || n
        == 0x3000
}

/// Index of the first character at or after `i` that is not white space.
pub open spec fn lead(s: Seq<char>, i: int) -> int
    decreases s.len() - i,
{
    if 0 <= i < s.len() && is_space(s[i]) {
        lead(s, i + 1)
    } else {
        i
    }
}

/// End of the text that is left of `s[low..j]` once trailing white space is gone.
pub open spec fn tail(s: Seq<char>, low: int, j: int) -> int
    decreases j,
{
    if 0 <= low < j <= s.len() && is_space(s[j - 1]) {
        tail(s, low, j - 1)
    } else {
        j
    }
}

/// `s` without leading and trailing white space.
pub open spec fn trimmed(s: Seq<char>) -> Seq<char> {
    let a = lead(s, 0);
    s.subrange(a, tail(s, a, s.len() as int))
}

pub fn trim(v: &Vec<char>) -> (out: Vec<char>)
    ensures
        out@ == trimmed(v@),
{
    let mut a: usize = 0;
    while a < v.len() && is_whitespace(v[a])
        invariant
            a <= v.len(),
            lead(v@, 0) == lead(v@, a as int),
        decreases v.len() - a,
    {
        a += 1;
    }
    let mut b: usize = v.len();
    while a < b && is_whitespace(v[b - 1])
        invariant
            a <= b <= v.len(),
            tail(v@, a as int, v@.len() as int) == tail(v@, a as int, b as int),
        decreases b,
    {
        b -= 1;
    }
    slice(v, a, b)
}

/// `pat` stands in `s` at index `i`.
pub open spec fn occurs_at(s: Seq<char>, pat: Seq<char>, i: int) -> bool {
    0 <= i && i + pat.len() <= s.len() && s.subrange(i, i + pat.len()) == pat
}

pub open spec fn starts(s: Seq<char>, pat: Seq<char>) -> bool {
    occurs_at(s, pat, 0)
}

pub open spec fn ends(s: Seq<char>, pat: Seq<char>) -> bool {
    occurs_at(s, pat, s.len() - pat.len())
}

pub fn occurs(v: &Vec<char>, pat: &Vec<char>, i: usize) -> (r: bool)
    ensures
        r == occurs_at(v@, pat@, i as int),
{
    if pat.len() > v.len() || i > v.len() - pat.len() {
        return false;
    }
    let mut k: usize = 0;
    while k < pat.len()
        invariant
            k <= pat.len(),
            i + pat.len() <= v.len(),
            forall|j: int| 0 <= j < k ==> v@[i + j] == pat@[j],
        decreases pat.len() - k,
    {
        if v[i + k] != pat[k] {
            assert(v@.subrange(i as int, i + pat.len())[k as int] == v@[i + k]);
            return false;
        }
        k += 1;
    }
    assert(v@.subrange(i as int, i + pat.len()) =~= pat@);
    true
}

pub fn starts_with(v: &Vec<char>, pat: &str) -> (r: bool)
    ensures
        r == starts(v@, pat@),
{
    let p = to_chars(pat);
    occurs(v, &p, 0)
}

pub fn ends_with(v: &Vec<char>, pat: &str) -> (r: bool)
    ensures
        r == ends(v@, pat@),
{
    let p = to_chars(pat);
    if p.len() > v.len() {
        return false;
    }
    occurs(v, &p, v.len() - p.len())
}

/// Index of the first occurrence of `pat` at or after `i`, or -1.
pub open spec fn find_from(s: Seq<char>, pat: Seq<char>, i: int) -> int
    decreases s.len() + 1 - i,
{
    if i < 0 || i + pat.len() > s.len() {
        -1
    } else if occurs_at(s, pat, i) {
        i
    } else {
        find_from(s, pat, i + 1)
    }
}

pub open spec fn contains(s: Seq<char>, pat: Seq<char>) -> bool {
    find_from(s, pat, 0) >= 0
}

pub fn find(v: &Vec<char>, pat: &Vec<char>, from: usize) -> (r: Option<usize>)
    ensures
        match r {
            Some(i) => {
                &&& find_from(v@, pat@, from as int) == i
                &&& from <= i
                &&& i + pat.len() <= v.len()
            },
            None => find_from(v@, pat@, from as int) == -1,
        },
{
    if pat.len() > v.len() {
        return None;
    }
    let last: usize = v.len() - pat.len();
    if from > last {
        return None;
    }
    let mut i: usize = from;
    loop
        invariant
            from <= i <= last,
            last == v.len() - pat.len(),
            find_from(v@, pat@, from as int) == find_from(v@, pat@, i as int),
        decreases last - i,
    {
        if occurs(v, pat, i) {
            return Some(i);
        }
        if i == last {
            assert(find_from(v@, pat@, i + 1) == -1);
            return None;
        }
        i += 1;
    }
}

pub fn contains_str(v: &Vec<char>, pat: &str) -> (r: bool)
    ensures
        r == contains(v@, pat@),
{
    let p = to_chars(pat);
    find(v, &p, 0).is_some()
}

/// Index of the first `c` at or after `i`, or -1.
pub open spec fn find_char_from(s: Seq<char>, c: char, i: int) -> int
    decreases s.len() - i,
{
    if i < 0 || i >= s.len() {
        -1
    } else if s[i] == c {
        i
    } else {
        find_char_from(s, c, i + 1)
    }
}

/// Index of the last `c` before `j`, or -1.
pub open spec fn rfind_char_to(s: Seq<char>, c: char, j: int) -> int
    decreases j,
{
    if j <= 0 || j > s.len() {
        -1
    } else if s[j - 1] == c {
        j - 1
    } else {
        rfind_char_to(s, c, j - 1)
    }
}

pub proof fn lemma_find_char_from(s: Seq<char>, c: char, i: int)
    requires
        0 <= i,
    ensures
        find_char_from(s, c, i) == -1 || (i <= find_char_from(s, c, i) < s.len() && s[find_char_from(
            s,
            c,
            i,
        )] == c),
        forall|k: int|
            i <= k < s.len() && (k < find_char_from(s, c, i) || find_char_from(s, c, i) == -1)
                ==> #[trigger] s[k] != c,
    decreases s.len() - i,
{
    if i < s.len() && s[i] != c {
        lemma_find_char_from(s, c, i + 1);
    }
}

pub proof fn lemma_rfind_char_to(s: Seq<char>, c: char, j: int)
    requires
        j <= s.len(),
    ensures
        rfind_char_to(s, c, j) == -1 || (0 <= rfind_char_to(s, c, j) < j && s[rfind_char_to(
            s,
            c,
            j,
        )] == c),
        forall|k: int| 0 <= k < j && rfind_char_to(s, c, j) < k ==> #[trigger] s[k] != c,
    decreases j,
{
    if j > 0 && s[j - 1] != c {
        lemma_rfind_char_to(s, c, j - 1);
    }
}

pub fn find_char(v: &Vec<char>, c: char, from: usize) -> (r: Option<usize>)
    ensures
        match r {
            Some(i) => {
                &&& find_char_from(v@, c, from as int) == i
                &&& from <= i < v.len()
                &&& v@[i as int] == c
            },
            None => find_char_from(v@, c, from as int) == -1,
        },
{
    let mut i: usize = from;
    while i < v.len()
        invariant
            from <= i,
            find_char_from(v@, c, from as int) == find_char_from(v@, c, i as int),
        decreases v.len() - i,
    {
        if v[i] == c {
            return Some(i);
        }
        i += 1;
    }
    None
}

pub fn rfind_char(v: &Vec<char>, c: char) -> (r: Option<usize>)
    ensures
        match r {
            Some(i) => {
                &&& rfind_char_to(v@, c, v@.len() as int) == i
                &&& i < v.len()
                &&& v@[i as int] == c
            },
            None => rfind_char_to(v@, c, v@.len() as int) == -1,
        },
{
    let mut j: usize = v.len();
    while j > 0
        invariant
            j <= v.len(),
            rfind_char_to(v@, c, v@.len() as int) == rfind_char_to(v@, c, j as int),
        decreases j,
    {
        if v[j - 1] == c {
            return Some(j - 1);
        }
        j -= 1;
    }
    None
}

pub open spec fn has_char(s: Seq<char>, c: char) -> bool {
    find_char_from(s, c, 0) >= 0
}

pub fn contains_char(v: &Vec<char>, c: char) -> (r: bool)
    ensures
        r == has_char(v@, c),
{
    find_char(v, c, 0).is_some()
}

/// The text before the first `c`, or all of it.
pub open spec fn before_char(s: Seq<char>, c: char) -> Seq<char> {
    let i = find_char_from(s, c, 0);
    if 0 <= i <= s.len() {
        s.take(i)
    } else {
        s
    }
}

/// The text after the last `c`, or all of it.
pub open spec fn after_last_char(s: Seq<char>, c: char) -> Seq<char> {
    let i = rfind_char_to(s, c, s.len() as int);
    if 0 <= i < s.len() {
        s.skip(i + 1)
    } else {
        s
    }
}

pub fn take_before_char(v: &Vec<char>, c: char) -> (out: Vec<char>)
    ensures
        out@ == before_char(v@, c),
{
    match find_char(v, c, 0) {
        Some(i) => slice(v, 0, i),
        None => {
            let out = slice(v, 0, v.len());
            assert(v@.subrange(0, v@.len() as int) =~= v@);
            out
        },
    }
}

pub fn take_after_last_char(v: &Vec<char>, c: char) -> (out: Vec<char>)
    ensures
        out@ == after_last_char(v@, c),
{
    match rfind_char(v, c) {
        Some(i) => slice(v, i + 1, v.len()),
        None => {
            let out = slice(v, 0, v.len());
            assert(v@.subrange(0, v@.len() as int) =~= v@);
            out
        },
    }
}

/// The two sides of the first `c`.
pub open spec fn cut_char(s: Seq<char>, c: char) -> Option<(Seq<char>, Seq<char>)> {
    let i = find_char_from(s, c, 0);
    if 0 <= i < s.len() {
        Some((s.take(i), s.skip(i + 1)))
    } else {
        None
    }
}

/// The two sides of the first occurrence of `pat`.
pub open spec fn cut(s: Seq<char>, pat: Seq<char>) -> Option<(Seq<char>, Seq<char>)> {
    let i = find_from(s, pat, 0);
    if 0 <= i && i + pat.len() <= s.len() {
        Some((s.take(i), s.skip(i + pat.len())))
    } else {
        None
    }
}

pub fn split_once_char(v: &Vec<char>, c: char) -> (r: Option<(Vec<char>, Vec<char>)>)
    ensures
        match r {
            Some(p) => cut_char(v@, c) == Some((p.0@, p.1@)),
            None => cut_char(v@, c) is None,
        },
{
    match find_char(v, c, 0) {
        Some(i) => Some((slice(v, 0, i), slice(v, i + 1, v.len()))),
        None => None,
    }
}

pub fn split_once(v: &Vec<char>, pat: &str) -> (r: Option<(Vec<char>, Vec<char>)>)
    ensures
        match r {
            Some(p) => cut(v@, pat@) == Some((p.0@, p.1@)),
            None => cut(v@, pat@) is None,
        },
{
    let p = to_chars(pat);
    match find(v, &p, 0) {
        Some(i) => Some((slice(v, 0, i), slice(v, i + p.len(), v.len()))),
        None => None,
    }
}

/// What is left of `s` once a leading `pat` is gone, if `s` starts with it.
pub open spec fn without_prefix(s: Seq<char>, pat: Seq<char>) -> Option<Seq<char>> {
    if starts(s, pat) {
        Some(s.skip(pat.len() as int))
    } else {
        None
    }
}

pub fn strip_prefix(v: &Vec<char>, pat: &str) -> (r: Option<Vec<char>>)
    ensures
        match r {
            Some(rest) => without_prefix(v@, pat@) == Some(rest@),
            None => without_prefix(v@, pat@) is None,
        },
{
    let p = to_chars(pat);
    if occurs(v, &p, 0) {
        Some(slice(v, p.len(), v.len()))
    } else {
        None
    }
}

/// The pieces of `s[start..]` between occurrences of `c`.
pub open spec fn pieces_from(s: Seq<char>, c: char, start: int) -> Seq<Seq<char>>
    decreases s.len() - start,
{
    let i = find_char_from(s, c, start);
    if start < 0 || start > s.len() {
        Seq::empty()
    } else if i < start || i >= s.len() {
        seq![s.subrange(start, s.len() as int)]
    } else {
        seq![s.subrange(start, i)] + pieces_from(s, c, i + 1)
    }
}

/// The pieces of `s` between occurrences of `c`, as `str::split` gives them.
pub open spec fn pieces(s: Seq<char>, c: char) -> Seq<Seq<char>> {
    pieces_from(s, c, 0)
}

pub fn split(v: &Vec<char>, c: char) -> (out: Vec<Vec<char>>)
    ensures
        rows(out@) == pieces(v@, c),
{
    let mut out: Vec<Vec<char>> = Vec::new();
    let mut start: usize = 0;
    loop
        invariant
            start <= v.len(),
            pieces(v@, c) == rows(out@) + pieces_from(v@, c, start as int),
        decreases v.len() - start,
    {
        match find_char(v, c, start) {
            Some(i) => {
                let ghost before = rows(out@);
                out.push(slice(v, start, i));
                assert(rows(out@) =~= before + seq![v@.subrange(start as int, i as int)]);
                assert(rows(out@) + pieces_from(v@, c, i + 1) =~= before + (seq![
                    v@.subrange(start as int, i as int),
                ] + pieces_from(v@, c, i + 1)));
                start = i + 1;
            },
            None => {
                let ghost before = rows(out@);
                out.push(slice(v, start, v.len()));
                assert(rows(out@) =~= before + seq![
                    v@.subrange(start as int, v@.len() as int),
                ]);
                return out;
            },
        }
    }
}

/// The first `n` characters of `s` with every `c` replaced by `rep`.
pub open spec fn replaced_to(s: Seq<char>, c: char, rep: Seq<char>, n: int) -> Seq<char>
    decreases n,
{
    if n <= 0 || n > s.len() {
        Seq::empty()
    } else if s[n - 1] == c {
        replaced_to(s, c, rep, n - 1) + rep
    } else {
        replaced_to(s, c, rep, n - 1).push(s[n - 1])
    }
}

/// `s` with every `c` replaced by `rep`.
pub open spec fn replaced(s: Seq<char>, c: char, rep: Seq<char>) -> Seq<char> {
    replaced_to(s, c, rep, s.len() as int)
}

pub fn replace(v: &Vec<char>, c: char, rep: &Vec<char>) -> (out: Vec<char>)
    ensures
        out@ == replaced(v@, c, rep@),
{
    let mut out: Vec<char> = Vec::new();
    let mut i: usize = 0;
    while i < v.len()
        invariant
            i <= v.len(),
            out@ == replaced_to(v@, c, rep@, i as int),
        decreases v.len() - i,
    {
        if v[i] == c {
            out = concat(&out, rep);
        } else {
            out.push(v[i]);
        }
        i += 1;
    }
    out
}

/// Back slashes turned into forward slashes.
pub open spec fn slashed(s: Seq<char>) -> Seq<char> {
    replaced(s, '\\', seq!['/'])
}

pub fn to_forward_slashes(v: &Vec<char>) -> (out: Vec<char>)
    ensures
        out@ == slashed(v@),
{
    let mut rep: Vec<char> = Vec::new();
    rep.push('/');
    assert(rep@ =~= seq!['/']);
    replace(v, '\\', &rep)
}

/// Index past the leading run of `c` that starts at `i`.
pub open spec fn lead_char(s: Seq<char>, c: char, i: int) -> int
    decreases s.len() - i,
{
    if 0 <= i < s.len() && s[i] == c {
        lead_char(s, c, i + 1)
    } else {
        i
    }
}

/// Start of the trailing run of `c` that ends at `j`, not below `low`.
pub open spec fn tail_char(s: Seq<char>, c: char, low: int, j: int) -> int
    decreases j,
{
    if 0 <= low < j <= s.len() && s[j - 1] == c {
        tail_char(s, c, low, j - 1)
    } else {
        j
    }
}

/// Index past the leading repetitions of `pat` that start at `i`.
pub open spec fn lead_pat(s: Seq<char>, pat: Seq<char>, i: int) -> int
    decreases s.len() - i,
{
    if pat.len() > 0 && occurs_at(s, pat, i) {
        lead_pat(s, pat, i + pat.len())
    } else {
        i
    }
}

/// `s` without its leading repetitions of `pat`.
pub open spec fn without_leading(s: Seq<char>, pat: Seq<char>) -> Seq<char> {
    let a = lead_pat(s, pat, 0);
    if 0 <= a <= s.len() {
        s.skip(a)
    } else {
        s
    }
}

pub fn trim_start_matches(v: &Vec<char>, pat: &str) -> (out: Vec<char>)
    ensures
        out@ == without_leading(v@, pat@),
{
    let p = to_chars(pat);
    let mut a: usize = 0;
    while p.len() > 0 && occurs(v, &p, a)
        invariant
            a <= v.len(),
            lead_pat(v@, p@, 0) == lead_pat(v@, p@, a as int),
        decreases v.len() - a,
    {
        a += p.len();
    }
    slice(v, a, v.len())
}

/// `s` without leading and trailing runs of `c`.
pub open spec fn without_surrounding(s: Seq<char>, c: char) -> Seq<char> {
    let a = lead_char(s, c, 0);
    s.subrange(a, tail_char(s, c, a, s.len() as int))
}

pub fn trim_matches(v: &Vec<char>, c: char) -> (out: Vec<char>)
    ensures
        out@ == without_surrounding(v@, c),
{
    let mut a: usize = 0;
    while a < v.len() && v[a] == c
        invariant
            a <= v.len(),
            lead_char(v@, c, 0) == lead_char(v@, c, a as int),
        decreases v.len() - a,
    {
        a += 1;
    }
    let mut b: usize = v.len();
    while a < b && v[b - 1] == c
        invariant
            a <= b <= v.len(),
            tail_char(v@, c, a as int, v@.len() as int) == tail_char(v@, c, a as int, b as int),
        decreases b,
    {
        b -= 1;
    }
    slice(v, a, b)
}

/// `s` without a leading run of `open` and a trailing run of `close`.
pub open spec fn without_brackets(s: Seq<char>, open: char, close: char) -> Seq<char> {
    let a = lead_char(s, open, 0);
    s.subrange(a, tail_char(s, close, a, s.len() as int))
}

pub fn trim_brackets(v: &Vec<char>, open: char, close: char) -> (out: Vec<char>)
    ensures
        out@ == without_brackets(v@, open, close),
{
    let mut a: usize = 0;
    while a < v.len() && v[a] == open
        invariant
            a <= v.len(),
            lead_char(v@, open, 0) == lead_char(v@, open, a as int),
        decreases v.len() - a,
    {
        a += 1;
    }
    let mut b: usize = v.len();
    while a < b && v[b - 1] == close
        invariant
            a <= b <= v.len(),
            tail_char(v@, close, a as int, v@.len() as int) == tail_char(
                v@,
                close,
                a as int,
                b as int,
            ),
        decreases b,
    {
        b -= 1;
    }
    slice(v, a, b)
}

/// The ASCII lower-case form of a character.
pub open spec fn lowered(c: char) -> char {
    if 'A' <= c <= 'Z' {
        ((c as u8 + 32) as u8) as char
    } else {
        c
    }
}

pub open spec fn lowercase(s: Seq<char>) -> Seq<char> {
    Seq::new(s.len(), |i: int| lowered(s[i]))
}

pub fn to_ascii_lowercase(v: &Vec<char>) -> (out: Vec<char>)
    ensures
        out@ == lowercase(v@),
{
    let mut out: Vec<char> = Vec::new();
    let mut i: usize = 0;
    while i < v.len()
        invariant
            i <= v.len(),
            out@.len() == i,
            forall|k: int| 0 <= k < i ==> out@[k] == lowered(v@[k]),
        decreases v.len() - i,
    {
        let c = v[i];
        if 'A' <= c && c <= 'Z' {
            let b: u8 = c as u8;
            out.push((b + 32) as char);
        } else {
            out.push(c);
        }
        i += 1;
    }
    assert(out@ =~= lowercase(v@));
    out
}

/// `a` comes strictly before `b` in the order of `str`, decided from index `i` on.
pub open spec fn less_from(a: Seq<char>, b: Seq<char>, i: int) -> bool
    decreases a.len() - i,
{
    if i < 0 || i >= b.len() {
        false
    } else if i >= a.len() {
        true
    } else if a[i] != b[i] {
        a[i] < b[i]
    } else {
        less_from(a, b, i + 1)
    }
}

/// `a` comes strictly before `b` in the order of `str`.
pub open spec fn less(a: Seq<char>, b: Seq<char>) -> bool {
    less_from(a, b, 0)
}

pub fn precedes(a: &Vec<char>, b: &Vec<char>) -> (r: bool)
    ensures
        r == less(a@, b@),
{
    let mut i: usize = 0;
    loop
        invariant
            i <= a.len(),
            less(a@, b@) == less_from(a@, b@, i as int),
        decreases a.len() - i,
    {
        if i >= b.len() {
            return false;
        }
        if i >= a.len() {
            return true;
        }
        if a[i] != b[i] {
            return a[i] < b[i];
        }
        i += 1;
    }
}

/// The decimal digits of `n`, most significant first.
pub open spec fn decimal(n: nat) -> Seq<char>
    decreases n,
{
    if n < 10 {
        seq![digit(n)]
    } else {
        decimal(n / 10).push(digit(n % 10))
    }
}

pub open spec fn digit(d: nat) -> char {
    if d == 0 {
        '0'
    } else if d == 1 {
        '1'
    } else if d == 2 {
        '2'
    } else if d == 3 {
        '3'
    } else if d == 4 {
        '4'
    } else if d == 5 {
        '5'
    } else if d == 6 {
        '6'
    } else if d == 7 {
        '7'
    } else if d == 8 {
        '8'
    } else {
        '9'
    }
}

fn digit_char(d: usize) -> (c: char)
    requires
        d < 10,
    ensures
        c == digit(d as nat),
{
    if d == 0 {
        '0'
    } else if d == 1 {
        '1'
    } else if d == 2 {
        '2'
    } else if d == 3 {
        '3'
    } else if d == 4 {
        '4'
    } else if d == 5 {
        '5'
    } else if d == 6 {
        '6'
    } else if d == 7 {
        '7'
    } else if d == 8 {
        '8'
    } else {
        '9'
    }
}

pub fn to_decimal(n: usize) -> (out: Vec<char>)
    ensures
        out@ == decimal(n as nat),
    decreases n,
{
    if n < 10 {
        let mut out: Vec<char> = Vec::new();
        out.push(digit_char(n));
        assert(out@ =~= seq![digit(n as nat)]);
        out
    } else {
        let mut out = to_decimal(n / 10);
        out.push(digit_char(n % 10));
        out
    }
}

} // verus!
