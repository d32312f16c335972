//! The list from which unused files and assets are picked for deletion:
//! its rows, the filter and the search that narrow it, and the cursor on it.

use crate::marks::{lists_marked, marked_indices, set_indices};
use crate::matching::{escape, escaped, is_match_ignoring_case, regex_matches_ignoring_case};
use crate::order::precedes_str;
use crate::specifier::{asset_root, normalize_asset_root};
use crate::text::{
    contains, contains_char, find, from_chars, has_char, less, lowercase, slice, strip_prefix,
    texts, to_ascii_lowercase, to_chars, trim, trimmed, without_prefix,
};
use vstd::prelude::*;

verus! {

/// Which rows are shown.
#[derive(Clone, Copy, Debug, PartialEq, Eq, Structural)]
pub enum DeleteFilter {
    All,
    Files,
    Assets,
}

impl DeleteFilter {
    /// The filter that follows: all, files, assets, and all again.
    pub fn next(self) -> (out: DeleteFilter)
        ensures
            out == match self {
                DeleteFilter::All => DeleteFilter::Files,
                DeleteFilter::Files => DeleteFilter::Assets,
                DeleteFilter::Assets => DeleteFilter::All,
            },
    {
        match self {
            DeleteFilter::All => DeleteFilter::Files,
            DeleteFilter::Files => DeleteFilter::Assets,
            DeleteFilter::Assets => DeleteFilter::All,
        }
    }

    pub fn label(self) -> (out: &'static str)
        ensures
            out@ == match self {
                DeleteFilter::All => "all"@,
                DeleteFilter::Files => "files"@,
                DeleteFilter::Assets => "assets"@,
            },
    {
        match self {
            DeleteFilter::All => "all",
            DeleteFilter::Files => "files",
            DeleteFilter::Assets => "assets",
        }
    }
}

/// Whether a row's file is where it was, or in the trash.
#[derive(Clone, Copy, Debug, PartialEq, Eq, Structural)]
pub enum CandidateState {
    Active,
    Deleted,
}

/// What a row stands for.
#[derive(Clone, Copy, Debug, PartialEq, Eq, Structural)]
pub enum CandidateKind {
    File,
    Asset,
}

impl CandidateKind {
    pub fn label(self) -> (out: &'static str)
        ensures
            out@ == match self {
                CandidateKind::File => "file"@,
                CandidateKind::Asset => "asset"@,
            },
    {
        match self {
            CandidateKind::File => "file",
            CandidateKind::Asset => "asset",
        }
    }
}

/// A row: a file or an asset that may be deleted, by its path below the root.
pub struct DeleteCandidate {
    pub rel_path: String,
    pub kind: CandidateKind,
    pub state: CandidateState,
}

/// A `DeleteCandidate` as plain values.
pub struct CandidateView {
    pub rel_path: Seq<char>,
    pub kind: CandidateKind,
    pub state: CandidateState,
}

impl View for DeleteCandidate {
    type V = CandidateView;

    open spec fn view(&self) -> CandidateView {
        CandidateView { rel_path: self.rel_path@, kind: self.kind, state: self.state }
    }
}

/// The views of a list of rows.
pub open spec fn candidate_views(v: Seq<DeleteCandidate>) -> Seq<CandidateView> {
    Seq::new(v.len(), |i: int| v[i]@)
}

/// Where a row goes in a list ordered by path: before the first row, from
/// index `i` on, whose path comes after its own.
pub open spec fn place_from(list: Seq<CandidateView>, path: Seq<char>, i: int) -> int
    decreases list.len() - i,
{
    if 0 <= i < list.len() && !less(path, list[i].rel_path) {
        place_from(list, path, i + 1)
    } else {
        i
    }
}

/// The list with one more row, put behind the rows whose path does not come
/// after its own.
pub open spec fn placed(list: Seq<CandidateView>, c: CandidateView) -> Seq<CandidateView> {
    let k = place_from(list, c.rel_path, 0);
    if 0 <= k <= list.len() {
        list.insert(k, c)
    } else {
        list
    }
}

/// Puts a row into a list ordered by path.
pub fn place_candidate(items: &mut Vec<DeleteCandidate>, c: DeleteCandidate)
    ensures
        candidate_views(final(items)@) == placed(candidate_views(old(items)@), c@),
{
    let ghost before = candidate_views(items@);
    let mut k: usize = 0;
    while k < items.len() && !precedes_str(c.rel_path.as_str(), items[k].rel_path.as_str())
        invariant
            k <= items.len(),
            candidate_views(items@) == before,
            place_from(before, c.rel_path@, 0) == place_from(before, c.rel_path@, k as int),
        decreases items.len() - k,
    {
        assert(before[k as int] == items@[k as int]@);
        k += 1;
    }
    if k < items.len() {
        assert(before[k as int] == items@[k as int]@);
    }
    items.insert(k, c);
    assert(candidate_views(items@) =~= before.insert(k as int, c@));
}

/// The rows for the first `n` paths, each of the given kind and active,
/// put into `list` one after the other.
pub open spec fn with_candidates(
    list: Seq<CandidateView>,
    paths: Seq<Seq<char>>,
    kind: CandidateKind,
    n: int,
) -> Seq<CandidateView>
    decreases n,
{
    if n <= 0 || n > paths.len() {
        list
    } else {
        placed(
            with_candidates(list, paths, kind, n - 1),
            CandidateView { rel_path: paths[n - 1], kind, state: CandidateState::Active },
        )
    }
}

fn place_all(items: &mut Vec<DeleteCandidate>, paths: &Vec<String>, kind: CandidateKind)
    ensures
        candidate_views(final(items)@) == with_candidates(
            candidate_views(old(items)@),
            texts(paths@),
            kind,
            paths@.len() as int,
        ),
{
    let ghost start = candidate_views(items@);
    let mut i: usize = 0;
    while i < paths.len()
        invariant
            i <= paths.len(),
            candidate_views(items@) == with_candidates(start, texts(paths@), kind, i as int),
        decreases paths.len() - i,
    {
        assert(texts(paths@)[i as int] == paths@[i as int]@);
        place_candidate(
            items,
            DeleteCandidate { rel_path: paths[i].clone(), kind, state: CandidateState::Active },
        );
        i += 1;
    }
}

/// The rows of a report: its unused files, then its unused assets, ordered
/// by path; of two rows with one path the file comes first.
pub fn build_delete_candidates(unused_files: &Vec<String>, unused_assets: &Vec<String>) -> (items:
    Vec<DeleteCandidate>)
    ensures
        candidate_views(items@) == with_candidates(
            with_candidates(
                Seq::empty(),
                texts(unused_files@),
                CandidateKind::File,
                unused_files@.len() as int,
            ),
            texts(unused_assets@),
            CandidateKind::Asset,
            unused_assets@.len() as int,
        ),
{
    let mut items: Vec<DeleteCandidate> = Vec::new();
    assert(candidate_views(items@) =~= Seq::<CandidateView>::empty());
    place_all(&mut items, unused_files, CandidateKind::File);
    place_all(&mut items, unused_assets, CandidateKind::Asset);
    items
}

/// The first row at or after `i` with this path and kind, or -1.
pub open spec fn row_from(list: Seq<CandidateView>, path: Seq<char>, kind: CandidateKind, i: int) -> int
    decreases list.len() - i,
{
    if i < 0 || i >= list.len() {
        -1
    } else if list[i].rel_path == path && list[i].kind == kind {
        i
    } else {
        row_from(list, path, kind, i + 1)
    }
}

/// The list with the state of the first row of this path and kind set; with
/// one more row at its end where there is none.
pub open spec fn upserted(
    list: Seq<CandidateView>,
    path: Seq<char>,
    kind: CandidateKind,
    state: CandidateState,
) -> Seq<CandidateView> {
    let at = row_from(list, path, kind, 0);
    if 0 <= at < list.len() {
        list.update(at, CandidateView { state, ..list[at] })
    } else {
        list.push(CandidateView { rel_path: path, kind, state })
    }
}

/// Sets the state of the row of this path and kind, or adds the row.
#[verifier::loop_isolation(false)]
pub fn upsert_candidate_state(
    items: &mut Vec<DeleteCandidate>,
    rel_path: &str,
    kind: CandidateKind,
    state: CandidateState,
)
    ensures
        candidate_views(final(items)@) == upserted(
            candidate_views(old(items)@),
            rel_path@,
            kind,
            state,
        ),
{
    let ghost before = candidate_views(items@);
    let wanted = String::from_str(rel_path);
    let mut i: usize = 0;
    while i < items.len()
        invariant
            i <= items.len(),
            candidate_views(items@) == before,
            row_from(before, rel_path@, kind, 0) == row_from(before, rel_path@, kind, i as int),
        decreases items.len() - i,
    {
        assert(before[i as int] == items@[i as int]@);
        if items[i].rel_path == wanted && same_kind(items[i].kind, kind) {
            let row = DeleteCandidate { rel_path: wanted, kind, state };
            items.set(i, row);
            assert(candidate_views(items@) =~= before.update(
                i as int,
                CandidateView { state, ..before[i as int] },
            ));
            return ;
        }
        i += 1;
    }
    items.push(DeleteCandidate { rel_path: wanted, kind, state });
    assert(candidate_views(items@) =~= before.push(
        CandidateView { rel_path: rel_path@, kind, state },
    ));
}

fn same_kind(a: CandidateKind, b: CandidateKind) -> (r: bool)
    ensures
        r == (a == b),
{
    match (a, b) {
        (CandidateKind::File, CandidateKind::File) => true,
        (CandidateKind::Asset, CandidateKind::Asset) => true,
        _ => false,
    }
}

/// A search as a path below the root: trimmed, forward slashes, no leading
/// `./`, no `/` at either end.
pub fn normalized_rel_query(input: &str) -> (out: String)
    ensures
        out@ == asset_root(input@),
{
    normalize_asset_root(input)
}

/// Characters that make a search a regular expression.
pub open spec fn is_regex_sign(c: char) -> bool {
    ||| c == '['
    ||| c == ']'
    ||| c == '('
    ||| c == ')'
    ||| c == '|'
    ||| c == '+'
    ||| c == '^'
    ||| c == '$'
    ||| c == '{'
    ||| c == '}'
    ||| c == '\\'
    ||| c == '.'
}

/// Some character of the search makes it a regular expression.
pub open spec fn regex_like(q: Seq<char>) -> bool {
    exists|i: int| 0 <= i < q.len() && is_regex_sign(#[trigger] q[i])
}

#[verifier::loop_isolation(false)]
fn looks_like_regex_chars(q: &Vec<char>) -> (r: bool)
    ensures
        r == regex_like(q@),
{
    let mut i: usize = 0;
    while i < q.len()
        invariant
            i <= q.len(),
            forall|k: int| 0 <= k < i ==> !is_regex_sign(#[trigger] q@[k]),
        decreases q.len() - i,
    {
        let c = q[i];
        if c == '[' || c == ']' || c == '(' || c == ')' || c == '|' || c == '+' || c == '^' || c
            == '$' || c == '{' || c == '}' || c == '\\' || c == '.' {
            return true;
        }
        i += 1;
    }
    false
}

/// Whether a search holds a sign of regular expressions.
pub fn looks_like_regex(query: &str) -> (r: bool)
    ensures
        r == regex_like(query@),
{
    looks_like_regex_chars(&to_chars(query))
}

/// The regular expression for `glob[i..]` and the end of the text: `*` is
/// any text, `?` any one character, and any other character itself.
pub open spec fn loose_glob_from(glob: Seq<char>, i: int) -> Seq<char>
    decreases glob.len() - i,
{
    if i < 0 || i >= glob.len() {
        seq!['$']
    } else if glob[i] == '*' {
        seq!['.', '*'] + loose_glob_from(glob, i + 1)
    } else if glob[i] == '?' {
        seq!['.'] + loose_glob_from(glob, i + 1)
    } else {
        escaped(seq![glob[i]]) + loose_glob_from(glob, i + 1)
    }
}

/// The regular expression that matches what a search with `*` and `?` means.
pub open spec fn loose_glob(glob: Seq<char>) -> Seq<char> {
    seq!['^'] + loose_glob_from(glob, 0)
}

fn glob_like_chars(g: &Vec<char>) -> (out: Vec<char>)
    ensures
        out@ == loose_glob(g@),
{
    let mut out: Vec<char> = Vec::new();
    out.push('^');
    let mut i: usize = 0;
    assert(out@ + loose_glob_from(g@, 0) =~= loose_glob(g@));
    while i < g.len()
        invariant
            i <= g.len(),
            loose_glob(g@) == out@ + loose_glob_from(g@, i as int),
        decreases g.len() - i,
    {
        let ghost before = out@;
        let ghost rest = loose_glob_from(g@, i as int);
        let c = g[i];
        if c == '*' {
            out.push('.');
            out.push('*');
        } else if c == '?' {
            out.push('.');
        } else {
            let mut one: Vec<char> = Vec::new();
            one.push(c);
            assert(one@ =~= seq![c]);
            let quoted = to_chars(escape(from_chars(&one).as_str()).as_str());
            let mut k: usize = 0;
            while k < quoted.len()
                invariant
                    k <= quoted.len(),
                    out@ == before + quoted@.take(k as int),
                decreases quoted.len() - k,
            {
                out.push(quoted[k]);
                assert(before + quoted@.take(k + 1) =~= (before + quoted@.take(k as int)).push(
                    quoted@[k as int],
                ));
                k += 1;
            }
            assert(quoted@.take(quoted.len() as int) =~= quoted@);
        }
        i += 1;
        assert(before + rest =~= out@ + loose_glob_from(g@, i as int));
    }
    out.push('$');
    assert(out@ =~= loose_glob(g@));
    out
}

/// The regular expression for a search with `*` and `?`.
pub fn glob_like_to_regex(glob: &str) -> (out: String)
    ensures
        out@ == loose_glob(glob@),
{
    from_chars(&glob_like_chars(&to_chars(glob)))
}

/// How rows are searched.
pub enum SearchMatcher {
    /// Every row matches.
    Any,
    /// The rows whose path, in lower case, holds this text.
    Substring(String),
    /// The rows in whose path this regular expression matches, letter case
    /// left aside.
    Pattern(String),
}

/// A `SearchMatcher` as plain values.
pub enum MatcherView {
    Any,
    Substring(Seq<char>),
    Pattern(Seq<char>),
}

impl View for SearchMatcher {
    type V = MatcherView;

    open spec fn view(&self) -> MatcherView {
        match self {
            SearchMatcher::Any => MatcherView::Any,
            SearchMatcher::Substring(q) => MatcherView::Substring(q@),
            SearchMatcher::Pattern(p) => MatcherView::Pattern(p@),
        }
    }
}

/// The text is a regular expression.
pub open spec fn compiles(pattern: Seq<char>) -> bool {
    regex_matches_ignoring_case(pattern, Seq::empty()) is Some
}

/// The matcher that searches for the regular expression, or for the whole
/// search as a text where the pattern is no regular expression.
pub open spec fn pattern_or_text(pattern: Seq<char>, q: Seq<char>) -> MatcherView {
    if compiles(pattern) {
        MatcherView::Pattern(pattern)
    } else {
        MatcherView::Substring(lowercase(q))
    }
}

/// What a search means.
///
/// A blank search matches every row. `re:` and a pattern, or a pattern
/// between two `/`, is a regular expression; a search with `*` or `?` is a glob;
/// any other search that holds a sign of regular expressions and is one is a
/// regular expression too. Whatever is no regular expression after all, and any
/// plain search, is looked for as a text, in lower case.
pub open spec fn matcher_for(query: Seq<char>) -> MatcherView {
    let q = trimmed(query);
    if q.len() == 0 {
        MatcherView::Any
    } else {
        match without_prefix(q, "re:"@) {
            Some(pattern) => pattern_or_text(pattern, q),
            None => {
                if q.len() >= 2 && q.first() == '/' && q.last() == '/' {
                    pattern_or_text(q.subrange(1, q.len() - 1), q)
                } else if has_char(q, '*') || has_char(q, '?') {
                    pattern_or_text(loose_glob(q), q)
                } else if regex_like(q) && compiles(q) {
                    MatcherView::Pattern(q)
                } else {
                    MatcherView::Substring(lowercase(q))
                }
            },
        }
    }
}

fn pattern_or_substring(pattern: &Vec<char>, q: &Vec<char>) -> (m: SearchMatcher)
    ensures
        m@ == pattern_or_text(pattern@, q@),
{
    let p = from_chars(pattern);
    proof {
        reveal_strlit("");
        assert(""@ =~= Seq::<char>::empty());
    }
    if is_match_ignoring_case(p.as_str(), "").is_some() {
        SearchMatcher::Pattern(p)
    } else {
        SearchMatcher::Substring(from_chars(&to_ascii_lowercase(q)))
    }
}

/// The matcher that a search means.
pub fn build_search_matcher(query: &str) -> (m: SearchMatcher)
    ensures
        m@ == matcher_for(query@),
{
    let q = trim(&to_chars(query));
    if q.len() == 0 {
        return SearchMatcher::Any;
    }
    match strip_prefix(&q, "re:") {
        Some(pattern) => {
            return pattern_or_substring(&pattern, &q);
        },
        None => {},
    }
    if q.len() >= 2 && q[0] == '/' && q[q.len() - 1] == '/' {
        return pattern_or_substring(&slice(&q, 1, q.len() - 1), &q);
    }
    if contains_char(&q, '*') || contains_char(&q, '?') {
        return pattern_or_substring(&glob_like_chars(&q), &q);
    }
    if looks_like_regex_chars(&q) {
        let p = from_chars(&q);
        proof {
            reveal_strlit("");
            assert(""@ =~= Seq::<char>::empty());
        }
        if is_match_ignoring_case(p.as_str(), "").is_some() {
            return SearchMatcher::Pattern(p);
        }
    }
    SearchMatcher::Substring(from_chars(&to_ascii_lowercase(&q)))
}

/// The matcher matches the path.
pub open spec fn matcher_matches(m: MatcherView, path: Seq<char>) -> bool {
    match m {
        MatcherView::Any => true,
        MatcherView::Substring(q) => contains(lowercase(path), q),
        MatcherView::Pattern(p) => regex_matches_ignoring_case(p, path) == Some(true),
    }
}

impl SearchMatcher {
    /// Whether the matcher matches the path.
    pub fn matches(&self, path: &str) -> (r: bool)
        ensures
            r == matcher_matches(self@, path@),
    {
        match self {
            SearchMatcher::Any => true,
            SearchMatcher::Substring(q) => {
                let lower = to_ascii_lowercase(&to_chars(path));
                find(&lower, &to_chars(q.as_str()), 0).is_some()
            },
            SearchMatcher::Pattern(p) => match is_match_ignoring_case(p.as_str(), path) {
                Some(hit) => hit,
                None => false,
            },
        }
    }
}

/// A row is shown: its kind passes the filter, the search matches its path,
/// and it is not deleted unless something is searched for.
pub open spec fn visible(c: CandidateView, filter: DeleteFilter, query: Seq<char>) -> bool {
    let q = trimmed(query);
    &&& !(c.state == CandidateState::Deleted && q.len() == 0)
    &&& match filter {
        DeleteFilter::All => true,
        DeleteFilter::Files => c.kind == CandidateKind::File,
        DeleteFilter::Assets => c.kind == CandidateKind::Asset,
    }
    &&& (q.len() == 0 || matcher_matches(matcher_for(q), c.rel_path))
}

/// One mark for each row: set where the row is shown.
pub open spec fn visible_rows(items: Seq<CandidateView>, filter: DeleteFilter, query: Seq<char>) -> Seq<
    bool,
> {
    Seq::new(items.len(), |i: int| visible(items[i], filter, query))
}

/// The rows that are shown, by their indices, ascending.
pub fn filtered_indices(items: &Vec<DeleteCandidate>, filter: DeleteFilter, search_query: &str) -> (out:
    Vec<usize>)
    ensures
        out@ == set_indices(visible_rows(candidate_views(items@), filter, search_query@)),
        lists_marked(out@, visible_rows(candidate_views(items@), filter, search_query@)),
{
    let q = from_chars(&trim(&to_chars(search_query)));
    let blank = to_chars(q.as_str()).len() == 0;
    let matcher = build_search_matcher(q.as_str());
    let mut marks: Vec<bool> = Vec::new();
    let mut i: usize = 0;
    while i < items.len()
        invariant
            i <= items.len(),
            marks@.len() == i,
            q@ == trimmed(search_query@),
            blank == (q@.len() == 0),
            matcher@ == matcher_for(q@),
            forall|k: int|
                0 <= k < i ==> #[trigger] marks@[k] == visible(
                    candidate_views(items@)[k],
                    filter,
                    search_query@,
                ),
        decreases items.len() - i,
    {
        assert(candidate_views(items@)[i as int] == items@[i as int]@);
        let item = &items[i];
        let deleted = match item.state {
            CandidateState::Deleted => true,
            CandidateState::Active => false,
        };
        let kind_ok = match filter {
            DeleteFilter::All => true,
            DeleteFilter::Files => same_kind(item.kind, CandidateKind::File),
            DeleteFilter::Assets => same_kind(item.kind, CandidateKind::Asset),
        };
        let shown = !(deleted && blank) && kind_ok && (blank || matcher.matches(
            item.rel_path.as_str(),
        ));
        marks.push(shown);
        i += 1;
    }
    assert(marks@ =~= visible_rows(candidate_views(items@), filter, search_query@));
    marked_indices(&marks)
}

/// The cursor kept on the list: the last row where it was beyond it, the
/// first where the list is empty.
pub fn clamp_delete_cursor(cursor: usize, shown: usize) -> (out: usize)
    ensures
        out == if shown == 0 {
            0
        } else if cursor >= shown {
            (shown - 1) as usize
        } else {
            cursor
        },
{
    if shown == 0 {
        0
    } else if cursor >= shown {
        shown - 1
    } else {
        cursor
    }
}

/// The row that is at `at`, or -1.
pub open spec fn selected_from(selected: Seq<usize>, at: usize, i: int) -> int
    decreases selected.len() - i,
{
    if i < 0 || i >= selected.len() {
        -1
    } else if selected[i] == at {
        i
    } else {
        selected_from(selected, at, i + 1)
    }
}

/// The selection with the row added, or taken out where it was in it.
pub open spec fn toggled(selected: Seq<usize>, at: usize) -> Seq<usize> {
    let i = selected_from(selected, at, 0);
    if 0 <= i < selected.len() {
        selected.remove(i)
    } else {
        selected.push(at)
    }
}

/// Selects the row under the cursor, or takes it out of the selection.
/// `shown` holds the rows that are shown. Nothing changes where the cursor is
/// on none of them.
#[verifier::loop_isolation(false)]
pub fn toggle_selected(selected: &mut Vec<usize>, shown: &Vec<usize>, cursor: usize)
    ensures
        final(selected)@ == if cursor < shown@.len() {
            toggled(old(selected)@, shown@[cursor as int])
        } else {
            old(selected)@
        },
{
    if cursor >= shown.len() {
        return ;
    }
    let at = shown[cursor];
    let ghost before = selected@;
    let mut i: usize = 0;
    while i < selected.len()
        invariant
            i <= selected.len(),
            selected@ == before,
            selected_from(before, at, 0) == selected_from(before, at, i as int),
        decreases selected.len() - i,
    {
        if selected[i] == at {
            selected.remove(i);
            return ;
        }
        i += 1;
    }
    selected.push(at);
}

} // verus!
