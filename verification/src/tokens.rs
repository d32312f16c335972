//! Identifier tokens: which file holds which, and in how many files of a
//! scope a token stands.

use crate::marks::{count_marked, marked, set_to};
use crate::matching::{group, group_of, match_view, matches_view};
use crate::order::{push_unique, with_text};
use crate::parser::{find_all, found};
use crate::text::{texts, to_chars};
use crate::tree::ProjectTree;
use vstd::prelude::*;

verus! {

/// An identifier: a letter, `_` or `$`, then letters, digits, `_` and `$`.
pub const IDENT_TOKEN: &'static str = r#"[A-Za-z_$][A-Za-z0-9_$]*"#;

/// The texts of the first `n` matches, none twice.
pub open spec fn whole_matches(ms: Seq<Seq<Option<Seq<char>>>>, n: int) -> Seq<Seq<char>>
    decreases n,
{
    if n <= 0 || n > ms.len() {
        Seq::empty()
    } else {
        match group(ms[n - 1], 0) {
            Some(t) => with_text(whole_matches(ms, n - 1), t),
            None => whole_matches(ms, n - 1),
        }
    }
}

/// The identifier tokens of a text, each once, in the order in which they
/// first stand.
pub open spec fn tokens_of(text: Seq<char>) -> Seq<Seq<char>> {
    let ms = found(IDENT_TOKEN@, text);
    whole_matches(ms, ms.len() as int)
}

/// The texts of the matches, none twice.
pub fn tokens_from_matches(ms: &Vec<Vec<Option<String>>>) -> (out: Vec<String>)
    ensures
        texts(out@) == whole_matches(matches_view(ms@), ms@.len() as int),
{
    let mut out: Vec<String> = Vec::new();
    let ghost view = matches_view(ms@);
    let mut i: usize = 0;
    assert(texts(out@) =~= whole_matches(view, 0));
    while i < ms.len()
        invariant
            i <= ms.len(),
            view == matches_view(ms@),
            texts(out@) == whole_matches(view, i as int),
        decreases ms.len() - i,
    {
        assert(view[i as int] == match_view(ms@[i as int]));
        match group_of(&ms[i], 0) {
            Some(t) => {
                push_unique(&mut out, t.clone());
            },
            None => {},
        }
        i += 1;
    }
    out
}

/// The identifier tokens of a text.
pub fn file_tokens(text: &str) -> (out: Vec<String>)
    ensures
        texts(out@) == tokens_of(text@),
{
    let ms = find_all(IDENT_TOKEN, text);
    tokens_from_matches(&ms)
}

/// The tokens of each file of a list.
pub open spec fn token_views(cache: Seq<Vec<String>>) -> Seq<Seq<Seq<char>>> {
    Seq::new(cache.len(), |i: int| texts(cache[i]@))
}

/// The identifier tokens of each of `files`, in the order of `files`.
pub fn build_file_token_cache(tree: &ProjectTree, files: &Vec<String>) -> (cache: Vec<Vec<String>>)
    ensures
        cache@.len() == files@.len(),
        forall|i: int|
            0 <= i < files@.len() ==> #[trigger] token_views(cache@)[i] == tokens_of(
                tree.text_of(files@[i]@),
            ),
{
    let mut cache: Vec<Vec<String>> = Vec::new();
    let mut i: usize = 0;
    while i < files.len()
        invariant
            i <= files.len(),
            cache@.len() == i,
            forall|k: int|
                0 <= k < i ==> #[trigger] token_views(cache@)[k] == tokens_of(
                    tree.text_of(files@[k]@),
                ),
        decreases files.len() - i,
    {
        let ghost before = cache@;
        let text = tree.read(&files[i]);
        let tokens = file_tokens(text.as_str());
        cache.push(tokens);
        assert forall|k: int| 0 <= k < i + 1 implies #[trigger] token_views(cache@)[k]
            == tokens_of(tree.text_of(files@[k]@)) by {
            if k < i {
                assert(token_views(before)[k] == texts(before[k]@));
                assert(cache@[k] == before[k]);
            }
        }
        i += 1;
    }
    cache
}

/// File `i` is in the scope and holds the token.
pub open spec fn holds_token(
    scope: Seq<bool>,
    cache: Seq<Seq<Seq<char>>>,
    token: Seq<char>,
    i: int,
) -> bool {
    marked(scope, i) && 0 <= i < cache.len() && cache[i].contains(token)
}

/// In how many of the first `n` files, those of the scope only, the token stands.
pub open spec fn files_with(
    scope: Seq<bool>,
    cache: Seq<Seq<Seq<char>>>,
    token: Seq<char>,
    n: int,
) -> nat
    decreases n,
{
    if n <= 0 || n > cache.len() {
        0
    } else if holds_token(scope, cache, token, n - 1) {
        files_with(scope, cache, token, n - 1) + 1
    } else {
        files_with(scope, cache, token, n - 1)
    }
}

pub proof fn lemma_files_with_bound(
    scope: Seq<bool>,
    cache: Seq<Seq<Seq<char>>>,
    token: Seq<char>,
    n: int,
)
    requires
        0 <= n <= cache.len(),
    ensures
        files_with(scope, cache, token, n) <= n,
        files_with(scope, cache, token, n) > 0 <==> exists|i: int|
            0 <= i < n && #[trigger] holds_token(scope, cache, token, i),
    decreases n,
{
    if n > 0 {
        lemma_files_with_bound(scope, cache, token, n - 1);
        if files_with(scope, cache, token, n - 1) > 0 {
            let i = choose|i: int| 0 <= i < n - 1 && #[trigger] holds_token(scope, cache, token, i);
            assert(holds_token(scope, cache, token, i));
        }
        if holds_token(scope, cache, token, n - 1) {
        }
        if exists|i: int| 0 <= i < n && #[trigger] holds_token(scope, cache, token, i) {
            let i = choose|i: int| 0 <= i < n && #[trigger] holds_token(scope, cache, token, i);
            if i < n - 1 {
                assert(holds_token(scope, cache, token, i));
            }
        }
    }
}

/// Where a token stands in at most one file of the first `n`, and stands in
/// file `f`, it stands in no other.
pub proof fn lemma_single_file(
    scope: Seq<bool>,
    cache: Seq<Seq<Seq<char>>>,
    token: Seq<char>,
    n: int,
    f: int,
    g: int,
)
    requires
        0 <= n <= cache.len(),
        files_with(scope, cache, token, n) <= 1,
        0 <= f < n,
        0 <= g < n,
        f != g,
        holds_token(scope, cache, token, f),
    ensures
        !holds_token(scope, cache, token, g),
    decreases n,
{
    lemma_files_with_bound(scope, cache, token, n - 1);
    if f == n - 1 {
        if holds_token(scope, cache, token, g) {
            assert(files_with(scope, cache, token, n - 1) > 0);
        }
    } else if g == n - 1 {
        if holds_token(scope, cache, token, g) {
            assert(files_with(scope, cache, token, n - 1) > 0);
        }
    } else {
        lemma_single_file(scope, cache, token, n - 1, f, g);
    }
}

/// In how many files a token stands.
pub struct TokenCount {
    pub token: String,
    pub files: usize,
}

/// The number that the first entry for `token` at or after `i` gives, 0 where
/// there is none.
pub open spec fn count_from(table: Seq<TokenCount>, token: Seq<char>, i: int) -> nat
    decreases table.len() - i,
{
    if i < 0 || i >= table.len() {
        0
    } else if table[i].token@ == token {
        table[i].files as nat
    } else {
        count_from(table, token, i + 1)
    }
}

/// The number that the table gives for `token`, 0 where it has none.
pub open spec fn count_of(table: Seq<TokenCount>, token: Seq<char>) -> nat {
    count_from(table, token, 0)
}

/// The number that a table gives for a token.
#[verifier::loop_isolation(false)]
pub fn lookup(table: &Vec<TokenCount>, token: &String) -> (count: usize)
    ensures
        count == count_of(table@, token@),
{
    let mut i: usize = 0;
    while i < table.len()
        invariant
            i <= table.len(),
            count_of(table@, token@) == count_from(table@, token@, i as int),
        decreases table.len() - i,
    {
        if table[i].token == *token {
            return table[i].files;
        }
        i += 1;
    }
    0
}

proof fn lemma_count_from_push(table: Seq<TokenCount>, entry: TokenCount, token: Seq<char>, i: int)
    requires
        0 <= i <= table.len(),
    ensures
        count_from(table.push(entry), token, i) == if count_from_has(table, token, i) {
            count_from(table, token, i)
        } else if entry.token@ == token {
            entry.files as nat
        } else {
            0
        },
    decreases table.len() - i,
{
    let longer = table.push(entry);
    if i < table.len() {
        assert(longer[i] == table[i]);
        if table[i].token@ != token {
            lemma_count_from_push(table, entry, token, i + 1);
        }
    } else {
        assert(longer[i] == entry);
        assert(count_from(longer, token, i + 1) == 0);
    }
}

/// Some entry at or after `i` is for `token`.
pub open spec fn count_from_has(table: Seq<TokenCount>, token: Seq<char>, i: int) -> bool
    decreases table.len() - i,
{
    if i < 0 || i >= table.len() {
        false
    } else if table[i].token@ == token {
        true
    } else {
        count_from_has(table, token, i + 1)
    }
}

proof fn lemma_count_from_update(
    table: Seq<TokenCount>,
    at: int,
    entry: TokenCount,
    token: Seq<char>,
    i: int,
)
    requires
        0 <= i <= table.len(),
        0 <= at < table.len(),
        entry.token@ == table[at].token@,
        forall|k: int| 0 <= k < at ==> (#[trigger] table[k]).token@ != entry.token@,
    ensures
        count_from(table.update(at, entry), token, i) == if token == entry.token@ && i <= at {
            entry.files as nat
        } else {
            count_from(table, token, i)
        },
        count_from_has(table.update(at, entry), token, i) == count_from_has(table, token, i),
    decreases table.len() - i,
{
    let changed = table.update(at, entry);
    if i < table.len() {
        if i != at {
            assert(changed[i] == table[i]);
        }
        lemma_count_from_update(table, at, entry, token, i + 1);
    }
}

/// Counts one more file for `token`.
#[verifier::loop_isolation(false)]
fn bump(table: &mut Vec<TokenCount>, token: &String)
    requires
        count_of(old(table)@, token@) < usize::MAX,
    ensures
        forall|t: Seq<char>| #[trigger]
            count_of(final(table)@, t) == count_of(old(table)@, t) + if t == token@ {
                1nat
            } else {
                0nat
            },
{
    let ghost before = table@;
    let mut i: usize = 0;
    while i < table.len()
        invariant
            i <= table.len(),
            table@ == before,
            forall|k: int| 0 <= k < i ==> (#[trigger] before[k]).token@ != token@,
            count_of(before, token@) == count_from(before, token@, i as int),
            !count_from_has(before, token@, 0) == !count_from_has(before, token@, i as int),
        decreases table.len() - i,
    {
        if table[i].token == *token {
            let entry = TokenCount { token: token.clone(), files: table[i].files + 1 };
            proof {
                assert forall|t: Seq<char>| #[trigger]
                    count_of(before.update(i as int, entry), t) == count_of(before, t) + if t
                        == token@ {
                        1nat
                    } else {
                        0nat
                    } by {
                    lemma_count_from_update(before, i as int, entry, t, 0);
                }
            }
            table.set(i, entry);
            return ;
        }
        i += 1;
    }
    let entry = TokenCount { token: token.clone(), files: 1 };
    proof {
        assert forall|t: Seq<char>| #[trigger]
            count_of(before.push(entry), t) == count_of(before, t) + if t == token@ {
                1nat
            } else {
                0nat
            } by {
            lemma_count_from_push(before, entry, t, 0);
            lemma_count_has(before, t, 0);
        }
    }
    table.push(entry);
}

proof fn lemma_count_has(table: Seq<TokenCount>, token: Seq<char>, i: int)
    requires
        0 <= i,
    ensures
        !count_from_has(table, token, i) ==> count_from(table, token, i) == 0,
    decreases table.len() - i,
{
    if i < table.len() && table[i].token@ != token {
        lemma_count_has(table, token, i + 1);
    }
}

/// For each token, in how many files of the scope it stands. `token_cache`
/// holds the tokens of each file, `scope` one mark for each file.
pub fn count_tokens_in_scope(scope: &Vec<bool>, token_cache: &Vec<Vec<String>>) -> (table: Vec<
    TokenCount,
>)
    ensures
        forall|t: Seq<char>| #[trigger]
            count_of(table@, t) == files_with(
                scope@,
                token_views(token_cache@),
                t,
                token_cache@.len() as int,
            ),
{
    let ghost cache = token_views(token_cache@);
    let mut table: Vec<TokenCount> = Vec::new();
    let mut i: usize = 0;
    while i < token_cache.len()
        invariant
            i <= token_cache@.len(),
            cache == token_views(token_cache@),
            forall|t: Seq<char>| #[trigger]
                count_of(table@, t) == files_with(scope@, cache, t, i as int),
        decreases token_cache.len() - i,
    {
        if i < scope.len() && scope[i] {
            let tokens = &token_cache[i];
            assert(cache[i as int] == texts(tokens@));
            let mut k: usize = 0;
            while k < tokens.len()
                invariant
                    k <= tokens@.len(),
                    i < token_cache@.len(),
                    marked(scope@, i as int),
                    cache == token_views(token_cache@),
                    cache[i as int] == texts(tokens@),
                    forall|t: Seq<char>| #[trigger]
                        count_of(table@, t) == files_with(scope@, cache, t, i as int) + if texts(
                            tokens@,
                        ).take(k as int).contains(t) {
                            1nat
                        } else {
                            0nat
                        },
                decreases tokens.len() - k,
            {
                let ghost done = texts(tokens@).take(k as int);
                let ghost next = texts(tokens@).take(k + 1);
                let ghost old_table = table@;
                let token = &tokens[k];
                let seen = seen_before(tokens, k);
                proof {
                    assert(next[k as int] == token@);
                    assert forall|t: Seq<char>| next.contains(t) <==> (done.contains(t) || t
                        == token@) by {
                        if done.contains(t) {
                            let x = choose|x: int| 0 <= x < done.len() && done[x] == t;
                            assert(next[x] == t);
                        }
                        if next.contains(t) {
                            let x = choose|x: int| 0 <= x < next.len() && next[x] == t;
                            if x < k {
                                assert(done[x] == t);
                            }
                        }
                    }
                }
                if !seen {
                    proof {
                        lemma_files_with_bound(scope@, cache, token@, i as int);
                        assert(count_of(table@, token@) == files_with(scope@, cache, token@, i as int));
                        assert(i < token_cache.len());
                    }
                    bump(&mut table, token);
                }
                proof {
                    assert forall|t: Seq<char>| #[trigger]
                        count_of(table@, t) == files_with(scope@, cache, t, i as int) + if next.contains(
                            t,
                        ) {
                            1nat
                        } else {
                            0nat
                        } by {
                        assert(count_of(old_table, t) == files_with(scope@, cache, t, i as int)
                            + if done.contains(t) {
                            1nat
                        } else {
                            0nat
                        });
                    }
                }
                k += 1;
            }
            proof {
                assert(texts(tokens@).take(tokens@.len() as int) =~= texts(tokens@));
                assert forall|t: Seq<char>| #[trigger]
                    count_of(table@, t) == files_with(scope@, cache, t, i + 1) by {
                    assert(count_of(table@, t) == files_with(scope@, cache, t, i as int) + if texts(
                        tokens@,
                    ).take(tokens@.len() as int).contains(t) {
                        1nat
                    } else {
                        0nat
                    });
                }
            }
        } else {
            proof {
                assert forall|t: Seq<char>| #[trigger]
                    count_of(table@, t) == files_with(scope@, cache, t, i + 1) by {
                    assert(count_of(table@, t) == files_with(scope@, cache, t, i as int));
                    assert(!holds_token(scope@, cache, t, i as int));
                }
            }
        }
        i += 1;
    }
    table
}

/// The token at `k` stands earlier in the list too.
#[verifier::loop_isolation(false)]
fn seen_before(tokens: &Vec<String>, k: usize) -> (r: bool)
    requires
        k < tokens@.len(),
    ensures
        r == texts(tokens@).take(k as int).contains(tokens@[k as int]@),
{
    let ghost done = texts(tokens@).take(k as int);
    let mut x: usize = 0;
    while x < k
        invariant
            x <= k,
            forall|y: int| 0 <= y < x ==> #[trigger] done[y] != tokens@[k as int]@,
        decreases k - x,
    {
        assert(done[x as int] == tokens@[x as int]@);
        if tokens[x] == tokens[k] {
            return true;
        }
        x += 1;
    }
    false
}

/// A name stands in a file other than its own: it stands in more than one
/// file of the scope, or in one where the scope is that one file and it is the
/// name's own file. An empty name stands nowhere.
pub open spec fn appears_elsewhere(name: Seq<char>, count: nat, scope_size: nat, in_scope: bool) -> bool {
    name.len() > 0 && (count > 1 || (count == 1 && scope_size == 1 && in_scope))
}

/// Whether an export's name stands as a token in a reachable file other than
/// `file`. `token_file_counts` says in how many reachable files each token
/// stands, `reachable` holds one mark for each file.
pub fn export_appears_in_other_reachable_files(
    token_file_counts: &Vec<TokenCount>,
    export_name: &str,
    reachable: &Vec<bool>,
    file: usize,
) -> (r: bool)
    ensures
        r == appears_elsewhere(
            export_name@,
            count_of(token_file_counts@, export_name@),
            set_to(reachable@, reachable@.len() as int),
            marked(reachable@, file as int),
        ),
{
    if to_chars(export_name).len() == 0 {
        return false;
    }
    let count = lookup(token_file_counts, &String::from_str(export_name));
    if count == 0 {
        return false;
    }
    if count > 1 {
        return true;
    }
    count_marked(reachable) == 1 && file < reachable.len() && reachable[file]
}

/// Whether an export's name stands as a token in a file of the project other
/// than `file`. `token_file_counts` says in how many files each token stands.
pub fn export_appears_in_other_project_files(
    token_file_counts: &Vec<TokenCount>,
    export_name: &str,
    all_files: &Vec<String>,
    file: usize,
) -> (r: bool)
    ensures
        r == appears_elsewhere(
            export_name@,
            count_of(token_file_counts@, export_name@),
            all_files@.len(),
            file < all_files@.len(),
        ),
{
    if to_chars(export_name).len() == 0 {
        return false;
    }
    let count = lookup(token_file_counts, &String::from_str(export_name));
    if count == 0 {
        return false;
    }
    if count > 1 {
        return true;
    }
    all_files.len() == 1 && file < all_files.len()
}

} // verus!
