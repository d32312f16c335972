//! Assets and what uses them: imports that resolve to an asset, glob
//! imports that match one, and string literals that spell one's path.

use crate::marks::unmarked;
use crate::matching::{escape, escaped, group, group_of, match_view, matches_view};
use crate::order::{distinct, distinct_to, lemma_with_text, no_repeats, push_unique};
use crate::parser::{find_all, found, group_or_empty};
use crate::paths::{
    asset_extension_list, asset_extensions, below, components, file_name, has_text, is_public_asset, join,
    join_components, joined, parent, path_components, path_file_name, path_join, path_parent,
    public_asset, relative, relative_chars,
};
use crate::resolver::{candidate, find_candidate};
use crate::specifier::{
    asset_root, entry, is_relative_chars, normalize_asset_root, normalize_chars, normalized,
    relative_specifier, rooted_specifier,
};
use crate::text::{
    clone_texts, concat, equal, from_chars, occurs, rows, slashed, slice, starts, starts_with,
    strip_prefix, texts, to_chars, to_forward_slashes, without_prefix,
};
use crate::tree::ProjectTree;
use vstd::prelude::*;

verus! {

/// A string literal in any of the three quotes; the body is the first,
/// second or third group.
pub const STRING_LITERAL: &'static str =
    r#"(?s)(?:'([^'\\]*(?:\\.[^'\\]*)*)'|"([^"\\]*(?:\\.[^"\\]*)*)"|`([^`\\]*(?:\\.[^`\\]*)*)`)"#;

/// `import.meta.glob(` and a quoted pattern; the pattern is the first,
/// second or third group.
pub const IMPORT_META_GLOB: &'static str =
    r#"import\.meta\.glob\(\s*(?:'([^']+)'|"([^"]+)"|`([^`]+)`)"#;

/// What is looked for in a source text.
#[derive(Clone, Copy, Debug, PartialEq, Eq, Structural)]
pub enum Scan {
    /// The bodies of string literals.
    Literals,
    /// The patterns of glob imports.
    Globs,
}

/// The bodies of the first `n` string literals, empty ones left out.
pub open spec fn bodies_to(ms: Seq<Seq<Option<Seq<char>>>>, n: int) -> Seq<Seq<char>>
    decreases n,
{
    if n <= 0 || n > ms.len() {
        Seq::empty()
    } else {
        bodies_to(ms, n - 1) + entry(group(ms[n - 1], 1)) + entry(group(ms[n - 1], 2)) + entry(
            group(ms[n - 1], 3),
        )
    }
}

/// The pattern of a glob import: the first of its three groups that took part.
pub open spec fn first_group(m: Seq<Option<Seq<char>>>) -> Seq<char> {
    match group(m, 1) {
        Some(t) => t,
        None => match group(m, 2) {
            Some(t) => t,
            None => group_or_empty(m, 3),
        },
    }
}

/// The patterns of the first `n` glob imports, empty ones left out.
pub open spec fn patterns_to(ms: Seq<Seq<Option<Seq<char>>>>, n: int) -> Seq<Seq<char>>
    decreases n,
{
    if n <= 0 || n > ms.len() {
        Seq::empty()
    } else {
        patterns_to(ms, n - 1) + entry(Some(first_group(ms[n - 1])))
    }
}

/// What a scan finds in the matches of its pattern.
pub open spec fn scanned_in(kind: Scan, ms: Seq<Seq<Option<Seq<char>>>>) -> Seq<Seq<char>> {
    match kind {
        Scan::Literals => bodies_to(ms, ms.len() as int),
        Scan::Globs => patterns_to(ms, ms.len() as int),
    }
}

/// The pattern of a scan.
pub open spec fn scan_pattern(kind: Scan) -> Seq<char> {
    match kind {
        Scan::Literals => STRING_LITERAL@,
        Scan::Globs => IMPORT_META_GLOB@,
    }
}

/// What a scan finds in a text.
pub open spec fn scanned(kind: Scan, text: Seq<char>) -> Seq<Seq<char>> {
    scanned_in(kind, found(scan_pattern(kind), text))
}

fn push_group(out: &mut Vec<String>, m: &Vec<Option<String>>, index: usize)
    ensures
        texts(final(out)@) == texts(old(out)@) + entry(group(match_view(*m), index as int)),
{
    let ghost before = texts(out@);
    match group_of(m, index) {
        Some(s) => {
            if to_chars(s.as_str()).len() > 0 {
                out.push(s.clone());
                assert(texts(out@) =~= before + seq![s@]);
            } else {
                assert(texts(out@) =~= before + Seq::<Seq<char>>::empty());
            }
        },
        None => {
            assert(texts(out@) =~= before + Seq::<Seq<char>>::empty());
        },
    }
}

/// What a scan finds in the matches of its pattern.
pub fn scan_matches(kind: Scan, ms: &Vec<Vec<Option<String>>>) -> (out: Vec<String>)
    ensures
        texts(out@) == scanned_in(kind, matches_view(ms@)),
{
    let ghost view = matches_view(ms@);
    let mut out: Vec<String> = Vec::new();
    let mut i: usize = 0;
    match kind {
        Scan::Literals => {
            assert(texts(out@) =~= bodies_to(view, 0));
            while i < ms.len()
                invariant
                    i <= ms.len(),
                    view == matches_view(ms@),
                    texts(out@) == bodies_to(view, i as int),
                decreases ms.len() - i,
            {
                assert(view[i as int] == match_view(ms@[i as int]));
                push_group(&mut out, &ms[i], 1);
                push_group(&mut out, &ms[i], 2);
                push_group(&mut out, &ms[i], 3);
                i += 1;
            }
        },
        Scan::Globs => {
            assert(texts(out@) =~= patterns_to(view, 0));
            while i < ms.len()
                invariant
                    i <= ms.len(),
                    view == matches_view(ms@),
                    texts(out@) == patterns_to(view, i as int),
                decreases ms.len() - i,
            {
                assert(view[i as int] == match_view(ms@[i as int]));
                let ghost before = texts(out@);
                let m = &ms[i];
                let index: usize = if group_of(m, 1).is_some() {
                    1
                } else if group_of(m, 2).is_some() {
                    2
                } else {
                    3
                };
                push_group(&mut out, m, index);
                proof {
                    let g = group(match_view(*m), index as int);
                    assert(entry(g) == entry(Some(first_group(match_view(*m)))));
                }
                i += 1;
            }
        },
    }
    out
}

/// What a scan finds in a text.
pub fn scan_text(kind: Scan, text: &str) -> (out: Vec<String>)
    ensures
        texts(out@) == scanned(kind, text@),
{
    let ms = match kind {
        Scan::Literals => find_all(STRING_LITERAL, text),
        Scan::Globs => find_all(IMPORT_META_GLOB, text),
    };
    scan_matches(kind, &ms)
}

/// A text found in a source file: the index of the file, and the text.
pub struct Literal {
    pub file: usize,
    pub body: String,
}

/// A `Literal` as plain values.
pub struct LiteralView {
    pub file: int,
    pub body: Seq<char>,
}

impl View for Literal {
    type V = LiteralView;

    open spec fn view(&self) -> LiteralView {
        LiteralView { file: self.file as int, body: self.body@ }
    }
}

/// The views of a list of literals.
pub open spec fn literal_views(v: Seq<Literal>) -> Seq<LiteralView> {
    Seq::new(v.len(), |i: int| v[i]@)
}

/// The texts of one file, each with the file's index.
pub open spec fn tagged(file: int, bodies: Seq<Seq<char>>) -> Seq<LiteralView> {
    Seq::new(bodies.len(), |k: int| LiteralView { file, body: bodies[k] })
}

/// What a scan finds in the first `n` of `files`, file after file.
pub open spec fn scanned_files(kind: Scan, tree: &ProjectTree, files: Seq<Seq<char>>, n: int) -> Seq<
    LiteralView,
>
    decreases n,
{
    if n <= 0 || n > files.len() {
        Seq::empty()
    } else {
        scanned_files(kind, tree, files, n - 1) + tagged(
            n - 1,
            scanned(kind, tree.text_of(files[n - 1])),
        )
    }
}

/// What a scan finds in the texts of `files`.
pub fn scan_files(kind: Scan, tree: &ProjectTree, files: &Vec<String>) -> (out: Vec<Literal>)
    ensures
        literal_views(out@) == scanned_files(kind, tree, texts(files@), files@.len() as int),
        forall|x: int| 0 <= x < out@.len() ==> (#[trigger] out@[x]).file < files@.len(),
{
    let mut out: Vec<Literal> = Vec::new();
    let mut i: usize = 0;
    assert(literal_views(out@) =~= scanned_files(kind, tree, texts(files@), 0));
    while i < files.len()
        invariant
            i <= files.len(),
            literal_views(out@) == scanned_files(kind, tree, texts(files@), i as int),
            forall|x: int| 0 <= x < out@.len() ==> (#[trigger] out@[x]).file < i,
        decreases files.len() - i,
    {
        assert(texts(files@)[i as int] == files@[i as int]@);
        let text = tree.read(&files[i]);
        let bodies = scan_text(kind, text.as_str());
        let ghost base = literal_views(out@);
        let ghost all = tagged(i as int, texts(bodies@));
        let mut k: usize = 0;
        assert(literal_views(out@) =~= base + all.take(0));
        while k < bodies.len()
            invariant
                k <= bodies.len(),
                i < files.len(),
                all == tagged(i as int, texts(bodies@)),
                literal_views(out@) == base + all.take(k as int),
                forall|x: int| 0 <= x < out@.len() ==> (#[trigger] out@[x]).file <= i,
            decreases bodies.len() - k,
        {
            let ghost before = literal_views(out@);
            let l = Literal { file: i, body: bodies[k].clone() };
            out.push(l);
            assert(literal_views(out@) =~= before.push(l@));
            assert(all[k as int] == l@);
            assert(base + all.take(k + 1) =~= (base + all.take(k as int)).push(all[k as int]));
            k += 1;
        }
        assert(all.take(bodies.len() as int) =~= all);
        assert forall|x: int| 0 <= x < out@.len() implies (#[trigger] out@[x]).file < i + 1 by {}
        i += 1;
    }
    out
}

/// A string literal spells `s`: `s` is its body, or its body normalized as a
/// specifier and not empty.
pub open spec fn spells(l: LiteralView, s: Seq<char>) -> bool {
    s == l.body || (s == normalized(l.body) && s.len() > 0)
}

/// Some literal of the list spells `s`.
pub open spec fn in_pool(lits: Seq<LiteralView>, s: Seq<char>) -> bool {
    exists|x: int| 0 <= x < lits.len() && spells(#[trigger] lits[x], s)
}

proof fn lemma_pool_step(lits: Seq<LiteralView>, n: int, s: Seq<char>)
    requires
        0 <= n < lits.len(),
    ensures
        in_pool(lits.take(n + 1), s) <==> (in_pool(lits.take(n), s) || spells(lits[n], s)),
{
    let done = lits.take(n);
    let next = lits.take(n + 1);
    assert(next[n] == lits[n]);
    if in_pool(done, s) {
        let x = choose|x: int| 0 <= x < done.len() && spells(#[trigger] done[x], s);
        assert(next[x] == done[x]);
    }
    if in_pool(next, s) {
        let x = choose|x: int| 0 <= x < next.len() && spells(#[trigger] next[x], s);
        if x < n {
            assert(done[x] == next[x]);
        }
    }
}

/// What the string literals of the source files spell, each text once.
pub fn collect_string_literals(tree: &ProjectTree, files: &Vec<String>) -> (out: Vec<String>)
    ensures
        no_repeats(texts(out@)),
        forall|s: Seq<char>| #[trigger]
            texts(out@).contains(s) <==> in_pool(
                scanned_files(Scan::Literals, tree, texts(files@), files@.len() as int),
                s,
            ),
{
    let lits = scan_files(Scan::Literals, tree, files);
    let ghost all = literal_views(lits@);
    let mut out: Vec<String> = Vec::new();
    let mut n: usize = 0;
    while n < lits.len()
        invariant
            n <= lits@.len(),
            all == literal_views(lits@),
            no_repeats(texts(out@)),
            forall|s: Seq<char>| #[trigger] texts(out@).contains(s) <==> in_pool(all.take(n as int), s),
        decreases lits.len() - n,
    {
        let ghost before = texts(out@);
        assert(all[n as int] == lits@[n as int]@);
        let body = &lits[n].body;
        proof {
            lemma_with_text(before, body@);
        }
        push_unique(&mut out, body.clone());
        let ghost middle = texts(out@);
        let norm = normalize_chars(&to_chars(body.as_str()));
        if norm.len() > 0 {
            proof {
                lemma_with_text(middle, norm@);
            }
            push_unique(&mut out, from_chars(&norm));
        }
        proof {
            assert forall|s: Seq<char>| #[trigger]
                texts(out@).contains(s) <==> in_pool(all.take(n + 1), s) by {
                lemma_pool_step(all, n as int, s);
                assert(before.contains(s) <==> in_pool(all.take(n as int), s));
            }
        }
        n += 1;
    }
    assert(all.take(lits@.len() as int) =~= all);
    out
}

/// The asset that a path names: the first candidate, over the asset
/// extensions, that is an asset.
pub open spec fn asset_candidate(raw: Seq<char>, assets: Seq<Seq<char>>) -> Option<int> {
    candidate(raw, asset_extensions(), assets)
}

/// The asset that a path names, tried as it stands, with each asset
/// extension, and as a directory with an index file.
pub fn resolve_asset_candidate(raw_candidate: &str, assets: &Vec<String>) -> (r: Option<usize>)
    ensures
        match r {
            Some(i) => asset_candidate(raw_candidate@, texts(assets@)) == Some(i as int) && i
                < assets.len(),
            None => asset_candidate(raw_candidate@, texts(assets@)) is None,
        },
{
    let exts = asset_extension_list();
    find_candidate(&to_chars(raw_candidate), &exts, assets)
}

/// The asset that a specifier names when `from` holds it: a relative one is
/// seen from the directory of `from`, a rooted one from the project root, one
/// that starts with `@/` or `~/` from `src` under the root, one that starts
/// with `src/` from the root. Any other names none.
pub open spec fn asset_target(root: Seq<char>, from: Seq<char>, s: Seq<char>, assets: Seq<Seq<char>>) -> Option<
    int,
> {
    if relative_specifier(s) {
        match parent(from) {
            Some(dir) => asset_candidate(join(dir, s), assets),
            None => None,
        }
    } else if rooted_specifier(s) {
        asset_candidate(join(root, s.skip(1)), assets)
    } else {
        match without_prefix(s, "@/"@) {
            Some(rest) => asset_candidate(join(join(root, "src"@), rest), assets),
            None => match without_prefix(s, "~/"@) {
                Some(rest) => asset_candidate(join(join(root, "src"@), rest), assets),
                None => {
                    if starts(s, "src/"@) {
                        asset_candidate(join(root, s), assets)
                    } else {
                        None
                    }
                },
            },
        }
    }
}

/// The asset that a specifier names when `from_file` holds it.
pub fn resolve_asset_specifier(root: &str, from_file: &str, specifier: &str, assets: &Vec<String>) -> (r:
    Option<usize>)
    ensures
        match r {
            Some(i) => asset_target(root@, from_file@, specifier@, texts(assets@)) == Some(i as int)
                && i < assets.len(),
            None => asset_target(root@, from_file@, specifier@, texts(assets@)) is None,
        },
{
    let s = to_chars(specifier);
    let exts = asset_extension_list();
    let base = to_chars(root);
    if is_relative_chars(&s) {
        return match path_parent(&to_chars(from_file)) {
            Some(dir) => find_candidate(&path_join(&dir, &s), &exts, assets),
            None => None,
        };
    }
    if s.len() > 0 && s[0] == '/' {
        return find_candidate(&path_join(&base, &slice(&s, 1, s.len())), &exts, assets);
    }
    let src = path_join(&base, &to_chars("src"));
    match strip_prefix(&s, "@/") {
        Some(rest) => {
            return find_candidate(&path_join(&src, &rest), &exts, assets);
        },
        None => {},
    }
    match strip_prefix(&s, "~/") {
        Some(rest) => {
            return find_candidate(&path_join(&src, &rest), &exts, assets);
        },
        None => {},
    }
    if starts_with(&s, "src/") {
        return find_candidate(&path_join(&base, &s), &exts, assets);
    }
    None
}

/// The asset that a string literal names as an import.
pub open spec fn import_target(
    root: Seq<char>,
    files: Seq<Seq<char>>,
    assets: Seq<Seq<char>>,
    l: LiteralView,
) -> Option<int> {
    if 0 <= l.file < files.len() {
        asset_target(root, files[l.file], normalized(l.body), assets)
    } else {
        None
    }
}

/// Some string literal of the source files names asset `a` as an import.
pub open spec fn imported_asset(
    tree: &ProjectTree,
    files: Seq<Seq<char>>,
    assets: Seq<Seq<char>>,
    a: int,
) -> bool {
    let lits = scanned_files(Scan::Literals, tree, files, files.len() as int);
    exists|x: int|
        0 <= x < lits.len() && import_target(tree.root@, files, assets, #[trigger] lits[x]) == Some(
            a,
        )
}

/// The assets that string literals of the source files name as imports, one
/// mark for each asset.
pub fn resolve_assets_from_source_imports(
    tree: &ProjectTree,
    source_files: &Vec<String>,
    assets: &Vec<String>,
) -> (out: Vec<bool>)
    ensures
        out@.len() == assets@.len(),
        forall|a: int|
            0 <= a < assets@.len() ==> (#[trigger] out@[a] <==> imported_asset(
                tree,
                texts(source_files@),
                texts(assets@),
                a,
            )),
{
    let lits = scan_files(Scan::Literals, tree, source_files);
    let ghost all = literal_views(lits@);
    let ghost files = texts(source_files@);
    let ghost known = texts(assets@);
    let mut out = unmarked(assets.len());
    let mut n: usize = 0;
    while n < lits.len()
        invariant
            n <= lits@.len(),
            all == literal_views(lits@),
            files == texts(source_files@),
            known == texts(assets@),
            out@.len() == assets@.len(),
            forall|x: int| 0 <= x < lits@.len() ==> (#[trigger] lits@[x]).file < source_files@.len(),
            forall|a: int|
                0 <= a < assets@.len() ==> (#[trigger] out@[a] <==> exists|x: int|
                    0 <= x < n && import_target(tree.root@, files, known, #[trigger] all[x])
                        == Some(a)),
        decreases lits.len() - n,
    {
        let ghost before = out@;
        assert(all[n as int] == lits@[n as int]@);
        let l = &lits[n];
        assert(files[l.file as int] == source_files@[l.file as int]@);
        let named = from_chars(&normalize_chars(&to_chars(l.body.as_str())));
        let hit = resolve_asset_specifier(
            tree.root.as_str(),
            source_files[l.file].as_str(),
            named.as_str(),
            assets,
        );
        assert(match hit {
            Some(at) => import_target(tree.root@, files, known, all[n as int]) == Some(at as int),
            None => import_target(tree.root@, files, known, all[n as int]) is None,
        });
        match hit {
            Some(at) => {
                out.set(at, true);
            },
            None => {},
        }
        proof {
            assert forall|a: int| 0 <= a < assets@.len() implies (#[trigger] out@[a] <==> exists|
                x: int,
            |
                0 <= x < n + 1 && import_target(tree.root@, files, known, #[trigger] all[x])
                    == Some(a)) by {
                if before[a] {
                    let x = choose|x: int|
                        0 <= x < n && import_target(tree.root@, files, known, #[trigger] all[x])
                            == Some(a);
                    assert(0 <= x < n + 1 && import_target(tree.root@, files, known, all[x])
                        == Some(a));
                }
                if exists|x: int|
                    0 <= x < n + 1 && import_target(tree.root@, files, known, #[trigger] all[x])
                        == Some(a) {
                    let x = choose|x: int|
                        0 <= x < n + 1 && import_target(tree.root@, files, known, #[trigger] all[x])
                            == Some(a);
                    if x < n {
                        assert(before[a]);
                    }
                }
                if hit == Some(a as usize) {
                    assert(import_target(tree.root@, files, known, all[n as int]) == Some(a));
                }
            }
        }
        n += 1;
    }
    out
}

/// What a path is below the root, by the names it goes through: the names
/// after those of the root, with `/` between them. Nothing where the path does
/// not lie below the root.
pub open spec fn rel_pattern(root: Seq<char>, path: Seq<char>) -> Option<Seq<char>> {
    let r = components(root);
    let p = components(path);
    if p.len() < r.len() || p.take(r.len() as int) != r {
        None
    } else {
        let rest = p.skip(r.len() as int);
        let rel = joined(rest, rest.len() as int);
        if rel.len() == 0 {
            None
        } else {
            Some(rel)
        }
    }
}

/// A path as it lies below the root, `.` and `..` resolved.
#[verifier::loop_isolation(false)]
pub fn to_rel_pattern(root: &str, path: &str) -> (r: Option<String>)
    ensures
        match r {
            Some(p) => rel_pattern(root@, path@) == Some(p@),
            None => rel_pattern(root@, path@) is None,
        },
{
    let r = path_components(&to_chars(root));
    let p = path_components(&to_chars(path));
    assert(rows(r@).len() == r@.len());
    assert(rows(p@).len() == p@.len());
    if p.len() < r.len() {
        return None;
    }
    let ghost head = rows(p@).take(r@.len() as int);
    let mut i: usize = 0;
    while i < r.len()
        invariant
            i <= r.len(),
            forall|k: int| 0 <= k < i ==> #[trigger] rows(p@)[k] == rows(r@)[k],
        decreases r.len() - i,
    {
        assert(rows(p@)[i as int] == p@[i as int]@);
        assert(rows(r@)[i as int] == r@[i as int]@);
        if !equal(&p[i], &r[i]) {
            assert(head[i as int] != rows(r@)[i as int]);
            return None;
        }
        i += 1;
    }
    assert(head =~= rows(r@));
    let mut rest: Vec<Vec<char>> = Vec::new();
    let mut j: usize = r.len();
    let ghost tail = rows(p@).skip(r@.len() as int);
    assert(rows(rest@) =~= tail.take(0));
    while j < p.len()
        invariant
            r.len() <= j <= p.len(),
            rows(rest@) == tail.take(j - r.len()),
        decreases p.len() - j,
    {
        let ghost before = rows(rest@);
        let part = slice(&p[j], 0, p[j].len());
        assert(part@ =~= p@[j as int]@);
        rest.push(part);
        assert(rows(rest@) =~= before.push(p@[j as int]@));
        assert(tail[j - r.len()] == p@[j as int]@);
        assert(tail.take(j - r.len() + 1) =~= tail.take(j - r.len()).push(tail[j - r.len()]));
        j += 1;
    }
    assert(tail.take(p.len() - r.len()) =~= tail);
    let rel = join_components(&rest);
    if rel.len() == 0 {
        None
    } else {
        Some(from_chars(&rel))
    }
}

/// The pattern of a glob import as a pattern on paths below the root. A
/// relative one is seen from the directory of `from`; a rooted one loses its
/// `/`; `@/` and `~/` stand for `src/`; one that starts with `src/` stays. Any
/// other matches nothing.
pub open spec fn glob_rel_pattern(root: Seq<char>, from: Seq<char>, s: Seq<char>) -> Option<
    Seq<char>,
> {
    if relative_specifier(s) {
        match parent(from) {
            Some(dir) => rel_pattern(root, join(dir, s)),
            None => None,
        }
    } else if rooted_specifier(s) {
        Some(slashed(s.skip(1)))
    } else {
        match without_prefix(s, "@/"@) {
            Some(rest) => Some("src/"@ + slashed(rest)),
            None => match without_prefix(s, "~/"@) {
                Some(rest) => Some("src/"@ + slashed(rest)),
                None => {
                    if starts(s, "src/"@) {
                        Some(slashed(s))
                    } else {
                        None
                    }
                },
            },
        }
    }
}

/// The pattern of a glob import as a pattern on paths below the root.
pub fn resolve_glob_specifier_to_rel_pattern(root: &str, from_file: &str, specifier: &str) -> (r:
    Option<String>)
    ensures
        match r {
            Some(p) => glob_rel_pattern(root@, from_file@, specifier@) == Some(p@),
            None => glob_rel_pattern(root@, from_file@, specifier@) is None,
        },
{
    let s = to_chars(specifier);
    if is_relative_chars(&s) {
        return match path_parent(&to_chars(from_file)) {
            Some(dir) => to_rel_pattern(root, from_chars(&path_join(&dir, &s)).as_str()),
            None => None,
        };
    }
    if s.len() > 0 && s[0] == '/' {
        return Some(from_chars(&to_forward_slashes(&slice(&s, 1, s.len()))));
    }
    match strip_prefix(&s, "@/") {
        Some(rest) => {
            return Some(from_chars(&concat(&to_chars("src/"), &to_forward_slashes(&rest))));
        },
        None => {},
    }
    match strip_prefix(&s, "~/") {
        Some(rest) => {
            return Some(from_chars(&concat(&to_chars("src/"), &to_forward_slashes(&rest))));
        },
        None => {},
    }
    if starts_with(&s, "src/") {
        return Some(from_chars(&to_forward_slashes(&s)));
    }
    None
}

/// The regular expression for `glob[i..]` and the end of the text: `**` is
/// any text, `*` any text without `/`, `?` one character that is not `/`, and
/// any other character itself.
pub open spec fn glob_regex_from(glob: Seq<char>, i: int) -> Seq<char>
    decreases glob.len() - i,
{
    if i < 0 || i >= glob.len() {
        seq!['$']
    } else if glob[i] == '*' {
        if i + 1 < glob.len() && glob[i + 1] == '*' {
            seq!['.', '*'] + glob_regex_from(glob, i + 2)
        } else {
            seq!['[', '^', '/', ']', '*'] + glob_regex_from(glob, i + 1)
        }
    } else if glob[i] == '?' {
        seq!['[', '^', '/', ']'] + glob_regex_from(glob, i + 1)
    } else {
        escaped(seq![glob[i]]) + glob_regex_from(glob, i + 1)
    }
}

/// The regular expression that matches the paths that a glob pattern means,
/// from their first character to their last.
pub open spec fn glob_regex(glob: Seq<char>) -> Seq<char> {
    seq!['^'] + glob_regex_from(glob, 0)
}

fn push_all(out: &mut Vec<char>, more: &Vec<char>)
    ensures
        final(out)@ == old(out)@ + more@,
{
    let ghost before = out@;
    let mut i: usize = 0;
    assert(out@ =~= before + more@.take(0));
    while i < more.len()
        invariant
            i <= more.len(),
            out@ == before + more@.take(i as int),
        decreases more.len() - i,
    {
        out.push(more[i]);
        assert(before + more@.take(i + 1) =~= (before + more@.take(i as int)).push(more@[i as int]));
        i += 1;
    }
    assert(more@.take(more.len() as int) =~= more@);
}

/// The regular expression for a glob pattern on paths.
pub fn glob_path_pattern_to_regex(glob: &str) -> (out: String)
    ensures
        out@ == glob_regex(glob@),
{
    let g = to_chars(glob);
    let mut out: Vec<char> = Vec::new();
    out.push('^');
    let mut i: usize = 0;
    assert(out@ + glob_regex_from(g@, 0) =~= glob_regex(g@));
    while i < g.len()
        invariant
            i <= g.len(),
            glob_regex(g@) == out@ + glob_regex_from(g@, i as int),
        decreases g.len() - i,
    {
        let ghost before = out@;
        let ghost rest = glob_regex_from(g@, i as int);
        let c = g[i];
        if c == '*' {
            if i + 1 < g.len() && g[i + 1] == '*' {
                out.push('.');
                out.push('*');
                i += 2;
                assert(before + rest =~= out@ + glob_regex_from(g@, i as int));
            } else {
                out.push('[');
                out.push('^');
                out.push('/');
                out.push(']');
                out.push('*');
                i += 1;
                assert(before + rest =~= out@ + glob_regex_from(g@, i as int));
            }
        } else if c == '?' {
            out.push('[');
            out.push('^');
            out.push('/');
            out.push(']');
            i += 1;
            assert(before + rest =~= out@ + glob_regex_from(g@, i as int));
        } else {
            let mut one: Vec<char> = Vec::new();
            one.push(c);
            assert(one@ =~= seq![c]);
            let quoted = escape(from_chars(&one).as_str());
            push_all(&mut out, &to_chars(quoted.as_str()));
            i += 1;
            assert(before + rest =~= out@ + glob_regex_from(g@, i as int));
        }
    }
    out.push('$');
    assert(out@ =~= glob_regex(g@));
    from_chars(&out)
}

/// A glob pattern on paths below the root matches the asset.
pub open spec fn glob_matches(pattern: Seq<char>, root: Seq<char>, asset: Seq<char>) -> bool {
    found(glob_regex(pattern), slashed(relative(root, asset))).len() > 0
}

/// The glob import `l` matches the asset.
pub open spec fn glob_hits(root: Seq<char>, files: Seq<Seq<char>>, l: LiteralView, asset: Seq<char>) -> bool {
    0 <= l.file < files.len() && match glob_rel_pattern(root, files[l.file], normalized(l.body)) {
        Some(p) => glob_matches(p, root, asset),
        None => false,
    }
}

/// Some glob import of the source files matches the asset.
pub open spec fn globbed_asset(tree: &ProjectTree, files: Seq<Seq<char>>, asset: Seq<char>) -> bool {
    let globs = scanned_files(Scan::Globs, tree, files, files.len() as int);
    exists|x: int| 0 <= x < globs.len() && glob_hits(tree.root@, files, #[trigger] globs[x], asset)
}

/// The assets that glob imports of the source files match, one mark for
/// each asset.
pub fn resolve_assets_from_import_meta_globs(
    tree: &ProjectTree,
    source_files: &Vec<String>,
    assets: &Vec<String>,
) -> (out: Vec<bool>)
    ensures
        out@.len() == assets@.len(),
        forall|a: int|
            0 <= a < assets@.len() ==> (#[trigger] out@[a] <==> globbed_asset(
                tree,
                texts(source_files@),
                assets@[a]@,
            )),
{
    let globs = scan_files(Scan::Globs, tree, source_files);
    let ghost all = literal_views(globs@);
    let ghost files = texts(source_files@);
    let root = to_chars(tree.root.as_str());
    let mut out = unmarked(assets.len());
    let mut n: usize = 0;
    while n < globs.len()
        invariant
            n <= globs@.len(),
            all == literal_views(globs@),
            files == texts(source_files@),
            root@ == tree.root@,
            out@.len() == assets@.len(),
            forall|x: int|
                0 <= x < globs@.len() ==> (#[trigger] globs@[x]).file < source_files@.len(),
            forall|a: int|
                0 <= a < assets@.len() ==> (#[trigger] out@[a] <==> exists|x: int|
                    0 <= x < n && glob_hits(tree.root@, files, #[trigger] all[x], assets@[a]@)),
        decreases globs.len() - n,
    {
        let ghost start = out@;
        assert(all[n as int] == globs@[n as int]@);
        let l = &globs[n];
        assert(files[l.file as int] == source_files@[l.file as int]@);
        let named = from_chars(&normalize_chars(&to_chars(l.body.as_str())));
        let pattern = resolve_glob_specifier_to_rel_pattern(
            tree.root.as_str(),
            source_files[l.file].as_str(),
            named.as_str(),
        );
        match pattern {
            Some(p) => {
                let regex = glob_path_pattern_to_regex(p.as_str());
                let mut a: usize = 0;
                while a < assets.len()
                    invariant
                        a <= assets@.len(),
                        out@.len() == assets@.len(),
                        root@ == tree.root@,
                        regex@ == glob_regex(p@),
                        forall|b: int|
                            0 <= b < a ==> (#[trigger] out@[b] <==> (start[b] || glob_matches(
                                p@,
                                tree.root@,
                                assets@[b]@,
                            ))),
                        forall|b: int| a <= b < assets@.len() ==> #[trigger] out@[b] == start[b],
                    decreases assets.len() - a,
                {
                    let ghost before = out@;
                    let rel = to_forward_slashes(
                        &relative_chars(&root, &to_chars(assets[a].as_str())),
                    );
                    let hit = find_all(regex.as_str(), from_chars(&rel).as_str()).len() > 0;
                    assert(hit == glob_matches(p@, tree.root@, assets@[a as int]@));
                    if hit {
                        out.set(a, true);
                    }
                    assert forall|b: int| 0 <= b < a + 1 implies (#[trigger] out@[b] <==> (start[b]
                        || glob_matches(p@, tree.root@, assets@[b]@))) by {
                        if b < a {
                            assert(out@[b] == before[b]);
                        }
                    }
                    assert forall|b: int| a + 1 <= b < assets@.len() implies #[trigger] out@[b]
                        == start[b] by {
                        assert(out@[b] == before[b]);
                    }
                    a += 1;
                }
            },
            None => {},
        }
        proof {
            assert forall|a: int| 0 <= a < assets@.len() implies (#[trigger] out@[a] <==> exists|
                x: int,
            |
                0 <= x < n + 1 && glob_hits(tree.root@, files, #[trigger] all[x], assets@[a]@)) by {
                assert(out@[a] <==> (start[a] || glob_hits(
                    tree.root@,
                    files,
                    all[n as int],
                    assets@[a]@,
                )));
                if start[a] {
                    let x = choose|x: int|
                        0 <= x < n && glob_hits(tree.root@, files, #[trigger] all[x], assets@[a]@);
                    assert(0 <= x < n + 1 && glob_hits(tree.root@, files, all[x], assets@[a]@));
                }
                if exists|x: int|
                    0 <= x < n + 1 && glob_hits(tree.root@, files, #[trigger] all[x], assets@[a]@) {
                    let x = choose|x: int|
                        0 <= x < n + 1 && glob_hits(
                            tree.root@,
                            files,
                            #[trigger] all[x],
                            assets@[a]@,
                        );
                    if x < n {
                        assert(start[a]);
                    }
                }
            }
        }
        n += 1;
    }
    out
}

/// What may follow an asset's path where it is imported.
pub open spec fn query_suffixes() -> Seq<&'static str> {
    seq!["?react", "?url", "?raw", "?inline", "?component"]
}

/// The ways to spell an asset's path: below the root, with and without a
/// leading `/`; below `src`, also after `@/` and `~/`; below `public`; and the
/// file name alone.
pub open spec fn base_references(root: Seq<char>, asset: Seq<char>) -> Seq<Seq<char>> {
    let rel = slashed(relative(root, asset));
    seq![rel, "/"@ + rel] + (match without_prefix(rel, "src/"@) {
        Some(rest) => seq![rest, "/"@ + rest, "@/"@ + rest, "~/"@ + rest],
        None => Seq::empty(),
    }) + (match without_prefix(rel, "public/"@) {
        Some(rest) => seq![rest, "/"@ + rest],
        None => Seq::empty(),
    }) + entry(Some(file_name(asset)))
}

/// Each of the first `n` spellings followed by each query suffix.
pub open spec fn suffixed_to(base: Seq<Seq<char>>, n: int) -> Seq<Seq<char>>
    decreases n,
{
    if n <= 0 || n > base.len() {
        Seq::empty()
    } else {
        suffixed_to(base, n - 1) + Seq::new(
            query_suffixes().len(),
            |k: int| base[n - 1] + query_suffixes()[k]@,
        )
    }
}

/// Every text that stands for the asset where a source file names it: its
/// spellings, and each followed by each query suffix; none twice.
pub open spec fn reference_candidates(root: Seq<char>, asset: Seq<char>) -> Seq<Seq<char>> {
    let base = base_references(root, asset);
    distinct(base + suffixed_to(base, base.len() as int))
}

fn push_chars(out: &mut Vec<String>, text: &Vec<char>)
    ensures
        texts(final(out)@) == texts(old(out)@).push(text@),
{
    let ghost before = texts(out@);
    out.push(from_chars(text));
    assert(texts(out@) =~= before.push(text@));
}

fn dedup(list: &Vec<String>) -> (out: Vec<String>)
    ensures
        texts(out@) == distinct(texts(list@)),
{
    let mut out: Vec<String> = Vec::new();
    let mut i: usize = 0;
    assert(texts(out@) =~= distinct_to(texts(list@), 0));
    while i < list.len()
        invariant
            i <= list.len(),
            texts(out@) == distinct_to(texts(list@), i as int),
        decreases list.len() - i,
    {
        assert(texts(list@)[i as int] == list@[i as int]@);
        push_unique(&mut out, list[i].clone());
        i += 1;
    }
    out
}

/// Every text that stands for an asset where a source file names it.
pub fn asset_reference_candidates(root: &str, asset: &str) -> (out: Vec<String>)
    ensures
        texts(out@) == reference_candidates(root@, asset@),
{
    let path = to_chars(asset);
    let rel = to_forward_slashes(&relative_chars(&to_chars(root), &path));
    let slash = to_chars("/");
    let mut list: Vec<String> = Vec::new();
    assert(texts(list@) =~= Seq::<Seq<char>>::empty());
    push_chars(&mut list, &rel);
    push_chars(&mut list, &concat(&slash, &rel));
    match strip_prefix(&rel, "src/") {
        Some(rest) => {
            push_chars(&mut list, &rest);
            push_chars(&mut list, &concat(&slash, &rest));
            push_chars(&mut list, &concat(&to_chars("@/"), &rest));
            push_chars(&mut list, &concat(&to_chars("~/"), &rest));
        },
        None => {},
    }
    match strip_prefix(&rel, "public/") {
        Some(rest) => {
            push_chars(&mut list, &rest);
            push_chars(&mut list, &concat(&slash, &rest));
        },
        None => {},
    }
    let name = path_file_name(&path);
    if name.len() > 0 {
        push_chars(&mut list, &name);
    }
    assert(texts(list@) =~= base_references(root@, asset@));
    let ghost base = texts(list@);
    let count = list.len();
    let suffixes = ["?react", "?url", "?raw", "?inline", "?component"];
    assert(suffixes@ =~= query_suffixes());
    let mut n: usize = 0;
    assert(texts(list@) =~= base + suffixed_to(base, 0));
    while n < count
        invariant
            n <= count,
            count == base.len(),
            suffixes@ == query_suffixes(),
            texts(list@) == base + suffixed_to(base, n as int),
        decreases count - n,
    {
        let ghost start = texts(list@);
        let ghost five = Seq::new(
            query_suffixes().len(),
            |k: int| base[n as int] + query_suffixes()[k]@,
        );
        assert(texts(list@).len() == list@.len());
        assert((base + suffixed_to(base, n as int)).len() >= base.len());
        assert(texts(list@)[n as int] == base[n as int]);
        assert(texts(list@)[n as int] == list@[n as int]@);
        let stem = to_chars(list[n].as_str());
        let mut k: usize = 0;
        assert(texts(list@) =~= start + five.take(0));
        while k < suffixes.len()
            invariant
                k <= suffixes.len(),
                suffixes@ == query_suffixes(),
                stem@ == base[n as int],
                five == Seq::new(
                    query_suffixes().len(),
                    |k: int| base[n as int] + query_suffixes()[k]@,
                ),
                texts(list@) == start + five.take(k as int),
            decreases suffixes.len() - k,
        {
            let ghost before = texts(list@);
            let full = concat(&stem, &to_chars(suffixes[k]));
            push_chars(&mut list, &full);
            assert(start + five.take(k + 1) =~= (start + five.take(k as int)).push(five[k as int]));
            k += 1;
        }
        assert(five.take(suffixes@.len() as int) =~= five);
        assert(base + suffixed_to(base, n as int) + five =~= base + suffixed_to(base, n + 1));
        n += 1;
    }
    dedup(&list)
}

/// Some string literal of the source files spells a text that stands for the
/// asset.
pub open spec fn referenced_asset(tree: &ProjectTree, files: Seq<Seq<char>>, asset: Seq<char>) -> bool {
    let cands = reference_candidates(tree.root@, asset);
    let lits = scanned_files(Scan::Literals, tree, files, files.len() as int);
    exists|k: int| 0 <= k < cands.len() && in_pool(lits, #[trigger] cands[k])
}

/// Asset `a` is used: it lies under a `public` directory, a string literal
/// names it as an import or spells its path, or a glob import matches it.
pub open spec fn used_asset(
    tree: &ProjectTree,
    files: Seq<Seq<char>>,
    assets: Seq<Seq<char>>,
    a: int,
) -> bool {
    ||| public_asset(assets[a])
    ||| imported_asset(tree, files, assets, a)
    ||| globbed_asset(tree, files, assets[a])
    ||| referenced_asset(tree, files, assets[a])
}

#[verifier::loop_isolation(false)]
fn any_in_pool(cands: &Vec<String>, pool: &Vec<String>) -> (r: bool)
    ensures
        r == exists|k: int| 0 <= k < cands@.len() && texts(pool@).contains(#[trigger] texts(cands@)[k]),
{
    let mut k: usize = 0;
    while k < cands.len()
        invariant
            k <= cands.len(),
            forall|x: int| 0 <= x < k ==> !texts(pool@).contains(#[trigger] texts(cands@)[x]),
        decreases cands.len() - k,
    {
        assert(texts(cands@)[k as int] == cands@[k as int]@);
        if has_text(pool, &cands[k]) {
            return true;
        }
        k += 1;
    }
    false
}

/// The assets that the source files use, one mark for each asset.
pub fn collect_used_assets(tree: &ProjectTree, source_files: &Vec<String>, assets: &Vec<String>) -> (out:
    Vec<bool>)
    ensures
        out@.len() == assets@.len(),
        forall|a: int|
            0 <= a < assets@.len() ==> (#[trigger] out@[a] <==> used_asset(
                tree,
                texts(source_files@),
                texts(assets@),
                a,
            )),
{
    let pool = collect_string_literals(tree, source_files);
    let imported = resolve_assets_from_source_imports(tree, source_files, assets);
    let globbed = resolve_assets_from_import_meta_globs(tree, source_files, assets);
    let ghost files = texts(source_files@);
    let ghost lits = scanned_files(Scan::Literals, tree, files, files.len() as int);
    let mut out: Vec<bool> = Vec::new();
    let mut a: usize = 0;
    while a < assets.len()
        invariant
            a <= assets@.len(),
            out@.len() == a,
            files == texts(source_files@),
            lits == scanned_files(Scan::Literals, tree, files, files.len() as int),
            imported@.len() == assets@.len(),
            globbed@.len() == assets@.len(),
            forall|s: Seq<char>| #[trigger] texts(pool@).contains(s) <==> in_pool(lits, s),
            forall|b: int|
                0 <= b < assets@.len() ==> (#[trigger] imported@[b] <==> imported_asset(
                    tree,
                    files,
                    texts(assets@),
                    b,
                )),
            forall|b: int|
                0 <= b < assets@.len() ==> (#[trigger] globbed@[b] <==> globbed_asset(
                    tree,
                    files,
                    assets@[b]@,
                )),
            forall|b: int|
                0 <= b < a ==> (#[trigger] out@[b] <==> used_asset(tree, files, texts(assets@), b)),
        decreases assets.len() - a,
    {
        let ghost before = out@;
        assert(texts(assets@)[a as int] == assets@[a as int]@);
        let asset = assets[a].as_str();
        let cands = asset_reference_candidates(tree.root.as_str(), asset);
        let referenced = any_in_pool(&cands, &pool);
        proof {
            let c = reference_candidates(tree.root@, assets@[a as int]@);
            assert(texts(cands@) == c);
            if referenced {
                let k = choose|k: int|
                    0 <= k < cands@.len() && texts(pool@).contains(#[trigger] texts(cands@)[k]);
                assert(in_pool(lits, c[k]));
            }
            if referenced_asset(tree, files, assets@[a as int]@) {
                let k = choose|k: int| 0 <= k < c.len() && in_pool(lits, #[trigger] c[k]);
                assert(texts(pool@).contains(texts(cands@)[k]));
            }
            assert(referenced == referenced_asset(tree, files, assets@[a as int]@));
        }
        let used = is_public_asset(asset) || imported[a] || globbed[a] || referenced;
        out.push(used);
        assert forall|b: int| 0 <= b < a + 1 implies (#[trigger] out@[b] <==> used_asset(
            tree,
            files,
            texts(assets@),
            b,
        )) by {
            if b < a {
                assert(out@[b] == before[b]);
            }
        }
        a += 1;
    }
    out
}

/// The roots among the first `n` that the caller gave, each in the form of a
/// path below the project root, empty ones left out.
pub open spec fn roots_to(asset_roots: Seq<Seq<char>>, n: int) -> Seq<Seq<char>>
    decreases n,
{
    if n <= 0 || n > asset_roots.len() {
        Seq::empty()
    } else {
        roots_to(asset_roots, n - 1) + entry(Some(asset_root(asset_roots[n - 1])))
    }
}

/// The path is one of the roots or lies below one.
pub open spec fn under_root(rel: Seq<char>, roots: Seq<Seq<char>>) -> bool {
    exists|k: int|
        0 <= k < roots.len() && (rel == #[trigger] roots[k] || starts(rel, roots[k] + "/"@))
}

/// Those of the first `n` assets that are a root or lie below one.
pub open spec fn kept_to(root: Seq<char>, assets: Seq<Seq<char>>, roots: Seq<Seq<char>>, n: int) -> Seq<
    Seq<char>,
>
    decreases n,
{
    if n <= 0 || n > assets.len() {
        Seq::empty()
    } else if under_root(slashed(relative(root, assets[n - 1])), roots) {
        kept_to(root, assets, roots, n - 1).push(assets[n - 1])
    } else {
        kept_to(root, assets, roots, n - 1)
    }
}

/// The assets that lie under the roots that the caller gave; all of them
/// where the caller gave none that is not empty.
pub open spec fn filtered_assets(
    root: Seq<char>,
    assets: Seq<Seq<char>>,
    asset_roots: Seq<Seq<char>>,
) -> Seq<Seq<char>> {
    let roots = roots_to(asset_roots, asset_roots.len() as int);
    if roots.len() == 0 {
        assets
    } else {
        kept_to(root, assets, roots, assets.len() as int)
    }
}

#[verifier::loop_isolation(false)]
fn is_under_root(rel: &Vec<char>, roots: &Vec<String>) -> (r: bool)
    ensures
        r == under_root(rel@, texts(roots@)),
{
    let mut k: usize = 0;
    while k < roots.len()
        invariant
            k <= roots.len(),
            forall|x: int|
                0 <= x < k ==> !(rel@ == #[trigger] texts(roots@)[x] || starts(
                    rel@,
                    texts(roots@)[x] + "/"@,
                )),
        decreases roots.len() - k,
    {
        assert(texts(roots@)[k as int] == roots@[k as int]@);
        let prefix = to_chars(roots[k].as_str());
        if equal(rel, &prefix) || occurs(rel, &concat(&prefix, &to_chars("/")), 0) {
            return true;
        }
        k += 1;
    }
    false
}

/// The assets that lie under the roots that the caller gave.
pub fn filter_assets_by_roots(root: &str, assets: &Vec<String>, asset_roots: &Vec<String>) -> (out:
    Vec<String>)
    ensures
        texts(out@) == filtered_assets(root@, texts(assets@), texts(asset_roots@)),
{
    let mut roots: Vec<String> = Vec::new();
    let mut i: usize = 0;
    assert(texts(roots@) =~= roots_to(texts(asset_roots@), 0));
    while i < asset_roots.len()
        invariant
            i <= asset_roots.len(),
            texts(roots@) == roots_to(texts(asset_roots@), i as int),
        decreases asset_roots.len() - i,
    {
        let ghost before = texts(roots@);
        assert(texts(asset_roots@)[i as int] == asset_roots@[i as int]@);
        let r = normalize_asset_root(asset_roots[i].as_str());
        if to_chars(r.as_str()).len() > 0 {
            roots.push(r);
            assert(texts(roots@) =~= before + seq![r@]);
        } else {
            assert(texts(roots@) =~= before + Seq::<Seq<char>>::empty());
        }
        i += 1;
    }
    if roots.len() == 0 {
        return clone_texts(assets);
    }
    let base = to_chars(root);
    let mut out: Vec<String> = Vec::new();
    let mut n: usize = 0;
    assert(texts(out@) =~= kept_to(root@, texts(assets@), texts(roots@), 0));
    while n < assets.len()
        invariant
            n <= assets.len(),
            base@ == root@,
            texts(out@) == kept_to(root@, texts(assets@), texts(roots@), n as int),
        decreases assets.len() - n,
    {
        let ghost before = texts(out@);
        assert(texts(assets@)[n as int] == assets@[n as int]@);
        let rel = to_forward_slashes(&relative_chars(&base, &to_chars(assets[n].as_str())));
        if is_under_root(&rel, &roots) {
            out.push(assets[n].clone());
            assert(texts(out@) =~= before.push(assets@[n as int]@));
        }
        n += 1;
    }
    out
}

} // verus!
