//! What holds of every analysis.

use crate::analysis::{
    Analysis, everything, import_gaps, module_gaps, parsed, project_tokens, Survey,
    unknown_targets,
};
use crate::assets::{kept_to, roots_to, under_root};
use crate::config::{built, lemma_built_keeps};
use crate::entries::entry_file;
use crate::findings::{Evidence, export_pairs};
use crate::graph::{
    distinct_imports, imports_file, lemma_reachable_step, may_name, maybe_used, reachable,
    target_of, unresolved_views, UnresolvedView, uses_package,
};
use crate::manifest::{dependency_views, DependencyView, DepKind};
use crate::marks::{holds, lemma_lists_marked_unique, lists_marked, marked};
use crate::order::{
    ascending, lemma_sorted, lemma_sorted_pairs, lemma_with_text, no_repeats, sorted, with_text,
};
use crate::parser::{
    ImportView, lemma_exports_filled, module_views, ModuleView, source_matches,
};
use crate::paths::{
    asset_file, below, canonical, file_name, join, local_extensions, parent, relative,
    source_extensions,
};
use crate::report::{
    entries_shown, idle_asset, idle_assets, idle_dependencies_to, idle_dependency, idle_file,
    idle_files, Options, Report, shown_sorted, shown_to, warning_views,
};
use crate::resolver::{
    alias_find, alias_path, AliasView, base_find, candidate, candidate_file, expansion,
    lemma_first_known, lemma_located_among_places, ResolverView, some_known,
};
use crate::specifier::{
    alias_capture, alias_target, lemma_alias_captures_substitution, normalized, relative_specifier,
    rooted_specifier,
};
use crate::stripper::stripped;
use crate::text::{cut_char, has_char, slashed, starts, texts};
use crate::tokens::{
    appears_elsewhere, count_of, files_with, holds_token, lemma_files_with_bound, lemma_single_file,
    tokens_of,
};
use crate::tree::{absent_to, assets_to, ProjectTree, sources_to, walked_asset, walked_source};
use crate::usage::Taken;
use vstd::prelude::*;

verus! {

/// What a rule or a base directory finds is an index into what is known.
pub proof fn lemma_candidate_bounds(raw: Seq<char>, exts: Seq<&'static str>, known: Seq<Seq<char>>)
    ensures
        match candidate(raw, exts, known) {
            Some(at) => 0 <= at < known.len(),
            None => true,
        },
{
    lemma_first_known(expansion(canonical(raw), exts), known, 0);
}

pub proof fn lemma_alias_find_bounds(
    rules: Seq<AliasView>,
    s: Seq<char>,
    exts: Seq<&'static str>,
    known: Seq<Seq<char>>,
    i: int,
)
    requires
        0 <= i,
    ensures
        match alias_find(rules, s, exts, known, i) {
            Some(at) => 0 <= at < known.len(),
            None => true,
        },
    decreases rules.len() - i,
{
    if i < rules.len() {
        match alias_path(rules[i], s) {
            Some(p) => {
                lemma_candidate_bounds(p, exts, known);
            },
            None => {},
        }
        lemma_alias_find_bounds(rules, s, exts, known, i + 1);
    }
}

pub proof fn lemma_base_find_bounds(
    bases: Seq<Seq<char>>,
    s: Seq<char>,
    exts: Seq<&'static str>,
    known: Seq<Seq<char>>,
    i: int,
)
    requires
        0 <= i,
    ensures
        match base_find(bases, s, exts, known, i) {
            Some(at) => 0 <= at < known.len(),
            None => true,
        },
    decreases bases.len() - i,
{
    if i < bases.len() {
        lemma_candidate_bounds(join(bases[i], s), exts, known);
        lemma_base_find_bounds(bases, s, exts, known, i + 1);
    }
}

/// What a specifier resolves to is one of the known files.
pub proof fn lemma_located_bounds(
    r: ResolverView,
    from: Seq<char>,
    specifier: Seq<char>,
    exts: Seq<&'static str>,
    known: Seq<Seq<char>>,
)
    ensures
        match r.located(from, specifier, exts, known) {
            Some(at) => 0 <= at < known.len(),
            None => true,
        },
{
    let s = normalized(specifier);
    if s.len() > 0 {
        if relative_specifier(s) {
            match parent(from) {
                Some(dir) => {
                    lemma_candidate_bounds(join(dir, s), exts, known);
                },
                None => {},
            }
        } else if rooted_specifier(s) {
            lemma_candidate_bounds(join(r.root, s.skip(1)), exts, known);
        } else {
            lemma_alias_find_bounds(r.alias_rules, s, exts, known, 0);
            lemma_base_find_bounds(r.base_dirs, s, exts, known, 0);
        }
    }
}

/// Reachability is closed under resolvable imports: where the marks are
/// those of the reachable files, and an import of a marked file resolves to a
/// file, that file is marked too.
pub proof fn law_reachability_closure(
    r: ResolverView,
    modules: Seq<ModuleView>,
    entries: Seq<usize>,
    marks: Seq<bool>,
    i: int,
    k: int,
    j: int,
)
    requires
        marks.len() == r.files.len(),
        forall|x: int| 0 <= x < marks.len() ==> (#[trigger] marks[x] <==> reachable(r, modules, entries, x)),
        marked(marks, i),
        target_of(r, modules, i, k) == Some(j),
    ensures
        marked(marks, j),
{
    assert(imports_file(r, modules, i, j));
    lemma_reachable_step(r, modules, entries, i, j);
    lemma_located_bounds(
        r,
        r.files[i],
        modules[i].imports[k].specifier,
        source_extensions(),
        r.files,
    );
}

/// Rules before `i` that match `s` lead to nothing known.
pub open spec fn earlier_rules_fail(
    rules: Seq<AliasView>,
    s: Seq<char>,
    exts: Seq<&'static str>,
    known: Seq<Seq<char>>,
    i: int,
) -> bool {
    forall|k: int|
        0 <= k < i ==> match alias_path(#[trigger] rules[k], s) {
            Some(p) => candidate(p, exts, known) is None,
            None => true,
        }
}

proof fn lemma_alias_find_skips(
    rules: Seq<AliasView>,
    s: Seq<char>,
    exts: Seq<&'static str>,
    known: Seq<Seq<char>>,
    i: int,
    from: int,
)
    requires
        0 <= from <= i <= rules.len(),
        earlier_rules_fail(rules, s, exts, known, i),
    ensures
        alias_find(rules, s, exts, known, from) == alias_find(rules, s, exts, known, i),
    decreases i - from,
{
    if from < i {
        assert(match alias_path(rules[from], s) {
            Some(p) => candidate(p, exts, known) is None,
            None => true,
        });
        lemma_alias_find_skips(rules, s, exts, known, i, from + 1);
    }
}

/// Alias round trip: a specifier made of what precedes the `*` of a rule's
/// key, any text, and what follows the `*` resolves to the file that the rule's
/// target names with that text for its `*`, where there is such a file.
///
/// This holds of a specifier that is not empty, in normal form, neither
/// relative nor rooted, and that no earlier rule leads to a file.
pub proof fn law_alias_round_trip(r: ResolverView, from: Seq<char>, i: int, middle: Seq<char>)
    requires
        0 <= i < r.alias_rules.len(),
        has_char(r.alias_rules[i].key, '*'),
        ({
            let rule = r.alias_rules[i];
            let parts = cut_char(rule.key, '*')->0;
            let s = parts.0 + middle + parts.1;
            &&& s.len() > 0
            &&& normalized(s) == s
            &&& !relative_specifier(s)
            &&& !rooted_specifier(s)
            &&& earlier_rules_fail(r.alias_rules, s, source_extensions(), r.files, i)
            &&& candidate_file(join(rule.base_dir, alias_target(rule.target, middle)), r.files) is Some
        }),
    ensures
        ({
            let rule = r.alias_rules[i];
            let parts = cut_char(rule.key, '*')->0;
            let s = parts.0 + middle + parts.1;
            &&& alias_capture(rule.key, s) == Some(middle)
            &&& r.resolved(from, s) == candidate_file(
                join(rule.base_dir, alias_target(rule.target, middle)),
                r.files,
            )
        }),
{
    let rule = r.alias_rules[i];
    let parts = cut_char(rule.key, '*')->0;
    let s = parts.0 + middle + parts.1;
    let exts = source_extensions();
    lemma_alias_captures_substitution(rule.key, middle);
    lemma_alias_find_skips(r.alias_rules, s, exts, r.files, i, 0);
    assert(alias_path(rule, s) == Some(join(rule.base_dir, alias_target(rule.target, middle))));
    let target = candidate_file(join(rule.base_dir, alias_target(rule.target, middle)), r.files);
    assert(alias_find(r.alias_rules, s, exts, r.files, i) == target);
    lemma_candidate_bounds(join(rule.base_dir, alias_target(rule.target, middle)), exts, r.files);
}

/// A list with one more entry holds what it held, and that entry.
pub proof fn lemma_push_contains<T>(list: Seq<T>, y: T, x: T)
    ensures
        list.push(y).contains(x) <==> (list.contains(x) || x == y),
{
    let longer = list.push(y);
    if list.contains(x) {
        let i = choose|i: int| 0 <= i < list.len() && list[i] == x;
        assert(longer[i] == x);
    }
    if x == y {
        assert(longer[list.len() as int] == x);
    }
    if longer.contains(x) {
        let i = choose|i: int| 0 <= i < longer.len() && longer[i] == x;
        if i < list.len() {
            assert(list[i] == x);
        }
    }
}

/// Two lists joined hold what either holds.
pub proof fn lemma_concat_contains<T>(a: Seq<T>, b: Seq<T>, x: T)
    ensures
        (a + b).contains(x) <==> (a.contains(x) || b.contains(x)),
{
    let both = a + b;
    if a.contains(x) {
        let i = choose|i: int| 0 <= i < a.len() && a[i] == x;
        assert(both[i] == x);
    }
    if b.contains(x) {
        let i = choose|i: int| 0 <= i < b.len() && b[i] == x;
        assert(both[a.len() + i] == x);
    }
    if both.contains(x) {
        let i = choose|i: int| 0 <= i < both.len() && both[i] == x;
        if i < a.len() {
            assert(a[i] == x);
        } else {
            assert(b[i - a.len()] == x);
        }
    }
}

/// What is shown of the first `n` paths are the marked ones, as they lie
/// below the root.
pub proof fn lemma_shown_to(
    root: Seq<char>,
    paths: Seq<Seq<char>>,
    marks: Seq<bool>,
    n: int,
    x: Seq<char>,
)
    requires
        0 <= n <= paths.len(),
    ensures
        shown_to(root, paths, marks, n).contains(x) <==> exists|j: int|
            0 <= j < n && marked(marks, j) && relative(root, #[trigger] paths[j]) == x,
    decreases n,
{
    if n > 0 {
        lemma_shown_to(root, paths, marks, n - 1, x);
        let prior = shown_to(root, paths, marks, n - 1);
        if marked(marks, n - 1) {
            lemma_push_contains(prior, relative(root, paths[n - 1]), x);
        }
        if prior.contains(x) {
            let j = choose|j: int|
                0 <= j < n - 1 && marked(marks, j) && relative(root, #[trigger] paths[j]) == x;
            assert(0 <= j < n && marked(marks, j) && relative(root, paths[j]) == x);
        }
        if exists|j: int| 0 <= j < n && marked(marks, j) && relative(root, #[trigger] paths[j]) == x {
            let j = choose|j: int|
                0 <= j < n && marked(marks, j) && relative(root, #[trigger] paths[j]) == x;
            if j < n - 1 {
                assert(prior.contains(x));
            }
        }
    }
}

/// What the sorted list shows are the marked paths, as they lie below the root.
pub proof fn lemma_shown_sorted(root: Seq<char>, paths: Seq<Seq<char>>, marks: Seq<bool>, x: Seq<char>)
    ensures
        shown_sorted(root, paths, marks).contains(x) <==> exists|j: int|
            0 <= j < paths.len() && marked(marks, j) && relative(root, #[trigger] paths[j]) == x,
{
    lemma_sorted(shown_to(root, paths, marks, paths.len() as int));
    lemma_shown_to(root, paths, marks, paths.len() as int, x);
}

/// Confidence monotonicity: where no import is unresolved, no reachable
/// file imports a file that the report calls unused.
pub proof fn law_confidence_monotonicity(
    a: &Analysis,
    tree: &ProjectTree,
    options: &Options,
    x: Seq<char>,
)
    requires
        a.describes(tree, options),
        a.survey.high_confidence(),
        texts(a.report.unused_files@).contains(x),
    ensures
        exists|j: int|
            0 <= j < a.survey.files@.len() && relative(tree.root@, #[trigger] texts(a.survey.files@)[j])
                == x && !a.survey.reachable@[j] && forall|i: int, k: int|
                marked(a.survey.reachable@, i) ==> #[trigger] target_of(
                    a.survey.resolver@,
                    module_views(a.survey.modules@),
                    i,
                    k,
                ) != Some(j),
{
    let s = &a.survey;
    let files = texts(s.files@);
    let marks = idle_files(files, s.reachable@);
    lemma_shown_sorted(tree.root@, files, marks, x);
    let j = choose|j: int|
        0 <= j < files.len() && marked(marks, j) && relative(tree.root@, #[trigger] files[j]) == x;
    assert(idle_file(files, s.reachable@, j));
    lemma_built_keeps(tree, files);
    assert forall|i: int, k: int| marked(s.reachable@, i) implies #[trigger] target_of(
        s.resolver@,
        module_views(s.modules@),
        i,
        k,
    ) != Some(j) by {
        if target_of(s.resolver@, module_views(s.modules@), i, k) == Some(j) {
            law_reachability_closure(
                s.resolver@,
                module_views(s.modules@),
                s.entries@,
                s.reachable@,
                i,
                k,
                j,
            );
        }
    }
    assert(0 <= j < a.survey.files@.len() && relative(tree.root@, texts(a.survey.files@)[j]) == x);
}

/// Distinct assets are shown differently.
pub open spec fn shown_apart(root: Seq<char>, assets: Seq<Seq<char>>) -> bool {
    forall|p: int, q: int|
        0 <= p < q < assets.len() ==> relative(root, #[trigger] assets[p]) != relative(
            root,
            #[trigger] assets[q],
        )
}

/// Two assets below the root that are shown alike are one asset.
pub proof fn lemma_shown_alike(root: Seq<char>, p: Seq<char>, q: Seq<char>)
    requires
        below(root, p) is Some,
        below(root, q) == below(root, p),
        asset_file(p),
        asset_file(q),
    ensures
        p == q,
{
    let x = below(root, p)->0;
    let sep = root + seq!['/'];
    assert forall|t: Seq<char>| t == sep implies !asset_file(t) by {
        assert(t[t.len() - 1] == '/');
        assert(file_name(t) =~= Seq::<char>::empty());
    }
    if p == root {
        if q != root {
            if root.len() > 0 && root.last() == '/' && starts(q, root) {
                assert(q =~= root + q.skip(root.len() as int));
                assert(q =~= root);
            } else {
                assert(q.subrange(0, sep.len() as int) == sep);
                assert(q =~= sep + q.skip(root.len() as int + 1));
                assert(q =~= sep);
            }
        }
    } else if q == root {
        if root.len() > 0 && root.last() == '/' && starts(p, root) {
            assert(p =~= root + p.skip(root.len() as int));
            assert(p =~= root);
        } else {
            assert(p.subrange(0, sep.len() as int) == sep);
            assert(p =~= sep + p.skip(root.len() as int + 1));
            assert(p =~= sep);
        }
    } else if root.len() > 0 && root.last() == '/' && starts(p, root) {
        assert(starts(q, root)) by {
            if !starts(q, root) {
                assert(q.subrange(0, sep.len() as int) == sep);
                assert(q.subrange(0, root.len() as int) =~= sep.subrange(0, root.len() as int));
                assert(sep.subrange(0, root.len() as int) =~= root);
            }
        }
        assert(p =~= root + x);
        assert(q =~= root + x);
    } else {
        assert(!(root.len() > 0 && root.last() == '/' && starts(q, root))) by {
            if root.len() > 0 && root.last() == '/' {
                assert(p.subrange(0, sep.len() as int) == sep);
                assert(p.subrange(0, root.len() as int) =~= sep.subrange(0, root.len() as int));
                assert(sep.subrange(0, root.len() as int) =~= root);
            }
        }
        assert(p.subrange(0, sep.len() as int) == sep);
        assert(q.subrange(0, sep.len() as int) == sep);
        assert(p =~= sep + x);
        assert(q =~= sep + x);
    }
}

/// Where a path lies below the root, it is shown by what follows the root.
pub proof fn lemma_relative_below(root: Seq<char>, p: Seq<char>)
    requires
        below(root, p) is Some,
    ensures
        relative(root, p) == below(root, p)->0,
{
}

/// No asset stands twice among the assets of a project.
pub proof fn lemma_assets_once(root: Seq<char>, paths: Seq<Seq<char>>, n: int)
    requires
        0 <= n <= paths.len(),
    ensures
        no_repeats(assets_to(root, paths, n)),
    decreases n,
{
    if n > 0 {
        lemma_assets_once(root, paths, n - 1);
        if walked_asset(root, paths[n - 1]) {
            lemma_with_text(assets_to(root, paths, n - 1), paths[n - 1]);
        }
    }
}

/// The assets that are kept stand in the order in which they stood, each
/// before the `n`th asset.
pub proof fn lemma_kept_in_order(
    root: Seq<char>,
    assets: Seq<Seq<char>>,
    roots: Seq<Seq<char>>,
    n: int,
)
    requires
        0 <= n <= assets.len(),
        no_repeats(assets),
    ensures
        no_repeats(kept_to(root, assets, roots, n)),
        forall|k: int|
            0 <= k < kept_to(root, assets, roots, n).len() ==> exists|j: int|
                0 <= j < n && assets[j] == #[trigger] kept_to(root, assets, roots, n)[k],
    decreases n,
{
    if n > 0 {
        lemma_kept_in_order(root, assets, roots, n - 1);
        let prior = kept_to(root, assets, roots, n - 1);
        let now = kept_to(root, assets, roots, n);
        if under_root(slashed(relative(root, assets[n - 1])), roots) {
            assert(now == prior.push(assets[n - 1]));
            assert forall|a: int, b: int| 0 <= a < b < now.len() implies #[trigger] now[a]
                != #[trigger] now[b] by {
                if b == prior.len() {
                    let j = choose|j: int| 0 <= j < n - 1 && assets[j] == prior[a];
                    assert(assets[j] != assets[n - 1]);
                } else {
                    assert(prior[a] != prior[b]);
                }
            }
            assert forall|k: int| 0 <= k < now.len() implies exists|j: int|
                0 <= j < n && assets[j] == #[trigger] now[k] by {
                if k < prior.len() {
                    let j = choose|j: int| 0 <= j < n - 1 && assets[j] == prior[k];
                    assert(0 <= j < n && assets[j] == now[k]);
                } else {
                    assert(assets[n - 1] == now[k]);
                }
            }
        } else {
            assert forall|k: int| 0 <= k < now.len() implies exists|j: int|
                0 <= j < n && assets[j] == #[trigger] now[k] by {
                let j = choose|j: int| 0 <= j < n - 1 && assets[j] == prior[k];
                assert(0 <= j < n && assets[j] == now[k]);
            }
        }
    }
}

/// Distinct assets of a survey are shown differently.
pub proof fn lemma_assets_shown_apart(s: &Survey, tree: &ProjectTree, options: &Options)
    requires
        s.describes(tree, options),
    ensures
        shown_apart(tree.root@, texts(s.assets@)),
{
    let root = tree.root@;
    let paths = tree.paths();
    let all = assets_to(root, paths, paths.len() as int);
    let assets = texts(s.assets@);
    let roots = roots_to(texts(options.asset_roots@), options.asset_roots@.len() as int);
    assert(texts(options.asset_roots@).len() == options.asset_roots@.len());
    lemma_assets_once(root, paths, paths.len() as int);
    lemma_kept_in_order(root, all, roots, all.len() as int);
    assert(no_repeats(assets));
    assert forall|k: int| 0 <= k < assets.len() implies all.contains(#[trigger] assets[k]) by {
        if roots.len() != 0 {
            let j = choose|j: int| 0 <= j < all.len() && all[j] == assets[k];
            assert(all[j] == assets[k]);
        } else {
            assert(all[k] == assets[k]);
        }
    }
    assert forall|p: int, q: int| 0 <= p < q < assets.len() implies relative(
        root,
        #[trigger] assets[p],
    ) != relative(root, #[trigger] assets[q]) by {
        assert(all.contains(assets[p]));
        assert(all.contains(assets[q]));
        lemma_assets_are_paths(root, paths, paths.len() as int, assets[p]);
        lemma_assets_are_paths(root, paths, paths.len() as int, assets[q]);
        let i = choose|i: int| 0 <= i < paths.len() && paths[i] == assets[p];
        let j = choose|j: int| 0 <= j < paths.len() && paths[j] == assets[q];
        assert(below(root, paths[i]) is Some);
        assert(below(root, paths[j]) is Some);
        lemma_relative_below(root, assets[p]);
        lemma_relative_below(root, assets[q]);
        if relative(root, assets[p]) == relative(root, assets[q]) {
            lemma_shown_alike(root, assets[p], assets[q]);
            assert(assets[p] != assets[q]);
        }
    }
}

/// Usage disjointness: no asset is reported both as used and as unused;
/// what is reported as either is an asset of the project; and both lists are
/// ascending, so that none holds a path twice.
pub proof fn law_usage_disjointness(a: &Analysis, tree: &ProjectTree, options: &Options, x: Seq<char>)
    requires
        a.describes(tree, options),
    ensures
        !(texts(a.report.used_assets@).contains(x) && texts(a.report.unused_assets@).contains(x)),
        texts(a.report.used_assets@).contains(x) || texts(a.report.unused_assets@).contains(x)
            ==> exists|k: int|
            0 <= k < a.survey.assets@.len() && relative(
                tree.root@,
                #[trigger] texts(a.survey.assets@)[k],
            ) == x,
        ascending(texts(a.report.used_assets@)),
        ascending(texts(a.report.unused_assets@)),
{
    let assets = texts(a.survey.assets@);
    lemma_assets_shown_apart(&a.survey, tree, options);
    match a.risky {
        Some(f) => {
            let used = f.used_assets@;
            let idle = idle_assets(assets, used);
            lemma_sorted(shown_to(tree.root@, assets, used, assets.len() as int));
            lemma_sorted(shown_to(tree.root@, assets, idle, assets.len() as int));
            lemma_shown_sorted(tree.root@, assets, used, x);
            lemma_shown_sorted(tree.root@, assets, idle, x);
            if texts(a.report.used_assets@).contains(x) && texts(a.report.unused_assets@).contains(x) {
                let p = choose|p: int|
                    0 <= p < assets.len() && marked(used, p) && relative(
                        tree.root@,
                        #[trigger] assets[p],
                    ) == x;
                let q = choose|q: int|
                    0 <= q < assets.len() && marked(idle, q) && relative(
                        tree.root@,
                        #[trigger] assets[q],
                    ) == x;
                assert(idle_asset(assets, used, q));
                if p < q {
                    assert(relative(tree.root@, assets[p]) != relative(tree.root@, assets[q]));
                } else if q < p {
                    assert(relative(tree.root@, assets[q]) != relative(tree.root@, assets[p]));
                }
                assert(false);
            }
            if texts(a.report.used_assets@).contains(x) {
                let p = choose|p: int|
                    0 <= p < assets.len() && marked(used, p) && relative(
                        tree.root@,
                        #[trigger] assets[p],
                    ) == x;
                assert(0 <= p < a.survey.assets@.len() && relative(tree.root@, assets[p]) == x);
            }
            if texts(a.report.unused_assets@).contains(x) {
                let q = choose|q: int|
                    0 <= q < assets.len() && marked(idle, q) && relative(
                        tree.root@,
                        #[trigger] assets[q],
                    ) == x;
                assert(0 <= q < a.survey.assets@.len() && relative(tree.root@, assets[q]) == x);
            }
        },
        None => {
            assert(texts(a.report.used_assets@).len() == 0);
            assert(texts(a.report.unused_assets@).len() == 0);
        },
    }
}

/// The names of the first `n` dependencies that count as unused.
pub proof fn lemma_idle_dependencies_to(
    declared: Seq<DependencyView>,
    used: Seq<Seq<char>>,
    include_non_prod: bool,
    n: int,
    x: Seq<char>,
)
    requires
        0 <= n <= declared.len(),
    ensures
        idle_dependencies_to(declared, used, include_non_prod, n).contains(x) <==> exists|i: int|
            0 <= i < n && idle_dependency(#[trigger] declared[i], used, include_non_prod)
                && declared[i].name == x,
    decreases n,
{
    if n > 0 {
        lemma_idle_dependencies_to(declared, used, include_non_prod, n - 1, x);
        let prior = idle_dependencies_to(declared, used, include_non_prod, n - 1);
        if idle_dependency(declared[n - 1], used, include_non_prod) {
            lemma_push_contains(prior, declared[n - 1].name, x);
        }
        if prior.contains(x) {
            let i = choose|i: int|
                0 <= i < n - 1 && idle_dependency(#[trigger] declared[i], used, include_non_prod)
                    && declared[i].name == x;
            assert(0 <= i < n && idle_dependency(declared[i], used, include_non_prod));
        }
        if exists|i: int|
            0 <= i < n && idle_dependency(#[trigger] declared[i], used, include_non_prod)
                && declared[i].name == x {
            let i = choose|i: int|
                0 <= i < n && idle_dependency(#[trigger] declared[i], used, include_non_prod)
                    && declared[i].name == x;
            if i < n - 1 {
                assert(prior.contains(x));
            }
        }
    }
}

/// Dependency attribution: what the report calls an unused dependency is
/// declared, of a kind that was asked about, and not the package of any
/// import of a reachable module that names a package.
pub proof fn law_dependency_attribution(
    a: &Analysis,
    tree: &ProjectTree,
    options: &Options,
    x: Seq<char>,
)
    requires
        a.describes(tree, options),
        texts(a.report.unused_dependencies@).contains(x),
    ensures
        exists|i: int|
            0 <= i < a.survey.declared@.len() && (#[trigger] dependency_views(
                a.survey.declared@,
            )[i]).name == x && (options.include_non_prod_deps || dependency_views(
                a.survey.declared@,
            )[i].kind == DepKind::Prod),
        !uses_package(
            a.survey.resolver@,
            module_views(a.survey.modules@),
            a.survey.reachable@,
            x,
        ),
{
    let s = &a.survey;
    let declared = dependency_views(s.declared@);
    let used = texts(s.used_packages@);
    lemma_sorted(
        idle_dependencies_to(declared, used, options.include_non_prod_deps, declared.len() as int),
    );
    lemma_idle_dependencies_to(
        declared,
        used,
        options.include_non_prod_deps,
        declared.len() as int,
        x,
    );
    let i = choose|i: int|
        0 <= i < declared.len() && idle_dependency(
            #[trigger] declared[i],
            used,
            options.include_non_prod_deps,
        ) && declared[i].name == x;
    assert(0 <= i < a.survey.declared@.len() && declared[i].name == x);
    assert(!used.contains(x));
}

/// The findings among the first `n` named exports of a module are exports
/// of it that are not suppressed and that nothing takes by name.
pub proof fn lemma_named_unused(ev: Evidence, j: int, n: int, pair: (Seq<char>, Seq<char>))
    requires
        0 <= n <= ev.modules[j].exports.len(),
        ev.named_unused(j, n).contains(pair),
    ensures
        pair.0 == ev.shown(j),
        exists|k: int|
            0 <= k < n && #[trigger] ev.modules[j].exports[k] == pair.1 && !ev.suppressed(j, pair.1)
                && !ev.uses(j, Taken::Name(pair.1)),
    decreases n,
{
    if n > 0 {
        let prior = ev.named_unused(j, n - 1);
        let name = ev.modules[j].exports[n - 1];
        if !ev.suppressed(j, name) && !ev.uses(j, Taken::Name(name)) {
            lemma_push_contains(prior, (ev.shown(j), name), pair);
        }
        if prior.contains(pair) {
            lemma_named_unused(ev, j, n - 1, pair);
            let k = choose|k: int|
                0 <= k < n - 1 && #[trigger] ev.modules[j].exports[k] == pair.1 && !ev.suppressed(
                    j,
                    pair.1,
                ) && !ev.uses(j, Taken::Name(pair.1));
            assert(0 <= k < n && ev.modules[j].exports[k] == pair.1);
        } else {
            assert(ev.modules[j].exports[n - 1] == pair.1);
        }
    }
}

/// A finding is one of a module whose exports are judged one by one: its
/// default export that nothing takes, or a named export that is not suppressed
/// and that nothing takes by name.
pub open spec fn finding_of(ev: Evidence, j: int, pair: (Seq<char>, Seq<char>)) -> bool {
    &&& ev.examined(j)
    &&& pair.0 == ev.shown(j)
    &&& ((ev.default_unused(j) && pair.1 == "default"@) || exists|k: int|
        0 <= k < ev.modules[j].exports.len() && #[trigger] ev.modules[j].exports[k] == pair.1
            && !ev.suppressed(j, pair.1) && !ev.uses(j, Taken::Name(pair.1)))
}

pub proof fn lemma_unused_to(ev: Evidence, m: int, pair: (Seq<char>, Seq<char>))
    requires
        0 <= m <= ev.modules.len(),
        ev.unused_to(m).contains(pair),
    ensures
        exists|j: int| 0 <= j < m && #[trigger] finding_of(ev, j, pair),
    decreases m,
{
    if m > 0 {
        let prior = ev.unused_to(m - 1);
        let here = ev.module_unused(m - 1);
        lemma_concat_contains(prior, here, pair);
        if prior.contains(pair) {
            lemma_unused_to(ev, m - 1, pair);
            let j = choose|j: int| 0 <= j < m - 1 && #[trigger] finding_of(ev, j, pair);
            assert(0 <= j < m && finding_of(ev, j, pair));
        } else {
            let j = m - 1;
            assert(ev.examined(j));
            let named = ev.named_unused(j, ev.modules[j].exports.len() as int);
            let last: Seq<(Seq<char>, Seq<char>)> = if ev.default_unused(j) {
                seq![(ev.shown(j), "default"@)]
            } else {
                Seq::empty()
            };
            lemma_concat_contains(named, last, pair);
            if named.contains(pair) {
                lemma_named_unused(ev, j, ev.modules[j].exports.len() as int, pair);
            } else {
                assert(last.contains(pair));
                assert(last[0] == pair);
            }
            assert(finding_of(ev, j, pair));
        }
    }
}

/// Export suppression: where the report calls a named export unused, the
/// export is one of a module of the project, and its name stands as a token in
/// no other file, if it stands in the module itself.
pub proof fn law_export_suppression(
    a: &Analysis,
    tree: &ProjectTree,
    options: &Options,
    pair: (Seq<char>, Seq<char>),
)
    requires
        a.describes(tree, options),
        export_pairs(a.report.unused_exports@).contains(pair),
        pair.1 != "default"@,
    ensures
        exists|j: int|
            0 <= j < a.survey.files@.len() && relative(tree.root@, #[trigger] texts(a.survey.files@)[j])
                == pair.0 && module_views(a.survey.modules@)[j].exports.contains(pair.1) && (
            tokens_of(tree.text_of(texts(a.survey.files@)[j])).contains(pair.1) ==> forall|g: int|
                0 <= g < a.survey.files@.len() && g != j ==> !tokens_of(
                    tree.text_of(#[trigger] texts(a.survey.files@)[g]),
                ).contains(pair.1)),
{
    let s = &a.survey;
    let files = texts(s.files@);
    let modules = module_views(s.modules@);
    assert(a.risky is Some) by {
        if a.risky is None {
            assert(export_pairs(a.report.unused_exports@).len() == 0);
        }
    }
    let f = a.risky->0;
    let ev = f.evidence(tree, s);
    let m = modules.len() as int;
    lemma_sorted_pairs(ev.unused_to(m));
    lemma_unused_to(ev, m, pair);
    let j = choose|j: int| 0 <= j < m && #[trigger] finding_of(ev, j, pair);
    assert(ev.judged(j));
    let k = choose|k: int|
        0 <= k < ev.modules[j].exports.len() && #[trigger] ev.modules[j].exports[k] == pair.1
            && !ev.suppressed(j, pair.1) && !ev.uses(j, Taken::Name(pair.1));
    let name = pair.1;
    assert(modules[j].exports[k] == name);
    assert(modules[j] == parsed(tree, files[j]));
    lemma_exports_filled(source_matches(stripped(tree.text_of(files[j]))));
    assert(name.len() > 0);
    let tokens = project_tokens(tree, files);
    let n = files.len() as int;
    let count = files_with(everything(files.len()), tokens, name, n);
    assert(count_of(f.project_counts@, name) == count);
    assert(!appears_elsewhere(name, count, files.len(), 0 <= j < files.len()));
    if tokens_of(tree.text_of(files[j])).contains(name) {
        assert(holds_token(everything(files.len()), tokens, name, j));
        lemma_files_with_bound(everything(files.len()), tokens, name, n);
        assert(count == 1);
        assert forall|g: int| 0 <= g < a.survey.files@.len() && g != j implies !tokens_of(
            tree.text_of(#[trigger] texts(a.survey.files@)[g]),
        ).contains(name) by {
            lemma_single_file(everything(files.len()), tokens, name, n, j, g);
            assert(!holds_token(everything(files.len()), tokens, name, g));
            assert(tokens[g] == tokens_of(tree.text_of(files[g])));
        }
    }
    assert(0 <= j < a.survey.files@.len() && relative(tree.root@, texts(a.survey.files@)[j])
        == pair.0);
}

/// A list with one more text, unless it holds it, holds what it held, and
/// that text.
pub proof fn lemma_with_text_contains(list: Seq<Seq<char>>, y: Seq<char>, x: Seq<char>)
    ensures
        with_text(list, y).contains(x) <==> (list.contains(x) || x == y),
{
    if !list.contains(y) {
        lemma_push_contains(list, y, x);
    }
}

/// The modules of a project are files of it.
pub proof fn lemma_sources_are_paths(root: Seq<char>, paths: Seq<Seq<char>>, n: int, x: Seq<char>)
    requires
        0 <= n <= paths.len(),
        sources_to(root, paths, n).contains(x),
    ensures
        paths.contains(x),
        walked_source(root, x),
    decreases n,
{
    if n > 0 {
        if walked_source(root, paths[n - 1]) {
            lemma_with_text_contains(sources_to(root, paths, n - 1), paths[n - 1], x);
        }
        if sources_to(root, paths, n - 1).contains(x) {
            lemma_sources_are_paths(root, paths, n - 1, x);
        } else {
            assert(paths[n - 1] == x);
        }
    }
}

/// The assets of a project are files of it.
pub proof fn lemma_assets_are_paths(root: Seq<char>, paths: Seq<Seq<char>>, n: int, x: Seq<char>)
    requires
        0 <= n <= paths.len(),
        assets_to(root, paths, n).contains(x),
    ensures
        paths.contains(x),
        walked_asset(root, x),
    decreases n,
{
    if n > 0 {
        if walked_asset(root, paths[n - 1]) {
            lemma_with_text_contains(assets_to(root, paths, n - 1), paths[n - 1], x);
        }
        if assets_to(root, paths, n - 1).contains(x) {
            lemma_assets_are_paths(root, paths, n - 1, x);
        } else {
            assert(paths[n - 1] == x);
        }
    }
}

pub proof fn lemma_kept_are_assets(
    root: Seq<char>,
    assets: Seq<Seq<char>>,
    roots: Seq<Seq<char>>,
    n: int,
    x: Seq<char>,
)
    requires
        0 <= n <= assets.len(),
        kept_to(root, assets, roots, n).contains(x),
    ensures
        assets.contains(x),
    decreases n,
{
    if n > 0 {
        let prior = kept_to(root, assets, roots, n - 1);
        if under_root(slashed(relative(root, assets[n - 1])), roots) {
            lemma_push_contains(prior, assets[n - 1], x);
        }
        if prior.contains(x) {
            lemma_kept_are_assets(root, assets, roots, n - 1, x);
        } else {
            assert(assets[n - 1] == x);
        }
    }
}

/// The entries that a report shows are files of the survey.
pub proof fn lemma_entries_shown(
    root: Seq<char>,
    files: Seq<Seq<char>>,
    entries: Seq<usize>,
    n: int,
    x: Seq<char>,
)
    requires
        0 <= n <= entries.len(),
        entries_shown(root, files, entries, n).contains(x),
    ensures
        exists|j: int| 0 <= j < files.len() && relative(root, #[trigger] files[j]) == x,
    decreases n,
{
    if n > 0 {
        let prior = entries_shown(root, files, entries, n - 1);
        if entries[n - 1] < files.len() {
            lemma_push_contains(prior, relative(root, files[entries[n - 1] as int]), x);
        }
        if prior.contains(x) {
            lemma_entries_shown(root, files, entries, n - 1, x);
        } else {
            let j = entries[n - 1] as int;
            assert(relative(root, files[j]) == x);
        }
    }
}

/// What an import names exists exactly where one of the places at which it
/// is looked for is among the paths that exist.
pub proof fn law_places_decide_existence(
    r: ResolverView,
    from: Seq<char>,
    specifier: Seq<char>,
    existing: Seq<Seq<char>>,
)
    ensures
        r.exists_locally(from, specifier, existing) <==> some_known(
            r.local_places(from, specifier),
            existing,
        ),
{
    lemma_located_among_places(r, from, specifier, local_extensions(), existing);
}

/// A place at which the tree holds nothing is among the absent ones.
pub proof fn lemma_absent_to(tree: &ProjectTree, places: Seq<Seq<char>>, n: int, k: int)
    requires
        0 <= k < n <= places.len(),
        !tree.existing().contains(places[k]),
    ensures
        absent_to(tree, places, n).contains(places[k]),
    decreases n,
{
    let prior = absent_to(tree, places, n - 1);
    if k < n - 1 {
        lemma_absent_to(tree, places, n - 1, k);
    }
    if !tree.existing().contains(places[n - 1]) {
        lemma_push_contains(prior, places[n - 1], places[k]);
    }
}

proof fn lemma_import_gaps(
    tree: &ProjectTree,
    r: ResolverView,
    from: Seq<char>,
    imports: Seq<ImportView>,
    n: int,
    k: int,
    x: Seq<char>,
)
    requires
        0 <= k < n <= imports.len(),
        r.likely_local(imports[k].specifier),
        r.local_places(from, imports[k].specifier).contains(x),
        !tree.existing().contains(x),
    ensures
        import_gaps(tree, r, from, imports, n).contains(x),
    decreases n,
{
    let prior = import_gaps(tree, r, from, imports, n - 1);
    if k < n - 1 {
        lemma_import_gaps(tree, r, from, imports, n - 1, k, x);
    }
    if r.likely_local(imports[n - 1].specifier) {
        let places = r.local_places(from, imports[n - 1].specifier);
        if k == n - 1 {
            let at = choose|at: int| 0 <= at < places.len() && places[at] == x;
            lemma_absent_to(tree, places, places.len() as int, at);
        }
        lemma_concat_contains(prior, absent_to(tree, places, places.len() as int), x);
    }
}

proof fn lemma_module_gaps(
    tree: &ProjectTree,
    r: ResolverView,
    files: Seq<Seq<char>>,
    n: int,
    i: int,
    k: int,
    x: Seq<char>,
)
    requires
        0 <= i < n <= files.len(),
        0 <= k < parsed(tree, files[i]).imports.len(),
        r.likely_local(parsed(tree, files[i]).imports[k].specifier),
        r.local_places(files[i], parsed(tree, files[i]).imports[k].specifier).contains(x),
        !tree.existing().contains(x),
    ensures
        module_gaps(tree, r, files, n).contains(x),
    decreases n,
{
    let prior = module_gaps(tree, r, files, n - 1);
    let imports = parsed(tree, files[n - 1]).imports;
    if i < n - 1 {
        lemma_module_gaps(tree, r, files, n - 1, i, k, x);
    } else {
        lemma_import_gaps(tree, r, files[i], imports, imports.len() as int, k, x);
    }
    lemma_concat_contains(
        prior,
        import_gaps(tree, r, files[n - 1], imports, imports.len() as int),
        x,
    );
}

/// Every place at which an import of a module of the project is looked for
/// is known to the tree or is among the unknown targets. So where a tree has
/// no unknown targets, or nothing stands at any of them, no import is called
/// unresolved for want of a path that the tree was never asked about.
pub proof fn law_import_places_are_covered(tree: &ProjectTree, i: int, k: int, x: Seq<char>)
    requires
        0 <= i < sources_to(tree.root@, tree.paths(), tree.paths().len() as int).len(),
        0 <= k < parsed(
            tree,
            sources_to(tree.root@, tree.paths(), tree.paths().len() as int)[i],
        ).imports.len(),
        ({
            let files = sources_to(tree.root@, tree.paths(), tree.paths().len() as int);
            let r = built(tree, files);
            let specifier = parsed(tree, files[i]).imports[k].specifier;
            r.likely_local(specifier) && r.local_places(files[i], specifier).contains(x)
        }),
    ensures
        tree.existing().contains(x) || unknown_targets(tree).contains(x),
{
    let files = sources_to(tree.root@, tree.paths(), tree.paths().len() as int);
    if !tree.existing().contains(x) {
        lemma_module_gaps(tree, built(tree, files), files, files.len() as int, i, k, x);
    }
}

/// `x` is the path of a file of the project, without the root and the
/// separator after it.
pub open spec fn lies_below_root(tree: &ProjectTree, x: Seq<char>) -> bool {
    exists|p: int| 0 <= p < tree.paths().len() && below(tree.root@, #[trigger] tree.paths()[p]) == Some(x)
}

/// The report shows `x` as a file: as an entry, an unused file, an asset, or
/// the file of an unused export.
pub open spec fn shows_path(report: &Report, x: Seq<char>) -> bool {
    ||| texts(report.entries@).contains(x)
    ||| texts(report.unused_files@).contains(x)
    ||| texts(report.used_assets@).contains(x)
    ||| texts(report.unused_assets@).contains(x)
    ||| exists|k: int|
        0 <= k < report.unused_exports@.len() && (#[trigger] export_pairs(report.unused_exports@)[k]).0
            == x
}

/// Path normalization: every path that a report shows is that of a file of
/// the project as it lies below the root.
pub proof fn law_paths_are_relative(a: &Analysis, tree: &ProjectTree, options: &Options, x: Seq<char>)
    requires
        a.describes(tree, options),
        shows_path(&a.report, x),
    ensures
        lies_below_root(tree, x),
{
    let s = &a.survey;
    let root = tree.root@;
    let paths = tree.paths();
    let files = texts(s.files@);
    let assets = texts(s.assets@);
    let all_assets = assets_to(root, paths, paths.len() as int);
    assert forall|j: int| 0 <= j < files.len() implies lies_below_root(
        tree,
        relative(root, #[trigger] files[j]),
    ) by {
        assert(files.contains(files[j]));
        lemma_sources_are_paths(root, paths, paths.len() as int, files[j]);
        let p = choose|p: int| 0 <= p < paths.len() && paths[p] == files[j];
        assert(below(root, paths[p]) is Some);
    }
    assert forall|k: int| 0 <= k < assets.len() implies lies_below_root(
        tree,
        relative(root, #[trigger] assets[k]),
    ) by {
        assert(assets.contains(assets[k]));
        let roots = roots_to(texts(options.asset_roots@), options.asset_roots@.len() as int);
        assert(texts(options.asset_roots@).len() == options.asset_roots@.len());
        if roots.len() != 0 {
            lemma_kept_are_assets(root, all_assets, roots, all_assets.len() as int, assets[k]);
        }
        lemma_assets_are_paths(root, paths, paths.len() as int, assets[k]);
        let p = choose|p: int| 0 <= p < paths.len() && paths[p] == assets[k];
        assert(below(root, paths[p]) is Some);
    }
    if texts(a.report.entries@).contains(x) {
        lemma_sorted(entries_shown(root, files, s.entries@, s.entries@.len() as int));
        lemma_entries_shown(root, files, s.entries@, s.entries@.len() as int, x);
        let j = choose|j: int| 0 <= j < files.len() && relative(root, #[trigger] files[j]) == x;
        assert(lies_below_root(tree, relative(root, files[j])));
    } else {
        match a.risky {
            Some(f) => {
                if texts(a.report.unused_files@).contains(x) {
                    let marks = idle_files(files, s.reachable@);
                    lemma_shown_sorted(root, files, marks, x);
                    let j = choose|j: int|
                        0 <= j < files.len() && marked(marks, j) && relative(
                            root,
                            #[trigger] files[j],
                        ) == x;
                    assert(lies_below_root(tree, relative(root, files[j])));
                } else if texts(a.report.used_assets@).contains(x) {
                    lemma_shown_sorted(root, assets, f.used_assets@, x);
                    let k = choose|k: int|
                        0 <= k < assets.len() && marked(f.used_assets@, k) && relative(
                            root,
                            #[trigger] assets[k],
                        ) == x;
                    assert(lies_below_root(tree, relative(root, assets[k])));
                } else if texts(a.report.unused_assets@).contains(x) {
                    let marks = idle_assets(assets, f.used_assets@);
                    lemma_shown_sorted(root, assets, marks, x);
                    let k = choose|k: int|
                        0 <= k < assets.len() && marked(marks, k) && relative(
                            root,
                            #[trigger] assets[k],
                        ) == x;
                    assert(lies_below_root(tree, relative(root, assets[k])));
                } else {
                    let pairs = export_pairs(a.report.unused_exports@);
                    let k = choose|k: int|
                        0 <= k < a.report.unused_exports@.len() && (#[trigger] pairs[k]).0 == x;
                    let pair = pairs[k];
                    assert(pairs.contains(pair));
                    let ev = f.evidence(tree, s);
                    let m = module_views(s.modules@).len() as int;
                    lemma_sorted_pairs(ev.unused_to(m));
                    lemma_unused_to(ev, m, pair);
                    let j = choose|j: int| 0 <= j < m && #[trigger] finding_of(ev, j, pair);
                    assert(ev.judged(j));
                    assert(lies_below_root(tree, relative(root, files[j])));
                }
            },
            None => {
                assert(texts(a.report.unused_files@).len() == 0);
                assert(texts(a.report.used_assets@).len() == 0);
                assert(texts(a.report.unused_assets@).len() == 0);
                assert(export_pairs(a.report.unused_exports@).len() == 0);
            },
        }
    }
}

/// Two lists without repeats that hold the same are equally long.
pub proof fn lemma_same_length(a: Seq<UnresolvedView>, b: Seq<UnresolvedView>)
    requires
        distinct_imports(a),
        distinct_imports(b),
        forall|u: UnresolvedView| a.contains(u) <==> b.contains(u),
    ensures
        a.len() == b.len(),
{
    assert(a.no_duplicates()) by {
        assert forall|i: int, j: int| 0 <= i < a.len() && 0 <= j < a.len() && i != j implies a[i]
            != a[j] by {
            if i < j {
                assert(a[i] != a[j]);
            } else {
                assert(a[j] != a[i]);
            }
        }
    }
    assert(b.no_duplicates()) by {
        assert forall|i: int, j: int| 0 <= i < b.len() && 0 <= j < b.len() && i != j implies b[i]
            != b[j] by {
            if i < j {
                assert(b[i] != b[j]);
            } else {
                assert(b[j] != b[i]);
            }
        }
    }
    a.unique_seq_to_set();
    b.unique_seq_to_set();
    assert(a.to_set() =~= b.to_set()) by {
        assert forall|u: UnresolvedView| a.to_set().contains(u) <==> b.to_set().contains(u) by {
            assert(a.to_set().contains(u) <==> a.contains(u));
            assert(b.to_set().contains(u) <==> b.contains(u));
        }
    }
}

/// Which files unresolved imports may have meant depends only on which
/// imports are unresolved.
pub proof fn lemma_maybe_used_same(
    root: Seq<char>,
    a: Seq<UnresolvedView>,
    b: Seq<UnresolvedView>,
    file: Seq<char>,
)
    requires
        forall|u: UnresolvedView| a.contains(u) ==> b.contains(u),
        maybe_used(root, a, file),
    ensures
        maybe_used(root, b, file),
{
    let x = choose|x: int| 0 <= x < a.len() && may_name(root, (#[trigger] a[x]).specifier, file);
    assert(a.contains(a[x]));
    let y = choose|y: int| 0 <= y < b.len() && b[y] == a[x];
    assert(may_name(root, b[y].specifier, file));
}

/// Which dependencies count as unused depends only on which packages are used.
pub proof fn lemma_idle_dependencies_same(
    declared: Seq<DependencyView>,
    a: Seq<Seq<char>>,
    b: Seq<Seq<char>>,
    include_non_prod: bool,
    n: int,
)
    requires
        forall|x: Seq<char>| a.contains(x) <==> b.contains(x),
    ensures
        idle_dependencies_to(declared, a, include_non_prod, n) == idle_dependencies_to(
            declared,
            b,
            include_non_prod,
            n,
        ),
    decreases n,
{
    if 0 < n <= declared.len() {
        lemma_idle_dependencies_same(declared, a, b, include_non_prod, n - 1);
        assert(a.contains(declared[n - 1].name) <==> b.contains(declared[n - 1].name));
    }
}

/// Two bodies of evidence say the same of every module and every name.
pub open spec fn evidence_agrees(x: Evidence, y: Evidence) -> bool {
    &&& x.root == y.root
    &&& x.files == y.files
    &&& x.modules == y.modules
    &&& x.entries == y.entries
    &&& x.reachable == y.reachable
    &&& x.maybe_used == y.maybe_used
    &&& forall|j: int, what: Taken| #[trigger] x.uses(j, what) == y.uses(j, what)
    &&& forall|t: Seq<char>| #[trigger]
        count_of(x.reachable_counts, t) == count_of(y.reachable_counts, t)
    &&& forall|t: Seq<char>| #[trigger] count_of(x.project_counts, t) == count_of(y.project_counts, t)
}

proof fn lemma_evidence_module(x: Evidence, y: Evidence, j: int, n: int)
    requires
        evidence_agrees(x, y),
    ensures
        x.named_unused(j, n) == y.named_unused(j, n),
        x.named_suppressed(j, n) == y.named_suppressed(j, n),
    decreases n,
{
    if 0 < n <= x.modules[j].exports.len() {
        lemma_evidence_module(x, y, j, n - 1);
        let name = x.modules[j].exports[n - 1];
        assert(x.uses(j, Taken::Name(name)) == y.uses(j, Taken::Name(name)));
        assert(count_of(x.reachable_counts, name) == count_of(y.reachable_counts, name));
        assert(count_of(x.project_counts, name) == count_of(y.project_counts, name));
    }
}

/// Evidence that says the same gives the same findings.
pub proof fn lemma_evidence_findings(x: Evidence, y: Evidence, m: int)
    requires
        evidence_agrees(x, y),
    ensures
        x.unused_to(m) == y.unused_to(m),
        x.suppressed_to(m) == y.suppressed_to(m),
        x.forwarding_to(m) == y.forwarding_to(m),
    decreases m,
{
    if 0 < m <= x.modules.len() {
        lemma_evidence_findings(x, y, m - 1);
        let j = m - 1;
        assert(x.uses(j, Taken::Whole) == y.uses(j, Taken::Whole));
        assert(x.uses(j, Taken::Default) == y.uses(j, Taken::Default));
        lemma_evidence_module(x, y, j, x.modules[j].exports.len() as int);
    }
}

/// Two surveys of one project hold the same.
pub open spec fn same_survey(x: &Survey, y: &Survey) -> bool {
    &&& texts(x.files@) == texts(y.files@)
    &&& texts(x.assets@) == texts(y.assets@)
    &&& x.resolver@ == y.resolver@
    &&& module_views(x.modules@) == module_views(y.modules@)
    &&& x.entries@ == y.entries@
    &&& x.reachable@ == y.reachable@
    &&& x.unresolved@.len() == y.unresolved@.len()
    &&& forall|u: UnresolvedView|
        unresolved_views(x.unresolved@).contains(u) <==> unresolved_views(y.unresolved@).contains(u)
    &&& x.maybe_used@ == y.maybe_used@
    &&& forall|name: Seq<char>|
        texts(x.used_packages@).contains(name) <==> texts(y.used_packages@).contains(name)
    &&& dependency_views(x.declared@) == dependency_views(y.declared@)
}

/// The survey of a project is fixed by the project and the options.
pub proof fn lemma_surveys_agree(x: &Survey, y: &Survey, tree: &ProjectTree, options: &Options)
    requires
        x.describes(tree, options),
        y.describes(tree, options),
    ensures
        same_survey(x, y),
{
    let files = texts(x.files@);
    let n = files.len();
    assert(texts(y.files@).len() == y.files@.len());
    assert(files.len() == x.files@.len());
    let mx = module_views(x.modules@);
    let my = module_views(y.modules@);
    assert(mx =~= my) by {
        assert forall|i: int| 0 <= i < mx.len() implies mx[i] == my[i] by {
            assert(mx[i] == parsed(tree, files[i]));
            assert(my[i] == parsed(tree, files[i]));
        }
    }
    let marks = Seq::new(n, |i: int| entry_file(tree, files, texts(options.entries@), i));
    assert(lists_marked(x.entries@, marks)) by {
        assert forall|k: int| 0 <= k < x.entries@.len() implies marked(
            marks,
            #[trigger] x.entries@[k] as int,
        ) by {
            assert(holds(x.entries@, x.entries@[k] as int));
        }
    }
    assert(lists_marked(y.entries@, marks)) by {
        assert forall|k: int| 0 <= k < y.entries@.len() implies marked(
            marks,
            #[trigger] y.entries@[k] as int,
        ) by {
            assert(holds(y.entries@, y.entries@[k] as int));
        }
    }
    lemma_lists_marked_unique(x.entries@, y.entries@, marks);
    assert(x.reachable@ =~= y.reachable@);
    let ux = unresolved_views(x.unresolved@);
    let uy = unresolved_views(y.unresolved@);
    assert forall|u: UnresolvedView| ux.contains(u) <==> uy.contains(u) by {}
    lemma_same_length(ux, uy);
    assert(x.maybe_used@ =~= y.maybe_used@) by {
        assert forall|j: int| 0 <= j < n implies x.maybe_used@[j] == y.maybe_used@[j] by {
            if maybe_used(tree.root@, ux, files[j]) {
                lemma_maybe_used_same(tree.root@, ux, uy, files[j]);
            }
            if maybe_used(tree.root@, uy, files[j]) {
                lemma_maybe_used_same(tree.root@, uy, ux, files[j]);
            }
        }
    }
}

/// Two reports say the same.
pub open spec fn same_report(x: &Report, y: &Report) -> bool {
    &&& x.root@ == y.root@
    &&& x.summary == y.summary
    &&& texts(x.entries@) == texts(y.entries@)
    &&& warning_views(x.warnings@) == warning_views(y.warnings@)
    &&& texts(x.unused_files@) == texts(y.unused_files@)
    &&& texts(x.used_assets@) == texts(y.used_assets@)
    &&& texts(x.unused_assets@) == texts(y.unused_assets@)
    &&& texts(x.unused_dependencies@) == texts(y.unused_dependencies@)
    &&& export_pairs(x.unused_exports@) == export_pairs(y.unused_exports@)
}

/// Idempotence: two analyses of one project, for the same options, give
/// reports that say the same.
pub proof fn law_idempotence(x: &Analysis, y: &Analysis, tree: &ProjectTree, options: &Options)
    requires
        x.describes(tree, options),
        y.describes(tree, options),
    ensures
        same_report(&x.report, &y.report),
{
    let sx = &x.survey;
    let sy = &y.survey;
    lemma_surveys_agree(sx, sy, tree, options);
    let files = texts(sx.files@);
    let assets = texts(sx.assets@);
    let declared = dependency_views(sx.declared@);
    lemma_idle_dependencies_same(
        declared,
        texts(sx.used_packages@),
        texts(sy.used_packages@),
        options.include_non_prod_deps,
        declared.len() as int,
    );
    assert(sx.files@.len() == files.len() && sy.files@.len() == texts(sy.files@).len());
    assert(sx.assets@.len() == assets.len() && sy.assets@.len() == texts(sy.assets@).len());
    let rx = &x.report;
    let ry = &y.report;
    assert(rx.unused_dependencies@.len() == texts(rx.unused_dependencies@).len());
    assert(ry.unused_dependencies@.len() == texts(ry.unused_dependencies@).len());
    assert(rx.unused_files@.len() == texts(rx.unused_files@).len());
    assert(ry.unused_files@.len() == texts(ry.unused_files@).len());
    assert(rx.unused_assets@.len() == texts(rx.unused_assets@).len());
    assert(ry.unused_assets@.len() == texts(ry.unused_assets@).len());
    assert(rx.used_assets@.len() == texts(rx.used_assets@).len());
    assert(ry.used_assets@.len() == texts(ry.used_assets@).len());
    assert(rx.unused_exports@.len() == export_pairs(rx.unused_exports@).len());
    assert(ry.unused_exports@.len() == export_pairs(ry.unused_exports@).len());
    match (x.risky, y.risky) {
        (Some(fx), Some(fy)) => {
            let ex = fx.evidence(tree, sx);
            let ey = fy.evidence(tree, sy);
            assert(fx.used_assets@ =~= fy.used_assets@);
            assert(evidence_agrees(ex, ey)) by {
                assert forall|j: int, what: Taken| #[trigger]
                    ex.uses(j, what) == ey.uses(j, what) by {
                    if 0 <= j < fx.usage@.len() {
                        assert(fx.usage@[j].has(what) == fy.usage@[j].has(what));
                    }
                }
            }
            let m = module_views(sx.modules@).len() as int;
            lemma_evidence_findings(ex, ey, m);
            assert(fx.exports.suppressed@.len() == export_pairs(fx.exports.suppressed@).len());
            assert(fy.exports.suppressed@.len() == export_pairs(fy.exports.suppressed@).len());
            assert(texts(rx.unused_files@) == texts(ry.unused_files@));
            assert(texts(rx.used_assets@) == texts(ry.used_assets@));
            assert(texts(rx.unused_assets@) == texts(ry.unused_assets@));
            assert(export_pairs(rx.unused_exports@) == export_pairs(ry.unused_exports@));
            assert(warning_views(rx.warnings@) == warning_views(ry.warnings@));
        },
        (None, None) => {
            assert(texts(rx.unused_files@) =~= texts(ry.unused_files@));
            assert(texts(rx.used_assets@) =~= texts(ry.used_assets@));
            assert(texts(rx.unused_assets@) =~= texts(ry.unused_assets@));
            assert(export_pairs(rx.unused_exports@) =~= export_pairs(ry.unused_exports@));
            assert(warning_views(rx.warnings@) == warning_views(ry.warnings@));
        },
        _ => {
            assert(false);
        },
    }
    assert(rx.summary == ry.summary);
}

} // verus!
