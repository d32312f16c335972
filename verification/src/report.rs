//! The report: what it holds, and how its lists and warnings are made.

use crate::findings::UnusedExport;
use crate::manifest::{dependency_views, DependencyRecord, DependencyView, DepKind};
use crate::marks::marked;
use crate::order::{sort_texts, sorted};
use crate::paths::{
    common_config, declaration_file, has_text, is_common_config_file, is_declaration_file,
    is_public_asset, is_test_like_file, public_asset, relative, relative_display, test_like,
};
use crate::text::{decimal, framed, starts, starts_with, texts, to_chars, to_decimal};
use vstd::prelude::*;

verus! {

/// What the caller asks for.
pub struct Options {
    /// Entry files, as paths below the root. Where any is given, the entries
    /// are the source files that these name, and no others.
    pub entries: Vec<String>,
    /// Look at dependencies of every kind, not only at those needed at run time.
    pub include_non_prod_deps: bool,
    /// Report findings although some import did not resolve.
    pub include_low_confidence: bool,
    /// Look only at the assets under these paths below the root.
    pub asset_roots: Vec<String>,
}

/// Something that the reader of a report should know about it.
pub enum Warning {
    /// Findings err on the side of calling things used.
    Conservative,
    /// Asset roots were given and no asset lies under them.
    NoAssetsMatched,
    /// No entry file was found.
    NoEntries,
    /// This many imports that should name something of the project name nothing.
    UnresolvedImports(usize),
    /// This many files may be what an unresolved import meant.
    MaybeUsedFiles(usize),
    /// The module hands on all of another module; what of it is used cannot be told.
    ForwardsAll(String),
    /// This many findings were withheld: the export's name stands in another file.
    SuppressedExports(usize),
    /// Unused files and exports are left out: the module graph has gaps.
    FindingsOmitted,
    /// Unused assets are left out: the module graph has gaps.
    AssetsOmitted,
}

/// A `Warning` as plain values.
pub enum WarningView {
    Conservative,
    NoAssetsMatched,
    NoEntries,
    UnresolvedImports(nat),
    MaybeUsedFiles(nat),
    ForwardsAll(Seq<char>),
    SuppressedExports(nat),
    FindingsOmitted,
    AssetsOmitted,
}

impl View for Warning {
    type V = WarningView;

    open spec fn view(&self) -> WarningView {
        match self {
            Warning::Conservative => WarningView::Conservative,
            Warning::NoAssetsMatched => WarningView::NoAssetsMatched,
            Warning::NoEntries => WarningView::NoEntries,
            Warning::UnresolvedImports(n) => WarningView::UnresolvedImports(*n as nat),
            Warning::MaybeUsedFiles(n) => WarningView::MaybeUsedFiles(*n as nat),
            Warning::ForwardsAll(file) => WarningView::ForwardsAll(file@),
            Warning::SuppressedExports(n) => WarningView::SuppressedExports(*n as nat),
            Warning::FindingsOmitted => WarningView::FindingsOmitted,
            Warning::AssetsOmitted => WarningView::AssetsOmitted,
        }
    }
}

/// The views of a list of warnings.
pub open spec fn warning_views(v: Seq<Warning>) -> Seq<WarningView> {
    Seq::new(v.len(), |i: int| v[i]@)
}

/// What a warning says.
pub open spec fn warning_text(w: WarningView) -> Seq<char> {
    match w {
        WarningView::Conservative => "Analysis is conservative by default to minimize false positives."@,
        WarningView::NoAssetsMatched => "No assets matched --asset-roots filter; asset findings may be empty."@,
        WarningView::NoEntries => "No entry files discovered. Pass --entry to improve unused file accuracy."@,
        WarningView::UnresolvedImports(n) => "Skipped high-risk findings because "@ + decimal(n)
            + " local/alias imports could not be resolved."@,
        WarningView::MaybeUsedFiles(n) => "Suppressed unused-export findings for "@ + decimal(n)
            + " files potentially referenced by unresolved imports."@,
        WarningView::ForwardsAll(file) => file + " re-exports '*' and may need manual verification."@,
        WarningView::SuppressedExports(n) => "Suppressed "@ + decimal(n)
            + " unused-export findings because the symbol appears in other reachable files."@,
        WarningView::FindingsOmitted => "unused_files and unused_exports omitted (use --include-low-confidence to force)."@,
        WarningView::AssetsOmitted => "unused_assets omitted because graph confidence is low (use --include-low-confidence to force)."@,
    }
}

impl Warning {
    /// The warning in words.
    pub fn message(&self) -> (out: String)
        ensures
            out@ == warning_text(self@),
    {
        match self {
            Warning::Conservative => String::from_str(
                "Analysis is conservative by default to minimize false positives.",
            ),
            Warning::NoAssetsMatched => String::from_str(
                "No assets matched --asset-roots filter; asset findings may be empty.",
            ),
            Warning::NoEntries => String::from_str(
                "No entry files discovered. Pass --entry to improve unused file accuracy.",
            ),
            Warning::UnresolvedImports(n) => framed(
                "Skipped high-risk findings because ",
                &to_decimal(*n),
                " local/alias imports could not be resolved.",
            ),
            Warning::MaybeUsedFiles(n) => framed(
                "Suppressed unused-export findings for ",
                &to_decimal(*n),
                " files potentially referenced by unresolved imports.",
            ),
            Warning::ForwardsAll(file) => {
                let out = framed(
                    "",
                    &to_chars(file.as_str()),
                    " re-exports '*' and may need manual verification.",
                );
                proof {
                    reveal_strlit("");
                    assert(""@ + file@ =~= file@);
                }
                out
            },
            Warning::SuppressedExports(n) => framed(
                "Suppressed ",
                &to_decimal(*n),
                " unused-export findings because the symbol appears in other reachable files.",
            ),
            Warning::FindingsOmitted => String::from_str(
                "unused_files and unused_exports omitted (use --include-low-confidence to force).",
            ),
            Warning::AssetsOmitted => String::from_str(
                "unused_assets omitted because graph confidence is low (use --include-low-confidence to force).",
            ),
        }
    }
}

/// The numbers of a report.
#[derive(Clone, Copy, Debug, PartialEq, Eq, Structural)]
pub struct ReportSummary {
    pub total_source_files: usize,
    pub total_asset_files: usize,
    pub total_reachable_files: usize,
    pub total_entries: usize,
    pub unresolved_local_imports: usize,
    pub high_confidence_graph: bool,
    pub omitted_risky_findings: bool,
    pub unused_files_count: usize,
    pub used_assets_count: usize,
    pub unused_assets_count: usize,
    pub unused_dependencies_count: usize,
    pub unused_exports_count: usize,
}

/// What the analysis found. Every path is shown as it lies below the root.
pub struct Report {
    pub root: String,
    pub summary: ReportSummary,
    pub entries: Vec<String>,
    pub warnings: Vec<Warning>,
    pub unused_files: Vec<String>,
    pub used_assets: Vec<String>,
    pub unused_assets: Vec<String>,
    pub unused_dependencies: Vec<String>,
    pub unused_exports: Vec<UnusedExport>,
}

/// Those of the first `n` paths that are marked, as they lie below the root.
pub open spec fn shown_to(root: Seq<char>, paths: Seq<Seq<char>>, marks: Seq<bool>, n: int) -> Seq<
    Seq<char>,
>
    decreases n,
{
    if n <= 0 || n > paths.len() {
        Seq::empty()
    } else if marked(marks, n - 1) {
        shown_to(root, paths, marks, n - 1).push(relative(root, paths[n - 1]))
    } else {
        shown_to(root, paths, marks, n - 1)
    }
}

/// The marked paths as they lie below the root, ascending, each once.
pub open spec fn shown_sorted(root: Seq<char>, paths: Seq<Seq<char>>, marks: Seq<bool>) -> Seq<
    Seq<char>,
> {
    sorted(shown_to(root, paths, marks, paths.len() as int))
}

/// The marked paths as they lie below the root, ascending, each once.
pub fn show_marked(root: &str, paths: &Vec<String>, marks: &Vec<bool>) -> (out: Vec<String>)
    ensures
        texts(out@) == shown_sorted(root@, texts(paths@), marks@),
{
    let mut list: Vec<String> = Vec::new();
    let mut i: usize = 0;
    assert(texts(list@) =~= shown_to(root@, texts(paths@), marks@, 0));
    while i < paths.len()
        invariant
            i <= paths.len(),
            texts(list@) == shown_to(root@, texts(paths@), marks@, i as int),
        decreases paths.len() - i,
    {
        let ghost before = texts(list@);
        assert(texts(paths@)[i as int] == paths@[i as int]@);
        if i < marks.len() && marks[i] {
            let shown = relative_display(root, paths[i].as_str());
            list.push(shown);
            assert(texts(list@) =~= before.push(shown@));
        }
        i += 1;
    }
    sort_texts(&list)
}

/// The first `n` entries as they lie below the root, in their order. An
/// entry that is no index of a file is left out.
pub open spec fn entries_shown(root: Seq<char>, files: Seq<Seq<char>>, entries: Seq<usize>, n: int) -> Seq<
    Seq<char>,
>
    decreases n,
{
    if n <= 0 || n > entries.len() {
        Seq::empty()
    } else if entries[n - 1] < files.len() {
        entries_shown(root, files, entries, n - 1).push(
            relative(root, files[entries[n - 1] as int]),
        )
    } else {
        entries_shown(root, files, entries, n - 1)
    }
}

/// The entries as they lie below the root, in their order.
pub fn show_entries(root: &str, files: &Vec<String>, entries: &Vec<usize>) -> (out: Vec<String>)
    ensures
        texts(out@) == entries_shown(root@, texts(files@), entries@, entries@.len() as int),
{
    let mut out: Vec<String> = Vec::new();
    let mut k: usize = 0;
    assert(texts(out@) =~= entries_shown(root@, texts(files@), entries@, 0));
    while k < entries.len()
        invariant
            k <= entries.len(),
            texts(out@) == entries_shown(root@, texts(files@), entries@, k as int),
        decreases entries.len() - k,
    {
        let ghost before = texts(out@);
        let at = entries[k];
        if at < files.len() {
            assert(texts(files@)[at as int] == files@[at as int]@);
            let shown = relative_display(root, files[at].as_str());
            out.push(shown);
            assert(texts(out@) =~= before.push(shown@));
        }
        k += 1;
    }
    out
}

/// File `j` counts as unused: nothing reaches it, and it is no test, no
/// declaration stub and no configuration file.
pub open spec fn idle_file(files: Seq<Seq<char>>, reachable: Seq<bool>, j: int) -> bool {
    &&& 0 <= j < files.len()
    &&& !marked(reachable, j)
    &&& !test_like(files[j])
    &&& !declaration_file(files[j])
    &&& !common_config(files[j])
}

/// One mark for each file: set where the file counts as unused.
pub open spec fn idle_files(files: Seq<Seq<char>>, reachable: Seq<bool>) -> Seq<bool> {
    Seq::new(files.len(), |j: int| idle_file(files, reachable, j))
}

/// One mark for each file: set where the file counts as unused.
pub fn mark_idle_files(files: &Vec<String>, reachable: &Vec<bool>) -> (out: Vec<bool>)
    ensures
        out@ == idle_files(texts(files@), reachable@),
{
    let mut out: Vec<bool> = Vec::new();
    let mut j: usize = 0;
    while j < files.len()
        invariant
            j <= files.len(),
            out@.len() == j,
            forall|x: int| 0 <= x < j ==> #[trigger] out@[x] == idle_file(texts(files@), reachable@, x),
        decreases files.len() - j,
    {
        assert(texts(files@)[j as int] == files@[j as int]@);
        let file = files[j].as_str();
        let idle = !(j < reachable.len() && reachable[j]) && !is_test_like_file(file)
            && !is_declaration_file(file) && !is_common_config_file(file);
        out.push(idle);
        j += 1;
    }
    assert(out@ =~= idle_files(texts(files@), reachable@));
    out
}

/// Asset `a` counts as unused: nothing uses it, and it does not lie under a
/// `public` directory.
pub open spec fn idle_asset(assets: Seq<Seq<char>>, used: Seq<bool>, a: int) -> bool {
    0 <= a < assets.len() && !marked(used, a) && !public_asset(assets[a])
}

/// One mark for each asset: set where the asset counts as unused.
pub open spec fn idle_assets(assets: Seq<Seq<char>>, used: Seq<bool>) -> Seq<bool> {
    Seq::new(assets.len(), |a: int| idle_asset(assets, used, a))
}

/// One mark for each asset: set where the asset counts as unused.
pub fn mark_idle_assets(assets: &Vec<String>, used: &Vec<bool>) -> (out: Vec<bool>)
    ensures
        out@ == idle_assets(texts(assets@), used@),
{
    let mut out: Vec<bool> = Vec::new();
    let mut a: usize = 0;
    while a < assets.len()
        invariant
            a <= assets.len(),
            out@.len() == a,
            forall|x: int| 0 <= x < a ==> #[trigger] out@[x] == idle_asset(texts(assets@), used@, x),
        decreases assets.len() - a,
    {
        assert(texts(assets@)[a as int] == assets@[a as int]@);
        let idle = !(a < used.len() && used[a]) && !is_public_asset(assets[a].as_str());
        out.push(idle);
        a += 1;
    }
    assert(out@ =~= idle_assets(texts(assets@), used@));
    out
}

/// A declared dependency counts as unused: it is of a kind that is asked about,
/// no package of types, and no reachable module uses it.
pub open spec fn idle_dependency(d: DependencyView, used: Seq<Seq<char>>, include_non_prod: bool) -> bool {
    &&& !starts(d.name, "@types/"@)
    &&& (include_non_prod || d.kind == DepKind::Prod)
    &&& !used.contains(d.name)
}

/// The names of those of the first `n` declared dependencies that count as unused.
pub open spec fn idle_dependencies_to(
    declared: Seq<DependencyView>,
    used: Seq<Seq<char>>,
    include_non_prod: bool,
    n: int,
) -> Seq<Seq<char>>
    decreases n,
{
    if n <= 0 || n > declared.len() {
        Seq::empty()
    } else if idle_dependency(declared[n - 1], used, include_non_prod) {
        idle_dependencies_to(declared, used, include_non_prod, n - 1).push(declared[n - 1].name)
    } else {
        idle_dependencies_to(declared, used, include_non_prod, n - 1)
    }
}

/// The declared dependencies that count as unused, ascending.
pub open spec fn idle_dependencies(
    declared: Seq<DependencyView>,
    used: Seq<Seq<char>>,
    include_non_prod: bool,
) -> Seq<Seq<char>> {
    sorted(idle_dependencies_to(declared, used, include_non_prod, declared.len() as int))
}

fn is_prod(kind: DepKind) -> (r: bool)
    ensures
        r == (kind == DepKind::Prod),
{
    match kind {
        DepKind::Prod => true,
        _ => false,
    }
}

/// The declared dependencies that no reachable module uses, ascending.
/// `used` holds the packages that the reachable modules use.
pub fn unused_dependencies(
    declared: &Vec<DependencyRecord>,
    used: &Vec<String>,
    include_non_prod: bool,
) -> (out: Vec<String>)
    ensures
        texts(out@) == idle_dependencies(dependency_views(declared@), texts(used@), include_non_prod),
{
    let ghost views = dependency_views(declared@);
    let mut list: Vec<String> = Vec::new();
    let mut i: usize = 0;
    assert(texts(list@) =~= idle_dependencies_to(views, texts(used@), include_non_prod, 0));
    while i < declared.len()
        invariant
            i <= declared.len(),
            views == dependency_views(declared@),
            texts(list@) == idle_dependencies_to(views, texts(used@), include_non_prod, i as int),
        decreases declared.len() - i,
    {
        let ghost before = texts(list@);
        assert(views[i as int] == declared@[i as int]@);
        let d = &declared[i];
        if !starts_with(&to_chars(d.name.as_str()), "@types/") && (include_non_prod || is_prod(
            d.kind,
        )) && !has_text(used, &d.name) {
            list.push(d.name.clone());
            assert(texts(list@) =~= before.push(d.name@));
        }
        i += 1;
    }
    sort_texts(&list)
}

/// What the export findings add to the warnings, where there are any.
pub struct ExportNotes {
    pub forwards_all: Seq<Seq<char>>,
    pub suppressed: nat,
}

/// The warnings that a report opens with: the standing one; that no asset
/// matched the roots given; that no entry was found; how many imports did not
/// resolve, and how many files they may have meant.
pub open spec fn opening_warnings(
    roots_given: bool,
    assets: nat,
    entries: nat,
    unresolved: nat,
    maybe_used: nat,
) -> Seq<WarningView> {
    seq![WarningView::Conservative] + (if roots_given && assets == 0 {
        seq![WarningView::NoAssetsMatched]
    } else {
        Seq::empty()
    }) + (if entries == 0 {
        seq![WarningView::NoEntries]
    } else {
        Seq::empty()
    }) + (if unresolved > 0 {
        seq![WarningView::UnresolvedImports(unresolved)] + if maybe_used > 0 {
            seq![WarningView::MaybeUsedFiles(maybe_used)]
        } else {
            Seq::empty()
        }
    } else {
        Seq::empty()
    })
}

/// The warnings that a report closes with: where findings are reported, the
/// modules that hand on all of another and how many findings were withheld; where they
/// are not, that they are left out.
pub open spec fn closing_warnings(notes: Option<ExportNotes>) -> Seq<WarningView> {
    match notes {
        Some(n) => Seq::new(n.forwards_all.len(), |k: int| WarningView::ForwardsAll(n.forwards_all[k]))
            + if n.suppressed > 0 {
            seq![WarningView::SuppressedExports(n.suppressed)]
        } else {
            Seq::empty()
        },
        None => seq![WarningView::FindingsOmitted, WarningView::AssetsOmitted],
    }
}

/// The warnings of a report, in their order.
pub open spec fn expected_warnings(
    roots_given: bool,
    assets: nat,
    entries: nat,
    unresolved: nat,
    maybe_used: nat,
    notes: Option<ExportNotes>,
) -> Seq<WarningView> {
    opening_warnings(roots_given, assets, entries, unresolved, maybe_used) + closing_warnings(notes)
}

fn push_warning(list: &mut Vec<Warning>, w: Warning)
    ensures
        warning_views(final(list)@) == warning_views(old(list)@).push(w@),
{
    let ghost before = warning_views(list@);
    list.push(w);
    assert(warning_views(list@) =~= before.push(w@));
}

fn open_warnings(roots_given: bool, assets: usize, entries: usize, unresolved: usize, maybe_used: usize) -> (out:
    Vec<Warning>)
    ensures
        warning_views(out@) == opening_warnings(
            roots_given,
            assets as nat,
            entries as nat,
            unresolved as nat,
            maybe_used as nat,
        ),
{
    let mut out: Vec<Warning> = Vec::new();
    assert(warning_views(out@) =~= Seq::<WarningView>::empty());
    push_warning(&mut out, Warning::Conservative);
    let ghost a = warning_views(out@);
    assert(a =~= seq![WarningView::Conservative]);
    if roots_given && assets == 0 {
        push_warning(&mut out, Warning::NoAssetsMatched);
    }
    let ghost b = warning_views(out@);
    assert(b =~= a + (if roots_given && assets == 0 {
        seq![WarningView::NoAssetsMatched]
    } else {
        Seq::empty()
    }));
    if entries == 0 {
        push_warning(&mut out, Warning::NoEntries);
    }
    let ghost c = warning_views(out@);
    assert(c =~= b + (if entries == 0 {
        seq![WarningView::NoEntries]
    } else {
        Seq::empty()
    }));
    if unresolved > 0 {
        push_warning(&mut out, Warning::UnresolvedImports(unresolved));
        if maybe_used > 0 {
            push_warning(&mut out, Warning::MaybeUsedFiles(maybe_used));
        }
    }
    assert(warning_views(out@) =~= c + (if unresolved > 0 {
        seq![WarningView::UnresolvedImports(unresolved as nat)] + if maybe_used > 0 {
            seq![WarningView::MaybeUsedFiles(maybe_used as nat)]
        } else {
            Seq::empty()
        }
    } else {
        Seq::empty()
    }));
    out
}

fn close_warnings(out: &mut Vec<Warning>, notes: Option<(&Vec<String>, usize)>)
    ensures
        warning_views(final(out)@) == warning_views(old(out)@) + closing_warnings(
            match notes {
                Some(n) => Some(ExportNotes { forwards_all: texts(n.0@), suppressed: n.1 as nat }),
                None => None,
            },
        ),
{
    let ghost d = warning_views(out@);
    match notes {
        Some((forwarding, suppressed)) => {
            let ghost all = Seq::new(
                texts(forwarding@).len(),
                |k: int| WarningView::ForwardsAll(texts(forwarding@)[k]),
            );
            let mut k: usize = 0;
            assert(warning_views(out@) =~= d + all.take(0));
            while k < forwarding.len()
                invariant
                    k <= forwarding.len(),
                    all == Seq::new(
                        texts(forwarding@).len(),
                        |k: int| WarningView::ForwardsAll(texts(forwarding@)[k]),
                    ),
                    warning_views(out@) == d + all.take(k as int),
                decreases forwarding.len() - k,
            {
                push_warning(out, Warning::ForwardsAll(forwarding[k].clone()));
                assert(all[k as int] == WarningView::ForwardsAll(forwarding@[k as int]@));
                assert(d + all.take(k + 1) =~= (d + all.take(k as int)).push(all[k as int]));
                k += 1;
            }
            assert(all.take(forwarding@.len() as int) =~= all);
            let ghost e = warning_views(out@);
            if suppressed > 0 {
                push_warning(out, Warning::SuppressedExports(suppressed));
            }
            assert(warning_views(out@) =~= d + (all + if suppressed > 0 {
                seq![WarningView::SuppressedExports(suppressed as nat)]
            } else {
                Seq::empty()
            }));
        },
        None => {
            push_warning(out, Warning::FindingsOmitted);
            push_warning(out, Warning::AssetsOmitted);
            assert(warning_views(out@) =~= d + seq![
                WarningView::FindingsOmitted,
                WarningView::AssetsOmitted,
            ]);
        },
    }
}

/// The warnings of a report. `notes` holds the modules that hand on all of another and
/// the number of findings withheld, where findings are reported.
pub fn warnings_of(
    roots_given: bool,
    assets: usize,
    entries: usize,
    unresolved: usize,
    maybe_used: usize,
    notes: Option<(&Vec<String>, usize)>,
) -> (out: Vec<Warning>)
    ensures
        warning_views(out@) == expected_warnings(
            roots_given,
            assets as nat,
            entries as nat,
            unresolved as nat,
            maybe_used as nat,
            match notes {
                Some(n) => Some(ExportNotes { forwards_all: texts(n.0@), suppressed: n.1 as nat }),
                None => None,
            },
        ),
{
    let mut out = open_warnings(roots_given, assets, entries, unresolved, maybe_used);
    close_warnings(&mut out, notes);
    out
}

} // verus!
