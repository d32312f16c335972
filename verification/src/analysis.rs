//! The analysis of a project, from its tree to its report.

use crate::assets::{collect_used_assets, filter_assets_by_roots, filtered_assets, used_asset};
use crate::config::{build_resolver, built, lemma_built_keeps};
use crate::entries::{discover_entries, entry_file};
use crate::findings::{
    evidence, Evidence, export_pairs, ExportFindings, judge_exports, UnusedExport,
};
use crate::graph::{
    collect_unresolved_local_imports, collect_used_packages, distinct_imports,
    infer_potentially_used_files_from_unresolved, is_unresolved, maybe_used, reachable,
    reachable_files, unresolved_views, UnresolvedImport, UnresolvedView, uses_package,
};
use crate::manifest::{
    collect_declared_dependencies, declared, dependency_views, DependencyRecord, DependencyView,
    Manifest, manifest_of, ManifestError,
};
use crate::marks::{count_marked, holds, set_to};
use crate::order::{no_repeats, sort_texts, sorted, sorted_pairs};
use crate::parser::{
    ImportView, module_of, module_views, ModuleInfo, ModuleView, parse_module, source_matches,
};
use crate::report::{
    entries_shown, expected_warnings, ExportNotes, idle_assets, idle_dependencies, idle_files,
    mark_idle_assets, mark_idle_files, Options, Report, ReportSummary, show_entries, show_marked,
    shown_sorted, unused_dependencies, warning_views, warnings_of,
};
use crate::resolver::{Resolver, ResolverView};
use crate::stripper::stripped;
use crate::text::texts;
use crate::tokens::{
    build_file_token_cache, count_of, count_tokens_in_scope, files_with, token_views, TokenCount,
    tokens_of,
};
use crate::tree::{
    absent_to, assets_to, collect_asset_files, collect_source_files, ProjectTree, push_absent,
    sources_to,
};
use crate::usage::{collect_export_usage, ExportUsage, Taken, taken_of};
use vstd::prelude::*;

verus! {

/// The module that the file at `path` is.
pub open spec fn parsed(tree: &ProjectTree, path: Seq<char>) -> ModuleView {
    module_of(source_matches(stripped(tree.text_of(path))))
}

/// The module of each of `files`, in the order of `files`.
pub fn parse_modules(tree: &ProjectTree, files: &Vec<String>) -> (modules: Vec<ModuleInfo>)
    ensures
        modules@.len() == files@.len(),
        forall|i: int|
            0 <= i < files@.len() ==> #[trigger] module_views(modules@)[i] == parsed(
                tree,
                files@[i]@,
            ),
{
    let mut modules: Vec<ModuleInfo> = Vec::new();
    let mut i: usize = 0;
    while i < files.len()
        invariant
            i <= files.len(),
            modules@.len() == i,
            forall|k: int|
                0 <= k < i ==> #[trigger] module_views(modules@)[k] == parsed(tree, files@[k]@),
        decreases files.len() - i,
    {
        let ghost before = modules@;
        let text = tree.read(&files[i]);
        let module = parse_module(text.as_str());
        modules.push(module);
        assert forall|k: int| 0 <= k < i + 1 implies #[trigger] module_views(modules@)[k]
            == parsed(tree, files@[k]@) by {
            if k < i {
                assert(module_views(before)[k] == before[k]@);
                assert(modules@[k] == before[k]);
            }
        }
        i += 1;
    }
    modules
}

/// The places that the first `n` imports of the module `from` may name and
/// at which the tree holds nothing. Imports that are not meant to name
/// something of the project have no such places.
pub open spec fn import_gaps(
    tree: &ProjectTree,
    r: ResolverView,
    from: Seq<char>,
    imports: Seq<ImportView>,
    n: int,
) -> Seq<Seq<char>>
    decreases n,
{
    if n <= 0 || n > imports.len() {
        Seq::empty()
    } else if r.likely_local(imports[n - 1].specifier) {
        let places = r.local_places(from, imports[n - 1].specifier);
        import_gaps(tree, r, from, imports, n - 1) + absent_to(tree, places, places.len() as int)
    } else {
        import_gaps(tree, r, from, imports, n - 1)
    }
}

/// The places that the imports of the first `n` modules may name and at
/// which the tree holds nothing.
pub open spec fn module_gaps(
    tree: &ProjectTree,
    r: ResolverView,
    files: Seq<Seq<char>>,
    n: int,
) -> Seq<Seq<char>>
    decreases n,
{
    if n <= 0 || n > files.len() {
        Seq::empty()
    } else {
        let imports = parsed(tree, files[n - 1]).imports;
        module_gaps(tree, r, files, n - 1) + import_gaps(
            tree,
            r,
            files[n - 1],
            imports,
            imports.len() as int,
        )
    }
}

/// The places that the imports of the project's modules may name and at
/// which the tree holds nothing.
pub open spec fn unknown_targets(tree: &ProjectTree) -> Seq<Seq<char>> {
    let files = sources_to(tree.root@, tree.paths(), tree.paths().len() as int);
    module_gaps(tree, built(tree, files), files, files.len() as int)
}

/// The places that the imports of one module may name and at which the tree
/// holds nothing, added to `out`.
fn push_import_gaps(
    tree: &ProjectTree,
    resolver: &Resolver,
    from: &String,
    module: &ModuleInfo,
    out: &mut Vec<String>,
)
    ensures
        texts(final(out)@) == texts(old(out)@) + import_gaps(
            tree,
            resolver@,
            from@,
            module@.imports,
            module@.imports.len() as int,
        ),
{
    let ghost base = texts(out@);
    let ghost imports = module@.imports;
    let mut k: usize = 0;
    assert(texts(out@) =~= base + import_gaps(tree, resolver@, from@, imports, 0));
    while k < module.imports.len()
        invariant
            k <= module.imports.len(),
            imports == module@.imports,
            imports.len() == module.imports@.len(),
            texts(out@) == base + import_gaps(tree, resolver@, from@, imports, k as int),
        decreases module.imports.len() - k,
    {
        let import = &module.imports[k];
        assert(imports[k as int] == import@);
        if resolver.is_likely_local_specifier(import.specifier.as_str()) {
            let ghost before = texts(out@);
            let places = resolver.candidate_places(from.as_str(), import.specifier.as_str());
            push_absent(tree, out, &places);
            assert(texts(places@).len() == places@.len());
            assert(base + import_gaps(tree, resolver@, from@, imports, k + 1) =~= before + absent_to(
                tree,
                texts(places@),
                places@.len() as int,
            ));
        }
        k += 1;
    }
}

/// The places that the imports of the project's modules may name and of
/// which the tree knows nothing: whoever fills the tree may look there, and
/// add what stands there. A place outside the root is found in no other way.
pub fn missing_import_targets(tree: &ProjectTree) -> (out: Vec<String>)
    ensures
        texts(out@) == unknown_targets(tree),
{
    let files = collect_source_files(tree);
    let resolver = build_resolver(tree, &files);
    let mut out: Vec<String> = Vec::new();
    let mut i: usize = 0;
    assert(texts(out@) =~= module_gaps(tree, resolver@, texts(files@), 0));
    while i < files.len()
        invariant
            i <= files.len(),
            resolver@ == built(tree, texts(files@)),
            texts(out@) == module_gaps(tree, resolver@, texts(files@), i as int),
        decreases files.len() - i,
    {
        assert(texts(files@)[i as int] == files@[i as int]@);
        let ghost before = texts(out@);
        let text = tree.read(&files[i]);
        let module = parse_module(text.as_str());
        push_import_gaps(tree, &resolver, &files[i], &module, &mut out);
        assert(module@ == parsed(tree, files@[i as int]@));
        i += 1;
    }
    assert(texts(files@).len() == files@.len());
    out
}

/// The dependencies that a project declares, none where it has no manifest.
pub open spec fn declared_of(tree: &ProjectTree) -> Seq<DependencyView> {
    match manifest_of(tree) {
        Manifest::Document(doc) => declared(doc),
        _ => Seq::empty(),
    }
}

/// What is known of a project before anything is called unused.
pub struct Survey {
    /// The modules of the project, by path.
    pub files: Vec<String>,
    /// The assets that are looked at, by path.
    pub assets: Vec<String>,
    pub resolver: Resolver,
    /// What each file imports and exports, in the order of `files`.
    pub modules: Vec<ModuleInfo>,
    /// The entry files, as indices into `files`, ascending.
    pub entries: Vec<usize>,
    /// One mark for each file: set where the file is reachable from an entry.
    pub reachable: Vec<bool>,
    /// The imports of reachable modules that lead nowhere.
    pub unresolved: Vec<UnresolvedImport>,
    /// One mark for each file: set where an unresolved import may have meant it.
    pub maybe_used: Vec<bool>,
    /// The packages that the reachable modules use.
    pub used_packages: Vec<String>,
    /// The dependencies that the manifest declares.
    pub declared: Vec<DependencyRecord>,
}

impl Survey {
    /// The survey is that of the project, for these options.
    pub open spec fn describes(&self, tree: &ProjectTree, options: &Options) -> bool {
        let files = texts(self.files@);
        let modules = module_views(self.modules@);
        &&& files == sources_to(tree.root@, tree.paths(), tree.paths().len() as int)
        &&& texts(self.assets@) == filtered_assets(
            tree.root@,
            assets_to(tree.root@, tree.paths(), tree.paths().len() as int),
            texts(options.asset_roots@),
        )
        &&& self.resolver@ == built(tree, files)
        &&& self.modules@.len() == self.files@.len()
        &&& forall|i: int| 0 <= i < files.len() ==> #[trigger] modules[i] == parsed(tree, files[i])
        &&& forall|a: int, b: int|
            0 <= a < b < self.entries@.len() ==> self.entries@[a] < self.entries@[b]
        &&& forall|k: int|
            0 <= k < self.entries@.len() ==> #[trigger] self.entries@[k] < self.files@.len()
        &&& forall|i: int|
            0 <= i < files.len() ==> (holds(self.entries@, i) <==> #[trigger] entry_file(
                tree,
                files,
                texts(options.entries@),
                i,
            ))
        &&& self.reachable@.len() == self.files@.len()
        &&& forall|j: int|
            0 <= j < files.len() ==> (#[trigger] self.reachable@[j] <==> reachable(
                self.resolver@,
                modules,
                self.entries@,
                j,
            ))
        &&& distinct_imports(unresolved_views(self.unresolved@))
        &&& forall|u: UnresolvedView| #[trigger]
            unresolved_views(self.unresolved@).contains(u) <==> is_unresolved(
                self.resolver@,
                modules,
                tree.existing(),
                self.reachable@,
                u,
            )
        &&& self.maybe_used@.len() == self.files@.len()
        &&& forall|j: int|
            0 <= j < files.len() ==> (#[trigger] self.maybe_used@[j] <==> maybe_used(
                tree.root@,
                unresolved_views(self.unresolved@),
                files[j],
            ))
        &&& no_repeats(texts(self.used_packages@))
        &&& forall|name: Seq<char>| #[trigger]
            texts(self.used_packages@).contains(name) <==> uses_package(
                self.resolver@,
                modules,
                self.reachable@,
                name,
            )
        &&& dependency_views(self.declared@) == declared_of(tree)
    }

    /// Every import that should name something of the project does.
    pub open spec fn high_confidence(&self) -> bool {
        self.unresolved@.len() == 0
    }
}

/// Surveys a project. Fails where what stands at the manifest's path is no
/// JSON document.
pub fn survey(tree: &ProjectTree, options: &Options) -> (r: Result<Survey, ManifestError>)
    ensures
        r is Err <==> manifest_of(tree) is Invalid,
        match r {
            Ok(s) => s.describes(tree, options),
            Err(e) => e == ManifestError::Invalid,
        },
{
    let declared = match collect_declared_dependencies(tree) {
        Ok(declared) => declared,
        Err(e) => {
            return Err(e);
        },
    };
    let files = collect_source_files(tree);
    let all_assets = collect_asset_files(tree);
    let assets = filter_assets_by_roots(tree.root.as_str(), &all_assets, &options.asset_roots);
    let resolver = build_resolver(tree, &files);
    let modules = parse_modules(tree, &files);
    let entries = match discover_entries(tree, &files, &options.entries) {
        Ok(entries) => entries,
        Err(e) => {
            return Err(e);
        },
    };
    let reachable = reachable_files(&entries, &modules, &resolver);
    let existing = tree.all_paths();
    let unresolved = collect_unresolved_local_imports(&reachable, &modules, &resolver, &existing);
    let maybe = infer_potentially_used_files_from_unresolved(
        &files,
        &unresolved,
        tree.root.as_str(),
    );
    let used_packages = collect_used_packages(&reachable, &modules, &resolver);
    let s = Survey {
        files,
        assets,
        resolver,
        modules,
        entries,
        reachable,
        unresolved,
        maybe_used: maybe,
        used_packages,
        declared,
    };
    proof {
        let fs = texts(s.files@);
        lemma_built_keeps(tree, fs);
        assert(s.resolver@.files == fs);
        assert(texts(s.resolver.files@).len() == s.resolver.files@.len());
        assert(fs.len() == s.files@.len());
        assert forall|i: int| 0 <= i < fs.len() implies #[trigger] module_views(s.modules@)[i]
            == parsed(tree, fs[i]) by {
            assert(fs[i] == s.files@[i]@);
        }
        assert forall|j: int| 0 <= j < fs.len() implies (#[trigger] s.maybe_used@[j] <==> maybe_used(
            tree.root@,
            unresolved_views(s.unresolved@),
            fs[j],
        )) by {
            assert(fs[j] == s.files@[j]@);
        }
    }
    Ok(s)
}

/// The tokens of each of `files`.
pub open spec fn project_tokens(tree: &ProjectTree, files: Seq<Seq<char>>) -> Seq<Seq<Seq<char>>> {
    Seq::new(files.len(), |i: int| tokens_of(tree.text_of(files[i])))
}

/// `n` marks, all set.
pub open spec fn everything(n: nat) -> Seq<bool> {
    Seq::new(n, |i: int| true)
}

fn all_marked(n: usize) -> (out: Vec<bool>)
    ensures
        out@ == everything(n as nat),
{
    let mut out: Vec<bool> = Vec::new();
    let mut i: usize = 0;
    while i < n
        invariant
            i <= n,
            out@.len() == i,
            forall|k: int| 0 <= k < i ==> out@[k],
        decreases n - i,
    {
        out.push(true);
        i += 1;
    }
    assert(out@ =~= everything(n as nat));
    out
}

/// What is found where findings are reported: the assets in use, what is
/// taken of each module, in how many files each token stands, and the verdict
/// on every export.
pub struct Risky {
    /// One mark for each asset: set where the asset is used.
    pub used_assets: Vec<bool>,
    /// What is taken of each file, in the order of the files.
    pub usage: Vec<ExportUsage>,
    /// In how many reachable files each token stands.
    pub reachable_counts: Vec<TokenCount>,
    /// In how many files each token stands.
    pub project_counts: Vec<TokenCount>,
    pub exports: ExportFindings,
}

impl Risky {
    /// What is known when the exports are judged.
    pub open spec fn evidence(&self, tree: &ProjectTree, s: &Survey) -> Evidence {
        evidence(
            tree.root@,
            texts(s.files@),
            module_views(s.modules@),
            s.entries@,
            s.reachable@,
            s.maybe_used@,
            self.usage@,
            self.reachable_counts@,
            self.project_counts@,
        )
    }

    /// The findings are those of the project that the survey describes.
    pub open spec fn describes(&self, tree: &ProjectTree, s: &Survey) -> bool {
        let files = texts(s.files@);
        let modules = module_views(s.modules@);
        let tokens = project_tokens(tree, files);
        let ev = self.evidence(tree, s);
        &&& self.used_assets@.len() == s.assets@.len()
        &&& forall|a: int|
            0 <= a < s.assets@.len() ==> (#[trigger] self.used_assets@[a] <==> used_asset(
                tree,
                files,
                texts(s.assets@),
                a,
            ))
        &&& self.usage@.len() == s.resolver.files@.len()
        &&& forall|j: int, what: Taken|
            0 <= j < self.usage@.len() ==> (#[trigger] self.usage@[j].has(what) <==> taken_of(
                s.resolver@,
                modules,
                s.reachable@,
                j,
                what,
            ))
        &&& forall|t: Seq<char>| #[trigger]
            count_of(self.reachable_counts@, t) == files_with(
                s.reachable@,
                tokens,
                t,
                files.len() as int,
            )
        &&& forall|t: Seq<char>| #[trigger]
            count_of(self.project_counts@, t) == files_with(
                everything(files.len()),
                tokens,
                t,
                files.len() as int,
            )
        &&& export_pairs(self.exports.unused@) == sorted_pairs(ev.unused_to(modules.len() as int))
        &&& export_pairs(self.exports.suppressed@) == ev.suppressed_to(modules.len() as int)
        &&& texts(self.exports.forwarding@) == ev.forwarding_to(modules.len() as int)
    }
}

/// Finds what of a surveyed project is in use.
pub fn assess(tree: &ProjectTree, s: &Survey) -> (out: Risky)
    ensures
        out.describes(tree, s),
{
    let used_assets = collect_used_assets(tree, &s.files, &s.assets);
    let usage = collect_export_usage(&s.reachable, &s.modules, &s.resolver);
    let cache = build_file_token_cache(tree, &s.files);
    let reachable_counts = count_tokens_in_scope(&s.reachable, &cache);
    let all = all_marked(s.files.len());
    let project_counts = count_tokens_in_scope(&all, &cache);
    let exports = judge_exports(
        tree.root.as_str(),
        &s.files,
        &s.modules,
        &s.entries,
        &s.reachable,
        &s.maybe_used,
        &usage,
        &reachable_counts,
        &project_counts,
    );
    proof {
        let files = texts(s.files@);
        assert(files.len() == s.files@.len());
        assert(texts(s.resolver.files@).len() == s.resolver.files@.len());
        assert(token_views(cache@) =~= project_tokens(tree, files)) by {
            assert forall|i: int| 0 <= i < files.len() implies #[trigger] token_views(cache@)[i]
                == project_tokens(tree, files)[i] by {
                assert(files[i] == s.files@[i]@);
            }
        }
    }
    Risky { used_assets, usage, reachable_counts, project_counts, exports }
}

/// The notes that the export findings add to the warnings.
pub open spec fn notes_of(risky: Option<Risky>) -> Option<ExportNotes> {
    match risky {
        Some(f) => Some(
            ExportNotes {
                forwards_all: texts(f.exports.forwarding@),
                suppressed: f.exports.suppressed@.len(),
            },
        ),
        None => None,
    }
}

/// The report says of the project what the survey and the findings hold.
///
/// Every list of paths is ascending. Where there are no findings, the
/// lists of unused files, of assets and of unused exports are empty; the unused
/// dependencies are listed either way.
pub open spec fn summarizes(
    report: &Report,
    tree: &ProjectTree,
    options: &Options,
    s: &Survey,
    risky: Option<Risky>,
) -> bool {
    let root = tree.root@;
    let files = texts(s.files@);
    let assets = texts(s.assets@);
    &&& report.root@ == root
    &&& texts(report.entries@) == sorted(
        entries_shown(root, files, s.entries@, s.entries@.len() as int),
    )
    &&& texts(report.unused_dependencies@) == idle_dependencies(
        dependency_views(s.declared@),
        texts(s.used_packages@),
        options.include_non_prod_deps,
    )
    &&& match risky {
        Some(f) => {
            &&& texts(report.unused_files@) == shown_sorted(
                root,
                files,
                idle_files(files, s.reachable@),
            )
            &&& texts(report.used_assets@) == shown_sorted(root, assets, f.used_assets@)
            &&& texts(report.unused_assets@) == shown_sorted(
                root,
                assets,
                idle_assets(assets, f.used_assets@),
            )
            &&& export_pairs(report.unused_exports@) == export_pairs(f.exports.unused@)
        },
        None => {
            &&& report.unused_files@.len() == 0
            &&& report.used_assets@.len() == 0
            &&& report.unused_assets@.len() == 0
            &&& report.unused_exports@.len() == 0
        },
    }
    &&& warning_views(report.warnings@) == expected_warnings(
        options.asset_roots@.len() > 0,
        s.assets@.len(),
        s.entries@.len(),
        s.unresolved@.len(),
        set_to(s.maybe_used@, s.maybe_used@.len() as int),
        notes_of(risky),
    )
    &&& report.summary == (ReportSummary {
        total_source_files: s.files@.len() as usize,
        total_asset_files: s.assets@.len() as usize,
        total_reachable_files: set_to(s.reachable@, s.reachable@.len() as int) as usize,
        total_entries: s.entries@.len() as usize,
        unresolved_local_imports: s.unresolved@.len() as usize,
        high_confidence_graph: s.high_confidence(),
        omitted_risky_findings: risky is None,
        unused_files_count: report.unused_files@.len() as usize,
        used_assets_count: if report.unused_assets@.len() <= s.assets@.len() {
            (s.assets@.len() - report.unused_assets@.len()) as usize
        } else {
            0
        },
        unused_assets_count: report.unused_assets@.len() as usize,
        unused_dependencies_count: report.unused_dependencies@.len() as usize,
        unused_exports_count: report.unused_exports@.len() as usize,
    })
}

fn copy_exports(list: &Vec<UnusedExport>) -> (out: Vec<UnusedExport>)
    ensures
        export_pairs(out@) == export_pairs(list@),
{
    let mut out: Vec<UnusedExport> = Vec::new();
    let mut i: usize = 0;
    while i < list.len()
        invariant
            i <= list.len(),
            out@.len() == i,
            forall|k: int| 0 <= k < i ==> out@[k].file@ == list@[k].file@ && out@[k].export@ == list@[k].export@,
        decreases list.len() - i,
    {
        out.push(
            UnusedExport {
                file: list[i].file.clone(),
                export: list[i].export.clone(),
            },
        );
        i += 1;
    }
    assert(export_pairs(out@) =~= export_pairs(list@));
    out
}

/// Writes the report of a surveyed project. `risky` holds the findings,
/// where they are to be reported.
pub fn assemble(tree: &ProjectTree, options: &Options, s: &Survey, risky: &Option<Risky>) -> (report:
    Report)
    ensures
        summarizes(&report, tree, options, s, *risky),
{
    let root = tree.root.as_str();
    let entries = sort_texts(&show_entries(root, &s.files, &s.entries));
    let unused_deps = unused_dependencies(&s.declared, &s.used_packages, options.include_non_prod_deps);
    let maybe_count = count_marked(&s.maybe_used);
    let reachable_count = count_marked(&s.reachable);
    let roots_given = options.asset_roots.len() > 0;
    let mut unused_files: Vec<String> = Vec::new();
    let mut used_assets: Vec<String> = Vec::new();
    let mut unused_assets: Vec<String> = Vec::new();
    let mut unused_exports: Vec<UnusedExport> = Vec::new();
    let warnings = match risky {
        Some(f) => {
            unused_files = show_marked(root, &s.files, &mark_idle_files(&s.files, &s.reachable));
            used_assets = show_marked(root, &s.assets, &f.used_assets);
            unused_assets = show_marked(root, &s.assets, &mark_idle_assets(&s.assets, &f.used_assets));
            unused_exports = copy_exports(&f.exports.unused);
            warnings_of(
                roots_given,
                s.assets.len(),
                s.entries.len(),
                s.unresolved.len(),
                maybe_count,
                Some((&f.exports.forwarding, f.exports.suppressed.len())),
            )
        },
        None => warnings_of(
            roots_given,
            s.assets.len(),
            s.entries.len(),
            s.unresolved.len(),
            maybe_count,
            None,
        ),
    };
    let total_assets = s.assets.len();
    let unused_assets_count = unused_assets.len();
    let summary = ReportSummary {
        total_source_files: s.files.len(),
        total_asset_files: total_assets,
        total_reachable_files: reachable_count,
        total_entries: s.entries.len(),
        unresolved_local_imports: s.unresolved.len(),
        high_confidence_graph: s.unresolved.len() == 0,
        omitted_risky_findings: risky.is_none(),
        unused_files_count: unused_files.len(),
        used_assets_count: if unused_assets_count <= total_assets {
            total_assets - unused_assets_count
        } else {
            0
        },
        unused_assets_count,
        unused_dependencies_count: unused_deps.len(),
        unused_exports_count: unused_exports.len(),
    };
    Report {
        root: tree.root.clone(),
        summary,
        entries,
        warnings,
        unused_files,
        used_assets,
        unused_assets,
        unused_dependencies: unused_deps,
        unused_exports,
    }
}

/// A project analyzed: what was surveyed, what was found, and the report.
pub struct Analysis {
    pub survey: Survey,
    /// The findings; none where they are not reported.
    pub risky: Option<Risky>,
    pub report: Report,
}

impl Analysis {
    /// Findings are reported: every import resolved, or the caller asked for
    /// them all the same.
    pub open spec fn reports_findings(&self, options: &Options) -> bool {
        self.survey.high_confidence() || options.include_low_confidence
    }

    /// The analysis is that of the project, for these options.
    pub open spec fn describes(&self, tree: &ProjectTree, options: &Options) -> bool {
        &&& self.survey.describes(tree, options)
        &&& self.risky is Some <==> self.reports_findings(options)
        &&& match self.risky {
            Some(f) => f.describes(tree, &self.survey),
            None => true,
        }
        &&& summarizes(&self.report, tree, options, &self.survey, self.risky)
    }
}

/// Analyzes a project. Fails where what stands at the manifest's path is no
/// JSON document.
pub fn analyze(tree: &ProjectTree, options: &Options) -> (r: Result<Analysis, ManifestError>)
    ensures
        r is Err <==> manifest_of(tree) is Invalid,
        match r {
            Ok(a) => a.describes(tree, options),
            Err(e) => e == ManifestError::Invalid,
        },
{
    let s = match survey(tree, options) {
        Ok(s) => s,
        Err(e) => {
            return Err(e);
        },
    };
    let risky = if s.unresolved.len() == 0 || options.include_low_confidence {
        Some(assess(tree, &s))
    } else {
        None
    };
    let report = assemble(tree, options, &s, &risky);
    Ok(Analysis { survey: s, risky, report })
}

} // verus!
