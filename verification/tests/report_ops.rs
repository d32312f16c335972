use haadi::analysis::{analyze, assemble, assess, parse_modules, survey};
use haadi::findings::{insert_export, judge_exports, marks_of, sort_exports, UnusedExport};
use haadi::marks::{count_marked, marked_indices, unmarked};
use haadi::parser::parse_module;
use haadi::picker::{
    handle_delete_key, handle_summary_key, reset_filter_and_search, Action, DeleteState, Key,
    Pending, SummaryAction,
};
use haadi::report::{
    mark_idle_assets, mark_idle_files, show_entries, show_marked, unused_dependencies,
    warnings_of, Options, Warning,
};
use haadi::manifest::{DepKind, DependencyRecord};
use haadi::candidates::{
    build_delete_candidates, build_search_matcher, clamp_delete_cursor, filtered_indices,
    glob_like_to_regex, looks_like_regex, normalized_rel_query, toggle_selected,
    upsert_candidate_state, CandidateKind, CandidateState, DeleteFilter, SearchMatcher,
};
use haadi::tokens::{
    build_file_token_cache, count_tokens_in_scope, export_appears_in_other_project_files,
    export_appears_in_other_reachable_files, file_tokens, lookup,
};
use haadi::tree::{FileEntry, ProjectTree};
use haadi::usage::collect_export_usage;

fn texts(list: &[&str]) -> Vec<String> {
    list.iter().map(|s| s.to_string()).collect()
}

fn project(files: &[(&str, &str)]) -> ProjectTree {
    ProjectTree {
        root: "/proj".to_string(),
        directories: texts(&["/proj", "/proj/src"]),
        files: files
            .iter()
            .map(|(p, t)| FileEntry { path: format!("/proj/{p}"), text: t.to_string() })
            .collect(),
    }
}

fn plain() -> Options {
    Options {
        entries: Vec::new(),
        include_non_prod_deps: false,
        include_low_confidence: false,
        asset_roots: Vec::new(),
    }
}

fn pairs(list: &[UnusedExport]) -> Vec<(String, String)> {
    list.iter().map(|e| (e.file.clone(), e.export.clone())).collect()
}

fn pair(a: &str, b: &str) -> (String, String) {
    (a.to_string(), b.to_string())
}

#[test]
fn marks_and_their_indices() {
    assert_eq!(unmarked(3), vec![false, false, false]);
    assert_eq!(marked_indices(&vec![false, true, true, false, true]), vec![1, 2, 4]);
    assert!(marked_indices(&Vec::new()).is_empty());
    assert_eq!(count_marked(&vec![true, false, true]), 2);
    assert_eq!(marks_of(&vec![2, 0, 7], 4), vec![true, false, true, false]);
}

#[test]
fn tokens_are_identifiers() {
    assert_eq!(file_tokens("const $a = b_1 + a.b; // b_1 9x"), vec!["const", "$a", "b_1", "a", "b", "x"]);
    assert!(file_tokens("123 + 4").is_empty());
    let tree = project(&[("src/a.ts", "foo bar"), ("src/b.ts", "bar baz bar")]);
    let cache = build_file_token_cache(&tree, &texts(&["/proj/src/a.ts", "/proj/src/b.ts", "/proj/src/none.ts"]));
    assert_eq!(cache, vec![texts(&["foo", "bar"]), texts(&["bar", "baz"]), Vec::new()]);
}

#[test]
fn tokens_are_counted_by_file() {
    let cache = vec![texts(&["foo", "bar", "foo"]), texts(&["bar", "baz"]), texts(&["bar"])];
    let all = count_tokens_in_scope(&vec![true, true, true], &cache);
    assert_eq!(lookup(&all, &"bar".to_string()), 3);
    assert_eq!(lookup(&all, &"foo".to_string()), 1);
    assert_eq!(lookup(&all, &"baz".to_string()), 1);
    assert_eq!(lookup(&all, &"none".to_string()), 0);
    let some = count_tokens_in_scope(&vec![true, false, true], &cache);
    assert_eq!(lookup(&some, &"bar".to_string()), 2);
    assert_eq!(lookup(&some, &"baz".to_string()), 0);
    let short = count_tokens_in_scope(&vec![true], &cache);
    assert_eq!(lookup(&short, &"bar".to_string()), 1);
}

#[test]
fn export_names_in_other_files() {
    let cache = vec![texts(&["foo", "bar"]), texts(&["bar"])];
    let counts = count_tokens_in_scope(&vec![true, true], &cache);
    let reachable = vec![true, true];
    let files = texts(&["/a", "/b"]);
    assert!(export_appears_in_other_reachable_files(&counts, "bar", &reachable, 0));
    assert!(!export_appears_in_other_reachable_files(&counts, "foo", &reachable, 0));
    assert!(!export_appears_in_other_reachable_files(&counts, "none", &reachable, 0));
    assert!(!export_appears_in_other_reachable_files(&counts, "", &reachable, 0));
    assert!(export_appears_in_other_project_files(&counts, "bar", &files, 0));
    assert!(!export_appears_in_other_project_files(&counts, "foo", &files, 0));
    let lone = count_tokens_in_scope(&vec![true], &vec![texts(&["foo"])]);
    assert!(export_appears_in_other_reachable_files(&lone, "foo", &vec![true], 0));
    assert!(!export_appears_in_other_reachable_files(&lone, "foo", &vec![true], 3));
    assert!(!export_appears_in_other_reachable_files(&lone, "foo", &vec![true, true], 0));
    assert!(export_appears_in_other_project_files(&lone, "foo", &texts(&["/a"]), 0));
    assert!(!export_appears_in_other_project_files(&lone, "foo", &texts(&["/a", "/b"]), 0));
}

#[test]
fn usage_is_collected_from_reachable_modules() {
    let r = haadi::resolver::Resolver {
        files: texts(&["/proj/src/index.ts", "/proj/src/a.ts", "/proj/src/b.ts", "/proj/src/c.ts"]),
        root: "/proj".to_string(),
        base_dirs: Vec::new(),
        alias_rules: Vec::new(),
    };
    let ms = vec![
        parse_module("import D, { x, y as z } from './a';\nimport './b';\nexport { k } from './c';\n"),
        parse_module("import * as all from './b';\n"),
        parse_module("import { hidden } from './c';\n"),
        parse_module(""),
    ];
    let usage = collect_export_usage(&vec![true, true, false, true], &ms, &r);
    assert_eq!(usage.len(), 4);
    assert!(!usage[1].all && usage[1].default_used);
    assert_eq!(usage[1].names, vec!["x", "y"]);
    assert!(usage[2].all && !usage[2].default_used && usage[2].names.is_empty());
    assert!(usage[3].all && usage[3].names.is_empty());
    assert!(!usage[0].all && !usage[0].default_used && usage[0].names.is_empty());
}

#[test]
fn exports_are_kept_in_order() {
    let mut list = Vec::new();
    for (f, e) in [("b.ts", "x"), ("a.ts", "z"), ("b.ts", "a"), ("a.ts", "z"), ("a.ts", "default")] {
        insert_export(&mut list, UnusedExport { file: f.to_string(), export: e.to_string() });
    }
    assert_eq!(
        pairs(&list),
        vec![pair("a.ts", "default"), pair("a.ts", "z"), pair("b.ts", "a"), pair("b.ts", "x")]
    );
    let unsorted = vec![
        UnusedExport { file: "b".to_string(), export: "1".to_string() },
        UnusedExport { file: "a".to_string(), export: "2".to_string() },
        UnusedExport { file: "b".to_string(), export: "1".to_string() },
    ];
    assert_eq!(pairs(&sort_exports(&unsorted)), vec![pair("a", "2"), pair("b", "1")]);
}

#[test]
fn exports_are_judged() {
    let files = texts(&["/proj/src/index.ts", "/proj/src/a.ts", "/proj/src/b.ts", "/proj/src/c.test.ts", "/proj/src/d.ts"]);
    let sources = [
        "import { used } from './a';\nimport './b';\nimport './d';\n",
        "export const used = 1;\nexport const idle = 2;\nexport const seen = 3;\nexport default used;\n",
        "export * from './a';\nexport const fromB = seen;\n",
        "export const t = 1;\n",
        "export const maybe = 1;\n",
    ];
    let ms: Vec<_> = sources.iter().map(|s| parse_module(s)).collect();
    let r = haadi::resolver::Resolver {
        files: files.clone(),
        root: "/proj".to_string(),
        base_dirs: Vec::new(),
        alias_rules: Vec::new(),
    };
    let reachable = vec![true, true, true, true, true];
    let maybe = vec![false, false, false, false, true];
    let usage = collect_export_usage(&reachable, &ms, &r);
    let cache: Vec<Vec<String>> = sources.iter().map(|s| file_tokens(s)).collect();
    let counts = count_tokens_in_scope(&reachable, &cache);
    let found = judge_exports("/proj", &files, &ms, &vec![0, 3], &reachable, &maybe, &usage, &counts, &counts);
    assert_eq!(pairs(&found.unused), vec![pair("src/b.ts", "fromB")]);
    assert_eq!(pairs(&found.suppressed), Vec::new());
    assert_eq!(found.forwarding, vec!["src/b.ts"]);

    let lonely = vec![true, true, false, false, false];
    let usage = collect_export_usage(&lonely, &ms, &r);
    let reach_counts = count_tokens_in_scope(&lonely, &cache);
    let found = judge_exports("/proj", &files, &ms, &vec![0], &lonely, &vec![false; 5], &usage, &reach_counts, &counts);
    assert_eq!(pairs(&found.unused), vec![pair("src/a.ts", "default"), pair("src/a.ts", "idle")]);
    assert_eq!(pairs(&found.suppressed), vec![pair("src/a.ts", "used"), pair("src/a.ts", "seen")]);
    assert!(found.forwarding.is_empty());
}

#[test]
fn report_lists_are_shown_below_the_root() {
    let files = texts(&["/proj/src/b.ts", "/proj/src/a.ts", "/proj/vite.config.ts", "/proj/src/x.test.ts", "/proj/src/c.ts"]);
    let idle = mark_idle_files(&files, &vec![false, false, false, false, true]);
    assert_eq!(idle, vec![true, true, false, false, false]);
    assert_eq!(show_marked("/proj", &files, &idle), vec!["src/a.ts", "src/b.ts"]);
    assert_eq!(show_entries("/proj", &files, &vec![4, 0, 9]), vec!["src/c.ts", "src/b.ts"]);
    let assets = texts(&["/proj/public/a.png", "/proj/src/b.png", "/proj/src/c.png"]);
    assert_eq!(mark_idle_assets(&assets, &vec![false, false, true]), vec![false, true, false]);
}

#[test]
fn unused_dependencies_are_selected_and_sorted() {
    let declared = vec![
        DependencyRecord { name: "zeta".to_string(), kind: DepKind::Prod },
        DependencyRecord { name: "@types/node".to_string(), kind: DepKind::Prod },
        DependencyRecord { name: "jest".to_string(), kind: DepKind::Dev },
        DependencyRecord { name: "react".to_string(), kind: DepKind::Peer },
        DependencyRecord { name: "alpha".to_string(), kind: DepKind::Prod },
        DependencyRecord { name: "used".to_string(), kind: DepKind::Prod },
        DependencyRecord { name: "opt".to_string(), kind: DepKind::Optional },
    ];
    let used = texts(&["used", "react"]);
    assert_eq!(unused_dependencies(&declared, &used, false), vec!["alpha", "zeta"]);
    assert_eq!(unused_dependencies(&declared, &used, true), vec!["alpha", "jest", "opt", "zeta"]);
    assert!(unused_dependencies(&Vec::new(), &used, true).is_empty());
}

#[test]
fn warnings_come_in_their_order() {
    let forwarding = texts(&["src/b.ts"]);
    let all: Vec<String> = warnings_of(true, 0, 0, 3, 2, Some((&forwarding, 5))).iter().map(|w| w.message()).collect();
    assert_eq!(
        all,
        vec![
            "Analysis is conservative by default to minimize false positives.",
            "No assets matched --asset-roots filter; asset findings may be empty.",
            "No entry files discovered. Pass --entry to improve unused file accuracy.",
            "Skipped high-risk findings because 3 local/alias imports could not be resolved.",
            "Suppressed unused-export findings for 2 files potentially referenced by unresolved imports.",
            "src/b.ts re-exports '*' and may need manual verification.",
            "Suppressed 5 unused-export findings because the symbol appears in other reachable files.",
        ]
    );
    let quiet = warnings_of(false, 0, 1, 0, 7, Some((&Vec::new(), 0)));
    assert_eq!(quiet.len(), 1);
    assert!(matches!(quiet[0], Warning::Conservative));
    let omitted = warnings_of(true, 4, 1, 12, 0, None);
    assert_eq!(omitted.len(), 4);
    assert!(matches!(omitted[1], Warning::UnresolvedImports(12)));
    assert!(matches!(omitted[2], Warning::FindingsOmitted));
    assert!(matches!(omitted[3], Warning::AssetsOmitted));
}

#[test]
fn analysis_in_three_steps() {
    let tree = project(&[
        ("src/index.ts", "import { a } from './a';\nexport * from './b';\n"),
        ("src/a.ts", "export const a = 1;\nexport const spare = 2;\n"),
        ("src/b.ts", "export * from './a';\n"),
        ("src/idle.ts", "export const i = 1;\n"),
        ("src/jest.config.ts", ""),
        ("src/pic.png", ""),
    ]);
    let s = survey(&tree, &plain()).unwrap();
    assert_eq!(s.files.len(), 5);
    assert_eq!(s.assets, vec!["/proj/src/pic.png"]);
    assert_eq!(s.entries, vec![0]);
    assert_eq!(s.reachable, vec![true, true, true, false, false]);
    assert_eq!(parse_modules(&tree, &s.files).len(), 5);
    let risky = Some(assess(&tree, &s));
    let report = assemble(&tree, &plain(), &s, &risky);
    assert_eq!(report.unused_files, vec!["src/idle.ts"]);
    assert_eq!(report.unused_assets, vec!["src/pic.png"]);
    assert!(report.used_assets.is_empty());
    assert!(report.unused_exports.is_empty());
    assert_eq!(report.summary.total_source_files, 5);
    assert_eq!(report.summary.total_reachable_files, 3);
    assert_eq!(report.summary.total_entries, 1);
    assert_eq!(report.summary.used_assets_count, 0);
    assert_eq!(report.root, "/proj");
    let whole = analyze(&tree, &plain()).unwrap();
    assert_eq!(whole.report.summary, report.summary);
    let none = assemble(&tree, &plain(), &s, &None);
    assert!(none.unused_files.is_empty());
    assert!(none.summary.omitted_risky_findings);
    assert_eq!(none.summary.used_assets_count, 1);
}

#[test]
fn asset_roots_narrow_the_assets() {
    let tree = project(&[("src/index.ts", ""), ("src/a/x.png", ""), ("src/b/y.png", "")]);
    let mut options = plain();
    options.asset_roots = texts(&["src/a"]);
    let a = analyze(&tree, &options).unwrap();
    assert_eq!(a.report.unused_assets, vec!["src/a/x.png"]);
    assert_eq!(a.report.summary.total_asset_files, 1);
    options.asset_roots = texts(&["nowhere"]);
    let b = analyze(&tree, &options).unwrap();
    assert!(b.report.unused_assets.is_empty());
    assert!(b.report.warnings.iter().any(|w| matches!(w, Warning::NoAssetsMatched)));
}

#[test]
fn rows_are_ordered_by_path() {
    let rows = build_delete_candidates(&texts(&["src/b.ts", "src/a.ts"]), &texts(&["src/a.png", "src/b.ts"]));
    let shown: Vec<(String, CandidateKind)> = rows.iter().map(|r| (r.rel_path.clone(), r.kind)).collect();
    assert_eq!(
        shown,
        vec![
            ("src/a.png".to_string(), CandidateKind::Asset),
            ("src/a.ts".to_string(), CandidateKind::File),
            ("src/b.ts".to_string(), CandidateKind::File),
            ("src/b.ts".to_string(), CandidateKind::Asset),
        ]
    );
    assert!(rows.iter().all(|r| r.state == CandidateState::Active));
    let mut rows = rows;
    upsert_candidate_state(&mut rows, "src/a.ts", CandidateKind::File, CandidateState::Deleted);
    assert_eq!(rows[1].state, CandidateState::Deleted);
    assert_eq!(rows.len(), 4);
    upsert_candidate_state(&mut rows, "src/new.ts", CandidateKind::File, CandidateState::Deleted);
    assert_eq!(rows.len(), 5);
    assert_eq!(rows[4].rel_path, "src/new.ts");
    assert_eq!(CandidateKind::File.label(), "file");
    assert_eq!(CandidateKind::Asset.label(), "asset");
}

#[test]
fn filters_follow_each_other() {
    assert_eq!(DeleteFilter::All.next(), DeleteFilter::Files);
    assert_eq!(DeleteFilter::Files.next(), DeleteFilter::Assets);
    assert_eq!(DeleteFilter::Assets.next(), DeleteFilter::All);
    assert_eq!(DeleteFilter::All.label(), "all");
    assert_eq!(DeleteFilter::Files.label(), "files");
    assert_eq!(DeleteFilter::Assets.label(), "assets");
}

#[test]
fn searches_become_matchers() {
    assert!(matches!(build_search_matcher("  "), SearchMatcher::Any));
    assert!(matches!(build_search_matcher(" Src/A "), SearchMatcher::Substring(q) if q == "src/a"));
    assert!(matches!(build_search_matcher("re:^src/.*\\.ts$"), SearchMatcher::Pattern(p) if p == "^src/.*\\.ts$"));
    assert!(matches!(build_search_matcher("re:("), SearchMatcher::Substring(q) if q == "re:("));
    assert!(matches!(build_search_matcher("/a+/"), SearchMatcher::Pattern(p) if p == "a+"));
    assert!(matches!(build_search_matcher("/"), SearchMatcher::Substring(q) if q == "/"));
    assert!(matches!(build_search_matcher("src/*.ts"), SearchMatcher::Pattern(p) if p == "^src/.*\\.ts$"));
    assert!(matches!(build_search_matcher("a?c"), SearchMatcher::Pattern(p) if p == "^a.c$"));
    assert!(matches!(build_search_matcher("a.ts"), SearchMatcher::Pattern(p) if p == "a.ts"));
    assert!(matches!(build_search_matcher("a(b"), SearchMatcher::Substring(q) if q == "a(b"));
    assert_eq!(glob_like_to_regex("a*b?.c"), "^a.*b.\\.c$");
    assert!(looks_like_regex("a.b"));
    assert!(looks_like_regex("a|b"));
    assert!(!looks_like_regex("a*b"));
    assert!(!looks_like_regex("plain/path"));
    assert_eq!(normalized_rel_query(" ./src\\a/ "), "src/a");
}

#[test]
fn matchers_match_paths() {
    assert!(SearchMatcher::Any.matches("anything"));
    assert!(build_search_matcher("SRC").matches("a/Src/b.ts"));
    assert!(!build_search_matcher("lib").matches("a/Src/b.ts"));
    assert!(build_search_matcher("re:^SRC/").matches("src/a.ts"));
    assert!(!build_search_matcher("re:^lib/").matches("src/a.ts"));
    assert!(build_search_matcher("src/*.TS").matches("src/a.ts"));
    assert!(!build_search_matcher("src/*.ts").matches("lib/src/a.ts"));
    assert!(!SearchMatcher::Pattern("(".to_string()).matches("("));
}

#[test]
fn rows_are_filtered_and_selected() {
    let mut rows = build_delete_candidates(&texts(&["src/a.ts", "src/b.ts"]), &texts(&["img/x.png"]));
    upsert_candidate_state(&mut rows, "src/b.ts", CandidateKind::File, CandidateState::Deleted);
    assert_eq!(filtered_indices(&rows, DeleteFilter::All, ""), vec![0, 1]);
    assert_eq!(filtered_indices(&rows, DeleteFilter::Files, " "), vec![1]);
    assert_eq!(filtered_indices(&rows, DeleteFilter::Assets, ""), vec![0]);
    assert_eq!(filtered_indices(&rows, DeleteFilter::All, "src"), vec![1, 2]);
    assert_eq!(filtered_indices(&rows, DeleteFilter::All, "*.png"), vec![0]);
    assert_eq!(filtered_indices(&rows, DeleteFilter::Assets, "src"), Vec::<usize>::new());
    assert_eq!(clamp_delete_cursor(5, 3), 2);
    assert_eq!(clamp_delete_cursor(1, 3), 1);
    assert_eq!(clamp_delete_cursor(4, 0), 0);
    let shown = vec![0, 2];
    let mut selected = Vec::new();
    toggle_selected(&mut selected, &shown, 1);
    assert_eq!(selected, vec![2]);
    toggle_selected(&mut selected, &shown, 0);
    assert_eq!(selected, vec![2, 0]);
    toggle_selected(&mut selected, &shown, 1);
    assert_eq!(selected, vec![0]);
    toggle_selected(&mut selected, &shown, 7);
    assert_eq!(selected, vec![0]);
}

#[test]
fn keys_on_the_delete_page() {
    assert_eq!(handle_summary_key(Key::Char('q')), SummaryAction::Quit);
    assert_eq!(handle_summary_key(Key::Esc), SummaryAction::Quit);
    assert_eq!(handle_summary_key(Key::Char('d')), SummaryAction::ShowDeletePage);
    assert_eq!(handle_summary_key(Key::Enter), SummaryAction::Stay);
    let mut s = DeleteState {
        items: build_delete_candidates(&texts(&["src/a.ts", "src/b.ts"]), &texts(&["img/x.png"])),
        selected: Vec::new(),
        cursor: 0,
        pending: Pending::Nothing,
        filter: DeleteFilter::All,
        search_query: String::new(),
        search_input: String::new(),
        editing_search: false,
        message: String::new(),
    };
    assert_eq!(handle_delete_key(Key::Char('x'), &mut s), Action::Nothing);
    assert_eq!(s.message, "No items selected for deletion.");
    assert_eq!(handle_delete_key(Key::Down, &mut s), Action::Nothing);
    assert_eq!(handle_delete_key(Key::Char('j'), &mut s), Action::Nothing);
    assert_eq!(handle_delete_key(Key::Char('j'), &mut s), Action::Nothing);
    assert_eq!(s.cursor, 2);
    assert_eq!(handle_delete_key(Key::Up, &mut s), Action::Nothing);
    assert_eq!(s.cursor, 1);
    assert_eq!(handle_delete_key(Key::Char(' '), &mut s), Action::Nothing);
    assert_eq!(s.selected, vec![1]);
    assert_eq!(s.message, "Selected 1 items.");
    assert_eq!(handle_delete_key(Key::Char('a'), &mut s), Action::Nothing);
    assert_eq!(s.selected, vec![0, 1, 2]);
    assert_eq!(s.message, "Selected 3 items.");
    assert_eq!(handle_delete_key(Key::Char('x'), &mut s), Action::Nothing);
    assert_eq!(s.pending, Pending::Delete);
    assert_eq!(s.message, "Confirm delete 3 selected files? Press y to confirm, n to cancel.");
    assert_eq!(handle_delete_key(Key::Char('q'), &mut s), Action::Nothing);
    assert_eq!(s.pending, Pending::Delete);
    assert_eq!(handle_delete_key(Key::Char('n'), &mut s), Action::Nothing);
    assert_eq!(s.pending, Pending::Nothing);
    assert_eq!(s.message, "Deletion canceled.");
    assert_eq!(handle_delete_key(Key::Char('x'), &mut s), Action::Nothing);
    assert_eq!(handle_delete_key(Key::Char('y'), &mut s), Action::DeleteSelected);
    assert_eq!(s.pending, Pending::Nothing);
    assert_eq!(handle_delete_key(Key::Char('z'), &mut s), Action::Nothing);
    assert_eq!(handle_delete_key(Key::Char('y'), &mut s), Action::EmptyTrash);
    assert_eq!(handle_delete_key(Key::Char('r'), &mut s), Action::Nothing);
    assert_eq!(handle_delete_key(Key::Esc, &mut s), Action::Nothing);
    assert_eq!(s.message, "Restore previous session canceled.");
    assert_eq!(handle_delete_key(Key::Char('R'), &mut s), Action::Nothing);
    assert_eq!(handle_delete_key(Key::Char('y'), &mut s), Action::RestoreAllSessions);
    assert_eq!(handle_delete_key(Key::Char('c'), &mut s), Action::Nothing);
    assert!(s.selected.is_empty());
    assert_eq!(handle_delete_key(Key::Char('f'), &mut s), Action::Nothing);
    assert_eq!(s.filter, DeleteFilter::Files);
    assert_eq!(s.message, "Filter: files");
    assert_eq!(s.cursor, 1);
    assert_eq!(handle_delete_key(Key::Char('/'), &mut s), Action::Nothing);
    assert!(s.editing_search);
    for c in "pngx".chars() {
        assert_eq!(handle_delete_key(Key::Char(c), &mut s), Action::Nothing);
    }
    assert_eq!(handle_delete_key(Key::Backspace, &mut s), Action::Nothing);
    assert_eq!(s.search_input, "png");
    assert_eq!(handle_delete_key(Key::Enter, &mut s), Action::Nothing);
    assert!(!s.editing_search);
    assert_eq!(s.search_query, "png");
    assert_eq!(s.message, "Search applied: 'png'.");
    assert_eq!(s.cursor, 0);
    assert_eq!(handle_delete_key(Key::Char('/'), &mut s), Action::Nothing);
    assert_eq!(handle_delete_key(Key::Esc, &mut s), Action::Nothing);
    assert_eq!(s.message, "Search edit canceled.");
    assert_eq!(s.search_query, "png");
    reset_filter_and_search(&mut s);
    assert_eq!(s.filter, DeleteFilter::All);
    assert_eq!(s.search_query, "");
    assert_eq!(s.message, "Reset filter and search.");
    assert_eq!(handle_delete_key(Key::Char('u'), &mut s), Action::UndoLastDeletion);
    assert_eq!(handle_delete_key(Key::Char('i'), &mut s), Action::RestoreFile);
    assert_eq!(handle_delete_key(Key::Char('o'), &mut s), Action::RestoreFolder);
    assert_eq!(handle_delete_key(Key::Char('b'), &mut s), Action::ShowSummary);
    assert_eq!(handle_delete_key(Key::Esc, &mut s), Action::ShowSummary);
    assert_eq!(handle_delete_key(Key::Char('q'), &mut s), Action::Quit);
    assert_eq!(handle_delete_key(Key::Other, &mut s), Action::Nothing);
}
