use haadi::analysis::analyze;
use haadi::report::{Options, Warning};
use haadi::tree::{FileEntry, ProjectTree};

fn project(files: &[(&str, &str)]) -> ProjectTree {
    let mut directories = vec!["/proj".to_string()];
    let mut entries = Vec::new();
    for (path, text) in files {
        let full = format!("/proj/{path}");
        let mut dir = String::from("/proj");
        let parts: Vec<&str> = path.split('/').collect();
        for part in &parts[..parts.len() - 1] {
            dir = format!("{dir}/{part}");
            if !directories.contains(&dir) {
                directories.push(dir.clone());
            }
        }
        entries.push(FileEntry { path: full, text: text.to_string() });
    }
    ProjectTree { root: "/proj".to_string(), directories, files: entries }
}

fn plain() -> Options {
    Options {
        entries: Vec::new(),
        include_non_prod_deps: false,
        include_low_confidence: false,
        asset_roots: Vec::new(),
    }
}

fn exports_of(report: &haadi::report::Report) -> Vec<(String, String)> {
    report.unused_exports.iter().map(|e| (e.file.clone(), e.export.clone())).collect()
}

#[test]
fn trivial_chain_reports_the_export_nothing_imports() {
    let tree = project(&[
        ("src/index.ts", "import { foo } from './a';\n"),
        ("src/a.ts", "export const foo = 1;\nexport const bar = 2;\n"),
    ]);
    let a = analyze(&tree, &plain()).unwrap();
    assert_eq!(a.survey.files, vec!["/proj/src/index.ts", "/proj/src/a.ts"]);
    assert_eq!(a.survey.entries, vec![0]);
    assert_eq!(a.survey.reachable, vec![true, true]);
    assert_eq!(exports_of(&a.report), vec![("src/a.ts".to_string(), "bar".to_string())]);
    assert!(a.report.unused_files.is_empty());
    assert!(a.report.summary.high_confidence_graph);
    assert_eq!(a.report.summary.total_reachable_files, 2);
    assert_eq!(a.report.entries, vec!["src/index.ts"]);
}

#[test]
fn alias_from_the_configuration_resolves() {
    let tree = project(&[
        ("tsconfig.json", "{\n  // paths\n  \"compilerOptions\": { \"paths\": { \"@/*\": [\"./src/*\"], }, },\n}\n"),
        ("src/index.ts", "import { x } from '@/util/x';\n"),
        ("src/util/x.ts", "export const x = 1;\n"),
    ]);
    let a = analyze(&tree, &plain()).unwrap();
    assert_eq!(a.survey.files, vec!["/proj/src/index.ts", "/proj/src/util/x.ts"]);
    assert_eq!(a.survey.reachable, vec![true, true]);
    assert!(a.survey.unresolved.is_empty());
    assert_eq!(a.report.summary.unresolved_local_imports, 0);
    assert_eq!(a.survey.resolver.alias_rules.len(), 1);
    assert_eq!(a.survey.resolver.alias_rules[0].key, "@/*");
    assert_eq!(a.survey.resolver.alias_rules[0].target, "./src/*");
    assert_eq!(a.survey.resolver.alias_rules[0].base_dir, "/proj");
}

#[test]
fn unresolved_import_closes_the_confidence_gate() {
    let tree = project(&[
        ("package.json", "{\"dependencies\": {\"lodash\": \"^4\"}}"),
        ("src/index.ts", "import { gone } from './missing';\n"),
        ("src/other.ts", "export const other = 1;\n"),
        ("src/logo.png", ""),
    ]);
    let a = analyze(&tree, &plain()).unwrap();
    assert!(!a.report.summary.high_confidence_graph);
    assert!(a.report.summary.omitted_risky_findings);
    assert!(a.risky.is_none());
    assert!(a.report.unused_files.is_empty());
    assert!(a.report.unused_assets.is_empty());
    assert!(a.report.used_assets.is_empty());
    assert!(a.report.unused_exports.is_empty());
    assert_eq!(a.report.unused_dependencies, vec!["lodash"]);
    assert_eq!(a.report.summary.unresolved_local_imports, 1);
    let messages: Vec<String> = a.report.warnings.iter().map(|w| w.message()).collect();
    assert_eq!(
        messages,
        vec![
            "Analysis is conservative by default to minimize false positives.",
            "Skipped high-risk findings because 1 local/alias imports could not be resolved.",
            "unused_files and unused_exports omitted (use --include-low-confidence to force).",
            "unused_assets omitted because graph confidence is low (use --include-low-confidence to force).",
        ]
    );
}

#[test]
fn low_confidence_findings_come_when_asked_for() {
    let tree = project(&[
        ("src/index.ts", "import { gone } from './missing';\n"),
        ("src/other.ts", "export const other = 1;\n"),
        ("src/missing-config.ts", "export const c = 1;\n"),
    ]);
    let mut options = plain();
    options.include_low_confidence = true;
    let a = analyze(&tree, &options).unwrap();
    assert!(!a.report.summary.high_confidence_graph);
    assert!(!a.report.summary.omitted_risky_findings);
    assert_eq!(a.report.unused_files, vec!["src/other.ts"]);
}

#[test]
fn token_in_another_file_suppresses_the_finding() {
    let tree = project(&[
        ("src/index.ts", "import './a';\n"),
        ("src/a.ts", "export function helperX() {}\n"),
        ("src/b.ts", "const y = helperX;\n"),
    ]);
    let a = analyze(&tree, &plain()).unwrap();
    assert!(exports_of(&a.report).is_empty());
    assert_eq!(a.report.unused_files, vec!["src/b.ts"]);
    let suppressed = a.report.warnings.iter().any(|w| matches!(w, Warning::SuppressedExports(1)));
    assert!(suppressed);
    let messages: Vec<String> = a.report.warnings.iter().map(|w| w.message()).collect();
    assert!(messages.contains(
        &"Suppressed 1 unused-export findings because the symbol appears in other reachable files."
            .to_string()
    ));
}

#[test]
fn glob_import_marks_the_assets_it_matches() {
    let tree = project(&[
        ("src/app.ts", "const icons = import.meta.glob('./icons/*.svg');\n"),
        ("src/icons/a.svg", ""),
        ("src/icons/b.svg", ""),
        ("src/other/c.svg", ""),
    ]);
    let a = analyze(&tree, &plain()).unwrap();
    assert_eq!(a.report.used_assets, vec!["src/icons/a.svg", "src/icons/b.svg"]);
    assert_eq!(a.report.unused_assets, vec!["src/other/c.svg"]);
    assert_eq!(a.report.summary.total_asset_files, 3);
    assert_eq!(a.report.summary.used_assets_count, 2);
    assert_eq!(a.report.summary.unused_assets_count, 1);
    assert!(a.report.warnings.iter().any(|w| matches!(w, Warning::NoEntries)));
}

#[test]
fn dependencies_by_default_are_those_needed_at_run_time() {
    let tree = project(&[
        ("package.json", "{\"dependencies\": {\"lodash\": \"^4\"}, \"devDependencies\": {\"jest\": \"^29\"}}"),
        ("src/index.ts", "export const x = 1;\n"),
    ]);
    let a = analyze(&tree, &plain()).unwrap();
    assert_eq!(a.report.unused_dependencies, vec!["lodash"]);
    let mut options = plain();
    options.include_non_prod_deps = true;
    let b = analyze(&tree, &options).unwrap();
    assert_eq!(b.report.unused_dependencies, vec!["jest", "lodash"]);
    assert_eq!(b.report.summary.unused_dependencies_count, 2);
}

#[test]
fn imported_package_is_no_unused_dependency() {
    let tree = project(&[
        ("package.json", "{\"dependencies\": {\"lodash\": \"^4\", \"@scope/pkg\": \"1\", \"@types/node\": \"1\", \"left\": \"1\"}}"),
        ("src/index.ts", "import _ from 'lodash/fp';\nimport p from '@scope/pkg/deep';\n"),
    ]);
    let a = analyze(&tree, &plain()).unwrap();
    assert_eq!(a.report.unused_dependencies, vec!["left"]);
    let mut used = a.survey.used_packages.clone();
    used.sort();
    assert_eq!(used, vec!["@scope/pkg", "lodash"]);
}

#[test]
fn manifest_that_is_no_json_fails_the_analysis() {
    let tree = project(&[("package.json", "{ not json"), ("src/index.ts", "")]);
    assert!(analyze(&tree, &plain()).is_err());
}

#[test]
fn analysis_twice_gives_the_same_report() {
    let tree = project(&[
        ("package.json", "{\"dependencies\": {\"b\": \"1\", \"a\": \"1\"}}"),
        ("src/index.ts", "import { foo } from './a';\nexport * from './c';\n"),
        ("src/a.ts", "export const foo = 1;\nexport const bar = 2;\nexport default foo;\n"),
        ("src/c.ts", "export const c = 1;\n"),
        ("src/z.css", ""),
    ]);
    let x = analyze(&tree, &plain()).unwrap().report;
    let y = analyze(&tree, &plain()).unwrap().report;
    assert_eq!(x.summary, y.summary);
    assert_eq!(x.entries, y.entries);
    assert_eq!(x.unused_files, y.unused_files);
    assert_eq!(x.unused_assets, y.unused_assets);
    assert_eq!(x.unused_dependencies, y.unused_dependencies);
    assert_eq!(exports_of(&x), exports_of(&y));
    assert_eq!(x.unused_dependencies, vec!["a", "b"]);
    assert_eq!(
        exports_of(&x),
        vec![
            ("src/a.ts".to_string(), "bar".to_string()),
            ("src/a.ts".to_string(), "default".to_string()),
        ]
    );
    assert_eq!(x.unused_assets, vec!["src/z.css"]);
}

#[test]
fn hints_that_name_nothing_leave_no_entries() {
    let tree = project(&[
        ("src/index.ts", "import './a';\n"),
        ("src/a.ts", "export const a = 1;\n"),
        ("src/a.test.ts", "import './a';\n"),
    ]);
    let mut options = plain();
    options.entries = vec!["src/none.ts".to_string()];
    let a = analyze(&tree, &options).unwrap();
    assert!(a.survey.entries.is_empty());
    assert!(a.report.entries.is_empty());
    assert_eq!(a.report.summary.total_reachable_files, 0);
    assert!(a.report.warnings.iter().any(|w| matches!(w, Warning::NoEntries)));
    options.entries = vec!["src/a".to_string(), "src/none.ts".to_string()];
    let b = analyze(&tree, &options).unwrap();
    assert_eq!(b.report.entries, vec!["src/a.ts"]);
    assert_eq!(b.survey.reachable, vec![false, true, false]);
}

#[test]
fn entries_are_reported_in_ascending_order() {
    let tree = project(&[
        ("src/z.test.ts", ""),
        ("pages/b.tsx", ""),
        ("src/index.ts", ""),
        ("pages/a.tsx", ""),
    ]);
    let a = analyze(&tree, &plain()).unwrap();
    assert_eq!(a.survey.entries, vec![0, 1, 2, 3]);
    assert_eq!(a.report.entries, vec!["pages/a.tsx", "pages/b.tsx", "src/index.ts", "src/z.test.ts"]);
    assert_eq!(a.report.summary.total_entries, 4);
}

#[test]
fn destructuring_require_uses_only_the_names_it_reads() {
    let tree = project(&[
        ("src/index.js", "const { kept, other: renamed } = require('./lib');\nmodule.exports = kept + renamed;\n"),
        ("src/lib.js", "export const kept = 1;\nexport const other = 2;\nexport const spareOne = 3;\n"),
    ]);
    let a = analyze(&tree, &plain()).unwrap();
    assert_eq!(a.survey.modules[0].imports.len(), 1);
    assert_eq!(a.survey.reachable, vec![true, true]);
    assert_eq!(exports_of(&a.report), vec![("src/lib.js".to_string(), "spareOne".to_string())]);
}

#[test]
fn plain_require_uses_the_whole_module() {
    let tree = project(&[
        ("src/index.js", "const lib = require('./lib');\nmodule.exports = lib;\n"),
        ("src/lib.js", "export const kept = 1;\nexport const spareOne = 3;\n"),
    ]);
    let a = analyze(&tree, &plain()).unwrap();
    assert_eq!(a.survey.modules[0].imports.len(), 1);
    assert!(a.survey.modules[0].imports[0].uses_namespace);
    assert!(exports_of(&a.report).is_empty());
}
