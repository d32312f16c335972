use haadi::analysis::{analyze, missing_import_targets};
use haadi::matching::{escape, is_meta_character};
use haadi::paths::{local_extension_list, path_below};
use haadi::report::Options;
use haadi::resolver::{AliasRule, Resolver};
use haadi::tree::{
    collect_asset_files, collect_source_files, is_walked, push_absent, FileEntry, ProjectTree,
};

fn names(list: &[&str]) -> Vec<String> {
    list.iter().map(|s| s.to_string()).collect()
}

fn tree_of(directories: &[&str], files: &[(&str, &str)]) -> ProjectTree {
    ProjectTree {
        root: "/proj".to_string(),
        directories: names(directories),
        files: files
            .iter()
            .map(|(p, t)| FileEntry { path: p.to_string(), text: t.to_string() })
            .collect(),
    }
}

fn defaults() -> Options {
    Options {
        entries: Vec::new(),
        include_non_prod_deps: false,
        include_low_confidence: false,
        asset_roots: Vec::new(),
    }
}

fn chars(s: &str) -> Vec<char> {
    s.chars().collect()
}

#[test]
fn escape_puts_a_back_slash_before_what_a_pattern_would_read() {
    assert_eq!(escape("a.b*c"), "a\\.b\\*c");
    assert_eq!(escape("plain_text 123"), "plain_text 123");
    assert_eq!(escape(""), "");
    assert_eq!(escape("\\.+*?()|[]{}^$#&-~"), "\\\\\\.\\+\\*\\?\\(\\)\\|\\[\\]\\{\\}\\^\\$\\#\\&\\-\\~");
    assert_eq!(escape("src/[id]/page.tsx"), "src/\\[id\\]/page\\.tsx");
}

#[test]
fn escape_agrees_with_the_pattern_library() {
    let mut all = String::new();
    for code in 0u32..0x250 {
        if let Some(c) = char::from_u32(code) {
            all.push(c);
        }
    }
    assert_eq!(escape(&all), regex::escape(&all));
    for c in all.chars() {
        let one = c.to_string();
        assert_eq!(is_meta_character(c), regex::escape(&one) != one);
        let pattern = regex::Regex::new(&format!("^{}$", escape(&one))).unwrap();
        assert!(pattern.is_match(&one));
    }
}

#[test]
fn what_lies_under_the_root() {
    assert_eq!(path_below(&chars("/proj"), &chars("/proj/src/a.ts")), Some(chars("src/a.ts")));
    assert_eq!(path_below(&chars("/proj"), &chars("/proj")), Some(chars("")));
    assert_eq!(path_below(&chars("/"), &chars("/a.ts")), Some(chars("a.ts")));
    assert_eq!(path_below(&chars("/proj"), &chars("/projx/a.ts")), None);
    assert_eq!(path_below(&chars("/proj"), &chars("/other/a.ts")), None);
    assert_eq!(path_below(&chars(""), &chars("a.ts")), None);
    assert!(is_walked("/proj", "/proj/src/a.ts"));
    assert!(is_walked("/proj/build", "/proj/build/a.ts"));
    assert!(!is_walked("/proj", "/proj/build/a.ts"));
    assert!(!is_walked("/proj", "/proj/src/node_modules/x/a.ts"));
    assert!(!is_walked("/proj", "/other/a.ts"));
    assert!(!is_walked("/proj", "a.ts"));
}

#[test]
fn files_outside_the_root_are_neither_modules_nor_assets() {
    let tree = tree_of(
        &["/proj", "/proj/src", "/shared"],
        &[
            ("/proj/src/a.ts", ""),
            ("/shared/util.ts", ""),
            ("/projx/b.ts", ""),
            ("src/c.ts", ""),
            ("/proj/src/logo.png", ""),
            ("/shared/logo.png", ""),
            ("src/logo.png", ""),
        ],
    );
    assert_eq!(collect_source_files(&tree), vec!["/proj/src/a.ts"]);
    assert_eq!(collect_asset_files(&tree), vec!["/proj/src/logo.png"]);
}

#[test]
fn absent_places_are_those_the_tree_lacks() {
    let tree = tree_of(&["/proj", "/proj/src"], &[("/proj/src/a.ts", "")]);
    let mut out = names(&["kept"]);
    push_absent(
        &tree,
        &mut out,
        &names(&["/proj/src", "/proj/none", "/proj/src/a.ts", "/other", "/proj/none"]),
    );
    assert_eq!(out, vec!["kept", "/proj/none", "/other", "/proj/none"]);
}

#[test]
fn candidate_places_of_a_relative_specifier() {
    let r = Resolver {
        files: names(&["/proj/src/a.ts"]),
        root: "/proj".to_string(),
        base_dirs: names(&["/proj", "/proj/src"]),
        alias_rules: vec![],
    };
    let exts = local_extension_list();
    let places = r.candidate_places("/proj/src/a.ts", "./b");
    assert_eq!(places.len(), 1 + 2 * exts.len());
    assert_eq!(places[0], "/proj/src/b");
    assert_eq!(places[1], "/proj/src/b.js");
    assert_eq!(places[3], "/proj/src/b.ts");
    assert_eq!(places[exts.len()], format!("/proj/src/b.{}", exts[exts.len() - 1]));
    assert_eq!(places[exts.len() + 1], "/proj/src/b/index.js");
    assert_eq!(places[2 * exts.len()], format!("/proj/src/b/index.{}", exts[exts.len() - 1]));
    assert_eq!(r.candidate_places("/proj/src/a.ts", "./b.css?inline"), vec!["/proj/src/b.css"]);
    assert_eq!(r.candidate_places("/proj/src/a.ts", "../../shared/util.ts"), vec!["/shared/util.ts"]);
    assert_eq!(r.candidate_places("/proj/src/a.ts", "/public/logo.svg"), vec!["/proj/public/logo.svg"]);
    assert!(r.candidate_places("/proj/src/a.ts", "  ").is_empty());
    assert!(r.candidate_places("/proj/src/a.ts", "react").is_empty());
    assert_eq!(
        r.candidate_places("/proj/src/a.ts", "theme.css"),
        vec!["/proj/theme.css", "/proj/src/theme.css"]
    );
}

#[test]
fn candidate_places_of_an_alias_come_before_the_base_directories() {
    let r = Resolver {
        files: Vec::new(),
        root: "/proj".to_string(),
        base_dirs: names(&["/proj"]),
        alias_rules: vec![
            AliasRule { key: "@lib/*".to_string(), target: "../lib/*".to_string(), base_dir: "/proj".to_string() },
            AliasRule { key: "other/*".to_string(), target: "x/*".to_string(), base_dir: "/proj".to_string() },
            AliasRule { key: "@lib/*".to_string(), target: "vendor/*".to_string(), base_dir: "/proj".to_string() },
        ],
    };
    assert_eq!(
        r.candidate_places("/proj/src/a.ts", "@lib/util.ts"),
        vec!["/lib/util.ts", "/proj/vendor/util.ts", "/proj/@lib/util.ts"]
    );
    let exts = local_extension_list();
    let places = r.candidate_places("/proj/src/a.ts", "@lib/util");
    assert_eq!(places.len(), 2 * (1 + 2 * exts.len()));
    assert_eq!(places[0], "/lib/util");
    assert_eq!(places[1 + 2 * exts.len()], "/proj/vendor/util");
}

#[test]
fn places_and_resolution_agree() {
    let r = Resolver {
        files: Vec::new(),
        root: "/proj".to_string(),
        base_dirs: names(&["/proj", "/proj/src"]),
        alias_rules: vec![AliasRule {
            key: "@/*".to_string(),
            target: "src/*".to_string(),
            base_dir: "/proj".to_string(),
        }],
    };
    let existing = names(&["/proj", "/proj/src", "/proj/src/b.ts", "/proj/src/dir", "/proj/src/dir/index.tsx", "/shared/util.mjs"]);
    for specifier in ["./b", "./c", "@/b", "@/dir", "@/none", "../../shared/util", "dir/index.tsx", "b.ts", "x.y", "react"] {
        let places = r.candidate_places("/proj/src/a.ts", specifier);
        let some_known = places.iter().any(|p| existing.contains(p));
        assert_eq!(r.local_specifier_exists("/proj/src/a.ts", specifier, &existing), some_known, "{specifier}");
    }
}

#[test]
fn missing_import_targets_are_the_places_not_in_the_tree() {
    let tree = tree_of(
        &["/proj", "/proj/src"],
        &[
            ("/proj/src/a.ts", "import { u } from '../../shared/util.ts';\nimport './b.ts';\nimport React from 'react';\nimport './gone.css';\n"),
            ("/proj/src/b.ts", "const x = require('/abs.json');\n"),
            ("/proj/build/c.ts", "import './never.ts';\n"),
        ],
    );
    assert_eq!(
        missing_import_targets(&tree),
        vec!["/shared/util.ts", "/proj/src/gone.css", "/proj/abs.json"]
    );
    let none = tree_of(&["/proj"], &[("/proj/a.ts", "import x from 'left-pad';\nexport const a = 1;\n")]);
    assert!(missing_import_targets(&none).is_empty());
}

#[test]
fn missing_import_targets_follow_the_configuration() {
    let tree = tree_of(
        &["/proj", "/proj/src"],
        &[
            ("/proj/tsconfig.json", "{\"compilerOptions\": {\"baseUrl\": \".\", \"paths\": {\"@shared/*\": [\"../shared/*\"]}}}"),
            ("/proj/src/a.ts", "import { u } from '@shared/util.ts';\n"),
        ],
    );
    let places = missing_import_targets(&tree);
    assert!(places.contains(&"/shared/util.ts".to_string()));
    assert!(!places.iter().any(|p| p == "/proj/src/a.ts"));
}

#[test]
fn import_of_a_file_outside_the_root_is_resolved_once_the_tree_holds_it() {
    let source = "import { u } from '../../shared/util';\nexport const a = u;\n";
    let without = tree_of(&["/proj", "/proj/src"], &[("/proj/src/index.ts", source)]);
    let report = analyze(&without, &defaults()).unwrap().report;
    assert_eq!(report.summary.unresolved_local_imports, 1);
    assert!(!report.summary.high_confidence_graph);

    let places = missing_import_targets(&without);
    assert!(places.contains(&"/shared/util.ts".to_string()));

    let with = tree_of(
        &["/proj", "/proj/src", "/shared"],
        &[("/proj/src/index.ts", source), ("/shared/util.ts", "")],
    );
    let report = analyze(&with, &defaults()).unwrap().report;
    assert_eq!(report.summary.unresolved_local_imports, 0);
    assert!(report.summary.high_confidence_graph);
    assert_eq!(report.summary.total_source_files, 1);
    assert_eq!(report.entries, vec!["src/index.ts"]);
    assert!(report.unused_files.is_empty());
    assert!(!missing_import_targets(&with).contains(&"/shared/util.ts".to_string()));
}

#[test]
fn assets_are_reported_once_whatever_else_the_tree_holds() {
    let tree = tree_of(
        &["/proj", "/proj/src"],
        &[
            ("/proj/src/index.ts", "import logo from './logo.png';\nexport const a = logo;\n"),
            ("/proj/src/logo.png", ""),
            ("src/logo.png", ""),
            ("/proj/src/idle.png", ""),
            ("src/idle.png", ""),
            ("/other/src/idle.png", ""),
        ],
    );
    let options = Options { include_low_confidence: true, ..defaults() };
    let report = analyze(&tree, &options).unwrap().report;
    assert_eq!(report.used_assets, vec!["src/logo.png"]);
    assert_eq!(report.unused_assets, vec!["src/idle.png"]);
    assert_eq!(report.summary.total_asset_files, 2);
    assert!(report.used_assets.iter().all(|p| !report.unused_assets.contains(p)));
}
