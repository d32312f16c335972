use haadi::config::{
    apply_compiler_options_from_config, build_resolver, dedup_paths, discover_related_tsconfigs,
    resolve_tsconfig_reference_path,
};
use haadi::resolver::{local_target_exists, resolve_candidate_path, AliasRule, Resolver};
use haadi::tree::{collect_asset_files, collect_source_files, is_ignored_path, FileEntry, ProjectTree};

fn texts(list: &[&str]) -> Vec<String> {
    list.iter().map(|s| s.to_string()).collect()
}

fn project(dirs: &[&str], files: &[(&str, &str)]) -> ProjectTree {
    ProjectTree {
        root: "/proj".to_string(),
        directories: texts(dirs),
        files: files
            .iter()
            .map(|(p, t)| FileEntry { path: p.to_string(), text: t.to_string() })
            .collect(),
    }
}

fn resolver(files: &[&str]) -> Resolver {
    Resolver {
        files: texts(files),
        root: "/proj".to_string(),
        base_dirs: texts(&["/proj", "/proj/src"]),
        alias_rules: vec![
            AliasRule { key: "@/*".to_string(), target: "./src/*".to_string(), base_dir: "/proj".to_string() },
            AliasRule { key: "lib!".to_string(), target: "lib/index".to_string(), base_dir: "/proj".to_string() },
        ],
    }
}

#[test]
fn candidates_are_tried_in_order() {
    let files = texts(&["/p/a/index.ts", "/p/a.tsx", "/p/a.js", "/p/b.json.ts", "/p/c/index.jsx"]);
    assert_eq!(resolve_candidate_path("/p/a", &files), Some(2));
    assert_eq!(resolve_candidate_path("/p/a.tsx", &files), Some(1));
    assert_eq!(resolve_candidate_path("/p/a.ts", &files), None);
    assert_eq!(resolve_candidate_path("/p/c", &files), Some(4));
    assert_eq!(resolve_candidate_path("/p/b.json", &files), None);
    assert_eq!(resolve_candidate_path("/p/x/../a/./index", &files), Some(0));
    assert_eq!(resolve_candidate_path("/p/missing", &files), None);
    let only_index = texts(&["/p/a/index.ts", "/p/a/index.js"]);
    assert_eq!(resolve_candidate_path("/p/a", &only_index), Some(1));
}

#[test]
fn anything_that_exists_is_a_local_target() {
    let existing = texts(&["/p", "/p/style.css", "/p/data.json", "/p/dir", "/p/pkg/index.scss"]);
    assert!(local_target_exists("/p/style.css", &existing));
    assert!(local_target_exists("/p/style", &existing));
    assert!(local_target_exists("/p/data", &existing));
    assert!(local_target_exists("/p/dir", &existing));
    assert!(local_target_exists("/p/pkg", &existing));
    assert!(!local_target_exists("/p/style.scss", &existing));
    assert!(!local_target_exists("/p/none", &existing));
}

#[test]
fn specifiers_resolve_by_their_class() {
    let r = resolver(&[
        "/proj/src/index.ts",
        "/proj/src/util/x.ts",
        "/proj/src/a.ts",
        "/proj/lib/index.js",
        "/proj/top.ts",
        "/proj/src/deep/mod.tsx",
    ]);
    assert_eq!(r.resolve_specifier("/proj/src/index.ts", "./a"), Some(2));
    assert_eq!(r.resolve_specifier("/proj/src/util/x.ts", "../a?raw"), Some(2));
    assert_eq!(r.resolve_specifier("/proj/src/index.ts", "  ./util/x#f  "), Some(1));
    assert_eq!(r.resolve_specifier("/proj/src/index.ts", "/top"), Some(4));
    assert_eq!(r.resolve_specifier("/proj/src/index.ts", "@/util/x"), Some(1));
    assert_eq!(r.resolve_specifier("/proj/src/index.ts", "lib!"), Some(3));
    assert_eq!(r.resolve_specifier("/proj/src/index.ts", "#lib"), None);
    assert_eq!(r.resolve_specifier("/proj/src/index.ts", "deep/mod.tsx"), Some(5));
    assert_eq!(r.resolve_specifier("/proj/src/index.ts", "top.ts"), Some(4));
    assert_eq!(r.resolve_specifier("/proj/src/index.ts", "deep/mod"), None);
    assert_eq!(r.resolve_specifier("/proj/src/index.ts", "lodash"), None);
    assert_eq!(r.resolve_specifier("/proj/src/index.ts", ""), None);
    assert_eq!(r.resolve_specifier("/proj/src/index.ts", "./missing"), None);
    assert_eq!(r.resolve_specifier("/proj/src/index.ts", "../../outside"), None);
}

#[test]
fn alias_round_trip_on_an_example() {
    let r = resolver(&["/proj/src/index.ts", "/proj/src/util/x.ts", "/proj/src/a/b/c.ts"]);
    for (segment, file) in [("util/x", 1), ("a/b/c", 2), ("index", 0)] {
        let specifier = format!("@/{segment}");
        assert_eq!(haadi::specifier::match_alias("@/*", &specifier), Some(segment.to_string()));
        let target = haadi::specifier::apply_alias_target("./src/*", segment);
        assert_eq!(resolve_candidate_path(&format!("/proj/{target}"), &r.files), Some(file));
        assert_eq!(r.resolve_specifier("/proj/src/index.ts", &specifier), Some(file));
    }
}

#[test]
fn likely_local_specifiers() {
    let r = resolver(&[]);
    assert!(r.is_likely_local_specifier("./a"));
    assert!(r.is_likely_local_specifier("/a"));
    assert!(r.is_likely_local_specifier("@/a"));
    assert!(r.is_likely_local_specifier("lib!"));
    assert!(r.is_likely_local_specifier("file.css"));
    assert!(!r.is_likely_local_specifier("#other"));
    assert!(!r.is_likely_local_specifier("lodash"));
    assert!(!r.is_likely_local_specifier("@scope/pkg"));
    assert!(!r.is_likely_local_specifier("  "));
}

#[test]
fn local_specifier_exists_where_anything_is() {
    let r = resolver(&[]);
    let existing = texts(&["/proj", "/proj/src", "/proj/src/style.css", "/proj/src/data.json"]);
    assert!(r.local_specifier_exists("/proj/src/index.ts", "./style.css", &existing));
    assert!(r.local_specifier_exists("/proj/src/index.ts", "./data", &existing));
    assert!(r.local_specifier_exists("/proj/src/index.ts", "@/style.css", &existing));
    assert!(r.local_specifier_exists("/proj/index.ts", "style.css", &existing));
    assert!(!r.local_specifier_exists("/proj/src/index.ts", "./none", &existing));
    assert!(!r.local_specifier_exists("/proj/src/index.ts", "lodash", &existing));
}

#[test]
fn walked_files_leave_out_ignored_directories() {
    let tree = project(
        &["/proj", "/proj/src", "/proj/node_modules"],
        &[
            ("/proj/src/a.ts", ""),
            ("/proj/src/a.d.ts", ""),
            ("/proj/src/logo.png", ""),
            ("/proj/node_modules/x/index.js", ""),
            ("/proj/dist/a.js", ""),
            ("/proj/dist/a.css", ""),
            ("/proj/readme.md", ""),
            ("/proj/src/a.ts", ""),
        ],
    );
    assert_eq!(collect_source_files(&tree), vec!["/proj/src/a.ts"]);
    assert_eq!(collect_asset_files(&tree), vec!["/proj/src/logo.png"]);
    assert!(is_ignored_path("/proj", "/proj/a/build/b.ts"));
    assert!(!is_ignored_path("/proj", "/proj/a/builder/b.ts"));
    assert!(!is_ignored_path("/proj/build", "/proj/build/b.ts"));
    assert!(tree.is_file(&"/proj/readme.md".to_string()));
    assert!(tree.is_dir(&"/proj/src".to_string()));
    assert!(tree.has_path(&"/proj/src".to_string()));
    assert!(!tree.has_path(&"/proj/none".to_string()));
    assert_eq!(tree.read(&"/proj/none".to_string()), "");
    assert_eq!(tree.all_paths().len(), 11);
}

#[test]
fn configuration_references_name_files() {
    let tree = project(
        &["/proj", "/proj/packages", "/proj/packages/a"],
        &[
            ("/proj/tsconfig.base.json", "{}"),
            ("/proj/shared.json", "{}"),
            ("/proj/packages/a/tsconfig.json", "{}"),
        ],
    );
    assert_eq!(
        resolve_tsconfig_reference_path(&tree, "/proj", "./tsconfig.base.json"),
        Some("/proj/./tsconfig.base.json".to_string())
    );
    assert_eq!(resolve_tsconfig_reference_path(&tree, "/proj", "./tsconfig.base"), None);
    assert_eq!(
        resolve_tsconfig_reference_path(&tree, "/proj", "./shared"),
        Some("/proj/./shared.json".to_string())
    );
    assert_eq!(
        resolve_tsconfig_reference_path(&tree, "/proj", "packages/a"),
        Some("/proj/packages/a/tsconfig.json".to_string())
    );
    assert_eq!(resolve_tsconfig_reference_path(&tree, "/proj", "./missing"), None);
    assert_eq!(resolve_tsconfig_reference_path(&tree, "/proj", "   "), None);
    assert_eq!(
        resolve_tsconfig_reference_path(&tree, "/elsewhere", "/proj/tsconfig.base.json"),
        Some("/proj/tsconfig.base.json".to_string())
    );
}

#[test]
fn related_configurations_are_found_once_each() {
    let tree = project(
        &["/proj", "/proj/packages", "/proj/packages/a", "/proj/packages/b"],
        &[
            ("/proj/tsconfig.json", "{ \"extends\": \"./tsconfig.base.json\", \"references\": [ {\"path\": \"packages/a\"}, {\"path\": \"packages/b\"}, {\"nopath\": 1} ] }"),
            ("/proj/tsconfig.base.json", "{ /* cycle */ \"extends\": \"./tsconfig.json\", }"),
            ("/proj/packages/a/tsconfig.json", "{ \"references\": [ {\"path\": \"../b\"} ] }"),
            ("/proj/packages/b/tsconfig.json", "not json"),
        ],
    );
    let mut out = Vec::new();
    discover_related_tsconfigs(&tree, "/proj/tsconfig.json", &mut out);
    assert_eq!(
        out,
        vec![
            "/proj/tsconfig.json",
            "/proj/tsconfig.base.json",
            "/proj/packages/a/tsconfig.json",
            "/proj/packages/b/tsconfig.json",
        ]
    );
    discover_related_tsconfigs(&tree, "/proj/tsconfig.base.json", &mut out);
    assert_eq!(out.len(), 4);
    let mut none = Vec::new();
    discover_related_tsconfigs(&tree, "/proj/jsconfig.json", &mut none);
    assert!(none.is_empty());
}

#[test]
fn compiler_options_give_base_directories_and_rules() {
    let tree = project(
        &["/proj", "/proj/cfg"],
        &[(
            "/proj/cfg/tsconfig.json",
            "{ \"compilerOptions\": { \"baseUrl\": \"../src\", \"paths\": { \"b/*\": [\"x/*\", 7, \"y/*\"], \"a\": [\"z\"], \"c\": \"not a list\" } } }",
        ), ("/proj/bad.json", "{")],
    );
    let mut r = Resolver { files: vec![], root: "/proj".to_string(), base_dirs: vec![], alias_rules: vec![] };
    apply_compiler_options_from_config(&tree, "/proj/cfg/tsconfig.json", &mut r);
    assert_eq!(r.base_dirs, vec!["/proj/cfg/../src"]);
    let rules: Vec<(String, String, String)> =
        r.alias_rules.iter().map(|a| (a.key.clone(), a.target.clone(), a.base_dir.clone())).collect();
    assert_eq!(
        rules,
        vec![
            ("a".to_string(), "z".to_string(), "/proj/cfg".to_string()),
            ("b/*".to_string(), "x/*".to_string(), "/proj/cfg".to_string()),
            ("b/*".to_string(), "y/*".to_string(), "/proj/cfg".to_string()),
        ]
    );
    apply_compiler_options_from_config(&tree, "/proj/bad.json", &mut r);
    apply_compiler_options_from_config(&tree, "/proj/none.json", &mut r);
    assert_eq!(r.base_dirs.len(), 1);
    assert_eq!(r.alias_rules.len(), 3);
}

#[test]
fn base_directories_are_kept_once() {
    let tree = project(&["/proj", "/proj/src"], &[]);
    let out = dedup_paths(
        &tree,
        texts(&["/proj", "/proj/src", "/proj/./src", "/proj/gone/../src", "/proj/gone", "/proj/gone"]),
    );
    assert_eq!(out, vec!["/proj", "/proj/src", "/proj/gone"]);
}

#[test]
fn resolver_is_built_from_the_configuration() {
    let tree = project(
        &["/proj", "/proj/src"],
        &[
            ("/proj/tsconfig.json", "{ \"compilerOptions\": { \"baseUrl\": \"./src\", \"paths\": { \"@/*\": [\"./src/*\"] } } }"),
            ("/proj/jsconfig.json", "{ \"compilerOptions\": { \"baseUrl\": \".\" } }"),
            ("/proj/src/index.ts", ""),
        ],
    );
    let files = texts(&["/proj/src/index.ts"]);
    let r = build_resolver(&tree, &files);
    assert_eq!(r.files, files);
    assert_eq!(r.root, "/proj");
    assert_eq!(r.base_dirs, vec!["/proj", "/proj/src"]);
    assert_eq!(r.alias_rules.len(), 1);
    assert_eq!(r.resolve_specifier("/proj/src/index.ts", "@/index"), Some(0));
    let bare = build_resolver(&project(&["/proj"], &[]), &files);
    assert_eq!(bare.base_dirs, vec!["/proj", "/proj/src"]);
    assert!(bare.alias_rules.is_empty());
}

#[test]
fn references_that_the_tree_does_not_hold_are_asked_for() {
    let tree = project(
        &["/proj", "/proj/packages"],
        &[
            ("/proj/tsconfig.json", "{ \"extends\": \"../shared/base\", \"references\": [ {\"path\": \"packages\"}, {\"path\": \"./known.json\"}, {\"path\": \" \"}, {\"other\": 1} ], }"),
            ("/proj/known.json", "{}"),
            ("/proj/broken.json", "{"),
        ],
    );
    assert_eq!(
        haadi::config::missing_references(&tree, "/proj/tsconfig.json"),
        vec![
            "/shared/base",
            "/shared/base/tsconfig.json",
            "/shared/base.json",
            "/proj/packages/tsconfig.json",
            "/proj/packages.json",
            "/proj/known.json/tsconfig.json",
        ]
    );
    assert!(haadi::config::missing_references(&tree, "/proj/broken.json").is_empty());
    assert!(haadi::config::missing_references(&tree, "/proj/none.json").is_empty());
    assert_eq!(
        haadi::config::places_of_reference("/proj", "./a/../b.cfg"),
        vec!["/proj/b.cfg", "/proj/b.cfg/tsconfig.json"]
    );
}
