use haadi::assets::{
    asset_reference_candidates, collect_string_literals, collect_used_assets,
    filter_assets_by_roots, glob_path_pattern_to_regex, resolve_asset_candidate,
    resolve_asset_specifier, resolve_assets_from_import_meta_globs,
    resolve_assets_from_source_imports, resolve_glob_specifier_to_rel_pattern, scan_text,
    to_rel_pattern, Scan,
};
use haadi::entries::{discover_entries, is_framework_convention_entry};
use haadi::graph::{
    collect_unresolved_local_imports, collect_used_packages, import_sites,
    infer_potentially_used_files_from_unresolved, reachable_files, UnresolvedImport,
};
use haadi::json::{collect_strings, JsonValue};
use haadi::manifest::{
    collect_declared_dependencies, insert_dep_kind, manifest_dependencies,
    manifest_entry_candidates, package_json_entry_candidates, DepKind, ManifestError,
};
use haadi::parser::{parse_module, ModuleInfo};
use haadi::resolver::Resolver;
use haadi::tree::{FileEntry, ProjectTree};

fn texts(list: &[&str]) -> Vec<String> {
    list.iter().map(|s| s.to_string()).collect()
}

fn project(files: &[(&str, &str)]) -> ProjectTree {
    ProjectTree {
        root: "/proj".to_string(),
        directories: texts(&["/proj", "/proj/src"]),
        files: files
            .iter()
            .map(|(p, t)| FileEntry { path: format!("/proj/{p}"), text: t.to_string() })
            .collect(),
    }
}

fn plain_resolver(files: &[&str]) -> Resolver {
    Resolver {
        files: texts(files),
        root: "/proj".to_string(),
        base_dirs: texts(&["/proj", "/proj/src"]),
        alias_rules: vec![],
    }
}

fn modules(sources: &[&str]) -> Vec<ModuleInfo> {
    sources.iter().map(|s| parse_module(s)).collect()
}

fn text(s: &str) -> JsonValue {
    JsonValue::Text(s.to_string())
}

fn object(members: Vec<(&str, JsonValue)>) -> JsonValue {
    JsonValue::Object(members.into_iter().map(|(k, v)| (k.to_string(), v)).collect())
}

#[test]
fn json_values_are_looked_into() {
    let doc = object(vec![("a", text("x")), ("b", JsonValue::Array(vec![text("y"), JsonValue::Null])), ("a", text("second"))]);
    assert!(matches!(doc.get("a"), Some(JsonValue::Text(s)) if s == "x"));
    assert!(doc.get("c").is_none());
    assert_eq!(doc.get_str("a"), Some(&"x".to_string()));
    assert_eq!(doc.get_str("b"), None);
    assert_eq!(doc.get("b").unwrap().as_array().unwrap().len(), 2);
    assert!(doc.as_object().is_some());
    assert!(text("x").as_object().is_none());
    assert!(text("x").get("a").is_none());
    assert_eq!(text("x").as_str(), Some(&"x".to_string()));
    let mut out = vec!["start".to_string()];
    collect_strings(
        &object(vec![
            ("import", text("./a.mjs")),
            ("nested", JsonValue::Array(vec![object(vec![("deep", text("./b.js"))]), JsonValue::Number, text("./c.js")])),
            ("flag", JsonValue::Bool(true)),
        ]),
        &mut out,
    );
    assert_eq!(out, vec!["start", "./a.mjs", "./b.js", "./c.js"]);
}

#[test]
fn manifest_names_entries() {
    let doc = object(vec![
        ("main", text("dist/index.js")),
        ("module", JsonValue::Number),
        ("types", text("types.d.ts")),
        ("browser", text("b.js")),
        ("bin", object(vec![("cli", text("bin/cli.js")), ("n", JsonValue::Null)])),
        ("exports", object(vec![(".", object(vec![("import", text("./e.mjs"))]))])),
    ]);
    assert_eq!(
        manifest_entry_candidates(&doc),
        vec!["dist/index.js", "types.d.ts", "b.js", "bin/cli.js", "./e.mjs"]
    );
    let doc = object(vec![("bin", text("cli.js"))]);
    assert_eq!(manifest_entry_candidates(&doc), vec!["cli.js"]);
    assert!(manifest_entry_candidates(&JsonValue::Null).is_empty());
}

#[test]
fn manifest_is_read_from_the_tree() {
    let tree = project(&[("package.json", "{\"main\": \"src/start.ts\", \"exports\": [\"./a.js\", {\"x\": \"./b.js\"}]}")]);
    assert_eq!(package_json_entry_candidates(&tree).unwrap(), vec!["src/start.ts", "./a.js", "./b.js"]);
    assert!(package_json_entry_candidates(&project(&[])).unwrap().is_empty());
    let bad = project(&[("package.json", "nope")]);
    assert_eq!(package_json_entry_candidates(&bad).err(), Some(ManifestError::Invalid));
    assert_eq!(collect_declared_dependencies(&bad).err(), Some(ManifestError::Invalid));
    assert!(collect_declared_dependencies(&project(&[])).unwrap().is_empty());
}

#[test]
fn dependencies_keep_their_first_kind() {
    let doc = object(vec![
        ("devDependencies", object(vec![("both", text("1")), ("jest", text("1"))])),
        ("dependencies", object(vec![("both", text("1")), ("lodash", text("1"))])),
        ("peerDependencies", object(vec![("react", text("1"))])),
        ("optionalDependencies", object(vec![("fsevents", text("1")), ("react", text("1"))])),
    ]);
    let deps: Vec<(String, DepKind)> =
        manifest_dependencies(&doc).into_iter().map(|d| (d.name, d.kind)).collect();
    assert_eq!(
        deps,
        vec![
            ("both".to_string(), DepKind::Prod),
            ("lodash".to_string(), DepKind::Prod),
            ("jest".to_string(), DepKind::Dev),
            ("react".to_string(), DepKind::Peer),
            ("fsevents".to_string(), DepKind::Optional),
        ]
    );
    let mut out = Vec::new();
    insert_dep_kind(&mut out, &doc, "missing", DepKind::Dev);
    insert_dep_kind(&mut out, &object(vec![("k", text("not an object"))]), "k", DepKind::Dev);
    assert!(out.is_empty());
    let tree = project(&[("package.json", "{\"dependencies\": {\"b\": \"1\", \"a\": \"1\"}}")]);
    let names: Vec<String> = collect_declared_dependencies(&tree).unwrap().into_iter().map(|d| d.name).collect();
    assert_eq!(names.len(), 2);
    assert!(names.contains(&"a".to_string()) && names.contains(&"b".to_string()));
}

#[test]
fn framework_conventions_make_entries() {
    assert!(is_framework_convention_entry("/proj", "/proj/pages/about.tsx"));
    assert!(is_framework_convention_entry("/proj", "/proj/src/pages/a/b.tsx"));
    assert!(is_framework_convention_entry("/proj", "/proj/app/blog/page.tsx"));
    assert!(is_framework_convention_entry("/proj", "/proj/src/app/layout.tsx"));
    assert!(is_framework_convention_entry("/proj", "/proj/app/not-found.js"));
    assert!(!is_framework_convention_entry("/proj", "/proj/app/blog/helper.tsx"));
    assert!(!is_framework_convention_entry("/proj", "/proj/lib/pages/a.tsx"));
    assert!(!is_framework_convention_entry("/proj", "/other/pages/a.tsx"));
    assert!(!is_framework_convention_entry("/proj", "/proj/src/index.ts"));
}

#[test]
fn entries_come_from_hints_or_from_everything_else() {
    let files = texts(&[
        "/proj/src/index.ts",
        "/proj/src/start.ts",
        "/proj/src/a.test.ts",
        "/proj/pages/home.tsx",
        "/proj/src/lonely.ts",
        "/proj/cli.js",
    ]);
    let tree = project(&[("package.json", "{\"main\": \"src/start\", \"bin\": \"cli.js\"}")]);
    assert_eq!(discover_entries(&tree, &files, &Vec::new()).unwrap(), vec![0, 1, 2, 3, 5]);
    assert_eq!(discover_entries(&tree, &files, &texts(&["src/lonely.ts"])).unwrap(), vec![4]);
    assert_eq!(discover_entries(&tree, &files, &texts(&["src/lonely", "cli.js", "none"])).unwrap(), vec![4, 5]);
    assert!(discover_entries(&tree, &files, &texts(&["none.ts"])).unwrap().is_empty());
    let bad = project(&[("package.json", "{")]);
    assert_eq!(discover_entries(&bad, &files, &Vec::new()).err(), Some(ManifestError::Invalid));
    assert_eq!(discover_entries(&bad, &files, &texts(&["cli.js"])).unwrap(), vec![5]);
    assert!(discover_entries(&bad, &files, &texts(&["none.ts"])).unwrap().is_empty());
    assert!(discover_entries(&project(&[]), &texts(&["/proj/src/x.ts"]), &Vec::new()).unwrap().is_empty());
}

#[test]
fn reachability_follows_imports() {
    let files = ["/proj/src/index.ts", "/proj/src/a.ts", "/proj/src/b.ts", "/proj/src/c.ts", "/proj/src/d.ts"];
    let r = plain_resolver(&files);
    let ms = modules(&[
        "import './a';\nimport 'lodash';\n",
        "export * from './b';\nimport x from './missing';\n",
        "import { i } from './index';\n",
        "import './d';\n",
        "",
    ]);
    assert_eq!(reachable_files(&vec![0], &ms, &r), vec![true, true, true, false, false]);
    assert_eq!(reachable_files(&vec![3], &ms, &r), vec![false, false, false, true, true]);
    assert_eq!(reachable_files(&vec![4, 4, 9], &ms, &r), vec![false, false, false, false, true]);
    assert_eq!(reachable_files(&Vec::new(), &ms, &r), vec![false; 5]);
    assert_eq!(reachable_files(&vec![0], &Vec::new(), &r), vec![true, false, false, false, false]);
    let marks = reachable_files(&vec![0], &ms, &r);
    for (i, module) in ms.iter().enumerate() {
        if marks[i] {
            for import in &module.imports {
                if let Some(j) = r.resolve_specifier(files[i], &import.specifier) {
                    assert!(marks[j]);
                }
            }
        }
    }
    let sites: Vec<(usize, usize)> = import_sites(&marks, &ms).iter().map(|s| (s.module, s.import)).collect();
    assert_eq!(sites, vec![(0, 0), (0, 1), (1, 0), (1, 1), (2, 0)]);
}

#[test]
fn unresolved_imports_and_the_files_they_may_mean() {
    let files = ["/proj/src/index.ts", "/proj/src/util/helper.ts", "/proj/src/other.ts", "/proj/lib/thing/index.ts"];
    let r = plain_resolver(&files);
    let ms = modules(&[
        "import a from './helper';\nimport b from './helper';\nimport c from '@/thing';\nimport d from 'lodash';\nimport e from './style.css';\nimport f from './other';\n",
        "",
        "",
        "",
    ]);
    let existing = texts(&["/proj/src/style.css"]);
    let marks = vec![true, false, false, false];
    let unresolved = collect_unresolved_local_imports(&marks, &ms, &r, &existing);
    let pairs: Vec<(usize, String)> = unresolved.iter().map(|u| (u.from_file, u.specifier.clone())).collect();
    assert_eq!(pairs, vec![(0, "./helper".to_string())]);
    let both = vec![
        UnresolvedImport { from_file: 0, specifier: "./helper".to_string() },
        UnresolvedImport { from_file: 0, specifier: "@/thing".to_string() },
    ];
    let maybe = infer_potentially_used_files_from_unresolved(&texts(&files), &both, "/proj");
    assert_eq!(maybe, vec![false, true, false, true]);
    let none = infer_potentially_used_files_from_unresolved(&texts(&files), &Vec::new(), "/proj");
    assert_eq!(none, vec![false; 4]);
}

#[test]
fn used_packages_are_named_once() {
    let files = ["/proj/src/index.ts", "/proj/src/a.ts", "/proj/src/b.ts"];
    let r = plain_resolver(&files);
    let ms = modules(&[
        "import _ from 'lodash/fp';\nimport x from 'lodash';\nimport a from './a';\nimport b from 'b';\nimport s from '@scope/pkg/x';\nimport l from 'local.thing';\n",
        "import r from 'react';\n",
        "import v from 'vue';\n",
    ]);
    let marks = vec![true, true, false];
    assert_eq!(collect_used_packages(&marks, &ms, &r), vec!["lodash", "b", "@scope/pkg", "react"]);
}

#[test]
fn string_literals_and_globs_are_scanned() {
    assert_eq!(
        scan_text(Scan::Literals, "a('x'); b(\"y\\\"z\"); c(`t`); d('')"),
        vec!["x", "y\\\"z", "t"]
    );
    assert_eq!(
        scan_text(Scan::Globs, "import.meta.glob('./a/*.svg'); import.meta.glob( \"/b/**\" ); import.meta.glob(`c`)"),
        vec!["./a/*.svg", "/b/**", "c"]
    );
    let tree = project(&[("src/a.ts", "x = './logo.png?url'; y = \"plain\";")]);
    let pool = collect_string_literals(&tree, &texts(&["/proj/src/a.ts", "/proj/src/none.ts"]));
    assert_eq!(pool, vec!["./logo.png?url", "./logo.png", "plain"]);
}

#[test]
fn asset_specifiers_resolve_by_their_class() {
    let assets = texts(&["/proj/src/logo.png", "/proj/img/a.svg", "/proj/src/styles/index.css"]);
    assert_eq!(resolve_asset_candidate("/proj/src/logo", &assets), Some(0));
    assert_eq!(resolve_asset_candidate("/proj/src/styles", &assets), Some(2));
    assert_eq!(resolve_asset_candidate("/proj/src/logo.svg", &assets), None);
    assert_eq!(resolve_asset_specifier("/proj", "/proj/src/x.ts", "./logo.png", &assets), Some(0));
    assert_eq!(resolve_asset_specifier("/proj", "/proj/src/x.ts", "../img/a.svg", &assets), Some(1));
    assert_eq!(resolve_asset_specifier("/proj", "/proj/src/x.ts", "/img/a.svg", &assets), Some(1));
    assert_eq!(resolve_asset_specifier("/proj", "/proj/x.ts", "@/logo.png", &assets), Some(0));
    assert_eq!(resolve_asset_specifier("/proj", "/proj/x.ts", "~/styles", &assets), Some(2));
    assert_eq!(resolve_asset_specifier("/proj", "/proj/x.ts", "src/logo.png", &assets), Some(0));
    assert_eq!(resolve_asset_specifier("/proj", "/proj/x.ts", "img/a.svg", &assets), None);
    assert_eq!(resolve_asset_specifier("/proj", "/proj/x.ts", "logo.png", &assets), None);
}

#[test]
fn glob_patterns_become_regular_expressions() {
    assert_eq!(glob_path_pattern_to_regex("src/icons/*.svg"), "^src/icons/[^/]*\\.svg$");
    assert_eq!(glob_path_pattern_to_regex("a/**/b?.png"), "^a/.*/b[^/]\\.png$");
    assert_eq!(glob_path_pattern_to_regex("a+b(c)"), "^a\\+b\\(c\\)$");
    assert_eq!(glob_path_pattern_to_regex(""), "^$");
    assert_eq!(to_rel_pattern("/proj", "/proj/src/./icons/../img/*.svg"), Some("src/img/*.svg".to_string()));
    assert_eq!(to_rel_pattern("/proj", "/other/x"), None);
    assert_eq!(to_rel_pattern("/proj", "/proj"), None);
    assert_eq!(
        resolve_glob_specifier_to_rel_pattern("/proj", "/proj/src/app.ts", "./icons/*.svg"),
        Some("src/icons/*.svg".to_string())
    );
    assert_eq!(
        resolve_glob_specifier_to_rel_pattern("/proj", "/proj/src/app.ts", "/public/*.png"),
        Some("public/*.png".to_string())
    );
    assert_eq!(
        resolve_glob_specifier_to_rel_pattern("/proj", "/proj/src/app.ts", "@/a/*.png"),
        Some("src/a/*.png".to_string())
    );
    assert_eq!(
        resolve_glob_specifier_to_rel_pattern("/proj", "/proj/src/app.ts", "~/a/*.png"),
        Some("src/a/*.png".to_string())
    );
    assert_eq!(
        resolve_glob_specifier_to_rel_pattern("/proj", "/proj/src/app.ts", "src/*.png"),
        Some("src/*.png".to_string())
    );
    assert_eq!(resolve_glob_specifier_to_rel_pattern("/proj", "/proj/src/app.ts", "lib/*.png"), None);
}

#[test]
fn assets_are_used_in_four_ways() {
    let tree = project(&[
        ("src/app.ts", "import logo from './img/logo.png';\nconst all = import.meta.glob('./icons/**/*.svg');\nconst f = 'fonts/a.woff2';\n"),
    ]);
    let sources = texts(&["/proj/src/app.ts"]);
    let assets = texts(&[
        "/proj/src/img/logo.png",
        "/proj/src/icons/a.svg",
        "/proj/src/icons/deep/b.svg",
        "/proj/src/icons/c.png",
        "/proj/src/fonts/a.woff2",
        "/proj/public/robots.txt",
        "/proj/src/unused.css",
    ]);
    assert_eq!(
        resolve_assets_from_source_imports(&tree, &sources, &assets),
        vec![true, false, false, false, false, false, false]
    );
    assert_eq!(
        resolve_assets_from_import_meta_globs(&tree, &sources, &assets),
        vec![false, false, true, false, false, false, false]
    );
    assert_eq!(
        collect_used_assets(&tree, &sources, &assets),
        vec![true, false, true, false, true, true, false]
    );
}

#[test]
fn references_to_an_asset() {
    let mut refs = asset_reference_candidates("/proj", "/proj/src/img/logo.png");
    assert_eq!(refs.len(), 42);
    refs.sort();
    for expected in [
        "src/img/logo.png",
        "/src/img/logo.png",
        "img/logo.png",
        "/img/logo.png",
        "@/img/logo.png",
        "~/img/logo.png",
        "logo.png",
        "logo.png?url",
        "@/img/logo.png?react",
        "src/img/logo.png?component",
    ] {
        assert!(refs.contains(&expected.to_string()), "{expected}");
    }
    let refs = asset_reference_candidates("/proj", "/proj/public/robots.txt");
    assert!(refs.contains(&"/robots.txt".to_string()));
    assert!(refs.contains(&"robots.txt?raw".to_string()));
    assert_eq!(refs.len(), 24);
}

#[test]
fn assets_are_filtered_by_roots() {
    let assets = texts(&["/proj/src/assets/a.png", "/proj/src/assets2/b.png", "/proj/public/c.png", "/proj/src/assets"]);
    assert_eq!(filter_assets_by_roots("/proj", &assets, &Vec::new()), assets);
    assert_eq!(filter_assets_by_roots("/proj", &assets, &texts(&["  ", "/"])), assets);
    assert_eq!(
        filter_assets_by_roots("/proj", &assets, &texts(&["./src/assets/"])),
        vec!["/proj/src/assets/a.png", "/proj/src/assets"]
    );
    assert_eq!(
        filter_assets_by_roots("/proj", &assets, &texts(&["public", "src\\assets2"])),
        vec!["/proj/src/assets2/b.png", "/proj/public/c.png"]
    );
    assert!(filter_assets_by_roots("/proj", &assets, &texts(&["none"])).is_empty());
}
