use haadi::analysis::analyze;
use haadi::report::Options;
use haadi::tokens::file_tokens;
use haadi::tree::{FileEntry, ProjectTree};

fn sample() -> ProjectTree {
    let files: Vec<(&str, &str)> = vec![
        ("package.json", "{\"dependencies\": {\"lodash\": \"1\", \"react\": \"1\", \"@types/x\": \"1\"}, \"devDependencies\": {\"jest\": \"1\"}}"),
        ("tsconfig.json", "{\"compilerOptions\": {\"baseUrl\": \"src\", \"paths\": {\"@/*\": [\"src/*\"]}}}"),
        ("src/index.ts", "import { a } from '@/lib/a';\nimport React from 'react';\nimport './style.css';\nconst pics = import.meta.glob('./img/*.png');\n"),
        ("src/lib/a.ts", "import { b } from './b';\nexport const a = b;\nexport const onlyHere = 1;\nexport default a;\n"),
        ("src/lib/b.ts", "export const b = 1;\nexport function quiet() {}\n"),
        ("src/lib/island.ts", "import { b } from './b';\nexport const far = b;\n"),
        ("src/lib/a.test.ts", "import { a } from './a';\n"),
        ("src/style.css", ""),
        ("src/img/one.png", ""),
        ("src/img/two.png", ""),
        ("src/fonts/f.woff", ""),
        ("public/robots.txt", ""),
    ];
    let mut directories = vec!["/proj".to_string()];
    for dir in ["src", "src/lib", "src/img", "src/fonts", "public"] {
        directories.push(format!("/proj/{dir}"));
    }
    ProjectTree {
        root: "/proj".to_string(),
        directories,
        files: files
            .iter()
            .map(|(p, t)| FileEntry { path: format!("/proj/{p}"), text: t.to_string() })
            .collect(),
    }
}

fn plain() -> Options {
    Options {
        entries: Vec::new(),
        include_non_prod_deps: false,
        include_low_confidence: false,
        asset_roots: Vec::new(),
    }
}

#[test]
fn what_a_reachable_module_imports_is_reachable() {
    let a = analyze(&sample(), &plain()).unwrap();
    let s = &a.survey;
    assert_eq!(s.reachable, vec![true, true, true, false, true]);
    for (i, module) in s.modules.iter().enumerate() {
        if s.reachable[i] {
            for import in &module.imports {
                if let Some(j) = s.resolver.resolve_specifier(&s.files[i], &import.specifier) {
                    assert!(s.reachable[j], "{} imports {}", s.files[i], s.files[j]);
                }
            }
        }
    }
}

#[test]
fn no_reachable_module_imports_an_unused_file() {
    let a = analyze(&sample(), &plain()).unwrap();
    let s = &a.survey;
    assert!(a.report.summary.high_confidence_graph);
    assert_eq!(a.report.unused_files, vec!["src/lib/island.ts"]);
    for unused in &a.report.unused_files {
        let path = format!("/proj/{unused}");
        let j = s.files.iter().position(|f| *f == path).unwrap();
        for (i, module) in s.modules.iter().enumerate() {
            if s.reachable[i] {
                for import in &module.imports {
                    assert_ne!(s.resolver.resolve_specifier(&s.files[i], &import.specifier), Some(j));
                }
            }
        }
    }
}

#[test]
fn used_and_unused_assets_do_not_meet() {
    let a = analyze(&sample(), &plain()).unwrap();
    assert_eq!(
        a.report.used_assets,
        vec!["public/robots.txt", "src/img/one.png", "src/img/two.png", "src/style.css"]
    );
    assert_eq!(a.report.unused_assets, vec!["src/fonts/f.woff"]);
    for used in &a.report.used_assets {
        assert!(!a.report.unused_assets.contains(used));
    }
    for shown in a.report.used_assets.iter().chain(a.report.unused_assets.iter()) {
        assert!(a.survey.assets.contains(&format!("/proj/{shown}")));
    }
}

#[test]
fn unused_dependencies_are_declared_and_not_imported() {
    let a = analyze(&sample(), &plain()).unwrap();
    assert_eq!(a.report.unused_dependencies, vec!["lodash"]);
    for name in &a.report.unused_dependencies {
        assert!(a.survey.declared.iter().any(|d| d.name == *name));
        assert!(!a.survey.used_packages.contains(name));
    }
    let mut options = plain();
    options.include_non_prod_deps = true;
    let b = analyze(&sample(), &options).unwrap();
    assert_eq!(b.report.unused_dependencies, vec!["jest", "lodash"]);
}

#[test]
fn unused_named_exports_stand_in_no_other_file() {
    let tree = sample();
    let a = analyze(&tree, &plain()).unwrap();
    let found: Vec<(String, String)> =
        a.report.unused_exports.iter().map(|e| (e.file.clone(), e.export.clone())).collect();
    assert_eq!(
        found,
        vec![
            ("src/lib/a.ts".to_string(), "default".to_string()),
            ("src/lib/a.ts".to_string(), "onlyHere".to_string()),
            ("src/lib/b.ts".to_string(), "quiet".to_string()),
        ]
    );
    for (file, export) in found {
        if export == "default" {
            continue;
        }
        for entry in &tree.files {
            if entry.path != format!("/proj/{file}") && a.survey.files.contains(&entry.path) {
                assert!(!file_tokens(&entry.text).contains(&export), "{export} in {}", entry.path);
            }
        }
    }
}

#[test]
fn every_path_of_the_report_lies_below_the_root() {
    let tree = sample();
    let a = analyze(&tree, &plain()).unwrap();
    let r = &a.report;
    let files: Vec<&String> = r
        .entries
        .iter()
        .chain(r.unused_files.iter())
        .chain(r.used_assets.iter())
        .chain(r.unused_assets.iter())
        .chain(r.unused_exports.iter().map(|e| &e.file))
        .collect();
    assert!(!files.is_empty());
    for shown in files {
        assert!(!shown.starts_with('/'));
        assert!(!shown.contains('\\'));
        assert!(tree.files.iter().any(|f| f.path == format!("/proj/{shown}")), "{shown}");
    }
    assert_eq!(r.entries, vec!["src/index.ts", "src/lib/a.test.ts"]);
}
