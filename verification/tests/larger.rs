use haadi::analysis::analyze;
use haadi::report::Options;
use haadi::tree::{FileEntry, ProjectTree};

#[test]
fn chain_of_modules_is_followed_to_its_end() {
    let count = 150;
    let mut files = Vec::new();
    for i in 0..count {
        let name = if i == 0 { "index".to_string() } else { format!("m{i}") };
        let mut text = String::new();
        if i + 1 < count {
            text.push_str(&format!("import {{ value{} }} from './m{}';\n", i + 1, i + 1));
        }
        text.push_str(&format!("export const value{i} = {i};\nexport const spare{i} = 0;\n"));
        for k in 0..40 {
            text.push_str(&format!("const local_{i}_{k} = helper_{k}(value{i}); // note {k}\n"));
        }
        files.push(FileEntry { path: format!("/proj/src/{name}.ts"), text });
    }
    files.push(FileEntry { path: "/proj/src/island.ts".to_string(), text: "export const alone = 1;\n".to_string() });
    let tree = ProjectTree {
        root: "/proj".to_string(),
        directories: vec!["/proj".to_string(), "/proj/src".to_string()],
        files,
    };
    let options = Options {
        entries: Vec::new(),
        include_non_prod_deps: false,
        include_low_confidence: false,
        asset_roots: Vec::new(),
    };
    let a = analyze(&tree, &options).unwrap();
    assert_eq!(a.report.summary.total_source_files, count + 1);
    assert_eq!(a.report.summary.total_reachable_files, count);
    assert_eq!(a.report.unused_files, vec!["src/island.ts"]);
    assert_eq!(a.report.unused_exports.len(), count - 1);
    assert!(a.report.unused_exports.iter().all(|e| e.export.starts_with("spare")));
    assert!(a.report.summary.high_confidence_graph);
}
