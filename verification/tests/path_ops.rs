use haadi::paths::{
    canonicalize, find_text, has_asset_extension, has_source_extension, has_text,
    is_common_config_file, is_declaration_file, is_ignored_dir, is_public_asset,
    is_test_like_file, join_components, normalize_path_components, path_extension,
    path_file_name, path_file_stem, path_join, path_parent, path_with_extension,
    relative_display, strip_file_extension,
};
use haadi::text::{from_chars, to_chars};

fn canon(p: &str) -> String {
    from_chars(&canonicalize(&to_chars(p)))
}

fn ext(p: &str) -> Option<String> {
    path_extension(&to_chars(p)).map(|v| from_chars(&v))
}

fn with_ext(p: &str, e: &str) -> String {
    from_chars(&path_with_extension(&to_chars(p), e))
}

fn joined(a: &str, b: &str) -> String {
    from_chars(&path_join(&to_chars(a), &to_chars(b)))
}

#[test]
fn file_names_and_extensions() {
    assert_eq!(from_chars(&path_file_name(&to_chars("/a/b/c.ts"))), "c.ts");
    assert_eq!(from_chars(&path_file_name(&to_chars("c.ts"))), "c.ts");
    assert_eq!(ext("/a/b/c.ts"), Some("ts".to_string()));
    assert_eq!(ext("/a/b/c.d.ts"), Some("ts".to_string()));
    assert_eq!(ext("/a/b/.eslintrc"), None);
    assert_eq!(ext("/a/b/c"), None);
    assert_eq!(ext("/a.b/c"), None);
    assert_eq!(ext("/a/.."), None);
    assert_eq!(ext("/a/c."), Some("".to_string()));
    assert_eq!(from_chars(&path_file_stem(&to_chars("/a/b/c.test.ts"))), "c.test");
    assert_eq!(from_chars(&path_file_stem(&to_chars("/a/.env"))), ".env");
    assert_eq!(from_chars(&path_file_stem(&to_chars("/a/page"))), "page");
}

#[test]
fn extensions_agree_with_std() {
    for p in ["/a/b/c.ts", "c", ".hidden", "a.b.c", "/x.y/z", "/a/c.", "a/.b.c"] {
        let std_ext = std::path::Path::new(p).extension().map(|e| e.to_str().unwrap().to_string());
        assert_eq!(ext(p), std_ext, "{p}");
        let std_stem = std::path::Path::new(p).file_stem().map(|e| e.to_str().unwrap().to_string());
        assert_eq!(Some(from_chars(&path_file_stem(&to_chars(p)))), std_stem, "{p}");
        let std_with = std::path::Path::new(p).with_extension("js");
        assert_eq!(with_ext(p, "js"), std_with.to_str().unwrap(), "{p}");
    }
}

#[test]
fn replacing_the_extension() {
    assert_eq!(with_ext("/a/b/c", "ts"), "/a/b/c.ts");
    assert_eq!(with_ext("/a/b/c.js", "ts"), "/a/b/c.ts");
    assert_eq!(with_ext("/a/b/c.js", ""), "/a/b/c");
    assert_eq!(with_ext("/a/b/", "ts"), "/a/b/");
    assert_eq!(with_ext("/a/..", "ts"), "/a/..");
    assert_eq!(with_ext("/a/.env", "ts"), "/a/.env.ts");
}

#[test]
fn parents_and_joins() {
    assert_eq!(path_parent(&to_chars("/a/b/c.ts")).map(|v| from_chars(&v)), Some("/a/b".to_string()));
    assert_eq!(path_parent(&to_chars("/a")).map(|v| from_chars(&v)), Some("/".to_string()));
    assert_eq!(path_parent(&to_chars("a")).map(|v| from_chars(&v)), Some("".to_string()));
    assert_eq!(path_parent(&to_chars("/")), None);
    assert_eq!(path_parent(&to_chars("")), None);
    assert_eq!(joined("/a/b", "c"), "/a/b/c");
    assert_eq!(joined("/a/b/", "c"), "/a/b/c");
    assert_eq!(joined("/a/b", "/c"), "/c");
    assert_eq!(joined("", "c"), "c");
    assert_eq!(joined("/a", "./b/../c"), "/a/./b/../c");
    assert_eq!(joined("/", "x"), "/x");
}

#[test]
fn canonical_paths_resolve_dots() {
    assert_eq!(canon("/a/./b/../c"), "/a/c");
    assert_eq!(canon("/a//b/"), "/a/b");
    assert_eq!(canon("/.."), "/");
    assert_eq!(canon("/a/b/../../.."), "/");
    assert_eq!(canon("a/../b"), "b");
    assert_eq!(canon("/proj/src/./util/x"), "/proj/src/util/x");
    assert_eq!(normalize_path_components("/a/./b/../c"), vec!["a", "c"]);
    assert_eq!(normalize_path_components("../x"), vec!["x"]);
    assert!(normalize_path_components("/").is_empty());
    let parts = vec![to_chars("a"), to_chars("b")];
    assert_eq!(from_chars(&join_components(&parts)), "a/b");
    assert_eq!(from_chars(&join_components(&Vec::new())), "");
}

#[test]
fn paths_are_shown_below_the_root() {
    assert_eq!(relative_display("/proj", "/proj/src/a.ts"), "src/a.ts");
    assert_eq!(relative_display("/proj", "/proj"), "");
    assert_eq!(relative_display("/proj", "/project/a.ts"), "/project/a.ts");
    assert_eq!(relative_display("/proj", "/other/a.ts"), "/other/a.ts");
    assert_eq!(relative_display("/", "/a.ts"), "a.ts");
    assert_eq!(relative_display("", "a.ts"), "a.ts");
}

#[test]
fn source_and_asset_extensions() {
    for e in ["js", "jsx", "ts", "tsx", "mjs", "cjs"] {
        assert!(has_source_extension(&format!("/p/a.{e}")), "{e}");
    }
    assert!(!has_source_extension("/p/a.d.ts"));
    assert!(!has_source_extension("/p/a.json"));
    assert!(!has_source_extension("/p/ts"));
    assert!(!has_source_extension("/p/a.TS"));
    for e in [
        "png", "jpg", "jpeg", "gif", "webp", "avif", "svg", "ico", "bmp", "tiff", "mp4", "webm",
        "mp3", "wav", "ogg", "woff", "woff2", "ttf", "otf", "eot", "pdf", "txt", "css", "scss",
        "sass", "less",
    ] {
        assert!(has_asset_extension(&format!("/p/a.{e}")), "{e}");
    }
    assert!(!has_asset_extension("/p/a.ts"));
    assert!(!has_asset_extension("/p/a.json"));
    assert!(is_declaration_file("/p/types/a.d.ts"));
    assert!(!is_declaration_file("/p/a.ts"));
    assert!(!is_declaration_file("/p/a.d.ts/b.ts"));
}

#[test]
fn public_assets_lie_under_a_public_directory() {
    assert!(is_public_asset("/proj/public/logo.png"));
    assert!(is_public_asset("/proj/app/public/img/logo.png"));
    assert!(!is_public_asset("/proj/src/publicity/logo.png"));
    assert!(!is_public_asset("/proj/src/logo.png"));
}

#[test]
fn tests_are_known_by_name_or_place() {
    assert!(is_test_like_file("/p/src/a.test.ts"));
    assert!(is_test_like_file("/p/src/a.spec.tsx"));
    assert!(is_test_like_file("/p/src/__tests__/a.ts"));
    assert!(is_test_like_file("C:\\p\\__tests__\\a.ts"));
    assert!(is_test_like_file("__tests__/a.ts"));
    assert!(is_test_like_file("/p/__tests__"));
    assert!(!is_test_like_file("/p/src/my__tests__x/a.ts"));
    assert!(!is_test_like_file("/p/src/__tests__x/a.ts"));
    assert!(!is_test_like_file("/p/src/test.ts"));
    assert!(!is_test_like_file("/p/src/a.tests.ts"));
    assert!(!is_test_like_file("/p/a.test.dir/b.ts"));
}

#[test]
fn configuration_files_are_known_by_name() {
    assert!(is_common_config_file("/p/vite.config.ts"));
    assert!(is_common_config_file("/p/jest.config.cjs"));
    assert!(is_common_config_file("/p/MyConfig.js"));
    assert!(is_common_config_file("/p/.eslintrc.js"));
    assert!(is_common_config_file("/p/.prettierrc"));
    assert!(is_common_config_file("/p/.stylelintrc.json"));
    assert!(is_common_config_file("/p/.babelrc"));
    assert!(is_common_config_file("/p/i18next-parser.config.js"));
    assert!(!is_common_config_file("/p/src/index.ts"));
    assert!(!is_common_config_file("/p/config/index.ts"));
    assert!(!is_common_config_file("/p/eslintrc.js"));
}

#[test]
fn ignored_directories() {
    for name in ["node_modules", ".git", ".haadi_trash", "dist", "build", "coverage", "target", ".next", "out"] {
        assert!(is_ignored_dir(&format!("/p/{name}")), "{name}");
    }
    assert!(!is_ignored_dir("/p/src"));
    assert!(!is_ignored_dir("/p/node_modules/x"));
    assert!(!is_ignored_dir("/p/outer"));
}

#[test]
fn stripping_the_extension_of_the_last_name() {
    assert_eq!(strip_file_extension("src/a.test.ts"), "src/a.test");
    assert_eq!(strip_file_extension("src.d/a"), "src.d/a");
    assert_eq!(strip_file_extension("a"), "a");
    assert_eq!(strip_file_extension(".eslintrc"), "");
    assert_eq!(strip_file_extension("src/"), "src/");
}

#[test]
fn texts_are_found_in_lists() {
    let list = vec!["a".to_string(), "b".to_string(), "a".to_string()];
    assert_eq!(find_text(&list, &"a".to_string()), Some(0));
    assert_eq!(find_text(&list, &"b".to_string()), Some(1));
    assert_eq!(find_text(&list, &"c".to_string()), None);
    assert!(has_text(&list, &"b".to_string()));
    assert!(!has_text(&list, &"".to_string()));
}
