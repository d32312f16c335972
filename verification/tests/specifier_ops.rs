use haadi::specifier::{
    apply_alias_target, is_relative_specifier, looks_like_package_specifier, match_alias,
    normalize_asset_root, normalize_specifier, package_name, unresolved_leaf_name,
    unresolved_specifier_suffixes,
};

#[test]
fn specifiers_lose_white_space_query_and_fragment() {
    assert_eq!(normalize_specifier("  ./a.svg?react  "), "./a.svg");
    assert_eq!(normalize_specifier("./a#frag?x"), "./a");
    assert_eq!(normalize_specifier("./a ?x"), "./a");
    assert_eq!(normalize_specifier("   "), "");
    assert_eq!(normalize_specifier("?x"), "");
    assert_eq!(normalize_specifier("lodash"), "lodash");
}

#[test]
fn relative_specifiers_start_with_dots() {
    assert!(is_relative_specifier("./a"));
    assert!(is_relative_specifier("../a"));
    assert!(!is_relative_specifier(".a"));
    assert!(!is_relative_specifier("..."));
    assert!(!is_relative_specifier("/a"));
    assert!(!is_relative_specifier(""));
}

#[test]
fn packages_have_no_dot_and_no_leading_sign() {
    assert!(looks_like_package_specifier("lodash"));
    assert!(looks_like_package_specifier("@scope/pkg/deep"));
    assert!(looks_like_package_specifier("utils/foo"));
    assert!(!looks_like_package_specifier("./a"));
    assert!(!looks_like_package_specifier("/a"));
    assert!(!looks_like_package_specifier("#internal"));
    assert!(!looks_like_package_specifier("foo.bar"));
    assert!(looks_like_package_specifier(""));
}

#[test]
fn package_names_are_one_or_two_segments() {
    assert_eq!(package_name("lodash"), "lodash");
    assert_eq!(package_name("lodash/fp"), "lodash");
    assert_eq!(package_name("@scope/pkg/deep/er"), "@scope/pkg");
    assert_eq!(package_name("@scope"), "@scope/");
    assert_eq!(package_name(""), "");
}

#[test]
fn alias_keys_capture_what_the_star_stands_for() {
    assert_eq!(match_alias("@/*", "@/util/x"), Some("util/x".to_string()));
    assert_eq!(match_alias("@/*", "@/"), Some("".to_string()));
    assert_eq!(match_alias("lib/*/index", "lib/a/b/index"), Some("a/b".to_string()));
    assert_eq!(match_alias("@/*", "~/x"), None);
    assert_eq!(match_alias("utils", "utils"), Some("".to_string()));
    assert_eq!(match_alias("utils", "utils/x"), None);
    assert_eq!(match_alias("*", "anything"), Some("anything".to_string()));
    assert_eq!(match_alias("ab*ba", "aba"), None);
    assert_eq!(match_alias("ab*ba", "abba"), Some("".to_string()));
}

#[test]
fn alias_targets_take_the_capture() {
    assert_eq!(apply_alias_target("./src/*", "util/x"), "./src/util/x");
    assert_eq!(apply_alias_target("./src/index.ts", "util/x"), "./src/index.ts");
    assert_eq!(apply_alias_target("*/*", "a"), "a/a");
}

#[test]
fn suffixes_of_a_specifier_that_did_not_resolve() {
    assert_eq!(unresolved_specifier_suffixes("./missing"), vec!["missing"]);
    assert_eq!(unresolved_specifier_suffixes("../../a/b?x"), vec!["a/b"]);
    assert_eq!(unresolved_specifier_suffixes("@/util/x"), vec!["@/util/x", "util/x"]);
    assert_eq!(unresolved_specifier_suffixes("~/util/x"), vec!["util/x", "~/util/x"]);
    assert_eq!(unresolved_specifier_suffixes("@scope/rest/x"), vec!["@scope/rest/x", "rest/x"]);
    assert_eq!(unresolved_specifier_suffixes("src/a"), vec!["a", "src/a"]);
    assert_eq!(unresolved_specifier_suffixes("/abs/a"), vec!["/abs/a", "abs/a"]);
    assert_eq!(unresolved_specifier_suffixes("a\\b"), vec!["a/b"]);
    assert!(unresolved_specifier_suffixes("./").is_empty());
    assert!(unresolved_specifier_suffixes("").is_empty());
}

#[test]
fn leaf_name_of_a_specifier() {
    assert_eq!(unresolved_leaf_name("./a/b.ts"), Some("b".to_string()));
    assert_eq!(unresolved_leaf_name("./a/b/"), Some("b".to_string()));
    assert_eq!(unresolved_leaf_name("@/util/x?raw"), Some("x".to_string()));
    assert_eq!(unresolved_leaf_name("./a/.."), None);
    assert_eq!(unresolved_leaf_name("."), None);
    assert_eq!(unresolved_leaf_name(""), None);
    assert_eq!(unresolved_leaf_name("///"), None);
}

#[test]
fn asset_roots_become_paths_below_the_root() {
    assert_eq!(normalize_asset_root("  ./src/assets/  "), "src/assets");
    assert_eq!(normalize_asset_root("src\\assets"), "src/assets");
    assert_eq!(normalize_asset_root("/public/"), "public");
    assert_eq!(normalize_asset_root("././a"), "a");
    assert_eq!(normalize_asset_root(" / "), "");
}
