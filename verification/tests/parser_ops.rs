use haadi::parser::{
    assemble_module, find_all, parse_destructured_names, parse_export_list_as_import,
    parse_export_names, parse_import_clause, parse_module, ImportRecord, ModuleMatches,
    IMPORT_FROM,
};
use haadi::stripper::{drop_trailing_commas, sanitize_jsonc, strip_comments};

fn record(specifier: &str) -> ImportRecord {
    ImportRecord::new(specifier.to_string())
}

fn sorted(mut names: Vec<String>) -> Vec<String> {
    names.sort();
    names
}

#[test]
fn comments_go_and_literals_stay() {
    assert_eq!(strip_comments("a // b\nc"), "a \nc");
    assert_eq!(strip_comments("a /* b\n c */ d"), "a \n d");
    assert_eq!(strip_comments("x = '// not a comment';"), "x = '// not a comment';");
    assert_eq!(strip_comments("x = \"/* not */\"; // yes"), "x = \"/* not */\"; ");
    assert_eq!(strip_comments("x = `a // b`"), "x = `a // b`");
    assert_eq!(strip_comments("'it\\'s' // c"), "'it\\'s' ");
    assert_eq!(strip_comments("a // no newline"), "a ");
    assert_eq!(strip_comments("a / b"), "a / b");
    assert_eq!(strip_comments("a /"), "a /");
    assert_eq!(strip_comments(""), "");
}

#[test]
fn unterminated_block_comment_keeps_its_last_character() {
    assert_eq!(strip_comments("a /* b"), "a b");
    assert_eq!(strip_comments("a /*"), "a ");
    assert_eq!(strip_comments("a /* b\nc\n"), "a \n\n");
}

#[test]
fn line_breaks_are_kept() {
    let source = "// one\n/* two\nthree */\ncode();\n'a\nb'\n";
    let stripped = strip_comments(source);
    assert_eq!(stripped.matches('\n').count(), source.matches('\n').count());
    assert_eq!(stripped, "\n\n\ncode();\n'a\nb'\n");
}

#[test]
fn trailing_commas_go_from_json_with_comments() {
    assert_eq!(sanitize_jsonc("{\"a\": [1, 2, ], }"), "{\"a\": [1, 2]}");
    assert_eq!(sanitize_jsonc("{ // c\n \"a\": 1,\n}"), "{ \n \"a\": 1}");
    assert_eq!(sanitize_jsonc("[1,,]"), "[1]");
    assert_eq!(sanitize_jsonc("{\"a\": 1}"), "{\"a\": 1}");
    assert_eq!(drop_trailing_commas("[1, ]".to_string()), "[1]");
    assert_eq!(drop_trailing_commas("[,,,]".to_string()), "[]");
    assert_eq!(drop_trailing_commas("[1 , ,\n ]".to_string()), "[1 ]");
    assert_eq!(drop_trailing_commas("[1, 2]".to_string()), "[1, 2]");
    assert_eq!(drop_trailing_commas("{\"a\": 1, x}".to_string()), "{\"a\": 1, x}");
}

#[test]
fn commas_in_string_literals_stay() {
    assert_eq!(sanitize_jsonc("{\"k\": \"a,}\"}"), "{\"k\": \"a,}\"}");
    assert_eq!(sanitize_jsonc("[\"x, ]\", ]"), "[\"x, ]\"]");
    assert_eq!(sanitize_jsonc("[\"q\\\", ]\", ]"), "[\"q\\\", ]\"]");
    assert_eq!(drop_trailing_commas("{\"k\": \"a,}".to_string()), "{\"k\": \"a,}");
    assert_eq!(sanitize_jsonc("{\"paths\": {\"a,\": [\"b, ]\",],},}"), "{\"paths\": {\"a,\": [\"b, ]\"]}}");
}

#[test]
fn export_names_are_those_handed_out() {
    assert_eq!(parse_export_names("{ a, b as c, type d }"), vec!["a", "c", "d"]);
    assert_eq!(parse_export_names("a, a , b"), vec!["a", "b"]);
    assert_eq!(parse_export_names("default"), vec!["default"]);
    assert_eq!(parse_export_names("x as default"), vec!["default"]);
    assert!(parse_export_names(" , ,").is_empty());
    assert!(parse_export_names("{}").is_empty());
}

#[test]
fn destructured_names_are_the_properties_read() {
    assert_eq!(parse_destructured_names("a, b: renamed"), vec!["a", "b"]);
    assert_eq!(parse_destructured_names(" a , , a "), vec!["a"]);
    assert!(parse_destructured_names("").is_empty());
}

#[test]
fn reexport_lists_name_what_the_other_module_hands_out() {
    let mut r = record("./m");
    parse_export_list_as_import("a, b as c, type d, default, * as ns", &mut r);
    assert_eq!(r.names, vec!["a", "b", "d"]);
    assert!(r.uses_default);
    assert!(r.uses_namespace);
    let mut r = record("./m");
    parse_export_list_as_import("default as X", &mut r);
    assert!(r.names.is_empty());
    assert!(r.uses_default);
    assert!(!r.uses_namespace);
    let mut r = record("./y");
    r.is_reexport = true;
    parse_export_list_as_import("default as Btn, type T, a as b", &mut r);
    assert!(r.uses_default);
    assert_eq!(r.names, vec!["T", "a"]);
    assert!(r.is_reexport);
    assert!(!r.uses_namespace);
    let mut r = record("./m");
    parse_export_list_as_import("type default as D, defaults, x as default", &mut r);
    assert!(r.uses_default);
    assert_eq!(r.names, vec!["defaults", "x"]);
}

#[test]
fn import_clauses() {
    let mut r = record("./m");
    parse_import_clause("React", &mut r);
    assert!(r.uses_default && !r.uses_namespace && r.names.is_empty());

    let mut r = record("./m");
    parse_import_clause("{ a, b as c, type d }", &mut r);
    assert!(!r.uses_default && !r.uses_namespace);
    assert_eq!(r.names, vec!["a", "b", "d"]);

    let mut r = record("./m");
    parse_import_clause("React, { useState }", &mut r);
    assert!(r.uses_default && !r.uses_namespace);
    assert_eq!(r.names, vec!["useState"]);

    let mut r = record("./m");
    parse_import_clause("React, * as All", &mut r);
    assert!(r.uses_default && r.uses_namespace && r.names.is_empty());

    let mut r = record("./m");
    parse_import_clause("* as ns", &mut r);
    assert!(r.uses_namespace);
    assert!(!r.uses_default);
    assert!(r.names.is_empty());

    let mut r = record("./m");
    parse_import_clause("* as ns, { a }", &mut r);
    assert!(r.uses_namespace);
    assert!(!r.uses_default);
    assert_eq!(r.names, vec!["a"]);

    let mut r = record("./m");
    parse_import_clause("{ default as Main, b }", &mut r);
    assert!(!r.uses_default && !r.uses_namespace);
    assert_eq!(r.names, vec!["default", "b"]);

    let mut r = record("./m");
    parse_import_clause("type { T }", &mut r);
    assert!(!r.uses_default);
    assert_eq!(r.names, vec!["T"]);

    let mut r = record("./m");
    parse_import_clause("  ", &mut r);
    assert!(!r.uses_default && !r.uses_namespace && r.names.is_empty());
}

#[test]
fn patterns_match_with_their_groups() {
    let found = find_all(IMPORT_FROM, "import a from './a';\n  import { b } from \"b\"\n");
    assert_eq!(found.len(), 2);
    assert_eq!(found[0][1].as_deref(), Some("a"));
    assert_eq!(found[0][2].as_deref(), Some("./a"));
    assert_eq!(found[1][1].as_deref(), Some("{ b }"));
    assert_eq!(found[1][2].as_deref(), Some("b"));
    assert!(find_all("(", "text").is_empty());
    assert!(find_all("x", "text").len() == 1);
}

#[test]
fn module_has_its_imports_in_the_order_of_the_kinds() {
    let source = "\
import Def, { a, b as c } from './one';
import './side.css';
const fs = require('fs');
const { x, y: z } = require('./two');
const lazy = import('./three');
export { p, q as r } from './four';
export * from './five';
// import ghost from './ghost';
/* import ghost2 from './ghost2'; */
";
    let m = parse_module(source);
    let specs: Vec<&str> = m.imports.iter().map(|i| i.specifier.as_str()).collect();
    assert_eq!(
        specs,
        vec!["./one", "./side.css", "fs", "./two", "./three", "./four", "./five"]
    );
    let one = &m.imports[0];
    assert!(one.uses_default && !one.uses_namespace && !one.side_effect_only && !one.is_reexport);
    assert_eq!(one.names, vec!["a", "b"]);
    let side = &m.imports[1];
    assert!(side.side_effect_only && !side.uses_default && side.names.is_empty());
    let fs = &m.imports[2];
    assert!(fs.uses_namespace && !fs.is_reexport);
    let two = &m.imports[3];
    assert!(!two.uses_namespace);
    assert_eq!(two.names, vec!["x", "y"]);
    let three = &m.imports[4];
    assert!(three.uses_namespace && !three.is_reexport);
    let four = &m.imports[5];
    assert!(four.is_reexport && !four.uses_namespace);
    assert_eq!(four.names, vec!["p", "q"]);
    let five = &m.imports[6];
    assert!(five.is_reexport && five.uses_namespace);
    assert!(m.has_export_all);
    assert!(!m.has_default_export);
    assert!(m.exports.is_empty());
}

#[test]
fn module_has_its_exports() {
    let source = "\
export const a = 1;
export let b = 2;
export var c = 3;
export function d() {}
export class E {}
export interface F {}
export type G = number;
export enum H {}
export async function notSeen() {}
const x = 1, y = 2;
export { x, y as z, type W };
export default d;
";
    let m = parse_module(source);
    assert_eq!(
        sorted(m.exports.clone()),
        sorted(["a", "b", "c", "d", "E", "F", "G", "H", "x", "z", "W"].iter().map(|s| s.to_string()).collect())
    );
    assert_eq!(m.exports, vec!["a", "b", "c", "d", "E", "F", "G", "H", "x", "z", "W"]);
    assert!(m.has_default_export);
    assert!(!m.has_export_all);
    assert!(m.imports.is_empty());
}

#[test]
fn member_require_is_no_import() {
    let m = parse_module("const a = import.meta.require('./x');\nconst b = obj.require('./y');\n");
    assert!(m.imports.is_empty());
    let m = parse_module("const a =require('./x');\n");
    assert_eq!(m.imports.len(), 1);
    assert_eq!(m.imports[0].specifier, "./x");
}

#[test]
fn module_is_assembled_from_matches() {
    let text = |s: &str| Some(s.to_string());
    let m = ModuleMatches {
        import_from: vec![vec![text("import X from 'm'"), text("X"), text("m")]],
        side_effect: vec![],
        require: vec![
            vec![text("{ s, t: u } = require('o')"), text("s, t: u"), text("o")],
            vec![text(" require('p')"), None, text("p")],
        ],
        dynamic: vec![],
        export_declaration: vec![vec![text("export const k"), text("k")], vec![text("export const k"), text("k")]],
        export_list: vec![
            vec![text("export { a as b }"), text("a as b"), None],
            vec![text("export { c } from 'n'"), text("c"), text("n")],
        ],
        export_default: vec![vec![text("export default")]],
        export_all: vec![],
    };
    let info = assemble_module(&m);
    assert_eq!(info.exports, vec!["k", "b"]);
    assert!(info.has_default_export);
    assert_eq!(info.imports.len(), 4);
    assert_eq!(info.imports[0].specifier, "m");
    assert!(info.imports[0].uses_default);
    assert_eq!(info.imports[1].specifier, "o");
    assert_eq!(info.imports[1].names, vec!["s", "t"]);
    assert!(!info.imports[1].uses_namespace);
    assert_eq!(info.imports[2].specifier, "p");
    assert!(info.imports[2].names.is_empty());
    assert!(info.imports[2].uses_namespace);
    assert_eq!(info.imports[3].specifier, "n");
    assert!(info.imports[3].is_reexport);
    assert_eq!(info.imports[3].names, vec!["c"]);
}

#[test]
fn destructuring_require_gives_one_named_record() {
    let m = parse_module("const { a, b: renamed } = require('./x');");
    assert_eq!(m.imports.len(), 1);
    let record = &m.imports[0];
    assert_eq!(record.specifier, "./x");
    assert_eq!(record.names, vec!["a", "b"]);
    assert!(!record.uses_namespace);
    assert!(!record.uses_default);
    assert!(!record.side_effect_only);
    assert!(!record.is_reexport);
}

#[test]
fn destructuring_require_without_spaces_gives_one_named_record() {
    let m = parse_module("const {a}=require(\"./x\");\nconst {\n  b,\n  c: d,\n} = require('./y');\n");
    assert_eq!(m.imports.len(), 2);
    assert_eq!(m.imports[0].specifier, "./x");
    assert_eq!(m.imports[0].names, vec!["a"]);
    assert!(!m.imports[0].uses_namespace);
    assert_eq!(m.imports[1].specifier, "./y");
    assert_eq!(m.imports[1].names, vec!["b", "c"]);
    assert!(!m.imports[1].uses_namespace);
}

#[test]
fn require_after_a_nested_pattern_takes_the_whole_module() {
    let m = parse_module("const { a: { b } } = require('./x');\nif (c) { d = require('./y') }\n");
    assert_eq!(m.imports.len(), 2);
    assert_eq!(m.imports[0].specifier, "./x");
    assert!(m.imports[0].uses_namespace);
    assert!(m.imports[0].names.is_empty());
    assert_eq!(m.imports[1].specifier, "./y");
    assert!(m.imports[1].uses_namespace);
}

#[test]
fn plain_and_destructuring_require_keep_the_order_of_the_text() {
    let m = parse_module("const { a } = require('./one');\nconst two = require('./two');\nrequire('./three');\n");
    let specs: Vec<&str> = m.imports.iter().map(|i| i.specifier.as_str()).collect();
    assert_eq!(specs, vec!["./one", "./two", "./three"]);
    assert_eq!(m.imports[0].names, vec!["a"]);
    assert!(!m.imports[0].uses_namespace);
    assert!(m.imports[1].uses_namespace);
    assert!(m.imports[2].uses_namespace);
}
