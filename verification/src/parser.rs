//! What a module imports and exports, read off its source text with regular
//! expressions once the comments are gone.

use crate::matching::{captures_all, group, group_of, match_view, matches_view, regex_captures};
use crate::order::{push_unique, with_text};
use crate::stripper::{strip_comments, stripped};
use crate::text::{
    contains, contains_char, contains_str, cut, cut_char, equal_str, from_chars, has_char, pieces,
    rows, split, split_once, split_once_char, starts, strip_prefix, texts, to_chars, trim,
    trim_brackets, trim_start_matches, trimmed, without_brackets, without_leading, without_prefix,
};
use vstd::prelude::*;

verus! {

/// One place where a module names another.
pub struct ImportRecord {
    pub specifier: String,
    pub uses_default: bool,
    pub uses_namespace: bool,
    pub names: Vec<String>,
    pub side_effect_only: bool,
    pub is_reexport: bool,
}

/// An `ImportRecord` as plain values.
pub struct ImportView {
    pub specifier: Seq<char>,
    pub uses_default: bool,
    pub uses_namespace: bool,
    pub names: Seq<Seq<char>>,
    pub side_effect_only: bool,
    pub is_reexport: bool,
}

impl View for ImportRecord {
    type V = ImportView;

    open spec fn view(&self) -> ImportView {
        ImportView {
            specifier: self.specifier@,
            uses_default: self.uses_default,
            uses_namespace: self.uses_namespace,
            names: texts(self.names@),
            side_effect_only: self.side_effect_only,
            is_reexport: self.is_reexport,
        }
    }
}

/// What one module imports and exports.
pub struct ModuleInfo {
    pub imports: Vec<ImportRecord>,
    pub exports: Vec<String>,
    pub has_default_export: bool,
    pub has_export_all: bool,
}

/// A `ModuleInfo` as plain values.
pub struct ModuleView {
    pub imports: Seq<ImportView>,
    pub exports: Seq<Seq<char>>,
    pub has_default_export: bool,
    pub has_export_all: bool,
}

/// The views of a list of import records.
pub open spec fn import_views(v: Seq<ImportRecord>) -> Seq<ImportView> {
    Seq::new(v.len(), |i: int| v[i]@)
}

impl View for ModuleInfo {
    type V = ModuleView;

    open spec fn view(&self) -> ModuleView {
        ModuleView {
            imports: import_views(self.imports@),
            exports: texts(self.exports@),
            has_default_export: self.has_default_export,
            has_export_all: self.has_export_all,
        }
    }
}

/// The views of a list of modules.
pub open spec fn module_views(v: Seq<ModuleInfo>) -> Seq<ModuleView> {
    Seq::new(v.len(), |i: int| v[i]@)
}

/// A record that names `specifier` and nothing of it.
pub open spec fn blank(specifier: Seq<char>) -> ImportView {
    ImportView {
        specifier,
        uses_default: false,
        uses_namespace: false,
        names: Seq::empty(),
        side_effect_only: false,
        is_reexport: false,
    }
}

impl ImportRecord {
    pub fn new(specifier: String) -> (out: ImportRecord)
        ensures
            out@ == blank(specifier@),
    {
        let out = ImportRecord {
            specifier,
            uses_default: false,
            uses_namespace: false,
            names: Vec::new(),
            side_effect_only: false,
            is_reexport: false,
        };
        assert(texts(out.names@) =~= Seq::<Seq<char>>::empty());
        out
    }
}

/// Which name of an `a as b` pair, or of a `key: binding` pair, is meant.
pub enum Side {
    /// The name under which a module hands something out: `b` of `a as b`.
    Exported,
    /// The name under which a module takes something in: `a` of `a as b`.
    Imported,
    /// The name that a re-export takes from the other module: `a` of
    /// `a as b`, but neither `default` nor a part that starts with `*`.
    Forwarded,
    /// The property read by a destructuring `require`: `a` of `a: b`.
    Bound,
}

/// What precedes ` as ` in a part, trimmed; the part where no ` as ` stands.
pub open spec fn left_of_as(part: Seq<char>) -> Seq<char> {
    match cut(part, " as "@) {
        Some((left, _)) => trimmed(left),
        None => part,
    }
}

/// What follows ` as ` in a part, trimmed; the part where no ` as ` stands.
pub open spec fn right_of_as(part: Seq<char>) -> Seq<char> {
    match cut(part, " as "@) {
        Some((_, right)) => trimmed(right),
        None => part,
    }
}

/// A name without the `type ` that may precede it.
pub open spec fn untyped(name: Seq<char>) -> Seq<char> {
    trimmed(without_leading(name, "type "@))
}

/// The name under which a part of a list takes something from the other
/// module: what precedes ` as `, without `type `.
pub open spec fn import_side(raw: Seq<char>) -> Seq<char> {
    untyped(left_of_as(trimmed(raw)))
}

/// The name that one part of a comma-separated list stands for, if any.
/// In the list of a re-export, a part that takes `default` and a part that
/// starts with `*` name nothing.
pub open spec fn named(side: Side, raw: Seq<char>) -> Option<Seq<char>> {
    let part = trimmed(raw);
    let name = match side {
        Side::Exported => untyped(right_of_as(part)),
        Side::Imported => import_side(raw),
        Side::Forwarded => {
            if import_side(raw) == "default"@ || (part.len() > 0 && part[0] == '*') {
                Seq::empty()
            } else {
                import_side(raw)
            }
        },
        Side::Bound => match cut_char(part, ':') {
            Some((left, _)) => trimmed(trimmed(left)),
            None => trimmed(part),
        },
    };
    if part.len() == 0 || name.len() == 0 {
        None
    } else {
        Some(name)
    }
}

/// `base` and the names of the first `n` of `parts`, none twice.
pub open spec fn gathered(base: Seq<Seq<char>>, parts: Seq<Seq<char>>, side: Side, n: int) -> Seq<
    Seq<char>,
>
    decreases n,
{
    if n <= 0 || n > parts.len() {
        base
    } else {
        match named(side, parts[n - 1]) {
            Some(name) => with_text(gathered(base, parts, side, n - 1), name),
            None => gathered(base, parts, side, n - 1),
        }
    }
}

fn import_side_of(part: &Vec<char>) -> (out: Vec<char>)
    ensures
        out@ == untyped(left_of_as(part@)),
{
    match split_once(part, " as ") {
        Some((left, _)) => trim(&trim_start_matches(&trim(&left), "type ")),
        None => trim(&trim_start_matches(part, "type ")),
    }
}

fn name_of(side: &Side, raw: &Vec<char>) -> (r: Option<Vec<char>>)
    ensures
        match r {
            Some(name) => named(*side, raw@) == Some(name@),
            None => named(*side, raw@) is None,
        },
{
    let part = trim(raw);
    if part.len() == 0 {
        return None;
    }
    let name = match side {
        Side::Exported => {
            let right = match split_once(&part, " as ") {
                Some((_, right)) => trim(&right),
                None => part,
            };
            trim(&trim_start_matches(&right, "type "))
        },
        Side::Imported => import_side_of(&part),
        Side::Forwarded => {
            let name = import_side_of(&part);
            if equal_str(&name, "default") || part[0] == '*' {
                Vec::new()
            } else {
                name
            }
        },
        Side::Bound => match split_once_char(&part, ':') {
            Some((left, _)) => trim(&trim(&left)),
            None => trim(&part),
        },
    };
    if name.len() == 0 {
        None
    } else {
        Some(name)
    }
}

/// Adds to `out` the names that the comma-separated `list` holds.
pub fn gather_names(out: &mut Vec<String>, list: &Vec<char>, side: Side)
    ensures
        texts(final(out)@) == gathered(
            texts(old(out)@),
            pieces(list@, ','),
            side,
            pieces(list@, ',').len() as int,
        ),
{
    let parts = split(list, ',');
    let ghost base = texts(out@);
    assert(rows(parts@).len() == parts@.len());
    let mut i: usize = 0;
    while i < parts.len()
        invariant
            i <= parts.len(),
            rows(parts@).len() == parts@.len(),
            texts(out@) == gathered(base, rows(parts@), side, i as int),
        decreases parts.len() - i,
    {
        assert(rows(parts@)[i as int] == parts@[i as int]@);
        match name_of(&side, &parts[i]) {
            Some(name) => {
                push_unique(out, from_chars(&name));
            },
            None => {},
        }
        i += 1;
    }
}

/// The inside of a braced list: the text without surrounding white space, then
/// without the `{` that it starts with and the `}` that it ends with.
pub open spec fn unbraced(s: Seq<char>) -> Seq<char> {
    without_brackets(trimmed(s), '{', '}')
}

/// The names under which a list `{ a, b as c }` exports: `a` and `c`.
pub open spec fn export_names(s: Seq<char>) -> Seq<Seq<char>> {
    let parts = pieces(unbraced(s), ',');
    gathered(Seq::empty(), parts, Side::Exported, parts.len() as int)
}

/// The names under which a list `{ a, b as c }` exports.
pub fn parse_export_names(names: &str) -> (out: Vec<String>)
    ensures
        texts(out@) == export_names(names@),
{
    let v = to_chars(names);
    let inner = trim_brackets(&trim(&v), '{', '}');
    let mut out: Vec<String> = Vec::new();
    assert(texts(out@) =~= Seq::<Seq<char>>::empty());
    gather_names(&mut out, &inner, Side::Exported);
    out
}

/// The properties that a pattern `{ a, b: c }` reads: `a` and `b`.
pub open spec fn destructured_names(s: Seq<char>) -> Seq<Seq<char>> {
    let parts = pieces(s, ',');
    gathered(Seq::empty(), parts, Side::Bound, parts.len() as int)
}

/// The properties that a destructuring pattern reads.
pub fn parse_destructured_names(names: &str) -> (out: Vec<String>)
    ensures
        texts(out@) == destructured_names(names@),
{
    let v = to_chars(names);
    let mut out: Vec<String> = Vec::new();
    assert(texts(out@) =~= Seq::<Seq<char>>::empty());
    gather_names(&mut out, &v, Side::Bound);
    out
}

/// Some part of the list takes `default` from the other module.
pub open spec fn mentions_default(parts: Seq<Seq<char>>) -> bool {
    exists|i: int| 0 <= i < parts.len() && import_side(#[trigger] parts[i]) == "default"@
}

/// Some part of the list, trimmed, starts with `*`.
pub open spec fn mentions_star(parts: Seq<Seq<char>>) -> bool {
    exists|i: int|
        0 <= i < parts.len() && trimmed(#[trigger] parts[i]).len() > 0 && trimmed(parts[i])[0]
            == '*'
}

/// A record after the list of a re-export `export { a, b as c } from`: the names
/// under which the other module hands them out (`a` and `b`) are added; a part
/// that takes `default`, under whatever name, means its default export, and a
/// part that starts with `*` all of it.
pub open spec fn with_reexport_list(record: ImportView, list: Seq<char>) -> ImportView {
    let parts = pieces(list, ',');
    ImportView {
        uses_default: record.uses_default || mentions_default(parts),
        uses_namespace: record.uses_namespace || mentions_star(parts),
        names: gathered(record.names, parts, Side::Forwarded, parts.len() as int),
        ..record
    }
}

/// Takes the list of a re-export into the record of its import.
pub fn parse_export_list_as_import(names: &str, record: &mut ImportRecord)
    ensures
        final(record)@ == with_reexport_list(old(record)@, names@),
{
    let v = to_chars(names);
    let parts = split(&v, ',');
    assert(rows(parts@).len() == parts@.len());
    let mut any_default = false;
    let mut any_star = false;
    let mut i: usize = 0;
    while i < parts.len()
        invariant
            i <= parts.len(),
            rows(parts@).len() == parts@.len(),
            any_default == mentions_default(rows(parts@).take(i as int)),
            any_star == mentions_star(rows(parts@).take(i as int)),
        decreases parts.len() - i,
    {
        let part = trim(&parts[i]);
        let ghost now = rows(parts@).take(i as int);
        let ghost next = rows(parts@).take(i + 1);
        assert(next[i as int] == parts@[i as int]@);
        assert forall|k: int| 0 <= k < i implies now[k] == next[k] by {}
        let is_default = equal_str(&import_side_of(&part), "default");
        let is_star = part.len() > 0 && part[0] == '*';
        proof {
            if mentions_default(now) {
                let k = choose|k: int|
                    0 <= k < now.len() && import_side(#[trigger] now[k]) == "default"@;
                assert(import_side(next[k]) == "default"@);
            }
            if mentions_default(next) && !is_default {
                let k = choose|k: int|
                    0 <= k < next.len() && import_side(#[trigger] next[k]) == "default"@;
                assert(import_side(now[k]) == "default"@);
            }
            if mentions_star(now) {
                let k = choose|k: int|
                    0 <= k < now.len() && trimmed(#[trigger] now[k]).len() > 0 && trimmed(now[k])[0]
                        == '*';
                assert(trimmed(next[k])[0] == '*');
            }
            if mentions_star(next) && !is_star {
                let k = choose|k: int|
                    0 <= k < next.len() && trimmed(#[trigger] next[k]).len() > 0 && trimmed(
                        next[k],
                    )[0] == '*';
                assert(trimmed(now[k])[0] == '*');
            }
        }
        if is_default {
            any_default = true;
        }
        if is_star {
            any_star = true;
        }
        i += 1;
    }
    assert(rows(parts@).take(parts@.len() as int) =~= rows(parts@));
    if any_default {
        record.uses_default = true;
    }
    if any_star {
        record.uses_namespace = true;
    }
    gather_names(&mut record.names, &v, Side::Forwarded);
}

/// The names that the braced list in `text` takes from the other module.
pub open spec fn clause_names(base: Seq<Seq<char>>, text: Seq<char>) -> Seq<Seq<char>> {
    let parts = pieces(unbraced(text), ',');
    gathered(base, parts, Side::Imported, parts.len() as int)
}

/// The clause of an `import ... from`, without surrounding white space and
/// without the `type ` that may open it.
pub open spec fn clause_body(clause: Seq<char>) -> Seq<char> {
    let t = trimmed(clause);
    match without_prefix(t, "type "@) {
        Some(rest) => trimmed(rest),
        None => trimmed(t),
    }
}

/// The text, outside any braces, names the default import: it is not
/// blank, and it is no namespace import `* as`.
pub open spec fn names_default(text: Seq<char>) -> bool {
    trimmed(text).len() > 0 && !contains(text, "* as"@)
}

/// A record after the clause of `import <clause> from`.
///
/// `* as` anywhere means the whole module. A clause that starts with `{` is a
/// list of names. Otherwise, where a comma stands, an identifier before it is
/// the default import, and what follows may hold `*` (the whole module) and a
/// braced list of names. Otherwise a clause with a `{` is a list of names, and
/// any other clause that holds an identifier is a default import. A namespace
/// import is never a default import.
pub open spec fn with_clause(record: ImportView, clause: Seq<char>) -> ImportView {
    let body = clause_body(clause);
    let star = record.uses_namespace || contains(body, "* as"@);
    if body.len() > 0 && body[0] == '{' {
        ImportView { uses_namespace: star, names: clause_names(record.names, body), ..record }
    } else {
        match cut_char(body, ',') {
            Some((first, rest)) => ImportView {
                uses_default: record.uses_default || names_default(first),
                uses_namespace: star || has_char(rest, '*'),
                names: if has_char(rest, '{') {
                    clause_names(record.names, rest)
                } else {
                    record.names
                },
                ..record
            },
            None => {
                if has_char(body, '{') {
                    ImportView {
                        uses_namespace: star,
                        names: clause_names(record.names, body),
                        ..record
                    }
                } else {
                    ImportView {
                        uses_default: record.uses_default || names_default(body),
                        uses_namespace: star,
                        ..record
                    }
                }
            },
        }
    }
}

fn gather_clause_names(out: &mut Vec<String>, text: &Vec<char>)
    ensures
        texts(final(out)@) == clause_names(texts(old(out)@), text@),
{
    let inner = trim_brackets(&trim(text), '{', '}');
    gather_names(out, &inner, Side::Imported);
}

/// Takes the clause of an `import .. from` into the record of its import.
pub fn parse_import_clause(clause: &str, record: &mut ImportRecord)
    ensures
        final(record)@ == with_clause(old(record)@, clause@),
{
    let v = to_chars(clause);
    let t = trim(&v);
    let body = match strip_prefix(&t, "type ") {
        Some(rest) => trim(&rest),
        None => trim(&t),
    };
    if contains_str(&body, "* as") {
        record.uses_namespace = true;
    }
    if body.len() > 0 && body[0] == '{' {
        gather_clause_names(&mut record.names, &body);
        return ;
    }
    match split_once_char(&body, ',') {
        Some((first, rest)) => {
            if trim(&first).len() > 0 && !contains_str(&first, "* as") {
                record.uses_default = true;
            }
            if contains_char(&rest, '*') {
                record.uses_namespace = true;
            }
            if contains_char(&rest, '{') {
                gather_clause_names(&mut record.names, &rest);
            }
        },
        None => {
            if contains_char(&body, '{') {
                gather_clause_names(&mut record.names, &body);
            } else if trim(&body).len() > 0 && !contains_str(&body, "* as") {
                record.uses_default = true;
            }
        },
    }
}

/// `import <clause> from '<specifier>'`.
pub const IMPORT_FROM: &'static str =
    r#"(?m)^\s*import\s+([^;\n]+?)\s+from\s+['\"]([^'\"]+)['\"]"#;

/// `import '<specifier>'`.
pub const IMPORT_SIDE_EFFECT: &'static str = r#"(?m)^\s*import\s+['\"]([^'\"]+)['\"]"#;

/// `require('<specifier>')`, not as a property of something else. Where
/// `{ <names> } =` stands before it, the match begins there and the first
/// group holds the names; the second group is the specifier.
pub const REQUIRE: &'static str =
    r#"(?m)(?:\{\s*([^}]+)\s*\}\s*=\s*|^|\s|=)require\(\s*['\"]([^'\"]+)['\"]\s*\)"#;

/// `import('<specifier>')`.
pub const DYNAMIC_IMPORT: &'static str = r#"import\(\s*['\"]([^'\"]+)['\"]\s*\)"#;

/// `export <kind> <name>`.
pub const EXPORT_DECLARATION: &'static str =
    r#"(?m)^\s*export\s+(?:const|let|var|function|class|interface|type|enum)\s+([A-Za-z_$][\w$]*)"#;

/// `export { <names> }`, with or without `from '<specifier>'`.
pub const EXPORT_LIST: &'static str =
    r#"(?m)^\s*export\s*\{\s*([^}]+)\s*\}(?:\s*from\s*['\"]([^'\"]+)['\"])?"#;

/// `export default`.
pub const EXPORT_DEFAULT: &'static str = r#"(?m)^\s*export\s+default\b"#;

/// `export * from '<specifier>'`.
pub const EXPORT_ALL: &'static str = r#"(?m)^\s*export\s+\*\s+from\s+['\"]([^'\"]+)['\"]"#;

/// The matches of a pattern in a text, none where the pattern is no regular
/// expression.
pub open spec fn found(pattern: Seq<char>, text: Seq<char>) -> Seq<Seq<Option<Seq<char>>>> {
    match regex_captures(pattern, text) {
        Some(ms) => ms,
        None => Seq::empty(),
    }
}

/// The matches of a pattern in a text, each with its groups.
pub fn find_all(pattern: &str, text: &str) -> (out: Vec<Vec<Option<String>>>)
    ensures
        matches_view(out@) == found(pattern@, text@),
{
    match captures_all(pattern, text) {
        Some(ms) => ms,
        None => {
            let out: Vec<Vec<Option<String>>> = Vec::new();
            assert(matches_view(out@) =~= Seq::empty());
            out
        },
    }
}

/// What the patterns of this module match in one source text.
pub struct ModuleMatches {
    pub import_from: Vec<Vec<Option<String>>>,
    pub side_effect: Vec<Vec<Option<String>>>,
    pub require: Vec<Vec<Option<String>>>,
    pub dynamic: Vec<Vec<Option<String>>>,
    pub export_declaration: Vec<Vec<Option<String>>>,
    pub export_list: Vec<Vec<Option<String>>>,
    pub export_default: Vec<Vec<Option<String>>>,
    pub export_all: Vec<Vec<Option<String>>>,
}

/// `ModuleMatches` as plain values.
pub struct MatchesView {
    pub import_from: Seq<Seq<Option<Seq<char>>>>,
    pub side_effect: Seq<Seq<Option<Seq<char>>>>,
    pub require: Seq<Seq<Option<Seq<char>>>>,
    pub dynamic: Seq<Seq<Option<Seq<char>>>>,
    pub export_declaration: Seq<Seq<Option<Seq<char>>>>,
    pub export_list: Seq<Seq<Option<Seq<char>>>>,
    pub export_default: Seq<Seq<Option<Seq<char>>>>,
    pub export_all: Seq<Seq<Option<Seq<char>>>>,
}

impl View for ModuleMatches {
    type V = MatchesView;

    open spec fn view(&self) -> MatchesView {
        MatchesView {
            import_from: matches_view(self.import_from@),
            side_effect: matches_view(self.side_effect@),
            require: matches_view(self.require@),
            dynamic: matches_view(self.dynamic@),
            export_declaration: matches_view(self.export_declaration@),
            export_list: matches_view(self.export_list@),
            export_default: matches_view(self.export_default@),
            export_all: matches_view(self.export_all@),
        }
    }
}

/// What the patterns match in a source text without comments.
pub open spec fn source_matches(text: Seq<char>) -> MatchesView {
    MatchesView {
        import_from: found(IMPORT_FROM@, text),
        side_effect: found(IMPORT_SIDE_EFFECT@, text),
        require: found(REQUIRE@, text),
        dynamic: found(DYNAMIC_IMPORT@, text),
        export_declaration: found(EXPORT_DECLARATION@, text),
        export_list: found(EXPORT_LIST@, text),
        export_default: found(EXPORT_DEFAULT@, text),
        export_all: found(EXPORT_ALL@, text),
    }
}

/// What the patterns of this module match in a source text without comments.
pub fn scan_module(text: &str) -> (m: ModuleMatches)
    ensures
        m@ == source_matches(text@),
{
    ModuleMatches {
        import_from: find_all(IMPORT_FROM, text),
        side_effect: find_all(IMPORT_SIDE_EFFECT, text),
        require: find_all(REQUIRE, text),
        dynamic: find_all(DYNAMIC_IMPORT, text),
        export_declaration: find_all(EXPORT_DECLARATION, text),
        export_list: find_all(EXPORT_LIST, text),
        export_default: find_all(EXPORT_DEFAULT, text),
        export_all: find_all(EXPORT_ALL, text),
    }
}

/// The text of a group, empty where the group took no part.
pub open spec fn group_or_empty(m: Seq<Option<Seq<char>>>, index: int) -> Seq<char> {
    match group(m, index) {
        Some(t) => t,
        None => Seq::empty(),
    }
}

fn group_text_of(m: &Vec<Option<String>>, index: usize) -> (out: String)
    ensures
        out@ == group_or_empty(match_view(*m), index as int),
{
    match group_of(m, index) {
        Some(s) => s.clone(),
        None => String::new(),
    }
}

/// The records of the first `n` matches of `import <clause> from`.
pub open spec fn clause_records(ms: Seq<Seq<Option<Seq<char>>>>, n: int) -> Seq<ImportView>
    decreases n,
{
    if n <= 0 || n > ms.len() {
        Seq::empty()
    } else {
        clause_records(ms, n - 1).push(
            with_clause(blank(group_or_empty(ms[n - 1], 2)), group_or_empty(ms[n - 1], 1)),
        )
    }
}

/// A record that names a module and nothing of it, with the given marks.
pub open spec fn marked(
    specifier: Seq<char>,
    side_effect_only: bool,
    uses_namespace: bool,
    is_reexport: bool,
) -> ImportView {
    ImportView { side_effect_only, uses_namespace, is_reexport, ..blank(specifier) }
}

/// The records of the first `n` matches of a pattern whose first group is the
/// specifier, each with the given marks.
pub open spec fn marked_records(
    ms: Seq<Seq<Option<Seq<char>>>>,
    n: int,
    side_effect_only: bool,
    uses_namespace: bool,
    is_reexport: bool,
) -> Seq<ImportView>
    decreases n,
{
    if n <= 0 || n > ms.len() {
        Seq::empty()
    } else {
        marked_records(ms, n - 1, side_effect_only, uses_namespace, is_reexport).push(
            marked(group_or_empty(ms[n - 1], 1), side_effect_only, uses_namespace, is_reexport),
        )
    }
}

/// The record of one `require`: where names are destructured from it, those
/// names; else the whole module.
pub open spec fn require_record(m: Seq<Option<Seq<char>>>) -> ImportView {
    match group(m, 1) {
        Some(names) => ImportView { names: destructured_names(names), ..blank(group_or_empty(m, 2)) },
        None => marked(group_or_empty(m, 2), false, true, false),
    }
}

/// The records of the first `n` matches of `require`, one for each.
pub open spec fn require_records(ms: Seq<Seq<Option<Seq<char>>>>, n: int) -> Seq<ImportView>
    decreases n,
{
    if n <= 0 || n > ms.len() {
        Seq::empty()
    } else {
        require_records(ms, n - 1).push(require_record(ms[n - 1]))
    }
}

/// The records of those of the first `n` matches of `export { .. }` that name
/// a module to take the names from.
pub open spec fn reexport_records(ms: Seq<Seq<Option<Seq<char>>>>, n: int) -> Seq<ImportView>
    decreases n,
{
    if n <= 0 || n > ms.len() {
        Seq::empty()
    } else {
        match group(ms[n - 1], 2) {
            Some(specifier) => reexport_records(ms, n - 1).push(
                with_reexport_list(
                    marked(specifier, false, false, true),
                    group_or_empty(ms[n - 1], 1),
                ),
            ),
            None => reexport_records(ms, n - 1),
        }
    }
}

/// The names that the first `n` matches of `export <kind> <name>` declare.
pub open spec fn declared_names(ms: Seq<Seq<Option<Seq<char>>>>, n: int) -> Seq<Seq<char>>
    decreases n,
{
    if n <= 0 || n > ms.len() {
        Seq::empty()
    } else if group_or_empty(ms[n - 1], 1).len() > 0 {
        with_text(declared_names(ms, n - 1), group_or_empty(ms[n - 1], 1))
    } else {
        declared_names(ms, n - 1)
    }
}

/// `base` and the names that those of the first `n` matches of `export { .. }`
/// export which name no module to take them from.
pub open spec fn listed_names(base: Seq<Seq<char>>, ms: Seq<Seq<Option<Seq<char>>>>, n: int) -> Seq<
    Seq<char>,
>
    decreases n,
{
    if n <= 0 || n > ms.len() {
        base
    } else {
        match group(ms[n - 1], 2) {
            Some(_) => listed_names(base, ms, n - 1),
            None => {
                let parts = pieces(unbraced(group_or_empty(ms[n - 1], 1)), ',');
                gathered(listed_names(base, ms, n - 1), parts, Side::Exported, parts.len() as int)
            },
        }
    }
}

/// The module that the matches describe. Its imports stand in this order:
/// `import .. from`, side-effect imports, `require`, dynamic `import()`,
/// re-export lists, `export * from`; within each, in the order of the text.
/// Each place in the text that imports gives one record.
pub open spec fn module_of(m: MatchesView) -> ModuleView {
    ModuleView {
        imports: clause_records(m.import_from, m.import_from.len() as int) + marked_records(
            m.side_effect,
            m.side_effect.len() as int,
            true,
            false,
            false,
        ) + require_records(m.require, m.require.len() as int) + marked_records(
            m.dynamic,
            m.dynamic.len() as int,
            false,
            true,
            false,
        ) + reexport_records(m.export_list, m.export_list.len() as int) + marked_records(
            m.export_all,
            m.export_all.len() as int,
            false,
            true,
            true,
        ),
        exports: listed_names(
            declared_names(m.export_declaration, m.export_declaration.len() as int),
            m.export_list,
            m.export_list.len() as int,
        ),
        has_default_export: m.export_default.len() > 0,
        has_export_all: m.export_all.len() > 0,
    }
}

fn push_clause_records(imports: &mut Vec<ImportRecord>, ms: &Vec<Vec<Option<String>>>)
    ensures
        import_views(final(imports)@) == import_views(old(imports)@) + clause_records(
            matches_view(ms@),
            ms@.len() as int,
        ),
{
    let ghost base = import_views(imports@);
    let ghost view = matches_view(ms@);
    let mut i: usize = 0;
    assert(base + clause_records(view, 0) =~= base);
    while i < ms.len()
        invariant
            i <= ms.len(),
            view == matches_view(ms@),
            import_views(imports@) == base + clause_records(view, i as int),
        decreases ms.len() - i,
    {
        let ghost before = import_views(imports@);
        assert(view[i as int] == match_view(ms@[i as int]));
        let mut record = ImportRecord::new(group_text_of(&ms[i], 2));
        let clause = group_text_of(&ms[i], 1);
        parse_import_clause(clause.as_str(), &mut record);
        imports.push(record);
        assert(import_views(imports@) =~= before.push(record@));
        assert(base + clause_records(view, i as int + 1) =~= (base + clause_records(
            view,
            i as int,
        )).push(record@));
        i += 1;
    }
}

fn push_marked_records(
    imports: &mut Vec<ImportRecord>,
    ms: &Vec<Vec<Option<String>>>,
    side_effect_only: bool,
    uses_namespace: bool,
    is_reexport: bool,
)
    ensures
        import_views(final(imports)@) == import_views(old(imports)@) + marked_records(
            matches_view(ms@),
            ms@.len() as int,
            side_effect_only,
            uses_namespace,
            is_reexport,
        ),
{
    let ghost base = import_views(imports@);
    let ghost view = matches_view(ms@);
    let mut i: usize = 0;
    assert(base + marked_records(view, 0, side_effect_only, uses_namespace, is_reexport) =~= base);
    while i < ms.len()
        invariant
            i <= ms.len(),
            view == matches_view(ms@),
            import_views(imports@) == base + marked_records(
                view,
                i as int,
                side_effect_only,
                uses_namespace,
                is_reexport,
            ),
        decreases ms.len() - i,
    {
        let ghost before = import_views(imports@);
        assert(view[i as int] == match_view(ms@[i as int]));
        let mut record = ImportRecord::new(group_text_of(&ms[i], 1));
        record.side_effect_only = side_effect_only;
        record.uses_namespace = uses_namespace;
        record.is_reexport = is_reexport;
        imports.push(record);
        assert(import_views(imports@) =~= before.push(record@));
        assert(base + marked_records(
            view,
            i as int + 1,
            side_effect_only,
            uses_namespace,
            is_reexport,
        ) =~= (base + marked_records(
            view,
            i as int,
            side_effect_only,
            uses_namespace,
            is_reexport,
        )).push(record@));
        i += 1;
    }
}

fn push_require_records(imports: &mut Vec<ImportRecord>, ms: &Vec<Vec<Option<String>>>)
    ensures
        import_views(final(imports)@) == import_views(old(imports)@) + require_records(
            matches_view(ms@),
            ms@.len() as int,
        ),
{
    let ghost base = import_views(imports@);
    let ghost view = matches_view(ms@);
    let mut i: usize = 0;
    assert(base + require_records(view, 0) =~= base);
    while i < ms.len()
        invariant
            i <= ms.len(),
            view == matches_view(ms@),
            import_views(imports@) == base + require_records(view, i as int),
        decreases ms.len() - i,
    {
        let ghost before = import_views(imports@);
        assert(view[i as int] == match_view(ms@[i as int]));
        let mut record = ImportRecord::new(group_text_of(&ms[i], 2));
        match group_of(&ms[i], 1) {
            Some(names) => {
                record.names = parse_destructured_names(names.as_str());
            },
            None => {
                record.uses_namespace = true;
            },
        }
        imports.push(record);
        assert(record@ == require_record(view[i as int]));
        assert(import_views(imports@) =~= before.push(record@));
        assert(base + require_records(view, i as int + 1) =~= (base + require_records(
            view,
            i as int,
        )).push(record@));
        i += 1;
    }
}

fn push_reexport_records(imports: &mut Vec<ImportRecord>, ms: &Vec<Vec<Option<String>>>)
    ensures
        import_views(final(imports)@) == import_views(old(imports)@) + reexport_records(
            matches_view(ms@),
            ms@.len() as int,
        ),
{
    let ghost base = import_views(imports@);
    let ghost view = matches_view(ms@);
    let mut i: usize = 0;
    assert(base + reexport_records(view, 0) =~= base);
    while i < ms.len()
        invariant
            i <= ms.len(),
            view == matches_view(ms@),
            import_views(imports@) == base + reexport_records(view, i as int),
        decreases ms.len() - i,
    {
        let ghost before = import_views(imports@);
        assert(view[i as int] == match_view(ms@[i as int]));
        match group_of(&ms[i], 2) {
            Some(specifier) => {
                let mut record = ImportRecord::new(specifier.clone());
                record.is_reexport = true;
                let names = group_text_of(&ms[i], 1);
                parse_export_list_as_import(names.as_str(), &mut record);
                imports.push(record);
                assert(import_views(imports@) =~= before.push(record@));
                assert(base + reexport_records(view, i as int + 1) =~= (base + reexport_records(
                    view,
                    i as int,
                )).push(record@));
            },
            None => {},
        }
        i += 1;
    }
}

fn declared_exports(ms: &Vec<Vec<Option<String>>>) -> (out: Vec<String>)
    ensures
        texts(out@) == declared_names(matches_view(ms@), ms@.len() as int),
{
    let mut out: Vec<String> = Vec::new();
    let ghost view = matches_view(ms@);
    let mut i: usize = 0;
    assert(texts(out@) =~= declared_names(view, 0));
    while i < ms.len()
        invariant
            i <= ms.len(),
            view == matches_view(ms@),
            texts(out@) == declared_names(view, i as int),
        decreases ms.len() - i,
    {
        assert(view[i as int] == match_view(ms@[i as int]));
        let name = group_text_of(&ms[i], 1);
        let chars = to_chars(name.as_str());
        if chars.len() > 0 {
            push_unique(&mut out, name);
        }
        i += 1;
    }
    out
}

fn push_listed_exports(exports: &mut Vec<String>, ms: &Vec<Vec<Option<String>>>)
    ensures
        texts(final(exports)@) == listed_names(
            texts(old(exports)@),
            matches_view(ms@),
            ms@.len() as int,
        ),
{
    let ghost base = texts(exports@);
    let ghost view = matches_view(ms@);
    let mut i: usize = 0;
    while i < ms.len()
        invariant
            i <= ms.len(),
            view == matches_view(ms@),
            texts(exports@) == listed_names(base, view, i as int),
        decreases ms.len() - i,
    {
        assert(view[i as int] == match_view(ms@[i as int]));
        match group_of(&ms[i], 2) {
            Some(_) => {},
            None => {
                let names = group_text_of(&ms[i], 1);
                let v = to_chars(names.as_str());
                let inner = trim_brackets(&trim(&v), '{', '}');
                gather_names(exports, &inner, Side::Exported);
            },
        }
        i += 1;
    }
}

/// Builds the module that the matches describe.
pub fn assemble_module(m: &ModuleMatches) -> (info: ModuleInfo)
    ensures
        info@ == module_of(m@),
{
    let mut imports: Vec<ImportRecord> = Vec::new();
    assert(import_views(imports@) =~= Seq::<ImportView>::empty());
    push_clause_records(&mut imports, &m.import_from);
    push_marked_records(&mut imports, &m.side_effect, true, false, false);
    push_require_records(&mut imports, &m.require);
    push_marked_records(&mut imports, &m.dynamic, false, true, false);
    push_reexport_records(&mut imports, &m.export_list);
    push_marked_records(&mut imports, &m.export_all, false, true, true);
    let mut exports = declared_exports(&m.export_declaration);
    push_listed_exports(&mut exports, &m.export_list);
    let info = ModuleInfo {
        imports,
        exports,
        has_default_export: m.export_default.len() > 0,
        has_export_all: m.export_all.len() > 0,
    };
    assert(info@.imports =~= module_of(m@).imports);
    info
}

/// Reads the imports and exports off a module's source text.
pub fn parse_module(source: &str) -> (info: ModuleInfo)
    ensures
        info@ == module_of(source_matches(stripped(source@))),
{
    let text = strip_comments(source);
    let m = scan_module(text.as_str());
    assemble_module(&m)
}

/// No text of the list is empty.
pub open spec fn all_filled(list: Seq<Seq<char>>) -> bool {
    forall|k: int| 0 <= k < list.len() ==> (#[trigger] list[k]).len() > 0
}

pub proof fn lemma_gathered_filled(base: Seq<Seq<char>>, parts: Seq<Seq<char>>, side: Side, n: int)
    requires
        all_filled(base),
    ensures
        all_filled(gathered(base, parts, side, n)),
    decreases n,
{
    if 0 < n <= parts.len() {
        lemma_gathered_filled(base, parts, side, n - 1);
    }
}

pub proof fn lemma_declared_filled(ms: Seq<Seq<Option<Seq<char>>>>, n: int)
    ensures
        all_filled(declared_names(ms, n)),
    decreases n,
{
    if 0 < n <= ms.len() {
        lemma_declared_filled(ms, n - 1);
    }
}

pub proof fn lemma_listed_filled(base: Seq<Seq<char>>, ms: Seq<Seq<Option<Seq<char>>>>, n: int)
    requires
        all_filled(base),
    ensures
        all_filled(listed_names(base, ms, n)),
    decreases n,
{
    if 0 < n <= ms.len() {
        lemma_listed_filled(base, ms, n - 1);
        match group(ms[n - 1], 2) {
            Some(_) => {},
            None => {
                let parts = pieces(unbraced(group_or_empty(ms[n - 1], 1)), ',');
                lemma_gathered_filled(
                    listed_names(base, ms, n - 1),
                    parts,
                    Side::Exported,
                    parts.len() as int,
                );
            },
        }
    }
}

/// No module exports under an empty name.
pub proof fn lemma_exports_filled(m: MatchesView)
    ensures
        all_filled(module_of(m).exports),
{
    lemma_declared_filled(m.export_declaration, m.export_declaration.len() as int);
    lemma_listed_filled(
        declared_names(m.export_declaration, m.export_declaration.len() as int),
        m.export_list,
        m.export_list.len() as int,
    );
}

} // verus!
