//! The project's path-mapping configuration: which files hold it, and the
//! base directories and alias rules they give the resolver.

use crate::json::{json_document, JsonValue, parse};
use crate::order::{push_unique, with_text};
use crate::paths::{
    canonical, canonicalize, extension, has_text, join, parent, path_extension, path_join,
    path_parent, path_with_extension, with_extension,
};
use crate::resolver::{alias_views, AliasRule, AliasView, Resolver, ResolverView};
use crate::stripper::{sanitize_jsonc, sanitized};
use crate::text::{clone_texts, from_chars, texts, to_chars, trim, trimmed};
use crate::tree::{absent_to, ProjectTree, push_absent};
use vstd::prelude::*;

verus! {

/// The file that a configuration means by `raw_ref`, seen from `base_dir`: a
/// directory stands for the `tsconfig.json` in it, and a name without extension
/// that does not exist for the same name with `.json`. Nothing where the text is
/// blank or no such file exists.
pub open spec fn reference_path(tree: &ProjectTree, base_dir: Seq<char>, raw_ref: Seq<char>) -> Option<
    Seq<char>,
> {
    let joined = join(base_dir, raw_ref);
    let named = if tree.is_directory(canonical(joined)) {
        join(joined, "tsconfig.json"@)
    } else {
        joined
    };
    if trimmed(raw_ref).len() == 0 {
        None
    } else if tree.existing().contains(canonical(named)) {
        Some(named)
    } else if extension(named) is None && tree.existing().contains(
        canonical(with_extension(named, "json"@)),
    ) {
        Some(with_extension(named, "json"@))
    } else {
        None
    }
}

/// The file that a configuration in `base_dir` means by `raw_ref`.
pub fn resolve_tsconfig_reference_path(tree: &ProjectTree, base_dir: &str, raw_ref: &str) -> (r:
    Option<String>)
    ensures
        match r {
            Some(p) => reference_path(tree, base_dir@, raw_ref@) == Some(p@),
            None => reference_path(tree, base_dir@, raw_ref@) is None,
        },
{
    let raw = to_chars(raw_ref);
    if trim(&raw).len() == 0 {
        return None;
    }
    let joined = path_join(&to_chars(base_dir), &raw);
    let named = if tree.is_dir(&from_chars(&canonicalize(&joined))) {
        path_join(&joined, &to_chars("tsconfig.json"))
    } else {
        joined
    };
    if tree.has_path(&from_chars(&canonicalize(&named))) {
        return Some(from_chars(&named));
    }
    if path_extension(&named).is_none() {
        let with_json = path_with_extension(&named, "json");
        if tree.has_path(&from_chars(&canonicalize(&with_json))) {
            return Some(from_chars(&with_json));
        }
    }
    None
}

/// The list that holds a text, if there is one.
pub open spec fn option_list(o: Option<Seq<char>>) -> Seq<Seq<char>> {
    match o {
        Some(x) => seq![x],
        None => Seq::empty(),
    }
}

/// The files that the first `n` entries of a `references` list name by their
/// `path`, those left out that name none.
pub open spec fn reference_targets(
    tree: &ProjectTree,
    dir: Seq<char>,
    items: Seq<JsonValue>,
    n: int,
) -> Seq<Seq<char>>
    decreases n,
{
    if n <= 0 || n > items.len() {
        Seq::empty()
    } else {
        reference_targets(tree, dir, items, n - 1) + match items[n - 1].text_member("path"@) {
            Some(p) => option_list(reference_path(tree, dir, p)),
            None => Seq::empty(),
        }
    }
}

/// What a configuration file holds, comments and trailing commas allowed;
/// nothing where that is no JSON.
pub open spec fn config_document(tree: &ProjectTree, config: Seq<char>) -> Option<JsonValue> {
    json_document(sanitized(tree.text_of(config)))
}

/// The directory of a configuration file, or `fallback` where it has none.
pub open spec fn config_dir(config: Seq<char>, fallback: Seq<char>) -> Seq<char> {
    match parent(config) {
        Some(d) => d,
        None => fallback,
    }
}

/// The configuration files that a configuration in directory `dir` names:
/// the one it extends, then the ones it refers to, in the order of its
/// `references`.
pub open spec fn named_configs(tree: &ProjectTree, dir: Seq<char>, doc: JsonValue) -> Seq<Seq<char>> {
    (match doc.text_member("extends"@) {
        Some(e) => option_list(reference_path(tree, dir, e)),
        None => Seq::empty(),
    }) + (match doc.member("references"@) {
        Some(refs) => match refs.items() {
            Some(items) => reference_targets(tree, dir, items, items.len() as int),
            None => Seq::empty(),
        },
        None => Seq::empty(),
    })
}

/// The configuration files that the file `config` names; none where it is
/// no JSON.
pub open spec fn related_configs(tree: &ProjectTree, config: Seq<char>) -> Seq<Seq<char>> {
    match config_document(tree, config) {
        None => Seq::empty(),
        Some(doc) => named_configs(tree, config_dir(config, "."@), doc),
    }
}

fn read_config(tree: &ProjectTree, config: &String) -> (r: Option<JsonValue>)
    ensures
        r == config_document(tree, config@),
{
    let raw = tree.read(config);
    let clean = sanitize_jsonc(raw.as_str());
    parse(clean.as_str())
}

fn directory_of(config: &String, fallback: &str) -> (out: String)
    ensures
        out@ == config_dir(config@, fallback@),
{
    match path_parent(&to_chars(config.as_str())) {
        Some(d) => from_chars(&d),
        None => String::from_str(fallback),
    }
}

fn related(tree: &ProjectTree, config: &String) -> (out: Vec<String>)
    ensures
        texts(out@) == related_configs(tree, config@),
{
    match read_config(tree, config) {
        Some(doc) => referenced_configs(tree, directory_of(config, ".").as_str(), &doc),
        None => {
            let out: Vec<String> = Vec::new();
            assert(texts(out@) =~= Seq::<Seq<char>>::empty());
            out
        },
    }
}

/// The configuration files that a configuration in directory `dir` names.
pub fn referenced_configs(tree: &ProjectTree, dir: &str, doc: &JsonValue) -> (out: Vec<String>)
    ensures
        texts(out@) == named_configs(tree, dir@, *doc),
{
    let mut out: Vec<String> = Vec::new();
    assert(texts(out@) =~= Seq::<Seq<char>>::empty());
    match doc.get_str("extends") {
        Some(e) => match resolve_tsconfig_reference_path(tree, dir, e.as_str()) {
            Some(p) => {
                out.push(p);
                assert(texts(out@) =~= seq![p@]);
            },
            None => {},
        },
        None => {},
    }
    let ghost first = texts(out@);
    match doc.get("references") {
        Some(refs) => match refs.as_array() {
            Some(items) => {
                let mut i: usize = 0;
                assert(texts(out@) =~= first + reference_targets(tree, dir@, items@, 0));
                while i < items.len()
                    invariant
                        i <= items.len(),
                        texts(out@) == first + reference_targets(tree, dir@, items@, i as int),
                    decreases items.len() - i,
                {
                    let ghost before = texts(out@);
                    match items[i].get_str("path") {
                        Some(p) => match resolve_tsconfig_reference_path(tree, dir, p.as_str()) {
                            Some(target) => {
                                out.push(target);
                                assert(texts(out@) =~= before + seq![target@]);
                            },
                            None => {
                                assert(texts(out@) =~= before + Seq::<Seq<char>>::empty());
                            },
                        },
                        None => {
                            assert(texts(out@) =~= before + Seq::<Seq<char>>::empty());
                        },
                    }
                    assert(first + reference_targets(tree, dir@, items@, i as int)
                        + match items@[i as int].text_member("path"@) {
                        Some(p) => option_list(reference_path(tree, dir@, p)),
                        None => Seq::empty(),
                    } =~= first + reference_targets(tree, dir@, items@, i + 1));
                    i += 1;
                }
            },
            None => {
                assert(texts(out@) =~= first + Seq::<Seq<char>>::empty());
            },
        },
        None => {
            assert(texts(out@) =~= first + Seq::<Seq<char>>::empty());
        },
    }
    out
}

/// The `path` of each of the first `n` entries of a `references` list that
/// has one.
pub open spec fn reference_texts(items: Seq<JsonValue>, n: int) -> Seq<Seq<char>>
    decreases n,
{
    if n <= 0 || n > items.len() {
        Seq::empty()
    } else {
        reference_texts(items, n - 1) + option_list(items[n - 1].text_member("path"@))
    }
}

/// The references of a configuration as it writes them: what it extends,
/// then the `path` of each entry of its `references`.
pub open spec fn written_references(doc: JsonValue) -> Seq<Seq<char>> {
    option_list(doc.text_member("extends"@)) + (match doc.member("references"@) {
        Some(refs) => match refs.items() {
            Some(items) => reference_texts(items, items.len() as int),
            None => Seq::empty(),
        },
        None => Seq::empty(),
    })
}

/// The references of a configuration as it writes them.
pub fn references_written(doc: &JsonValue) -> (out: Vec<String>)
    ensures
        texts(out@) == written_references(*doc),
{
    let mut out: Vec<String> = Vec::new();
    assert(texts(out@) =~= Seq::<Seq<char>>::empty());
    match doc.get_str("extends") {
        Some(e) => {
            out.push(e.clone());
            assert(texts(out@) =~= seq![e@]);
        },
        None => {},
    }
    let ghost first = texts(out@);
    match doc.get("references") {
        Some(refs) => match refs.as_array() {
            Some(items) => {
                let mut i: usize = 0;
                assert(texts(out@) =~= first + reference_texts(items@, 0));
                while i < items.len()
                    invariant
                        i <= items.len(),
                        texts(out@) == first + reference_texts(items@, i as int),
                    decreases items.len() - i,
                {
                    let ghost before = texts(out@);
                    match items[i].get_str("path") {
                        Some(p) => {
                            out.push(p.clone());
                            assert(texts(out@) =~= before + seq![p@]);
                        },
                        None => {
                            assert(texts(out@) =~= before + Seq::<Seq<char>>::empty());
                        },
                    }
                    assert(first + reference_texts(items@, i as int) + option_list(
                        items@[i as int].text_member("path"@),
                    ) =~= first + reference_texts(items@, i + 1));
                    i += 1;
                }
            },
            None => {
                assert(texts(out@) =~= first + Seq::<Seq<char>>::empty());
            },
        },
        None => {
            assert(texts(out@) =~= first + Seq::<Seq<char>>::empty());
        },
    }
    out
}

/// The places, in canonical form, where what a reference means may stand:
/// the path itself, the `tsconfig.json` in it, and, where it has no extension,
/// the same name with `.json`. None for a blank reference.
pub open spec fn reference_places(base_dir: Seq<char>, raw_ref: Seq<char>) -> Seq<Seq<char>> {
    let joined = join(base_dir, raw_ref);
    if trimmed(raw_ref).len() == 0 {
        Seq::empty()
    } else {
        seq![canonical(joined), canonical(join(joined, "tsconfig.json"@))] + if extension(joined) is None {
            seq![canonical(with_extension(joined, "json"@))]
        } else {
            Seq::empty()
        }
    }
}

/// The places where what a reference means may stand.
pub fn places_of_reference(base_dir: &str, raw_ref: &str) -> (out: Vec<String>)
    ensures
        texts(out@) == reference_places(base_dir@, raw_ref@),
{
    let mut out: Vec<String> = Vec::new();
    assert(texts(out@) =~= Seq::<Seq<char>>::empty());
    let raw = to_chars(raw_ref);
    if trim(&raw).len() == 0 {
        return out;
    }
    let joined = path_join(&to_chars(base_dir), &raw);
    let own = canonicalize(&joined);
    let inside = canonicalize(&path_join(&joined, &to_chars("tsconfig.json")));
    out.push(from_chars(&own));
    out.push(from_chars(&inside));
    assert(texts(out@) =~= seq![own@, inside@]);
    if path_extension(&joined).is_none() {
        let with_json = canonicalize(&path_with_extension(&joined, "json"));
        out.push(from_chars(&with_json));
        assert(texts(out@) =~= seq![own@, inside@] + seq![with_json@]);
    } else {
        assert(texts(out@) =~= seq![own@, inside@] + Seq::<Seq<char>>::empty());
    }
    out
}

/// The places of the first `n` references at which the tree holds nothing.
pub open spec fn unknown_places_to(
    tree: &ProjectTree,
    dir: Seq<char>,
    references: Seq<Seq<char>>,
    n: int,
) -> Seq<Seq<char>>
    decreases n,
{
    if n <= 0 || n > references.len() {
        Seq::empty()
    } else {
        let places = reference_places(dir, references[n - 1]);
        unknown_places_to(tree, dir, references, n - 1) + absent_to(
            tree,
            places,
            places.len() as int,
        )
    }
}

/// The places where what the file `config` refers to may stand and the tree
/// holds nothing; none where the file is no JSON.
pub open spec fn unknown_places(tree: &ProjectTree, config: Seq<char>) -> Seq<Seq<char>> {
    match config_document(tree, config) {
        None => Seq::empty(),
        Some(doc) => {
            let references = written_references(doc);
            unknown_places_to(tree, config_dir(config, "."@), references, references.len() as int)
        },
    }
}

/// The places that a configuration file refers to and of which the tree
/// knows nothing: whoever fills the tree may look there, and add what stands
/// there.
pub fn missing_references(tree: &ProjectTree, config_path: &str) -> (out: Vec<String>)
    ensures
        texts(out@) == unknown_places(tree, config_path@),
{
    let mut out: Vec<String> = Vec::new();
    assert(texts(out@) =~= Seq::<Seq<char>>::empty());
    let config = String::from_str(config_path);
    let doc = match read_config(tree, &config) {
        Some(doc) => doc,
        None => {
            return out;
        },
    };
    let dir = directory_of(&config, ".");
    let references = references_written(&doc);
    let mut i: usize = 0;
    assert(texts(out@) =~= unknown_places_to(tree, dir@, texts(references@), 0));
    while i < references.len()
        invariant
            i <= references.len(),
            texts(out@) == unknown_places_to(tree, dir@, texts(references@), i as int),
        decreases references.len() - i,
    {
        assert(texts(references@)[i as int] == references@[i as int]@);
        let places = places_of_reference(dir.as_str(), references[i].as_str());
        push_absent(tree, &mut out, &places);
        assert(texts(places@).len() == places@.len());
        i += 1;
    }
    out
}

/// How many of the first `n` entries of `universe` are not in `seen`.
pub open spec fn missing(universe: Seq<Seq<char>>, seen: Seq<Seq<char>>, n: int) -> nat
    decreases n,
{
    if n <= 0 || n > universe.len() {
        0
    } else if seen.contains(universe[n - 1]) {
        missing(universe, seen, n - 1)
    } else {
        missing(universe, seen, n - 1) + 1
    }
}

pub proof fn lemma_missing_push(universe: Seq<Seq<char>>, seen: Seq<Seq<char>>, c: Seq<char>, n: int)
    requires
        0 <= n <= universe.len(),
    ensures
        missing(universe, seen.push(c), n) <= missing(universe, seen, n),
        universe.take(n).contains(c) && !seen.contains(c) ==> missing(universe, seen.push(c), n)
            < missing(universe, seen, n),
    decreases n,
{
    if n > 0 {
        lemma_missing_push(universe, seen, c, n - 1);
        let x = universe[n - 1];
        if seen.contains(x) {
            let k = choose|k: int| 0 <= k < seen.len() && seen[k] == x;
            assert(seen.push(c)[k] == x);
        }
        assert(seen.push(c)[seen.len() as int] == c);
        if seen.push(c).contains(x) && !seen.contains(x) {
            let k = choose|k: int| 0 <= k < seen.push(c).len() && seen.push(c)[k] == x;
            if k < seen.len() {
                assert(seen[k] == x);
            }
            assert(x == c);
        }
        if universe.take(n).contains(c) && !seen.contains(c) {
            let k = choose|k: int| 0 <= k < n && universe.take(n)[k] == c;
            if k < n - 1 {
                assert(universe.take(n - 1)[k] == c);
            } else {
                assert(x == c);
            }
        }
    }
}

/// The configuration files seen once everything pending has been followed.
///
/// The last pending path is taken first. Where its canonical form exists and
/// was not seen before, it is seen now, and the files it names are followed
/// next, in their order, before the rest.
pub open spec fn drain(tree: &ProjectTree, pending: Seq<Seq<char>>, seen: Seq<Seq<char>>) -> Seq<
    Seq<char>,
>
    decreases missing(tree.existing(), seen, tree.existing().len() as int), pending.len(),
{
    if pending.len() == 0 {
        seen
    } else {
        let c = canonical(pending.last());
        let rest = pending.drop_last();
        if !tree.existing().contains(c) || seen.contains(c) {
            drain(tree, rest, seen)
        } else {
            proof {
                assert(tree.existing().take(tree.existing().len() as int) =~= tree.existing());
                lemma_missing_push(tree.existing(), seen, c, tree.existing().len() as int);
            }
            drain(tree, rest + related_configs(tree, c).reverse(), seen.push(c))
        }
    }
}

/// Adds to `out` the configuration file at `config_path` and every file that
/// it names, directly or through others, each once and in the order in which
/// it is met.
#[verifier::loop_isolation(false)]
pub fn discover_related_tsconfigs(tree: &ProjectTree, config_path: &str, out: &mut Vec<String>)
    ensures
        texts(final(out)@) == drain(tree, seq![config_path@], texts(old(out)@)),
{
    let ghost start = texts(out@);
    let mut stack: Vec<String> = Vec::new();
    stack.push(String::from_str(config_path));
    assert(texts(stack@) =~= seq![config_path@]);
    loop
        invariant
            drain(tree, seq![config_path@], start) == drain(tree, texts(stack@), texts(out@)),
        decreases missing(tree.existing(), texts(out@), tree.existing().len() as int), stack.len(),
    {
        let ghost pending = texts(stack@);
        let ghost seen = texts(out@);
        match stack.pop() {
            None => {
                assert(pending.len() == 0);
                return ;
            },
            Some(p) => {
                assert(texts(stack@) =~= pending.drop_last());
                assert(pending.last() == p@);
                let c = from_chars(&canonicalize(&to_chars(p.as_str())));
                if tree.has_path(&c) && !has_text(out, &c) {
                    proof {
                        assert(tree.existing().take(tree.existing().len() as int)
                            =~= tree.existing());
                        lemma_missing_push(tree.existing(), seen, c@, tree.existing().len() as int);
                    }
                    let children = related(tree, &c);
                    out.push(c);
                    assert(texts(out@) =~= seen.push(c@));
                    let ghost rest = texts(stack@);
                    let ghost rev = texts(children@).reverse();
                    let mut k: usize = children.len();
                    assert(texts(stack@) =~= rest + rev.take(0));
                    while k > 0
                        invariant
                            k <= children.len(),
                            rev == texts(children@).reverse(),
                            texts(stack@) == rest + rev.take(children.len() - k),
                        decreases k,
                    {
                        let ghost before = texts(stack@);
                        stack.push(children[k - 1].clone());
                        assert(rev[children.len() - k] == children@[k - 1]@);
                        assert(texts(stack@) =~= before.push(children@[k - 1]@));
                        assert(rest + rev.take(children.len() - k + 1) =~= (rest + rev.take(
                            children.len() - k,
                        )).push(rev[children.len() - k]));
                        k -= 1;
                    }
                    assert(rev.take(children.len() as int) =~= rev);
                }
            },
        }
    }
}

/// The rules that the first `n` targets of one key give.
pub open spec fn target_rules(key: Seq<char>, dir: Seq<char>, targets: Seq<JsonValue>, n: int) -> Seq<
    AliasView,
>
    decreases n,
{
    if n <= 0 || n > targets.len() {
        Seq::empty()
    } else {
        target_rules(key, dir, targets, n - 1) + match targets[n - 1].text() {
            Some(t) => seq![AliasView { key, target: t, base_dir: dir }],
            None => Seq::empty(),
        }
    }
}

/// The rules that the first `n` members of a `paths` object give: one for
/// each text in each member's list, in the order of the members.
pub open spec fn path_rules(dir: Seq<char>, members: Seq<(String, JsonValue)>, n: int) -> Seq<
    AliasView,
>
    decreases n,
{
    if n <= 0 || n > members.len() {
        Seq::empty()
    } else {
        path_rules(dir, members, n - 1) + match members[n - 1].1.items() {
            Some(targets) => target_rules(members[n - 1].0@, dir, targets, targets.len() as int),
            None => Seq::empty(),
        }
    }
}

/// A resolver after the compiler options of a configuration in directory
/// `dir`: its `baseUrl`, seen from `dir`, is one more base directory, and its
/// `paths` are more alias rules.
pub open spec fn with_options(r: ResolverView, dir: Seq<char>, doc: JsonValue) -> ResolverView {
    match doc.member("compilerOptions"@) {
        None => r,
        Some(options) => ResolverView {
            base_dirs: match options.text_member("baseUrl"@) {
                Some(b) => r.base_dirs.push(join(dir, b)),
                None => r.base_dirs,
            },
            alias_rules: match options.member("paths"@) {
                Some(paths) => match paths.members() {
                    Some(members) => r.alias_rules + path_rules(dir, members, members.len() as int),
                    None => r.alias_rules,
                },
                None => r.alias_rules,
            },
            ..r
        },
    }
}

/// A resolver after the compiler options of the file `config`. A file that
/// is no JSON changes nothing.
pub open spec fn with_compiler_options(r: ResolverView, tree: &ProjectTree, config: Seq<char>) -> ResolverView {
    match config_document(tree, config) {
        None => r,
        Some(doc) => with_options(r, config_dir(config, r.root), doc),
    }
}

fn push_target_rules(rules: &mut Vec<AliasRule>, key: &String, dir: &String, targets: &Vec<JsonValue>)
    ensures
        alias_views(final(rules)@) == alias_views(old(rules)@) + target_rules(
            key@,
            dir@,
            targets@,
            targets@.len() as int,
        ),
{
    let ghost base = alias_views(rules@);
    let mut i: usize = 0;
    assert(alias_views(rules@) =~= base + target_rules(key@, dir@, targets@, 0));
    while i < targets.len()
        invariant
            i <= targets.len(),
            alias_views(rules@) == base + target_rules(key@, dir@, targets@, i as int),
        decreases targets.len() - i,
    {
        let ghost before = alias_views(rules@);
        match targets[i].as_str() {
            Some(t) => {
                let rule = AliasRule { key: key.clone(), target: t.clone(), base_dir: dir.clone() };
                rules.push(rule);
                assert(alias_views(rules@) =~= before + seq![rule@]);
                assert(base + target_rules(key@, dir@, targets@, i as int) + seq![rule@] =~= base
                    + target_rules(key@, dir@, targets@, i + 1));
            },
            None => {
                assert(base + target_rules(key@, dir@, targets@, i as int) =~= base + target_rules(
                    key@,
                    dir@,
                    targets@,
                    i + 1,
                ));
            },
        }
        i += 1;
    }
}

fn push_path_rules(rules: &mut Vec<AliasRule>, dir: &String, members: &Vec<(String, JsonValue)>)
    ensures
        alias_views(final(rules)@) == alias_views(old(rules)@) + path_rules(
            dir@,
            members@,
            members@.len() as int,
        ),
{
    let ghost base = alias_views(rules@);
    let mut i: usize = 0;
    assert(alias_views(rules@) =~= base + path_rules(dir@, members@, 0));
    while i < members.len()
        invariant
            i <= members.len(),
            alias_views(rules@) == base + path_rules(dir@, members@, i as int),
        decreases members.len() - i,
    {
        let ghost before = alias_views(rules@);
        match members[i].1.as_array() {
            Some(targets) => {
                push_target_rules(rules, &members[i].0, dir, targets);
                assert(base + path_rules(dir@, members@, i as int) + target_rules(
                    members@[i as int].0@,
                    dir@,
                    targets@,
                    targets@.len() as int,
                ) =~= base + path_rules(dir@, members@, i + 1));
            },
            None => {
                assert(base + path_rules(dir@, members@, i as int) =~= base + path_rules(
                    dir@,
                    members@,
                    i + 1,
                ));
            },
        }
        i += 1;
    }
}

/// Takes the base directory and the alias rules of one configuration file
/// into the resolver.
pub fn apply_compiler_options_from_config(
    tree: &ProjectTree,
    config_path: &str,
    resolver: &mut Resolver,
)
    ensures
        final(resolver)@ == with_compiler_options(old(resolver)@, tree, config_path@),
{
    let config = String::from_str(config_path);
    match read_config(tree, &config) {
        Some(doc) => {
            let dir = directory_of(&config, resolver.root.as_str());
            apply_compiler_options(&doc, dir.as_str(), resolver);
        },
        None => {},
    }
}

/// Takes the base directory and the alias rules of a configuration in
/// directory `dir` into the resolver.
pub fn apply_compiler_options(doc: &JsonValue, dir: &str, resolver: &mut Resolver)
    ensures
        final(resolver)@ == with_options(old(resolver)@, dir@, *doc),
{
    let options = match doc.get("compilerOptions") {
        Some(options) => options,
        None => {
            return ;
        },
    };
    let dir = String::from_str(dir);
    match options.get_str("baseUrl") {
        Some(b) => {
            let ghost before = texts(resolver.base_dirs@);
            let joined = path_join(&to_chars(dir.as_str()), &to_chars(b.as_str()));
            resolver.base_dirs.push(from_chars(&joined));
            assert(texts(resolver.base_dirs@) =~= before.push(joined@));
        },
        None => {},
    }
    match options.get("paths") {
        Some(paths) => match paths.as_object() {
            Some(members) => {
                push_path_rules(&mut resolver.alias_rules, &dir, members);
            },
            None => {},
        },
        None => {},
    }
}

/// A path as it is kept among the base directories: canonical where that
/// exists, else as it was written.
pub open spec fn settled(tree: &ProjectTree, p: Seq<char>) -> Seq<char> {
    if tree.existing().contains(canonical(p)) {
        canonical(p)
    } else {
        p
    }
}

/// The first `n` of `dirs`, settled, none twice.
pub open spec fn settled_dirs(tree: &ProjectTree, dirs: Seq<Seq<char>>, n: int) -> Seq<Seq<char>>
    decreases n,
{
    if n <= 0 || n > dirs.len() {
        Seq::empty()
    } else {
        with_text(settled_dirs(tree, dirs, n - 1), settled(tree, dirs[n - 1]))
    }
}

/// The paths in canonical form where they exist, each once, in the order in
/// which they first stand.
pub fn dedup_paths(tree: &ProjectTree, paths: Vec<String>) -> (out: Vec<String>)
    ensures
        texts(out@) == settled_dirs(tree, texts(paths@), paths@.len() as int),
{
    let mut out: Vec<String> = Vec::new();
    let mut i: usize = 0;
    assert(texts(out@) =~= settled_dirs(tree, texts(paths@), 0));
    while i < paths.len()
        invariant
            i <= paths.len(),
            texts(out@) == settled_dirs(tree, texts(paths@), i as int),
        decreases paths.len() - i,
    {
        assert(texts(paths@)[i as int] == paths@[i as int]@);
        let c = from_chars(&canonicalize(&to_chars(paths[i].as_str())));
        if tree.has_path(&c) {
            push_unique(&mut out, c);
        } else {
            push_unique(&mut out, paths[i].clone());
        }
        i += 1;
    }
    out
}

/// The names under which a project's path-mapping configuration is looked for.
pub open spec fn seed_names() -> Seq<&'static str> {
    seq!["tsconfig.json", "jsconfig.json", "tsconfig.app.json", "tsconfig.base.json"]
}

/// The configuration files found from the first `n` seeds.
pub open spec fn discovered(tree: &ProjectTree, n: int) -> Seq<Seq<char>>
    decreases n,
{
    if n <= 0 || n > seed_names().len() {
        Seq::empty()
    } else {
        drain(tree, seq![join(tree.root@, seed_names()[n - 1]@)], discovered(tree, n - 1))
    }
}

/// A resolver after the compiler options of the first `n` of `configs`.
pub open spec fn configured(r: ResolverView, tree: &ProjectTree, configs: Seq<Seq<char>>, n: int) -> ResolverView
    decreases n,
{
    if n <= 0 || n > configs.len() {
        r
    } else {
        with_compiler_options(configured(r, tree, configs, n - 1), tree, configs[n - 1])
    }
}

/// The resolver of a project. Its base directories start with the root and
/// `src` below it; the configuration files found from the seeds add theirs and
/// their alias rules, in the order in which the files were found.
pub open spec fn built(tree: &ProjectTree, files: Seq<Seq<char>>) -> ResolverView {
    let start = ResolverView {
        files,
        root: tree.root@,
        base_dirs: seq![tree.root@, join(tree.root@, "src"@)],
        alias_rules: Seq::empty(),
    };
    let configs = discovered(tree, seed_names().len() as int);
    let r = configured(start, tree, configs, configs.len() as int);
    ResolverView { base_dirs: settled_dirs(tree, r.base_dirs, r.base_dirs.len() as int), ..r }
}

/// Configuration adds base directories and alias rules, and changes neither
/// the files nor the root.
pub proof fn lemma_configured_keeps(r: ResolverView, tree: &ProjectTree, configs: Seq<Seq<char>>, n: int)
    ensures
        configured(r, tree, configs, n).files == r.files,
        configured(r, tree, configs, n).root == r.root,
    decreases n,
{
    if 0 < n <= configs.len() {
        lemma_configured_keeps(r, tree, configs, n - 1);
    }
}

/// The resolver of a project knows the files it was built for, and the
/// project's root.
pub proof fn lemma_built_keeps(tree: &ProjectTree, files: Seq<Seq<char>>)
    ensures
        built(tree, files).files == files,
        built(tree, files).root == tree.root@,
{
    let start = ResolverView {
        files,
        root: tree.root@,
        base_dirs: seq![tree.root@, join(tree.root@, "src"@)],
        alias_rules: Seq::empty(),
    };
    let configs = discovered(tree, seed_names().len() as int);
    lemma_configured_keeps(start, tree, configs, configs.len() as int);
}

/// The resolver of a project, for the given source files.
pub fn build_resolver(tree: &ProjectTree, files: &Vec<String>) -> (resolver: Resolver)
    ensures
        resolver@ == built(tree, texts(files@)),
{
    let root = to_chars(tree.root.as_str());
    let mut base_dirs: Vec<String> = Vec::new();
    base_dirs.push(tree.root.clone());
    base_dirs.push(from_chars(&path_join(&root, &to_chars("src"))));
    assert(texts(base_dirs@) =~= seq![tree.root@, join(tree.root@, "src"@)]);
    let mut resolver = Resolver {
        files: clone_texts(files),
        root: tree.root.clone(),
        base_dirs,
        alias_rules: Vec::new(),
    };
    assert(alias_views(resolver.alias_rules@) =~= Seq::<AliasView>::empty());
    let ghost start = resolver@;
    let seeds = ["tsconfig.json", "jsconfig.json", "tsconfig.app.json", "tsconfig.base.json"];
    assert(seeds@ =~= seed_names());
    let mut configs: Vec<String> = Vec::new();
    let mut i: usize = 0;
    assert(texts(configs@) =~= discovered(tree, 0));
    while i < seeds.len()
        invariant
            i <= seeds.len(),
            seeds@ == seed_names(),
            root@ == tree.root@,
            texts(configs@) == discovered(tree, i as int),
        decreases seeds.len() - i,
    {
        let seed = from_chars(&path_join(&root, &to_chars(seeds[i])));
        discover_related_tsconfigs(tree, seed.as_str(), &mut configs);
        i += 1;
    }
    let mut j: usize = 0;
    while j < configs.len()
        invariant
            j <= configs.len(),
            resolver@ == configured(start, tree, texts(configs@), j as int),
        decreases configs.len() - j,
    {
        assert(texts(configs@)[j as int] == configs@[j as int]@);
        apply_compiler_options_from_config(tree, configs[j].as_str(), &mut resolver);
        j += 1;
    }
    let dirs = dedup_paths(tree, resolver.base_dirs);
    Resolver {
        files: resolver.files,
        root: resolver.root,
        base_dirs: dirs,
        alias_rules: resolver.alias_rules,
    }
}

} // verus!
