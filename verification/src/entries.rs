//! The modules from which reachability starts.

use crate::manifest::{
    entry_candidates, Manifest, manifest_of, ManifestError, package_json_entry_candidates,
};
use crate::marks::{holds, marked, marked_indices, unmarked};
use crate::paths::{
    below, file_stem, is_one_of, is_test_like_file, join, one_of, path_below, path_file_stem,
    path_join, test_like,
};
use crate::resolver::{candidate_file, resolve_candidate_path};
use crate::text::{
    from_chars, slashed, starts, starts_with, texts, to_chars, to_forward_slashes,
};
use crate::tree::ProjectTree;
use vstd::prelude::*;

verus! {

/// File stems that a router takes for routes under an `app` directory.
pub open spec fn route_files() -> Seq<&'static str> {
    seq![
        "page",
        "layout",
        "route",
        "loading",
        "error",
        "not-found",
        "template",
        "default",
        "head",
    ]
}

/// The file is an entry by the conventions of a framework: anything under
/// `pages` or `src/pages`, and the route files under `app` or `src/app`.
pub open spec fn framework_entry(root: Seq<char>, path: Seq<char>) -> bool {
    match below(root, path) {
        None => false,
        Some(rel) => {
            let r = slashed(rel);
            ||| starts(r, "pages/"@)
            ||| starts(r, "src/pages/"@)
            ||| ((starts(r, "app/"@) || starts(r, "src/app/"@)) && one_of(
                file_stem(path),
                route_files(),
            ))
        },
    }
}

/// Whether a file is an entry by the conventions of a framework.
pub fn is_framework_convention_entry(root: &str, file: &str) -> (r: bool)
    ensures
        r == framework_entry(root@, file@),
{
    let path = to_chars(file);
    let rel = match path_below(&to_chars(root), &path) {
        Some(rel) => to_forward_slashes(&rel),
        None => {
            return false;
        },
    };
    if starts_with(&rel, "pages/") || starts_with(&rel, "src/pages/") {
        return true;
    }
    if starts_with(&rel, "app/") || starts_with(&rel, "src/app/") {
        let routes = [
            "page",
            "layout",
            "route",
            "loading",
            "error",
            "not-found",
            "template",
            "default",
            "head",
        ];
        assert(routes@ =~= route_files());
        return is_one_of(&path_file_stem(&path), &routes);
    }
    false
}

/// Some of `names`, seen from `root`, names file `i`.
pub open spec fn names_file(root: Seq<char>, files: Seq<Seq<char>>, names: Seq<Seq<char>>, i: int) -> bool {
    exists|k: int|
        0 <= k < names.len() && candidate_file(join(root, #[trigger] names[k]), files) == Some(i)
}

/// Marks the files that `names` name, seen from `root`.
#[verifier::loop_isolation(false)]
fn mark_named(marks: &mut Vec<bool>, root: &Vec<char>, files: &Vec<String>, names: &Vec<String>)
    requires
        old(marks)@.len() == files@.len(),
    ensures
        final(marks)@.len() == files@.len(),
        forall|i: int|
            0 <= i < files@.len() ==> (#[trigger] final(marks)@[i] <==> (old(marks)@[i] || names_file(
                root@,
                texts(files@),
                texts(names@),
                i,
            ))),
{
    let ghost start = marks@;
    let mut k: usize = 0;
    while k < names.len()
        invariant
            k <= names.len(),
            marks@.len() == files@.len(),
            forall|i: int|
                0 <= i < files@.len() ==> (#[trigger] marks@[i] <==> (start[i] || names_file(
                    root@,
                    texts(files@),
                    texts(names@).take(k as int),
                    i,
                ))),
        decreases names.len() - k,
    {
        let ghost done = texts(names@).take(k as int);
        let ghost next = texts(names@).take(k + 1);
        let ghost raw = join(root@, names@[k as int]@);
        let ghost before = marks@;
        let found = resolve_candidate_path(
            from_chars(&path_join(root, &to_chars(names[k].as_str()))).as_str(),
            files,
        );
        match found {
            Some(at) => {
                marks.set(at, true);
            },
            None => {},
        }
        proof {
            assert(next[k as int] == names@[k as int]@);
            assert(raw == join(root@, next[k as int]));
            assert forall|i: int| 0 <= i < files@.len() implies (names_file(
                root@,
                texts(files@),
                next,
                i,
            ) <==> (names_file(root@, texts(files@), done, i) || candidate_file(raw, texts(files@))
                == Some(i))) by {
                if names_file(root@, texts(files@), done, i) {
                    let j = choose|j: int|
                        0 <= j < done.len() && candidate_file(
                            join(root@, #[trigger] done[j]),
                            texts(files@),
                        ) == Some(i);
                    assert(next[j] == done[j]);
                }
                if names_file(root@, texts(files@), next, i) {
                    let j = choose|j: int|
                        0 <= j < next.len() && candidate_file(
                            join(root@, #[trigger] next[j]),
                            texts(files@),
                        ) == Some(i);
                    if j < k {
                        assert(done[j] == next[j]);
                    }
                }
                if candidate_file(raw, texts(files@)) == Some(i) {
                    assert(candidate_file(join(root@, next[k as int]), texts(files@)) == Some(i));
                }
            }
            assert forall|i: int| 0 <= i < files@.len() implies (#[trigger] marks@[i] <==> (start[i]
                || names_file(root@, texts(files@), next, i))) by {
                assert(before[i] <==> (start[i] || names_file(root@, texts(files@), done, i)));
                assert(names_file(root@, texts(files@), next, i) <==> (names_file(
                    root@,
                    texts(files@),
                    done,
                    i,
                ) || candidate_file(raw, texts(files@)) == Some(i)));
                match found {
                    Some(at) => {
                        assert(marks@ == before.update(at as int, true));
                        assert(candidate_file(raw, texts(files@)) == Some(at as int));
                    },
                    None => {
                        assert(marks@ == before);
                    },
                }
            }
        }
        k += 1;
    }
    assert(texts(names@).take(names@.len() as int) =~= texts(names@));
    assert(k == names@.len());
    assert forall|i: int| 0 <= i < files@.len() implies (#[trigger] marks@[i] <==> (start[i]
        || names_file(root@, texts(files@), texts(names@), i))) by {
        assert(marks@[i] <==> (start[i] || names_file(
            root@,
            texts(files@),
            texts(names@).take(k as int),
            i,
        )));
    }
}

/// Entry files that projects have by custom.
pub open spec fn conventional_names() -> Seq<Seq<char>> {
    seq![
        "src/index.ts"@,
        "src/index.tsx"@,
        "src/index.js"@,
        "src/index.jsx"@,
        "src/main.ts"@,
        "src/main.tsx"@,
        "src/main.js"@,
        "src/main.jsx"@,
        "index.ts"@,
        "index.js"@,
    ]
}

fn conventional_entries() -> (out: Vec<String>)
    ensures
        texts(out@) == conventional_names(),
{
    let mut out: Vec<String> = Vec::new();
    out.push(String::from_str("src/index.ts"));
    out.push(String::from_str("src/index.tsx"));
    out.push(String::from_str("src/index.js"));
    out.push(String::from_str("src/index.jsx"));
    out.push(String::from_str("src/main.ts"));
    out.push(String::from_str("src/main.tsx"));
    out.push(String::from_str("src/main.js"));
    out.push(String::from_str("src/main.jsx"));
    out.push(String::from_str("index.ts"));
    out.push(String::from_str("index.js"));
    assert(texts(out@) =~= conventional_names());
    out
}

/// The entry files that a project's manifest names, none where it has none.
pub open spec fn manifest_names(tree: &ProjectTree) -> Seq<Seq<char>> {
    match manifest_of(tree) {
        Manifest::Document(doc) => entry_candidates(doc),
        _ => Seq::empty(),
    }
}

/// File `i` is an entry of the project.
///
/// Where the caller gave hints, the entries are the files that the hints
/// name, and no others, be they none. Where the caller gave none, they are the
/// files that the manifest names, the conventional entry files, the files that
/// are entries by a framework's conventions, and the tests.
pub open spec fn entry_file(
    tree: &ProjectTree,
    files: Seq<Seq<char>>,
    hints: Seq<Seq<char>>,
    i: int,
) -> bool {
    let root = tree.root@;
    if hints.len() > 0 {
        names_file(root, files, hints, i)
    } else {
        ||| names_file(root, files, manifest_names(tree), i)
        ||| names_file(root, files, conventional_names(), i)
        ||| framework_entry(root, files[i])
        ||| test_like(files[i])
    }
}

/// The entries of a project, as indices into `files`, ascending. Fails where
/// no hint is given and the manifest is no JSON document.
#[verifier::loop_isolation(false)]
pub fn discover_entries(tree: &ProjectTree, files: &Vec<String>, cli_entries: &Vec<String>) -> (r:
    Result<Vec<usize>, ManifestError>)
    ensures
        r is Err <==> (cli_entries@.len() == 0 && manifest_of(tree) is Invalid),
        match r {
            Ok(entries) => {
                &&& forall|a: int, b: int|
                    0 <= a < b < entries@.len() ==> entries@[a] < entries@[b]
                &&& forall|k: int| 0 <= k < entries@.len() ==> #[trigger] entries@[k] < files@.len()
                &&& forall|i: int|
                    0 <= i < files@.len() ==> (holds(entries@, i) <==> entry_file(
                        tree,
                        texts(files@),
                        texts(cli_entries@),
                        i,
                    ))
            },
            Err(e) => e == ManifestError::Invalid,
        },
{
    let root = to_chars(tree.root.as_str());
    let mut marks = unmarked(files.len());
    if cli_entries.len() > 0 {
        mark_named(&mut marks, &root, files, cli_entries);
        let entries = marked_indices(&marks);
        assert forall|i: int| 0 <= i < files@.len() implies (holds(entries@, i) <==> entry_file(
            tree,
            texts(files@),
            texts(cli_entries@),
            i,
        )) by {
            if holds(entries@, i) {
                let k = choose|k: int| 0 <= k < entries@.len() && #[trigger] entries@[k] as int == i;
                assert(marked(marks@, entries@[k] as int));
            }
        }
        return Ok(entries);
    }
    let named = match package_json_entry_candidates(tree) {
        Ok(named) => named,
        Err(e) => {
            return Err(e);
        },
    };
    assert(texts(named@) == manifest_names(tree));
    mark_named(&mut marks, &root, files, &named);
    mark_named(&mut marks, &root, files, &conventional_entries());
    let mut i: usize = 0;
    let ghost named_marks = marks@;
    while i < files.len()
        invariant
            i <= files.len(),
            marks@.len() == files@.len(),
            forall|j: int|
                0 <= j < i ==> (#[trigger] marks@[j] <==> (named_marks[j] || framework_entry(
                    tree.root@,
                    files@[j]@,
                ) || test_like(files@[j]@))),
            forall|j: int| i <= j < files@.len() ==> #[trigger] marks@[j] == named_marks[j],
        decreases files.len() - i,
    {
        let by_framework = is_framework_convention_entry(tree.root.as_str(), files[i].as_str());
        let by_name = is_test_like_file(files[i].as_str());
        let ghost before = marks@;
        assert(by_framework == framework_entry(tree.root@, files@[i as int]@));
        assert(by_name == test_like(files@[i as int]@));
        assert(before[i as int] == named_marks[i as int]);
        if by_framework || by_name {
            marks.set(i, true);
            assert(marks@[i as int]);
        }
        assert(marks@[i as int] <==> (named_marks[i as int] || by_framework || by_name));
        assert forall|j: int| 0 <= j < i + 1 implies (#[trigger] marks@[j] <==> (named_marks[j]
            || framework_entry(tree.root@, files@[j]@) || test_like(files@[j]@))) by {
            if j < i {
                assert(marks@[j] == before[j]);
            }
        }
        assert forall|j: int| i + 1 <= j < files@.len() implies #[trigger] marks@[j]
            == named_marks[j] by {
            assert(marks@[j] == before[j]);
        }
        i += 1;
    }
    let entries = marked_indices(&marks);
    assert forall|i: int| 0 <= i < files@.len() implies (holds(entries@, i) <==> entry_file(
        tree,
        texts(files@),
        texts(cli_entries@),
        i,
    )) by {
        assert(texts(files@)[i] == files@[i]@);
        if holds(entries@, i) {
            let k = choose|k: int| 0 <= k < entries@.len() && #[trigger] entries@[k] as int == i;
            assert(marked(marks@, entries@[k] as int));
        }
    }
    Ok(entries)
}

} // verus!
