//! The package manifest: the entry files it names and the dependencies it
//! declares.

use crate::config::option_list;
use crate::json::{collect_strings, json_document, JsonValue, leaves, parse};
use crate::paths::{join, path_join};
use crate::text::{from_chars, texts, to_chars};
use crate::tree::ProjectTree;
use vstd::prelude::*;

verus! {

/// The manifest cannot be used.
#[derive(Clone, Copy, Debug, PartialEq, Eq, Structural)]
pub enum ManifestError {
    /// Something exists at the manifest's path, and it is no JSON document.
    Invalid,
}

/// What stands at the manifest's path.
pub enum Manifest {
    /// Nothing: the project declares nothing.
    Absent,
    /// Something that is no JSON document.
    Invalid,
    /// The manifest.
    Document(JsonValue),
}

/// Where a project's manifest is looked for.
pub open spec fn manifest_path(root: Seq<char>) -> Seq<char> {
    join(root, "package.json"@)
}

/// What stands at the manifest's path of a project.
pub open spec fn manifest_of(tree: &ProjectTree) -> Manifest {
    let path = manifest_path(tree.root@);
    if !tree.existing().contains(path) {
        Manifest::Absent
    } else {
        match json_document(tree.text_of(path)) {
            Some(doc) => Manifest::Document(doc),
            None => Manifest::Invalid,
        }
    }
}

/// Reads what stands at the manifest's path.
pub fn read_manifest(tree: &ProjectTree) -> (m: Manifest)
    ensures
        m == manifest_of(tree),
{
    let path = from_chars(&path_join(&to_chars(tree.root.as_str()), &to_chars("package.json")));
    if !tree.has_path(&path) {
        return Manifest::Absent;
    }
    let text = tree.read(&path);
    match parse(text.as_str()) {
        Some(doc) => Manifest::Document(doc),
        None => Manifest::Invalid,
    }
}

/// The texts among the values of the first `n` members.
pub open spec fn text_values(members: Seq<(String, JsonValue)>, n: int) -> Seq<Seq<char>>
    decreases n,
{
    if n <= 0 || n > members.len() {
        Seq::empty()
    } else {
        text_values(members, n - 1) + option_list(members[n - 1].1.text())
    }
}

/// The executables that a manifest names under `bin`: the text itself, or the
/// texts among the values of the object.
pub open spec fn bin_candidates(doc: JsonValue) -> Seq<Seq<char>> {
    match doc.member("bin"@) {
        Some(JsonValue::Text(s)) => seq![s@],
        Some(JsonValue::Object(members)) => text_values(members@, members@.len() as int),
        _ => Seq::empty(),
    }
}

/// The files that a manifest names as entries: `main`, `module`, `types` and
/// `browser` where they are texts, what `bin` names, and every text at any depth
/// of `exports`.
pub open spec fn entry_candidates(doc: JsonValue) -> Seq<Seq<char>> {
    option_list(doc.text_member("main"@)) + option_list(doc.text_member("module"@)) + option_list(
        doc.text_member("types"@),
    ) + option_list(doc.text_member("browser"@)) + bin_candidates(doc) + match doc.member(
        "exports"@,
    ) {
        Some(exports) => leaves(exports),
        None => Seq::empty(),
    }
}

fn push_text_member(out: &mut Vec<String>, doc: &JsonValue, key: &str)
    ensures
        texts(final(out)@) == texts(old(out)@) + option_list(doc.text_member(key@)),
{
    let ghost before = texts(out@);
    match doc.get_str(key) {
        Some(s) => {
            out.push(s.clone());
            assert(texts(out@) =~= before + seq![s@]);
        },
        None => {
            assert(texts(out@) =~= before + Seq::<Seq<char>>::empty());
        },
    }
}

fn push_bin_candidates(out: &mut Vec<String>, doc: &JsonValue)
    ensures
        texts(final(out)@) == texts(old(out)@) + bin_candidates(*doc),
{
    let ghost before = texts(out@);
    match doc.get("bin") {
        Some(JsonValue::Text(s)) => {
            out.push(s.clone());
            assert(texts(out@) =~= before + seq![s@]);
        },
        Some(JsonValue::Object(members)) => {
            let mut i: usize = 0;
            assert(texts(out@) =~= before + text_values(members@, 0));
            while i < members.len()
                invariant
                    i <= members.len(),
                    texts(out@) == before + text_values(members@, i as int),
                decreases members.len() - i,
            {
                let ghost now = texts(out@);
                match members[i].1.as_str() {
                    Some(s) => {
                        out.push(s.clone());
                        assert(texts(out@) =~= now + seq![s@]);
                    },
                    None => {},
                }
                assert(before + text_values(members@, i as int) + option_list(
                    members@[i as int].1.text(),
                ) =~= before + text_values(members@, i + 1));
                i += 1;
            }
        },
        _ => {
            assert(texts(out@) =~= before + Seq::<Seq<char>>::empty());
        },
    }
}

/// The entry files that a manifest names.
pub fn manifest_entry_candidates(doc: &JsonValue) -> (out: Vec<String>)
    ensures
        texts(out@) == entry_candidates(*doc),
{
    let mut out: Vec<String> = Vec::new();
    assert(texts(out@) =~= Seq::<Seq<char>>::empty());
    push_text_member(&mut out, doc, "main");
    push_text_member(&mut out, doc, "module");
    push_text_member(&mut out, doc, "types");
    push_text_member(&mut out, doc, "browser");
    push_bin_candidates(&mut out, doc);
    let ghost before = texts(out@);
    match doc.get("exports") {
        Some(exports) => {
            collect_strings(exports, &mut out);
        },
        None => {
            assert(texts(out@) =~= before + Seq::<Seq<char>>::empty());
        },
    }
    assert(texts(out@) =~= entry_candidates(*doc));
    out
}

/// The entry files that the project's manifest names: none where there is no
/// manifest, an error where what stands there is no JSON document.
pub fn package_json_entry_candidates(tree: &ProjectTree) -> (r: Result<Vec<String>, ManifestError>)
    ensures
        match r {
            Ok(out) => match manifest_of(tree) {
                Manifest::Absent => texts(out@) == Seq::<Seq<char>>::empty(),
                Manifest::Document(doc) => texts(out@) == entry_candidates(doc),
                Manifest::Invalid => false,
            },
            Err(e) => manifest_of(tree) is Invalid && e == ManifestError::Invalid,
        },
{
    match read_manifest(tree) {
        Manifest::Absent => {
            let out: Vec<String> = Vec::new();
            assert(texts(out@) =~= Seq::<Seq<char>>::empty());
            Ok(out)
        },
        Manifest::Invalid => Err(ManifestError::Invalid),
        Manifest::Document(doc) => Ok(manifest_entry_candidates(&doc)),
    }
}

/// The part that a dependency has in a project.
#[derive(Clone, Copy, Debug, PartialEq, Eq, Structural)]
pub enum DepKind {
    Prod,
    Dev,
    Peer,
    Optional,
}

/// A dependency that the manifest declares.
pub struct DependencyRecord {
    pub name: String,
    pub kind: DepKind,
}

/// A `DependencyRecord` as plain values.
pub struct DependencyView {
    pub name: Seq<char>,
    pub kind: DepKind,
}

impl View for DependencyRecord {
    type V = DependencyView;

    open spec fn view(&self) -> DependencyView {
        DependencyView { name: self.name@, kind: self.kind }
    }
}

/// The views of a list of dependencies.
pub open spec fn dependency_views(v: Seq<DependencyRecord>) -> Seq<DependencyView> {
    Seq::new(v.len(), |i: int| v[i]@)
}

/// Some record of the list has the name.
pub open spec fn declares(list: Seq<DependencyView>, name: Seq<char>) -> bool {
    exists|i: int| 0 <= i < list.len() && (#[trigger] list[i]).name == name
}

/// `list` and the keys of the first `n` members, each with `kind`, unless
/// the list holds the name already.
pub open spec fn with_names(
    list: Seq<DependencyView>,
    members: Seq<(String, JsonValue)>,
    kind: DepKind,
    n: int,
) -> Seq<DependencyView>
    decreases n,
{
    if n <= 0 || n > members.len() {
        list
    } else {
        let before = with_names(list, members, kind, n - 1);
        if declares(before, members[n - 1].0@) {
            before
        } else {
            before.push(DependencyView { name: members[n - 1].0@, kind })
        }
    }
}

/// `list` and the names under `key` of the manifest, each with `kind`; a name
/// that the list holds keeps the kind it has.
pub open spec fn with_kind(list: Seq<DependencyView>, doc: JsonValue, key: Seq<char>, kind: DepKind) -> Seq<
    DependencyView,
> {
    match doc.member(key) {
        Some(JsonValue::Object(members)) => with_names(list, members@, kind, members@.len() as int),
        _ => list,
    }
}

#[verifier::loop_isolation(false)]
fn is_declared(list: &Vec<DependencyRecord>, name: &String) -> (r: bool)
    ensures
        r == declares(dependency_views(list@), name@),
{
    let mut i: usize = 0;
    while i < list.len()
        invariant
            i <= list.len(),
            forall|k: int| 0 <= k < i ==> (#[trigger] dependency_views(list@)[k]).name != name@,
        decreases list.len() - i,
    {
        assert(dependency_views(list@)[i as int] == list@[i as int]@);
        if list[i].name == *name {
            return true;
        }
        i += 1;
    }
    false
}

/// Adds the names under `key` of the manifest, each with `kind`.
pub fn insert_dep_kind(out: &mut Vec<DependencyRecord>, root: &JsonValue, key: &str, kind: DepKind)
    ensures
        dependency_views(final(out)@) == with_kind(dependency_views(old(out)@), *root, key@, kind),
{
    let ghost base = dependency_views(out@);
    match root.get(key) {
        Some(JsonValue::Object(members)) => {
            let mut i: usize = 0;
            while i < members.len()
                invariant
                    i <= members.len(),
                    dependency_views(out@) == with_names(base, members@, kind, i as int),
                decreases members.len() - i,
            {
                let ghost before = dependency_views(out@);
                if !is_declared(out, &members[i].0) {
                    let record = DependencyRecord { name: members[i].0.clone(), kind };
                    out.push(record);
                    assert(dependency_views(out@) =~= before.push(record@));
                }
                i += 1;
            }
        },
        _ => {},
    }
}

/// The dependencies that a manifest declares: those under `dependencies`,
/// `devDependencies`, `peerDependencies` and `optionalDependencies`, in this
/// order; a name declared twice has the kind under which it came first.
pub open spec fn declared(doc: JsonValue) -> Seq<DependencyView> {
    with_kind(
        with_kind(
            with_kind(
                with_kind(Seq::empty(), doc, "dependencies"@, DepKind::Prod),
                doc,
                "devDependencies"@,
                DepKind::Dev,
            ),
            doc,
            "peerDependencies"@,
            DepKind::Peer,
        ),
        doc,
        "optionalDependencies"@,
        DepKind::Optional,
    )
}

/// The dependencies that a manifest declares.
pub fn manifest_dependencies(doc: &JsonValue) -> (out: Vec<DependencyRecord>)
    ensures
        dependency_views(out@) == declared(*doc),
{
    let mut out: Vec<DependencyRecord> = Vec::new();
    assert(dependency_views(out@) =~= Seq::<DependencyView>::empty());
    insert_dep_kind(&mut out, doc, "dependencies", DepKind::Prod);
    insert_dep_kind(&mut out, doc, "devDependencies", DepKind::Dev);
    insert_dep_kind(&mut out, doc, "peerDependencies", DepKind::Peer);
    insert_dep_kind(&mut out, doc, "optionalDependencies", DepKind::Optional);
    out
}

/// The dependencies that the project's manifest declares: none where there is
/// no manifest, an error where what stands there is no JSON document.
pub fn collect_declared_dependencies(tree: &ProjectTree) -> (r: Result<
    Vec<DependencyRecord>,
    ManifestError,
>)
    ensures
        match r {
            Ok(out) => match manifest_of(tree) {
                Manifest::Absent => dependency_views(out@) == Seq::<DependencyView>::empty(),
                Manifest::Document(doc) => dependency_views(out@) == declared(doc),
                Manifest::Invalid => false,
            },
            Err(e) => manifest_of(tree) is Invalid && e == ManifestError::Invalid,
        },
{
    match read_manifest(tree) {
        Manifest::Absent => {
            let out: Vec<DependencyRecord> = Vec::new();
            assert(dependency_views(out@) =~= Seq::<DependencyView>::empty());
            Ok(out)
        },
        Manifest::Invalid => Err(ManifestError::Invalid),
        Manifest::Document(doc) => Ok(manifest_dependencies(&doc)),
    }
}

} // verus!
