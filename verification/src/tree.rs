//! A project as the analyzer sees it: the paths that exist and the texts that
//! were read. Nothing here touches a file system.
//!
//! The modules and assets of a project are the files under its root. A tree
//! may hold paths outside the root as well: a configuration or an import may
//! lead there. Such a path exists, and may be read as a configuration; it
//! is neither a module nor an asset.

use crate::order::{push_unique, with_text};
use crate::paths::{
    asset_file, below, has_asset_extension, has_source_extension, has_text, ignored_names,
    is_one_of, lemma_position, one_of, path_below, position, position_from, relative,
    relative_chars, source_file,
};
use crate::text::{pieces, rows, split, texts, to_chars};
use vstd::prelude::*;

verus! {

/// A regular file: where it is, and what it holds. The text is empty where
/// the file was not read or is no text.
pub struct FileEntry {
    pub path: String,
    pub text: String,
}

/// The files and directories of a project, each by its canonical path, and
/// what else is known to exist, outside the root.
pub struct ProjectTree {
    pub root: String,
    pub directories: Vec<String>,
    pub files: Vec<FileEntry>,
}

/// The paths of a list of files.
pub open spec fn entry_paths(files: Seq<FileEntry>) -> Seq<Seq<char>> {
    Seq::new(files.len(), |i: int| files[i].path@)
}

impl ProjectTree {
    /// The paths of the regular files.
    pub open spec fn paths(&self) -> Seq<Seq<char>> {
        entry_paths(self.files@)
    }

    /// Every path that exists: the files, then the directories.
    pub open spec fn existing(&self) -> Seq<Seq<char>> {
        self.paths() + texts(self.directories@)
    }

    /// `path` is a directory.
    pub open spec fn is_directory(&self, path: Seq<char>) -> bool {
        texts(self.directories@).contains(path)
    }

    /// What the first file at `path` holds; empty where there is none.
    pub open spec fn text_of(&self, path: Seq<char>) -> Seq<char> {
        let i = position(self.paths(), path);
        if 0 <= i < self.files@.len() {
            self.files@[i].text@
        } else {
            Seq::empty()
        }
    }

    /// Whether a regular file stands at the path.
    pub fn is_file(&self, path: &String) -> (r: bool)
        ensures
            r == self.paths().contains(path@),
    {
        proof {
            lemma_position(self.paths(), path@);
        }
        let mut i: usize = 0;
        while i < self.files.len()
            invariant
                i <= self.files.len(),
                position(self.paths(), path@) == position_from(self.paths(), path@, i as int),
            decreases self.files.len() - i,
        {
            if self.files[i].path == *path {
                return true;
            }
            i += 1;
        }
        false
    }

    /// Whether a directory stands at the path.
    pub fn is_dir(&self, path: &String) -> (r: bool)
        ensures
            r == self.is_directory(path@),
    {
        has_text(&self.directories, path)
    }

    /// Whether anything stands at the path.
    pub fn has_path(&self, path: &String) -> (r: bool)
        ensures
            r == self.existing().contains(path@),
    {
        let f = self.is_file(path);
        let d = self.is_dir(path);
        proof {
            let a = self.paths();
            let b = texts(self.directories@);
            if a.contains(path@) {
                let k = choose|k: int| 0 <= k < a.len() && a[k] == path@;
                assert((a + b)[k] == path@);
            }
            if b.contains(path@) {
                let k = choose|k: int| 0 <= k < b.len() && b[k] == path@;
                assert((a + b)[a.len() + k] == path@);
            }
            if (a + b).contains(path@) {
                let k = choose|k: int| 0 <= k < (a + b).len() && (a + b)[k] == path@;
                if k < a.len() {
                    assert(a[k] == path@);
                } else {
                    assert(b[k - a.len()] == path@);
                }
            }
        }
        f || d
    }

    /// What the file at `path` holds, as `text_of` says.
    pub fn read(&self, path: &String) -> (out: String)
        ensures
            out@ == self.text_of(path@),
    {
        let mut i: usize = 0;
        while i < self.files.len()
            invariant
                i <= self.files.len(),
                position(self.paths(), path@) == position_from(self.paths(), path@, i as int),
            decreases self.files.len() - i,
        {
            if self.files[i].path == *path {
                return self.files[i].text.clone();
            }
            i += 1;
        }
        String::new()
    }

    /// Every path that exists, as `existing` lists them.
    pub fn all_paths(&self) -> (out: Vec<String>)
        ensures
            texts(out@) == self.existing(),
    {
        let mut out: Vec<String> = Vec::new();
        let mut i: usize = 0;
        while i < self.files.len()
            invariant
                i <= self.files.len(),
                texts(out@) == self.paths().take(i as int),
            decreases self.files.len() - i,
        {
            let ghost before = texts(out@);
            out.push(self.files[i].path.clone());
            assert(texts(out@) =~= before.push(self.files@[i as int].path@));
            assert(self.paths().take(i + 1) =~= self.paths().take(i as int).push(
                self.files@[i as int].path@,
            ));
            i += 1;
        }
        assert(self.paths().take(self.files@.len() as int) =~= self.paths());
        let mut j: usize = 0;
        assert(texts(out@) =~= self.paths() + texts(self.directories@).take(0));
        while j < self.directories.len()
            invariant
                j <= self.directories.len(),
                texts(out@) == self.paths() + texts(self.directories@).take(j as int),
            decreases self.directories.len() - j,
        {
            let ghost before = texts(out@);
            out.push(self.directories[j].clone());
            assert(texts(out@) =~= before.push(self.directories@[j as int]@));
            assert(self.paths() + texts(self.directories@).take(j + 1) =~= (self.paths() + texts(
                self.directories@,
            ).take(j as int)).push(self.directories@[j as int]@));
            j += 1;
        }
        assert(texts(self.directories@).take(self.directories@.len() as int) =~= texts(
            self.directories@,
        ));
        out
    }
}

/// Some name on the way from `root` to `path`, the last one included, is that
/// of a directory that is never walked.
pub open spec fn ignored_path(root: Seq<char>, path: Seq<char>) -> bool {
    let parts = pieces(relative(root, path), '/');
    exists|i: int| 0 <= i < parts.len() && one_of(#[trigger] parts[i], ignored_names())
}

/// Whether a path goes, below the root, through an ignored directory.
#[verifier::loop_isolation(false)]
pub fn is_ignored_path(root: &str, path: &str) -> (r: bool)
    ensures
        r == ignored_path(root@, path@),
{
    let rel = relative_chars(&to_chars(root), &to_chars(path));
    let parts = split(&rel, '/');
    assert(rows(parts@).len() == parts@.len());
    let ignored = [
        "node_modules",
        ".git",
        ".haadi_trash",
        "dist",
        "build",
        "coverage",
        "target",
        ".next",
        "out",
    ];
    assert(ignored@ =~= ignored_names());
    let mut i: usize = 0;
    while i < parts.len()
        invariant
            i <= parts.len(),
            ignored@ == ignored_names(),
            rows(parts@).len() == parts@.len(),
            forall|k: int| 0 <= k < i ==> !one_of(#[trigger] rows(parts@)[k], ignored_names()),
        decreases parts.len() - i,
    {
        assert(rows(parts@)[i as int] == parts@[i as int]@);
        if is_one_of(&parts[i], &ignored) {
            return true;
        }
        i += 1;
    }
    false
}

/// The path is the root or lies under it, and goes through no ignored
/// directory on the way.
pub open spec fn walked(root: Seq<char>, path: Seq<char>) -> bool {
    below(root, path) is Some && !ignored_path(root, path)
}

/// Whether a walk from the root comes to the path: it lies under the root,
/// and no ignored directory is on the way.
pub fn is_walked(root: &str, path: &str) -> (r: bool)
    ensures
        r == walked(root@, path@),
{
    path_below(&to_chars(root), &to_chars(path)).is_some() && !is_ignored_path(root, path)
}

/// The file is a module of the project rooted at `root`.
pub open spec fn walked_source(root: Seq<char>, path: Seq<char>) -> bool {
    source_file(path) && walked(root, path)
}

/// The file is an asset of the project rooted at `root`.
pub open spec fn walked_asset(root: Seq<char>, path: Seq<char>) -> bool {
    asset_file(path) && walked(root, path)
}

/// The modules among the first `n` of `paths`, none twice.
pub open spec fn sources_to(root: Seq<char>, paths: Seq<Seq<char>>, n: int) -> Seq<Seq<char>>
    decreases n,
{
    if n <= 0 || n > paths.len() {
        Seq::empty()
    } else if walked_source(root, paths[n - 1]) {
        with_text(sources_to(root, paths, n - 1), paths[n - 1])
    } else {
        sources_to(root, paths, n - 1)
    }
}

/// The assets among the first `n` of `paths`, none twice.
pub open spec fn assets_to(root: Seq<char>, paths: Seq<Seq<char>>, n: int) -> Seq<Seq<char>>
    decreases n,
{
    if n <= 0 || n > paths.len() {
        Seq::empty()
    } else if walked_asset(root, paths[n - 1]) {
        with_text(assets_to(root, paths, n - 1), paths[n - 1])
    } else {
        assets_to(root, paths, n - 1)
    }
}

/// The modules of the project: the files under the root with a source
/// extension, declaration stubs and what lies under an ignored directory left
/// out.
pub fn collect_source_files(tree: &ProjectTree) -> (out: Vec<String>)
    ensures
        texts(out@) == sources_to(tree.root@, tree.paths(), tree.paths().len() as int),
{
    let mut out: Vec<String> = Vec::new();
    let mut i: usize = 0;
    assert(texts(out@) =~= sources_to(tree.root@, tree.paths(), 0));
    while i < tree.files.len()
        invariant
            i <= tree.files.len(),
            texts(out@) == sources_to(tree.root@, tree.paths(), i as int),
        decreases tree.files.len() - i,
    {
        let path = &tree.files[i].path;
        if has_source_extension(path.as_str()) && is_walked(tree.root.as_str(), path.as_str()) {
            push_unique(&mut out, path.clone());
        }
        i += 1;
    }
    out
}

/// The assets of the project: the files under the root with an asset
/// extension, what lies under an ignored directory left out.
pub fn collect_asset_files(tree: &ProjectTree) -> (out: Vec<String>)
    ensures
        texts(out@) == assets_to(tree.root@, tree.paths(), tree.paths().len() as int),
{
    let mut out: Vec<String> = Vec::new();
    let mut i: usize = 0;
    assert(texts(out@) =~= assets_to(tree.root@, tree.paths(), 0));
    while i < tree.files.len()
        invariant
            i <= tree.files.len(),
            texts(out@) == assets_to(tree.root@, tree.paths(), i as int),
        decreases tree.files.len() - i,
    {
        let path = &tree.files[i].path;
        if has_asset_extension(path.as_str()) && is_walked(tree.root.as_str(), path.as_str()) {
            push_unique(&mut out, path.clone());
        }
        i += 1;
    }
    out
}

/// Those of the first `n` places at which the tree holds nothing.
pub open spec fn absent_to(tree: &ProjectTree, places: Seq<Seq<char>>, n: int) -> Seq<Seq<char>>
    decreases n,
{
    if n <= 0 || n > places.len() {
        Seq::empty()
    } else if tree.existing().contains(places[n - 1]) {
        absent_to(tree, places, n - 1)
    } else {
        absent_to(tree, places, n - 1).push(places[n - 1])
    }
}

/// Adds to `out` those of `places` at which the tree holds nothing.
pub fn push_absent(tree: &ProjectTree, out: &mut Vec<String>, places: &Vec<String>)
    ensures
        texts(final(out)@) == texts(old(out)@) + absent_to(
            tree,
            texts(places@),
            places@.len() as int,
        ),
{
    let ghost base = texts(out@);
    let mut k: usize = 0;
    assert(texts(out@) =~= base + absent_to(tree, texts(places@), 0));
    while k < places.len()
        invariant
            k <= places.len(),
            texts(out@) == base + absent_to(tree, texts(places@), k as int),
        decreases places.len() - k,
    {
        assert(texts(places@)[k as int] == places@[k as int]@);
        let ghost before = texts(out@);
        if !tree.has_path(&places[k]) {
            out.push(places[k].clone());
            assert(texts(out@) =~= before.push(places@[k as int]@));
            assert(base + absent_to(tree, texts(places@), k + 1) =~= (base + absent_to(
                tree,
                texts(places@),
                k as int,
            )).push(places@[k as int]@));
        }
        k += 1;
    }
    assert(texts(places@).len() == places@.len());
}

} // verus!
