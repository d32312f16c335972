//! Paths as `/`-separated text: their parts, their canonical form, and the
//! classes of file the analyzer tells apart by name alone.
//!
//! The parts of a path are read off its text as it stands: the file name is
//! what follows the last `/`, so a path that ends in `/` has an empty file
//! name, and no extension. Paths in canonical form, as a project tree holds
//! them, end in the name of what they lead to.

use crate::text::{
    after_last_char, concat, contains, contains_str, ends, ends_with, equal, equal_str, from_chars,
    lemma_rfind_char_to, lowercase, occurs, pieces, rfind_char, rfind_char_to, rows, slashed, slice,
    split, starts, starts_with, take_after_last_char, texts, to_ascii_lowercase, to_chars,
    to_forward_slashes,
};
use vstd::prelude::*;

verus! {

/// Some entry of `names` has the text `s`.
pub open spec fn one_of(s: Seq<char>, names: Seq<&'static str>) -> bool {
    exists|i: int| 0 <= i < names.len() && (#[trigger] names[i])@ == s
}

pub fn is_one_of(v: &Vec<char>, names: &[&'static str]) -> (r: bool)
    ensures
        r == one_of(v@, names@),
{
    let mut i: usize = 0;
    while i < names.len()
        invariant
            i <= names.len(),
            forall|k: int| 0 <= k < i ==> (#[trigger] names@[k])@ != v@,
        decreases names.len() - i,
    {
        if equal_str(v, names[i]) {
            return true;
        }
        i += 1;
    }
    false
}

/// The first index at or after `i` where `list` holds `s`, or -1.
pub open spec fn position_from(list: Seq<Seq<char>>, s: Seq<char>, i: int) -> int
    decreases list.len() - i,
{
    if i < 0 || i >= list.len() {
        -1
    } else if list[i] == s {
        i
    } else {
        position_from(list, s, i + 1)
    }
}

/// The first index where `list` holds `s`, or -1.
pub open spec fn position(list: Seq<Seq<char>>, s: Seq<char>) -> int {
    position_from(list, s, 0)
}

pub proof fn lemma_position_from(list: Seq<Seq<char>>, s: Seq<char>, i: int)
    requires
        0 <= i,
    ensures
        position_from(list, s, i) == -1 || (i <= position_from(list, s, i) < list.len()
            && list[position_from(list, s, i)] == s),
        forall|k: int|
            i <= k < list.len() && (k < position_from(list, s, i) || position_from(list, s, i)
                == -1) ==> #[trigger] list[k] != s,
    decreases list.len() - i,
{
    if i < list.len() && list[i] != s {
        lemma_position_from(list, s, i + 1);
    }
}

/// `position` finds `s` exactly when `list` contains it.
pub proof fn lemma_position(list: Seq<Seq<char>>, s: Seq<char>)
    ensures
        position(list, s) >= 0 <==> list.contains(s),
        position(list, s) >= 0 ==> position(list, s) < list.len() && list[position(list, s)] == s,
        position(list, s) >= -1,
{
    lemma_position_from(list, s, 0);
    if list.contains(s) {
        let k = choose|k: int| 0 <= k < list.len() && list[k] == s;
        assert(list[k] == s);
    }
}

/// The first index at which a list holds a text.
pub fn find_text(list: &Vec<String>, s: &String) -> (r: Option<usize>)
    ensures
        match r {
            Some(i) => position(texts(list@), s@) == i && i < list.len() && list@[i as int]@ == s@,
            None => position(texts(list@), s@) == -1,
        },
{
    let mut i: usize = 0;
    while i < list.len()
        invariant
            i <= list.len(),
            position(texts(list@), s@) == position_from(texts(list@), s@, i as int),
        decreases list.len() - i,
    {
        if list[i] == *s {
            return Some(i);
        }
        i += 1;
    }
    None
}

/// Whether a list holds a text.
pub fn has_text(list: &Vec<String>, s: &String) -> (r: bool)
    ensures
        r == texts(list@).contains(s@),
{
    proof {
        lemma_position(texts(list@), s@);
    }
    find_text(list, s).is_some()
}

/// What follows the last `/`.
pub open spec fn file_name(p: Seq<char>) -> Seq<char> {
    after_last_char(p, '/')
}

/// A name that stands for a directory itself, and so has neither stem nor extension.
pub open spec fn is_dots(name: Seq<char>) -> bool {
    name.len() == 0 || name == seq!['.'] || name == seq!['.', '.']
}

/// Index of the dot that starts the extension of `name`, or -1.
pub open spec fn extension_dot(name: Seq<char>) -> int {
    let dot = rfind_char_to(name, '.', name.len() as int);
    if dot <= 0 || dot >= name.len() || is_dots(name) {
        -1
    } else {
        dot
    }
}

/// What follows the last dot of the file name, unless that dot starts the name.
pub open spec fn extension(p: Seq<char>) -> Option<Seq<char>> {
    let name = file_name(p);
    let dot = extension_dot(name);
    if dot < 0 {
        None
    } else {
        Some(name.skip(dot + 1))
    }
}

/// The file name without its extension.
pub open spec fn file_stem(p: Seq<char>) -> Seq<char> {
    let name = file_name(p);
    let dot = extension_dot(name);
    if dot < 0 {
        name
    } else {
        name.take(dot)
    }
}

/// `p` with its extension replaced by `ext`; unchanged where it has no file name.
pub open spec fn with_extension(p: Seq<char>, ext: Seq<char>) -> Seq<char> {
    let name = file_name(p);
    let dot = extension_dot(name);
    let base = if 0 <= dot <= name.len() <= p.len() {
        p.take(p.len() - (name.len() - dot))
    } else {
        p
    };
    if is_dots(name) {
        p
    } else if ext.len() == 0 {
        base
    } else {
        base + seq!['.'] + ext
    }
}

/// The directory that holds `p`.
pub open spec fn parent(p: Seq<char>) -> Option<Seq<char>> {
    let i = rfind_char_to(p, '/', p.len() as int);
    if p.len() == 0 || p == seq!['/'] {
        None
    } else if i < 0 || i >= p.len() {
        Some(Seq::empty())
    } else if i == 0 {
        Some(seq!['/'])
    } else {
        Some(p.take(i))
    }
}

/// `rel` seen from `base`: `rel` itself where it is absolute.
pub open spec fn join(base: Seq<char>, rel: Seq<char>) -> Seq<char> {
    if rel.len() > 0 && rel[0] == '/' {
        rel
    } else if base.len() == 0 {
        rel
    } else if base.last() == '/' {
        base + rel
    } else {
        base + seq!['/'] + rel
    }
}

fn is_dots_name(name: &Vec<char>) -> (r: bool)
    ensures
        r == is_dots(name@),
{
    if name.len() == 0 {
        true
    } else if name.len() == 1 {
        assert(name@ =~= seq![name@[0]]);
        name[0] == '.'
    } else if name.len() == 2 {
        assert(name@ =~= seq![name@[0], name@[1]]);
        name[0] == '.' && name[1] == '.'
    } else {
        false
    }
}

fn find_extension_dot(name: &Vec<char>) -> (r: Option<usize>)
    ensures
        match r {
            Some(d) => extension_dot(name@) == d && 0 < d < name.len(),
            None => extension_dot(name@) == -1,
        },
{
    if is_dots_name(name) {
        return None;
    }
    match rfind_char(name, '.') {
        Some(d) => if d == 0 {
            None
        } else {
            Some(d)
        },
        None => None,
    }
}

pub fn path_file_name(p: &Vec<char>) -> (out: Vec<char>)
    ensures
        out@ == file_name(p@),
        out@.len() <= p@.len(),
{
    proof {
        lemma_rfind_char_to(p@, '/', p@.len() as int);
    }
    take_after_last_char(p, '/')
}

pub fn path_extension(p: &Vec<char>) -> (r: Option<Vec<char>>)
    ensures
        match r {
            Some(e) => extension(p@) == Some(e@),
            None => extension(p@) is None,
        },
{
    let name = path_file_name(p);
    match find_extension_dot(&name) {
        Some(d) => {
            let e = slice(&name, d + 1, name.len());
            Some(e)
        },
        None => None,
    }
}

pub fn path_file_stem(p: &Vec<char>) -> (out: Vec<char>)
    ensures
        out@ == file_stem(p@),
{
    let name = path_file_name(p);
    match find_extension_dot(&name) {
        Some(d) => slice(&name, 0, d),
        None => name,
    }
}

pub fn path_with_extension(p: &Vec<char>, ext: &str) -> (out: Vec<char>)
    ensures
        out@ == with_extension(p@, ext@),
{
    let name = path_file_name(p);
    let copy = slice(p, 0, p.len());
    assert(copy@ =~= p@);
    if is_dots_name(&name) {
        return copy;
    }
    let base = match find_extension_dot(&name) {
        Some(d) => slice(p, 0, p.len() - (name.len() - d)),
        None => copy,
    };
    let e = to_chars(ext);
    if e.len() == 0 {
        base
    } else {
        let mut dotted = base;
        dotted.push('.');
        assert(dotted@ =~= base@ + seq!['.']);
        concat(&dotted, &e)
    }
}

pub fn path_parent(p: &Vec<char>) -> (r: Option<Vec<char>>)
    ensures
        match r {
            Some(d) => parent(p@) == Some(d@),
            None => parent(p@) is None,
        },
{
    if p.len() == 0 {
        return None;
    }
    if p.len() == 1 && p[0] == '/' {
        assert(p@ =~= seq!['/']);
        return None;
    }
    assert(p@ != seq!['/']) by {
        if p@ == seq!['/'] {
            assert(p@.len() == 1);
        }
    }
    match rfind_char(p, '/') {
        None => Some(Vec::new()),
        Some(i) => if i == 0 {
            let mut out: Vec<char> = Vec::new();
            out.push('/');
            assert(out@ =~= seq!['/']);
            Some(out)
        } else {
            Some(slice(p, 0, i))
        },
    }
}

pub fn path_join(base: &Vec<char>, rel: &Vec<char>) -> (out: Vec<char>)
    ensures
        out@ == join(base@, rel@),
{
    if rel.len() > 0 && rel[0] == '/' {
        let out = slice(rel, 0, rel.len());
        assert(out@ =~= rel@);
        out
    } else if base.len() == 0 {
        let out = slice(rel, 0, rel.len());
        assert(out@ =~= rel@);
        out
    } else if base[base.len() - 1] == '/' {
        concat(base, rel)
    } else {
        let mut head = slice(base, 0, base.len());
        assert(head@ =~= base@);
        head.push('/');
        assert(head@ =~= base@ + seq!['/']);
        concat(&head, rel)
    }
}

/// The directory stack after the first `n` of `parts`: empty parts and `.`
/// change nothing, `..` leaves the last directory entered.
pub open spec fn settle(parts: Seq<Seq<char>>, n: int) -> Seq<Seq<char>>
    decreases n,
{
    if n <= 0 || n > parts.len() {
        Seq::empty()
    } else {
        let before = settle(parts, n - 1);
        let part = parts[n - 1];
        if part.len() == 0 || part == seq!['.'] {
            before
        } else if part == seq!['.', '.'] {
            if before.len() > 0 {
                before.drop_last()
            } else {
                before
            }
        } else {
            before.push(part)
        }
    }
}

/// The names that a path goes through, with `.` and `..` resolved.
pub open spec fn components(p: Seq<char>) -> Seq<Seq<char>> {
    let parts = pieces(p, '/');
    settle(parts, parts.len() as int)
}

/// The first `n` of `parts`, with `/` between them.
pub open spec fn joined(parts: Seq<Seq<char>>, n: int) -> Seq<char>
    decreases n,
{
    if n <= 0 || n > parts.len() {
        Seq::empty()
    } else if n == 1 {
        parts[0]
    } else {
        joined(parts, n - 1) + seq!['/'] + parts[n - 1]
    }
}

/// The path with `.`, `..` and repeated separators resolved; absolute where `p` is.
pub open spec fn canonical(p: Seq<char>) -> Seq<char> {
    let c = components(p);
    let body = joined(c, c.len() as int);
    if p.len() > 0 && p[0] == '/' {
        seq!['/'] + body
    } else {
        body
    }
}

pub fn path_components(p: &Vec<char>) -> (out: Vec<Vec<char>>)
    ensures
        rows(out@) == components(p@),
{
    let parts = split(p, '/');
    let mut out: Vec<Vec<char>> = Vec::new();
    let mut i: usize = 0;
    assert(rows(out@) =~= settle(rows(parts@), 0));
    while i < parts.len()
        invariant
            i <= parts.len(),
            rows(parts@) == pieces(p@, '/'),
            rows(out@) == settle(rows(parts@), i as int),
        decreases parts.len() - i,
    {
        let part = &parts[i];
        assert(rows(parts@)[i as int] == part@);
        let ghost before = rows(out@);
        if part.len() == 0 || is_dots_name(part) {
            if part.len() == 2 {
                if out.len() > 0 {
                    out.pop();
                    assert(rows(out@) =~= before.drop_last());
                }
            }
        } else {
            out.push(slice(part, 0, part.len()));
            assert(part@.subrange(0, part@.len() as int) =~= part@);
            assert(rows(out@) =~= before.push(part@));
        }
        i += 1;
    }
    out
}

pub fn join_components(parts: &Vec<Vec<char>>) -> (out: Vec<char>)
    ensures
        out@ == joined(rows(parts@), parts@.len() as int),
{
    let mut out: Vec<char> = Vec::new();
    let mut i: usize = 0;
    while i < parts.len()
        invariant
            i <= parts.len(),
            out@ == joined(rows(parts@), i as int),
        decreases parts.len() - i,
    {
        assert(rows(parts@)[i as int] == parts@[i as int]@);
        if i == 0 {
            out = slice(&parts[0], 0, parts[0].len());
            assert(out@ =~= parts@[0]@);
        } else {
            out.push('/');
            assert(out@ =~= joined(rows(parts@), i as int) + seq!['/']);
            out = concat(&out, &parts[i]);
        }
        i += 1;
    }
    out
}

/// A path with `.`, `..` and repeated separators resolved.
pub fn canonicalize(p: &Vec<char>) -> (out: Vec<char>)
    ensures
        out@ == canonical(p@),
{
    let parts = path_components(p);
    let body = join_components(&parts);
    if p.len() > 0 && p[0] == '/' {
        let mut head: Vec<char> = Vec::new();
        head.push('/');
        assert(head@ =~= seq!['/']);
        concat(&head, &body)
    } else {
        body
    }
}

/// The path as `.`, `..` and separators leave it: the names it goes through.
pub fn normalize_path_components(path: &str) -> (out: Vec<String>)
    ensures
        texts(out@) == components(path@),
{
    let p = to_chars(path);
    let parts = path_components(&p);
    let mut out: Vec<String> = Vec::new();
    let mut i: usize = 0;
    while i < parts.len()
        invariant
            i <= parts.len(),
            texts(out@) == rows(parts@).take(i as int),
        decreases parts.len() - i,
    {
        let ghost before = texts(out@);
        out.push(from_chars(&parts[i]));
        assert(texts(out@) =~= before.push(parts@[i as int]@));
        assert(rows(parts@).take(i + 1) =~= rows(parts@).take(i as int).push(parts@[i as int]@));
        i += 1;
    }
    assert(rows(parts@).take(parts@.len() as int) =~= rows(parts@));
    out
}

/// `path` as seen from `root`: what follows `root` and a separator, or `path`
/// itself where it does not lie under `root`.
pub open spec fn relative(root: Seq<char>, path: Seq<char>) -> Seq<char> {
    if path == root {
        Seq::empty()
    } else if root.len() > 0 && root.last() == '/' && starts(path, root) {
        path.skip(root.len() as int)
    } else if root.len() > 0 && starts(path, root + seq!['/']) {
        path.skip(root.len() as int + 1)
    } else {
        path
    }
}

pub fn relative_chars(root: &Vec<char>, path: &Vec<char>) -> (out: Vec<char>)
    ensures
        out@ == relative(root@, path@),
{
    if equal(path, root) {
        return Vec::new();
    }
    if root.len() > 0 && root[root.len() - 1] == '/' && occurs(path, root, 0) {
        return slice(path, root.len(), path.len());
    }
    if root.len() > 0 {
        let mut prefix = slice(root, 0, root.len());
        assert(prefix@ =~= root@);
        prefix.push('/');
        assert(prefix@ =~= root@ + seq!['/']);
        if occurs(path, &prefix, 0) {
            return slice(path, prefix.len(), path.len());
        }
    }
    let out = slice(path, 0, path.len());
    assert(out@ =~= path@);
    out
}

/// The path that reports show for `path` in a project rooted at `root`.
pub fn relative_display(root: &str, path: &str) -> (out: String)
    ensures
        out@ == relative(root@, path@),
{
    let r = to_chars(root);
    let p = to_chars(path);
    from_chars(&relative_chars(&r, &p))
}

/// Extensions of the files that are analyzed as modules.
pub open spec fn source_extensions() -> Seq<&'static str> {
    seq!["js", "jsx", "ts", "tsx", "mjs", "cjs"]
}

/// Extensions of the files that are tracked as assets.
pub open spec fn asset_extensions() -> Seq<&'static str> {
    seq![
        "png",
        "jpg",
        "jpeg",
        "gif",
        "webp",
        "avif",
        "svg",
        "ico",
        "bmp",
        "tiff",
        "mp4",
        "webm",
        "mp3",
        "wav",
        "ogg",
        "woff",
        "woff2",
        "ttf",
        "otf",
        "eot",
        "pdf",
        "txt",
        "css",
        "scss",
        "sass",
        "less",
    ]
}

/// Extensions that an import may name without the target being a module.
pub open spec fn local_extensions() -> Seq<&'static str> {
    seq![
        "js",
        "jsx",
        "ts",
        "tsx",
        "mjs",
        "cjs",
        "json",
        "css",
        "scss",
        "sass",
        "less",
        "png",
        "jpg",
        "jpeg",
        "gif",
        "webp",
        "avif",
        "svg",
        "ico",
        "bmp",
        "tiff",
        "mp4",
        "webm",
        "mp3",
        "wav",
        "ogg",
        "woff",
        "woff2",
        "ttf",
        "otf",
        "eot",
        "pdf",
        "txt",
    ]
}

pub fn source_extension_list() -> (out: [&'static str; 6])
    ensures
        out@ == source_extensions(),
{
    let out = ["js", "jsx", "ts", "tsx", "mjs", "cjs"];
    assert(out@ =~= source_extensions());
    out
}

pub fn asset_extension_list() -> (out: [&'static str; 26])
    ensures
        out@ == asset_extensions(),
{
    let out = [
        "png",
        "jpg",
        "jpeg",
        "gif",
        "webp",
        "avif",
        "svg",
        "ico",
        "bmp",
        "tiff",
        "mp4",
        "webm",
        "mp3",
        "wav",
        "ogg",
        "woff",
        "woff2",
        "ttf",
        "otf",
        "eot",
        "pdf",
        "txt",
        "css",
        "scss",
        "sass",
        "less",
    ];
    assert(out@ =~= asset_extensions());
    out
}

pub fn local_extension_list() -> (out: [&'static str; 33])
    ensures
        out@ == local_extensions(),
{
    let out = [
        "js",
        "jsx",
        "ts",
        "tsx",
        "mjs",
        "cjs",
        "json",
        "css",
        "scss",
        "sass",
        "less",
        "png",
        "jpg",
        "jpeg",
        "gif",
        "webp",
        "avif",
        "svg",
        "ico",
        "bmp",
        "tiff",
        "mp4",
        "webm",
        "mp3",
        "wav",
        "ogg",
        "woff",
        "woff2",
        "ttf",
        "otf",
        "eot",
        "pdf",
        "txt",
    ];
    assert(out@ =~= local_extensions());
    out
}

/// A TypeScript declaration stub: the file name ends in `.d.ts`.
pub open spec fn declaration_file(p: Seq<char>) -> bool {
    ends(file_name(p), ".d.ts"@)
}

/// Whether a path names a declaration stub.
pub fn is_declaration_file(path: &str) -> (r: bool)
    ensures
        r == declaration_file(path@),
{
    let p = to_chars(path);
    let name = path_file_name(&p);
    ends_with(&name, ".d.ts")
}

/// A module of the project: a source extension, and no declaration stub.
pub open spec fn source_file(p: Seq<char>) -> bool {
    !declaration_file(p) && match extension(p) {
        Some(e) => one_of(e, source_extensions()),
        None => false,
    }
}

/// Whether a path names a module of a project.
pub fn has_source_extension(path: &str) -> (r: bool)
    ensures
        r == source_file(path@),
{
    if is_declaration_file(path) {
        return false;
    }
    let p = to_chars(path);
    match path_extension(&p) {
        Some(e) => {
            let list = source_extension_list();
            is_one_of(&e, &list)
        },
        None => false,
    }
}

/// An asset of the project: the extension is one of the asset extensions.
pub open spec fn asset_file(p: Seq<char>) -> bool {
    match extension(p) {
        Some(e) => one_of(e, asset_extensions()),
        None => false,
    }
}

/// Whether a path names an asset.
pub fn has_asset_extension(path: &str) -> (r: bool)
    ensures
        r == asset_file(path@),
{
    let p = to_chars(path);
    match path_extension(&p) {
        Some(e) => {
            let list = asset_extension_list();
            is_one_of(&e, &list)
        },
        None => false,
    }
}

/// The asset lies under a directory named `public`, or is so named itself.
pub open spec fn public_asset(p: Seq<char>) -> bool {
    pieces(p, '/').contains("public"@)
}

/// Whether a path goes through a directory named `public`.
pub fn is_public_asset(path: &str) -> (r: bool)
    ensures
        r == public_asset(path@),
{
    let p = to_chars(path);
    let parts = split(&p, '/');
    let mut i: usize = 0;
    while i < parts.len()
        invariant
            i <= parts.len(),
            p@ == path@,
            rows(parts@) == pieces(p@, '/'),
            forall|k: int| 0 <= k < i ==> #[trigger] rows(parts@)[k] != "public"@,
        decreases parts.len() - i,
    {
        assert(rows(parts@)[i as int] == parts@[i as int]@);
        if equal_str(&parts[i], "public") {
            assert(rows(parts@).len() == parts@.len());
            assert(pieces(p@, '/')[i as int] == "public"@);
            return true;
        }
        i += 1;
    }
    false
}

/// A test by its name or place: `.test.` or `.spec.` in the file name, or a
/// directory named `__tests__` on the way, with either kind of slash.
pub open spec fn test_like(p: Seq<char>) -> bool {
    ||| contains(file_name(p), ".test."@)
    ||| contains(file_name(p), ".spec."@)
    ||| pieces(slashed(p), '/').contains("__tests__"@)
}

/// Whether a path names a test.
#[verifier::loop_isolation(false)]
pub fn is_test_like_file(path: &str) -> (r: bool)
    ensures
        r == test_like(path@),
{
    let p = to_chars(path);
    let name = path_file_name(&p);
    if contains_str(&name, ".test.") || contains_str(&name, ".spec.") {
        return true;
    }
    let parts = split(&to_forward_slashes(&p), '/');
    assert(rows(parts@).len() == parts@.len());
    let mut i: usize = 0;
    while i < parts.len()
        invariant
            i <= parts.len(),
            forall|k: int| 0 <= k < i ==> #[trigger] rows(parts@)[k] != "__tests__"@,
        decreases parts.len() - i,
    {
        assert(rows(parts@)[i as int] == parts@[i as int]@);
        if equal_str(&parts[i], "__tests__") {
            return true;
        }
        i += 1;
    }
    false
}

/// Extensions that a tool's `.config.` file may end in.
pub open spec fn config_endings() -> Seq<&'static str> {
    seq![".js", ".cjs", ".mjs", ".ts", ".cts", ".mts", ".json"]
}

/// Configuration files of well-known tools.
pub open spec fn known_config_names() -> Seq<&'static str> {
    seq![
        "eslint.config.js",
        "eslint.config.cjs",
        "eslint.config.mjs",
        "eslint.config.ts",
        "eslint.config.mts",
        "eslint.config.cts",
        "vite.config.js",
        "vite.config.cjs",
        "vite.config.mjs",
        "vite.config.ts",
        "vite.config.mts",
        "vite.config.cts",
        "vitest.config.js",
        "vitest.config.cjs",
        "vitest.config.mjs",
        "vitest.config.ts",
        "vitest.config.mts",
        "vitest.config.cts",
        "jest.config.js",
        "jest.config.cjs",
        "jest.config.mjs",
        "jest.config.ts",
        "jest.config.mts",
        "jest.config.cts",
        "webpack.config.js",
        "webpack.config.cjs",
        "webpack.config.mjs",
        "webpack.config.ts",
        "rollup.config.js",
        "rollup.config.cjs",
        "rollup.config.mjs",
        "rollup.config.ts",
        "postcss.config.js",
        "postcss.config.cjs",
        "tailwind.config.js",
        "tailwind.config.cjs",
        "tailwind.config.ts",
        "babel.config.js",
        "babel.config.cjs",
        "commitlint.config.js",
        "commitlint.config.cjs",
        "lint-staged.config.js",
        "lint-staged.config.cjs",
    ]
}

/// Some entry of `endings` ends the text `s`.
pub open spec fn ends_with_one_of(s: Seq<char>, endings: Seq<&'static str>) -> bool {
    exists|i: int| 0 <= i < endings.len() && ends(s, (#[trigger] endings[i])@)
}

fn ends_with_any(v: &Vec<char>, endings: &[&'static str]) -> (r: bool)
    ensures
        r == ends_with_one_of(v@, endings@),
{
    let mut i: usize = 0;
    while i < endings.len()
        invariant
            i <= endings.len(),
            forall|k: int| 0 <= k < i ==> !ends(v@, (#[trigger] endings@[k])@),
        decreases endings.len() - i,
    {
        if ends_with(v, endings[i]) {
            return true;
        }
        i += 1;
    }
    false
}

/// A configuration file by its name: `config` in it in any case, a dot file
/// of a linter or formatter, a tool's `.config.` file, or a well-known name.
pub open spec fn common_config(p: Seq<char>) -> bool {
    let name = file_name(p);
    ||| contains(lowercase(name), "config"@)
    ||| starts(name, ".eslintrc"@)
    ||| starts(name, ".prettierrc"@)
    ||| starts(name, ".stylelintrc"@)
    ||| starts(name, ".babelrc"@)
    ||| (contains(name, ".config."@) && ends_with_one_of(name, config_endings()))
    ||| one_of(name, known_config_names())
}

/// Whether a path names a configuration file of some tool.
pub fn is_common_config_file(path: &str) -> (r: bool)
    ensures
        r == common_config(path@),
{
    let p = to_chars(path);
    let name = path_file_name(&p);
    let lower = to_ascii_lowercase(&name);
    if contains_str(&lower, "config") {
        return true;
    }
    if starts_with(&name, ".eslintrc") || starts_with(&name, ".prettierrc") || starts_with(
        &name,
        ".stylelintrc",
    ) || starts_with(&name, ".babelrc") {
        return true;
    }
    let endings = [".js", ".cjs", ".mjs", ".ts", ".cts", ".mts", ".json"];
    assert(endings@ =~= config_endings());
    if contains_str(&name, ".config.") && ends_with_any(&name, &endings) {
        return true;
    }
    let known = [
        "eslint.config.js",
        "eslint.config.cjs",
        "eslint.config.mjs",
        "eslint.config.ts",
        "eslint.config.mts",
        "eslint.config.cts",
        "vite.config.js",
        "vite.config.cjs",
        "vite.config.mjs",
        "vite.config.ts",
        "vite.config.mts",
        "vite.config.cts",
        "vitest.config.js",
        "vitest.config.cjs",
        "vitest.config.mjs",
        "vitest.config.ts",
        "vitest.config.mts",
        "vitest.config.cts",
        "jest.config.js",
        "jest.config.cjs",
        "jest.config.mjs",
        "jest.config.ts",
        "jest.config.mts",
        "jest.config.cts",
        "webpack.config.js",
        "webpack.config.cjs",
        "webpack.config.mjs",
        "webpack.config.ts",
        "rollup.config.js",
        "rollup.config.cjs",
        "rollup.config.mjs",
        "rollup.config.ts",
        "postcss.config.js",
        "postcss.config.cjs",
        "tailwind.config.js",
        "tailwind.config.cjs",
        "tailwind.config.ts",
        "babel.config.js",
        "babel.config.cjs",
        "commitlint.config.js",
        "commitlint.config.cjs",
        "lint-staged.config.js",
        "lint-staged.config.cjs",
    ];
    assert(known@ =~= known_config_names());
    is_one_of(&name, &known)
}

/// Directories that are never walked.
pub open spec fn ignored_names() -> Seq<&'static str> {
    seq![
        "node_modules",
        ".git",
        ".haadi_trash",
        "dist",
        "build",
        "coverage",
        "target",
        ".next",
        "out",
    ]
}

/// A directory that is never walked, by its own name.
pub open spec fn ignored_dir(p: Seq<char>) -> bool {
    one_of(file_name(p), ignored_names())
}

/// Whether a path names a directory that is never walked.
pub fn is_ignored_dir(path: &str) -> (r: bool)
    ensures
        r == ignored_dir(path@),
{
    let p = to_chars(path);
    let name = path_file_name(&p);
    let ignored = [
        "node_modules",
        ".git",
        ".haadi_trash",
        "dist",
        "build",
        "coverage",
        "target",
        ".next",
        "out",
    ];
    assert(ignored@ =~= ignored_names());
    is_one_of(&name, &ignored)
}

/// `path_like` without the extension of its last name: what precedes the
/// last dot after the last `/`, or all of it where no dot follows.
pub open spec fn stripped_extension(s: Seq<char>) -> Seq<char> {
    let name = after_last_char(s, '/');
    let dot = rfind_char_to(name, '.', name.len() as int);
    if 0 <= dot < name.len() <= s.len() {
        s.take(s.len() - (name.len() - dot))
    } else {
        s
    }
}

pub fn strip_extension_chars(v: &Vec<char>) -> (out: Vec<char>)
    ensures
        out@ == stripped_extension(v@),
{
    let name = path_file_name(v);
    match rfind_char(&name, '.') {
        Some(dot) => slice(v, 0, v.len() - (name.len() - dot)),
        None => {
            proof {
                lemma_rfind_char_to(name@, '.', name@.len() as int);
            }
            let out = slice(v, 0, v.len());
            assert(out@ =~= v@);
            out
        },
    }
}

/// A path without the extension of its last name.
pub fn strip_file_extension(path_like: &str) -> (out: String)
    ensures
        out@ == stripped_extension(path_like@),
{
    let v = to_chars(path_like);
    from_chars(&strip_extension_chars(&v))
}

/// What follows `root` and a separator in `path`, where `path` lies under
/// `root` or is `root` itself.
pub open spec fn below(root: Seq<char>, path: Seq<char>) -> Option<Seq<char>> {
    if path == root {
        Some(Seq::empty())
    } else if root.len() > 0 && root.last() == '/' && starts(path, root) {
        Some(path.skip(root.len() as int))
    } else if root.len() > 0 && starts(path, root + seq!['/']) {
        Some(path.skip(root.len() as int + 1))
    } else {
        None
    }
}

/// What follows the root in a path that lies under it.
pub fn path_below(root: &Vec<char>, path: &Vec<char>) -> (r: Option<Vec<char>>)
    ensures
        match r {
            Some(rel) => below(root@, path@) == Some(rel@),
            None => below(root@, path@) is None,
        },
{
    if equal(path, root) {
        return Some(Vec::new());
    }
    if root.len() > 0 && root[root.len() - 1] == '/' && occurs(path, root, 0) {
        return Some(slice(path, root.len(), path.len()));
    }
    if root.len() > 0 {
        let mut prefix = slice(root, 0, root.len());
        assert(prefix@ =~= root@);
        prefix.push('/');
        assert(prefix@ =~= root@ + seq!['/']);
        if occurs(path, &prefix, 0) {
            return Some(slice(path, prefix.len(), path.len()));
        }
    }
    None
}

} // verus!
