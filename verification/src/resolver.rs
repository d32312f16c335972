//! From a specifier to the file it names: relative and rooted paths, path
//! aliases, base directories, and the candidates tried for each.

use crate::paths::{
    canonical, canonicalize, extension, find_text, join, lemma_position, local_extension_list,
    local_extensions, parent, path_extension, path_join, path_parent, path_with_extension, position,
    source_extension_list, source_extensions, with_extension,
};
use crate::specifier::{
    alias_capture, alias_target, apply_alias_chars, is_relative_chars, looks_like_package_chars,
    match_alias_chars, normalize_chars, normalized, package_like, relative_specifier,
    rooted_specifier,
};
use crate::text::{concat, from_chars, slice, texts, to_chars};
use vstd::prelude::*;

verus! {

/// A path mapping of the project's configuration: specifiers that `key`
/// matches are looked for at `target`, seen from `base_dir`.
pub struct AliasRule {
    pub key: String,
    pub target: String,
    pub base_dir: String,
}

/// An `AliasRule` as plain values.
pub struct AliasView {
    pub key: Seq<char>,
    pub target: Seq<char>,
    pub base_dir: Seq<char>,
}

impl View for AliasRule {
    type V = AliasView;

    open spec fn view(&self) -> AliasView {
        AliasView { key: self.key@, target: self.target@, base_dir: self.base_dir@ }
    }
}

/// The views of a list of alias rules.
pub open spec fn alias_views(v: Seq<AliasRule>) -> Seq<AliasView> {
    Seq::new(v.len(), |i: int| v[i]@)
}

/// What is needed to resolve specifiers: the known source files, the project
/// root, the base directories and the alias rules, both in the order in which
/// they are tried.
pub struct Resolver {
    pub files: Vec<String>,
    pub root: String,
    pub base_dirs: Vec<String>,
    pub alias_rules: Vec<AliasRule>,
}

/// A `Resolver` as plain values.
pub struct ResolverView {
    pub files: Seq<Seq<char>>,
    pub root: Seq<char>,
    pub base_dirs: Seq<Seq<char>>,
    pub alias_rules: Seq<AliasView>,
}

impl View for Resolver {
    type V = ResolverView;

    open spec fn view(&self) -> ResolverView {
        ResolverView {
            files: texts(self.files@),
            root: self.root@,
            base_dirs: texts(self.base_dirs@),
            alias_rules: alias_views(self.alias_rules@),
        }
    }
}

/// The paths tried for `p`, in order: `p` alone where it has an extension;
/// else `p`, then `p` with each extension, then `index` with each extension
/// inside `p`.
pub open spec fn expansion(p: Seq<char>, exts: Seq<&'static str>) -> Seq<Seq<char>> {
    if extension(p) is Some {
        seq![p]
    } else {
        seq![p] + Seq::new(exts.len(), |i: int| with_extension(p, exts[i]@)) + Seq::new(
            exts.len(),
            |i: int| join(p, "index."@ + exts[i]@),
        )
    }
}

/// Where `known` holds the first of `cands`, from index `i` on, that it holds at all.
pub open spec fn first_known(cands: Seq<Seq<char>>, known: Seq<Seq<char>>, i: int) -> Option<int>
    decreases cands.len() - i,
{
    if i < 0 || i >= cands.len() {
        None
    } else if position(known, cands[i]) >= 0 {
        Some(position(known, cands[i]))
    } else {
        first_known(cands, known, i + 1)
    }
}

/// Where `known` holds what `raw` names: the first candidate of its canonical
/// form that `known` holds.
pub open spec fn candidate(raw: Seq<char>, exts: Seq<&'static str>, known: Seq<Seq<char>>) -> Option<
    int,
> {
    first_known(expansion(canonical(raw), exts), known, 0)
}

/// The source file that `raw` names, as an index into `files`.
pub open spec fn candidate_file(raw: Seq<char>, files: Seq<Seq<char>>) -> Option<int> {
    candidate(raw, source_extensions(), files)
}

pub proof fn lemma_first_known(cands: Seq<Seq<char>>, known: Seq<Seq<char>>, i: int)
    requires
        0 <= i,
    ensures
        match first_known(cands, known, i) {
            Some(at) => 0 <= at < known.len() && exists|k: int|
                i <= k < cands.len() && #[trigger] cands[k] == known[at],
            None => forall|k: int| i <= k < cands.len() ==> !known.contains(#[trigger] cands[k]),
        },
    decreases cands.len() - i,
{
    if i < cands.len() {
        lemma_position(known, cands[i]);
        if position(known, cands[i]) < 0 {
            lemma_first_known(cands, known, i + 1);
            match first_known(cands, known, i + 1) {
                Some(at) => {
                    let k = choose|k: int| i + 1 <= k < cands.len() && #[trigger] cands[k] == known[at];
                    assert(cands[k] == known[at]);
                },
                None => {},
            }
        } else {
            assert(cands[i] == known[position(known, cands[i])]);
        }
    }
}

fn expand(p: &Vec<char>, exts: &[&'static str]) -> (out: Vec<String>)
    ensures
        texts(out@) == expansion(p@, exts@),
{
    let mut out: Vec<String> = Vec::new();
    out.push(from_chars(p));
    assert(texts(out@) =~= seq![p@]);
    if path_extension(p).is_some() {
        return out;
    }
    let ghost first = Seq::new(exts@.len(), |i: int| with_extension(p@, exts@[i]@));
    let ghost second = Seq::new(exts@.len(), |i: int| join(p@, "index."@ + exts@[i]@));
    let mut i: usize = 0;
    assert(texts(out@) =~= seq![p@] + first.take(0));
    while i < exts.len()
        invariant
            i <= exts.len(),
            first == Seq::new(exts@.len(), |i: int| with_extension(p@, exts@[i]@)),
            texts(out@) == seq![p@] + first.take(i as int),
        decreases exts.len() - i,
    {
        let ghost before = texts(out@);
        let c = path_with_extension(p, exts[i]);
        out.push(from_chars(&c));
        assert(texts(out@) =~= before.push(c@));
        assert(seq![p@] + first.take(i + 1) =~= (seq![p@] + first.take(i as int)).push(
            first[i as int],
        ));
        i += 1;
    }
    assert(first.take(exts@.len() as int) =~= first);
    let mut j: usize = 0;
    assert(texts(out@) =~= seq![p@] + first + second.take(0));
    while j < exts.len()
        invariant
            j <= exts.len(),
            second == Seq::new(exts@.len(), |i: int| join(p@, "index."@ + exts@[i]@)),
            texts(out@) == seq![p@] + first + second.take(j as int),
        decreases exts.len() - j,
    {
        let ghost before = texts(out@);
        let name = concat(&to_chars("index."), &to_chars(exts[j]));
        let c = path_join(p, &name);
        out.push(from_chars(&c));
        assert(texts(out@) =~= before.push(c@));
        assert(seq![p@] + first + second.take(j + 1) =~= (seq![p@] + first + second.take(
            j as int,
        )).push(second[j as int]));
        j += 1;
    }
    assert(second.take(exts@.len() as int) =~= second);
    out
}

/// The first candidate of a path, over the given extensions, that is known.
#[verifier::loop_isolation(false)]
pub fn find_candidate(raw: &Vec<char>, exts: &[&'static str], known: &Vec<String>) -> (r: Option<usize>)
    ensures
        match r {
            Some(i) => candidate(raw@, exts@, texts(known@)) == Some(i as int) && i < known.len(),
            None => candidate(raw@, exts@, texts(known@)) is None,
        },
{
    let p = canonicalize(raw);
    let cands = expand(&p, exts);
    let mut i: usize = 0;
    while i < cands.len()
        invariant
            i <= cands.len(),
            first_known(texts(cands@), texts(known@), 0) == first_known(
                texts(cands@),
                texts(known@),
                i as int,
            ),
        decreases cands.len() - i,
    {
        assert(texts(cands@)[i as int] == cands@[i as int]@);
        match find_text(known, &cands[i]) {
            Some(at) => {
                return Some(at);
            },
            None => {},
        }
        i += 1;
    }
    None
}

/// The known source file that a path names, tried as it stands, with each
/// source extension, and as a directory with an index module.
pub fn resolve_candidate_path(raw_candidate: &str, files: &Vec<String>) -> (r: Option<usize>)
    ensures
        match r {
            Some(i) => candidate_file(raw_candidate@, texts(files@)) == Some(i as int) && i
                < files.len(),
            None => candidate_file(raw_candidate@, texts(files@)) is None,
        },
{
    let raw = to_chars(raw_candidate);
    let exts = source_extension_list();
    find_candidate(&raw, &exts, files)
}

/// Some candidate of `raw`, over the wider list of extensions, is among the
/// paths that exist.
pub open spec fn target_exists(raw: Seq<char>, existing: Seq<Seq<char>>) -> bool {
    candidate(raw, local_extensions(), existing) is Some
}

/// Whether a path names anything that exists: a file of any kind that an
/// import may name, or a directory.
pub fn local_target_exists(raw_candidate: &str, existing: &Vec<String>) -> (r: bool)
    ensures
        r == target_exists(raw_candidate@, texts(existing@)),
{
    let raw = to_chars(raw_candidate);
    let exts = local_extension_list();
    find_candidate(&raw, &exts, existing).is_some()
}

/// What rule `rule` makes of the specifier `s`: where its key matches, what
/// its target names, seen from its base directory.
pub open spec fn alias_path(rule: AliasView, s: Seq<char>) -> Option<Seq<char>> {
    match alias_capture(rule.key, s) {
        Some(mid) => Some(join(rule.base_dir, alias_target(rule.target, mid))),
        None => None,
    }
}

/// What the first rule from index `i` on finds that matches `s` and leads to
/// something known.
pub open spec fn alias_find(
    rules: Seq<AliasView>,
    s: Seq<char>,
    exts: Seq<&'static str>,
    known: Seq<Seq<char>>,
    i: int,
) -> Option<int>
    decreases rules.len() - i,
{
    if i < 0 || i >= rules.len() {
        None
    } else {
        let here = match alias_path(rules[i], s) {
            Some(p) => candidate(p, exts, known),
            None => None,
        };
        if here is Some {
            here
        } else {
            alias_find(rules, s, exts, known, i + 1)
        }
    }
}

/// What the first base directory from index `i` on finds under which `s`
/// leads to something known.
pub open spec fn base_find(
    bases: Seq<Seq<char>>,
    s: Seq<char>,
    exts: Seq<&'static str>,
    known: Seq<Seq<char>>,
    i: int,
) -> Option<int>
    decreases bases.len() - i,
{
    if i < 0 || i >= bases.len() {
        None
    } else {
        let here = candidate(join(bases[i], s), exts, known);
        if here is Some {
            here
        } else {
            base_find(bases, s, exts, known, i + 1)
        }
    }
}

/// Some rule's key matches `s`.
pub open spec fn alias_matches(rules: Seq<AliasView>, s: Seq<char>) -> bool {
    exists|i: int| 0 <= i < rules.len() && alias_capture((#[trigger] rules[i]).key, s) is Some
}

/// Every place that the first `n` rules make of `s`, with the candidates of
/// each.
pub open spec fn alias_places(rules: Seq<AliasView>, s: Seq<char>, exts: Seq<&'static str>, n: int) -> Seq<
    Seq<char>,
>
    decreases n,
{
    if n <= 0 || n > rules.len() {
        Seq::empty()
    } else {
        match alias_path(rules[n - 1], s) {
            Some(p) => alias_places(rules, s, exts, n - 1) + expansion(canonical(p), exts),
            None => alias_places(rules, s, exts, n - 1),
        }
    }
}

/// Every place to which `s` leads under the first `n` base directories, with
/// the candidates of each.
pub open spec fn base_places(bases: Seq<Seq<char>>, s: Seq<char>, exts: Seq<&'static str>, n: int) -> Seq<
    Seq<char>,
>
    decreases n,
{
    if n <= 0 || n > bases.len() {
        Seq::empty()
    } else {
        base_places(bases, s, exts, n - 1) + expansion(canonical(join(bases[n - 1], s)), exts)
    }
}

impl ResolverView {
    /// Where `known` holds what `specifier` names when `from` imports it.
    ///
    /// The specifier is normalized first; an empty one names nothing. A
    /// relative one is seen from the directory of `from`, a rooted one from the
    /// project root. Any other is tried against the alias rules in order, and,
    /// unless it looks like a package, under the base directories in order.
    pub open spec fn located(
        &self,
        from: Seq<char>,
        specifier: Seq<char>,
        exts: Seq<&'static str>,
        known: Seq<Seq<char>>,
    ) -> Option<int> {
        let s = normalized(specifier);
        if s.len() == 0 {
            None
        } else if relative_specifier(s) {
            match parent(from) {
                Some(dir) => candidate(join(dir, s), exts, known),
                None => None,
            }
        } else if rooted_specifier(s) {
            candidate(join(self.root, s.skip(1)), exts, known)
        } else {
            match alias_find(self.alias_rules, s, exts, known, 0) {
                Some(at) => Some(at),
                None => {
                    if package_like(s) {
                        None
                    } else {
                        base_find(self.base_dirs, s, exts, known, 0)
                    }
                },
            }
        }
    }

    /// The known source file that `specifier` names when `from` imports it, as
    /// an index into `files`.
    pub open spec fn resolved(&self, from: Seq<char>, specifier: Seq<char>) -> Option<int> {
        self.located(from, specifier, source_extensions(), self.files)
    }

    /// The specifier is meant to name something of the project: it is relative
    /// or rooted, an alias key matches it, or it does not look like a package.
    pub open spec fn likely_local(&self, specifier: Seq<char>) -> bool {
        let s = normalized(specifier);
        s.len() > 0 && (relative_specifier(s) || rooted_specifier(s) || alias_matches(
            self.alias_rules,
            s,
        ) || !package_like(s))
    }

    /// Every path at which `located` looks for what `specifier` names when
    /// `from` imports it, in the order in which it looks.
    pub open spec fn places(&self, from: Seq<char>, specifier: Seq<char>, exts: Seq<&'static str>) -> Seq<
        Seq<char>,
    > {
        let s = normalized(specifier);
        if s.len() == 0 {
            Seq::empty()
        } else if relative_specifier(s) {
            match parent(from) {
                Some(dir) => expansion(canonical(join(dir, s)), exts),
                None => Seq::empty(),
            }
        } else if rooted_specifier(s) {
            expansion(canonical(join(self.root, s.skip(1))), exts)
        } else {
            alias_places(self.alias_rules, s, exts, self.alias_rules.len() as int) + (if package_like(
                s,
            ) {
                Seq::empty()
            } else {
                base_places(self.base_dirs, s, exts, self.base_dirs.len() as int)
            })
        }
    }

    /// Every path that may be what `specifier` names when `from` imports it,
    /// whether or not it is a known source file.
    pub open spec fn local_places(&self, from: Seq<char>, specifier: Seq<char>) -> Seq<Seq<char>> {
        self.places(from, specifier, local_extensions())
    }

    /// What `specifier` names exists, whether or not it is a known source file.
    pub open spec fn exists_locally(
        &self,
        from: Seq<char>,
        specifier: Seq<char>,
        existing: Seq<Seq<char>>,
    ) -> bool {
        self.located(from, specifier, local_extensions(), existing) is Some
    }
}

/// `known` holds one of `places`.
pub open spec fn some_known(places: Seq<Seq<char>>, known: Seq<Seq<char>>) -> bool {
    exists|k: int| 0 <= k < places.len() && known.contains(#[trigger] places[k])
}

/// Rule `j` matches `s` and leads to something known.
pub open spec fn alias_hit(
    rules: Seq<AliasView>,
    s: Seq<char>,
    exts: Seq<&'static str>,
    known: Seq<Seq<char>>,
    j: int,
) -> bool {
    match alias_path(rules[j], s) {
        Some(p) => candidate(p, exts, known) is Some,
        None => false,
    }
}

/// Under base directory `j`, `s` leads to something known.
pub open spec fn base_hit(
    bases: Seq<Seq<char>>,
    s: Seq<char>,
    exts: Seq<&'static str>,
    known: Seq<Seq<char>>,
    j: int,
) -> bool {
    candidate(join(bases[j], s), exts, known) is Some
}

proof fn lemma_some_known_of_both(a: Seq<Seq<char>>, b: Seq<Seq<char>>, known: Seq<Seq<char>>)
    ensures
        some_known(a + b, known) <==> some_known(a, known) || some_known(b, known),
{
    if some_known(a + b, known) {
        let k = choose|k: int| 0 <= k < (a + b).len() && known.contains(#[trigger] (a + b)[k]);
        if k < a.len() {
            assert(known.contains(a[k]));
        } else {
            assert(known.contains(b[k - a.len()]));
        }
    }
    if some_known(a, known) {
        let k = choose|k: int| 0 <= k < a.len() && known.contains(#[trigger] a[k]);
        assert(known.contains((a + b)[k]));
    }
    if some_known(b, known) {
        let k = choose|k: int| 0 <= k < b.len() && known.contains(#[trigger] b[k]);
        assert(known.contains((a + b)[k + a.len()]));
    }
}

/// A path names something known exactly where one of its candidates is
/// known.
pub proof fn lemma_candidate_known(raw: Seq<char>, exts: Seq<&'static str>, known: Seq<Seq<char>>)
    ensures
        candidate(raw, exts, known) is Some <==> some_known(
            expansion(canonical(raw), exts),
            known,
        ),
{
    let cands = expansion(canonical(raw), exts);
    lemma_first_known(cands, known, 0);
    match first_known(cands, known, 0) {
        Some(at) => {
            let k = choose|k: int| 0 <= k < cands.len() && #[trigger] cands[k] == known[at];
            assert(known.contains(cands[k]));
        },
        None => {},
    }
}

proof fn lemma_alias_find_hits(
    rules: Seq<AliasView>,
    s: Seq<char>,
    exts: Seq<&'static str>,
    known: Seq<Seq<char>>,
    i: int,
)
    requires
        0 <= i <= rules.len(),
    ensures
        alias_find(rules, s, exts, known, i) is Some <==> exists|j: int|
            i <= j < rules.len() && #[trigger] alias_hit(rules, s, exts, known, j),
    decreases rules.len() - i,
{
    if i < rules.len() {
        lemma_alias_find_hits(rules, s, exts, known, i + 1);
        if alias_hit(rules, s, exts, known, i) {
        } else if alias_find(rules, s, exts, known, i) is Some {
            let j = choose|j: int|
                i + 1 <= j < rules.len() && #[trigger] alias_hit(rules, s, exts, known, j);
            assert(alias_hit(rules, s, exts, known, j));
        } else {
            assert forall|j: int| i <= j < rules.len() implies !#[trigger] alias_hit(
                rules,
                s,
                exts,
                known,
                j,
            ) by {
                if j > i {
                }
            }
        }
    }
}

proof fn lemma_alias_places_hits(
    rules: Seq<AliasView>,
    s: Seq<char>,
    exts: Seq<&'static str>,
    known: Seq<Seq<char>>,
    n: int,
)
    requires
        0 <= n <= rules.len(),
    ensures
        some_known(alias_places(rules, s, exts, n), known) <==> exists|j: int|
            0 <= j < n && #[trigger] alias_hit(rules, s, exts, known, j),
    decreases n,
{
    if n > 0 {
        lemma_alias_places_hits(rules, s, exts, known, n - 1);
        let prior = alias_places(rules, s, exts, n - 1);
        match alias_path(rules[n - 1], s) {
            Some(p) => {
                lemma_candidate_known(p, exts, known);
                lemma_some_known_of_both(prior, expansion(canonical(p), exts), known);
            },
            None => {},
        }
        if some_known(alias_places(rules, s, exts, n), known) {
            if some_known(prior, known) {
                let j = choose|j: int| 0 <= j < n - 1 && #[trigger] alias_hit(rules, s, exts, known, j);
                assert(alias_hit(rules, s, exts, known, j));
            } else {
                assert(alias_hit(rules, s, exts, known, n - 1));
            }
        }
        if exists|j: int| 0 <= j < n && #[trigger] alias_hit(rules, s, exts, known, j) {
            let j = choose|j: int| 0 <= j < n && #[trigger] alias_hit(rules, s, exts, known, j);
            if j < n - 1 {
                assert(some_known(prior, known));
            }
        }
    }
}

proof fn lemma_base_find_hits(
    bases: Seq<Seq<char>>,
    s: Seq<char>,
    exts: Seq<&'static str>,
    known: Seq<Seq<char>>,
    i: int,
)
    requires
        0 <= i <= bases.len(),
    ensures
        base_find(bases, s, exts, known, i) is Some <==> exists|j: int|
            i <= j < bases.len() && #[trigger] base_hit(bases, s, exts, known, j),
    decreases bases.len() - i,
{
    if i < bases.len() {
        lemma_base_find_hits(bases, s, exts, known, i + 1);
        if base_hit(bases, s, exts, known, i) {
        } else if base_find(bases, s, exts, known, i) is Some {
            let j = choose|j: int|
                i + 1 <= j < bases.len() && #[trigger] base_hit(bases, s, exts, known, j);
            assert(base_hit(bases, s, exts, known, j));
        } else {
            assert forall|j: int| i <= j < bases.len() implies !#[trigger] base_hit(
                bases,
                s,
                exts,
                known,
                j,
            ) by {
                if j > i {
                }
            }
        }
    }
}

proof fn lemma_base_places_hits(
    bases: Seq<Seq<char>>,
    s: Seq<char>,
    exts: Seq<&'static str>,
    known: Seq<Seq<char>>,
    n: int,
)
    requires
        0 <= n <= bases.len(),
    ensures
        some_known(base_places(bases, s, exts, n), known) <==> exists|j: int|
            0 <= j < n && #[trigger] base_hit(bases, s, exts, known, j),
    decreases n,
{
    if n > 0 {
        lemma_base_places_hits(bases, s, exts, known, n - 1);
        let prior = base_places(bases, s, exts, n - 1);
        let p = join(bases[n - 1], s);
        lemma_candidate_known(p, exts, known);
        lemma_some_known_of_both(prior, expansion(canonical(p), exts), known);
        if some_known(base_places(bases, s, exts, n), known) {
            if some_known(prior, known) {
                let j = choose|j: int| 0 <= j < n - 1 && #[trigger] base_hit(bases, s, exts, known, j);
                assert(base_hit(bases, s, exts, known, j));
            } else {
                assert(base_hit(bases, s, exts, known, n - 1));
            }
        }
        if exists|j: int| 0 <= j < n && #[trigger] base_hit(bases, s, exts, known, j) {
            let j = choose|j: int| 0 <= j < n && #[trigger] base_hit(bases, s, exts, known, j);
            if j < n - 1 {
                assert(some_known(prior, known));
            }
        }
    }
}

/// What a specifier names is found exactly where `known` holds one of the
/// places at which it is looked for.
pub proof fn lemma_located_among_places(
    r: ResolverView,
    from: Seq<char>,
    specifier: Seq<char>,
    exts: Seq<&'static str>,
    known: Seq<Seq<char>>,
)
    ensures
        r.located(from, specifier, exts, known) is Some <==> some_known(
            r.places(from, specifier, exts),
            known,
        ),
{
    let s = normalized(specifier);
    if s.len() == 0 {
    } else if relative_specifier(s) {
        match parent(from) {
            Some(dir) => {
                lemma_candidate_known(join(dir, s), exts, known);
            },
            None => {},
        }
    } else if rooted_specifier(s) {
        lemma_candidate_known(join(r.root, s.skip(1)), exts, known);
    } else {
        let first = alias_places(r.alias_rules, s, exts, r.alias_rules.len() as int);
        let second = base_places(r.base_dirs, s, exts, r.base_dirs.len() as int);
        lemma_alias_find_hits(r.alias_rules, s, exts, known, 0);
        lemma_alias_places_hits(r.alias_rules, s, exts, known, r.alias_rules.len() as int);
        lemma_base_find_hits(r.base_dirs, s, exts, known, 0);
        lemma_base_places_hits(r.base_dirs, s, exts, known, r.base_dirs.len() as int);
        if package_like(s) {
            lemma_some_known_of_both(first, Seq::empty(), known);
        } else {
            lemma_some_known_of_both(first, second, known);
        }
    }
}

/// Adds to `out` the candidates of the path `raw`.
fn push_candidates(out: &mut Vec<String>, raw: &Vec<char>, exts: &[&'static str])
    ensures
        texts(final(out)@) == texts(old(out)@) + expansion(canonical(raw@), exts@),
{
    let ghost base = texts(out@);
    let p = canonicalize(raw);
    let cands = expand(&p, exts);
    let mut k: usize = 0;
    assert(texts(out@) =~= base + texts(cands@).take(0));
    while k < cands.len()
        invariant
            k <= cands.len(),
            texts(out@) == base + texts(cands@).take(k as int),
        decreases cands.len() - k,
    {
        let ghost before = texts(out@);
        out.push(cands[k].clone());
        assert(texts(out@) =~= before.push(cands@[k as int]@));
        assert(base + texts(cands@).take(k + 1) =~= (base + texts(cands@).take(k as int)).push(
            cands@[k as int]@,
        ));
        k += 1;
    }
    assert(texts(cands@).take(cands@.len() as int) =~= texts(cands@));
}

impl Resolver {
    #[verifier::loop_isolation(false)]
    fn locate(&self, from: &str, specifier: &str, exts: &[&'static str], known: &Vec<String>) -> (r:
        Option<usize>)
        ensures
            match r {
                Some(i) => self@.located(from@, specifier@, exts@, texts(known@)) == Some(i as int)
                    && i < known.len(),
                None => self@.located(from@, specifier@, exts@, texts(known@)) is None,
            },
    {
        let s = normalize_chars(&to_chars(specifier));
        if s.len() == 0 {
            return None;
        }
        if is_relative_chars(&s) {
            return match path_parent(&to_chars(from)) {
                Some(dir) => find_candidate(&path_join(&dir, &s), exts, known),
                None => None,
            };
        }
        if s[0] == '/' {
            let rest = slice(&s, 1, s.len());
            let root = to_chars(self.root.as_str());
            return find_candidate(&path_join(&root, &rest), exts, known);
        }
        let mut i: usize = 0;
        while i < self.alias_rules.len()
            invariant
                i <= self.alias_rules.len(),
                alias_find(alias_views(self.alias_rules@), s@, exts@, texts(known@), 0) == alias_find(
                    alias_views(self.alias_rules@),
                    s@,
                    exts@,
                    texts(known@),
                    i as int,
                ),
            decreases self.alias_rules.len() - i,
        {
            let rule = &self.alias_rules[i];
            assert(alias_views(self.alias_rules@)[i as int] == rule@);
            match match_alias_chars(&to_chars(rule.key.as_str()), &s) {
                Some(mid) => {
                    let target = apply_alias_chars(&to_chars(rule.target.as_str()), &mid);
                    let base = to_chars(rule.base_dir.as_str());
                    match find_candidate(&path_join(&base, &target), exts, known) {
                        Some(at) => {
                            return Some(at);
                        },
                        None => {},
                    }
                },
                None => {},
            }
            i += 1;
        }
        if looks_like_package_chars(&s) {
            return None;
        }
        let mut j: usize = 0;
        while j < self.base_dirs.len()
            invariant
                j <= self.base_dirs.len(),
                base_find(texts(self.base_dirs@), s@, exts@, texts(known@), 0) == base_find(
                    texts(self.base_dirs@),
                    s@,
                    exts@,
                    texts(known@),
                    j as int,
                ),
            decreases self.base_dirs.len() - j,
        {
            assert(texts(self.base_dirs@)[j as int] == self.base_dirs@[j as int]@);
            let base = to_chars(self.base_dirs[j].as_str());
            match find_candidate(&path_join(&base, &s), exts, known) {
                Some(at) => {
                    return Some(at);
                },
                None => {},
            }
            j += 1;
        }
        None
    }

    /// Every path at which a file would be what `specifier` names when
    /// `from_file` imports it: each is tried as it stands, with each extension
    /// that an import may leave out, and as a directory with an index file.
    pub fn candidate_places(&self, from_file: &str, specifier: &str) -> (out: Vec<String>)
        ensures
            texts(out@) == self@.local_places(from_file@, specifier@),
    {
        let exts = local_extension_list();
        let mut out: Vec<String> = Vec::new();
        assert(texts(out@) =~= Seq::<Seq<char>>::empty());
        let s = normalize_chars(&to_chars(specifier));
        if s.len() == 0 {
            return out;
        }
        if is_relative_chars(&s) {
            match path_parent(&to_chars(from_file)) {
                Some(dir) => {
                    push_candidates(&mut out, &path_join(&dir, &s), &exts);
                    assert(texts(out@) =~= expansion(canonical(join(dir@, s@)), exts@));
                },
                None => {},
            }
            return out;
        }
        if s[0] == '/' {
            let rest = slice(&s, 1, s.len());
            let root = to_chars(self.root.as_str());
            push_candidates(&mut out, &path_join(&root, &rest), &exts);
            assert(texts(out@) =~= expansion(canonical(join(root@, rest@)), exts@));
            return out;
        }
        let ghost rules = alias_views(self.alias_rules@);
        let mut i: usize = 0;
        while i < self.alias_rules.len()
            invariant
                i <= self.alias_rules.len(),
                rules == alias_views(self.alias_rules@),
                exts@ == local_extensions(),
                texts(out@) == alias_places(rules, s@, exts@, i as int),
            decreases self.alias_rules.len() - i,
        {
            let rule = &self.alias_rules[i];
            assert(rules[i as int] == rule@);
            match match_alias_chars(&to_chars(rule.key.as_str()), &s) {
                Some(mid) => {
                    let target = apply_alias_chars(&to_chars(rule.target.as_str()), &mid);
                    let base = to_chars(rule.base_dir.as_str());
                    push_candidates(&mut out, &path_join(&base, &target), &exts);
                },
                None => {},
            }
            i += 1;
        }
        if looks_like_package_chars(&s) {
            assert(texts(out@) =~= texts(out@) + Seq::<Seq<char>>::empty());
            return out;
        }
        let ghost first = texts(out@);
        let ghost bases = texts(self.base_dirs@);
        let mut j: usize = 0;
        assert(texts(out@) =~= first + base_places(bases, s@, exts@, 0));
        while j < self.base_dirs.len()
            invariant
                j <= self.base_dirs.len(),
                bases == texts(self.base_dirs@),
                exts@ == local_extensions(),
                texts(out@) == first + base_places(bases, s@, exts@, j as int),
            decreases self.base_dirs.len() - j,
        {
            assert(bases[j as int] == self.base_dirs@[j as int]@);
            let ghost before = texts(out@);
            let base = to_chars(self.base_dirs[j].as_str());
            push_candidates(&mut out, &path_join(&base, &s), &exts);
            assert(first + base_places(bases, s@, exts@, j + 1) =~= before + expansion(
                canonical(join(bases[j as int], s@)),
                exts@,
            ));
            j += 1;
        }
        assert(bases.len() == self.base_dirs@.len());
        out
    }

    /// Resolves a specifier that `from_file` imports to a known source file.
    pub fn resolve_specifier(&self, from_file: &str, specifier: &str) -> (r: Option<usize>)
        ensures
            match r {
                Some(i) => self@.resolved(from_file@, specifier@) == Some(i as int) && i
                    < self.files.len(),
                None => self@.resolved(from_file@, specifier@) is None,
            },
    {
        let exts = source_extension_list();
        self.locate(from_file, specifier, &exts, &self.files)
    }

    /// Whether a specifier is meant to name something of the project.
    #[verifier::loop_isolation(false)]
    pub fn is_likely_local_specifier(&self, specifier: &str) -> (r: bool)
        ensures
            r == self@.likely_local(specifier@),
    {
        let s = normalize_chars(&to_chars(specifier));
        if s.len() == 0 {
            return false;
        }
        if is_relative_chars(&s) || s[0] == '/' {
            return true;
        }
        let mut i: usize = 0;
        while i < self.alias_rules.len()
            invariant
                i <= self.alias_rules.len(),
                forall|k: int|
                    0 <= k < i ==> alias_capture(
                        (#[trigger] alias_views(self.alias_rules@)[k]).key,
                        s@,
                    ) is None,
            decreases self.alias_rules.len() - i,
        {
            assert(alias_views(self.alias_rules@)[i as int] == self.alias_rules@[i as int]@);
            if match_alias_chars(&to_chars(self.alias_rules[i].key.as_str()), &s).is_some() {
                return true;
            }
            i += 1;
        }
        !looks_like_package_chars(&s)
    }

    /// Whether what a specifier names exists among `existing`, the paths of
    /// the files and directories of the project.
    pub fn local_specifier_exists(
        &self,
        from_file: &str,
        specifier: &str,
        existing: &Vec<String>,
    ) -> (r: bool)
        ensures
            r == self@.exists_locally(from_file@, specifier@, texts(existing@)),
    {
        let exts = local_extension_list();
        self.locate(from_file, specifier, &exts, existing).is_some()
    }
}

} // verus!
