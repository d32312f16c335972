//! The module graph: what is reachable from the entries, which imports lead
//! nowhere, and which packages the reachable modules use.

use crate::marks::{holds, lemma_unset_update, marked, unmarked, unset, unset_to};
use crate::order::{lemma_with_text, no_repeats, push_unique};
use crate::parser::{ImportView, module_views, ModuleInfo, ModuleView};
use crate::paths::{
    file_stem, path_file_stem, relative, relative_chars, strip_extension_chars, stripped_extension,
};
use crate::resolver::{Resolver, ResolverView};
use crate::specifier::{
    leaf_name, looks_like_package_specifier, normalize_specifier, normalized, package_like,
    package_name, package_of, suffixes, unresolved_leaf_chars, unresolved_specifier_suffixes,
};
use crate::text::{concat, ends, equal, occurs, slashed, texts, to_chars, to_forward_slashes};
use vstd::prelude::*;

verus! {

/// Import `k` of module `i`, where there is one.
pub open spec fn import_at(modules: Seq<ModuleView>, i: int, k: int) -> Option<ImportView> {
    if 0 <= i < modules.len() && 0 <= k < modules[i].imports.len() {
        Some(modules[i].imports[k])
    } else {
        None
    }
}

/// The file that import `k` of module `i` resolves to, where it resolves.
pub open spec fn target_of(r: ResolverView, modules: Seq<ModuleView>, i: int, k: int) -> Option<
    int,
> {
    match import_at(modules, i, k) {
        Some(import) => if 0 <= i < r.files.len() {
            r.resolved(r.files[i], import.specifier)
        } else {
            None
        },
        None => None,
    }
}

/// Some import of module `i` resolves to file `j`.
pub open spec fn imports_file(r: ResolverView, modules: Seq<ModuleView>, i: int, j: int) -> bool {
    exists|k: int| #[trigger] target_of(r, modules, i, k) == Some(j)
}

/// A chain of files that starts at an entry, each importing the next.
pub open spec fn is_chain(
    r: ResolverView,
    modules: Seq<ModuleView>,
    entries: Seq<usize>,
    chain: Seq<int>,
) -> bool {
    &&& chain.len() > 0
    &&& holds(entries, chain[0])
    &&& 0 <= chain[0] < r.files.len()
    &&& forall|s: int|
        0 <= s < chain.len() - 1 ==> imports_file(r, modules, #[trigger] chain[s], chain[s + 1])
}

/// File `j` is an entry or is imported, directly or through others, by one.
pub open spec fn reachable(
    r: ResolverView,
    modules: Seq<ModuleView>,
    entries: Seq<usize>,
    j: int,
) -> bool {
    exists|chain: Seq<int>| #[trigger] is_chain(r, modules, entries, chain) && chain.last() == j
}

/// What a module that is reachable imports is reachable.
pub proof fn lemma_reachable_step(
    r: ResolverView,
    modules: Seq<ModuleView>,
    entries: Seq<usize>,
    i: int,
    j: int,
)
    requires
        reachable(r, modules, entries, i),
        imports_file(r, modules, i, j),
    ensures
        reachable(r, modules, entries, j),
{
    let chain = choose|chain: Seq<int>| #[trigger]
        is_chain(r, modules, entries, chain) && chain.last() == i;
    let longer = chain.push(j);
    assert forall|s: int| 0 <= s < longer.len() - 1 implies imports_file(
        r,
        modules,
        #[trigger] longer[s],
        longer[s + 1],
    ) by {
        if s < chain.len() - 1 {
            assert(imports_file(r, modules, chain[s], chain[s + 1]));
        }
    }
    assert(longer[0] == chain[0]);
    assert(is_chain(r, modules, entries, longer) && longer.last() == j);
}

/// An entry among the known files is reachable.
pub proof fn lemma_entry_reachable(
    r: ResolverView,
    modules: Seq<ModuleView>,
    entries: Seq<usize>,
    e: int,
)
    requires
        holds(entries, e),
        0 <= e < r.files.len(),
    ensures
        reachable(r, modules, entries, e),
{
    let chain = seq![e];
    assert(is_chain(r, modules, entries, chain) && chain.last() == e);
}

/// The marks hold every entry and, with a file, every file it imports.
pub open spec fn closed(
    r: ResolverView,
    modules: Seq<ModuleView>,
    entries: Seq<usize>,
    marks: Seq<bool>,
) -> bool {
    &&& marks.len() == r.files.len()
    &&& forall|e: int| holds(entries, e) && 0 <= e < r.files.len() ==> #[trigger] marks[e]
    &&& forall|i: int, j: int|
        marked(marks, i) && #[trigger] imports_file(r, modules, i, j) ==> marked(marks, j)
}

/// Marks that are closed hold the end of every chain.
pub proof fn lemma_closed_holds_chain(
    r: ResolverView,
    modules: Seq<ModuleView>,
    entries: Seq<usize>,
    marks: Seq<bool>,
    chain: Seq<int>,
)
    requires
        closed(r, modules, entries, marks),
        is_chain(r, modules, entries, chain),
    ensures
        marked(marks, chain.last()),
    decreases chain.len(),
{
    if chain.len() == 1 {
        assert(marks[chain[0]]);
    } else {
        let shorter = chain.drop_last();
        assert forall|s: int| 0 <= s < shorter.len() - 1 implies imports_file(
            r,
            modules,
            #[trigger] shorter[s],
            shorter[s + 1],
        ) by {
            assert(imports_file(r, modules, chain[s], chain[s + 1]));
        }
        assert(shorter[0] == chain[0]);
        lemma_closed_holds_chain(r, modules, entries, marks, shorter);
        let s = chain.len() - 2;
        assert(imports_file(r, modules, chain[s], chain[s + 1]));
        assert(shorter.last() == chain[s]);
    }
}

/// The files that are reachable from the entries, one mark for each file of
/// the resolver. Entries that are no index of a file count for nothing, and a
/// file without a module imports nothing.
pub fn reachable_files(entries: &Vec<usize>, modules: &Vec<ModuleInfo>, resolver: &Resolver) -> (out:
    Vec<bool>)
    ensures
        out@.len() == resolver.files@.len(),
        forall|j: int|
            0 <= j < out@.len() ==> (#[trigger] out@[j] <==> reachable(
                resolver@,
                module_views(modules@),
                entries@,
                j,
            )),
{
    let n = resolver.files.len();
    let ghost r = resolver@;
    let ghost ms = module_views(modules@);
    let mut seen = unmarked(n);
    let mut queue: Vec<usize> = Vec::new();
    proof {
        lemma_all_unset(seen@, n as int);
    }
    let mut e: usize = 0;
    while e < entries.len()
        invariant
            e <= entries.len(),
            n == resolver.files@.len(),
            r == resolver@,
            ms == module_views(modules@),
            seen@.len() == n,
            unset(seen@) + queue@.len() == n,
            forall|j: int| 0 <= j < n && #[trigger] seen@[j] ==> reachable(r, ms, entries@, j),
            forall|q: int| 0 <= q < queue@.len() ==> marked(seen@, #[trigger] queue@[q] as int),
            forall|j: int| 0 <= j < n && #[trigger] seen@[j] ==> holds(queue@, j),
            forall|x: int| 0 <= x < e && entries@[x] < n ==> seen@[#[trigger] entries@[x] as int],
        decreases entries.len() - e,
    {
        let at = entries[e];
        if at < n && !seen[at] {
            proof {
                assert(holds(entries@, at as int));
                lemma_entry_reachable(r, ms, entries@, at as int);
            }
            mark(&mut seen, &mut queue, at);
        }
        e += 1;
    }
    let mut head: usize = 0;
    while head < queue.len()
        invariant
            head <= queue@.len(),
            n == resolver.files@.len(),
            r == resolver@,
            ms == module_views(modules@),
            seen@.len() == n,
            unset(seen@) + queue@.len() == n,
            forall|j: int| 0 <= j < n && #[trigger] seen@[j] ==> reachable(r, ms, entries@, j),
            forall|q: int| 0 <= q < queue@.len() ==> marked(seen@, #[trigger] queue@[q] as int),
            forall|j: int| 0 <= j < n && #[trigger] seen@[j] ==> holds(queue@, j),
            forall|x: int|
                0 <= x < entries@.len() && entries@[x] < n ==> seen@[#[trigger] entries@[x] as int],
            forall|q: int, j: int|
                0 <= q < head && #[trigger] imports_file(r, ms, queue@[q] as int, j) ==> marked(
                    seen@,
                    j,
                ),
        decreases n - head,
    {
        let current = queue[head];
        assert(marked(seen@, queue@[head as int] as int));
        if current < modules.len() {
            let module = &modules[current];
            let mut k: usize = 0;
            while k < module.imports.len()
                invariant
                    k <= module.imports@.len(),
                    head < queue@.len(),
                    current == queue@[head as int],
                    current < modules@.len(),
                    current < n,
                    *module == modules@[current as int],
                    n == resolver.files@.len(),
                    r == resolver@,
                    ms == module_views(modules@),
                    seen@.len() == n,
                    unset(seen@) + queue@.len() == n,
                    forall|j: int|
                        0 <= j < n && #[trigger] seen@[j] ==> reachable(r, ms, entries@, j),
                    forall|q: int|
                        0 <= q < queue@.len() ==> marked(seen@, #[trigger] queue@[q] as int),
                    forall|j: int| 0 <= j < n && #[trigger] seen@[j] ==> holds(queue@, j),
                    forall|x: int|
                        0 <= x < entries@.len() && entries@[x] < n ==> seen@[#[trigger] entries@[x] as int],
                    forall|q: int, j: int|
                        0 <= q < head && #[trigger] imports_file(r, ms, queue@[q] as int, j)
                            ==> marked(seen@, j),
                    forall|x: int|
                        0 <= x < k ==> match #[trigger] target_of(r, ms, current as int, x) {
                            Some(j) => marked(seen@, j),
                            None => true,
                        },
                decreases module.imports.len() - k,
            {
                let import = &module.imports[k];
                let found = resolver.resolve_specifier(
                    resolver.files[current].as_str(),
                    import.specifier.as_str(),
                );
                proof {
                    assert(ms[current as int] == modules@[current as int]@);
                    assert(ms[current as int].imports[k as int] == module.imports@[k as int]@);
                    assert(r.files[current as int] == resolver.files@[current as int]@);
                    assert(target_of(r, ms, current as int, k as int) == r.resolved(
                        resolver.files@[current as int]@,
                        import.specifier@,
                    ));
                }
                match found {
                    Some(next) => {
                        if !seen[next] {
                            proof {
                                assert(imports_file(r, ms, current as int, next as int));
                                lemma_reachable_step(r, ms, entries@, current as int, next as int);
                            }
                            mark(&mut seen, &mut queue, next);
                        }
                    },
                    None => {},
                }
                k += 1;
            }
            proof {
                assert forall|j: int| #[trigger]
                    imports_file(r, ms, current as int, j) implies marked(seen@, j) by {
                    let x = choose|x: int| #[trigger] target_of(r, ms, current as int, x) == Some(j);
                    assert(0 <= x < module.imports@.len());
                }
            }
        } else {
            proof {
                assert forall|j: int| #[trigger]
                    imports_file(r, ms, current as int, j) implies marked(seen@, j) by {
                    let x = choose|x: int| #[trigger] target_of(r, ms, current as int, x) == Some(j);
                    assert(false);
                }
            }
        }
        head += 1;
        proof {
            lemma_unset_bound(seen@);
        }
    }
    proof {
        assert forall|i: int, j: int|
            marked(seen@, i) && #[trigger] imports_file(r, ms, i, j) implies marked(seen@, j) by {
            assert(holds(queue@, i));
            let q = choose|q: int| 0 <= q < queue@.len() && #[trigger] queue@[q] as int == i;
            assert(imports_file(r, ms, queue@[q] as int, j));
        }
        assert forall|e: int| holds(entries@, e) && 0 <= e < r.files.len() implies #[trigger] seen@[e] by {
            let x = choose|x: int| 0 <= x < entries@.len() && #[trigger] entries@[x] as int == e;
            assert(seen@[entries@[x] as int]);
        }
        assert(closed(r, ms, entries@, seen@));
        assert forall|j: int| 0 <= j < seen@.len() implies (#[trigger] seen@[j] <==> reachable(
            r,
            ms,
            entries@,
            j,
        )) by {
            if reachable(r, ms, entries@, j) {
                let chain = choose|chain: Seq<int>| #[trigger]
                    is_chain(r, ms, entries@, chain) && chain.last() == j;
                lemma_closed_holds_chain(r, ms, entries@, seen@, chain);
            }
        }
    }
    seen
}

proof fn lemma_all_unset(marks: Seq<bool>, n: int)
    requires
        0 <= n <= marks.len(),
        forall|i: int| 0 <= i < marks.len() ==> !marks[i],
    ensures
        unset_to(marks, n) == n,
    decreases n,
{
    if n > 0 {
        lemma_all_unset(marks, n - 1);
    }
}

proof fn lemma_unset_bound(marks: Seq<bool>)
    ensures
        unset(marks) >= 0,
{
}

/// Marks one more file and queues it.
fn mark(seen: &mut Vec<bool>, queue: &mut Vec<usize>, at: usize)
    requires
        at < old(seen)@.len(),
        !old(seen)@[at as int],
    ensures
        final(seen)@ == old(seen)@.update(at as int, true),
        final(queue)@ == old(queue)@.push(at),
        unset(final(seen)@) + final(queue)@.len() == unset(old(seen)@) + old(queue)@.len(),
        forall|j: int| holds(old(queue)@, j) ==> holds(final(queue)@, j),
        holds(final(queue)@, at as int),
{
    proof {
        lemma_unset_update(seen@, at as int, seen@.len() as int);
    }
    let ghost before = queue@;
    seen.set(at, true);
    queue.push(at);
    assert forall|j: int| holds(before, j) implies holds(queue@, j) by {
        let q = choose|q: int| 0 <= q < before.len() && #[trigger] before[q] as int == j;
        assert(queue@[q] as int == j);
    }
    assert(queue@[before.len() as int] as int == at as int);
}

/// A place where a module names another: import `import` of module `module`.
pub struct Site {
    pub module: usize,
    pub import: usize,
}

/// Import `k` of module `i` is one of a marked module.
pub open spec fn is_site(modules: Seq<ModuleView>, marks: Seq<bool>, i: int, k: int) -> bool {
    marked(marks, i) && import_at(modules, i, k) is Some
}

/// `a` stands before `b`: in an earlier module, or earlier in the same one.
pub open spec fn site_before(a: Site, b: Site) -> bool {
    a.module < b.module || (a.module == b.module && a.import < b.import)
}

/// The list holds the site.
pub open spec fn has_site(sites: Seq<Site>, i: int, k: int) -> bool {
    exists|s: int|
        0 <= s < sites.len() && (#[trigger] sites[s]).module == i && sites[s].import == k
}

/// The sites are the imports of the marked modules, in the order of the
/// modules and, within one, of its imports.
pub open spec fn lists_sites(sites: Seq<Site>, modules: Seq<ModuleView>, marks: Seq<bool>) -> bool {
    &&& forall|a: int, b: int|
        0 <= a < b < sites.len() ==> site_before(#[trigger] sites[a], #[trigger] sites[b])
    &&& forall|s: int|
        0 <= s < sites.len() ==> is_site(
            modules,
            marks,
            (#[trigger] sites[s]).module as int,
            sites[s].import as int,
        )
    &&& forall|i: int, k: int| #[trigger] is_site(modules, marks, i, k) ==> has_site(sites, i, k)
}

/// The imports of the marked modules.
pub fn import_sites(marks: &Vec<bool>, modules: &Vec<ModuleInfo>) -> (sites: Vec<Site>)
    ensures
        lists_sites(sites@, module_views(modules@), marks@),
{
    let ghost ms = module_views(modules@);
    let mut sites: Vec<Site> = Vec::new();
    let mut i: usize = 0;
    while i < modules.len()
        invariant
            i <= modules@.len(),
            ms == module_views(modules@),
            forall|a: int, b: int|
                0 <= a < b < sites@.len() ==> site_before(#[trigger] sites@[a], #[trigger] sites@[b]),
            forall|s: int|
                0 <= s < sites@.len() ==> (#[trigger] sites@[s]).module < i && is_site(
                    ms,
                    marks@,
                    sites@[s].module as int,
                    sites@[s].import as int,
                ),
            forall|x: int, k: int|
                0 <= x < i && #[trigger] is_site(ms, marks@, x, k) ==> has_site(sites@, x, k),
        decreases modules.len() - i,
    {
        assert(ms[i as int] == modules@[i as int]@);
        if i < marks.len() && marks[i] {
            let count = modules[i].imports.len();
            let mut k: usize = 0;
            while k < count
                invariant
                    k <= count,
                    i < modules@.len(),
                    marked(marks@, i as int),
                    count == modules@[i as int].imports@.len(),
                    ms == module_views(modules@),
                    ms[i as int] == modules@[i as int]@,
                    forall|a: int, b: int|
                        0 <= a < b < sites@.len() ==> site_before(
                            #[trigger] sites@[a],
                            #[trigger] sites@[b],
                        ),
                    forall|s: int|
                        0 <= s < sites@.len() ==> ((#[trigger] sites@[s]).module < i || (
                        sites@[s].module == i && sites@[s].import < k)) && is_site(
                            ms,
                            marks@,
                            sites@[s].module as int,
                            sites@[s].import as int,
                        ),
                    forall|x: int, y: int|
                        0 <= x < i && #[trigger] is_site(ms, marks@, x, y) ==> has_site(
                            sites@,
                            x,
                            y,
                        ),
                    forall|y: int| 0 <= y < k ==> #[trigger] has_site(sites@, i as int, y),
                decreases count - k,
            {
                let ghost before = sites@;
                sites.push(Site { module: i, import: k });
                proof {
                    assert forall|x: int, y: int| has_site(before, x, y) implies has_site(
                        sites@,
                        x,
                        y,
                    ) by {
                        let s = choose|s: int|
                            0 <= s < before.len() && (#[trigger] before[s]).module == x
                                && before[s].import == y;
                        assert(sites@[s].module == x && sites@[s].import == y);
                    }
                    assert(sites@[before.len() as int].module == i);
                    assert(has_site(sites@, i as int, k as int));
                    assert forall|x: int, y: int|
                        0 <= x < i && #[trigger] is_site(ms, marks@, x, y) implies has_site(
                        sites@,
                        x,
                        y,
                    ) by {
                        assert(has_site(before, x, y));
                    }
                    assert forall|y: int| 0 <= y < k + 1 implies #[trigger] has_site(
                        sites@,
                        i as int,
                        y,
                    ) by {
                        if y < k {
                            assert(has_site(before, i as int, y));
                        }
                    }
                }
                k += 1;
            }
        }
        proof {
            assert forall|x: int, k: int|
                0 <= x < i + 1 && #[trigger] is_site(ms, marks@, x, k) implies has_site(
                sites@,
                x,
                k,
            ) by {
                if x == i {
                    assert(0 <= k < modules@[i as int].imports@.len());
                    assert(has_site(sites@, i as int, k));
                }
            }
        }
        i += 1;
    }
    proof {
        assert forall|x: int, k: int| #[trigger] is_site(ms, marks@, x, k) implies has_site(
            sites@,
            x,
            k,
        ) by {
            assert(0 <= x < modules@.len());
        }
    }
    sites
}

/// The package that import `k` of module `i` names: the import does not
/// resolve to a file of the project and looks like a package.
pub open spec fn package_use(r: ResolverView, modules: Seq<ModuleView>, i: int, k: int) -> Option<
    Seq<char>,
> {
    match import_at(modules, i, k) {
        Some(import) => {
            let s = normalized(import.specifier);
            if 0 <= i < r.files.len() && r.resolved(r.files[i], s) is None && package_like(s) {
                Some(package_of(s))
            } else {
                None
            }
        },
        None => None,
    }
}

/// Some import of a marked module names the package.
pub open spec fn uses_package(
    r: ResolverView,
    modules: Seq<ModuleView>,
    marks: Seq<bool>,
    name: Seq<char>,
) -> bool {
    exists|i: int, k: int|
        marked(marks, i) && #[trigger] package_use(r, modules, i, k) == Some(name)
}

/// The packages that the reachable modules use, each once.
pub fn collect_used_packages(reachable: &Vec<bool>, modules: &Vec<ModuleInfo>, resolver: &Resolver) -> (out:
    Vec<String>)
    ensures
        no_repeats(texts(out@)),
        forall|name: Seq<char>| #[trigger]
            texts(out@).contains(name) <==> uses_package(
                resolver@,
                module_views(modules@),
                reachable@,
                name,
            ),
{
    let ghost r = resolver@;
    let ghost ms = module_views(modules@);
    let sites = import_sites(reachable, modules);
    let mut out: Vec<String> = Vec::new();
    let mut s: usize = 0;
    while s < sites.len()
        invariant
            s <= sites@.len(),
            r == resolver@,
            ms == module_views(modules@),
            lists_sites(sites@, ms, reachable@),
            no_repeats(texts(out@)),
            forall|name: Seq<char>| #[trigger]
                texts(out@).contains(name) <==> exists|x: int|
                    0 <= x < s && package_use(
                        r,
                        ms,
                        (#[trigger] sites@[x]).module as int,
                        sites@[x].import as int,
                    ) == Some(name),
        decreases sites.len() - s,
    {
        let i = sites[s].module;
        let k = sites[s].import;
        assert(is_site(ms, reachable@, sites@[s as int].module as int, sites@[s as int].import as int));
        assert(ms[i as int] == modules@[i as int]@);
        assert(ms[i as int].imports[k as int] == modules@[i as int].imports@[k as int]@);
        let import = &modules[i].imports[k];
        let named = normalize_specifier(import.specifier.as_str());
        let ghost before = texts(out@);
        let ghost hit = package_use(r, ms, i as int, k as int);
        if i < resolver.files.len() && resolver.resolve_specifier(
            resolver.files[i].as_str(),
            named.as_str(),
        ).is_none() && looks_like_package_specifier(named.as_str()) {
            assert(r.files[i as int] == resolver.files@[i as int]@);
            proof {
                lemma_with_text(before, package_of(named@));
            }
            push_unique(&mut out, package_name(named.as_str()));
        }
        proof {
            assert forall|name: Seq<char>| #[trigger]
                texts(out@).contains(name) <==> exists|x: int|
                    0 <= x < s + 1 && package_use(
                        r,
                        ms,
                        (#[trigger] sites@[x]).module as int,
                        sites@[x].import as int,
                    ) == Some(name) by {
                if before.contains(name) {
                    let x = choose|x: int|
                        0 <= x < s && package_use(
                            r,
                            ms,
                            (#[trigger] sites@[x]).module as int,
                            sites@[x].import as int,
                        ) == Some(name);
                    assert(0 <= x < s + 1 && package_use(
                        r,
                        ms,
                        sites@[x].module as int,
                        sites@[x].import as int,
                    ) == Some(name));
                }
                if hit == Some(name) {
                    assert(package_use(
                        r,
                        ms,
                        sites@[s as int].module as int,
                        sites@[s as int].import as int,
                    ) == Some(name));
                }
                if exists|x: int|
                    0 <= x < s + 1 && package_use(
                        r,
                        ms,
                        (#[trigger] sites@[x]).module as int,
                        sites@[x].import as int,
                    ) == Some(name) {
                    let x = choose|x: int|
                        0 <= x < s + 1 && package_use(
                            r,
                            ms,
                            (#[trigger] sites@[x]).module as int,
                            sites@[x].import as int,
                        ) == Some(name);
                    if x < s {
                        assert(before.contains(name));
                    }
                }
            }
        }
        s += 1;
    }
    proof {
        assert forall|name: Seq<char>| #[trigger]
            texts(out@).contains(name) <==> uses_package(r, ms, reachable@, name) by {
            if texts(out@).contains(name) {
                let x = choose|x: int|
                    0 <= x < sites@.len() && package_use(
                        r,
                        ms,
                        (#[trigger] sites@[x]).module as int,
                        sites@[x].import as int,
                    ) == Some(name);
                assert(is_site(ms, reachable@, sites@[x].module as int, sites@[x].import as int));
            }
            if uses_package(r, ms, reachable@, name) {
                let (i, k) = choose|i: int, k: int|
                    marked(reachable@, i) && #[trigger] package_use(r, ms, i, k) == Some(name);
                assert(is_site(ms, reachable@, i, k));
                assert(has_site(sites@, i, k));
                let x = choose|x: int|
                    0 <= x < sites@.len() && (#[trigger] sites@[x]).module == i && sites@[x].import
                        == k;
                assert(package_use(r, ms, sites@[x].module as int, sites@[x].import as int) == Some(
                    name,
                ));
            }
        }
    }
    out
}

/// An import that is meant to name something of the project and names nothing.
pub struct UnresolvedImport {
    pub from_file: usize,
    pub specifier: String,
}

/// An `UnresolvedImport` as plain values.
pub struct UnresolvedView {
    pub from_file: int,
    pub specifier: Seq<char>,
}

impl View for UnresolvedImport {
    type V = UnresolvedView;

    open spec fn view(&self) -> UnresolvedView {
        UnresolvedView { from_file: self.from_file as int, specifier: self.specifier@ }
    }
}

/// The views of a list of unresolved imports.
pub open spec fn unresolved_views(v: Seq<UnresolvedImport>) -> Seq<UnresolvedView> {
    Seq::new(v.len(), |i: int| v[i]@)
}

/// What import `k` of module `i` says where it leads nowhere: it is likely
/// local, resolves to no known source file, and names nothing that exists.
pub open spec fn dangling(
    r: ResolverView,
    modules: Seq<ModuleView>,
    existing: Seq<Seq<char>>,
    i: int,
    k: int,
) -> Option<UnresolvedView> {
    match import_at(modules, i, k) {
        Some(import) => {
            if 0 <= i < r.files.len() && r.likely_local(import.specifier) && r.resolved(
                r.files[i],
                import.specifier,
            ) is None && !r.exists_locally(r.files[i], import.specifier, existing) {
                Some(UnresolvedView { from_file: i, specifier: import.specifier })
            } else {
                None
            }
        },
        None => None,
    }
}

/// Some import of a marked module leads nowhere and says `u`.
pub open spec fn is_unresolved(
    r: ResolverView,
    modules: Seq<ModuleView>,
    existing: Seq<Seq<char>>,
    marks: Seq<bool>,
    u: UnresolvedView,
) -> bool {
    exists|i: int, k: int|
        marked(marks, i) && #[trigger] dangling(r, modules, existing, i, k) == Some(u)
}

/// No import stands twice in the list.
pub open spec fn distinct_imports(list: Seq<UnresolvedView>) -> bool {
    forall|a: int, b: int| 0 <= a < b < list.len() ==> #[trigger] list[a] != #[trigger] list[b]
}

#[verifier::loop_isolation(false)]
fn has_import(list: &Vec<UnresolvedImport>, from_file: usize, specifier: &String) -> (r: bool)
    ensures
        r == unresolved_views(list@).contains(
            UnresolvedView { from_file: from_file as int, specifier: specifier@ },
        ),
{
    let ghost wanted = UnresolvedView { from_file: from_file as int, specifier: specifier@ };
    let mut i: usize = 0;
    while i < list.len()
        invariant
            i <= list.len(),
            forall|k: int| 0 <= k < i ==> #[trigger] unresolved_views(list@)[k] != wanted,
        decreases list.len() - i,
    {
        assert(unresolved_views(list@)[i as int] == list@[i as int]@);
        if list[i].from_file == from_file && list[i].specifier == *specifier {
            return true;
        }
        i += 1;
    }
    false
}

/// The imports of the reachable modules that lead nowhere, each pair of
/// file and specifier once. `existing` holds the paths of the files and
/// directories of the project.
pub fn collect_unresolved_local_imports(
    reachable: &Vec<bool>,
    modules: &Vec<ModuleInfo>,
    resolver: &Resolver,
    existing: &Vec<String>,
) -> (out: Vec<UnresolvedImport>)
    ensures
        distinct_imports(unresolved_views(out@)),
        forall|u: UnresolvedView| #[trigger]
            unresolved_views(out@).contains(u) <==> is_unresolved(
                resolver@,
                module_views(modules@),
                texts(existing@),
                reachable@,
                u,
            ),
{
    let ghost r = resolver@;
    let ghost ms = module_views(modules@);
    let ghost ex = texts(existing@);
    let sites = import_sites(reachable, modules);
    let mut out: Vec<UnresolvedImport> = Vec::new();
    let mut s: usize = 0;
    while s < sites.len()
        invariant
            s <= sites@.len(),
            r == resolver@,
            ms == module_views(modules@),
            ex == texts(existing@),
            lists_sites(sites@, ms, reachable@),
            distinct_imports(unresolved_views(out@)),
            forall|u: UnresolvedView| #[trigger]
                unresolved_views(out@).contains(u) <==> exists|x: int|
                    0 <= x < s && dangling(
                        r,
                        ms,
                        ex,
                        (#[trigger] sites@[x]).module as int,
                        sites@[x].import as int,
                    ) == Some(u),
        decreases sites.len() - s,
    {
        let i = sites[s].module;
        let k = sites[s].import;
        assert(is_site(ms, reachable@, sites@[s as int].module as int, sites@[s as int].import as int));
        assert(ms[i as int] == modules@[i as int]@);
        assert(ms[i as int].imports[k as int] == modules@[i as int].imports@[k as int]@);
        let import = &modules[i].imports[k];
        let ghost before = unresolved_views(out@);
        let ghost hit = dangling(r, ms, ex, i as int, k as int);
        if i < resolver.files.len() {
            assert(r.files[i as int] == resolver.files@[i as int]@);
            let from = resolver.files[i].as_str();
            let named = import.specifier.as_str();
            if resolver.is_likely_local_specifier(named) && resolver.resolve_specifier(
                from,
                named,
            ).is_none() && !resolver.local_specifier_exists(from, named, existing) {
                if !has_import(&out, i, &import.specifier) {
                    let u = UnresolvedImport { from_file: i, specifier: import.specifier.clone() };
                    out.push(u);
                    assert(unresolved_views(out@) =~= before.push(u@));
                }
            }
        }
        proof {
            let now = unresolved_views(out@);
            assert(now == before || (hit is Some && !before.contains(hit->0) && now == before.push(
                hit->0,
            )));
            assert(hit is Some ==> now.contains(hit->0)) by {
                if hit is Some {
                    if now == before {
                    } else {
                        assert(now[before.len() as int] == hit->0);
                    }
                }
            }
            assert forall|a: int, b: int| 0 <= a < b < now.len() implies #[trigger] now[a]
                != #[trigger] now[b] by {
                if now != before {
                    if b == before.len() {
                        assert(before[a] == now[a]);
                        assert(before.contains(now[a]));
                    } else {
                        assert(before[a] == now[a] && before[b] == now[b]);
                    }
                }
            }
            assert forall|u: UnresolvedView| #[trigger]
                now.contains(u) <==> exists|x: int|
                    0 <= x < s + 1 && dangling(
                        r,
                        ms,
                        ex,
                        (#[trigger] sites@[x]).module as int,
                        sites@[x].import as int,
                    ) == Some(u) by {
                if before.contains(u) {
                    let x = choose|x: int|
                        0 <= x < s && dangling(
                            r,
                            ms,
                            ex,
                            (#[trigger] sites@[x]).module as int,
                            sites@[x].import as int,
                        ) == Some(u);
                    assert(0 <= x < s + 1 && dangling(
                        r,
                        ms,
                        ex,
                        sites@[x].module as int,
                        sites@[x].import as int,
                    ) == Some(u));
                    let y = choose|y: int| 0 <= y < before.len() && before[y] == u;
                    assert(now[y] == u);
                }
                if hit == Some(u) {
                    assert(dangling(
                        r,
                        ms,
                        ex,
                        sites@[s as int].module as int,
                        sites@[s as int].import as int,
                    ) == Some(u));
                }
                if now.contains(u) && !before.contains(u) {
                    let y = choose|y: int| 0 <= y < now.len() && now[y] == u;
                    if y < before.len() {
                        assert(before[y] == u);
                    }
                    assert(hit == Some(u));
                }
                if exists|x: int|
                    0 <= x < s + 1 && dangling(
                        r,
                        ms,
                        ex,
                        (#[trigger] sites@[x]).module as int,
                        sites@[x].import as int,
                    ) == Some(u) {
                    let x = choose|x: int|
                        0 <= x < s + 1 && dangling(
                            r,
                            ms,
                            ex,
                            (#[trigger] sites@[x]).module as int,
                            sites@[x].import as int,
                        ) == Some(u);
                    if x < s {
                        assert(before.contains(u));
                    }
                }
            }
        }
        s += 1;
    }
    proof {
        assert forall|u: UnresolvedView| #[trigger]
            unresolved_views(out@).contains(u) <==> is_unresolved(r, ms, ex, reachable@, u) by {
            if unresolved_views(out@).contains(u) {
                let x = choose|x: int|
                    0 <= x < sites@.len() && dangling(
                        r,
                        ms,
                        ex,
                        (#[trigger] sites@[x]).module as int,
                        sites@[x].import as int,
                    ) == Some(u);
                assert(is_site(ms, reachable@, sites@[x].module as int, sites@[x].import as int));
            }
            if is_unresolved(r, ms, ex, reachable@, u) {
                let (i, k) = choose|i: int, k: int|
                    marked(reachable@, i) && #[trigger] dangling(r, ms, ex, i, k) == Some(u);
                assert(is_site(ms, reachable@, i, k));
                assert(has_site(sites@, i, k));
                let x = choose|x: int|
                    0 <= x < sites@.len() && (#[trigger] sites@[x]).module == i && sites@[x].import
                        == k;
                assert(dangling(r, ms, ex, sites@[x].module as int, sites@[x].import as int)
                    == Some(u));
            }
        }
    }
    out
}

/// The path of a file as reports show it, ends with the ending, with or
/// without the file's extension, or with `index` in a directory of that name.
pub open spec fn suffix_hit(rel: Seq<char>, suffix: Seq<char>) -> bool {
    let bare = stripped_extension(rel);
    ||| bare == suffix
    ||| ends(bare, seq!['/'] + suffix)
    ||| ends(rel, seq!['/'] + suffix)
    ||| ends(bare, seq!['/'] + suffix + "/index"@)
}

/// A specifier that did not resolve may have meant the file: the file's path
/// ends as the specifier does, or the file's stem is the name that the
/// specifier ends in.
pub open spec fn may_name(root: Seq<char>, specifier: Seq<char>, file: Seq<char>) -> bool {
    let rel = slashed(relative(root, file));
    ||| exists|x: int|
        0 <= x < suffixes(specifier).len() && suffix_hit(rel, #[trigger] suffixes(specifier)[x])
    ||| leaf_name(specifier) == Some(file_stem(file))
}

/// Some unresolved import may have meant the file.
pub open spec fn maybe_used(
    root: Seq<char>,
    unresolved: Seq<UnresolvedView>,
    file: Seq<char>,
) -> bool {
    exists|u: int|
        0 <= u < unresolved.len() && may_name(root, (#[trigger] unresolved[u]).specifier, file)
}

fn ends_with_chars(v: &Vec<char>, pat: &Vec<char>) -> (r: bool)
    ensures
        r == ends(v@, pat@),
{
    if pat.len() > v.len() {
        return false;
    }
    occurs(v, pat, v.len() - pat.len())
}

fn hits_suffix(rel: &Vec<char>, bare: &Vec<char>, suffix: &Vec<char>) -> (r: bool)
    requires
        bare@ == stripped_extension(rel@),
    ensures
        r == suffix_hit(rel@, suffix@),
{
    let mut slash: Vec<char> = Vec::new();
    slash.push('/');
    assert(slash@ =~= seq!['/']);
    let tail = concat(&slash, suffix);
    let index = concat(&tail, &to_chars("/index"));
    equal(bare, suffix) || ends_with_chars(bare, &tail) || ends_with_chars(rel, &tail)
        || ends_with_chars(bare, &index)
}

#[verifier::loop_isolation(false)]
fn may_name_file(root: &Vec<char>, ends_list: &Vec<String>, leaf: &Option<Vec<char>>, file: &str) -> (r:
    bool)
    ensures
        r == ((exists|x: int|
            0 <= x < ends_list@.len() && suffix_hit(
                slashed(relative(root@, file@)),
                #[trigger] texts(ends_list@)[x],
            )) || match leaf {
            Some(l) => l@ == file_stem(file@),
            None => false,
        }),
{
    let path = to_chars(file);
    let rel = to_forward_slashes(&relative_chars(root, &path));
    let bare = strip_extension_chars(&rel);
    let mut x: usize = 0;
    while x < ends_list.len()
        invariant
            x <= ends_list.len(),
            forall|y: int| 0 <= y < x ==> !suffix_hit(rel@, #[trigger] texts(ends_list@)[y]),
        decreases ends_list.len() - x,
    {
        assert(texts(ends_list@)[x as int] == ends_list@[x as int]@);
        if hits_suffix(&rel, &bare, &to_chars(ends_list[x].as_str())) {
            return true;
        }
        x += 1;
    }
    match leaf {
        Some(l) => equal(l, &path_file_stem(&path)),
        None => false,
    }
}

/// The files that an unresolved import may have meant, one mark for each of
/// `files`.
pub fn infer_potentially_used_files_from_unresolved(
    files: &Vec<String>,
    unresolved: &Vec<UnresolvedImport>,
    root: &str,
) -> (out: Vec<bool>)
    ensures
        out@.len() == files@.len(),
        forall|j: int|
            0 <= j < files@.len() ==> (#[trigger] out@[j] <==> maybe_used(
                root@,
                unresolved_views(unresolved@),
                files@[j]@,
            )),
{
    let root_chars = to_chars(root);
    let ghost us = unresolved_views(unresolved@);
    let mut out = unmarked(files.len());
    let mut u: usize = 0;
    while u < unresolved.len()
        invariant
            u <= unresolved@.len(),
            root_chars@ == root@,
            us == unresolved_views(unresolved@),
            out@.len() == files@.len(),
            forall|j: int|
                0 <= j < files@.len() ==> (#[trigger] out@[j] <==> maybe_used(
                    root@,
                    us.take(u as int),
                    files@[j]@,
                )),
        decreases unresolved.len() - u,
    {
        let specifier = unresolved[u].specifier.as_str();
        let ends_list = unresolved_specifier_suffixes(specifier);
        let leaf = unresolved_leaf_chars(&to_chars(specifier));
        let ghost start = out@;
        let ghost named = unresolved@[u as int].specifier@;
        assert(us[u as int] == unresolved@[u as int]@);
        let mut j: usize = 0;
        while j < files.len()
            invariant
                j <= files@.len(),
                root_chars@ == root@,
                out@.len() == files@.len(),
                texts(ends_list@) == suffixes(named),
                match leaf {
                    Some(l) => leaf_name(named) == Some(l@),
                    None => leaf_name(named) is None,
                },
                forall|x: int|
                    0 <= x < j ==> (#[trigger] out@[x] <==> (start[x] || may_name(
                        root@,
                        named,
                        files@[x]@,
                    ))),
                forall|x: int| j <= x < files@.len() ==> #[trigger] out@[x] == start[x],
            decreases files.len() - j,
        {
            let ghost before = out@;
            let hit = may_name_file(&root_chars, &ends_list, &leaf, files[j].as_str());
            assert(hit == may_name(root@, named, files@[j as int]@));
            if hit {
                out.set(j, true);
            }
            assert forall|x: int| 0 <= x < j + 1 implies (#[trigger] out@[x] <==> (start[x]
                || may_name(root@, named, files@[x]@))) by {
                if x < j {
                    assert(out@[x] == before[x]);
                }
            }
            assert forall|x: int| j + 1 <= x < files@.len() implies #[trigger] out@[x]
                == start[x] by {
                assert(out@[x] == before[x]);
            }
            j += 1;
        }
        proof {
            let done = us.take(u as int);
            let next = us.take(u + 1);
            assert(next[u as int] == us[u as int]);
            assert forall|x: int| 0 <= x < files@.len() implies (#[trigger] out@[x] <==> maybe_used(
                root@,
                next,
                files@[x]@,
            )) by {
                assert(start[x] <==> maybe_used(root@, done, files@[x]@));
                if maybe_used(root@, done, files@[x]@) {
                    let y = choose|y: int|
                        0 <= y < done.len() && may_name(
                            root@,
                            (#[trigger] done[y]).specifier,
                            files@[x]@,
                        );
                    assert(next[y] == done[y]);
                }
                if may_name(root@, named, files@[x]@) {
                    assert(may_name(root@, next[u as int].specifier, files@[x]@));
                }
                if maybe_used(root@, next, files@[x]@) {
                    let y = choose|y: int|
                        0 <= y < next.len() && may_name(
                            root@,
                            (#[trigger] next[y]).specifier,
                            files@[x]@,
                        );
                    if y < u {
                        assert(done[y] == next[y]);
                    }
                }
            }
        }
        u += 1;
    }
    assert(us.take(unresolved@.len() as int) =~= us);
    out
}

} // verus!
