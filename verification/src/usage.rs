//! What of each module the reachable modules take: all of it, its default
//! export, or exports by name.

use crate::graph::{has_site, import_at, import_sites, is_site, lists_sites, target_of};
use crate::marks::marked;
use crate::order::{push_unique, with_text};
use crate::parser::{ImportView, module_views, ModuleInfo, ModuleView};
use crate::resolver::{Resolver, ResolverView};
use crate::text::{clone_texts, texts};
use vstd::prelude::*;

verus! {

/// What is taken of one module.
pub struct ExportUsage {
    pub all: bool,
    pub default_used: bool,
    pub names: Vec<String>,
}

/// Something that may be taken of a module.
pub enum Taken {
    /// All of it: a namespace import or a re-export names it.
    Whole,
    /// Its default export.
    Default,
    /// The export of this name.
    Name(Seq<char>),
}

/// An import takes this of the module it names. A side-effect import takes
/// nothing; a re-export takes the whole module, whatever it lists.
pub open spec fn gives(import: ImportView, what: Taken) -> bool {
    match what {
        Taken::Whole => import.is_reexport || (!import.side_effect_only && import.uses_namespace),
        Taken::Default => !import.side_effect_only && !import.is_reexport && import.uses_default,
        Taken::Name(name) => !import.side_effect_only && !import.is_reexport
            && import.names.contains(name),
    }
}

/// Import `k` of module `i` resolves to file `j` and takes this of it.
pub open spec fn takes(
    r: ResolverView,
    modules: Seq<ModuleView>,
    i: int,
    k: int,
    j: int,
    what: Taken,
) -> bool {
    target_of(r, modules, i, k) == Some(j) && match import_at(modules, i, k) {
        Some(import) => gives(import, what),
        None => false,
    }
}

/// Some import of a marked module takes this of file `j`.
pub open spec fn taken_of(
    r: ResolverView,
    modules: Seq<ModuleView>,
    marks: Seq<bool>,
    j: int,
    what: Taken,
) -> bool {
    exists|i: int, k: int| marked(marks, i) && #[trigger] takes(r, modules, i, k, j, what)
}

impl ExportUsage {
    /// The usage records this.
    pub open spec fn has(&self, what: Taken) -> bool {
        match what {
            Taken::Whole => self.all,
            Taken::Default => self.default_used,
            Taken::Name(name) => texts(self.names@).contains(name),
        }
    }

    /// The usage of a module of which nothing is taken.
    pub fn nothing() -> (out: ExportUsage)
        ensures
            forall|what: Taken| !out.has(what),
    {
        let out = ExportUsage { all: false, default_used: false, names: Vec::new() };
        assert(texts(out.names@) =~= Seq::<Seq<char>>::empty());
        out
    }
}

/// `list` and what of `more` it lacks.
fn extend_unique(list: &mut Vec<String>, more: &Vec<String>)
    ensures
        forall|name: Seq<char>| #[trigger]
            texts(final(list)@).contains(name) <==> (texts(old(list)@).contains(name) || texts(
                more@,
            ).contains(name)),
{
    let ghost start = texts(list@);
    let mut i: usize = 0;
    while i < more.len()
        invariant
            i <= more.len(),
            forall|name: Seq<char>| #[trigger]
                texts(list@).contains(name) <==> (start.contains(name) || texts(more@).take(
                    i as int,
                ).contains(name)),
        decreases more.len() - i,
    {
        let ghost before = texts(list@);
        let ghost done = texts(more@).take(i as int);
        let ghost next = texts(more@).take(i + 1);
        push_unique(list, more[i].clone());
        proof {
            assert(next[i as int] == more@[i as int]@);
            assert forall|name: Seq<char>| #[trigger]
                texts(list@).contains(name) <==> (start.contains(name) || next.contains(name)) by {
                let now = with_text(before, more@[i as int]@);
                if before.contains(name) {
                    let x = choose|x: int| 0 <= x < before.len() && before[x] == name;
                    assert(now[x] == name);
                }
                if now.contains(name) && !before.contains(name) {
                    let x = choose|x: int| 0 <= x < now.len() && now[x] == name;
                    if x < before.len() {
                        assert(before[x] == name);
                    }
                    assert(name == more@[i as int]@);
                }
                if name == more@[i as int]@ {
                    if !before.contains(name) {
                        assert(now[before.len() as int] == name);
                    }
                    assert(next.contains(name));
                }
                if done.contains(name) {
                    let x = choose|x: int| 0 <= x < done.len() && done[x] == name;
                    assert(next[x] == name);
                }
                if next.contains(name) {
                    let x = choose|x: int| 0 <= x < next.len() && next[x] == name;
                    if x < i {
                        assert(done[x] == name);
                    }
                }
            }
        }
        i += 1;
    }
    assert(texts(more@).take(more@.len() as int) =~= texts(more@));
}

/// The usage after one more import of the module.
fn with_import(usage: &ExportUsage, names: &Vec<String>, side_effect_only: bool, is_reexport: bool, uses_namespace: bool, uses_default: bool) -> (out: ExportUsage)
    ensures
        forall|what: Taken| #[trigger]
            out.has(what) <==> (usage.has(what) || gives(
                ImportView {
                    specifier: Seq::empty(),
                    uses_default,
                    uses_namespace,
                    names: texts(names@),
                    side_effect_only,
                    is_reexport,
                },
                what,
            )),
{
    let plain = !side_effect_only && !is_reexport;
    let mut list = clone_texts(&usage.names);
    if plain {
        extend_unique(&mut list, names);
    }
    let out = ExportUsage {
        all: usage.all || is_reexport || (!side_effect_only && uses_namespace),
        default_used: usage.default_used || (plain && uses_default),
        names: list,
    };
    assert forall|what: Taken| #[trigger]
        out.has(what) <==> (usage.has(what) || gives(
            ImportView {
                specifier: Seq::empty(),
                uses_default,
                uses_namespace,
                names: texts(names@),
                side_effect_only,
                is_reexport,
            },
            what,
        )) by {
        match what {
            Taken::Name(name) => {
                assert(texts(out.names@).contains(name) <==> (texts(usage.names@).contains(name)
                    || (plain && texts(names@).contains(name))));
            },
            _ => {},
        }
    }
    out
}

/// What the reachable modules take of each file, in the order of the files.
pub fn collect_export_usage(reachable: &Vec<bool>, modules: &Vec<ModuleInfo>, resolver: &Resolver) -> (table:
    Vec<ExportUsage>)
    ensures
        table@.len() == resolver.files@.len(),
        forall|j: int, what: Taken|
            0 <= j < table@.len() ==> (#[trigger] table@[j].has(what) <==> taken_of(
                resolver@,
                module_views(modules@),
                reachable@,
                j,
                what,
            )),
{
    let ghost r = resolver@;
    let ghost ms = module_views(modules@);
    let n = resolver.files.len();
    let mut table: Vec<ExportUsage> = Vec::new();
    let mut j: usize = 0;
    while j < n
        invariant
            j <= n,
            table@.len() == j,
            forall|x: int, what: Taken| 0 <= x < j ==> !(#[trigger] table@[x].has(what)),
        decreases n - j,
    {
        let ghost before = table@;
        table.push(ExportUsage::nothing());
        assert forall|x: int, what: Taken| 0 <= x < j + 1 implies !(#[trigger] table@[x].has(
            what,
        )) by {
            if x < j {
                assert(table@[x] == before[x]);
            }
        }
        j += 1;
    }
    let sites = import_sites(reachable, modules);
    let mut s: usize = 0;
    while s < sites.len()
        invariant
            s <= sites@.len(),
            n == resolver.files@.len(),
            r == resolver@,
            ms == module_views(modules@),
            lists_sites(sites@, ms, reachable@),
            table@.len() == n,
            forall|x: int, what: Taken|
                0 <= x < n ==> (#[trigger] table@[x].has(what) <==> exists|y: int|
                    0 <= y < s && takes(
                        r,
                        ms,
                        (#[trigger] sites@[y]).module as int,
                        sites@[y].import as int,
                        x,
                        what,
                    )),
        decreases sites.len() - s,
    {
        let i = sites[s].module;
        let k = sites[s].import;
        assert(is_site(ms, reachable@, sites@[s as int].module as int, sites@[s as int].import as int));
        assert(ms[i as int] == modules@[i as int]@);
        assert(ms[i as int].imports[k as int] == modules@[i as int].imports@[k as int]@);
        let import = &modules[i].imports[k];
        let ghost before = table@;
        let ghost view = import@;
        let found = if i < n {
            assert(r.files[i as int] == resolver.files@[i as int]@);
            resolver.resolve_specifier(resolver.files[i].as_str(), import.specifier.as_str())
        } else {
            None
        };
        assert(match found {
            Some(at) => target_of(r, ms, i as int, k as int) == Some(at as int),
            None => target_of(r, ms, i as int, k as int) is None,
        });
        match found {
            Some(at) => {
                let entry = with_import(
                    &table[at],
                    &import.names,
                    import.side_effect_only,
                    import.is_reexport,
                    import.uses_namespace,
                    import.uses_default,
                );
                proof {
                    assert forall|what: Taken| #[trigger]
                        entry.has(what) <==> (before[at as int].has(what) || gives(view, what)) by {
                        let shown = ImportView {
                            specifier: Seq::empty(),
                            uses_default: import.uses_default,
                            uses_namespace: import.uses_namespace,
                            names: texts(import.names@),
                            side_effect_only: import.side_effect_only,
                            is_reexport: import.is_reexport,
                        };
                        assert(gives(shown, what) == gives(view, what));
                        assert(entry.has(what) <==> (before[at as int].has(what) || gives(
                            shown,
                            what,
                        )));
                    }
                }
                table.set(at, entry);
            },
            None => {},
        }
        proof {
            assert forall|x: int, what: Taken| 0 <= x < n implies (#[trigger] table@[x].has(what)
                <==> exists|y: int|
                0 <= y < s + 1 && takes(
                    r,
                    ms,
                    (#[trigger] sites@[y]).module as int,
                    sites@[y].import as int,
                    x,
                    what,
                )) by {
                let here = takes(r, ms, i as int, k as int, x, what);
                assert(table@[x].has(what) <==> (before[x].has(what) || here)) by {
                    match found {
                        Some(at) => {
                            if at == x {
                                assert(here == gives(view, what));
                            } else {
                                assert(table@[x] == before[x]);
                                assert(!here);
                            }
                        },
                        None => {
                            assert(!here);
                        },
                    }
                }
                if before[x].has(what) {
                    let y = choose|y: int|
                        0 <= y < s && takes(
                            r,
                            ms,
                            (#[trigger] sites@[y]).module as int,
                            sites@[y].import as int,
                            x,
                            what,
                        );
                    assert(0 <= y < s + 1 && takes(
                        r,
                        ms,
                        sites@[y].module as int,
                        sites@[y].import as int,
                        x,
                        what,
                    ));
                }
                if here {
                    assert(takes(
                        r,
                        ms,
                        sites@[s as int].module as int,
                        sites@[s as int].import as int,
                        x,
                        what,
                    ));
                }
                if exists|y: int|
                    0 <= y < s + 1 && takes(
                        r,
                        ms,
                        (#[trigger] sites@[y]).module as int,
                        sites@[y].import as int,
                        x,
                        what,
                    ) {
                    let y = choose|y: int|
                        0 <= y < s + 1 && takes(
                            r,
                            ms,
                            (#[trigger] sites@[y]).module as int,
                            sites@[y].import as int,
                            x,
                            what,
                        );
                    if y < s {
                        assert(before[x].has(what));
                    }
                }
            }
        }
        s += 1;
    }
    proof {
        assert forall|x: int, what: Taken| 0 <= x < table@.len() implies (#[trigger] table@[x].has(
            what,
        ) <==> taken_of(r, ms, reachable@, x, what)) by {
            if table@[x].has(what) {
                let y = choose|y: int|
                    0 <= y < sites@.len() && takes(
                        r,
                        ms,
                        (#[trigger] sites@[y]).module as int,
                        sites@[y].import as int,
                        x,
                        what,
                    );
                assert(is_site(ms, reachable@, sites@[y].module as int, sites@[y].import as int));
            }
            if taken_of(r, ms, reachable@, x, what) {
                let (i, k) = choose|i: int, k: int|
                    marked(reachable@, i) && #[trigger] takes(r, ms, i, k, x, what);
                assert(is_site(ms, reachable@, i, k));
                assert(has_site(sites@, i, k));
                let y = choose|y: int|
                    0 <= y < sites@.len() && (#[trigger] sites@[y]).module == i && sites@[y].import
                        == k;
                assert(takes(r, ms, sites@[y].module as int, sites@[y].import as int, x, what));
            }
        }
    }
    table
}

} // verus!
