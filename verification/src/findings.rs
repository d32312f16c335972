//! Which exports of which modules nothing uses.

use crate::marks::{holds, marked, set_to, unmarked};
use crate::order::{
    inserted_pair, pair_less, pair_slot_from, precedes_str, sorted_pairs, sorted_pairs_to,
};
use crate::parser::{module_views, ModuleInfo, ModuleView};
use crate::paths::{
    declaration_file, has_text, is_declaration_file, is_test_like_file, relative, relative_display,
    test_like,
};
use crate::text::texts;
use crate::tokens::{
    appears_elsewhere, count_of, export_appears_in_other_project_files,
    export_appears_in_other_reachable_files, TokenCount,
};
use crate::usage::{ExportUsage, Taken};
use vstd::prelude::*;

verus! {

/// An export that nothing uses: the file as reports show it, and the name
/// of the export, `default` for the default export.
pub struct UnusedExport {
    pub file: String,
    pub export: String,
}

/// A list of exports as pairs of file and name.
pub open spec fn export_pairs(v: Seq<UnusedExport>) -> Seq<(Seq<char>, Seq<char>)> {
    Seq::new(v.len(), |i: int| (v[i].file@, v[i].export@))
}

fn export_precedes(a: &UnusedExport, b: &UnusedExport) -> (r: bool)
    ensures
        r == pair_less((a.file@, a.export@), (b.file@, b.export@)),
{
    if precedes_str(a.file.as_str(), b.file.as_str()) {
        true
    } else if a.file == b.file {
        precedes_str(a.export.as_str(), b.export.as_str())
    } else {
        false
    }
}

/// Puts an export where it belongs in a list ordered by file, then by name,
/// unless the list holds it already.
pub fn insert_export(list: &mut Vec<UnusedExport>, item: UnusedExport)
    ensures
        export_pairs(final(list)@) == inserted_pair(
            export_pairs(old(list)@),
            (item.file@, item.export@),
        ),
{
    let ghost before = export_pairs(list@);
    let ghost p = (item.file@, item.export@);
    let mut k: usize = 0;
    while k < list.len() && export_precedes(&list[k], &item)
        invariant
            k <= list.len(),
            export_pairs(list@) == before,
            p == (item.file@, item.export@),
            pair_slot_from(before, p, 0) == pair_slot_from(before, p, k as int),
        decreases list.len() - k,
    {
        assert(before[k as int] == (list@[k as int].file@, list@[k as int].export@));
        k += 1;
    }
    if k < list.len() {
        assert(before[k as int] == (list@[k as int].file@, list@[k as int].export@));
        if list[k].file == item.file && list[k].export == item.export {
            return ;
        }
    }
    list.insert(k, item);
    assert(export_pairs(list@) =~= before.insert(k as int, p));
}

/// The exports ordered by file, then by name, each once.
pub fn sort_exports(list: &Vec<UnusedExport>) -> (out: Vec<UnusedExport>)
    ensures
        export_pairs(out@) == sorted_pairs(export_pairs(list@)),
{
    let ghost pairs = export_pairs(list@);
    let mut out: Vec<UnusedExport> = Vec::new();
    let mut n: usize = 0;
    assert(export_pairs(out@) =~= sorted_pairs_to(pairs, 0));
    while n < list.len()
        invariant
            n <= list.len(),
            pairs == export_pairs(list@),
            export_pairs(out@) == sorted_pairs_to(pairs, n as int),
        decreases list.len() - n,
    {
        let item = UnusedExport { file: list[n].file.clone(), export: list[n].export.clone() };
        assert(pairs[n as int] == (item.file@, item.export@));
        insert_export(&mut out, item);
        n += 1;
    }
    out
}

/// What is known of a project when its exports are judged.
pub struct Evidence {
    pub root: Seq<char>,
    pub files: Seq<Seq<char>>,
    pub modules: Seq<ModuleView>,
    pub entries: Seq<usize>,
    pub reachable: Seq<bool>,
    pub maybe_used: Seq<bool>,
    pub usage: Seq<ExportUsage>,
    pub reachable_counts: Seq<TokenCount>,
    pub project_counts: Seq<TokenCount>,
}

impl Evidence {
    /// The exports of module `j` are judged at all: it is reachable, no entry,
    /// no test and no declaration stub, and no unresolved import may have meant it.
    pub open spec fn judged(self, j: int) -> bool {
        &&& 0 <= j < self.modules.len()
        &&& j < self.files.len()
        &&& marked(self.reachable, j)
        &&& !marked(self.maybe_used, j)
        &&& !holds(self.entries, j)
        &&& !test_like(self.files[j])
        &&& !declaration_file(self.files[j])
    }

    /// This is taken of module `j`.
    pub open spec fn uses(self, j: int, what: Taken) -> bool {
        0 <= j < self.usage.len() && self.usage[j].has(what)
    }

    /// The exports of module `j` are judged one by one: it is judged, and not
    /// taken as a whole.
    pub open spec fn examined(self, j: int) -> bool {
        self.judged(j) && !self.uses(j, Taken::Whole)
    }

    /// The name stands as a token in a file other than `j`, reachable or not:
    /// a finding for it is withheld.
    pub open spec fn suppressed(self, j: int, name: Seq<char>) -> bool {
        ||| appears_elsewhere(
            name,
            count_of(self.reachable_counts, name),
            set_to(self.reachable, self.reachable.len() as int),
            marked(self.reachable, j),
        )
        ||| appears_elsewhere(
            name,
            count_of(self.project_counts, name),
            self.files.len(),
            0 <= j < self.files.len(),
        )
    }

    /// File `j` as reports show it.
    pub open spec fn shown(self, j: int) -> Seq<char> {
        relative(self.root, self.files[j])
    }

    /// The findings among the first `n` named exports of module `j`: those
    /// that are not suppressed and that nothing takes by name.
    pub open spec fn named_unused(self, j: int, n: int) -> Seq<(Seq<char>, Seq<char>)>
        decreases n,
    {
        if n <= 0 || n > self.modules[j].exports.len() {
            Seq::empty()
        } else {
            let name = self.modules[j].exports[n - 1];
            if !self.suppressed(j, name) && !self.uses(j, Taken::Name(name)) {
                self.named_unused(j, n - 1).push((self.shown(j), name))
            } else {
                self.named_unused(j, n - 1)
            }
        }
    }

    /// Those of the first `n` named exports of module `j` that are suppressed.
    pub open spec fn named_suppressed(self, j: int, n: int) -> Seq<(Seq<char>, Seq<char>)>
        decreases n,
    {
        if n <= 0 || n > self.modules[j].exports.len() {
            Seq::empty()
        } else {
            let name = self.modules[j].exports[n - 1];
            if self.suppressed(j, name) {
                self.named_suppressed(j, n - 1).push((self.shown(j), name))
            } else {
                self.named_suppressed(j, n - 1)
            }
        }
    }

    /// The default export of module `j` is a finding.
    pub open spec fn default_unused(self, j: int) -> bool {
        self.examined(j) && self.modules[j].has_default_export && !self.uses(j, Taken::Default)
    }

    /// The findings of module `j`: its unused named exports, then its default
    /// export if nothing takes it.
    pub open spec fn module_unused(self, j: int) -> Seq<(Seq<char>, Seq<char>)> {
        if self.examined(j) {
            self.named_unused(j, self.modules[j].exports.len() as int) + if self.default_unused(j) {
                seq![(self.shown(j), "default"@)]
            } else {
                Seq::empty()
            }
        } else {
            Seq::empty()
        }
    }

    /// The findings of the first `m` modules, in the order of the modules.
    pub open spec fn unused_to(self, m: int) -> Seq<(Seq<char>, Seq<char>)>
        decreases m,
    {
        if m <= 0 || m > self.modules.len() {
            Seq::empty()
        } else {
            self.unused_to(m - 1) + self.module_unused(m - 1)
        }
    }

    /// The suppressed exports of the first `m` modules.
    pub open spec fn suppressed_to(self, m: int) -> Seq<(Seq<char>, Seq<char>)>
        decreases m,
    {
        if m <= 0 || m > self.modules.len() {
            Seq::empty()
        } else if self.examined(m - 1) {
            self.suppressed_to(m - 1) + self.named_suppressed(
                m - 1,
                self.modules[m - 1].exports.len() as int,
            )
        } else {
            self.suppressed_to(m - 1)
        }
    }

    /// Module `j` hands on all of another module, and is not taken as a whole
    /// itself: what of it is used cannot be told.
    pub open spec fn forwards_all(self, j: int) -> bool {
        self.examined(j) && self.modules[j].has_export_all
    }

    /// Those of the first `m` modules that do so, as reports show them.
    pub open spec fn forwarding_to(self, m: int) -> Seq<Seq<char>>
        decreases m,
    {
        if m <= 0 || m > self.modules.len() {
            Seq::empty()
        } else if self.forwards_all(m - 1) {
            self.forwarding_to(m - 1).push(self.shown(m - 1))
        } else {
            self.forwarding_to(m - 1)
        }
    }
}

/// What judging the exports of a project gives.
pub struct ExportFindings {
    /// The exports that nothing uses, ordered by file, then by name.
    pub unused: Vec<UnusedExport>,
    /// The exports whose finding was withheld, in the order of the modules.
    pub suppressed: Vec<UnusedExport>,
    /// The modules that hand on all of another module and are not taken as
    /// a whole, in the order of the modules.
    pub forwarding: Vec<String>,
}

/// One mark for each of `n` files: set where the file is among `indices`.
pub fn marks_of(indices: &Vec<usize>, n: usize) -> (out: Vec<bool>)
    ensures
        out@.len() == n,
        forall|j: int| 0 <= j < n ==> (#[trigger] out@[j] <==> holds(indices@, j)),
{
    let mut out = unmarked(n);
    let mut k: usize = 0;
    while k < indices.len()
        invariant
            k <= indices.len(),
            out@.len() == n,
            forall|j: int| 0 <= j < n ==> (#[trigger] out@[j] <==> holds(indices@.take(k as int), j)),
        decreases indices.len() - k,
    {
        let ghost before = out@;
        let ghost done = indices@.take(k as int);
        let ghost next = indices@.take(k + 1);
        let at = indices[k];
        if at < n {
            out.set(at, true);
        }
        proof {
            assert(next[k as int] == at);
            assert forall|j: int| 0 <= j < n implies (#[trigger] out@[j] <==> holds(next, j)) by {
                assert(before[j] <==> holds(done, j));
                if holds(done, j) {
                    let x = choose|x: int| 0 <= x < done.len() && #[trigger] done[x] as int == j;
                    assert(next[x] as int == j);
                }
                if holds(next, j) {
                    let x = choose|x: int| 0 <= x < next.len() && #[trigger] next[x] as int == j;
                    if x < k {
                        assert(done[x] as int == j);
                    }
                }
                if at as int == j {
                    assert(next[k as int] as int == j);
                }
            }
        }
        k += 1;
    }
    assert(indices@.take(indices@.len() as int) =~= indices@);
    out
}

/// What is known of a project, from its parts.
pub open spec fn evidence(
    root: Seq<char>,
    files: Seq<Seq<char>>,
    modules: Seq<ModuleView>,
    entries: Seq<usize>,
    reachable: Seq<bool>,
    maybe_used: Seq<bool>,
    usage: Seq<ExportUsage>,
    reachable_counts: Seq<TokenCount>,
    project_counts: Seq<TokenCount>,
) -> Evidence {
    Evidence {
        root,
        files,
        modules,
        entries,
        reachable,
        maybe_used,
        usage,
        reachable_counts,
        project_counts,
    }
}

/// Judges the exports of every module.
///
/// `entries` holds the indices of the entry files; `reachable` and
/// `maybe_used` hold one mark for each file; `usage` says what is taken of
/// each file, and the two tables in how many reachable files, and in how many
/// files at all, each token stands.
pub fn judge_exports(
    root: &str,
    files: &Vec<String>,
    modules: &Vec<ModuleInfo>,
    entries: &Vec<usize>,
    reachable: &Vec<bool>,
    maybe_used: &Vec<bool>,
    usage: &Vec<ExportUsage>,
    reachable_counts: &Vec<TokenCount>,
    project_counts: &Vec<TokenCount>,
) -> (out: ExportFindings)
    ensures
        ({
            let ev = evidence(
                root@,
                texts(files@),
                module_views(modules@),
                entries@,
                reachable@,
                maybe_used@,
                usage@,
                reachable_counts@,
                project_counts@,
            );
            &&& export_pairs(out.unused@) == sorted_pairs(ev.unused_to(modules@.len() as int))
            &&& export_pairs(out.suppressed@) == ev.suppressed_to(modules@.len() as int)
            &&& texts(out.forwarding@) == ev.forwarding_to(modules@.len() as int)
        }),
{
    let ghost ev = evidence(
        root@,
        texts(files@),
        module_views(modules@),
        entries@,
        reachable@,
        maybe_used@,
        usage@,
        reachable_counts@,
        project_counts@,
    );
    let entry_marks = marks_of(entries, files.len());
    let mut found: Vec<UnusedExport> = Vec::new();
    let mut suppressed: Vec<UnusedExport> = Vec::new();
    let mut manual: Vec<String> = Vec::new();
    let mut j: usize = 0;
    assert(export_pairs(found@) =~= ev.unused_to(0));
    assert(export_pairs(suppressed@) =~= ev.suppressed_to(0));
    assert(texts(manual@) =~= ev.forwarding_to(0));
    while j < modules.len()
        invariant
            j <= modules@.len(),
            ev == evidence(
                root@,
                texts(files@),
                module_views(modules@),
                entries@,
                reachable@,
                maybe_used@,
                usage@,
                reachable_counts@,
                project_counts@,
            ),
            entry_marks@.len() == files@.len(),
            forall|x: int|
                0 <= x < files@.len() ==> (#[trigger] entry_marks@[x] <==> holds(entries@, x)),
            export_pairs(found@) == ev.unused_to(j as int),
            export_pairs(suppressed@) == ev.suppressed_to(j as int),
            texts(manual@) == ev.forwarding_to(j as int),
        decreases modules.len() - j,
    {
        let ghost found0 = export_pairs(found@);
        let ghost sup0 = export_pairs(suppressed@);
        let ghost man0 = texts(manual@);
        assert(ev.modules[j as int] == modules@[j as int]@);
        let module = &modules[j];
        let mut judged = false;
        if j < files.len() {
            assert(ev.files[j as int] == files@[j as int]@);
            let file = files[j].as_str();
            judged = j < reachable.len() && reachable[j] && !(j < maybe_used.len() && maybe_used[j])
                && !entry_marks[j] && !is_test_like_file(file) && !is_declaration_file(file);
        }
        assert(judged == ev.judged(j as int));
        let whole = j < usage.len() && usage[j].all;
        assert(whole == ev.uses(j as int, Taken::Whole));
        if judged && !whole {
            let shown = relative_display(root, files[j].as_str());
            let mut n: usize = 0;
            assert(export_pairs(found@) =~= found0 + ev.named_unused(j as int, 0));
            assert(export_pairs(suppressed@) =~= sup0 + ev.named_suppressed(j as int, 0));
            while n < module.exports.len()
                invariant
                    n <= module.exports@.len(),
                    j < modules@.len(),
                    j < files@.len(),
                    *module == modules@[j as int],
                    ev.modules[j as int] == modules@[j as int]@,
                    ev == evidence(
                        root@,
                        texts(files@),
                        module_views(modules@),
                        entries@,
                        reachable@,
                        maybe_used@,
                        usage@,
                        reachable_counts@,
                        project_counts@,
                    ),
                    shown@ == ev.shown(j as int),
                    export_pairs(found@) == found0 + ev.named_unused(j as int, n as int),
                    export_pairs(suppressed@) == sup0 + ev.named_suppressed(j as int, n as int),
                decreases module.exports.len() - n,
            {
                let ghost f1 = export_pairs(found@);
                let ghost s1 = export_pairs(suppressed@);
                let name = &module.exports[n];
                assert(ev.modules[j as int].exports[n as int] == name@);
                let hidden = export_appears_in_other_reachable_files(
                    reachable_counts,
                    name.as_str(),
                    reachable,
                    j,
                ) || export_appears_in_other_project_files(project_counts, name.as_str(), files, j);
                assert(texts(files@).len() == files@.len());
                assert(hidden == ev.suppressed(j as int, name@));
                if hidden {
                    let item = UnusedExport { file: shown.clone(), export: name.clone() };
                    suppressed.push(item);
                    assert(export_pairs(suppressed@) =~= s1.push((shown@, name@)));
                    assert(sup0 + ev.named_suppressed(j as int, n + 1) =~= (sup0
                        + ev.named_suppressed(j as int, n as int)).push((shown@, name@)));
                } else {
                    let by_name = j < usage.len() && has_text(&usage[j].names, name);
                    assert(by_name == ev.uses(j as int, Taken::Name(name@)));
                    if !by_name {
                        let item = UnusedExport { file: shown.clone(), export: name.clone() };
                        found.push(item);
                        assert(export_pairs(found@) =~= f1.push((shown@, name@)));
                        assert(found0 + ev.named_unused(j as int, n + 1) =~= (found0
                            + ev.named_unused(j as int, n as int)).push((shown@, name@)));
                    }
                }
                n += 1;
            }
            let by_default = j < usage.len() && usage[j].default_used;
            assert(by_default == ev.uses(j as int, Taken::Default));
            let ghost f2 = export_pairs(found@);
            if module.has_default_export && !by_default {
                let item = UnusedExport { file: shown.clone(), export: String::from_str("default") };
                found.push(item);
                assert(export_pairs(found@) =~= f2.push((shown@, "default"@)));
            }
            assert(export_pairs(found@) =~= found0 + ev.module_unused(j as int));
            if module.has_export_all {
                manual.push(shown);
                assert(texts(manual@) =~= man0.push(ev.shown(j as int)));
            }
        } else {
            assert(found0 + ev.module_unused(j as int) =~= found0);
        }
        j += 1;
    }
    ExportFindings { unused: sort_exports(&found), suppressed, forwarding: manual }
}

} // verus!
