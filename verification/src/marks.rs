//! Sets of files as one mark per file, in the order of the file list.

use vstd::prelude::*;

verus! {

/// `n` marks, none set.
pub fn unmarked(n: usize) -> (out: Vec<bool>)
    ensures
        out@.len() == n,
        forall|i: int| 0 <= i < n ==> !out@[i],
{
    let mut out: Vec<bool> = Vec::new();
    let mut i: usize = 0;
    while i < n
        invariant
            i <= n,
            out@.len() == i,
            forall|k: int| 0 <= k < i ==> !out@[k],
        decreases n - i,
    {
        out.push(false);
        i += 1;
    }
    out
}

/// `i` is marked.
pub open spec fn marked(marks: Seq<bool>, i: int) -> bool {
    0 <= i < marks.len() && marks[i]
}

/// How many of the first `n` marks are not set.
pub open spec fn unset_to(marks: Seq<bool>, n: int) -> nat
    decreases n,
{
    if n <= 0 || n > marks.len() {
        0
    } else if marks[n - 1] {
        unset_to(marks, n - 1)
    } else {
        unset_to(marks, n - 1) + 1
    }
}

/// How many marks are not set.
pub open spec fn unset(marks: Seq<bool>) -> nat {
    unset_to(marks, marks.len() as int)
}

pub proof fn lemma_unset_update(marks: Seq<bool>, at: int, n: int)
    requires
        0 <= at < marks.len(),
        !marks[at],
        0 <= n <= marks.len(),
    ensures
        unset_to(marks.update(at, true), n) == unset_to(marks, n) - (if at < n {
            1int
        } else {
            0int
        }),
    decreases n,
{
    if n > 0 {
        lemma_unset_update(marks, at, n - 1);
    }
}

/// How many of the first `n` marks are set.
pub open spec fn set_to(marks: Seq<bool>, n: int) -> nat
    decreases n,
{
    if n <= 0 || n > marks.len() {
        0
    } else if marks[n - 1] {
        set_to(marks, n - 1) + 1
    } else {
        set_to(marks, n - 1)
    }
}

/// How many marks are set.
pub fn count_marked(marks: &Vec<bool>) -> (count: usize)
    ensures
        count == set_to(marks@, marks@.len() as int),
{
    let mut count: usize = 0;
    let mut i: usize = 0;
    while i < marks.len()
        invariant
            i <= marks.len(),
            count == set_to(marks@, i as int),
            count <= i,
        decreases marks.len() - i,
    {
        if marks[i] {
            count += 1;
        }
        i += 1;
    }
    count
}

/// `i` is one of the indices.
pub open spec fn holds(indices: Seq<usize>, i: int) -> bool {
    exists|k: int| 0 <= k < indices.len() && #[trigger] indices[k] as int == i
}

/// The indices are the marked ones, each once, ascending.
pub open spec fn lists_marked(indices: Seq<usize>, marks: Seq<bool>) -> bool {
    &&& forall|a: int, b: int| 0 <= a < b < indices.len() ==> indices[a] < indices[b]
    &&& forall|k: int| 0 <= k < indices.len() ==> marked(marks, #[trigger] indices[k] as int)
    &&& forall|i: int| marked(marks, i) ==> holds(indices, i)
}

/// The indices of those of the first `n` marks that are set, ascending.
pub open spec fn set_indices_to(marks: Seq<bool>, n: int) -> Seq<usize>
    decreases n,
{
    if n <= 0 || n > marks.len() {
        Seq::empty()
    } else if marks[n - 1] {
        set_indices_to(marks, n - 1).push((n - 1) as usize)
    } else {
        set_indices_to(marks, n - 1)
    }
}

/// The indices of the marks that are set, ascending.
pub open spec fn set_indices(marks: Seq<bool>) -> Seq<usize> {
    set_indices_to(marks, marks.len() as int)
}

/// The indices of the marks that are set, ascending.
pub fn marked_indices(marks: &Vec<bool>) -> (out: Vec<usize>)
    ensures
        out@ == set_indices(marks@),
        lists_marked(out@, marks@),
{
    let mut out: Vec<usize> = Vec::new();
    let mut i: usize = 0;
    while i < marks.len()
        invariant
            i <= marks.len(),
            out@ == set_indices_to(marks@, i as int),
            forall|a: int, b: int| 0 <= a < b < out@.len() ==> out@[a] < out@[b],
            forall|k: int| 0 <= k < out@.len() ==> out@[k] < i && marks@[#[trigger] out@[k] as int],
            forall|j: int| 0 <= j < i && marks@[j] ==> holds(out@, j),
        decreases marks.len() - i,
    {
        if marks[i] {
            let ghost before = out@;
            out.push(i);
            assert forall|j: int| 0 <= j < i + 1 && marks@[j] implies holds(out@, j) by {
                if j < i {
                    let k = choose|k: int| 0 <= k < before.len() && #[trigger] before[k] as int == j;
                    assert(out@[k] as int == j);
                } else {
                    assert(out@[before.len() as int] == i);
                }
            }
        }
        i += 1;
    }
    out
}

/// Two lists of the marked indices are the same list.
pub proof fn lemma_lists_marked_unique(a: Seq<usize>, b: Seq<usize>, marks: Seq<bool>)
    requires
        lists_marked(a, marks),
        lists_marked(b, marks),
    ensures
        a == b,
    decreases a.len(),
{
    if a.len() == 0 {
        if b.len() > 0 {
            assert(marked(marks, b[0] as int));
            assert(holds(a, b[0] as int));
        }
        assert(a =~= b);
    } else {
        let last = a.last();
        assert(marked(marks, a[a.len() - 1] as int));
        assert(holds(b, last as int));
        let j = choose|j: int| 0 <= j < b.len() && #[trigger] b[j] as int == last as int;
        if j < b.len() - 1 {
            let other = b[b.len() - 1];
            assert(marked(marks, b[b.len() - 1] as int));
            assert(holds(a, other as int));
            let k = choose|k: int| 0 <= k < a.len() && #[trigger] a[k] as int == other as int;
            assert(b[j] < b[b.len() - 1]);
            if k < a.len() - 1 {
                assert(a[k] < a[a.len() - 1]);
            }
            assert(false);
        }
        let cut = marks.update(last as int, false);
        let ar = a.drop_last();
        let br = b.drop_last();
        assert forall|i: int| marked(cut, i) implies holds(ar, i) by {
            assert(marked(marks, i));
            let k = choose|k: int| 0 <= k < a.len() && #[trigger] a[k] as int == i;
            assert(ar[k] as int == i);
        }
        assert forall|i: int| marked(cut, i) implies holds(br, i) by {
            assert(marked(marks, i));
            let k = choose|k: int| 0 <= k < b.len() && #[trigger] b[k] as int == i;
            assert(br[k] as int == i);
        }
        assert forall|k: int| 0 <= k < ar.len() implies marked(cut, #[trigger] ar[k] as int) by {
            assert(a[k] < a[a.len() - 1]);
            assert(marked(marks, a[k] as int));
        }
        assert forall|k: int| 0 <= k < br.len() implies marked(cut, #[trigger] br[k] as int) by {
            assert(b[k] < b[b.len() - 1]);
            assert(marked(marks, b[k] as int));
        }
        assert forall|x: int, y: int| 0 <= x < y < ar.len() implies ar[x] < ar[y] by {
            assert(a[x] < a[y]);
        }
        assert forall|x: int, y: int| 0 <= x < y < br.len() implies br[x] < br[y] by {
            assert(b[x] < b[y]);
        }
        lemma_lists_marked_unique(ar, br, cut);
        assert(a =~= ar.push(last));
        assert(b =~= br.push(last));
    }
}

} // verus!
