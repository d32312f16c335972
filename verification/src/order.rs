//! The order of texts, and lists kept ascending without repeats.

use crate::paths::lemma_position;
use crate::text::{less, less_from, precedes, texts, to_chars};
use vstd::prelude::*;

verus! {

pub proof fn lemma_less_asymmetric(a: Seq<char>, b: Seq<char>, i: int)
    requires
        0 <= i,
    ensures
        !(less_from(a, b, i) && less_from(b, a, i)),
    decreases a.len() - i,
{
    if i < a.len() && i < b.len() && a[i] == b[i] {
        lemma_less_asymmetric(a, b, i + 1);
    }
}

pub proof fn lemma_less_total(a: Seq<char>, b: Seq<char>, i: int)
    requires
        0 <= i <= a.len(),
        i <= b.len(),
        a.take(i) == b.take(i),
    ensures
        less_from(a, b, i) || less_from(b, a, i) || a == b,
    decreases a.len() - i,
{
    if i >= b.len() {
        if i >= a.len() {
            assert(a.take(i) =~= a);
            assert(b.take(i) =~= b);
        }
    } else if i >= a.len() {
    } else if a[i] != b[i] {
    } else {
        assert(a.take(i + 1) =~= a.take(i).push(a[i]));
        assert(b.take(i + 1) =~= b.take(i).push(b[i]));
        lemma_less_total(a, b, i + 1);
    }
}

pub proof fn lemma_less_transitive(a: Seq<char>, b: Seq<char>, c: Seq<char>, i: int)
    requires
        0 <= i,
        less_from(a, b, i),
        less_from(b, c, i),
    ensures
        less_from(a, c, i),
    decreases a.len() - i,
{
    if i < a.len() && i < b.len() && i < c.len() && a[i] == b[i] && b[i] == c[i] {
        lemma_less_transitive(a, b, c, i + 1);
    }
}

/// `less` is a strict total order on texts.
pub proof fn lemma_less_is_strict_total_order(a: Seq<char>, b: Seq<char>, c: Seq<char>)
    ensures
        !less(a, a),
        !(less(a, b) && less(b, a)),
        less(a, b) || less(b, a) || a == b,
        less(a, b) && less(b, c) ==> less(a, c),
{
    lemma_less_asymmetric(a, a, 0);
    lemma_less_asymmetric(a, b, 0);
    assert(a.take(0) =~= b.take(0));
    lemma_less_total(a, b, 0);
    if less(a, b) && less(b, c) {
        lemma_less_transitive(a, b, c, 0);
    }
}

/// Every entry comes strictly before the ones after it.
pub open spec fn ascending(list: Seq<Seq<char>>) -> bool {
    forall|i: int, j: int| 0 <= i < j < list.len() ==> less(#[trigger] list[i], #[trigger] list[j])
}

/// The first index at or after `i` whose entry does not come before `s`.
pub open spec fn slot_from(list: Seq<Seq<char>>, s: Seq<char>, i: int) -> int
    decreases list.len() - i,
{
    if 0 <= i < list.len() && less(list[i], s) {
        slot_from(list, s, i + 1)
    } else {
        i
    }
}

/// `list` with `s` put before the first entry that does not come before it,
/// unless that entry is `s` already.
pub open spec fn inserted(list: Seq<Seq<char>>, s: Seq<char>) -> Seq<Seq<char>> {
    let k = slot_from(list, s, 0);
    if 0 <= k < list.len() && list[k] == s {
        list
    } else if 0 <= k <= list.len() {
        list.insert(k, s)
    } else {
        list
    }
}

pub proof fn lemma_slot_from(list: Seq<Seq<char>>, s: Seq<char>, i: int)
    requires
        0 <= i <= list.len(),
    ensures
        i <= slot_from(list, s, i) <= list.len(),
        forall|k: int| i <= k < slot_from(list, s, i) ==> less(#[trigger] list[k], s),
        slot_from(list, s, i) < list.len() ==> !less(list[slot_from(list, s, i)], s),
    decreases list.len() - i,
{
    if i < list.len() && less(list[i], s) {
        lemma_slot_from(list, s, i + 1);
    }
}

/// Inserting into an ascending list keeps it ascending and adds exactly `s`.
pub proof fn lemma_inserted(list: Seq<Seq<char>>, s: Seq<char>)
    requires
        ascending(list),
    ensures
        ascending(inserted(list, s)),
        forall|x: Seq<char>| inserted(list, s).contains(x) <==> (list.contains(x) || x == s),
{
    let k = slot_from(list, s, 0);
    lemma_slot_from(list, s, 0);
    let out = inserted(list, s);
    if k < list.len() && list[k] == s {
        assert forall|x: Seq<char>| out.contains(x) <==> (list.contains(x) || x == s) by {
            if x == s {
                assert(list[k] == x);
            }
        }
    } else {
        assert(out == list.insert(k, s));
        assert forall|i: int, j: int| 0 <= i < j < out.len() implies less(
            #[trigger] out[i],
            #[trigger] out[j],
        ) by {
            if j < k {
                assert(out[i] == list[i] && out[j] == list[j]);
            } else if j == k {
                assert(out[i] == list[i]);
            } else if i < k {
                assert(out[i] == list[i] && out[j] == list[j - 1]);
                if j - 1 == k {
                } else {
                    assert(less(list[i], list[j - 1]));
                }
                if i == j - 1 {
                    assert(false);
                }
            } else if i == k {
                assert(out[j] == list[j - 1]);
                lemma_less_is_strict_total_order(list[k], s, s);
                assert(less(s, list[k]));
                if j - 1 > k {
                    assert(less(list[k], list[j - 1]));
                    lemma_less_is_strict_total_order(s, list[k], list[j - 1]);
                }
            } else {
                assert(out[i] == list[i - 1] && out[j] == list[j - 1]);
            }
        }
        assert forall|x: Seq<char>| out.contains(x) <==> (list.contains(x) || x == s) by {
            if out.contains(x) {
                let i = choose|i: int| 0 <= i < out.len() && out[i] == x;
                if i < k {
                    assert(list[i] == x);
                } else if i > k {
                    assert(list[i - 1] == x);
                }
            }
            if list.contains(x) {
                let i = choose|i: int| 0 <= i < list.len() && list[i] == x;
                if i < k {
                    assert(out[i] == x);
                } else {
                    assert(out[i + 1] == x);
                }
            }
            if x == s {
                assert(out[k] == x);
            }
        }
    }
}

/// Whether `a` comes before `b` in the order of `str`.
pub fn precedes_str(a: &str, b: &str) -> (r: bool)
    ensures
        r == less(a@, b@),
{
    let x = to_chars(a);
    let y = to_chars(b);
    precedes(&x, &y)
}

/// Puts a text where it belongs in an ascending list, unless the list
/// holds it already.
pub fn insert_sorted(list: &mut Vec<String>, s: String)
    ensures
        texts(final(list)@) == inserted(texts(old(list)@), s@),
{
    let ghost before = texts(list@);
    let mut k: usize = 0;
    while k < list.len() && precedes_str(list[k].as_str(), s.as_str())
        invariant
            k <= list.len(),
            texts(list@) == before,
            slot_from(before, s@, 0) == slot_from(before, s@, k as int),
        decreases list.len() - k,
    {
        k += 1;
    }
    if k < list.len() && list[k] == s {
        return ;
    }
    list.insert(k, s);
    assert(texts(list@) =~= before.insert(k as int, s@));
}

/// The first `n` entries of `list`, ascending and without repeats.
pub open spec fn sorted_to(list: Seq<Seq<char>>, n: int) -> Seq<Seq<char>>
    decreases n,
{
    if n <= 0 || n > list.len() {
        Seq::empty()
    } else {
        inserted(sorted_to(list, n - 1), list[n - 1])
    }
}

/// The entries of `list`, ascending and without repeats.
pub open spec fn sorted(list: Seq<Seq<char>>) -> Seq<Seq<char>> {
    sorted_to(list, list.len() as int)
}

pub proof fn lemma_sorted_to(list: Seq<Seq<char>>, n: int)
    requires
        0 <= n <= list.len(),
    ensures
        ascending(sorted_to(list, n)),
        forall|x: Seq<char>| sorted_to(list, n).contains(x) <==> list.take(n).contains(x),
    decreases n,
{
    if n > 0 {
        lemma_sorted_to(list, n - 1);
        lemma_inserted(sorted_to(list, n - 1), list[n - 1]);
        assert forall|x: Seq<char>| sorted_to(list, n).contains(x) <==> list.take(n).contains(
            x,
        ) by {
            let now = list.take(n);
            let prior = list.take(n - 1);
            let rest = sorted_to(list, n - 1);
            assert(sorted_to(list, n) == inserted(rest, list[n - 1]));
            assert(inserted(rest, list[n - 1]).contains(x) <==> (rest.contains(x) || x == list[n
                - 1]));
            assert(rest.contains(x) <==> prior.contains(x));
            if now.contains(x) {
                let i = choose|i: int| 0 <= i < now.len() && now[i] == x;
                if i < n - 1 {
                    assert(prior[i] == x);
                }
            }
            if prior.contains(x) {
                let i = choose|i: int| 0 <= i < prior.len() && prior[i] == x;
                assert(now[i] == x);
            }
            assert(now[n - 1] == list[n - 1]);
        }
    } else {
        assert(list.take(0) =~= Seq::empty());
    }
}

/// `sorted` is ascending and holds exactly the entries of the list.
pub proof fn lemma_sorted(list: Seq<Seq<char>>)
    ensures
        ascending(sorted(list)),
        forall|x: Seq<char>| sorted(list).contains(x) <==> list.contains(x),
{
    lemma_sorted_to(list, list.len() as int);
    assert(list.take(list.len() as int) =~= list);
}

/// The texts ascending, each once.
pub fn sort_texts(list: &Vec<String>) -> (out: Vec<String>)
    ensures
        texts(out@) == sorted(texts(list@)),
{
    let mut out: Vec<String> = Vec::new();
    let mut i: usize = 0;
    assert(texts(out@) =~= sorted_to(texts(list@), 0));
    while i < list.len()
        invariant
            i <= list.len(),
            texts(out@) == sorted_to(texts(list@), i as int),
        decreases list.len() - i,
    {
        insert_sorted(&mut out, list[i].clone());
        i += 1;
    }
    out
}

/// The entries of `list` without repeats, each where it first stood, up to `n`.
pub open spec fn distinct_to(list: Seq<Seq<char>>, n: int) -> Seq<Seq<char>>
    decreases n,
{
    if n <= 0 || n > list.len() {
        Seq::empty()
    } else {
        let before = distinct_to(list, n - 1);
        if before.contains(list[n - 1]) {
            before
        } else {
            before.push(list[n - 1])
        }
    }
}

/// The entries of `list` without repeats, each where it first stood.
pub open spec fn distinct(list: Seq<Seq<char>>) -> Seq<Seq<char>> {
    distinct_to(list, list.len() as int)
}

/// `list` with `s` at the end, unless it holds `s` already.
pub open spec fn with_text(list: Seq<Seq<char>>, s: Seq<char>) -> Seq<Seq<char>> {
    if list.contains(s) {
        list
    } else {
        list.push(s)
    }
}

/// Adds a text at the end of a list, unless the list holds it already.
pub fn push_unique(list: &mut Vec<String>, s: String)
    ensures
        texts(final(list)@) == with_text(texts(old(list)@), s@),
{
    let ghost before = texts(list@);
    proof {
        lemma_position(before, s@);
    }
    let mut i: usize = 0;
    while i < list.len()
        invariant
            i <= list.len(),
            texts(list@) == before,
            forall|k: int| 0 <= k < i ==> #[trigger] before[k] != s@,
        decreases list.len() - i,
    {
        if list[i] == s {
            assert(before[i as int] == s@);
            return ;
        }
        i += 1;
    }
    list.push(s);
    assert(texts(list@) =~= before.push(s@));
}

/// No text stands twice in the list.
pub open spec fn no_repeats(list: Seq<Seq<char>>) -> bool {
    forall|i: int, j: int| 0 <= i < j < list.len() ==> #[trigger] list[i] != #[trigger] list[j]
}

pub proof fn lemma_with_text(list: Seq<Seq<char>>, s: Seq<char>)
    requires
        no_repeats(list),
    ensures
        no_repeats(with_text(list, s)),
        forall|x: Seq<char>| with_text(list, s).contains(x) <==> (list.contains(x) || x == s),
{
    let out = with_text(list, s);
    if !list.contains(s) {
        assert forall|i: int, j: int| 0 <= i < j < out.len() implies #[trigger] out[i]
            != #[trigger] out[j] by {
            if j == list.len() {
                assert(list[i] == out[i]);
                assert(list.contains(out[i]));
            } else {
                assert(list[i] == out[i] && list[j] == out[j]);
            }
        }
        assert forall|x: Seq<char>| out.contains(x) <==> (list.contains(x) || x == s) by {
            if out.contains(x) {
                let i = choose|i: int| 0 <= i < out.len() && out[i] == x;
                if i < list.len() {
                    assert(list[i] == x);
                }
            }
            if list.contains(x) {
                let i = choose|i: int| 0 <= i < list.len() && list[i] == x;
                assert(out[i] == x);
            }
            if x == s {
                assert(out[list.len() as int] == x);
            }
        }
    }
}

/// `a` comes strictly before `b`: by the first text, then by the second.
pub open spec fn pair_less(a: (Seq<char>, Seq<char>), b: (Seq<char>, Seq<char>)) -> bool {
    less(a.0, b.0) || (a.0 == b.0 && less(a.1, b.1))
}

/// `pair_less` is a strict total order on pairs of texts.
pub proof fn lemma_pair_less_is_strict_total_order(
    a: (Seq<char>, Seq<char>),
    b: (Seq<char>, Seq<char>),
    c: (Seq<char>, Seq<char>),
)
    ensures
        !pair_less(a, a),
        !(pair_less(a, b) && pair_less(b, a)),
        pair_less(a, b) || pair_less(b, a) || a == b,
        pair_less(a, b) && pair_less(b, c) ==> pair_less(a, c),
{
    lemma_less_is_strict_total_order(a.0, b.0, c.0);
    lemma_less_is_strict_total_order(a.1, b.1, c.1);
    lemma_less_is_strict_total_order(a.0, a.0, a.0);
    lemma_less_is_strict_total_order(a.1, a.1, a.1);
    lemma_less_is_strict_total_order(b.0, c.0, a.0);
    lemma_less_is_strict_total_order(b.1, c.1, a.1);
    lemma_less_is_strict_total_order(a.0, c.0, b.0);
}

/// Every pair comes strictly before the ones after it.
pub open spec fn ascending_pairs(list: Seq<(Seq<char>, Seq<char>)>) -> bool {
    forall|i: int, j: int|
        0 <= i < j < list.len() ==> pair_less(#[trigger] list[i], #[trigger] list[j])
}

/// The first index at or after `i` whose pair does not come before `p`.
pub open spec fn pair_slot_from(
    list: Seq<(Seq<char>, Seq<char>)>,
    p: (Seq<char>, Seq<char>),
    i: int,
) -> int
    decreases list.len() - i,
{
    if 0 <= i < list.len() && pair_less(list[i], p) {
        pair_slot_from(list, p, i + 1)
    } else {
        i
    }
}

/// `list` with `p` put before the first pair that does not come before it,
/// unless that pair is `p` already.
pub open spec fn inserted_pair(list: Seq<(Seq<char>, Seq<char>)>, p: (Seq<char>, Seq<char>)) -> Seq<
    (Seq<char>, Seq<char>),
> {
    let k = pair_slot_from(list, p, 0);
    if 0 <= k < list.len() && list[k] == p {
        list
    } else if 0 <= k <= list.len() {
        list.insert(k, p)
    } else {
        list
    }
}

pub proof fn lemma_pair_slot_from(
    list: Seq<(Seq<char>, Seq<char>)>,
    p: (Seq<char>, Seq<char>),
    i: int,
)
    requires
        0 <= i <= list.len(),
    ensures
        i <= pair_slot_from(list, p, i) <= list.len(),
        forall|k: int| i <= k < pair_slot_from(list, p, i) ==> pair_less(#[trigger] list[k], p),
        pair_slot_from(list, p, i) < list.len() ==> !pair_less(
            list[pair_slot_from(list, p, i)],
            p,
        ),
    decreases list.len() - i,
{
    if i < list.len() && pair_less(list[i], p) {
        lemma_pair_slot_from(list, p, i + 1);
    }
}

/// Inserting into an ascending list keeps it ascending and adds exactly `p`.
pub proof fn lemma_inserted_pair(list: Seq<(Seq<char>, Seq<char>)>, p: (Seq<char>, Seq<char>))
    requires
        ascending_pairs(list),
    ensures
        ascending_pairs(inserted_pair(list, p)),
        forall|x: (Seq<char>, Seq<char>)|
            inserted_pair(list, p).contains(x) <==> (list.contains(x) || x == p),
{
    let k = pair_slot_from(list, p, 0);
    lemma_pair_slot_from(list, p, 0);
    let out = inserted_pair(list, p);
    if k < list.len() && list[k] == p {
        assert forall|x: (Seq<char>, Seq<char>)| out.contains(x) <==> (list.contains(x) || x
            == p) by {
            if x == p {
                assert(list[k] == x);
            }
        }
    } else {
        assert(out == list.insert(k, p));
        assert forall|i: int, j: int| 0 <= i < j < out.len() implies pair_less(
            #[trigger] out[i],
            #[trigger] out[j],
        ) by {
            if j < k {
                assert(out[i] == list[i] && out[j] == list[j]);
            } else if j == k {
                assert(out[i] == list[i]);
            } else if i < k {
                assert(out[i] == list[i] && out[j] == list[j - 1]);
                if j - 1 == k {
                } else {
                    assert(pair_less(list[i], list[j - 1]));
                }
            } else if i == k {
                assert(out[j] == list[j - 1]);
                lemma_pair_less_is_strict_total_order(list[k], p, p);
                assert(pair_less(p, list[k]));
                if j - 1 > k {
                    assert(pair_less(list[k], list[j - 1]));
                    lemma_pair_less_is_strict_total_order(p, list[k], list[j - 1]);
                }
            } else {
                assert(out[i] == list[i - 1] && out[j] == list[j - 1]);
            }
        }
        assert forall|x: (Seq<char>, Seq<char>)| out.contains(x) <==> (list.contains(x) || x
            == p) by {
            if out.contains(x) {
                let i = choose|i: int| 0 <= i < out.len() && out[i] == x;
                if i < k {
                    assert(list[i] == x);
                } else if i > k {
                    assert(list[i - 1] == x);
                }
            }
            if list.contains(x) {
                let i = choose|i: int| 0 <= i < list.len() && list[i] == x;
                if i < k {
                    assert(out[i] == x);
                } else {
                    assert(out[i + 1] == x);
                }
            }
            if x == p {
                assert(out[k] == x);
            }
        }
    }
}

/// The first `n` pairs of `list`, ascending and without repeats.
pub open spec fn sorted_pairs_to(list: Seq<(Seq<char>, Seq<char>)>, n: int) -> Seq<
    (Seq<char>, Seq<char>),
>
    decreases n,
{
    if n <= 0 || n > list.len() {
        Seq::empty()
    } else {
        inserted_pair(sorted_pairs_to(list, n - 1), list[n - 1])
    }
}

/// The pairs of `list`, ascending and without repeats.
pub open spec fn sorted_pairs(list: Seq<(Seq<char>, Seq<char>)>) -> Seq<(Seq<char>, Seq<char>)> {
    sorted_pairs_to(list, list.len() as int)
}

pub proof fn lemma_sorted_pairs_to(list: Seq<(Seq<char>, Seq<char>)>, n: int)
    requires
        0 <= n <= list.len(),
    ensures
        ascending_pairs(sorted_pairs_to(list, n)),
        forall|x: (Seq<char>, Seq<char>)|
            sorted_pairs_to(list, n).contains(x) <==> list.take(n).contains(x),
    decreases n,
{
    if n > 0 {
        lemma_sorted_pairs_to(list, n - 1);
        lemma_inserted_pair(sorted_pairs_to(list, n - 1), list[n - 1]);
        assert forall|x: (Seq<char>, Seq<char>)|
            sorted_pairs_to(list, n).contains(x) <==> list.take(n).contains(x) by {
            let now = list.take(n);
            let prior = list.take(n - 1);
            let rest = sorted_pairs_to(list, n - 1);
            assert(sorted_pairs_to(list, n) == inserted_pair(rest, list[n - 1]));
            assert(inserted_pair(rest, list[n - 1]).contains(x) <==> (rest.contains(x) || x
                == list[n - 1]));
            assert(rest.contains(x) <==> prior.contains(x));
            if now.contains(x) {
                let i = choose|i: int| 0 <= i < now.len() && now[i] == x;
                if i < n - 1 {
                    assert(prior[i] == x);
                }
            }
            if prior.contains(x) {
                let i = choose|i: int| 0 <= i < prior.len() && prior[i] == x;
                assert(now[i] == x);
            }
            assert(now[n - 1] == list[n - 1]);
        }
    } else {
        assert(list.take(0) =~= Seq::empty());
    }
}

/// `sorted_pairs` is ascending and holds exactly the pairs of the list.
pub proof fn lemma_sorted_pairs(list: Seq<(Seq<char>, Seq<char>)>)
    ensures
        ascending_pairs(sorted_pairs(list)),
        forall|x: (Seq<char>, Seq<char>)| sorted_pairs(list).contains(x) <==> list.contains(x),
{
    lemma_sorted_pairs_to(list, list.len() as int);
    assert(list.take(list.len() as int) =~= list);
}

} // verus!
