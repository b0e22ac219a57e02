//! Maximal runs of equal neighbours.
use vstd::prelude::*;

verus! {

/// First place after `i` whose key differs from the one at `i`, looking from `j`.
pub open spec fn run_end<K>(keys: Seq<K>, i: int, j: int) -> int
    decreases keys.len() - j,
{
    if j >= keys.len() || keys[j] != keys[i] {
        j
    } else {
        run_end(keys, i, j + 1)
    }
}

/// Where the run that starts at `i` ends.
pub open spec fn run_stop<K>(keys: Seq<K>, i: int) -> int {
    run_end(keys, i, i + 1)
}

/// The maximal runs of equal keys from place `i` on, as (start, end) pairs.
pub open spec fn runs_from<K>(keys: Seq<K>, i: int) -> Seq<(int, int)>
    decreases keys.len() - i,
{
    if i >= keys.len() || !(i < run_stop(keys, i) <= keys.len()) {
        Seq::empty()
    } else {
        seq![(i, run_stop(keys, i))] + runs_from(keys, run_stop(keys, i))
    }
}

/// The maximal runs of equal keys, in order.
pub open spec fn runs<K>(keys: Seq<K>) -> Seq<(int, int)> {
    runs_from(keys, 0)
}

pub proof fn lemma_run_end<K>(keys: Seq<K>, i: int, j: int)
    requires
        i < j <= keys.len(),
    ensures
        j <= run_end(keys, i, j) <= keys.len(),
        forall|p: int| j <= p < run_end(keys, i, j) ==> #[trigger] keys[p] == keys[i],
        run_end(keys, i, j) < keys.len() ==> keys[run_end(keys, i, j)] != keys[i],
    decreases keys.len() - j,
{
    if j < keys.len() && keys[j] == keys[i] {
        lemma_run_end(keys, i, j + 1);
    }
}

/// A stretch of equal keys that cannot be extended is the run from its start.
pub proof fn lemma_run_end_unique<K>(keys: Seq<K>, i: int, j: int, end: int)
    requires
        i < j <= end <= keys.len(),
        forall|p: int| j <= p < end ==> #[trigger] keys[p] == keys[i],
        end < keys.len() ==> keys[end] != keys[i],
    ensures
        run_end(keys, i, j) == end,
    decreases end - j,
{
    if j < end {
        assert(keys[j] == keys[i]);
        lemma_run_end_unique(keys, i, j + 1, end);
    }
}

/// The runs tile the sequence: the first starts at `i`, each starts where the one
/// before ended, the last ends at the end, every run is non-empty and holds one
/// key, and neighbouring runs hold different keys.
pub proof fn lemma_runs_tile<K>(keys: Seq<K>, i: int)
    requires
        0 <= i <= keys.len(),
    ensures
        ({
            let r = runs_from(keys, i);
            &&& i == keys.len() <==> r.len() == 0
            &&& r.len() <= keys.len() - i
            &&& r.len() > 0 ==> r[0].0 == i && r.last().1 == keys.len()
            &&& forall|n: int| #![trigger r[n]]
                0 <= n < r.len() ==> i <= r[n].0 < r[n].1 <= keys.len()
            &&& forall|n: int, p: int| #![trigger r[n], keys[p]]
                0 <= n < r.len() && r[n].0 <= p < r[n].1 ==> keys[p] == keys[r[n].0]
            &&& forall|n: int| #![trigger r[n]]
                0 <= n < r.len() - 1 ==> r[n].1 == r[n + 1].0 && keys[r[n].1] != keys[r[n].0]
        }),
    decreases keys.len() - i,
{
    if i < keys.len() {
        let stop = run_stop(keys, i);
        lemma_run_end(keys, i, i + 1);
        lemma_runs_tile(keys, stop);
        let rest = runs_from(keys, stop);
        let r = runs_from(keys, i);
        assert(r == seq![(i, stop)] + rest);
        assert(r[0] == (i, stop));
        assert forall|n: int| 1 <= n < r.len() implies r[n] == rest[n - 1] by {}
        assert forall|n: int, p: int| #![trigger r[n], keys[p]]
            0 <= n < r.len() && r[n].0 <= p < r[n].1 implies keys[p] == keys[r[n].0] by {
            if n > 0 {
                assert(r[n] == rest[n - 1]);
            }
        }
        assert forall|n: int| #![trigger r[n]]
            0 <= n < r.len() - 1 implies r[n].1 == r[n + 1].0 && keys[r[n].1] != keys[r[n].0] by {
            assert(r[n + 1] == rest[n]);
            if n > 0 {
                assert(r[n] == rest[n - 1]);
            }
        }
        if rest.len() > 0 {
            assert(r.last() == rest.last());
        }
    }
}

/// Every place lies in exactly one run.
pub proof fn lemma_run_of_place<K>(keys: Seq<K>, i: int, p: int) -> (n: int)
    requires
        0 <= i <= p < keys.len(),
    ensures
        0 <= n < runs_from(keys, i).len(),
        runs_from(keys, i)[n].0 <= p < runs_from(keys, i)[n].1,
        forall|m: int|
            0 <= m < runs_from(keys, i).len() && (#[trigger] runs_from(keys, i)[m]).0 <= p
                < runs_from(keys, i)[m].1 ==> m == n,
    decreases keys.len() - i,
{
    let stop = run_stop(keys, i);
    lemma_run_end(keys, i, i + 1);
    let r = runs_from(keys, i);
    let rest = runs_from(keys, stop);
    assert(r == seq![(i, stop)] + rest);
    assert(r[0] == (i, stop));
    lemma_runs_tile(keys, stop);
    if p < stop {
        assert forall|m: int| 0 <= m < r.len() && (#[trigger] r[m]).0 <= p < r[m].1 implies m
            == 0 by {
            if m > 0 {
                assert(r[m] == rest[m - 1]);
            }
        }
        0
    } else {
        let n = lemma_run_of_place(keys, stop, p);
        assert(r[n + 1] == rest[n]);
        assert forall|m: int| 0 <= m < r.len() && (#[trigger] r[m]).0 <= p < r[m].1 implies m == n
            + 1 by {
            if m > 0 {
                assert(r[m] == rest[m - 1]);
            }
        }
        n + 1
    }
}

} // verus!
