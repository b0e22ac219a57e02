//! How often a value occurs in a sequence.
use vstd::prelude::*;

use crate::sparse_set::swap_removed;

verus! {

/// How often `x` occurs in `s`.
pub open spec fn occurrences<T>(s: Seq<T>, x: T) -> nat
    decreases s.len(),
{
    if s.len() == 0 {
        0
    } else {
        occurrences(s.drop_last(), x) + (if s.last() == x {
            1nat
        } else {
            0
        })
    }
}

pub proof fn lemma_occurrences_push<T>(s: Seq<T>, v: T, x: T)
    ensures
        occurrences(s.push(v), x) == occurrences(s, x) + (if v == x {
            1nat
        } else {
            0
        }),
{
    assert(s.push(v).drop_last() =~= s);
}

pub proof fn lemma_occurrences_bounded<T>(s: Seq<T>, x: T)
    ensures
        occurrences(s, x) <= s.len(),
    decreases s.len(),
{
    if s.len() > 0 {
        lemma_occurrences_bounded(s.drop_last(), x);
    }
}

pub proof fn lemma_occurrences_update<T>(s: Seq<T>, i: int, v: T, x: T)
    requires
        0 <= i < s.len(),
    ensures
        occurrences(s.update(i, v), x) == occurrences(s, x) - (if s[i] == x {
            1int
        } else {
            0
        }) + (if v == x {
            1int
        } else {
            0
        }),
    decreases s.len(),
{
    if i == s.len() - 1 {
        assert(s.update(i, v).drop_last() =~= s.drop_last());
    } else {
        assert(s.update(i, v).drop_last() =~= s.drop_last().update(i, v));
        lemma_occurrences_update(s.drop_last(), i, v, x);
    }
}

pub proof fn lemma_occurrences_swap_removed<T>(s: Seq<T>, i: int, x: T)
    requires
        0 <= i < s.len(),
    ensures
        occurrences(swap_removed(s, i), x) == occurrences(s, x) - (if s[i] == x {
            1int
        } else {
            0
        }),
{
    lemma_occurrences_update(s, i, s.last(), x);
    let updated = s.update(i, s.last());
    assert(updated.last() == s.last());
}

/// A value occurs somewhere exactly if it occurs at least once.
pub proof fn lemma_occurrences_positive<T>(s: Seq<T>, x: T)
    ensures
        occurrences(s, x) > 0 <==> s.contains(x),
    decreases s.len(),
{
    if s.len() > 0 {
        lemma_occurrences_positive(s.drop_last(), x);
        if s.contains(x) {
            let i = s.index_of(x);
            if i < s.len() - 1 {
                assert(s.drop_last()[i] == x);
            }
        }
        if s.drop_last().contains(x) {
            let i = s.drop_last().index_of(x);
            assert(s[i] == x);
        }
        if s.last() == x {
            assert(s[s.len() - 1] == x);
        }
    }
}

/// Sum of `f` over `s`.
pub open spec fn total<T>(s: Seq<T>, f: spec_fn(T) -> nat) -> nat
    decreases s.len(),
{
    if s.len() == 0 {
        0
    } else {
        total(s.drop_last(), f) + f(s.last())
    }
}

pub proof fn lemma_total_push<T>(s: Seq<T>, v: T, f: spec_fn(T) -> nat)
    ensures
        total(s.push(v), f) == total(s, f) + f(v),
{
    assert(s.push(v).drop_last() =~= s);
}

pub proof fn lemma_total_update<T>(s: Seq<T>, i: int, v: T, f: spec_fn(T) -> nat)
    requires
        0 <= i < s.len(),
    ensures
        total(s.update(i, v), f) == total(s, f) - f(s[i]) + f(v),
    decreases s.len(),
{
    if i == s.len() - 1 {
        assert(s.update(i, v).drop_last() =~= s.drop_last());
    } else {
        assert(s.update(i, v).drop_last() =~= s.drop_last().update(i, v));
        lemma_total_update(s.drop_last(), i, v, f);
    }
}

pub proof fn lemma_total_swap_removed<T>(s: Seq<T>, i: int, f: spec_fn(T) -> nat)
    requires
        0 <= i < s.len(),
    ensures
        total(swap_removed(s, i), f) == total(s, f) - f(s[i]),
{
    lemma_total_update(s, i, s.last(), f);
    let updated = s.update(i, s.last());
    assert(updated.last() == s.last());
}

/// A sum is at least each of its terms.
pub proof fn lemma_total_at_least<T>(s: Seq<T>, i: int, f: spec_fn(T) -> nat)
    requires
        0 <= i < s.len(),
    ensures
        total(s, f) >= f(s[i]),
    decreases s.len(),
{
    if i < s.len() - 1 {
        lemma_total_at_least(s.drop_last(), i, f);
    }
}

/// A sum of bounded terms is bounded.
pub proof fn lemma_total_bounded<T>(s: Seq<T>, f: spec_fn(T) -> nat, bound: nat)
    requires
        forall|i: int| 0 <= i < s.len() ==> f(#[trigger] s[i]) <= bound,
    ensures
        total(s, f) <= s.len() * bound,
    decreases s.len(),
{
    if s.len() > 0 {
        assert forall|i: int| 0 <= i < s.drop_last().len() implies f(
            #[trigger] s.drop_last()[i],
        ) <= bound by {
            assert(s.drop_last()[i] == s[i]);
        }
        lemma_total_bounded(s.drop_last(), f, bound);
        assert(s[s.len() - 1] == s.last());
        assert(s.len() * bound == (s.len() - 1) * bound + bound) by (nonlinear_arith)
            requires
                s.len() > 0,
        ;
    }
}

} // verus!
