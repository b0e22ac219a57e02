//! Verified sorting under a total order.
use vstd::prelude::*;
use vstd::relations::{sorted_by, total_ordering};
use vstd::seq_lib::lemma_multiset_commutative;

verus! {

/// Values with a total order of their own.
pub trait Ordered: Copy {
    spec fn at_most(self, other: Self) -> bool;

    proof fn total_order(a: Self, b: Self, c: Self)
        ensures
            a.at_most(b) || b.at_most(a),
            a.at_most(b) && b.at_most(a) ==> a == b,
            a.at_most(b) && b.at_most(c) ==> a.at_most(c),
    ;

    fn precedes(self, other: Self) -> (b: bool)
        ensures
            b == self.at_most(other),
    ;
}

/// The order of `T` as a relation.
pub open spec fn order<T: Ordered>() -> spec_fn(T, T) -> bool {
    |a: T, b: T| a.at_most(b)
}

proof fn lemma_total_ordering<T: Ordered>()
    ensures
        total_ordering(order::<T>()),
{
    assert forall|a: T| #[trigger] order::<T>()(a, a) by {
        T::total_order(a, a, a);
    }
    assert forall|a: T, b: T|
        #[trigger] order::<T>()(a, b) && #[trigger] order::<T>()(b, a) implies a == b by {
        T::total_order(a, b, a);
    }
    assert forall|a: T, b: T, c: T|
        #[trigger] order::<T>()(a, b) && #[trigger] order::<T>()(b, c) implies order::<T>()(
        a,
        c,
    ) by {
        T::total_order(a, b, c);
    }
    assert forall|a: T, b: T| #[trigger] order::<T>()(a, b) || order::<T>()(b, a) by {
        T::total_order(a, b, a);
    }
}

/// The elements of `s`, each as often as it occurs there, in order.
pub open spec fn ordered<T: Ordered>(s: Seq<T>) -> Seq<T> {
    s.sort_by(order::<T>())
}

/// Ordering keeps the elements and puts no larger one before a smaller one.
pub proof fn lemma_ordered<T: Ordered>(s: Seq<T>)
    ensures
        ordered(s).to_multiset() == s.to_multiset(),
        ordered(s).len() == s.len(),
        forall|i: int, j: int|
            0 <= i < j < ordered(s).len() ==> (#[trigger] ordered(s)[i]).at_most(
                #[trigger] ordered(s)[j],
            ),
        forall|x: T| #[trigger] ordered(s).contains(x) <==> s.contains(x),
{
    broadcast use vstd::seq_lib::group_to_multiset_ensures;

    lemma_total_ordering::<T>();
    s.lemma_sort_by_ensures(order::<T>());
    let r = ordered(s);
    assert(r.to_multiset() =~= s.to_multiset());
    assert(r.to_multiset().len() == r.len());
    assert(s.to_multiset().len() == s.len());
    assert forall|i: int, j: int| 0 <= i < j < r.len() implies (#[trigger] r[i]).at_most(
        #[trigger] r[j],
    ) by {
        assert(order::<T>()(r[i], r[j]));
    }
    assert forall|x: T| #[trigger] r.contains(x) <==> s.contains(x) by {
        assert(r.contains(x) <==> r.to_multiset().count(x) > 0);
        assert(s.contains(x) <==> s.to_multiset().count(x) > 0);
    }
}

/// There is only one way to put the elements of `s` in order.
pub proof fn lemma_ordered_unique<T: Ordered>(r: Seq<T>, s: Seq<T>)
    requires
        r.to_multiset() == s.to_multiset(),
        forall|i: int, j: int|
            0 <= i < j < r.len() ==> (#[trigger] r[i]).at_most(#[trigger] r[j]),
    ensures
        r == ordered(s),
{
    lemma_total_ordering::<T>();
    s.lemma_sort_by_ensures(order::<T>());
    assert(sorted_by(r, order::<T>()));
    vstd::seq_lib::lemma_sorted_unique(r, ordered(s), order::<T>());
}

fn merge<T: Ordered>(left: &Vec<T>, right: &Vec<T>) -> (merged: Vec<T>)
    requires
        sorted_by(left@, order::<T>()),
        sorted_by(right@, order::<T>()),
        left@.len() + right@.len() <= usize::MAX,
    ensures
        sorted_by(merged@, order::<T>()),
        merged@.to_multiset() == (left@ + right@).to_multiset(),
{
    broadcast use vstd::seq_lib::group_to_multiset_ensures;

    let mut merged: Vec<T> = Vec::new();
    let mut i: usize = 0;
    let mut j: usize = 0;
    proof {
        lemma_total_ordering::<T>();
        assert(left@.take(0) + right@.take(0) =~= Seq::<T>::empty());
    }
    while i < left.len() || j < right.len()
        invariant
            0 <= i <= left@.len(),
            0 <= j <= right@.len(),
            left@.len() + right@.len() <= usize::MAX,
            total_ordering(order::<T>()),
            sorted_by(left@, order::<T>()),
            sorted_by(right@, order::<T>()),
            sorted_by(merged@, order::<T>()),
            merged@.to_multiset() == (left@.take(i as int) + right@.take(j as int)).to_multiset(),
            forall|a: int, b: int|
                0 <= a < merged@.len() && i <= b < left@.len() ==> (#[trigger] merged@[a]).at_most(
                    #[trigger] left@[b],
                ),
            forall|a: int, b: int|
                0 <= a < merged@.len() && j <= b < right@.len() ==> (
                #[trigger] merged@[a]).at_most(#[trigger] right@[b]),
        decreases left@.len() + right@.len() - i - j,
    {
        broadcast use vstd::seq_lib::group_to_multiset_ensures;

        let from_left: bool = j >= right.len() || (i < left.len() && left[i].precedes(right[j]));
        let ghost before = merged@;
        let ghost taken = left@.take(i as int) + right@.take(j as int);
        if from_left {
            let x: T = left[i];
            merged.push(x);
            proof {
                assert(left@.take(i + 1) =~= left@.take(i as int).push(x));
                lemma_multiset_commutative(left@.take(i as int), right@.take(j as int));
                lemma_multiset_commutative(left@.take(i + 1), right@.take(j as int));
                assert forall|b: int| i + 1 <= b < left@.len() implies x.at_most(
                    #[trigger] left@[b],
                ) by {
                    assert(order::<T>()(left@[i as int], left@[b]));
                }
                assert forall|b: int| j <= b < right@.len() implies x.at_most(
                    #[trigger] right@[b],
                ) by {
                    if b > j {
                        assert(order::<T>()(right@[j as int], right@[b]));
                    }
                    assert(order::<T>()(x, right@[j as int]));
                    assert(order::<T>()(x, right@[b]));
                }
            }
            i = i + 1;
        } else {
            let x: T = right[j];
            merged.push(x);
            proof {
                assert(right@.take(j + 1) =~= right@.take(j as int).push(x));
                lemma_multiset_commutative(left@.take(i as int), right@.take(j as int));
                lemma_multiset_commutative(left@.take(i as int), right@.take(j + 1));
                assert forall|b: int| j + 1 <= b < right@.len() implies x.at_most(
                    #[trigger] right@[b],
                ) by {
                    assert(order::<T>()(right@[j as int], right@[b]));
                }
                assert forall|b: int| i <= b < left@.len() implies x.at_most(
                    #[trigger] left@[b],
                ) by {
                    assert(!order::<T>()(left@[i as int], x));
                    assert(order::<T>()(x, left@[i as int]));
                    if b > i {
                        assert(order::<T>()(left@[i as int], left@[b]));
                    }
                    assert(order::<T>()(x, left@[b]));
                }
            }
            j = j + 1;
        }
        proof {
            assert(merged@.to_multiset() =~= (left@.take(i as int) + right@.take(
                j as int,
            )).to_multiset());
            assert forall|a: int, b: int| 0 <= a < b < merged@.len() implies #[trigger] order::<
                T,
            >()(merged@[a], merged@[b]) by {
                if b < before.len() {
                    assert(order::<T>()(before[a], before[b]));
                }
            }
        }
    }
    proof {
        assert(left@.take(i as int) =~= left@);
        assert(right@.take(j as int) =~= right@);
    }
    merged
}

fn sort_range<T: Ordered>(v: &Vec<T>, lo: usize, hi: usize) -> (sorted: Vec<T>)
    requires
        lo <= hi <= v@.len(),
    ensures
        sorted_by(sorted@, order::<T>()),
        sorted@.to_multiset() == v@.subrange(lo as int, hi as int).to_multiset(),
        sorted@.len() == hi - lo,
    decreases hi - lo,
{
    broadcast use vstd::seq_lib::group_to_multiset_ensures;

    if hi - lo == 0 {
        let sorted: Vec<T> = Vec::new();
        assert(sorted@ =~= v@.subrange(lo as int, hi as int));
        sorted
    } else if hi - lo == 1 {
        let mut sorted: Vec<T> = Vec::new();
        sorted.push(v[lo]);
        assert(sorted@ =~= v@.subrange(lo as int, hi as int));
        sorted
    } else {
        let middle: usize = lo + (hi - lo) / 2;
        let left: Vec<T> = sort_range(v, lo, middle);
        let right: Vec<T> = sort_range(v, middle, hi);
        let sorted: Vec<T> = merge(&left, &right);
        proof {
            let a = v@.subrange(lo as int, middle as int);
            let b = v@.subrange(middle as int, hi as int);
            assert(a + b =~= v@.subrange(lo as int, hi as int));
            lemma_multiset_commutative(a, b);
            lemma_multiset_commutative(left@, right@);
            assert(sorted@.to_multiset().len() == sorted@.len());
            assert((a + b).to_multiset().len() == (a + b).len());
        }
        sorted
    }
}

/// Sorts `v`.
pub fn sort<T: Ordered>(v: &Vec<T>) -> (sorted: Vec<T>)
    ensures
        sorted@ == ordered(v@),
{
    let sorted: Vec<T> = sort_range(v, 0, v.len());
    proof {
        assert(v@.subrange(0, v@.len() as int) =~= v@);
        assert forall|i: int, j: int| 0 <= i < j < sorted@.len() implies (
        #[trigger] sorted@[i]).at_most(#[trigger] sorted@[j]) by {
            assert(order::<T>()(sorted@[i], sorted@[j]));
        }
        lemma_ordered_unique(sorted@, v@);
    }
    sorted
}

/// A number to sort by, ties broken by a second one.
#[derive(Clone, Copy, Debug, PartialEq, Eq, Structural)]
pub struct RankedRow {
    pub rank: i64,
    pub row: u64,
}

impl Ordered for RankedRow {
    open spec fn at_most(self, other: Self) -> bool {
        self.rank < other.rank || (self.rank == other.rank && self.row <= other.row)
    }

    proof fn total_order(a: Self, b: Self, c: Self) {
    }

    fn precedes(self, other: Self) -> (b: bool) {
        self.rank < other.rank || (self.rank == other.rank && self.row <= other.row)
    }
}

impl Ordered for u64 {
    open spec fn at_most(self, other: Self) -> bool {
        self <= other
    }

    proof fn total_order(a: Self, b: Self, c: Self) {
    }

    fn precedes(self, other: Self) -> (b: bool) {
        self <= other
    }
}

} // verus!
