//! Comparison of packed rows.
use vstd::prelude::*;

use crate::float_bits::F32;

verus! {

/// Whether two packed rows hold the same words.
pub fn same_words<const N: usize>(a: &[u32; N], b: &[u32; N]) -> (same: bool)
    ensures
        same == (*a == *b),
{
    let mut i: usize = 0;
    while i < N
        invariant
            0 <= i <= N,
            forall|j: int| 0 <= j < i ==> a@[j] == b@[j],
        decreases N - i,
    {
        if a[i] != b[i] {
            assert(a@[i as int] != b@[i as int]);
            return false;
        }
        i = i + 1;
    }
    assert(a@ =~= b@);
    assert(*a =~= *b);
    true
}

/// Whether two vectors hold the same encodings.
pub fn same_encodings<const N: usize>(a: &[F32; N], b: &[F32; N]) -> (same: bool)
    ensures
        same == (*a == *b),
{
    let mut i: usize = 0;
    while i < N
        invariant
            0 <= i <= N,
            forall|j: int| 0 <= j < i ==> a@[j] == b@[j],
        decreases N - i,
    {
        if a[i].bits != b[i].bits {
            assert(a@[i as int] != b@[i as int]);
            return false;
        }
        assert(a@[i as int] == b@[i as int]);
        i = i + 1;
    }
    assert(a@ =~= b@);
    assert(*a =~= *b);
    true
}

/// Whether two vectors hold the same numbers.
pub fn same_values<const N: usize>(a: &[F32; N], b: &[F32; N]) -> (same: bool)
    ensures
        same == forall|i: int| 0 <= i < N ==> (#[trigger] a@[i]).spec_same_value(b@[i]),
{
    let mut i: usize = 0;
    while i < N
        invariant
            0 <= i <= N,
            forall|j: int| 0 <= j < i ==> (#[trigger] a@[j]).spec_same_value(b@[j]),
        decreases N - i,
    {
        if !a[i].same_value(b[i]) {
            assert(!a@[i as int].spec_same_value(b@[i as int]));
            return false;
        }
        i = i + 1;
    }
    true
}

/// Every component is finite.
pub open spec fn every_finite<const N: usize>(a: [F32; N]) -> bool {
    forall|i: int| 0 <= i < N ==> (#[trigger] a@[i]).spec_is_finite()
}

pub fn all_finite<const N: usize>(a: &[F32; N]) -> (finite: bool)
    ensures
        finite == every_finite(*a),
{
    let mut i: usize = 0;
    while i < N
        invariant
            0 <= i <= N,
            forall|j: int| 0 <= j < i ==> (#[trigger] a@[j]).spec_is_finite(),
        decreases N - i,
    {
        if !a[i].is_finite() {
            assert(!a@[i as int].spec_is_finite());
            return false;
        }
        i = i + 1;
    }
    true
}

/// Whether two lists hold the same words.
pub fn same_list(a: &Vec<u32>, b: &Vec<u32>) -> (same: bool)
    ensures
        same == (a@ == b@),
{
    if a.len() != b.len() {
        return false;
    }
    let mut i: usize = 0;
    while i < a.len()
        invariant
            a@.len() == b@.len(),
            0 <= i <= a@.len(),
            forall|j: int| 0 <= j < i ==> a@[j] == b@[j],
        decreases a@.len() - i,
    {
        if a[i] != b[i] {
            assert(a@[i as int] != b@[i as int]);
            return false;
        }
        i = i + 1;
    }
    assert(a@ =~= b@);
    true
}

} // verus!
