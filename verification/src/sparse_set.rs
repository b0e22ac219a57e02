//! Sparse set: dense values found by generation-bearing handle in constant time.
//!
//! The sparse side is indexed by the handle's entity slot; the dense side keeps
//! insertion order, with the last element filling the hole that a removal leaves.
use vstd::prelude::*;

use crate::handles::Handle;

verus! {

/// Marks an entity slot that holds no value.
pub const NO_SLOT: u32 = u32::MAX;

/// `s` with element `i` overwritten by the last element and the last place dropped.
pub open spec fn swap_removed<T>(s: Seq<T>, i: int) -> Seq<T> {
    s.update(i, s.last()).drop_last()
}

pub struct SparseSet<H, V> {
    pub slot_by_entity: Vec<u32>,
    pub id_by_slot: Vec<H>,
    pub value_by_slot: Vec<V>,
}

impl<H: Handle, V> View for SparseSet<H, V> {
    type V = Map<H, V>;

    /// What the set holds, as a map from handle to value.
    open spec fn view(&self) -> Map<H, V> {
        Map::new(|id: H| self.contains(id), |id: H| self.value_by_slot@[self.place(id)])
    }
}

impl<H: Handle, V> SparseSet<H, V> {
    /// Every dense element is found through its own slot, and every filled slot
    /// leads to a dense element of that slot.
    pub open spec fn wf(&self) -> bool {
        &&& self.id_by_slot@.len() == self.value_by_slot@.len()
        &&& self.id_by_slot@.len() <= u32::MAX
        &&& forall|i: int|
            0 <= i < self.id_by_slot@.len() ==> {
                &&& (#[trigger] self.id_by_slot@[i]).spec_entity().index
                    < self.slot_by_entity@.len()
                &&& self.slot_by_entity@[self.id_by_slot@[i].spec_entity().index as int] == i
            }
        &&& forall|s: int|
            0 <= s < self.slot_by_entity@.len() && #[trigger] self.slot_by_entity@[s] != NO_SLOT
                ==> {
                &&& self.slot_by_entity@[s] < self.id_by_slot@.len()
                &&& self.id_by_slot@[self.slot_by_entity@[s] as int].spec_entity().index == s
            }
    }

    /// Some live handle uses the entity slot `index`.
    pub open spec fn occupies(&self, index: u32) -> bool {
        index < self.slot_by_entity@.len() && self.slot_by_entity@[index as int] != NO_SLOT
    }

    /// Dense place of a live handle.
    pub open spec fn place(&self, id: H) -> int {
        self.slot_by_entity@[id.spec_entity().index as int] as int
    }

    /// `id` is live here, in this very generation.
    pub open spec fn contains(&self, id: H) -> bool {
        &&& self.occupies(id.spec_entity().index)
        &&& self.place(id) < self.id_by_slot@.len()
        &&& self.id_by_slot@[self.place(id)] == id
    }

    pub open spec fn spec_len(&self) -> nat {
        self.id_by_slot@.len()
    }

    /// A handle is live exactly if it stands in the dense list.
    pub proof fn lemma_contains(&self, id: H)
        requires
            self.wf(),
        ensures
            self.contains(id) <==> self.id_by_slot@.contains(id),
            self@.contains_key(id) <==> self.contains(id),
            self.contains(id) ==> 0 <= self.place(id) < self.spec_len()
                && self.id_by_slot@[self.place(id)] == id
                && self@[id] == self.value_by_slot@[self.place(id)],
    {
        if self.id_by_slot@.contains(id) {
            let i = choose|i: int| 0 <= i < self.id_by_slot@.len() && self.id_by_slot@[i] == id;
            assert(self.place(id) == i);
        }
    }

    /// The dense handle at `i` is live and its place is `i`.
    pub proof fn lemma_dense(&self, i: int)
        requires
            self.wf(),
            0 <= i < self.spec_len(),
        ensures
            self.contains(self.id_by_slot@[i]),
            self.place(self.id_by_slot@[i]) == i,
            self@.contains_key(self.id_by_slot@[i]),
            self@[self.id_by_slot@[i]] == self.value_by_slot@[i],
    {
    }

    /// No two dense elements share an entity slot.
    pub proof fn lemma_distinct(&self, i: int, j: int)
        requires
            self.wf(),
            0 <= i < self.spec_len(),
            0 <= j < self.spec_len(),
            i != j,
        ensures
            self.id_by_slot@[i].spec_entity().index != self.id_by_slot@[j].spec_entity().index,
            self.id_by_slot@[i] != self.id_by_slot@[j],
    {
        assert(self.slot_by_entity@[self.id_by_slot@[i].spec_entity().index as int] == i);
        assert(self.slot_by_entity@[self.id_by_slot@[j].spec_entity().index as int] == j);
    }

    pub fn new() -> (set: Self)
        ensures
            set.wf(),
            set.id_by_slot@ == Seq::<H>::empty(),
            set.value_by_slot@ == Seq::<V>::empty(),
            set@ == Map::<H, V>::empty(),
    {
        let set = SparseSet {
            slot_by_entity: Vec::new(),
            id_by_slot: Vec::new(),
            value_by_slot: Vec::new(),
        };
        assert(set@ =~= Map::<H, V>::empty());
        set
    }

    /// Appends `id` with `value` and returns the dense place it took.
    pub fn insert(&mut self, id: H, value: V) -> (place: usize)
        requires
            old(self).wf(),
            !old(self).occupies(id.spec_entity().index),
            id.spec_entity().index < usize::MAX,
            old(self).spec_len() < u32::MAX,
        ensures
            final(self).wf(),
            place == old(self).spec_len(),
            final(self).id_by_slot@ == old(self).id_by_slot@.push(id),
            final(self).value_by_slot@ == old(self).value_by_slot@.push(value),
            final(self)@ == old(self)@.insert(id, value),
            forall|index: u32|
                #[trigger] final(self).occupies(index) <==> old(self).occupies(index) || index
                    == id.spec_entity().index,
    {
        let sparse_slot: usize = id.slot() as usize;
        if self.slot_by_entity.len() <= sparse_slot {
            self.slot_by_entity.resize(sparse_slot + 1, NO_SLOT);
        }
        let ghost resized = self.slot_by_entity@;
        assert forall|s: int| 0 <= s < resized.len() implies #[trigger] resized[s] == (if s
            < old(self).slot_by_entity@.len() {
            old(self).slot_by_entity@[s]
        } else {
            NO_SLOT
        }) by {
            if s < old(self).slot_by_entity@.len() {
                assert(resized.subrange(0, old(self).slot_by_entity@.len() as int)[s]
                    == resized[s]);
            }
        }
        let place: usize = self.id_by_slot.len();
        self.id_by_slot.push(id);
        self.value_by_slot.push(value);
        self.slot_by_entity.set(sparse_slot, place as u32);
        proof {
            let before = *old(self);
            let sparse = self.slot_by_entity@;
            assert forall|i: int| 0 <= i < self.id_by_slot@.len() implies {
                &&& (#[trigger] self.id_by_slot@[i]).spec_entity().index < sparse.len()
                &&& sparse[self.id_by_slot@[i].spec_entity().index as int] == i
            } by {
                if i < place {
                    assert(self.id_by_slot@[i] == before.id_by_slot@[i]);
                }
            }
            assert forall|s: int| 0 <= s < sparse.len() && #[trigger] sparse[s] != NO_SLOT implies {
                &&& sparse[s] < self.id_by_slot@.len()
                &&& self.id_by_slot@[sparse[s] as int].spec_entity().index == s
            } by {
                if s != sparse_slot {
                    assert(s < before.slot_by_entity@.len());
                    assert(before.slot_by_entity@[s] == sparse[s]);
                }
            }
            assert forall|other: H| other != id implies (self.contains(other)
                <==> before.contains(other)) by {
                if other.spec_entity().index == id.spec_entity().index {
                    assert(self.place(other) == place);
                }
            }
            assert(self.contains(id));
            assert(self@ =~= before@.insert(id, value));
        }
        place
    }

    /// Removes `id` if it is live. The last element moves into the hole.
    pub fn remove(&mut self, id: H) -> (place: Option<usize>)
        requires
            old(self).wf(),
        ensures
            final(self).wf(),
            final(self)@ == old(self)@.remove(id),
            match place {
                Some(i) => {
                    &&& old(self).contains(id)
                    &&& i == old(self).place(id)
                    &&& final(self).id_by_slot@ == swap_removed(old(self).id_by_slot@, i as int)
                    &&& final(self).value_by_slot@ == swap_removed(
                        old(self).value_by_slot@,
                        i as int,
                    )
                    &&& forall|index: u32|
                        #[trigger] final(self).occupies(index) <==> old(self).occupies(index)
                            && index != id.spec_entity().index
                },
                None => !old(self).contains(id) && *final(self) == *old(self),
            },
    {
        let found = self.slot(id);
        match found {
            None => {
                assert(self@ =~= old(self)@.remove(id));
                None
            },
            Some(place) => {
                let ghost before = *old(self);
                self.id_by_slot.swap_remove(place);
                self.value_by_slot.swap_remove(place);
                self.slot_by_entity.set(id.slot() as usize, NO_SLOT);
                assert(self.id_by_slot@ =~= swap_removed(before.id_by_slot@, place as int));
                assert(self.value_by_slot@ =~= swap_removed(before.value_by_slot@, place as int));
                if place < self.id_by_slot.len() {
                    let moved: H = self.id_by_slot[place];
                    proof {
                        before.lemma_distinct(place as int, before.spec_len() - 1);
                    }
                    self.slot_by_entity.set(moved.slot() as usize, place as u32);
                }
                proof {
                    before.lemma_removed(*self, id, place as int);
                }
                Some(place)
            },
        }
    }

    /// What the repaired arrays of a removal amount to.
    proof fn lemma_removed(self, after: Self, id: H, place: int)
        requires
            self.wf(),
            self.contains(id),
            place == self.place(id),
            after.id_by_slot@ == swap_removed(self.id_by_slot@, place),
            after.value_by_slot@ == swap_removed(self.value_by_slot@, place),
            after.slot_by_entity@ == {
                let cleared = self.slot_by_entity@.update(
                    id.spec_entity().index as int,
                    NO_SLOT,
                );
                if place < self.spec_len() - 1 {
                    cleared.update(
                        self.id_by_slot@.last().spec_entity().index as int,
                        place as u32,
                    )
                } else {
                    cleared
                }
            },
        ensures
            after.wf(),
            after@ == self@.remove(id),
            forall|index: u32|
                #[trigger] after.occupies(index) <==> self.occupies(index) && index
                    != id.spec_entity().index,
    {
        let last = self.spec_len() - 1;
        assert forall|i: int| 0 <= i < after.id_by_slot@.len() implies {
            &&& (#[trigger] after.id_by_slot@[i]).spec_entity().index < after.slot_by_entity@.len()
            &&& after.slot_by_entity@[after.id_by_slot@[i].spec_entity().index as int] == i
        } by {
            let source = if i == place { last } else { i };
            assert(after.id_by_slot@[i] == self.id_by_slot@[source]);
            self.lemma_distinct(source, place);
            if source != last {
                self.lemma_distinct(source, last);
            }
        }
        assert forall|s: int|
            0 <= s < after.slot_by_entity@.len() && #[trigger] after.slot_by_entity@[s]
                != NO_SLOT implies {
            &&& after.slot_by_entity@[s] < after.id_by_slot@.len()
            &&& after.id_by_slot@[after.slot_by_entity@[s] as int].spec_entity().index == s
        } by {
            assert(s != id.spec_entity().index || place < last);
            let t = self.slot_by_entity@[s];
        }
        assert forall|other: H| after.contains(other) <==> (self.contains(other) && other
            != id) by {
            after.lemma_contains(other);
            self.lemma_contains(other);
            if self.contains(other) && other != id {
                let p = self.place(other);
                let q = if p == last { place } else { p };
                assert(after.id_by_slot@[q] == other);
            }
            if after.id_by_slot@.contains(other) {
                let q = choose|q: int|
                    0 <= q < after.id_by_slot@.len() && after.id_by_slot@[q] == other;
                let p = if q == place { last } else { q };
                assert(self.id_by_slot@[p] == other);
                self.lemma_distinct(p, place);
            }
        }
        assert forall|other: H| after.contains(other) implies after@[other] == self@[other] by {
            after.lemma_contains(other);
            self.lemma_contains(other);
            let q = after.place(other);
            let p = if q == place { last } else { q };
            assert(self.id_by_slot@[p] == other);
            self.lemma_dense(p);
        }
        assert(after@ =~= self@.remove(id));
        assert forall|index: u32|
            #[trigger] after.occupies(index) <==> self.occupies(index) && index
                != id.spec_entity().index by {
            if place < last {
                self.lemma_distinct(place, last);
            }
        }
    }

    /// Dense place of `id`, if it is live in this very generation.
    pub fn slot(&self, id: H) -> (place: Option<usize>)
        requires
            self.wf(),
        ensures
            match place {
                Some(i) => self.contains(id) && i == self.place(id) && i < self.spec_len(),
                None => !self.contains(id),
            },
    {
        let index: usize = id.slot() as usize;
        if index >= self.slot_by_entity.len() {
            return None;
        }
        let compact_slot: u32 = self.slot_by_entity[index];
        if compact_slot == NO_SLOT {
            return None;
        }
        let place: usize = compact_slot as usize;
        let found: H = self.id_by_slot[place];
        if found.entity() == id.entity() {
            proof {
                H::named_by_entity(found, id);
            }
            Some(place)
        } else {
            None
        }
    }

    /// The value of a live handle.
    pub fn get(&self, id: H) -> (value: Option<&V>)
        requires
            self.wf(),
        ensures
            match value {
                Some(v) => self@.contains_key(id) && *v == self@[id],
                None => !self@.contains_key(id),
            },
    {
        match self.slot(id) {
            Some(place) => Some(&self.value_by_slot[place]),
            None => None,
        }
    }

    /// Whether `id` is live.
    pub fn is_live(&self, id: H) -> (live: bool)
        requires
            self.wf(),
        ensures
            live == self@.contains_key(id),
    {
        self.slot(id).is_some()
    }

    /// Replaces the value of a live handle.
    pub fn set(&mut self, id: H, value: V)
        requires
            old(self).wf(),
            old(self)@.contains_key(id),
        ensures
            final(self).wf(),
            final(self)@ == old(self)@.insert(id, value),
            final(self).slot_by_entity == old(self).slot_by_entity,
            final(self).id_by_slot == old(self).id_by_slot,
            final(self).value_by_slot@ == old(self).value_by_slot@.update(
                old(self).place(id),
                value,
            ),
    {
        match self.slot(id) {
            Some(place) => {
                let ghost before = *self;
                self.value_by_slot.set(place, value);
                proof {
                    assert forall|other: H| self.contains(other) <==> before.contains(other) by {}
                    assert(before.contains(id));
                    assert forall|other: H| before.contains(other) && other != id implies
                        before.place(other) != place by {
                        if before.place(other) == place {
                            assert(before.id_by_slot@[place as int] == other);
                        }
                    }
                    assert(self@ =~= before@.insert(id, value));
                }
            },
            None => {
                assert(false);
            },
        }
    }

    /// Replaces the value of a live handle and hands the prior one out.
    pub fn replace(&mut self, id: H, value: V) -> (prior: V)
        requires
            old(self).wf(),
            old(self)@.contains_key(id),
        ensures
            final(self).wf(),
            prior == old(self)@[id],
            final(self)@ == old(self)@.insert(id, value),
            final(self).slot_by_entity == old(self).slot_by_entity,
            final(self).id_by_slot == old(self).id_by_slot,
            final(self).value_by_slot@ == old(self).value_by_slot@.update(
                old(self).place(id),
                value,
            ),
    {
        proof {
            self.lemma_contains(id);
        }
        let place: usize = self.slot_by_entity[id.slot() as usize] as usize;
        let ghost before = *self;
        self.value_by_slot.push(value);
        let prior: V = self.value_by_slot.swap_remove(place);
        proof {
            assert(self.value_by_slot@ =~= before.value_by_slot@.update(place as int, value));
            assert forall|other: H| self.contains(other) <==> before.contains(other) by {}
            assert forall|other: H| before.contains(other) && other != id implies before.place(
                other,
            ) != place by {
                if before.place(other) == place {
                    assert(before.id_by_slot@[place as int] == other);
                }
            }
            assert(self@ =~= before@.insert(id, value));
        }
        prior
    }

    pub fn len(&self) -> (len: usize)
        ensures
            len == self.spec_len(),
    {
        self.id_by_slot.len()
    }
}

/// A set whose handles are all live in another set is no larger than that.
pub proof fn lemma_len_of_subset<H: Handle, V, W>(a: SparseSet<H, V>, b: SparseSet<H, W>)
    requires
        a.wf(),
        b.wf(),
        forall|id: H| #[trigger] a@.contains_key(id) ==> b@.contains_key(id),
    ensures
        a.spec_len() <= b.spec_len(),
{
    let small = a.id_by_slot@;
    let large = b.id_by_slot@;
    assert(small.no_duplicates()) by {
        assert forall|i: int, j: int|
            0 <= i < small.len() && 0 <= j < small.len() && i != j implies small[i] != small[j] by {
            a.lemma_distinct(i, j);
        }
    }
    assert(large.no_duplicates()) by {
        assert forall|i: int, j: int|
            0 <= i < large.len() && 0 <= j < large.len() && i != j implies large[i] != large[j] by {
            b.lemma_distinct(i, j);
        }
    }
    small.unique_seq_to_set();
    large.unique_seq_to_set();
    assert(small.to_set().subset_of(large.to_set())) by {
        assert forall|id: H| #[trigger] small.to_set().contains(id) implies large.to_set().contains(
            id,
        ) by {
            a.lemma_contains(id);
            b.lemma_contains(id);
            assert(a@.contains_key(id));
        }
    }
    vstd::seq_lib::seq_to_set_is_finite(small);
    vstd::seq_lib::seq_to_set_is_finite(large);
    vstd::set_lib::lemma_len_subset(small.to_set(), large.to_set());
}

} // verus!
