//! Compact projection from stable public handles to GPU rows.
//!
//! The sparse side is indexed by the handle's entity slot solely for constant
//! time lookup. Shaders are addressed by the row that was handed in, never by
//! the handle's slot.
use vstd::prelude::*;

use crate::handles::Handle;
use crate::sparse_set::{swap_removed, SparseSet};

verus! {

pub struct EntityRowProjection<H> {
    pub rows: SparseSet<H, u32>,
}

impl<H: Handle> EntityRowProjection<H> {
    pub open spec fn wf(&self) -> bool {
        self.rows.wf()
    }

    /// Projected handles in compact order.
    pub open spec fn spec_ids(&self) -> Seq<H> {
        self.rows.id_by_slot@
    }

    /// GPU rows in compact order.
    pub open spec fn spec_rows(&self) -> Seq<u32> {
        self.rows.value_by_slot@
    }

    pub open spec fn spec_len(&self) -> nat {
        self.rows.spec_len()
    }

    /// Some projected handle uses the entity slot `index`.
    pub open spec fn occupies(&self, index: u32) -> bool {
        self.rows.occupies(index)
    }

    pub open spec fn contains(&self, id: H) -> bool {
        self.rows.contains(id)
    }

    /// Compact slot of a projected handle.
    pub open spec fn place(&self, id: H) -> int {
        self.rows.place(id)
    }

    /// Nothing is projected.
    pub open spec fn is_fresh(&self) -> bool {
        &&& self.wf()
        &&& self.spec_ids() == Seq::<H>::empty()
        &&& self.spec_rows() == Seq::<u32>::empty()
        &&& self.rows@ == Map::<H, u32>::empty()
    }

    /// There is room for `id`: its entity slot is free, and compact slots are left.
    pub open spec fn can_take(&self, id: H) -> bool {
        &&& !self.occupies(id.spec_entity().index)
        &&& id.spec_entity().index < usize::MAX
        &&& self.spec_len() < u32::MAX
    }

    /// `after` has `id` at its end.
    pub open spec fn with_row(&self, after: &Self, id: H, gpu_row: u32) -> bool {
        &&& after.wf()
        &&& after.spec_ids() == self.spec_ids().push(id)
        &&& after.spec_rows() == self.spec_rows().push(gpu_row)
        &&& after.rows@ == self.rows@.insert(id, gpu_row)
        &&& forall|index: u32|
            #[trigger] after.occupies(index) <==> self.occupies(index) || index
                == id.spec_entity().index
    }

    /// `after` is without `id`, which stood at `compact_slot` if it was projected.
    pub open spec fn without_row(&self, after: &Self, id: H, compact_slot: Option<usize>) -> bool {
        &&& after.wf()
        &&& after.rows@ == self.rows@.remove(id)
        &&& match compact_slot {
            Some(i) => {
                &&& self.contains(id)
                &&& i == self.place(id)
                &&& after.spec_ids() == swap_removed(self.spec_ids(), i as int)
                &&& after.spec_rows() == swap_removed(self.spec_rows(), i as int)
                &&& forall|index: u32|
                    #[trigger] after.occupies(index) <==> self.occupies(index) && index
                        != id.spec_entity().index
            },
            None => !self.contains(id) && *after == *self,
        }
    }

    pub fn new() -> (projection: Self)
        ensures
            projection.is_fresh(),
    {
        EntityRowProjection { rows: SparseSet::new() }
    }

    /// Appends `id` and returns its compact slot.
    pub fn insert(&mut self, id: H, gpu_row: u32) -> (compact_slot: usize)
        requires
            old(self).wf(),
            old(self).can_take(id),
        ensures
            compact_slot == old(self).spec_len(),
            old(self).with_row(final(self), id, gpu_row),
    {
        let compact_slot: usize = self.rows.insert(id, gpu_row);
        assert forall|index: u32|
            #[trigger] self.occupies(index) <==> old(self).occupies(index) || index
                == id.spec_entity().index by {
            assert(self.rows.occupies(index) <==> old(self).rows.occupies(index) || index
                == id.spec_entity().index);
        }
        compact_slot
    }

    /// Removes `id` if it is projected; the last member takes its compact slot.
    pub fn remove(&mut self, id: H) -> (compact_slot: Option<usize>)
        requires
            old(self).wf(),
        ensures
            old(self).without_row(final(self), id, compact_slot),
    {
        let compact_slot = self.rows.remove(id);
        assert(compact_slot.is_some() ==> forall|index: u32|
            #[trigger] self.occupies(index) <==> old(self).occupies(index) && index
                != id.spec_entity().index) by {
            assert(compact_slot.is_some() ==> forall|index: u32|
                #[trigger] self.rows.occupies(index) <==> old(self).rows.occupies(index) && index
                    != id.spec_entity().index);
        }
        compact_slot
    }

    /// Compact slot of `id`, if it is projected in this very generation.
    pub fn slot(&self, id: H) -> (compact_slot: Option<usize>)
        requires
            self.wf(),
        ensures
            match compact_slot {
                Some(i) => self.contains(id) && i == self.place(id) && i < self.spec_len()
                    && self.spec_ids()[i as int] == id,
                None => !self.contains(id) && !self.spec_ids().contains(id),
            },
    {
        proof {
            self.rows.lemma_contains(id);
        }
        self.rows.slot(id)
    }

    pub fn ids(&self) -> (ids: &[H])
        ensures
            ids@ == self.spec_ids(),
    {
        self.rows.id_by_slot.as_slice()
    }

    pub fn rows(&self) -> (rows: &[u32])
        ensures
            rows@ == self.spec_rows(),
    {
        self.rows.value_by_slot.as_slice()
    }

    pub fn row(&self, compact_slot: usize) -> (row: Option<u32>)
        ensures
            row == if compact_slot < self.spec_rows().len() {
                Some(self.spec_rows()[compact_slot as int])
            } else {
                None::<u32>
            },
    {
        if compact_slot < self.rows.value_by_slot.len() {
            Some(self.rows.value_by_slot[compact_slot])
        } else {
            None
        }
    }

    pub fn len(&self) -> (len: usize)
        ensures
            len == self.spec_len(),
    {
        self.rows.len()
    }

    pub fn is_empty(&self) -> (empty: bool)
        ensures
            empty == (self.spec_len() == 0),
    {
        self.rows.len() == 0
    }
}

/// A removed handle is no longer projected, every other one still is, and each
/// keeps the GPU row it was given.
pub proof fn lemma_removal_keeps_other_rows<H: Handle>(
    before: EntityRowProjection<H>,
    after: EntityRowProjection<H>,
    id: H,
    other: H,
)
    requires
        before.wf(),
        after.wf(),
        after.rows@ == before.rows@.remove(id),
    ensures
        !after.contains(id),
        other != id ==> (after.contains(other) <==> before.contains(other)),
        other != id && before.contains(other) ==> after.spec_rows()[after.place(other)]
            == before.spec_rows()[before.place(other)],
{
    before.rows.lemma_contains(id);
    after.rows.lemma_contains(id);
    before.rows.lemma_contains(other);
    after.rows.lemma_contains(other);
}

/// A handle of another generation of a projected slot is not projected.
pub proof fn lemma_stale_generation_is_absent<H: Handle>(
    projection: EntityRowProjection<H>,
    live: H,
    stale: H,
)
    requires
        projection.wf(),
        projection.contains(live),
        stale.spec_entity().index == live.spec_entity().index,
        stale.spec_entity().generation != live.spec_entity().generation,
    ensures
        !projection.contains(stale),
{
}

} // verus!
