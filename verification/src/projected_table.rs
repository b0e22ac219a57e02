//! Records with a compact list of their GPU rows.
use vstd::prelude::*;

use crate::entity_projection::EntityRowProjection;
use crate::handles::Handle;
use crate::sparse_set::{swap_removed, SparseSet};

verus! {

/// Authored records, and the GPU row of each in compact order.
pub struct ProjectedTable<H, R> {
    pub records: SparseSet<H, R>,
    pub projection: EntityRowProjection<H>,
}

impl<H: Handle, R> View for ProjectedTable<H, R> {
    type V = Map<H, R>;

    open spec fn view(&self) -> Map<H, R> {
        self.records@
    }
}

impl<H: Handle, R> ProjectedTable<H, R> {
    /// Records and rows stand in the same compact order.
    pub open spec fn wf(&self) -> bool {
        &&& self.records.wf()
        &&& self.projection.wf()
        &&& self.records.id_by_slot@ == self.projection.spec_ids()
    }

    pub open spec fn spec_ids(&self) -> Seq<H> {
        self.records.id_by_slot@
    }

    pub open spec fn spec_rows(&self) -> Seq<u32> {
        self.projection.spec_rows()
    }

    pub open spec fn spec_len(&self) -> nat {
        self.records.spec_len()
    }

    pub open spec fn occupies(&self, index: u32) -> bool {
        self.records.occupies(index)
    }

    /// Compact slot of a live handle.
    pub open spec fn place(&self, id: H) -> int {
        self.records.place(id)
    }

    /// GPU row of a live handle.
    pub open spec fn row_of(&self, id: H) -> u32 {
        self.spec_rows()[self.place(id)]
    }

    /// `after` is `self` with `id` appended.
    pub open spec fn inserted(&self, after: &Self, id: H, gpu_row: u32, record: R) -> bool {
        &&& after@ == self@.insert(id, record)
        &&& after.spec_ids() == self.spec_ids().push(id)
        &&& after.spec_rows() == self.spec_rows().push(gpu_row)
        &&& forall|index: u32|
            #[trigger] after.occupies(index) <==> self.occupies(index) || index
                == id.spec_entity().index
    }

    /// `after` is `self` without `id`; the last entry took its compact slot.
    pub open spec fn removed(&self, after: &Self, id: H) -> bool {
        &&& after@ == self@.remove(id)
        &&& after.spec_ids() == swap_removed(self.spec_ids(), self.place(id))
        &&& after.spec_rows() == swap_removed(self.spec_rows(), self.place(id))
        &&& after.spec_len() == self.spec_len() - 1
        &&& forall|index: u32|
            #[trigger] after.occupies(index) <==> self.occupies(index) && index
                != id.spec_entity().index
    }

    /// `after` is `self` with another record for `id`.
    pub open spec fn replaced(&self, after: &Self, id: H, record: R) -> bool {
        &&& after@ == self@.insert(id, record)
        &&& after.records.id_by_slot == self.records.id_by_slot
        &&& after.records.slot_by_entity == self.records.slot_by_entity
        &&& after.projection == self.projection
    }

    proof fn lemma_slots_agree(&self, index: u32)
        requires
            self.wf(),
        ensures
            self.projection.occupies(index) <==> self.records.occupies(index),
    {
        let a = self.records;
        let b = self.projection.rows;
        if a.occupies(index) {
            let p = a.slot_by_entity@[index as int] as int;
            assert(a.id_by_slot@[p].spec_entity().index == index);
            assert(b.id_by_slot@[p].spec_entity().index == index);
            assert(b.slot_by_entity@[index as int] == p);
        }
        if b.occupies(index) {
            let p = b.slot_by_entity@[index as int] as int;
            assert(b.id_by_slot@[p].spec_entity().index == index);
            assert(a.id_by_slot@[p].spec_entity().index == index);
            assert(a.slot_by_entity@[index as int] == p);
        }
    }

    /// The two sides find a live handle at the same place.
    pub proof fn lemma_places_agree(&self, id: H)
        requires
            self.wf(),
        ensures
            self.projection.contains(id) <==> self@.contains_key(id),
            self@.contains_key(id) ==> self.projection.place(id) == self.place(id) && 0
                <= self.place(id) < self.spec_len() && self.spec_ids()[self.place(id)] == id,
    {
        self.records.lemma_contains(id);
        self.projection.rows.lemma_contains(id);
        if self@.contains_key(id) {
            self.projection.rows.lemma_dense(self.place(id));
        }
    }

    /// The entry at a compact slot.
    pub proof fn lemma_dense(&self, i: int)
        requires
            self.wf(),
            0 <= i < self.spec_len(),
        ensures
            self@.contains_key(self.spec_ids()[i]),
            self.place(self.spec_ids()[i]) == i,
            self.row_of(self.spec_ids()[i]) == self.spec_rows()[i],
            self@[self.spec_ids()[i]] == self.records.value_by_slot@[i],
    {
        self.records.lemma_dense(i);
    }

    pub fn new() -> (table: Self)
        ensures
            table.wf(),
            table@ == Map::<H, R>::empty(),
            table.spec_ids() == Seq::<H>::empty(),
            table.spec_rows() == Seq::<u32>::empty(),
    {
        ProjectedTable { records: SparseSet::new(), projection: EntityRowProjection::new() }
    }

    pub fn insert(&mut self, id: H, gpu_row: u32, record: R)
        requires
            old(self).wf(),
            !old(self).occupies(id.spec_entity().index),
            id.spec_entity().index < usize::MAX,
            old(self).spec_len() < u32::MAX,
        ensures
            final(self).wf(),
            old(self).inserted(final(self), id, gpu_row, record),
    {
        proof {
            self.lemma_slots_agree(id.spec_entity().index);
        }
        self.records.insert(id, record);
        self.projection.insert(id, gpu_row);
        assert forall|index: u32| #[trigger] self.occupies(index) <==> old(self).occupies(index)
            || index == id.spec_entity().index by {
            assert(self.records.occupies(index) <==> old(self).records.occupies(index) || index
                == id.spec_entity().index);
        }
    }

    /// Removes `id` if it is live, and tells whether it was.
    pub fn remove(&mut self, id: H) -> (found: bool)
        requires
            old(self).wf(),
        ensures
            final(self).wf(),
            found == old(self)@.contains_key(id),
            if found {
                old(self).removed(final(self), id)
            } else {
                *final(self) == *old(self)
            },
    {
        proof {
            self.lemma_places_agree(id);
        }
        match self.records.remove(id) {
            Some(place) => {
                self.projection.remove(id);
                assert forall|index: u32|
                    #[trigger] self.occupies(index) <==> old(self).occupies(index) && index
                        != id.spec_entity().index by {
                    assert(self.records.occupies(index) <==> old(self).records.occupies(index)
                        && index != id.spec_entity().index);
                }
                true
            },
            None => false,
        }
    }

    pub fn get(&self, id: H) -> (record: Option<&R>)
        requires
            self.wf(),
        ensures
            match record {
                Some(r) => self@.contains_key(id) && *r == self@[id],
                None => !self@.contains_key(id),
            },
    {
        self.records.get(id)
    }

    pub fn is_live(&self, id: H) -> (live: bool)
        requires
            self.wf(),
        ensures
            live == self@.contains_key(id),
    {
        self.records.is_live(id)
    }

    /// GPU row of a live handle.
    pub fn row(&self, id: H) -> (row: Option<u32>)
        requires
            self.wf(),
        ensures
            row == if self@.contains_key(id) {
                Some(self.row_of(id))
            } else {
                None::<u32>
            },
    {
        proof {
            self.lemma_places_agree(id);
        }
        match self.records.slot(id) {
            Some(place) => Some(self.projection.rows.value_by_slot[place]),
            None => None,
        }
    }

    pub fn set(&mut self, id: H, record: R)
        requires
            old(self).wf(),
            old(self)@.contains_key(id),
        ensures
            final(self).wf(),
            old(self).replaced(final(self), id, record),
    {
        self.records.set(id, record);
    }

    pub fn len(&self) -> (len: usize)
        ensures
            len == self.spec_len(),
    {
        self.records.len()
    }

    pub fn ids(&self) -> (ids: &[H])
        ensures
            ids@ == self.spec_ids(),
    {
        self.records.id_by_slot.as_slice()
    }

    pub fn rows(&self) -> (rows: &[u32])
        ensures
            rows@ == self.spec_rows(),
    {
        self.projection.rows()
    }
}

} // verus!
