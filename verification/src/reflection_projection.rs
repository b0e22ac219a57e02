//! Active reflection captures with their cube layers.
use vstd::prelude::*;

use crate::entity_projection::EntityRowProjection;
use crate::handles::ReflectionCaptureId;
use crate::sparse_set::swap_removed;

verus! {

/// Layer of a capture without a baked probe.
pub const NO_LAYER: i32 = -1;

pub struct ReflectionProjection {
    pub active: EntityRowProjection<ReflectionCaptureId>,
    /// Cube-array layer of each compact slot; `-1` means that the capture has no
    /// resident probe and contributes nothing.
    pub layers: Vec<i32>,
}

impl ReflectionProjection {
    pub open spec fn wf(&self) -> bool {
        self.active.wf() && self.layers@.len() == self.active.spec_len()
    }

    /// Layer of a projected capture.
    pub open spec fn layer_of(&self, id: ReflectionCaptureId) -> i32 {
        self.layers@[self.active.place(id)]
    }

    pub fn new() -> (projection: Self)
        ensures
            projection.wf(),
            projection.active.spec_ids() == Seq::<ReflectionCaptureId>::empty(),
            projection.active.spec_rows() == Seq::<u32>::empty(),
            projection.active.rows@ == Map::<ReflectionCaptureId, u32>::empty(),
            projection.layers@ == Seq::<i32>::empty(),
    {
        ReflectionProjection { active: EntityRowProjection::new(), layers: Vec::new() }
    }

    /// Appends a capture without a layer.
    pub fn insert(&mut self, id: ReflectionCaptureId, gpu_row: u32)
        requires
            old(self).wf(),
            !old(self).active.occupies(id.0.index),
            id.0.index < usize::MAX,
            old(self).active.spec_len() < u32::MAX,
        ensures
            final(self).wf(),
            final(self).active.spec_ids() == old(self).active.spec_ids().push(id),
            final(self).active.spec_rows() == old(self).active.spec_rows().push(gpu_row),
            final(self).active.rows@ == old(self).active.rows@.insert(id, gpu_row),
            final(self).layers@ == old(self).layers@.push(NO_LAYER),
            forall|index: u32|
                #[trigger] final(self).active.occupies(index) <==> old(self).active.occupies(index)
                    || index == id.0.index,
    {
        self.active.insert(id, gpu_row);
        self.layers.push(NO_LAYER);
    }

    /// Removes a capture and tells whether it was there. The last capture takes
    /// its compact slot and brings its layer along.
    pub fn remove(&mut self, id: ReflectionCaptureId) -> (removed: bool)
        requires
            old(self).wf(),
        ensures
            final(self).wf(),
            removed == old(self).active.contains(id),
            final(self).active.rows@ == old(self).active.rows@.remove(id),
            if removed {
                let i = old(self).active.place(id);
                &&& final(self).active.spec_ids() == swap_removed(old(self).active.spec_ids(), i)
                &&& final(self).active.spec_rows() == swap_removed(old(self).active.spec_rows(), i)
                &&& final(self).layers@ == swap_removed(old(self).layers@, i)
                &&& forall|index: u32|
                    #[trigger] final(self).active.occupies(index) <==> old(
                        self,
                    ).active.occupies(index) && index != id.0.index
            } else {
                *final(self) == *old(self)
            },
    {
        match self.active.remove(id) {
            Some(compact) => {
                self.layers.swap_remove(compact);
                assert(self.layers@ =~= swap_removed(old(self).layers@, compact as int));
                true
            },
            None => false,
        }
    }

    pub fn layer(&self, id: ReflectionCaptureId) -> (layer: Option<i32>)
        requires
            self.wf(),
        ensures
            layer == if self.active.contains(id) {
                Some(self.layer_of(id))
            } else {
                None::<i32>
            },
    {
        match self.active.slot(id) {
            Some(slot) => Some(self.layers[slot]),
            None => None,
        }
    }

    /// Sets the layer of a capture and tells whether it was there.
    pub fn set_layer(&mut self, id: ReflectionCaptureId, layer: i32) -> (found: bool)
        requires
            old(self).wf(),
        ensures
            final(self).wf(),
            final(self).active == old(self).active,
            found == old(self).active.contains(id),
            final(self).layers@ == if found {
                old(self).layers@.update(old(self).active.place(id), layer)
            } else {
                old(self).layers@
            },
    {
        match self.active.slot(id) {
            Some(slot) => {
                self.layers.set(slot, layer);
                true
            },
            None => false,
        }
    }

    pub fn ids(&self) -> (ids: &[ReflectionCaptureId])
        ensures
            ids@ == self.active.spec_ids(),
    {
        self.active.ids()
    }

    pub fn rows(&self) -> (rows: &[u32])
        ensures
            rows@ == self.active.spec_rows(),
    {
        self.active.rows()
    }

    pub fn len(&self) -> (len: usize)
        ensures
            len == self.active.spec_len(),
    {
        self.active.len()
    }
}

/// A removal leaves every other capture with the layer it had.
pub proof fn lemma_removal_preserves_layers(
    before: ReflectionProjection,
    after: ReflectionProjection,
    id: ReflectionCaptureId,
    other: ReflectionCaptureId,
)
    requires
        before.wf(),
        after.wf(),
        before.active.contains(id),
        before.active.contains(other),
        other != id,
        after.active.spec_ids() == swap_removed(before.active.spec_ids(), before.active.place(id)),
        after.layers@ == swap_removed(before.layers@, before.active.place(id)),
    ensures
        after.active.contains(other),
        after.layer_of(other) == before.layer_of(other),
{
    let gap = before.active.place(id);
    let from = before.active.place(other);
    let last = before.active.spec_len() - 1;
    let to = if from == last { gap } else { from };
    assert(before.active.rows.id_by_slot@[from] == other);
    assert(before.active.rows.id_by_slot@[gap] == id);
    assert(after.active.spec_ids()[to] == other);
    after.active.rows.lemma_contains(other);
    after.active.rows.lemma_dense(to);
}

} // verus!
