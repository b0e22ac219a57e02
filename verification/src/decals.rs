//! Decals.
use vstd::prelude::*;

use crate::actors::SceneActorId;
use crate::entity_projection::EntityRowProjection;
use crate::handles::DecalId;
use crate::projected_table::ProjectedTable;
use crate::rows::{Movability, NewRow};
use crate::scene::Scene;
use crate::words::same_words;

verus! {

/// A decal row as shaders read it.
#[derive(Clone, Copy, Debug)]
pub struct GpuDecal {
    pub words: [u32; 32],
}

#[derive(Clone, Copy, Debug)]
pub struct DecalRecord {
    pub row: GpuDecal,
    pub movability: Movability,
    pub user_tag: u64,
}

/// Live decals with the GPU rows that shaders walk.
pub type Decals = ProjectedTable<DecalId, DecalRecord>;

pub type DecalProjection = EntityRowProjection<DecalId>;

impl Scene {
    /// Inserts a movable decal without a tag.
    pub fn insert_decal(&mut self, new: NewRow, decal: GpuDecal) -> (id: DecalId)
        requires
            old(self).wf(),
            !old(self).decals.occupies(new.entity.index),
            new.entity.index < usize::MAX,
            old(self).decals.spec_len() < u32::MAX,
        ensures
            final(self).wf(),
            id == DecalId(new.entity),
            *final(self) == (Scene { decals: final(self).decals, ..*old(self) }),
            old(self).decals.inserted(
                &final(self).decals,
                id,
                new.gpu_row,
                (DecalRecord { row: decal, movability: Movability::Movable, user_tag: 0 }),
            ),
    {
        self.insert_decal_with_tag(new, decal, 0, None)
    }

    /// `after` is `self` with a fresh decal.
    pub open spec fn decal_inserted(
        &self,
        after: &Scene,
        new: NewRow,
        decal: GpuDecal,
        user_tag: u64,
        movability: Option<Movability>,
        id: DecalId,
    ) -> bool {
        &&& id == DecalId(new.entity)
        &&& *after == (Scene { decals: after.decals, ..*self })
        &&& self.decals.inserted(
            &after.decals,
            id,
            new.gpu_row,
            (DecalRecord {
                row: decal,
                movability: match movability {
                    Some(m) => m,
                    None => Movability::Movable,
                },
                user_tag,
            }),
        )
    }

    /// Inserts a decal. Decals are movable unless they are said to be otherwise;
    /// all of them are projected.
    pub fn insert_decal_with_tag(
        &mut self,
        new: NewRow,
        decal: GpuDecal,
        user_tag: u64,
        movability: Option<Movability>,
    ) -> (id: DecalId)
        requires
            old(self).wf(),
            !old(self).decals.occupies(new.entity.index),
            new.entity.index < usize::MAX,
            old(self).decals.spec_len() < u32::MAX,
        ensures
            final(self).wf(),
            old(self).decal_inserted(final(self), new, decal, user_tag, movability, id),
    {
        let movability: Movability = match movability {
            Some(m) => m,
            None => Movability::Movable,
        };
        let id = DecalId(new.entity);
        self.decals.insert(id, new.gpu_row, DecalRecord { row: decal, movability, user_tag });
        id
    }

    /// `after` is `self` without a decal and the actors that belong to it.
    pub open spec fn decal_removed(&self, after: &Scene, id: DecalId) -> bool {
        &&& *after == (Scene {
            decals: after.decals,
            actors: after.actors,
            data: after.data,
            ..*self
        })
        &&& self.decals.removed(&after.decals, id)
        &&& self.detached(SceneActorId::Decal(id), after)
    }

    /// Removes a decal and the actors that belong to it; tells whether it was live.
    pub fn remove_decal(&mut self, id: DecalId) -> (removed: bool)
        requires
            old(self).wf(),
        ensures
            final(self).wf(),
            removed == old(self).decals@.contains_key(id),
            if removed {
                old(self).decal_removed(final(self), id)
            } else {
                *final(self) == *old(self)
            },
    {
        if !self.decals.remove(id) {
            return false;
        }
        self.detach_actors_for_target(SceneActorId::Decal(id));
        true
    }

    /// `after` is `self` with another decal under `id`.
    pub open spec fn decal_updated(
        &self,
        after: &Scene,
        id: DecalId,
        decal: GpuDecal,
        live: bool,
    ) -> bool {
        &&& live == self.decals@.contains_key(id)
        &&& *after == (Scene { decals: after.decals, ..*self })
        &&& if live && self.decals@[id].row != decal {
            self.decals.replaced(
                &after.decals,
                id,
                (DecalRecord { row: decal, ..self.decals@[id] }),
            )
        } else {
            after.decals == self.decals
        }
    }

    /// Replaces a decal's row; tells whether the decal is live.
    pub fn update_decal(&mut self, id: DecalId, decal: GpuDecal) -> (live: bool)
        requires
            old(self).wf(),
        ensures
            final(self).wf(),
            old(self).decal_updated(final(self), id, decal, live),
    {
        let record: DecalRecord = match self.decals.get(id) {
            Some(record) => *record,
            None => {
                return false;
            },
        };
        if same_words(&record.row.words, &decal.words) {
            return true;
        }
        self.decals.set(
            id,
            DecalRecord { row: decal, movability: record.movability, user_tag: record.user_tag },
        );
        true
    }

    pub fn decal_count(&self) -> (count: usize)
        ensures
            count == self.decals.spec_len(),
    {
        self.decals.len()
    }

    /// All decals with their tags.
    pub fn iter_decals(&self) -> (list: Vec<(DecalId, GpuDecal, u64)>)
        requires
            self.wf(),
        ensures
            list@.len() == self.decals.spec_len(),
            forall|i: int|
                0 <= i < list@.len() ==> (#[trigger] list@[i]).0 == self.decals.spec_ids()[i]
                    && list@[i].1 == self.decals@[list@[i].0].row && list@[i].2
                    == self.decals@[list@[i].0].user_tag,
    {
        let mut list: Vec<(DecalId, GpuDecal, u64)> = Vec::new();
        let mut i: usize = 0;
        while i < self.decals.records.id_by_slot.len()
            invariant
                0 <= i <= self.decals.spec_len(),
                self.decals.wf(),
                list@.len() == i,
                forall|j: int|
                    0 <= j < i ==> (#[trigger] list@[j]).0 == self.decals.spec_ids()[j]
                        && list@[j].1 == self.decals@[list@[j].0].row && list@[j].2
                        == self.decals@[list@[j].0].user_tag,
            decreases self.decals.spec_len() - i,
        {
            proof {
                self.decals.lemma_dense(i as int);
            }
            let id: DecalId = self.decals.records.id_by_slot[i];
            let record: DecalRecord = self.decals.records.value_by_slot[i];
            list.push((id, record.row, record.user_tag));
            i = i + 1;
        }
        list
    }

    pub fn get_decal(&self, id: DecalId) -> (decal: Option<GpuDecal>)
        requires
            self.wf(),
        ensures
            decal == if self.decals@.contains_key(id) {
                Some(self.decals@[id].row)
            } else {
                None::<GpuDecal>
            },
    {
        match self.decals.get(id) {
            Some(record) => Some(record.row),
            None => None,
        }
    }
}

} // verus!
