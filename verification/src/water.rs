//! Water volumes, their heightfields, and water hitboxes.
use vstd::prelude::*;

use crate::actors::SceneActorId;
use crate::errors::{invalid, Result, SceneError};
use crate::float_bits::F32;
use crate::handles::{Handle, WaterHitboxId, WaterVolumeId};
use crate::projected_table::ProjectedTable;
use crate::rows::NewRow;
use crate::scene::Scene;
use crate::sparse_set::{swap_removed, SparseSet};
use crate::water_projection::{
    WaterVolumeProjection, WATER_SIM_SLOT_COUNT, WATER_SIM_SLOT_UNASSIGNED,
};
use crate::water_rows::{
    validate_water_simulation, water_simulation_error, GpuWaterHitbox, GpuWaterVolume,
    WaterHitboxDescriptor, WaterUnitVectors, WaterVolumeDescriptor,
};

verus! {

#[derive(Clone, Copy, Debug)]
pub struct WaterVolumeRecord {
    pub row: GpuWaterVolume,
    pub user_tag: u64,
}

#[derive(Clone, Copy, Debug)]
pub struct WaterHitboxRecord {
    pub row: GpuWaterHitbox,
    pub user_tag: u64,
}

pub struct Water {
    pub volumes: SparseSet<WaterVolumeId, WaterVolumeRecord>,
    pub projection: WaterVolumeProjection,
    /// Advances whenever a heightfield gets a new occupant, so that effects queued
    /// for the old one can be told apart.
    pub slot_generations: [u64; 8],
    pub hitboxes: ProjectedTable<WaterHitboxId, WaterHitboxRecord>,
}

impl Water {
    pub open spec fn wf(&self) -> bool {
        &&& self.volumes.wf()
        &&& self.projection.wf()
        &&& self.volumes.id_by_slot@ == self.projection.active.spec_ids()
        &&& self.hitboxes.wf()
    }

    /// GPU row of a live volume.
    pub open spec fn row_of(&self, id: WaterVolumeId) -> u32 {
        self.projection.active.spec_rows()[self.volumes.place(id)]
    }

    /// Records and projection find a live volume at the same place.
    pub proof fn lemma_places_agree(&self, id: WaterVolumeId)
        requires
            self.wf(),
        ensures
            self.projection.active.contains(id) <==> self.volumes@.contains_key(id),
            self.volumes@.contains_key(id) ==> self.projection.active.place(id)
                == self.volumes.place(id) && 0 <= self.volumes.place(id)
                < self.volumes.spec_len(),
    {
        self.volumes.lemma_contains(id);
        self.projection.active.rows.lemma_contains(id);
        if self.volumes@.contains_key(id) {
            self.projection.active.rows.lemma_dense(self.volumes.place(id));
        }
    }

    proof fn lemma_slots_agree(&self, index: u32)
        requires
            self.wf(),
            !self.volumes.occupies(index),
        ensures
            !self.projection.active.occupies(index),
    {
        let b = self.projection.active.rows;
        if b.occupies(index) {
            let p = b.slot_by_entity@[index as int] as int;
            assert(b.id_by_slot@[p].spec_entity().index == index);
            assert(self.volumes.id_by_slot@[p].spec_entity().index == index);
        }
    }

    /// Gives a heightfield's generation the next value.
    pub open spec fn bumped(&self, slot: u32, after: [u64; 8]) -> bool {
        forall|s: int|
            0 <= s < 8 ==> #[trigger] after[s] == if s == slot {
                self.slot_generations[s].wrapping_add(1)
            } else {
                self.slot_generations[s]
            }
    }

    fn reset_slot(&mut self, slot: u32)
        requires
            slot < WATER_SIM_SLOT_COUNT,
        ensures
            *final(self) == (Water { slot_generations: final(self).slot_generations, ..*old(self) }),
            old(self).bumped(slot, final(self).slot_generations),
    {
        let i: usize = slot as usize;
        self.slot_generations[i] = self.slot_generations[i].wrapping_add(1);
    }
}

/// Heightfield of a live volume, with what tells its occupants apart.
#[derive(Clone, Copy, Debug, PartialEq, Eq, Structural)]
pub struct WaterSimulationTarget {
    pub sim_slot: u32,
    pub canonical_row: u32,
    pub residency_generation: u64,
}

/// A point of a simulated volume at which an impulse may be applied.
#[derive(Clone, Copy, Debug)]
pub struct WaterDropTarget {
    pub simulation: WaterSimulationTarget,
    pub world_center: [F32; 2],
}

/// The error of a volume that waits for a heightfield.
pub open spec fn no_residency_error() -> SceneError {
    SceneError::InvalidOperation { reason: "water volume has no simulation residency" }
}

/// The error of an impulse outside the volume.
pub open spec fn drop_error() -> SceneError {
    SceneError::InvalidOperation {
        reason: "water drop centre must be finite and inside non-degenerate volume bounds",
    }
}

/// The point lies in the horizontal bounds of the volume, and all of it is finite
/// and not degenerate.
pub open spec fn drop_inside(volume: GpuWaterVolume, center: [F32; 2]) -> bool {
    let min = volume.bounds_min;
    let max = volume.bounds_max;
    &&& center[0].spec_is_finite() && center[1].spec_is_finite()
    &&& min[0].spec_is_finite() && min[2].spec_is_finite()
    &&& max[0].spec_is_finite() && max[2].spec_is_finite()
    &&& min[0].spec_lt(max[0]) && min[2].spec_lt(max[2])
    &&& min[0].spec_le(center[0]) && center[0].spec_le(max[0])
    &&& min[2].spec_le(center[1]) && center[1].spec_le(max[2])
}

impl Scene {
    /// Inserts a volume without a tag.
    pub fn insert_water_volume(
        &mut self,
        new: NewRow,
        desc: WaterVolumeDescriptor,
        units: WaterUnitVectors,
    ) -> (result: Result<WaterVolumeId>)
        requires
            old(self).wf(),
            !old(self).water.volumes.occupies(new.entity.index),
            new.entity.index < usize::MAX,
            old(self).water.volumes.spec_len() < u32::MAX,
        ensures
            final(self).wf(),
            old(self).water_volume_inserted(final(self), new, desc, units, 0, result),
    {
        self.insert_water_volume_with_tag(new, desc, units, 0)
    }

    /// `after` is `self` with the volume inserted, or `self` if its simulation
    /// parameters are not in order.
    pub open spec fn water_volume_inserted(
        &self,
        after: &Scene,
        new: NewRow,
        desc: WaterVolumeDescriptor,
        units: WaterUnitVectors,
        user_tag: u64,
        result: Result<WaterVolumeId>,
    ) -> bool {
        let id = WaterVolumeId(new.entity);
        if !desc.simulates() {
            result == Err::<WaterVolumeId, _>(water_simulation_error()) && *after == *self
        } else {
            &&& result == Ok::<_, SceneError>(id)
            &&& *after == (Scene { water: after.water, ..*self })
            &&& after.water.hitboxes == self.water.hitboxes
            &&& exists|row: GpuWaterVolume| #[trigger]
                desc.describes(row, units) && after.water.volumes@ == self.water.volumes@.insert(
                    id,
                    WaterVolumeRecord { row, user_tag },
                )
            &&& after.water.projection.active.spec_ids()
                == self.water.projection.active.spec_ids().push(id)
            &&& after.water.projection.active.spec_rows()
                == self.water.projection.active.spec_rows().push(new.gpu_row)
            &&& if self.water.projection.free_sim_slots@.len() > 0 {
                let slot = self.water.projection.free_sim_slots@.last();
                &&& after.water.projection.sim_slots@ == self.water.projection.sim_slots@.push(
                    slot,
                )
                &&& after.water.projection.free_sim_slots@
                    == self.water.projection.free_sim_slots@.drop_last()
                &&& self.water.bumped(slot, after.water.slot_generations)
            } else {
                &&& after.water.projection.sim_slots@ == self.water.projection.sim_slots@.push(
                    WATER_SIM_SLOT_UNASSIGNED,
                )
                &&& after.water.projection.free_sim_slots@
                    == self.water.projection.free_sim_slots@
                &&& after.water.slot_generations == self.water.slot_generations
            }
        }
    }

    /// Inserts a volume. It gets a heightfield if one is free.
    pub fn insert_water_volume_with_tag(
        &mut self,
        new: NewRow,
        desc: WaterVolumeDescriptor,
        units: WaterUnitVectors,
        user_tag: u64,
    ) -> (result: Result<WaterVolumeId>)
        requires
            old(self).wf(),
            !old(self).water.volumes.occupies(new.entity.index),
            new.entity.index < usize::MAX,
            old(self).water.volumes.spec_len() < u32::MAX,
        ensures
            final(self).wf(),
            old(self).water_volume_inserted(final(self), new, desc, units, user_tag, result),
    {
        match validate_water_simulation(&desc) {
            Err(error) => {
                return Err(error);
            },
            Ok(_) => {},
        }
        let id = WaterVolumeId(new.entity);
        let row: GpuWaterVolume = desc.to_gpu(units);
        proof {
            self.water.lemma_slots_agree(new.entity.index);
        }
        self.water.volumes.insert(id, WaterVolumeRecord { row, user_tag });
        let (_, pair) = self.water.projection.insert(id, new.gpu_row);
        if pair[1] != WATER_SIM_SLOT_UNASSIGNED {
            proof {
                let slots = self.water.projection.sim_slots@;
                assert(slots[slots.len() - 1] == pair[1]);
            }
            self.water.reset_slot(pair[1]);
        }
        assert(desc.describes(row, units));
        Ok(id)
    }

    /// `after` is `self` without a water volume and the actors that belong to it. A
    /// heightfield that it had goes to the first volume without one.
    pub open spec fn water_volume_removed(&self, after: &Scene, id: WaterVolumeId) -> bool {
        let i = self.water.volumes.place(id);
        let remaining = swap_removed(self.water.projection.sim_slots@, i);
        let released = self.water.projection.sim_slots@[i];
        let slots = after.water.projection.sim_slots@;
        &&& *after == (Scene {
            water: after.water,
            actors: after.actors,
            data: after.data,
            ..*self
        })
        &&& self.detached(SceneActorId::WaterVolume(id), after)
        &&& after.water.hitboxes == self.water.hitboxes
        &&& after.water.volumes@ == self.water.volumes@.remove(id)
        &&& after.water.volumes.spec_len() == self.water.volumes.spec_len() - 1
        &&& after.water.projection.active.spec_ids() == swap_removed(
            self.water.projection.active.spec_ids(),
            i,
        )
        &&& after.water.projection.active.spec_rows() == swap_removed(
            self.water.projection.active.spec_rows(),
            i,
        )
        &&& if released == WATER_SIM_SLOT_UNASSIGNED {
            &&& slots == remaining
            &&& after.water.projection.free_sim_slots@ == self.water.projection.free_sim_slots@
            &&& after.water.slot_generations == self.water.slot_generations
        } else if remaining.contains(WATER_SIM_SLOT_UNASSIGNED) {
            &&& exists|to: int|
                0 <= to < remaining.len() && #[trigger] remaining[to]
                    == WATER_SIM_SLOT_UNASSIGNED && (forall|j: int|
                    0 <= j < to ==> #[trigger] remaining[j] != WATER_SIM_SLOT_UNASSIGNED)
                    && slots == remaining.update(to, released)
            &&& after.water.projection.free_sim_slots@ == self.water.projection.free_sim_slots@
            &&& self.water.bumped(released, after.water.slot_generations)
        } else {
            &&& slots == remaining
            &&& after.water.projection.free_sim_slots@
                == self.water.projection.free_sim_slots@.push(released)
            &&& after.water.slot_generations == self.water.slot_generations
        }
    }

    /// Removes a volume and the actors that belong to it. Its heightfield goes to
    /// the first volume that waits for one, or becomes free.
    pub fn remove_water_volume(&mut self, id: WaterVolumeId) -> (result: Result<()>)
        requires
            old(self).wf(),
        ensures
            final(self).wf(),
            result == if old(self).water.volumes@.contains_key(id) {
                Ok::<(), SceneError>(())
            } else {
                Err(SceneError::InvalidHandle { resource: "water volume" })
            },
            if result is Ok {
                old(self).water_volume_removed(final(self), id)
            } else {
                *final(self) == *old(self)
            },
    {
        proof {
            self.water.lemma_places_agree(id);
        }
        if self.water.volumes.remove(id).is_none() {
            return Err(invalid("water volume"));
        }
        let ghost before = old(self).water;
        match self.water.projection.remove(id) {
            Some(removal) => {
                match removal.promoted {
                    Some((to, pair)) => {
                        proof {
                            let remaining = swap_removed(
                                before.projection.sim_slots@,
                                removal.compact as int,
                            );
                            assert(remaining[to as int] == WATER_SIM_SLOT_UNASSIGNED);
                            assert(remaining.contains(WATER_SIM_SLOT_UNASSIGNED));
                            let released = before.projection.sim_slots@[removal.compact as int];
                            assert(released < WATER_SIM_SLOT_COUNT);
                        }
                        self.water.reset_slot(pair[1]);
                    },
                    None => {},
                }
            },
            None => {
                assert(false);
            },
        }
        self.detach_actors_for_target(SceneActorId::WaterVolume(id));
        Ok(())
    }

    /// `after` is `self` with other water in a volume.
    pub open spec fn water_updated(
        &self,
        after: &Scene,
        id: WaterVolumeId,
        desc: WaterVolumeDescriptor,
        units: WaterUnitVectors,
        result: Result<()>,
    ) -> bool {
        &&& result == if !desc.simulates() {
            Err::<(), _>(water_simulation_error())
        } else if !self.water.volumes@.contains_key(id) {
            Err(SceneError::InvalidHandle { resource: "water volume" })
        } else {
            Ok(())
        }
        &&& result is Err ==> *after == *self
        &&& result is Ok ==> {
            &&& *after == (Scene { water: after.water, ..*self })
            &&& after.water == (Water {
                volumes: after.water.volumes,
                ..self.water
            })
            &&& exists|row: GpuWaterVolume| #[trigger]
                desc.describes(row, units) && after.water.volumes@ == self.water.volumes@.insert(
                    id,
                    (WaterVolumeRecord { row, ..self.water.volumes@[id] }),
                )
            &&& after.water.volumes.id_by_slot == self.water.volumes.id_by_slot
        }
    }

    /// Replaces a volume's row. Parameters are checked before the handle is.
    pub fn update_water_volume(
        &mut self,
        id: WaterVolumeId,
        desc: WaterVolumeDescriptor,
        units: WaterUnitVectors,
    ) -> (result: Result<()>)
        requires
            old(self).wf(),
        ensures
            final(self).wf(),
            old(self).water_updated(final(self), id, desc, units, result),
    {
        match validate_water_simulation(&desc) {
            Err(error) => {
                return Err(error);
            },
            Ok(_) => {},
        }
        let row: GpuWaterVolume = desc.to_gpu(units);
        let record: WaterVolumeRecord = match self.water.volumes.get(id) {
            Some(record) => *record,
            None => {
                return Err(invalid("water volume"));
            },
        };
        assert(desc.describes(row, units));
        if record.row.same(&row) {
            proof {
                assert(self.water.volumes@ =~= old(self).water.volumes@.insert(
                    id,
                    WaterVolumeRecord { row, user_tag: record.user_tag },
                ));
            }
            return Ok(());
        }
        self.water.volumes.set(id, WaterVolumeRecord { row, user_tag: record.user_tag });
        Ok(())
    }

    pub fn get_water_volume(&self, id: WaterVolumeId) -> (volume: Option<GpuWaterVolume>)
        requires
            self.wf(),
        ensures
            volume == if self.water.volumes@.contains_key(id) {
                Some(self.water.volumes@[id].row)
            } else {
                None::<GpuWaterVolume>
            },
    {
        match self.water.volumes.get(id) {
            Some(record) => Some(record.row),
            None => None,
        }
    }

    /// All volumes with their tags, in compact order.
    pub fn iter_water_volumes(&self) -> (list: Vec<(WaterVolumeId, GpuWaterVolume, u64)>)
        requires
            self.wf(),
        ensures
            list@.len() == self.water.volumes.spec_len(),
            forall|i: int|
                0 <= i < list@.len() ==> (#[trigger] list@[i]).0
                    == self.water.projection.active.spec_ids()[i] && list@[i].1
                    == self.water.volumes@[list@[i].0].row && list@[i].2
                    == self.water.volumes@[list@[i].0].user_tag,
    {
        let mut list: Vec<(WaterVolumeId, GpuWaterVolume, u64)> = Vec::new();
        let mut i: usize = 0;
        while i < self.water.volumes.id_by_slot.len()
            invariant
                0 <= i <= self.water.volumes.spec_len(),
                self.water.wf(),
                list@.len() == i,
                forall|j: int|
                    0 <= j < i ==> (#[trigger] list@[j]).0 == self.water.volumes.id_by_slot@[j]
                        && list@[j].1 == self.water.volumes@[list@[j].0].row && list@[j].2
                        == self.water.volumes@[list@[j].0].user_tag,
            decreases self.water.volumes.spec_len() - i,
        {
            proof {
                self.water.volumes.lemma_dense(i as int);
            }
            let id: WaterVolumeId = self.water.volumes.id_by_slot[i];
            let record: WaterVolumeRecord = self.water.volumes.value_by_slot[i];
            list.push((id, record.row, record.user_tag));
            i = i + 1;
        }
        list
    }

    /// The rows of all volumes, in compact order.
    pub fn get_water_volumes_gpu(&self) -> (rows: Vec<GpuWaterVolume>)
        requires
            self.wf(),
        ensures
            rows@.len() == self.water.volumes.spec_len(),
            forall|i: int|
                0 <= i < rows@.len() ==> #[trigger] rows@[i]
                    == self.water.volumes@[self.water.projection.active.spec_ids()[i]].row,
    {
        let mut rows: Vec<GpuWaterVolume> = Vec::new();
        let mut i: usize = 0;
        while i < self.water.volumes.value_by_slot.len()
            invariant
                0 <= i <= self.water.volumes.spec_len(),
                self.water.volumes.value_by_slot@.len() == self.water.volumes.spec_len(),
                self.water.wf(),
                rows@.len() == i,
                forall|j: int|
                    0 <= j < i ==> #[trigger] rows@[j]
                        == self.water.volumes@[self.water.volumes.id_by_slot@[j]].row,
            decreases self.water.volumes.spec_len() - i,
        {
            proof {
                self.water.volumes.lemma_dense(i as int);
            }
            rows.push(self.water.volumes.value_by_slot[i].row);
            i = i + 1;
        }
        rows
    }

    pub fn water_volumes_count(&self) -> (count: u32)
        requires
            self.wf(),
        ensures
            count == self.water.volumes.spec_len(),
    {
        self.water.volumes.len() as u32
    }

    /// `[GPU row, heightfield]` of each volume, in compact order.
    pub fn water_volume_projections(&self) -> (pairs: Vec<[u32; 2]>)
        requires
            self.wf(),
        ensures
            pairs@.len() == self.water.volumes.spec_len(),
            forall|i: int|
                0 <= i < pairs@.len() ==> (#[trigger] pairs@[i])[0]
                    == self.water.projection.active.spec_rows()[i] && pairs@[i][1]
                    == self.water.projection.sim_slots@[i],
    {
        let mut pairs: Vec<[u32; 2]> = Vec::new();
        let mut i: usize = 0;
        while i < self.water.projection.sim_slots.len()
            invariant
                0 <= i <= self.water.volumes.spec_len(),
                self.water.wf(),
                pairs@.len() == i,
                forall|j: int|
                    0 <= j < i ==> (#[trigger] pairs@[j])[0]
                        == self.water.projection.active.spec_rows()[j] && pairs@[j][1]
                        == self.water.projection.sim_slots@[j],
            decreases self.water.volumes.spec_len() - i,
        {
            pairs.push(
                [
                    self.water.projection.active.rows.value_by_slot[i],
                    self.water.projection.sim_slots[i],
                ],
            );
            i = i + 1;
        }
        pairs
    }

    /// Heightfield of a volume that has one.
    pub fn water_volume_sim_slot(&self, id: WaterVolumeId) -> (slot: Option<u32>)
        requires
            self.wf(),
        ensures
            slot == if self.water.volumes@.contains_key(id) && self.water.projection.slot_of(id)
                != WATER_SIM_SLOT_UNASSIGNED {
                Some(self.water.projection.slot_of(id))
            } else {
                None::<u32>
            },
    {
        proof {
            self.water.lemma_places_agree(id);
        }
        self.water.projection.sim_slot(id)
    }

    /// What resolving a volume's heightfield comes to.
    pub open spec fn sim_target(&self, id: WaterVolumeId) -> Result<WaterSimulationTarget> {
        if !self.water.volumes@.contains_key(id) {
            Err(SceneError::InvalidHandle { resource: "water volume" })
        } else if self.water.projection.slot_of(id) == WATER_SIM_SLOT_UNASSIGNED {
            Err(no_residency_error())
        } else {
            Ok(
                WaterSimulationTarget {
                    sim_slot: self.water.projection.slot_of(id),
                    canonical_row: self.water.row_of(id),
                    residency_generation: self.water.slot_generations[self.water.projection.slot_of(
                        id,
                    ) as int],
                },
            )
        }
    }

    /// Resolves a live volume to its heightfield.
    pub fn water_volume_sim_target(&self, id: WaterVolumeId) -> (result: Result<
        WaterSimulationTarget,
    >)
        requires
            self.wf(),
        ensures
            result == self.sim_target(id),
    {
        proof {
            self.water.lemma_places_agree(id);
        }
        let place: usize = match self.water.volumes.slot(id) {
            Some(place) => place,
            None => {
                return Err(invalid("water volume"));
            },
        };
        match self.water.projection.sim_slot(id) {
            Some(sim_slot) => Ok(
                WaterSimulationTarget {
                    sim_slot,
                    canonical_row: self.water.projection.active.rows.value_by_slot[place],
                    residency_generation: self.water.slot_generations[sim_slot as usize],
                },
            ),
            None => Err(
                SceneError::InvalidOperation { reason: "water volume has no simulation residency" },
            ),
        }
    }

    /// Where a drop lands, or why it does not.
    pub open spec fn drop_target(&self, id: WaterVolumeId, world_center: [F32; 2]) -> Result<
        WaterDropTarget,
    > {
        if !self.water.volumes@.contains_key(id) {
            Err::<WaterDropTarget, _>(SceneError::InvalidHandle { resource: "water volume" })
        } else if !drop_inside(self.water.volumes@[id].row, world_center) {
            Err(drop_error())
        } else {
            match self.sim_target(id) {
                Ok(simulation) => Ok(WaterDropTarget { simulation, world_center }),
                Err(error) => Err(error),
            }
        }
    }

    /// Resolves a point of a simulated volume. A point outside the volume is
    /// rejected.
    pub fn water_drop_target(&self, id: WaterVolumeId, world_center: [F32; 2]) -> (result: Result<
        WaterDropTarget,
    >)
        requires
            self.wf(),
        ensures
            result == self.drop_target(id, world_center),
    {
        let volume: GpuWaterVolume = match self.water.volumes.get(id) {
            Some(record) => record.row,
            None => {
                return Err(invalid("water volume"));
            },
        };
        let x: F32 = world_center[0];
        let z: F32 = world_center[1];
        let min: [F32; 4] = volume.bounds_min;
        let max: [F32; 4] = volume.bounds_max;
        if !x.is_finite() || !z.is_finite() || !min[0].is_finite() || !min[2].is_finite()
            || !max[0].is_finite() || !max[2].is_finite() || max[0].le(min[0]) || max[2].le(min[2])
            || x.lt(min[0]) || max[0].lt(x) || z.lt(min[2]) || max[2].lt(z) {
            return Err(
                SceneError::InvalidOperation {
                    reason:
                        "water drop centre must be finite and inside non-degenerate volume bounds",
                },
            );
        }
        match self.water_volume_sim_target(id) {
            Ok(simulation) => Ok(WaterDropTarget { simulation, world_center }),
            Err(error) => Err(error),
        }
    }

    /// Inserts a hitbox without a tag.
    pub fn insert_water_hitbox(&mut self, new: NewRow, desc: WaterHitboxDescriptor) -> (id:
        WaterHitboxId)
        requires
            old(self).wf(),
            !old(self).water.hitboxes.occupies(new.entity.index),
            new.entity.index < usize::MAX,
            old(self).water.hitboxes.spec_len() < u32::MAX,
        ensures
            final(self).wf(),
            id == WaterHitboxId(new.entity),
            *final(self) == (Scene { water: final(self).water, ..*old(self) }),
            final(self).water == (Water { hitboxes: final(self).water.hitboxes, ..old(self).water }),
            old(self).water.hitboxes.inserted(
                &final(self).water.hitboxes,
                id,
                new.gpu_row,
                (WaterHitboxRecord { row: desc.spec_to_gpu(), user_tag: 0 }),
            ),
    {
        self.insert_water_hitbox_with_tag(new, desc, 0)
    }

    /// `after` is `self` with a fresh hitbox.
    pub open spec fn hitbox_inserted(
        &self,
        after: &Scene,
        new: NewRow,
        desc: WaterHitboxDescriptor,
        user_tag: u64,
        id: WaterHitboxId,
    ) -> bool {
        &&& id == WaterHitboxId(new.entity)
        &&& *after == (Scene { water: after.water, ..*self })
        &&& after.water == (Water { hitboxes: after.water.hitboxes, ..self.water })
        &&& self.water.hitboxes.inserted(
            &after.water.hitboxes,
            id,
            new.gpu_row,
            (WaterHitboxRecord { row: desc.spec_to_gpu(), user_tag }),
        )
    }

    pub fn insert_water_hitbox_with_tag(
        &mut self,
        new: NewRow,
        desc: WaterHitboxDescriptor,
        user_tag: u64,
    ) -> (id: WaterHitboxId)
        requires
            old(self).wf(),
            !old(self).water.hitboxes.occupies(new.entity.index),
            new.entity.index < usize::MAX,
            old(self).water.hitboxes.spec_len() < u32::MAX,
        ensures
            final(self).wf(),
            old(self).hitbox_inserted(final(self), new, desc, user_tag, id),
    {
        let id = WaterHitboxId(new.entity);
        self.water.hitboxes.insert(
            id,
            new.gpu_row,
            WaterHitboxRecord { row: desc.to_gpu(), user_tag },
        );
        id
    }

    /// `after` is `self` without a hitbox and the actors that belong to it.
    pub open spec fn water_hitbox_removed(&self, after: &Scene, id: WaterHitboxId) -> bool {
        &&& *after == (Scene {
            water: after.water,
            actors: after.actors,
            data: after.data,
            ..*self
        })
        &&& after.water == (Water {
            hitboxes: after.water.hitboxes,
            ..self.water
        })
        &&& self.water.hitboxes.removed(&after.water.hitboxes, id)
        &&& self.detached(SceneActorId::WaterHitbox(id), after)
    }

    /// Removes a hitbox and the actors that belong to it.
    pub fn remove_water_hitbox(&mut self, id: WaterHitboxId) -> (result: Result<()>)
        requires
            old(self).wf(),
        ensures
            final(self).wf(),
            result == if old(self).water.hitboxes@.contains_key(id) {
                Ok::<(), SceneError>(())
            } else {
                Err(SceneError::InvalidHandle { resource: "water hitbox" })
            },
            if result is Ok {
                old(self).water_hitbox_removed(final(self), id)
            } else {
                *final(self) == *old(self)
            },
    {
        if !self.water.hitboxes.remove(id) {
            return Err(invalid("water hitbox"));
        }
        self.detach_actors_for_target(SceneActorId::WaterHitbox(id));
        Ok(())
    }

    /// `after` is `self` with another box for a hitbox.
    pub open spec fn hitbox_updated(
        &self,
        after: &Scene,
        id: WaterHitboxId,
        desc: WaterHitboxDescriptor,
        result: Result<()>,
    ) -> bool {
        &&& result == if self.water.hitboxes@.contains_key(id) {
            Ok::<(), SceneError>(())
        } else {
            Err(SceneError::InvalidHandle { resource: "water hitbox" })
        }
        &&& *after == (Scene { water: after.water, ..*self })
        &&& after.water == (Water { hitboxes: after.water.hitboxes, ..self.water })
        &&& if result is Ok && self.water.hitboxes@[id].row != desc.spec_to_gpu() {
            self.water.hitboxes.replaced(
                &after.water.hitboxes,
                id,
                (WaterHitboxRecord {
                    row: desc.spec_to_gpu(),
                    ..self.water.hitboxes@[id]
                }),
            )
        } else {
            after.water.hitboxes == self.water.hitboxes
        }
    }

    pub fn update_water_hitbox(&mut self, id: WaterHitboxId, desc: WaterHitboxDescriptor) -> (result:
        Result<()>)
        requires
            old(self).wf(),
        ensures
            final(self).wf(),
            old(self).hitbox_updated(final(self), id, desc, result),
    {
        let row: GpuWaterHitbox = desc.to_gpu();
        let record: WaterHitboxRecord = match self.water.hitboxes.get(id) {
            Some(record) => *record,
            None => {
                return Err(invalid("water hitbox"));
            },
        };
        if record.row.same(&row) {
            return Ok(());
        }
        self.water.hitboxes.set(id, WaterHitboxRecord { row, user_tag: record.user_tag });
        Ok(())
    }

    pub fn get_water_hitbox(&self, id: WaterHitboxId) -> (hitbox: Option<GpuWaterHitbox>)
        requires
            self.wf(),
        ensures
            hitbox == if self.water.hitboxes@.contains_key(id) {
                Some(self.water.hitboxes@[id].row)
            } else {
                None::<GpuWaterHitbox>
            },
    {
        match self.water.hitboxes.get(id) {
            Some(record) => Some(record.row),
            None => None,
        }
    }

    /// All hitboxes with their tags, in compact order.
    pub fn iter_water_hitboxes(&self) -> (list: Vec<(WaterHitboxId, GpuWaterHitbox, u64)>)
        requires
            self.wf(),
        ensures
            list@.len() == self.water.hitboxes.spec_len(),
            forall|i: int|
                0 <= i < list@.len() ==> (#[trigger] list@[i]).0
                    == self.water.hitboxes.spec_ids()[i] && list@[i].1
                    == self.water.hitboxes@[list@[i].0].row && list@[i].2
                    == self.water.hitboxes@[list@[i].0].user_tag,
    {
        let mut list: Vec<(WaterHitboxId, GpuWaterHitbox, u64)> = Vec::new();
        let mut i: usize = 0;
        while i < self.water.hitboxes.records.id_by_slot.len()
            invariant
                0 <= i <= self.water.hitboxes.spec_len(),
                self.water.hitboxes.wf(),
                list@.len() == i,
                forall|j: int|
                    0 <= j < i ==> (#[trigger] list@[j]).0 == self.water.hitboxes.spec_ids()[j]
                        && list@[j].1 == self.water.hitboxes@[list@[j].0].row && list@[j].2
                        == self.water.hitboxes@[list@[j].0].user_tag,
            decreases self.water.hitboxes.spec_len() - i,
        {
            proof {
                self.water.hitboxes.lemma_dense(i as int);
            }
            let id: WaterHitboxId = self.water.hitboxes.records.id_by_slot[i];
            let record: WaterHitboxRecord = self.water.hitboxes.records.value_by_slot[i];
            list.push((id, record.row, record.user_tag));
            i = i + 1;
        }
        list
    }

    /// The rows of all hitboxes, in compact order.
    pub fn get_water_hitboxes_gpu(&self) -> (rows: Vec<GpuWaterHitbox>)
        requires
            self.wf(),
        ensures
            rows@.len() == self.water.hitboxes.spec_len(),
            forall|i: int|
                0 <= i < rows@.len() ==> #[trigger] rows@[i]
                    == self.water.hitboxes@[self.water.hitboxes.spec_ids()[i]].row,
    {
        let mut rows: Vec<GpuWaterHitbox> = Vec::new();
        let mut i: usize = 0;
        while i < self.water.hitboxes.records.id_by_slot.len()
            invariant
                0 <= i <= self.water.hitboxes.spec_len(),
                self.water.hitboxes.wf(),
                rows@.len() == i,
                forall|j: int|
                    0 <= j < i ==> #[trigger] rows@[j]
                        == self.water.hitboxes@[self.water.hitboxes.spec_ids()[j]].row,
            decreases self.water.hitboxes.spec_len() - i,
        {
            proof {
                self.water.hitboxes.lemma_dense(i as int);
            }
            rows.push(self.water.hitboxes.records.value_by_slot[i].row);
            i = i + 1;
        }
        rows
    }

    pub fn water_hitboxes_count(&self) -> (count: u32)
        requires
            self.wf(),
        ensures
            count == self.water.hitboxes.spec_len(),
    {
        self.water.hitboxes.len() as u32
    }
}

} // verus!
