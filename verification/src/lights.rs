//! Lights: authored records, the compact realtime projection and its shadow budget.
use vstd::prelude::*;

use crate::actors::SceneActorId;
use crate::errors::{invalid, Result, SceneError};
use crate::float_bits::F32;
use crate::handles::LightId;
use crate::light_projection::{LightProjection, NO_ATLAS_BASE};
use crate::rows::{Movability, NewRow};
use crate::scene::Scene;
use crate::sparse_set::{lemma_len_of_subset, swap_removed, SparseSet};
use crate::words::{same_encodings, same_values, same_words};

verus! {

/// A light as authors write it.
#[derive(Clone, Copy, Debug)]
pub struct GpuLight {
    /// Position, then range.
    pub position_range: [F32; 4],
    /// Direction, then cosine of the outer angle.
    pub direction_outer: [F32; 4],
    /// Colour, then intensity.
    pub color_intensity: [F32; 4],
    pub inner_angle: F32,
    /// 0 for directional lights.
    pub light_type: u32,
    /// `u32::MAX` if the light casts no shadow.
    pub shadow_index: u32,
    /// Flare, profile and volumetric parameters.
    pub shading: [u32; 8],
}

/// A light as the scene stores it. The atlas slice that a light is assigned is
/// derived, so only the wish for a shadow is stored: 0, or `u32::MAX` without.
#[derive(Clone, Copy, Debug)]
pub struct SceneLightRow {
    pub position_range: [F32; 4],
    pub direction_outer: [F32; 4],
    pub color_intensity: [F32; 4],
    pub inner_angle: F32,
    pub light_type: u32,
    pub shadow_requested: u32,
    pub shading: [u32; 8],
}

/// Marks a light that casts no shadow.
pub const NO_SHADOW: u32 = u32::MAX;

pub open spec fn spec_light_row(light: GpuLight) -> SceneLightRow {
    SceneLightRow {
        position_range: light.position_range,
        direction_outer: light.direction_outer,
        color_intensity: light.color_intensity,
        inner_angle: light.inner_angle,
        light_type: light.light_type,
        shadow_requested: if light.shadow_index == NO_SHADOW {
            NO_SHADOW
        } else {
            0
        },
        shading: light.shading,
    }
}

/// The stored row of an authored light.
pub fn light_row(light: GpuLight) -> (row: SceneLightRow)
    ensures
        row == spec_light_row(light),
{
    let shadow_requested: u32 = if light.shadow_index == NO_SHADOW {
        NO_SHADOW
    } else {
        0
    };
    SceneLightRow {
        position_range: light.position_range,
        direction_outer: light.direction_outer,
        color_intensity: light.color_intensity,
        inner_angle: light.inner_angle,
        light_type: light.light_type,
        shadow_requested,
        shading: light.shading,
    }
}

impl SceneLightRow {
    pub open spec fn spec_authored(self) -> GpuLight {
        GpuLight {
            position_range: self.position_range,
            direction_outer: self.direction_outer,
            color_intensity: self.color_intensity,
            inner_angle: self.inner_angle,
            light_type: self.light_type,
            shadow_index: self.shadow_requested,
            shading: self.shading,
        }
    }

    /// The light as authors see it.
    pub fn authored(self) -> (light: GpuLight)
        ensures
            light == self.spec_authored(),
    {
        GpuLight {
            position_range: self.position_range,
            direction_outer: self.direction_outer,
            color_intensity: self.color_intensity,
            inner_angle: self.inner_angle,
            light_type: self.light_type,
            shadow_index: self.shadow_requested,
            shading: self.shading,
        }
    }

    pub open spec fn spec_requests_shadow(self) -> bool {
        self.shadow_requested != NO_SHADOW
    }

    pub fn requests_shadow(&self) -> (wanted: bool)
        ensures
            wanted == self.spec_requests_shadow(),
    {
        self.shadow_requested != NO_SHADOW
    }

    fn same(&self, other: &SceneLightRow) -> (same: bool)
        ensures
            same == (*self == *other),
    {
        same_encodings(&self.position_range, &other.position_range) && same_encodings(
            &self.direction_outer,
            &other.direction_outer,
        ) && same_encodings(&self.color_intensity, &other.color_intensity)
            && self.inner_angle.bits == other.inner_angle.bits && self.light_type
            == other.light_type && self.shadow_requested == other.shadow_requested && same_words(
            &self.shading,
            &other.shading,
        )
    }
}

/// What the shadow budget ranks a light by: nothing without a shadow, the type of
/// a directional light, range and intensity of any other.
pub enum BudgetInput {
    Ineligible,
    Directional,
    Ranked { range: F32, intensity: F32 },
}

pub open spec fn budget_input(row: SceneLightRow) -> BudgetInput {
    if !row.spec_requests_shadow() {
        BudgetInput::Ineligible
    } else if row.light_type == 0 {
        BudgetInput::Directional
    } else {
        BudgetInput::Ranked { range: row.position_range[3], intensity: row.color_intensity[3] }
    }
}

/// Whether an edit can change which lights win the shadow budget, or in which
/// order.
pub fn shadow_budget_changed(old_row: &SceneLightRow, new_row: &SceneLightRow) -> (changed: bool)
    ensures
        changed == (budget_input(*old_row) != budget_input(*new_row)),
{
    if old_row.requests_shadow() != new_row.requests_shadow() {
        return true;
    }
    if !new_row.requests_shadow() {
        return false;
    }
    let old_directional: bool = old_row.light_type == 0;
    let new_directional: bool = new_row.light_type == 0;
    if old_directional != new_directional {
        return true;
    }
    if new_directional {
        return false;
    }
    old_row.position_range[3].bits != new_row.position_range[3].bits
        || old_row.color_intensity[3].bits != new_row.color_intensity[3].bits
}

/// A light with what belongs to it.
#[derive(Clone, Copy, Debug)]
pub struct LightRecord {
    pub row: SceneLightRow,
    pub movability: Movability,
    pub user_tag: u64,
    pub gpu_row: u32,
}

/// The scene's lights.
pub struct Lights {
    pub records: SparseSet<LightId, LightRecord>,
    /// Movable lights in compact order.
    pub projection: LightProjection,
    /// `[GPU row, atlas base]` of each compact slot.
    pub slots: Vec<[u32; 2]>,
    /// Advances whenever a movable light changes.
    pub generation: u64,
    /// Layers of the shadow atlas; six are reserved per caster.
    pub shadow_face_capacity: u32,
    /// Layers in use.
    pub active_shadow_face_count: u32,
    /// Length of the shadow matrix table, never zero once the budget was ranked.
    pub shadow_matrix_count: u32,
    /// What each caster's cached faces were rendered from.
    pub caster_hashes: [u64; 42],
}

impl Lights {
    /// Exactly the movable lights are projected, each with its own GPU row, and the
    /// slots run parallel to the projection.
    pub open spec fn wf(&self) -> bool {
        &&& self.records.wf()
        &&& self.projection.wf()
        &&& forall|id: LightId| #[trigger]
            self.projection.rows.rows@.contains_key(id) <==> self.records@.contains_key(id)
                && self.records@[id].movability == Movability::Movable
        &&& forall|id: LightId| #[trigger]
            self.projection.rows.rows@.contains_key(id) ==> self.projection.rows.rows@[id]
                == self.records@[id].gpu_row
        &&& self.slots@.len() == self.projection.rows.spec_len()
        &&& forall|i: int|
            0 <= i < self.slots@.len() ==> (#[trigger] self.slots@[i])[0]
                == self.projection.rows.spec_rows()[i]
        &&& 1 <= self.shadow_face_capacity <= 256
    }

    /// Neither the atlas nor what is known of its contents differs.
    pub open spec fn shadow_state_kept(&self, after: &Lights) -> bool {
        &&& after.shadow_face_capacity == self.shadow_face_capacity
        &&& after.active_shadow_face_count == self.active_shadow_face_count
        &&& after.shadow_matrix_count == self.shadow_matrix_count
        &&& after.caster_hashes == self.caster_hashes
    }

    /// No projected light uses an entity slot that no light record uses.
    pub proof fn lemma_projected_slots_are_recorded(&self, index: u32)
        requires
            self.wf(),
            !self.records.occupies(index),
        ensures
            !self.projection.rows.occupies(index),
    {
        if self.projection.rows.occupies(index) {
            let set = self.projection.rows.rows;
            let p = set.slot_by_entity@[index as int] as int;
            set.lemma_dense(p);
            let id = set.id_by_slot@[p];
            self.records.lemma_contains(id);
        }
    }
}

impl Scene {
    /// Inserts a movable light without a tag.
    pub fn insert_light(&mut self, new: NewRow, light: GpuLight) -> (id: LightId)
        requires
            old(self).wf(),
            !old(self).lights.records.occupies(new.entity.index),
            new.entity.index < usize::MAX,
            old(self).lights.records.spec_len() < u32::MAX,
        ensures
            final(self).wf(),
            id == LightId(new.entity),
            old(self).light_inserted(final(self), new, light, Movability::Movable, 0),
    {
        self.insert_light_with_movability(new, light, None, 0)
    }

    /// `after` is `self` with the light inserted.
    pub open spec fn light_inserted(
        &self,
        after: &Scene,
        new: NewRow,
        light: GpuLight,
        movability: Movability,
        user_tag: u64,
    ) -> bool {
        let id = LightId(new.entity);
        &&& *after == (Scene {
            lights: after.lights,
            bake_invalidated: after.bake_invalidated,
            ..*self
        })
        &&& after.lights.records@ == self.lights.records@.insert(
            id,
            LightRecord {
                row: spec_light_row(light),
                movability,
                user_tag,
                gpu_row: new.gpu_row,
            },
        )
        &&& after.lights.records.id_by_slot@ == self.lights.records.id_by_slot@.push(id)
        &&& if movability == Movability::Movable {
            &&& after.lights.projection.rows.spec_ids()
                == self.lights.projection.rows.spec_ids().push(id)
            &&& after.lights.projection.rows.spec_rows()
                == self.lights.projection.rows.spec_rows().push(new.gpu_row)
            &&& after.lights.projection.atlas_dirty
            &&& after.lights.slots@.len() == self.lights.slots@.len() + 1
            &&& after.lights.slots@.drop_last() == self.lights.slots@
            &&& after.lights.slots@.last()[0] == new.gpu_row
            &&& after.lights.slots@.last()[1] == NO_ATLAS_BASE
            &&& after.lights.generation == self.lights.generation.wrapping_add(1)
            &&& after.bake_invalidated == self.bake_invalidated
        } else {
            &&& after.lights.projection == self.lights.projection
            &&& after.lights.slots == self.lights.slots
            &&& after.lights.generation == self.lights.generation
            &&& after.bake_invalidated
        }
        &&& self.lights.shadow_state_kept(&after.lights)
    }

    /// Inserts a light. Lights are movable unless they are said to be otherwise;
    /// others are baked and never projected.
    pub fn insert_light_with_movability(
        &mut self,
        new: NewRow,
        light: GpuLight,
        movability: Option<Movability>,
        user_tag: u64,
    ) -> (id: LightId)
        requires
            old(self).wf(),
            !old(self).lights.records.occupies(new.entity.index),
            new.entity.index < usize::MAX,
            old(self).lights.records.spec_len() < u32::MAX,
        ensures
            final(self).wf(),
            id == LightId(new.entity),
            old(self).light_inserted(
                final(self),
                new,
                light,
                match movability {
                    Some(m) => m,
                    None => Movability::Movable,
                },
                user_tag,
            ),
    {
        let movability: Movability = match movability {
            Some(m) => m,
            None => Movability::Movable,
        };
        let id = LightId(new.entity);
        let ghost before = self.lights;
        proof {
            before.lemma_projected_slots_are_recorded(new.entity.index);
            lemma_len_of_subset(before.projection.rows.rows, before.records);
            before.records.lemma_contains(id);
        }
        self.lights.records.insert(
            id,
            LightRecord { row: light_row(light), movability, user_tag, gpu_row: new.gpu_row },
        );
        if movability.can_move() {
            self.lights.projection.insert(id, new.gpu_row);
            self.lights.slots.push([new.gpu_row, NO_ATLAS_BASE]);
            self.lights.generation = self.lights.generation.wrapping_add(1);
            assert(self.lights.slots@.drop_last() =~= before.slots@);
        } else {
            self.bake_invalidated = true;
        }
        id
    }

    /// What an edit of a light does: nothing if nothing changes, nothing to a light
    /// that cannot move if it would move, the edit otherwise.
    pub open spec fn light_edit_applies(&self, id: LightId, light: GpuLight) -> bool {
        let record = self.lights.records@[id];
        let row = spec_light_row(light);
        &&& record.row != row
        &&& record.movability == Movability::Movable || (forall|i: int|
            0 <= i < 4 ==> (#[trigger] record.row.position_range[i]).spec_same_value(
                light.position_range[i],
            )) && (forall|i: int|
            0 <= i < 4 ==> (#[trigger] record.row.direction_outer[i]).spec_same_value(
                light.direction_outer[i],
            ))
    }

    /// `after` is `self` with another authored light under `id`, where the edit applies.
    pub open spec fn light_updated(
        &self,
        after: &Scene,
        id: LightId,
        light: GpuLight,
        result: Result<()>,
    ) -> bool {
        &&& result == if self.lights.records@.contains_key(id) {
            Ok::<(), SceneError>(())
        } else {
            Err(SceneError::InvalidHandle { resource: "light" })
        }
        &&& if result is Ok && self.light_edit_applies(id, light) {
            let record = self.lights.records@[id];
            let row = spec_light_row(light);
            let movable = record.movability == Movability::Movable;
            &&& *after == (Scene {
                lights: after.lights,
                bake_invalidated: after.bake_invalidated,
                ..*self
            })
            &&& after.lights.records@ == self.lights.records@.insert(
                id,
                (LightRecord { row, ..record }),
            )
            &&& after.lights.records.id_by_slot == self.lights.records.id_by_slot
            &&& after.lights.projection.rows == self.lights.projection.rows
            &&& after.lights.projection.atlas_dirty == (self.lights.projection.atlas_dirty || (
            movable && budget_input(record.row) != budget_input(row)))
            &&& after.lights.slots == self.lights.slots
            &&& after.lights.generation == if movable {
                self.lights.generation.wrapping_add(1)
            } else {
                self.lights.generation
            }
            &&& after.bake_invalidated == (self.bake_invalidated || !movable)
            &&& self.lights.shadow_state_kept(&after.lights)
        } else {
            *after == *self
        }
    }

    /// Replaces a light's parameters. An edit that would move a light which cannot
    /// move is ignored.
    pub fn update_light(&mut self, id: LightId, light: GpuLight) -> (result: Result<()>)
        requires
            old(self).wf(),
        ensures
            final(self).wf(),
            old(self).light_updated(final(self), id, light, result),
    {
        let record: LightRecord = match self.lights.records.get(id) {
            Some(record) => *record,
            None => {
                return Err(invalid("light"));
            },
        };
        let row: SceneLightRow = light_row(light);
        if record.row.same(&row) {
            return Ok(());
        }
        let budget_changed: bool = shadow_budget_changed(&record.row, &row);
        let movable: bool = record.movability.can_move();
        if !movable && (!same_values(&record.row.position_range, &light.position_range)
            || !same_values(&record.row.direction_outer, &light.direction_outer)) {
            return Ok(());
        }
        let ghost before = self.lights;
        self.lights.records.set(
            id,
            LightRecord {
                row,
                movability: record.movability,
                user_tag: record.user_tag,
                gpu_row: record.gpu_row,
            },
        );
        if movable {
            if budget_changed {
                self.lights.projection.mark_atlas_dirty();
            }
            self.lights.generation = self.lights.generation.wrapping_add(1);
        } else {
            self.bake_invalidated = true;
        }
        Ok(())
    }

    /// `after` is `self` without a light and the actors that belong to it.
    pub open spec fn light_removed(&self, after: &Scene, id: LightId) -> bool {
        let movable = self.lights.records@[id].movability == Movability::Movable;
        &&& *after == (Scene {
            lights: after.lights,
            bake_invalidated: after.bake_invalidated,
            actors: after.actors,
            data: after.data,
            ..*self
        })
        &&& after.lights.records@ == self.lights.records@.remove(id)
        &&& after.lights.records.spec_len() == self.lights.records.spec_len() - 1
        &&& self.detached(SceneActorId::Light(id), after)
        &&& if movable {
            let i = self.lights.projection.rows.place(id);
            &&& after.lights.projection.rows.spec_ids() == swap_removed(
                self.lights.projection.rows.spec_ids(),
                i,
            )
            &&& after.lights.projection.rows.spec_rows() == swap_removed(
                self.lights.projection.rows.spec_rows(),
                i,
            )
            &&& after.lights.projection.atlas_dirty
            &&& after.lights.slots@ == swap_removed(self.lights.slots@, i)
            &&& after.lights.generation == self.lights.generation.wrapping_add(1)
            &&& after.bake_invalidated == self.bake_invalidated
        } else {
            &&& after.lights.projection == self.lights.projection
            &&& after.lights.slots == self.lights.slots
            &&& after.lights.generation == self.lights.generation
            &&& after.bake_invalidated
        }
        &&& self.lights.shadow_state_kept(&after.lights)
    }

    /// Removes a light, its projection and the actors that belong to it.
    pub fn remove_light(&mut self, id: LightId) -> (result: Result<()>)
        requires
            old(self).wf(),
        ensures
            final(self).wf(),
            result == if old(self).lights.records@.contains_key(id) {
                Ok::<(), SceneError>(())
            } else {
                Err(SceneError::InvalidHandle { resource: "light" })
            },
            if result is Ok {
                old(self).light_removed(final(self), id)
            } else {
                *final(self) == *old(self)
            },
    {
        let record: LightRecord = match self.lights.records.get(id) {
            Some(record) => *record,
            None => {
                return Err(invalid("light"));
            },
        };
        let ghost before = self.lights;
        self.lights.records.remove(id);
        if record.movability.can_move() {
            match self.lights.projection.remove(id) {
                Some(compact_slot) => {
                    self.lights.slots.swap_remove(compact_slot);
                    assert(self.lights.slots@ =~= swap_removed(before.slots@, compact_slot as int));
                },
                None => {
                    proof {
                        before.projection.rows.rows.lemma_contains(id);
                        assert(before.projection.rows.rows@.contains_key(id));
                    }
                },
            }
            self.lights.generation = self.lights.generation.wrapping_add(1);
        } else {
            proof {
                assert(!before.projection.rows.rows@.contains_key(id));
            }
            self.bake_invalidated = true;
        }
        assert(self.lights.wf());
        self.detach_actors_for_target(SceneActorId::Light(id));
        Ok(())
    }

    /// The movable lights in compact order.
    pub fn realtime_lights(&self) -> (list: Vec<GpuLight>)
        requires
            self.wf(),
        ensures
            list@.len() == self.lights.projection.rows.spec_len(),
            forall|i: int|
                0 <= i < list@.len() ==> #[trigger] list@[i]
                    == self.lights.records@[self.lights.projection.rows.spec_ids()[i]].row.spec_authored(),
    {
        let ids: &[LightId] = self.lights.projection.ids();
        let mut list: Vec<GpuLight> = Vec::new();
        let mut i: usize = 0;
        while i < ids.len()
            invariant
                0 <= i <= ids@.len(),
                self.lights.wf(),
                ids@ == self.lights.projection.rows.spec_ids(),
                list@.len() == i,
                forall|j: int|
                    0 <= j < i ==> #[trigger] list@[j]
                        == self.lights.records@[ids@[j]].row.spec_authored(),
            decreases ids@.len() - i,
        {
            proof {
                self.lights.projection.rows.rows.lemma_dense(i as int);
                assert(self.lights.projection.rows.rows@.contains_key(ids@[i as int]));
            }
            match self.lights.records.get(ids[i]) {
                Some(record) => list.push(record.row.authored()),
                None => {},
            }
            i = i + 1;
        }
        list
    }

    pub fn realtime_light_count(&self) -> (count: usize)
        ensures
            count == self.lights.projection.rows.spec_len(),
    {
        self.lights.projection.len()
    }

    /// All lights with their tags.
    pub fn iter_lights(&self) -> (list: Vec<(LightId, GpuLight, u64)>)
        requires
            self.wf(),
        ensures
            list@.len() == self.lights.records.spec_len(),
            forall|i: int|
                0 <= i < list@.len() ==> (#[trigger] list@[i]).0
                    == self.lights.records.id_by_slot@[i] && list@[i].1
                    == self.lights.records@[list@[i].0].row.spec_authored() && list@[i].2
                    == self.lights.records@[list@[i].0].user_tag,
    {
        let mut list: Vec<(LightId, GpuLight, u64)> = Vec::new();
        let mut i: usize = 0;
        while i < self.lights.records.id_by_slot.len()
            invariant
                0 <= i <= self.lights.records.spec_len(),
                self.lights.records.wf(),
                list@.len() == i,
                forall|j: int|
                    0 <= j < i ==> (#[trigger] list@[j]).0 == self.lights.records.id_by_slot@[j]
                        && list@[j].1 == self.lights.records@[list@[j].0].row.spec_authored()
                        && list@[j].2 == self.lights.records@[list@[j].0].user_tag,
            decreases self.lights.records.spec_len() - i,
        {
            proof {
                self.lights.records.lemma_dense(i as int);
            }
            let id: LightId = self.lights.records.id_by_slot[i];
            let record: LightRecord = self.lights.records.value_by_slot[i];
            list.push((id, record.row.authored(), record.user_tag));
            i = i + 1;
        }
        list
    }

    pub fn get_light(&self, id: LightId) -> (light: Option<GpuLight>)
        requires
            self.wf(),
        ensures
            light == if self.lights.records@.contains_key(id) {
                Some(self.lights.records@[id].row.spec_authored())
            } else {
                None::<GpuLight>
            },
    {
        match self.lights.records.get(id) {
            Some(record) => Some(record.row.authored()),
            None => None,
        }
    }

    /// `after` is `self` with room for another number of shadow faces.
    pub open spec fn face_capacity_set(&self, after: &Scene, capacity: u32) -> bool {
        &&& *after == (Scene { lights: after.lights, ..*self })
        &&& after.lights.shadow_face_capacity == if capacity < 1 {
            1
        } else if capacity > 256 {
            256
        } else {
            capacity
        }
        &&& after.lights == (Lights {
            shadow_face_capacity: after.lights.shadow_face_capacity,
            projection: after.lights.projection,
            ..self.lights
        })
        &&& after.lights.projection.rows == self.lights.projection.rows
        &&& after.lights.projection.atlas_dirty == (self.lights.projection.atlas_dirty
            || after.lights.shadow_face_capacity != self.lights.shadow_face_capacity)
    }

    /// Sets the number of shadow atlas layers, at least one and at most 256. A
    /// different number asks for the shadow budget to be ranked anew.
    pub fn set_shadow_face_capacity(&mut self, capacity: u32)
        requires
            old(self).wf(),
        ensures
            final(self).wf(),
            old(self).face_capacity_set(final(self), capacity),
    {
        let capacity: u32 = if capacity < 1 {
            1
        } else if capacity > 256 {
            256
        } else {
            capacity
        };
        if self.lights.shadow_face_capacity != capacity {
            self.lights.shadow_face_capacity = capacity;
            self.lights.projection.mark_atlas_dirty();
        }
    }
}

} // verus!
