//! Renderable objects.
use vstd::prelude::*;

use crate::actors::SceneActorId;
use crate::draws::{visibility_word, DrawIndexedIndirectArgs, DrawLists};
use crate::errors::{invalid, Result, SceneError};
use crate::float_bits::F32;
use crate::groups::GroupMask;
use crate::handles::{Handle, MaterialId, MeshId, ObjectId};
use crate::materials::{
    lemma_recount_keeps_links, lower_material, raise_material, recounted, MaterialRecord,
};
use crate::meshes::{lower_mesh, mesh_recounted, raise_mesh};
use crate::references::{
    lemma_material_uses_bounded, lemma_mesh_uses_bounded, lemma_object_material_live,
    lemma_object_mesh_live, lemma_uses_push, lemma_uses_swap_removed, lemma_uses_update,
    material_uses, materials_linked, mesh_uses, meshes_linked, owner_uses,
};
use crate::rows::{Movability, NewRow};
use crate::scene::Scene;
use crate::sparse_set::{swap_removed, SparseSet};

verus! {

/// Marks an entity without a published draw slot.
pub const NO_OBJECT_PROJECTION_SLOT: u32 = u32::MAX;

/// Lightmap index of an object that was not baked.
pub const NO_LIGHTMAP: u32 = u32::MAX;

/// What temporal effects know of an object.
#[derive(Clone, Copy, Debug)]
pub struct ObjectPose {
    pub model: [F32; 16],
    pub sphere: [F32; 4],
    pub flags: u32,
}

#[derive(Clone, Copy, Debug)]
pub struct ObjectRecord {
    pub mesh: MeshId,
    pub material: MaterialId,
    pub groups: GroupMask,
    pub user_tag: u64,
    /// Where the object stands now.
    pub pose: ObjectPose,
    /// Where it stood when the last frame ended.
    pub previous: ObjectPose,
    /// Inverse transpose of the model's linear part, padded to columns of four.
    pub normal_mat: [F32; 12],
    pub mesh_row: u32,
    pub material_row: u32,
    pub lightmap_index: u32,
    pub movability: Movability,
    pub gpu_row: u32,
}

impl ObjectRecord {
    /// The draw data name the object's mesh by its slot and its material by its row.
    pub open spec fn rows_named(&self, materials: Map<MaterialId, MaterialRecord>) -> bool {
        &&& self.mesh_row == self.mesh.0.index
        &&& self.material_row == materials[self.material].gpu_row
    }
}

/// Shadow casters, batched by mesh: those that never move and those that may.
pub struct ShadowPartitions {
    pub static_sources: Vec<u32>,
    pub static_indirect: Vec<DrawIndexedIndirectArgs>,
    pub movable_sources: Vec<u32>,
    pub movable_indirect: Vec<DrawIndexedIndirectArgs>,
    /// Advances when static casters change.
    pub static_generation: u64,
    /// Advances when the set of movable casters or their commands change.
    pub movable_topology_generation: u64,
}

pub struct Objects {
    pub records: SparseSet<ObjectId, ObjectRecord>,
    /// Draw slot of each entity slot.
    pub projection_slots: Vec<u32>,
    /// The draw lists must be rebuilt at the next flush.
    pub dirty: bool,
    /// A static object came, went or moved since the shadow atlas was drawn.
    pub static_dirty: bool,
    /// Advances when a movable object moves.
    pub movable_generation: u64,
    pub lists: DrawLists,
    /// Advances with every rebuilt draw list.
    pub topology_generation: u64,
    pub shadow: ShadowPartitions,
}

impl Objects {
    pub open spec fn spec_values(&self) -> Seq<ObjectRecord> {
        self.records.value_by_slot@
    }

    /// Draw slot of the object at compact place `i`.
    pub open spec fn slot_at(&self, i: int) -> u32 {
        self.projection_slots@[self.records.id_by_slot@[i].0.index as int]
    }

    /// Every object has a draw slot of its own, and what stands there is its row
    /// and its visibility.
    pub open spec fn published(&self, hidden: GroupMask) -> bool {
        &&& self.lists.source_indices@.len() == self.records.spec_len()
        &&& self.lists.visibility@.len() == self.records.spec_len()
        &&& forall|i: int|
            0 <= i < self.records.spec_len() ==> {
                &&& (#[trigger] self.records.id_by_slot@[i]).0.index < self.projection_slots@.len()
                &&& self.slot_at(i) < self.records.spec_len()
                &&& self.lists.source_indices@[self.slot_at(i) as int]
                    == self.spec_values()[i].gpu_row
                &&& self.lists.visibility@[self.slot_at(i) as int] == visibility_word(
                    self.spec_values()[i].groups,
                    hidden,
                )
            }
        &&& forall|i: int, j: int|
            0 <= i < self.records.spec_len() && 0 <= j < self.records.spec_len() && i != j
                ==> #[trigger] self.slot_at(i) != #[trigger] self.slot_at(j)
    }

    /// Unless a rebuild is due, the draw lists show the objects as they are.
    pub open spec fn wf(&self, hidden: GroupMask) -> bool {
        &&& self.records.wf()
        &&& !self.dirty ==> self.published(hidden)
    }
}

/// What an object is made of.
#[derive(Clone, Copy, Debug)]
pub struct ObjectDescriptor {
    pub mesh: MeshId,
    pub material: MaterialId,
    /// Model matrix, column by column.
    pub transform: [F32; 16],
    /// Bounding sphere in world space: centre and radius.
    pub bounds: [F32; 4],
    /// Bit 0 casts shadows, bit 1 receives them, bit 2 is never culled.
    pub flags: u32,
    pub groups: GroupMask,
    /// Static unless it is given.
    pub movability: Option<Movability>,
    pub user_tag: u64,
}

/// The movability that a descriptor asks for.
pub open spec fn object_movability(movability: Option<Movability>) -> Movability {
    match movability {
        Some(m) => m,
        None => Movability::Static,
    }
}

/// The record of a fresh object.
pub open spec fn object_record(
    desc: ObjectDescriptor,
    normal_mat: [F32; 12],
    material_row: u32,
    gpu_row: u32,
) -> ObjectRecord {
    let pose = ObjectPose { model: desc.transform, sphere: desc.bounds, flags: desc.flags };
    ObjectRecord {
        mesh: desc.mesh,
        material: desc.material,
        groups: desc.groups,
        user_tag: desc.user_tag,
        pose,
        previous: pose,
        normal_mat,
        mesh_row: desc.mesh.0.index,
        material_row,
        lightmap_index: NO_LIGHTMAP,
        movability: object_movability(desc.movability),
        gpu_row,
    }
}

/// Builds the record of a fresh object. Its draw data name the material by the
/// row that the material got, not by its handle.
pub fn object_gpu_data(
    desc: ObjectDescriptor,
    normal_mat: [F32; 12],
    material_row: u32,
    gpu_row: u32,
) -> (record: ObjectRecord)
    ensures
        record == object_record(desc, normal_mat, material_row, gpu_row),
{
    let pose = ObjectPose { model: desc.transform, sphere: desc.bounds, flags: desc.flags };
    let movability: Movability = match desc.movability {
        Some(m) => m,
        None => Movability::Static,
    };
    ObjectRecord {
        mesh: desc.mesh,
        material: desc.material,
        groups: desc.groups,
        user_tag: desc.user_tag,
        pose,
        previous: pose,
        normal_mat,
        mesh_row: desc.mesh.slot(),
        material_row,
        lightmap_index: NO_LIGHTMAP,
        movability,
        gpu_row,
    }
}

/// `after` is `before` with entity slot `index` cleared and in range.
pub open spec fn slot_cleared(before: Seq<u32>, after: Seq<u32>, index: u32) -> bool {
    &&& after.len() == if index < before.len() {
        before.len() as int
    } else {
        index + 1
    }
    &&& forall|e: int|
        0 <= e < after.len() ==> #[trigger] after[e] == if e != index && e < before.len() {
            before[e]
        } else {
            NO_OBJECT_PROJECTION_SLOT
        }
}

/// An edit of a record that keeps its GPU row and groups keeps the draw lists true.
pub proof fn lemma_edit_keeps_published(
    before: Objects,
    after: Objects,
    id: ObjectId,
    record: ObjectRecord,
    hidden: GroupMask,
)
    requires
        before.records.wf(),
        before.published(hidden),
        before.records@.contains_key(id),
        after.records.id_by_slot == before.records.id_by_slot,
        after.records.slot_by_entity == before.records.slot_by_entity,
        after.records.value_by_slot@ == before.records.value_by_slot@.update(
            before.records.place(id),
            record,
        ),
        after.projection_slots == before.projection_slots,
        after.lists == before.lists,
        record.gpu_row == before.records@[id].gpu_row,
        record.groups == before.records@[id].groups,
    ensures
        after.published(hidden),
{
    before.records.lemma_contains(id);
    let p = before.records.place(id);
    assert forall|i: int| 0 <= i < after.records.spec_len() implies {
        &&& (#[trigger] after.records.id_by_slot@[i]).0.index < after.projection_slots@.len()
        &&& after.slot_at(i) < after.records.spec_len()
        &&& after.lists.source_indices@[after.slot_at(i) as int] == after.spec_values()[i].gpu_row
        &&& after.lists.visibility@[after.slot_at(i) as int] == visibility_word(
            after.spec_values()[i].groups,
            hidden,
        )
    } by {
        assert(before.records.id_by_slot@[i].0.index < before.projection_slots@.len());
        assert(before.slot_at(i) == after.slot_at(i));
    }
    assert forall|i: int, j: int|
        0 <= i < after.records.spec_len() && 0 <= j < after.records.spec_len() && i
            != j implies #[trigger] after.slot_at(i) != #[trigger] after.slot_at(j) by {
        assert(before.slot_at(i) != before.slot_at(j));
    }
}

/// Where a move takes an object. One that cannot move stays.
pub open spec fn moved_record(
    record: ObjectRecord,
    transform: [F32; 16],
    normal_mat: [F32; 12],
) -> ObjectRecord {
    if record.movability != Movability::Movable {
        record
    } else {
        ObjectRecord {
            pose: ObjectPose {
                model: transform,
                sphere: [transform[12], transform[13], transform[14], record.pose.sphere[3]],
                flags: record.pose.flags,
            },
            normal_mat,
            ..record
        }
    }
}

impl Scene {
    /// `after` is `self` with the object inserted.
    pub open spec fn object_inserted(
        &self,
        after: &Scene,
        new: NewRow,
        desc: ObjectDescriptor,
        normal_mat: [F32; 12],
    ) -> bool {
        let id = ObjectId(new.entity);
        let fixed = object_movability(desc.movability) != Movability::Movable;
        let record = object_record(
            desc,
            normal_mat,
            self.materials@[desc.material].gpu_row,
            new.gpu_row,
        );
        &&& *after == (Scene {
            objects: after.objects,
            materials: after.materials,
            meshes: after.meshes,
            bake_invalidated: self.bake_invalidated || fixed,
            ..*self
        })
        &&& after.objects == (Objects {
            records: after.objects.records,
            projection_slots: after.objects.projection_slots,
            dirty: true,
            static_dirty: self.objects.static_dirty || fixed,
            ..self.objects
        })
        &&& after.objects.records@ == self.objects.records@.insert(id, record)
        &&& after.objects.records.id_by_slot@ == self.objects.records.id_by_slot@.push(id)
        &&& after.objects.records.value_by_slot@ == self.objects.records.value_by_slot@.push(record)
        &&& forall|index: u32|
            #[trigger] after.objects.records.occupies(index) <==> self.objects.records.occupies(
                index,
            ) || index == new.entity.index
        &&& slot_cleared(
            self.objects.projection_slots@,
            after.objects.projection_slots@,
            new.entity.index,
        )
        &&& recounted(
            self.materials,
            after.materials,
            desc.material,
            (self.materials@[desc.material].ref_count + 1) as u32,
        )
        &&& mesh_recounted(
            self.meshes,
            after.meshes,
            desc.mesh,
            (self.meshes@[desc.mesh].ref_count + 1) as u32,
        )
    }

    /// Inserts an object. Its mesh and its material must be live; both count it.
    /// Objects with the same mesh and material share a draw call after the next
    /// flush.
    pub fn insert_object(&mut self, new: NewRow, desc: ObjectDescriptor, normal_mat: [F32; 12]) -> (result:
        Result<ObjectId>)
        requires
            old(self).wf(),
            !old(self).objects.records.occupies(new.entity.index),
            new.entity.index < usize::MAX,
            old(self).material_user_count() < u32::MAX - 1,
        ensures
            final(self).wf(),
            if !old(self).meshes@.contains_key(desc.mesh) {
                &&& result == Err::<ObjectId, _>(SceneError::InvalidHandle { resource: "mesh" })
                &&& *final(self) == *old(self)
            } else if !old(self).materials@.contains_key(desc.material) {
                &&& result == Err::<ObjectId, _>(SceneError::InvalidHandle { resource: "material" })
                &&& *final(self) == *old(self)
            } else {
                &&& result == Ok::<_, SceneError>(ObjectId(new.entity))
                &&& old(self).object_inserted(final(self), new, desc, normal_mat)
            },
    {
        if !self.meshes.is_live(desc.mesh) {
            return Err(invalid("mesh"));
        }
        let material_row: u32 = match self.materials.get(desc.material) {
            Some(material) => material.gpu_row,
            None => {
                return Err(invalid("material"));
            },
        };
        let ghost before = *self;
        let ghost values = self.objects.spec_values();
        proof {
            lemma_material_uses_bounded(
                values,
                self.virtual_geometry.spec_values(),
                self.foliage.spec_types(),
                desc.material,
            );
            lemma_mesh_uses_bounded(values, desc.mesh);
        }
        raise_material(&mut self.materials, desc.material);
        raise_mesh(&mut self.meshes, desc.mesh);
        let record: ObjectRecord = object_gpu_data(desc, normal_mat, material_row, new.gpu_row);
        let id = ObjectId(new.entity);
        self.objects.records.insert(id, record);
        let index: usize = new.entity.index as usize;
        if self.objects.projection_slots.len() <= index {
            self.objects.projection_slots.resize(index + 1, NO_OBJECT_PROJECTION_SLOT);
        }
        let ghost resized = self.objects.projection_slots@;
        proof {
            let prior = before.objects.projection_slots@;
            assert forall|e: int| 0 <= e < resized.len() implies #[trigger] resized[e] == (if e
                < prior.len() {
                prior[e]
            } else {
                NO_OBJECT_PROJECTION_SLOT
            }) by {
                if e < prior.len() {
                    assert(resized.subrange(0, prior.len() as int)[e] == resized[e]);
                }
            }
        }
        self.objects.projection_slots.set(index, NO_OBJECT_PROJECTION_SLOT);
        if !record.movability.can_move() {
            self.objects.static_dirty = true;
            self.bake_invalidated = true;
        }
        self.objects.dirty = true;
        proof {
            let after = self.objects.spec_values();
            assert(after == values.push(record));
            lemma_uses_push(values, record);
            lemma_recount_keeps_links(
                before.materials,
                self.materials,
                desc.material,
                (before.materials@[desc.material].ref_count + 1) as u32,
                self.textures,
                self.material_flags@,
            );
            assert(self.materials@.dom() =~= before.materials@.dom());
            assert(self.meshes@.dom() =~= before.meshes@.dom());
            assert forall|j: int| 0 <= j < self.objects.spec_values().len() implies (
            #[trigger] self.objects.spec_values()[j]).rows_named(self.materials@) by {
                if j < values.len() {
                    assert(values[j] == after[j]);
                }
            }
            before.lemma_object_links(*self);
            self.sections.lemma_kept(
                before.objects.records@,
                before.meshes@,
                self.objects.records@,
                self.meshes@,
            );
        }
        Ok(id)
    }

    /// Counts that follow the uses keep users and assets linked.
    pub(crate) proof fn lemma_object_links(self, after: Scene)
        requires
            self.wf(),
            after.virtual_geometry == self.virtual_geometry,
            after.foliage == self.foliage,
            after.materials@.dom() == self.materials@.dom(),
            after.meshes@.dom() == self.meshes@.dom(),
            forall|i: int|
                0 <= i < after.objects.spec_values().len() ==> (
                #[trigger] after.objects.spec_values()[i]).rows_named(after.materials@),
            forall|m: MaterialId| #[trigger]
                after.materials@.contains_key(m) ==> after.materials@[m].ref_count
                    - self.materials@[m].ref_count == material_uses(
                    after.objects.spec_values(),
                    after.virtual_geometry.spec_values(),
                    after.foliage.spec_types(),
                    m,
                ) - material_uses(
                    self.objects.spec_values(),
                    self.virtual_geometry.spec_values(),
                    self.foliage.spec_types(),
                    m,
                ),
            forall|m: MeshId| #[trigger]
                after.meshes@.contains_key(m) ==> after.meshes@[m].owner == self.meshes@[m].owner
                    && after.meshes@[m].ref_count - self.meshes@[m].ref_count == mesh_uses(
                    after.objects.spec_values(),
                    m,
                ) - mesh_uses(self.objects.spec_values(), m),
            forall|m: MaterialId|
                !self.materials@.contains_key(m) ==> #[trigger] material_uses(
                    after.objects.spec_values(),
                    after.virtual_geometry.spec_values(),
                    after.foliage.spec_types(),
                    m,
                ) == material_uses(
                    self.objects.spec_values(),
                    self.virtual_geometry.spec_values(),
                    self.foliage.spec_types(),
                    m,
                ),
            forall|m: MeshId|
                !self.meshes@.contains_key(m) ==> #[trigger] mesh_uses(
                    after.objects.spec_values(),
                    m,
                ) == mesh_uses(self.objects.spec_values(), m),
        ensures
            meshes_linked(after.meshes@, after.objects.spec_values()),
            materials_linked(
                after.materials@,
                after.objects.spec_values(),
                after.virtual_geometry.spec_values(),
                after.foliage.spec_types(),
            ),
    {
        assert forall|i: int| 0 <= i < after.objects.spec_values().len() implies (
        #[trigger] after.objects.spec_values()[i]).mesh_row
            == after.objects.spec_values()[i].mesh.0.index
            && after.objects.spec_values()[i].material_row
            == after.materials@[after.objects.spec_values()[i].material].gpu_row by {
            assert(after.objects.spec_values()[i].rows_named(after.materials@));
        }
        assert forall|m: MeshId| #[trigger] after.meshes@.contains_key(m) implies
            after.meshes@[m].ref_count == mesh_uses(after.objects.spec_values(), m) + owner_uses(
            after.meshes@[m],
        ) by {
            assert(self.meshes@.contains_key(m));
        }
        assert forall|m: MaterialId| #[trigger] after.materials@.contains_key(m) implies
            after.materials@[m].ref_count == material_uses(
            after.objects.spec_values(),
            after.virtual_geometry.spec_values(),
            after.foliage.spec_types(),
            m,
        ) by {
            assert(self.materials@.contains_key(m));
        }
        assert forall|m: MeshId| #[trigger]
            mesh_uses(after.objects.spec_values(), m) > 0 implies after.meshes@.contains_key(m) by {
            if !self.meshes@.contains_key(m) {
                assert(mesh_uses(self.objects.spec_values(), m) == 0);
            }
        }
        assert forall|m: MaterialId| #[trigger]
            material_uses(
                after.objects.spec_values(),
                after.virtual_geometry.spec_values(),
                after.foliage.spec_types(),
                m,
            ) > 0 implies after.materials@.contains_key(m) by {
            if !self.materials@.contains_key(m) {
                assert(material_uses(
                    self.objects.spec_values(),
                    self.virtual_geometry.spec_values(),
                    self.foliage.spec_types(),
                    m,
                ) == 0);
            }
        }
    }

    /// `after` is `self` without the object `id`.
    pub open spec fn object_removed(&self, after: &Scene, id: ObjectId) -> bool {
        let record = self.objects.records@[id];
        let fixed = record.movability != Movability::Movable;
        &&& *after == (Scene {
            objects: after.objects,
            materials: after.materials,
            meshes: after.meshes,
            bake_invalidated: self.bake_invalidated || fixed,
            actors: after.actors,
            data: after.data,
            ..*self
        })
        &&& after.objects == (Objects {
            records: after.objects.records,
            projection_slots: after.objects.projection_slots,
            dirty: true,
            static_dirty: self.objects.static_dirty || fixed,
            ..self.objects
        })
        &&& after.objects.records@ == self.objects.records@.remove(id)
        &&& after.objects.records.id_by_slot@ == swap_removed(
            self.objects.records.id_by_slot@,
            self.objects.records.place(id),
        )
        &&& after.objects.records.value_by_slot@ == swap_removed(
            self.objects.records.value_by_slot@,
            self.objects.records.place(id),
        )
        &&& after.objects.projection_slots@ == if id.0.index
            < self.objects.projection_slots@.len() {
            self.objects.projection_slots@.update(id.0.index as int, NO_OBJECT_PROJECTION_SLOT)
        } else {
            self.objects.projection_slots@
        }
        &&& recounted(
            self.materials,
            after.materials,
            record.material,
            (self.materials@[record.material].ref_count - 1) as u32,
        )
        &&& mesh_recounted(
            self.meshes,
            after.meshes,
            record.mesh,
            (self.meshes@[record.mesh].ref_count - 1) as u32,
        )
        &&& self.detached(SceneActorId::Object(id), after)
    }

    /// Removes an object and the actors that belong to it. Its mesh and material
    /// stay live even if nothing else uses them. A section of a sectioned instance
    /// can only be removed with its instance.
    pub fn remove_object(&mut self, id: ObjectId) -> (result: Result<()>)
        requires
            old(self).wf(),
        ensures
            final(self).wf(),
            result == if old(self).sections.instance_of@.contains_key(id) {
                Err::<(), _>(
                    SceneError::InvalidOperation {
                        reason:
                            "object belongs to a sectioned instance; remove the sectioned instance",
                    },
                )
            } else if !old(self).objects.records@.contains_key(id) {
                Err(SceneError::InvalidHandle { resource: "object" })
            } else {
                Ok(())
            },
            if result is Ok {
                old(self).object_removed(final(self), id)
            } else {
                *final(self) == *old(self)
            },
    {
        if self.sections.instance_of.is_live(id) {
            return Err(
                SceneError::InvalidOperation {
                    reason:
                        "object belongs to a sectioned instance; remove the sectioned instance",
                },
            );
        }
        let record: ObjectRecord = match self.objects.records.get(id) {
            Some(record) => *record,
            None => {
                return Err(invalid("object"));
            },
        };
        let ghost before = *self;
        let ghost values = self.objects.spec_values();
        let ghost i = self.objects.records.place(id);
        proof {
            self.objects.records.lemma_contains(id);
            assert(values[i] == record);
            lemma_object_mesh_live(self.meshes@, values, i);
            lemma_object_material_live(
                self.materials@,
                values,
                self.virtual_geometry.spec_values(),
                self.foliage.spec_types(),
                i,
            );
        }
        self.objects.records.remove(id);
        let index: usize = id.slot() as usize;
        if index < self.objects.projection_slots.len() {
            self.objects.projection_slots.set(index, NO_OBJECT_PROJECTION_SLOT);
        }
        lower_material(&mut self.materials, record.material);
        lower_mesh(&mut self.meshes, record.mesh);
        self.objects.dirty = true;
        if !record.movability.can_move() {
            self.objects.static_dirty = true;
            self.bake_invalidated = true;
        }
        proof {
            lemma_uses_swap_removed(values, i);
            lemma_recount_keeps_links(
                before.materials,
                self.materials,
                record.material,
                (before.materials@[record.material].ref_count - 1) as u32,
                self.textures,
                self.material_flags@,
            );
            assert(self.materials@.dom() =~= before.materials@.dom());
            assert(self.meshes@.dom() =~= before.meshes@.dom());
            assert forall|j: int| 0 <= j < self.objects.spec_values().len() implies (
            #[trigger] self.objects.spec_values()[j]).rows_named(self.materials@) by {
                let from = if j == i { values.len() - 1 } else { j };
                assert(self.objects.spec_values()[j] == values[from]);
            }
            before.lemma_object_links(*self);
            self.sections.lemma_kept(
                before.objects.records@,
                before.meshes@,
                self.objects.records@,
                self.meshes@,
            );
        }
        self.detach_actors_for_target(SceneActorId::Object(id));
        Ok(())
    }

    /// `after` is `self` with another record for a live object of the same mesh,
    /// material, groups and row, and another generation of movable objects.
    pub open spec fn object_edited(
        &self,
        after: &Scene,
        id: ObjectId,
        record: ObjectRecord,
        movable_generation: u64,
    ) -> bool {
        &&& *after == (Scene { objects: after.objects, ..*self })
        &&& after.objects == (Objects {
            records: after.objects.records,
            movable_generation,
            ..self.objects
        })
        &&& after.objects.records@ == self.objects.records@.insert(id, record)
        &&& after.objects.records.id_by_slot == self.objects.records.id_by_slot
        &&& after.objects.records.slot_by_entity == self.objects.records.slot_by_entity
        &&& after.objects.records.value_by_slot@ == self.objects.records.value_by_slot@.update(
            self.objects.records.place(id),
            record,
        )
    }

    /// Replaces a live object's record by one of the same mesh, material, groups
    /// and row.
    pub(crate) fn edit_object(&mut self, id: ObjectId, record: ObjectRecord, movable_generation: u64)
        requires
            old(self).wf(),
            old(self).objects.records@.contains_key(id),
            record.mesh == old(self).objects.records@[id].mesh,
            record.material == old(self).objects.records@[id].material,
            record.groups == old(self).objects.records@[id].groups,
            record.gpu_row == old(self).objects.records@[id].gpu_row,
            record.mesh_row == old(self).objects.records@[id].mesh_row,
            record.material_row == old(self).objects.records@[id].material_row,
        ensures
            final(self).wf(),
            old(self).object_edited(final(self), id, record, movable_generation),
    {
        let ghost before = *self;
        let ghost i = self.objects.records.place(id);
        let ghost values = self.objects.spec_values();
        proof {
            self.objects.records.lemma_contains(id);
        }
        self.objects.records.set(id, record);
        self.objects.movable_generation = movable_generation;
        proof {
            lemma_uses_update(values, i, record);
            assert forall|j: int| 0 <= j < self.objects.spec_values().len() implies (
            #[trigger] self.objects.spec_values()[j]).rows_named(self.materials@) by {
                assert(values[j] == values[j]);
            }
            before.lemma_object_links(*self);
            self.sections.lemma_kept(
                before.objects.records@,
                before.meshes@,
                self.objects.records@,
                self.meshes@,
            );
            if !before.objects.dirty {
                lemma_edit_keeps_published(
                    before.objects,
                    self.objects,
                    id,
                    record,
                    self.hidden_groups,
                );
            }
        }
    }

    /// Replaces a live object's record by one that differs in its lightmap alone.
    pub(crate) fn relight_object(&mut self, id: ObjectId, record: ObjectRecord)
        requires
            old(self).wf(),
            old(self).objects.records@.contains_key(id),
            record == (ObjectRecord {
                lightmap_index: record.lightmap_index,
                ..old(self).objects.records@[id]
            }),
        ensures
            final(self).wf(),
            old(self).object_edited(
                final(self),
                id,
                record,
                old(self).objects.movable_generation,
            ),
    {
        let generation: u64 = self.objects.movable_generation;
        self.edit_object(id, record, generation);
    }

    /// Moves a movable object: its bounding sphere follows the translation and
    /// keeps its radius. A move of an object that cannot move does nothing.
    pub fn update_object_transform(
        &mut self,
        id: ObjectId,
        transform: [F32; 16],
        normal_mat: [F32; 12],
    ) -> (result: Result<()>)
        requires
            old(self).wf(),
        ensures
            final(self).wf(),
            old(self).object_moved(final(self), id, transform, normal_mat, result),
    {
        let record: ObjectRecord = match self.objects.records.get(id) {
            Some(record) => *record,
            None => {
                return Err(invalid("object"));
            },
        };
        if !record.movability.can_move() {
            return Ok(());
        }
        let sphere: [F32; 4] = [
            transform[12],
            transform[13],
            transform[14],
            record.pose.sphere[3],
        ];
        proof {
            let want = [transform[12], transform[13], transform[14], record.pose.sphere[3]];
            assert(sphere@ =~= want@);
            assert(sphere =~= want);
        }
        let moved = ObjectRecord {
            pose: ObjectPose { model: transform, sphere, flags: record.pose.flags },
            normal_mat,
            ..record
        };
        let generation: u64 = self.objects.movable_generation.wrapping_add(1);
        self.edit_object(id, moved, generation);
        Ok(())
    }

    /// What moving the object comes to.
    pub open spec fn object_moved(
        &self,
        after: &Scene,
        id: ObjectId,
        transform: [F32; 16],
        normal_mat: [F32; 12],
        result: Result<()>,
    ) -> bool {
        let record = self.objects.records@[id];
        if !self.objects.records@.contains_key(id) {
            &&& result == Err::<(), _>(SceneError::InvalidHandle { resource: "object" })
            &&& *after == *self
        } else if record.movability != Movability::Movable {
            result == Ok::<(), SceneError>(()) && *after == *self
        } else {
            &&& result == Ok::<(), SceneError>(())
            &&& self.object_edited(
                after,
                id,
                moved_record(record, transform, normal_mat),
                self.objects.movable_generation.wrapping_add(1),
            )
        }
    }

    /// `after` is `self` with other bounds for an object.
    pub open spec fn object_bounded(
        &self,
        after: &Scene,
        id: ObjectId,
        bounds: [F32; 4],
        result: Result<()>,
    ) -> bool {
        if self.objects.records@.contains_key(id) {
            let record = self.objects.records@[id];
            &&& result == Ok::<(), SceneError>(())
            &&& self.object_edited(
                after,
                id,
                ObjectRecord { pose: ObjectPose { sphere: bounds, ..record.pose }, ..record },
                if record.movability == Movability::Movable {
                    self.objects.movable_generation.wrapping_add(1)
                } else {
                    self.objects.movable_generation
                },
            )
        } else {
            &&& result == Err::<(), _>(SceneError::InvalidHandle { resource: "object" })
            &&& *after == *self
        }
    }

    /// Replaces the bounding sphere.
    pub fn update_object_bounds(&mut self, id: ObjectId, bounds: [F32; 4]) -> (result: Result<()>)
        requires
            old(self).wf(),
        ensures
            final(self).wf(),
            old(self).object_bounded(final(self), id, bounds, result),
    {
        let record: ObjectRecord = match self.objects.records.get(id) {
            Some(record) => *record,
            None => {
                return Err(invalid("object"));
            },
        };
        let next = ObjectRecord {
            pose: ObjectPose {
                model: record.pose.model,
                sphere: bounds,
                flags: record.pose.flags,
            },
            ..record
        };
        let generation: u64 = if record.movability.can_move() {
            self.objects.movable_generation.wrapping_add(1)
        } else {
            self.objects.movable_generation
        };
        self.edit_object(id, next, generation);
        Ok(())
    }

    /// `after` is `self` with another material for an object.
    pub open spec fn object_repainted(
        &self,
        after: &Scene,
        id: ObjectId,
        material: MaterialId,
        result: Result<()>,
    ) -> bool {
        if !self.objects.records@.contains_key(id) {
            &&& result == Err::<(), _>(SceneError::InvalidHandle { resource: "object" })
            &&& *after == *self
        } else if !self.materials@.contains_key(material) {
            &&& result == Err::<(), _>(SceneError::InvalidHandle { resource: "material" })
            &&& *after == *self
        } else {
            let record = self.objects.records@[id];
            let next = ObjectRecord {
                material,
                material_row: self.materials@[material].gpu_row,
                ..record
            };
            &&& result == Ok::<(), SceneError>(())
            &&& *after == (Scene {
                objects: after.objects,
                materials: after.materials,
                ..*self
            })
            &&& after.objects == (Objects {
                records: after.objects.records,
                dirty: true,
                ..self.objects
            })
            &&& after.objects.records@ == self.objects.records@.insert(id, next)
            &&& after.objects.records.id_by_slot == self.objects.records.id_by_slot
            &&& after.materials.id_by_slot == self.materials.id_by_slot
            &&& after.materials@ == if material == record.material {
                self.materials@
            } else {
                self.materials@.insert(
                    material,
                    MaterialRecord {
                        ref_count: (self.materials@[material].ref_count + 1) as u32,
                        ..self.materials@[material]
                    },
                ).insert(
                    record.material,
                    MaterialRecord {
                        ref_count: (self.materials@[record.material].ref_count
                            - 1) as u32,
                        ..self.materials@[record.material]
                    },
                )
            }
        }
    }

    /// Gives an object another material: the new one counts it, the old one no
    /// longer does, and the draw lists are due to be rebuilt.
    pub fn update_object_material(&mut self, id: ObjectId, material: MaterialId) -> (result: Result<
        (),
    >)
        requires
            old(self).wf(),
        ensures
            final(self).wf(),
            old(self).object_repainted(final(self), id, material, result),
    {
        let record: ObjectRecord = match self.objects.records.get(id) {
            Some(record) => *record,
            None => {
                return Err(invalid("object"));
            },
        };
        let material_row: u32 = match self.materials.get(material) {
            Some(found) => found.gpu_row,
            None => {
                return Err(invalid("material"));
            },
        };
        let ghost before = *self;
        let ghost values = self.objects.spec_values();
        let ghost i = self.objects.records.place(id);
        proof {
            self.objects.records.lemma_contains(id);
            assert(values[i] == record);
            lemma_material_uses_bounded(
                values,
                self.virtual_geometry.spec_values(),
                self.foliage.spec_types(),
                material,
            );
            lemma_object_material_live(
                self.materials@,
                values,
                self.virtual_geometry.spec_values(),
                self.foliage.spec_types(),
                i,
            );
        }
        raise_material(&mut self.materials, material);
        let ghost middle = self.materials;
        let next = ObjectRecord { material, material_row, ..record };
        self.objects.records.set(id, next);
        lower_material(&mut self.materials, record.material);
        self.objects.dirty = true;
        proof {
            lemma_recount_keeps_links(
                before.materials,
                middle,
                material,
                (before.materials@[material].ref_count + 1) as u32,
                self.textures,
                self.material_flags@,
            );
            lemma_recount_keeps_links(
                middle,
                self.materials,
                record.material,
                (middle@[record.material].ref_count - 1) as u32,
                self.textures,
                self.material_flags@,
            );
            lemma_uses_update(values, i, next);
            assert(self.materials@.dom() =~= before.materials@.dom());
            assert forall|j: int| 0 <= j < self.objects.spec_values().len() implies (
            #[trigger] self.objects.spec_values()[j]).rows_named(self.materials@) by {
                assert(values[j] == values[j]);
            }
            before.lemma_object_links(*self);
            self.sections.lemma_kept(
                before.objects.records@,
                before.meshes@,
                self.objects.records@,
                self.meshes@,
            );
            if material == record.material {
                assert(self.materials@ =~= before.materials@);
            }
        }
        Ok(())
    }

    pub fn get_object_transform(&self, id: ObjectId) -> (result: Result<[F32; 16]>)
        requires
            self.wf(),
        ensures
            result == if self.objects.records@.contains_key(id) {
                Ok::<_, SceneError>(self.objects.records@[id].pose.model)
            } else {
                Err(SceneError::InvalidHandle { resource: "object" })
            },
    {
        match self.objects.records.get(id) {
            Some(record) => Ok(record.pose.model),
            None => Err(invalid("object")),
        }
    }

    pub fn get_object_bounds(&self, id: ObjectId) -> (result: Result<[F32; 4]>)
        requires
            self.wf(),
        ensures
            result == if self.objects.records@.contains_key(id) {
                Ok::<_, SceneError>(self.objects.records@[id].pose.sphere)
            } else {
                Err(SceneError::InvalidHandle { resource: "object" })
            },
    {
        match self.objects.records.get(id) {
            Some(record) => Ok(record.pose.sphere),
            None => Err(invalid("object")),
        }
    }

    /// What a live object is made of.
    pub open spec fn object_descriptor(&self, id: ObjectId) -> ObjectDescriptor {
        let record = self.objects.records@[id];
        ObjectDescriptor {
            mesh: record.mesh,
            material: record.material,
            transform: record.pose.model,
            bounds: record.pose.sphere,
            flags: record.pose.flags,
            groups: record.groups,
            movability: Some(record.movability),
            user_tag: record.user_tag,
        }
    }

    pub fn get_object_descriptor(&self, id: ObjectId) -> (result: Result<ObjectDescriptor>)
        requires
            self.wf(),
        ensures
            result == if self.objects.records@.contains_key(id) {
                Ok::<_, SceneError>(self.object_descriptor(id))
            } else {
                Err(SceneError::InvalidHandle { resource: "object" })
            },
    {
        match self.objects.records.get(id) {
            Some(record) => Ok(
                ObjectDescriptor {
                    mesh: record.mesh,
                    material: record.material,
                    transform: record.pose.model,
                    bounds: record.pose.sphere,
                    flags: record.pose.flags,
                    groups: record.groups,
                    movability: Some(record.movability),
                    user_tag: record.user_tag,
                },
            ),
            None => Err(invalid("object")),
        }
    }

    /// All objects with transform, bounding sphere and tag, in compact order.
    pub fn iter_objects_for_editor(&self) -> (list: Vec<(ObjectId, [F32; 16], [F32; 4], u64)>)
        requires
            self.wf(),
        ensures
            list@.len() == self.objects.records.spec_len(),
            forall|i: int|
                0 <= i < list@.len() ==> {
                    let record = self.objects.records@[list@[i].0];
                    &&& (#[trigger] list@[i]).0 == self.objects.records.id_by_slot@[i]
                    &&& list@[i].1 == record.pose.model
                    &&& list@[i].2 == record.pose.sphere
                    &&& list@[i].3 == record.user_tag
                },
    {
        let mut list: Vec<(ObjectId, [F32; 16], [F32; 4], u64)> = Vec::new();
        let mut i: usize = 0;
        while i < self.objects.records.id_by_slot.len()
            invariant
                0 <= i <= self.objects.records.spec_len(),
                self.objects.records.wf(),
                list@.len() == i,
                forall|j: int|
                    0 <= j < i ==> {
                        let record = self.objects.records@[list@[j].0];
                        &&& (#[trigger] list@[j]).0 == self.objects.records.id_by_slot@[j]
                        &&& list@[j].1 == record.pose.model
                        &&& list@[j].2 == record.pose.sphere
                        &&& list@[j].3 == record.user_tag
                    },
            decreases self.objects.records.spec_len() - i,
        {
            proof {
                self.objects.records.lemma_dense(i as int);
            }
            let id: ObjectId = self.objects.records.id_by_slot[i];
            let record: ObjectRecord = self.objects.records.value_by_slot[i];
            list.push((id, record.pose.model, record.pose.sphere, record.user_tag));
            i = i + 1;
        }
        list
    }
}

} // verus!
