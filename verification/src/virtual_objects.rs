//! Virtual meshes and virtual objects in the scene.
use vstd::prelude::*;

use crate::actors::SceneActorId;
use crate::counting::{
    lemma_occurrences_bounded, lemma_occurrences_positive, lemma_occurrences_push,
    lemma_occurrences_swap_removed, occurrences,
};
use crate::errors::{invalid, Result, SceneError};
use crate::float_bits::F32;
use crate::groups::GroupMask;
use crate::handles::{Entity, Handle, MaterialId, MeshId, VirtualMeshId, VirtualObjectId};
use crate::materials::{lemma_recount_keeps_links, lower_material, raise_material, recounted};
use crate::objects::{object_movability, Objects, NO_LIGHTMAP};
use crate::references::{
    lemma_material_uses_bounded, lemma_virtual_material_live, material_uses, virtual_materials,
};
use crate::rows::Movability;
use crate::scene::Scene;
use crate::sparse_set::{swap_removed, SparseSet};
use crate::virtual_geometry::{
    include_dirty_instance, object_assets, virtual_mesh_uses, widened, GpuInstanceData,
    VirtualGeometry, VirtualMeshRecord, VirtualObjectRecord, NO_VG_SLOT,
};

verus! {

/// What a virtual object is made of.
#[derive(Clone, Copy, Debug)]
pub struct VirtualObjectDescriptor {
    pub virtual_mesh: VirtualMeshId,
    pub material_id: MaterialId,
    pub transform: [F32; 16],
    pub bounds: [F32; 4],
    pub flags: u32,
    pub groups: GroupMask,
    /// Static unless it is given.
    pub movability: Option<Movability>,
}

/// The record of a fresh virtual object.
pub open spec fn virtual_record(
    desc: VirtualObjectDescriptor,
    normal_mat: [F32; 12],
    mesh_slot: u32,
    material_row: u32,
) -> VirtualObjectRecord {
    VirtualObjectRecord {
        virtual_mesh: desc.virtual_mesh,
        material: desc.material_id,
        groups: desc.groups,
        movability: object_movability(desc.movability),
        instance: GpuInstanceData {
            model: desc.transform,
            normal_mat,
            bounds: desc.bounds,
            prev_model: desc.transform,
            mesh_id: mesh_slot,
            material_id: material_row,
            flags: desc.flags,
            lightmap_index: NO_LIGHTMAP,
        },
    }
}

/// Slot of the pool mesh that stands for a virtual mesh.
pub open spec fn first_slot(mesh: VirtualMeshRecord) -> u32 {
    match mesh.first_mesh {
        Some(m) => m.0.index,
        None => 0,
    }
}

/// `after` is `before` with another count for a virtual mesh.
pub open spec fn virtual_mesh_recounted(
    before: SparseSet<VirtualMeshId, VirtualMeshRecord>,
    after: SparseSet<VirtualMeshId, VirtualMeshRecord>,
    id: VirtualMeshId,
    ref_count: u32,
) -> bool {
    &&& after@ == before@.insert(id, VirtualMeshRecord { ref_count, ..before@[id] })
    &&& after.id_by_slot == before.id_by_slot
}

impl Scene {
    /// Registers a virtual mesh whose levels of detail were built and uploaded.
    pub fn insert_virtual_mesh(
        &mut self,
        entity: Entity,
        first_mesh: Option<MeshId>,
        meshlet_count: u32,
    ) -> (id: VirtualMeshId)
        requires
            old(self).wf(),
            !old(self).virtual_geometry.meshes.occupies(entity.index),
            entity.index < usize::MAX,
            old(self).virtual_geometry.meshes.spec_len() < u32::MAX,
        ensures
            final(self).wf(),
            id == VirtualMeshId(entity),
            *final(self) == (Scene { virtual_geometry: final(self).virtual_geometry, ..*old(self) }),
            final(self).virtual_geometry == (VirtualGeometry {
                meshes: final(self).virtual_geometry.meshes,
                ..old(self).virtual_geometry
            }),
            final(self).virtual_geometry.meshes@ == old(self).virtual_geometry.meshes@.insert(
                id,
                VirtualMeshRecord { first_mesh, meshlet_count, ref_count: 0 },
            ),
            final(self).virtual_geometry.meshes.id_by_slot@ == old(
                self,
            ).virtual_geometry.meshes.id_by_slot@.push(id),
    {
        let id = VirtualMeshId(entity);
        let ghost before = self.virtual_geometry;
        self.virtual_geometry.meshes.insert(
            id,
            VirtualMeshRecord { first_mesh, meshlet_count, ref_count: 0 },
        );
        proof {
            let now = self.virtual_geometry;
            assert(now.linked()) by {
                assert forall|m: VirtualMeshId| #[trigger] now.meshes@.contains_key(m) implies
                    now.meshes@[m].ref_count == virtual_mesh_uses(now.spec_values(), m) by {
                    if m != id {
                        assert(before.meshes@.contains_key(m));
                    } else {
                        assert(!before.meshes@.contains_key(m));
                        assert(virtual_mesh_uses(before.spec_values(), m) == 0);
                    }
                }
                assert forall|m: VirtualMeshId| #[trigger]
                    virtual_mesh_uses(now.spec_values(), m) > 0 implies now.meshes@.contains_key(
                    m,
                ) by {
                    assert(virtual_mesh_uses(before.spec_values(), m) > 0);
                }
            }
            assert(now.published(self.hidden_groups) == before.published(self.hidden_groups));
        }
        id
    }

    /// `after` is `self` without a virtual mesh.
    pub open spec fn virtual_mesh_removed(&self, after: &Scene, id: VirtualMeshId) -> bool {
        &&& *after == (Scene {
            virtual_geometry: after.virtual_geometry,
            ..*self
        })
        &&& after.virtual_geometry == (VirtualGeometry {
            meshes: after.virtual_geometry.meshes,
            ..self.virtual_geometry
        })
        &&& after.virtual_geometry.meshes@ == self.virtual_geometry.meshes@.remove(id)
        &&& after.virtual_geometry.meshes.id_by_slot@ == swap_removed(
            self.virtual_geometry.meshes.id_by_slot@,
            self.virtual_geometry.meshes.place(id),
        )
    }

    /// Removes a virtual mesh that no virtual object uses.
    pub fn remove_virtual_mesh(&mut self, id: VirtualMeshId) -> (result: Result<()>)
        requires
            old(self).wf(),
        ensures
            final(self).wf(),
            result == if !old(self).virtual_geometry.meshes@.contains_key(id) {
                Err::<(), _>(SceneError::InvalidHandle { resource: "virtual_mesh" })
            } else if old(self).virtual_geometry.meshes@[id].ref_count > 0 {
                Err(SceneError::ResourceInUse { resource: "virtual_mesh" })
            } else {
                Ok(())
            },
            if result is Ok {
                old(self).virtual_mesh_removed(final(self), id)
            } else {
                *final(self) == *old(self)
            },
    {
        match self.virtual_geometry.meshes.get(id) {
            Some(record) => {
                if record.ref_count != 0 {
                    return Err(SceneError::ResourceInUse { resource: "virtual_mesh" });
                }
            },
            None => {
                return Err(invalid("virtual_mesh"));
            },
        }
        let ghost before = self.virtual_geometry;
        self.virtual_geometry.meshes.remove(id);
        proof {
            let now = self.virtual_geometry;
            assert(now.linked()) by {
                assert forall|m: VirtualMeshId| #[trigger] now.meshes@.contains_key(m) implies
                    now.meshes@[m].ref_count == virtual_mesh_uses(now.spec_values(), m) by {
                    assert(before.meshes@.contains_key(m));
                }
                assert forall|m: VirtualMeshId| #[trigger]
                    virtual_mesh_uses(now.spec_values(), m) > 0 implies now.meshes@.contains_key(
                    m,
                ) by {
                    assert(virtual_mesh_uses(before.spec_values(), m) > 0);
                    assert(before.meshes@.contains_key(m));
                }
            }
            assert(now.published(self.hidden_groups) == before.published(self.hidden_groups));
        }
        Ok(())
    }

    /// `after` is `self` with the virtual object placed.
    pub open spec fn virtual_object_inserted(
        &self,
        after: &Scene,
        entity: Entity,
        desc: VirtualObjectDescriptor,
        normal_mat: [F32; 12],
    ) -> bool {
        let id = VirtualObjectId(entity);
        let before = self.virtual_geometry;
        let now = after.virtual_geometry;
        let mesh = before.meshes@[desc.virtual_mesh];
        let record = virtual_record(
            desc,
            normal_mat,
            first_slot(mesh),
            self.materials@[desc.material_id].gpu_row,
        );
        &&& *after == (Scene { virtual_geometry: now, materials: after.materials, ..*self })
        &&& now == (VirtualGeometry {
            meshes: now.meshes,
            objects: now.objects,
            dirty: true,
            ..before
        })
        &&& now.objects@ == before.objects@.insert(id, record)
        &&& now.objects.id_by_slot@ == before.objects.id_by_slot@.push(id)
        &&& virtual_mesh_recounted(
            before.meshes,
            now.meshes,
            desc.virtual_mesh,
            (mesh.ref_count + 1) as u32,
        )
        &&& recounted(
            self.materials,
            after.materials,
            desc.material_id,
            (self.materials@[desc.material_id].ref_count + 1) as u32,
        )
    }

    /// Places an instance of a virtual mesh. Its material and mesh must be live and
    /// the mesh must have geometry.
    pub fn insert_virtual_object(
        &mut self,
        entity: Entity,
        desc: VirtualObjectDescriptor,
        normal_mat: [F32; 12],
    ) -> (result: Result<VirtualObjectId>)
        requires
            old(self).wf(),
            !old(self).virtual_geometry.objects.occupies(entity.index),
            entity.index < usize::MAX,
            old(self).material_user_count() < u32::MAX - 1,
        ensures
            final(self).wf(),
            result == if !old(self).materials@.contains_key(desc.material_id) {
                Err::<VirtualObjectId, _>(SceneError::InvalidHandle { resource: "material" })
            } else if !old(self).virtual_geometry.meshes@.contains_key(desc.virtual_mesh) {
                Err(SceneError::InvalidHandle { resource: "virtual_mesh" })
            } else if old(self).virtual_geometry.meshes@[desc.virtual_mesh].first_mesh is None {
                Err(SceneError::InvalidHandle { resource: "virtual_mesh_geometry" })
            } else {
                Ok(VirtualObjectId(entity))
            },
            if result is Ok {
                old(self).virtual_object_inserted(final(self), entity, desc, normal_mat)
            } else {
                *final(self) == *old(self)
            },
    {
        let material_row: u32 = match self.materials.get(desc.material_id) {
            Some(material) => material.gpu_row,
            None => {
                return Err(invalid("material"));
            },
        };
        let mesh: VirtualMeshRecord = match self.virtual_geometry.meshes.get(desc.virtual_mesh) {
            Some(mesh) => *mesh,
            None => {
                return Err(invalid("virtual_mesh"));
            },
        };
        let first_mesh: MeshId = match mesh.first_mesh {
            Some(first) => first,
            None => {
                return Err(invalid("virtual_mesh_geometry"));
            },
        };
        let ghost before = *self;
        let ghost values = self.virtual_geometry.spec_values();
        proof {
            lemma_material_uses_bounded(
                self.objects.spec_values(),
                values,
                self.foliage.spec_types(),
                desc.material_id,
            );
            lemma_occurrences_bounded(object_assets(values), desc.virtual_mesh);
        }
        raise_material(&mut self.materials, desc.material_id);
        self.virtual_geometry.meshes.set(
            desc.virtual_mesh,
            VirtualMeshRecord { ref_count: mesh.ref_count + 1, ..mesh },
        );
        let movability: Movability = match desc.movability {
            Some(m) => m,
            None => Movability::Static,
        };
        let record = VirtualObjectRecord {
            virtual_mesh: desc.virtual_mesh,
            material: desc.material_id,
            groups: desc.groups,
            movability,
            instance: GpuInstanceData {
                model: desc.transform,
                normal_mat,
                bounds: desc.bounds,
                prev_model: desc.transform,
                mesh_id: first_mesh.slot(),
                material_id: material_row,
                flags: desc.flags,
                lightmap_index: NO_LIGHTMAP,
            },
        };
        let id = VirtualObjectId(entity);
        self.virtual_geometry.objects.insert(id, record);
        self.virtual_geometry.dirty = true;
        proof {
            let after = self.virtual_geometry.spec_values();
            assert(after == values.push(record));
            assert(object_assets(after) =~= object_assets(values).push(record.virtual_mesh));
            assert(virtual_materials(after) =~= virtual_materials(values).push(record.material));
            assert forall|m: VirtualMeshId| #[trigger]
                virtual_mesh_uses(after, m) == virtual_mesh_uses(values, m) + (if m
                == desc.virtual_mesh {
                1nat
            } else {
                0
            }) by {
                lemma_occurrences_push(object_assets(values), record.virtual_mesh, m);
            }
            assert forall|m: MaterialId| #[trigger]
                occurrences(virtual_materials(after), m) == occurrences(
                    virtual_materials(values),
                    m,
                ) + (if m == desc.material_id {
                1nat
            } else {
                0
            }) by {
                lemma_occurrences_push(virtual_materials(values), record.material, m);
            }
            before.lemma_virtual_links(
                *self,
                desc.virtual_mesh,
                desc.material_id,
                1,
            );
            lemma_recount_keeps_links(
                before.materials,
                self.materials,
                desc.material_id,
                (before.materials@[desc.material_id].ref_count + 1) as u32,
                self.textures,
                self.material_flags@,
            );
        }
        Ok(id)
    }

    /// Counts that follow the uses keep users and assets linked.
    proof fn lemma_virtual_links(self, after: Scene, mesh: VirtualMeshId, material: MaterialId, step: int)
        requires
            self.wf(),
            after.objects == self.objects,
            after.foliage == self.foliage,
            self.materials@.contains_key(material),
            self.virtual_geometry.meshes@.contains_key(mesh),
            0 <= self.materials@[material].ref_count + step <= u32::MAX,
            0 <= self.virtual_geometry.meshes@[mesh].ref_count + step <= u32::MAX,
            recounted(
                self.materials,
                after.materials,
                material,
                (self.materials@[material].ref_count + step) as u32,
            ),
            after.virtual_geometry.meshes@ == self.virtual_geometry.meshes@.insert(
                mesh,
                VirtualMeshRecord {
                    ref_count: (self.virtual_geometry.meshes@[mesh].ref_count + step) as u32,
                    ..self.virtual_geometry.meshes@[mesh]
                },
            ),
            forall|m: VirtualMeshId| #[trigger]
                virtual_mesh_uses(after.virtual_geometry.spec_values(), m) == virtual_mesh_uses(
                    self.virtual_geometry.spec_values(),
                    m,
                ) + (if m == mesh {
                    step
                } else {
                    0
                }),
            forall|m: MaterialId| #[trigger]
                occurrences(virtual_materials(after.virtual_geometry.spec_values()), m)
                    == occurrences(virtual_materials(self.virtual_geometry.spec_values()), m) + (
                if m == material {
                    step
                } else {
                    0
                }),
        ensures
            after.virtual_geometry.linked(),
            crate::references::materials_linked(
                after.materials@,
                after.objects.spec_values(),
                after.virtual_geometry.spec_values(),
                after.foliage.spec_types(),
            ),
    {
        let before = self.virtual_geometry;
        let now = after.virtual_geometry;
        assert forall|m: VirtualMeshId| #[trigger] now.meshes@.contains_key(m) implies
            now.meshes@[m].ref_count == virtual_mesh_uses(now.spec_values(), m) by {
            assert(before.meshes@.contains_key(m));
        }
        assert forall|m: VirtualMeshId| #[trigger]
            virtual_mesh_uses(now.spec_values(), m) > 0 implies now.meshes@.contains_key(m) by {
            if m != mesh {
                assert(virtual_mesh_uses(before.spec_values(), m) > 0);
            }
        }
        assert forall|m: MaterialId| #[trigger] after.materials@.contains_key(m) implies
            after.materials@[m].ref_count == material_uses(
            after.objects.spec_values(),
            now.spec_values(),
            after.foliage.spec_types(),
            m,
        ) by {
            assert(self.materials@.contains_key(m));
            assert(occurrences(virtual_materials(now.spec_values()), m) == occurrences(
                virtual_materials(before.spec_values()),
                m,
            ) + (if m == material {
                step
            } else {
                0
            }));
        }
        assert forall|m: MaterialId| #[trigger]
            material_uses(
                after.objects.spec_values(),
                now.spec_values(),
                after.foliage.spec_types(),
                m,
            ) > 0 implies after.materials@.contains_key(m) by {
            if m != material {
                assert(occurrences(virtual_materials(now.spec_values()), m) == occurrences(
                    virtual_materials(before.spec_values()),
                    m,
                ));
                assert(material_uses(
                    self.objects.spec_values(),
                    before.spec_values(),
                    self.foliage.spec_types(),
                    m,
                ) > 0);
            }
        }
    }

    /// What moving a virtual object comes to.
    pub open spec fn virtual_object_moved(
        &self,
        after: &Scene,
        id: VirtualObjectId,
        transform: [F32; 16],
        normal_mat: [F32; 12],
    ) -> bool {
        let before = self.virtual_geometry;
        let now = after.virtual_geometry;
        let record = before.objects@[id];
        let moved = VirtualObjectRecord {
            instance: GpuInstanceData { model: transform, normal_mat, ..record.instance },
            ..record
        };
        let slot = before.projection_slots@[before.objects.place(id)];
        let drawn = !before.dirty && slot != NO_VG_SLOT;
        &&& *after == (Scene {
            virtual_geometry: now,
            objects: Objects {
                movable_generation: self.objects.movable_generation.wrapping_add(1),
                ..self.objects
            },
            ..*self
        })
        &&& now == (VirtualGeometry {
            objects: now.objects,
            cpu_instances: now.cpu_instances,
            instance_dirty_range: if drawn {
                widened(before.instance_dirty_range, slot as usize)
            } else {
                before.instance_dirty_range
            },
            ..before
        })
        &&& now.objects@ == before.objects@.insert(id, moved)
        &&& now.objects.id_by_slot == before.objects.id_by_slot
        &&& now.cpu_instances@ == if drawn {
            before.cpu_instances@.update(slot as int, moved.instance)
        } else {
            before.cpu_instances@
        }
    }

    /// Moves a movable virtual object. If the layout stands, only its instance
    /// is due for upload. A move of an object that cannot move does nothing.
    pub fn update_virtual_object_transform(
        &mut self,
        id: VirtualObjectId,
        transform: [F32; 16],
        normal_mat: [F32; 12],
    ) -> (result: Result<()>)
        requires
            old(self).wf(),
            old(self).virtual_geometry.cpu_instances@.len() < usize::MAX,
        ensures
            final(self).wf(),
            result == if old(self).virtual_geometry.objects@.contains_key(id) {
                Ok::<(), SceneError>(())
            } else {
                Err(SceneError::InvalidHandle { resource: "virtual_object" })
            },
            if result is Ok && old(self).virtual_geometry.objects@[id].movability
                == Movability::Movable {
                old(self).virtual_object_moved(final(self), id, transform, normal_mat)
            } else {
                *final(self) == *old(self)
            },
    {
        let record: VirtualObjectRecord = match self.virtual_geometry.objects.get(id) {
            Some(record) => *record,
            None => {
                return Err(invalid("virtual_object"));
            },
        };
        if !record.movability.can_move() {
            return Ok(());
        }
        let place: usize = match self.virtual_geometry.objects.slot(id) {
            Some(place) => place,
            None => {
                assert(false);
                0
            },
        };
        let ghost before = *self;
        let ghost values = self.virtual_geometry.spec_values();
        proof {
            self.virtual_geometry.objects.lemma_contains(id);
        }
        let moved = VirtualObjectRecord {
            instance: GpuInstanceData { model: transform, normal_mat, ..record.instance },
            ..record
        };
        self.virtual_geometry.objects.set(id, moved);
        self.objects.movable_generation = self.objects.movable_generation.wrapping_add(1);
        if !self.virtual_geometry.dirty {
            let slot: u32 = self.virtual_geometry.projection_slots[place];
            if slot != NO_VG_SLOT {
                let index: usize = slot as usize;
                self.virtual_geometry.cpu_instances.set(index, moved.instance);
                include_dirty_instance(&mut self.virtual_geometry.instance_dirty_range, index);
            }
        }
        proof {
            before.lemma_virtual_edit(*self, id, moved);
            assert(self.objects.published(self.hidden_groups) == before.objects.published(
                self.hidden_groups,
            ));
        }
        Ok(())
    }

    /// An edit of a virtual object that keeps mesh, material and groups keeps the
    /// scene in order.
    pub(crate) proof fn lemma_virtual_edit(
        self,
        after: Scene,
        id: VirtualObjectId,
        record: VirtualObjectRecord,
    )
        requires
            self.wf(),
            self.virtual_geometry.objects@.contains_key(id),
            after.objects.records == self.objects.records,
            after.foliage == self.foliage,
            after.materials == self.materials,
            after.hidden_groups == self.hidden_groups,
            after.virtual_geometry.meshes == self.virtual_geometry.meshes,
            after.virtual_geometry.objects.wf(),
            after.virtual_geometry.objects.id_by_slot == self.virtual_geometry.objects.id_by_slot,
            after.virtual_geometry.objects.value_by_slot@
                == self.virtual_geometry.objects.value_by_slot@.update(
                self.virtual_geometry.objects.place(id),
                record,
            ),
            record.virtual_mesh == self.virtual_geometry.objects@[id].virtual_mesh,
            record.material == self.virtual_geometry.objects@[id].material,
            record.groups == self.virtual_geometry.objects@[id].groups,
            after.virtual_geometry.dirty == self.virtual_geometry.dirty,
            after.virtual_geometry.projection_slots == self.virtual_geometry.projection_slots,
            after.virtual_geometry.cpu_visibility == self.virtual_geometry.cpu_visibility,
            !self.virtual_geometry.dirty ==> ({
                let slot = self.virtual_geometry.projection_slots@[self.virtual_geometry.objects.place(
                    id,
                )];
                after.virtual_geometry.cpu_instances@ == if slot != NO_VG_SLOT {
                    self.virtual_geometry.cpu_instances@.update(slot as int, record.instance)
                } else {
                    self.virtual_geometry.cpu_instances@
                }
            }),
        ensures
            after.virtual_geometry.wf(after.hidden_groups),
            crate::references::materials_linked(
                after.materials@,
                after.objects.spec_values(),
                after.virtual_geometry.spec_values(),
                after.foliage.spec_types(),
            ),
    {
        let before = self.virtual_geometry;
        let now = after.virtual_geometry;
        let values = before.spec_values();
        before.objects.lemma_contains(id);
        let p = before.objects.place(id);
        assert(object_assets(now.spec_values()) =~= object_assets(values));
        assert(virtual_materials(now.spec_values()) =~= virtual_materials(values));
        assert(now.linked()) by {
            assert forall|m: VirtualMeshId| #[trigger] now.meshes@.contains_key(m) implies
                now.meshes@[m].ref_count == virtual_mesh_uses(now.spec_values(), m) by {
                assert(before.meshes@.contains_key(m));
            }
            assert forall|m: VirtualMeshId| #[trigger]
                virtual_mesh_uses(now.spec_values(), m) > 0 implies now.meshes@.contains_key(m) by {
                assert(virtual_mesh_uses(before.spec_values(), m) > 0);
            }
        }
        assert forall|m: MaterialId| #[trigger] after.materials@.contains_key(m) implies
            after.materials@[m].ref_count == material_uses(
            after.objects.spec_values(),
            now.spec_values(),
            after.foliage.spec_types(),
            m,
        ) by {
            assert(self.materials@.contains_key(m));
        }
        assert forall|m: MaterialId| #[trigger]
            material_uses(
                after.objects.spec_values(),
                now.spec_values(),
                after.foliage.spec_types(),
                m,
            ) > 0 implies after.materials@.contains_key(m) by {
            assert(material_uses(
                self.objects.spec_values(),
                before.spec_values(),
                self.foliage.spec_types(),
                m,
            ) > 0);
        }
        if !before.dirty {
            assert(now.published(after.hidden_groups)) by {
                assert forall|i: int|
                    0 <= i < now.projection_slots@.len() && #[trigger] now.projection_slots@[i]
                        != NO_VG_SLOT implies {
                    let slot = now.projection_slots@[i] as int;
                    &&& slot < now.cpu_instances@.len()
                    &&& now.cpu_instances@[slot] == now.spec_values()[i].instance
                    &&& now.cpu_visibility@[slot] == crate::draws::visibility_word(
                        now.spec_values()[i].groups,
                        after.hidden_groups,
                    )
                } by {
                    assert(before.projection_slots@[i] != NO_VG_SLOT);
                    if i != p && before.projection_slots@[p] != NO_VG_SLOT {
                        assert(before.projection_slots@[i] != before.projection_slots@[p]);
                    }
                }
                assert forall|a: int, b: int|
                    0 <= a < b < now.projection_slots@.len() && #[trigger] now.projection_slots@[a]
                        != NO_VG_SLOT implies now.projection_slots@[a]
                    != #[trigger] now.projection_slots@[b] by {
                    assert(before.projection_slots@[a] != before.projection_slots@[b]);
                }
            }
        }
    }

    /// `after` is `self` without the virtual object `id`. Its mesh stays; its
    /// material goes with it if nothing else uses that.
    pub open spec fn virtual_object_removed(&self, after: &Scene, id: VirtualObjectId) -> bool {
        let before = self.virtual_geometry;
        let now = after.virtual_geometry;
        let record = before.objects@[id];
        &&& *after == (Scene {
            virtual_geometry: now,
            materials: after.materials,
            material_flags: after.material_flags,
            textures: after.textures,
            actors: after.actors,
            data: after.data,
            ..*self
        })
        &&& now == (VirtualGeometry {
            meshes: now.meshes,
            objects: now.objects,
            dirty: true,
            ..before
        })
        &&& now.objects@ == before.objects@.remove(id)
        &&& now.objects.id_by_slot@ == swap_removed(
            before.objects.id_by_slot@,
            before.objects.place(id),
        )
        &&& virtual_mesh_recounted(
            before.meshes,
            now.meshes,
            record.virtual_mesh,
            (before.meshes@[record.virtual_mesh].ref_count - 1) as u32,
        )
        &&& self.material_released(after, record.material)
        &&& self.detached(SceneActorId::VirtualObject(id), after)
    }

    /// Removes a virtual object and the actors that belong to it.
    #[verifier::spinoff_prover]
    pub fn remove_virtual_object(&mut self, id: VirtualObjectId) -> (result: Result<()>)
        requires
            old(self).wf(),
        ensures
            final(self).wf(),
            result == if old(self).virtual_geometry.objects@.contains_key(id) {
                Ok::<(), SceneError>(())
            } else {
                Err(SceneError::InvalidHandle { resource: "virtual_object" })
            },
            if result is Ok {
                old(self).virtual_object_removed(final(self), id)
            } else {
                *final(self) == *old(self)
            },
    {
        let record: VirtualObjectRecord = match self.virtual_geometry.objects.get(id) {
            Some(record) => *record,
            None => {
                return Err(invalid("virtual_object"));
            },
        };
        let ghost before = *self;
        let ghost values = self.virtual_geometry.spec_values();
        let ghost p = self.virtual_geometry.objects.place(id);
        proof {
            self.virtual_geometry.objects.lemma_contains(id);
            assert(values[p] == record);
            lemma_virtual_material_live(
                self.materials@,
                self.objects.spec_values(),
                values,
                self.foliage.spec_types(),
                p,
            );
            assert(object_assets(values)[p] == record.virtual_mesh);
            assert(object_assets(values).contains(record.virtual_mesh));
            lemma_occurrences_positive(object_assets(values), record.virtual_mesh);
            assert(virtual_mesh_uses(values, record.virtual_mesh) > 0);
        }
        lower_material(&mut self.materials, record.material);
        self.virtual_geometry.objects.remove(id);
        match self.virtual_geometry.meshes.get(record.virtual_mesh) {
            Some(mesh) => {
                let lowered = VirtualMeshRecord { ref_count: mesh.ref_count - 1, ..*mesh };
                self.virtual_geometry.meshes.set(record.virtual_mesh, lowered);
            },
            None => {
                assert(false);
            },
        }
        self.virtual_geometry.dirty = true;
        proof {
            let after = self.virtual_geometry.spec_values();
            assert(after == swap_removed(values, p));
            assert(object_assets(after) =~= swap_removed(object_assets(values), p));
            assert(virtual_materials(after) =~= swap_removed(virtual_materials(values), p));
            assert forall|m: VirtualMeshId| #[trigger]
                virtual_mesh_uses(after, m) == virtual_mesh_uses(values, m) + (if m
                == record.virtual_mesh {
                -1int
            } else {
                0
            }) by {
                lemma_occurrences_swap_removed(object_assets(values), p, m);
            }
            assert forall|m: MaterialId| #[trigger]
                occurrences(virtual_materials(after), m) == occurrences(
                    virtual_materials(values),
                    m,
                ) + (if m == record.material {
                -1int
            } else {
                0
            }) by {
                lemma_occurrences_swap_removed(virtual_materials(values), p, m);
            }
            before.lemma_virtual_links(*self, record.virtual_mesh, record.material, -1);
            lemma_recount_keeps_links(
                before.materials,
                self.materials,
                record.material,
                (before.materials@[record.material].ref_count - 1) as u32,
                self.textures,
                self.material_flags@,
            );
        }
        let ghost between = *self;
        self.drop_unused_material(record.material);
        proof {
            before.lemma_released(between, *self, record.material);
        }
        self.detach_actors_for_target(SceneActorId::VirtualObject(id));
        Ok(())
    }
}

} // verus!
