//! Clearing the scene: everything that was authored goes, in the order of dependence.
use vstd::prelude::*;

use crate::float_bits::F32;
use crate::flush::FlushReport;
use crate::frame::FrameState;
use crate::groups::{visible, GroupId, GroupMask};
use crate::handles::{
    DecalId, FoliageInteractorId, FoliageLayerId, FoliageTypeId, LightId, MaterialId, MeshId,
    MultiMeshId, ObjectId, PlanarReflectorId, PortalId, PostProcessVolumeId, ReflectionCaptureId,
    SceneSpriteAtlasId, SectionedInstanceId, SublevelId, TextureId, VirtualMeshId, VirtualObjectId,
    VoxelVolumeId, WaterHitboxId, WaterVolumeId,
};
use crate::lights::Lights;
use crate::materials::texture_uses;
use crate::outstanding::{
    lemma_capture_told, lemma_content_told, lemma_foliage_told, lemma_light_told,
    lemma_object_told, lemma_objects_told, lemma_outstanding_same, lemma_sublevel_told,
    lemma_virtual_object_told, lemma_volume_told,
};
use crate::references::{
    foliage_materials, material_uses, mesh_uses, object_materials, object_meshes,
    virtual_materials,
};
use crate::scene::Scene;
use crate::sectioned::instance_assets;
use crate::shadow_budget::camera_hash;
use crate::spaces::identity;
use crate::virtual_geometry::{object_assets, virtual_mesh_uses, VirtualGeometry};

verus! {

impl Scene {
    /// Removes every sublevel; their members return to the world's space.
    fn clear_sublevels(&mut self)
        requires
            old(self).wf(),
        ensures
            final(self).wf(),
            final(self).outstanding() == old(self).outstanding(),
            *final(self) == (Scene {
                objects: final(self).objects,
                bake_invalidated: final(self).bake_invalidated,
                spaces: final(self).spaces,
                ..*old(self)
            }),
            final(self).spaces.sublevels.spec_len() == 0,
            final(self).spaces.field == old(self).spaces.field,
    {
        let ghost before = *self;
        while self.spaces.sublevels.id_by_slot.len() > 0
            invariant
                self.wf(),
                self.outstanding() == before.outstanding(),
                *self == (Scene {
                    objects: self.objects,
                    bake_invalidated: self.bake_invalidated,
                    spaces: self.spaces,
                    ..before
                }),
                self.spaces.field == before.spaces.field,
            decreases self.spaces.sublevels.spec_len(),
        {
            let id: SublevelId = self.spaces.sublevels.id_by_slot[0];
            proof {
                self.spaces.sublevels.lemma_dense(0);
            }
            let ghost prior = *self;
            let _ = self.remove_sublevel(id);
            proof {
                lemma_sublevel_told(prior, *self, id);
            }
        }
    }

    /// Removes every portal.
    fn clear_portals(&mut self)
        requires
            old(self).wf(),
        ensures
            final(self).wf(),
            final(self).outstanding() == old(self).outstanding(),
            *final(self) == (Scene { spaces: final(self).spaces, ..*old(self) }),
            final(self).spaces.portals.spec_len() == 0,
            final(self).spaces.field == old(self).spaces.field,
            final(self).spaces.sublevels == old(self).spaces.sublevels,
    {
        let ghost before = *self;
        while self.spaces.portals.id_by_slot.len() > 0
            invariant
                self.wf(),
                *self == (Scene { spaces: self.spaces, ..before }),
                self.spaces.field == before.spaces.field,
                self.spaces.sublevels == before.spaces.sublevels,
            decreases self.spaces.portals.spec_len(),
        {
            let id: PortalId = self.spaces.portals.id_by_slot[0];
            proof {
                self.spaces.portals.lemma_dense(0);
            }
            let _ = self.remove_portal(id);
        }
        proof {
            lemma_outstanding_same(before, *self);
        }
    }

    /// Removes every placed sectioned mesh with its objects.
    fn clear_sectioned_objects(&mut self)
        requires
            old(self).wf(),
            old(self).spaces.sublevels.spec_len() == 0,
        ensures
            final(self).wf(),
            final(self).outstanding() == old(self).outstanding(),
            *final(self) == (Scene {
                objects: final(self).objects,
                materials: final(self).materials,
                meshes: final(self).meshes,
                sections: final(self).sections,
                bake_invalidated: final(self).bake_invalidated,
                actors: final(self).actors,
                data: final(self).data,
                ..*old(self)
            }),
            final(self).sections.instances.spec_len() == 0,
            final(self).data.policies == old(self).data.policies,
    {
        let ghost before = *self;
        while self.sections.instances.id_by_slot.len() > 0
            invariant
                self.wf(),
                self.spaces.sublevels.spec_len() == 0,
                self.outstanding() == before.outstanding(),
                *self == (Scene {
                    objects: self.objects,
                    materials: self.materials,
                    meshes: self.meshes,
                    sections: self.sections,
                    bake_invalidated: self.bake_invalidated,
                    actors: self.actors,
                    data: self.data,
                    ..before
                }),
                self.data.policies == before.data.policies,
            decreases self.sections.instances.spec_len(),
        {
            let id: SectionedInstanceId = self.sections.instances.id_by_slot[0];
            proof {
                self.sections.instances.lemma_dense(0);
            }
            let ghost prior = *self;
            let _ = self.remove_sectioned_object(id);
            proof {
                lemma_objects_told(
                    prior,
                    *self,
                    prior.sections.instances@[id].section_objects@,
                );
            }
        }
    }

    /// Removes every object; none is a section any more.
    fn clear_objects(&mut self)
        requires
            old(self).wf(),
            old(self).spaces.sublevels.spec_len() == 0,
            old(self).sections.instances.spec_len() == 0,
        ensures
            final(self).wf(),
            final(self).outstanding() == old(self).outstanding(),
            *final(self) == (Scene {
                objects: final(self).objects,
                materials: final(self).materials,
                meshes: final(self).meshes,
                bake_invalidated: final(self).bake_invalidated,
                actors: final(self).actors,
                data: final(self).data,
                ..*old(self)
            }),
            final(self).objects.records.spec_len() == 0,
            final(self).data.policies == old(self).data.policies,
    {
        let ghost before = *self;
        while self.objects.records.id_by_slot.len() > 0
            invariant
                self.wf(),
                self.spaces.sublevels.spec_len() == 0,
                self.outstanding() == before.outstanding(),
                *self == (Scene {
                    objects: self.objects,
                    materials: self.materials,
                    meshes: self.meshes,
                    bake_invalidated: self.bake_invalidated,
                    actors: self.actors,
                    data: self.data,
                    ..before
                }),
                self.sections.instances.spec_len() == 0,
                self.data.policies == before.data.policies,
            decreases self.objects.records.spec_len(),
        {
            let id: ObjectId = self.objects.records.id_by_slot[0];
            proof {
                self.objects.records.lemma_dense(0);
                if self.sections.instance_of@.contains_key(id) {
                    let s = self.sections.instance_of@[id];
                    self.sections.instances.lemma_contains(s);
                }
            }
            let ghost prior = *self;
            let _ = self.remove_object(id);
            proof {
                lemma_object_told(prior, *self, id);
            }
        }
    }

    /// Removes every light.
    fn clear_lights(&mut self)
        requires
            old(self).wf(),
        ensures
            final(self).wf(),
            final(self).outstanding() == old(self).outstanding(),
            *final(self) == (Scene {
                lights: final(self).lights,
                bake_invalidated: final(self).bake_invalidated,
                actors: final(self).actors,
                data: final(self).data,
                ..*old(self)
            }),
            final(self).lights.records.spec_len() == 0,
            final(self).lights.shadow_face_capacity == old(self).lights.shadow_face_capacity,
            final(self).data.policies == old(self).data.policies,
    {
        let ghost before = *self;
        while self.lights.records.id_by_slot.len() > 0
            invariant
                self.wf(),
                self.outstanding() == before.outstanding(),
                *self == (Scene {
                    lights: self.lights,
                    bake_invalidated: self.bake_invalidated,
                    actors: self.actors,
                    data: self.data,
                    ..before
                }),
                self.lights.shadow_face_capacity == before.lights.shadow_face_capacity,
                self.data.policies == before.data.policies,
            decreases self.lights.records.spec_len(),
        {
            let id: LightId = self.lights.records.id_by_slot[0];
            proof {
                self.lights.records.lemma_dense(0);
            }
            let ghost prior = *self;
            let _ = self.remove_light(id);
            proof {
                lemma_light_told(prior, *self, id);
            }
        }
    }

    /// Removes every decal.
    fn clear_decals(&mut self)
        requires
            old(self).wf(),
        ensures
            final(self).wf(),
            final(self).outstanding() == old(self).outstanding(),
            *final(self) == (Scene {
                decals: final(self).decals,
                actors: final(self).actors,
                data: final(self).data,
                ..*old(self)
            }),
            final(self).decals.spec_len() == 0,
            final(self).data.policies == old(self).data.policies,
    {
        let ghost before = *self;
        while self.decals.records.id_by_slot.len() > 0
            invariant
                self.wf(),
                *self == (Scene {
                    decals: self.decals,
                    actors: self.actors,
                    data: self.data,
                    ..before
                }),
                self.data.policies == before.data.policies,
            decreases self.decals.spec_len(),
        {
            let id: DecalId = self.decals.records.id_by_slot[0];
            proof {
                self.decals.lemma_dense(0);
            }
            let _ = self.remove_decal(id);
        }
        proof {
            lemma_outstanding_same(before, *self);
        }
    }

    /// Removes every water volume.
    fn clear_water_volumes(&mut self)
        requires
            old(self).wf(),
        ensures
            final(self).wf(),
            final(self).outstanding() == old(self).outstanding(),
            *final(self) == (Scene {
                water: final(self).water,
                actors: final(self).actors,
                data: final(self).data,
                ..*old(self)
            }),
            final(self).water.volumes.spec_len() == 0,
            final(self).data.policies == old(self).data.policies,
    {
        let ghost before = *self;
        while self.water.volumes.id_by_slot.len() > 0
            invariant
                self.wf(),
                *self == (Scene {
                    water: self.water,
                    actors: self.actors,
                    data: self.data,
                    ..before
                }),
                self.data.policies == before.data.policies,
            decreases self.water.volumes.spec_len(),
        {
            let id: WaterVolumeId = self.water.volumes.id_by_slot[0];
            proof {
                self.water.volumes.lemma_dense(0);
            }
            let _ = self.remove_water_volume(id);
        }
        proof {
            lemma_outstanding_same(before, *self);
        }
    }

    /// Removes every water hitbox.
    fn clear_water_hitboxes(&mut self)
        requires
            old(self).wf(),
        ensures
            final(self).wf(),
            final(self).outstanding() == old(self).outstanding(),
            *final(self) == (Scene {
                water: final(self).water,
                actors: final(self).actors,
                data: final(self).data,
                ..*old(self)
            }),
            final(self).water.hitboxes.spec_len() == 0,
            final(self).water.volumes == old(self).water.volumes,
            final(self).data.policies == old(self).data.policies,
    {
        let ghost before = *self;
        while self.water.hitboxes.records.id_by_slot.len() > 0
            invariant
                self.wf(),
                *self == (Scene {
                    water: self.water,
                    actors: self.actors,
                    data: self.data,
                    ..before
                }),
                self.water.volumes == before.water.volumes,
                self.data.policies == before.data.policies,
            decreases self.water.hitboxes.spec_len(),
        {
            let id: WaterHitboxId = self.water.hitboxes.records.id_by_slot[0];
            proof {
                self.water.hitboxes.lemma_dense(0);
            }
            let _ = self.remove_water_hitbox(id);
        }
        proof {
            lemma_outstanding_same(before, *self);
        }
    }

    /// Removes every post-process volume.
    fn clear_post_process_volumes(&mut self)
        requires
            old(self).wf(),
        ensures
            final(self).wf(),
            final(self).outstanding() == old(self).outstanding(),
            *final(self) == (Scene {
                post_process: final(self).post_process,
                actors: final(self).actors,
                data: final(self).data,
                ..*old(self)
            }),
            final(self).post_process.volumes.spec_len() == 0,
            final(self).data.policies == old(self).data.policies,
    {
        let ghost before = *self;
        while self.post_process.volumes.records.id_by_slot.len() > 0
            invariant
                self.wf(),
                *self == (Scene {
                    post_process: self.post_process,
                    actors: self.actors,
                    data: self.data,
                    ..before
                }),
                self.data.policies == before.data.policies,
            decreases self.post_process.volumes.spec_len(),
        {
            let id: PostProcessVolumeId = self.post_process.volumes.records.id_by_slot[0];
            proof {
                self.post_process.volumes.lemma_dense(0);
            }
            let _ = self.remove_post_process_volume(id);
        }
        proof {
            lemma_outstanding_same(before, *self);
        }
    }

    /// Removes every reflection capture.
    fn clear_reflection_captures(&mut self)
        requires
            old(self).wf(),
        ensures
            final(self).wf(),
            final(self).outstanding() == old(self).outstanding(),
            *final(self) == (Scene {
                reflections: final(self).reflections,
                bake_invalidated: final(self).bake_invalidated,
                actors: final(self).actors,
                data: final(self).data,
                ..*old(self)
            }),
            final(self).reflections.captures.spec_len() == 0,
            final(self).data.policies == old(self).data.policies,
    {
        let ghost before = *self;
        while self.reflections.captures.id_by_slot.len() > 0
            invariant
                self.wf(),
                self.outstanding() == before.outstanding(),
                *self == (Scene {
                    reflections: self.reflections,
                    bake_invalidated: self.bake_invalidated,
                    actors: self.actors,
                    data: self.data,
                    ..before
                }),
                self.data.policies == before.data.policies,
            decreases self.reflections.captures.spec_len(),
        {
            let id: ReflectionCaptureId = self.reflections.captures.id_by_slot[0];
            proof {
                self.reflections.captures.lemma_dense(0);
            }
            let ghost prior = *self;
            let _ = self.remove_reflection_capture(id);
            proof {
                lemma_capture_told(prior, *self, id);
            }
        }
    }

    /// Removes every planar reflector.
    fn clear_planar_reflectors(&mut self)
        requires
            old(self).wf(),
        ensures
            final(self).wf(),
            final(self).outstanding() == old(self).outstanding(),
            *final(self) == (Scene {
                planar_reflectors: final(self).planar_reflectors,
                ..*old(self)
            }),
            final(self).planar_reflectors.spec_len() == 0,
    {
        let ghost before = *self;
        while self.planar_reflectors.records.id_by_slot.len() > 0
            invariant
                self.wf(),
                *self == (Scene { planar_reflectors: self.planar_reflectors, ..before }),
            decreases self.planar_reflectors.spec_len(),
        {
            let id: PlanarReflectorId = self.planar_reflectors.records.id_by_slot[0];
            proof {
                self.planar_reflectors.lemma_dense(0);
            }
            let _ = self.remove_planar_reflector(id);
        }
        proof {
            lemma_outstanding_same(before, *self);
        }
    }

    /// Removes every voxel volume.
    fn clear_voxel_volumes(&mut self)
        requires
            old(self).wf(),
        ensures
            final(self).wf(),
            final(self).outstanding() == old(self).outstanding(),
            *final(self) == (Scene { voxels: final(self).voxels, ..*old(self) }),
            final(self).voxels.volumes.spec_len() == 0,
    {
        let ghost before = *self;
        while self.voxels.volumes.id_by_slot.len() > 0
            invariant
                self.wf(),
                self.outstanding() == before.outstanding(),
                *self == (Scene { voxels: self.voxels, ..before }),
            decreases self.voxels.volumes.spec_len(),
        {
            let id: VoxelVolumeId = self.voxels.volumes.id_by_slot[0];
            proof {
                self.voxels.volumes.lemma_dense(0);
            }
            let ghost prior = *self;
            let _ = self.remove_voxel_volume(id);
            proof {
                lemma_volume_told(prior, *self, id);
            }
        }
    }

    /// Removes every virtual object.
    fn clear_virtual_objects(&mut self)
        requires
            old(self).wf(),
        ensures
            final(self).wf(),
            final(self).outstanding() == old(self).outstanding(),
            *final(self) == (Scene {
                virtual_geometry: final(self).virtual_geometry,
                materials: final(self).materials,
                material_flags: final(self).material_flags,
                textures: final(self).textures,
                actors: final(self).actors,
                data: final(self).data,
                ..*old(self)
            }),
            final(self).virtual_geometry.objects.spec_len() == 0,
            final(self).data.policies == old(self).data.policies,
    {
        let ghost before = *self;
        while self.virtual_geometry.objects.id_by_slot.len() > 0
            invariant
                self.wf(),
                self.outstanding() == before.outstanding(),
                *self == (Scene {
                    virtual_geometry: self.virtual_geometry,
                    materials: self.materials,
                    material_flags: self.material_flags,
                    textures: self.textures,
                    actors: self.actors,
                    data: self.data,
                    ..before
                }),
                self.data.policies == before.data.policies,
            decreases self.virtual_geometry.objects.spec_len(),
        {
            let id: VirtualObjectId = self.virtual_geometry.objects.id_by_slot[0];
            proof {
                self.virtual_geometry.objects.lemma_dense(0);
            }
            let ghost prior = *self;
            let _ = self.remove_virtual_object(id);
            proof {
                lemma_virtual_object_told(prior, *self, id);
            }
        }
    }

    /// Removes every foliage layer.
    fn clear_foliage_layers(&mut self)
        requires
            old(self).wf(),
        ensures
            final(self).wf(),
            final(self).outstanding() == old(self).outstanding(),
            *final(self) == (Scene { foliage: final(self).foliage, ..*old(self) }),
            final(self).foliage.layers.spec_len() == 0,
            final(self).foliage.wind == old(self).foliage.wind,
    {
        let ghost before = *self;
        while self.foliage.layers.records.id_by_slot.len() > 0
            invariant
                self.wf(),
                self.outstanding() == before.outstanding(),
                *self == (Scene { foliage: self.foliage, ..before }),
                self.foliage.wind == before.foliage.wind,
            decreases self.foliage.layers.spec_len(),
        {
            let id: FoliageLayerId = self.foliage.layers.records.id_by_slot[0];
            proof {
                self.foliage.layers.lemma_dense(0);
            }
            let ghost prior = *self;
            let _ = self.remove_foliage_layer(id);
            proof {
                lemma_foliage_told(prior, *self);
            }
        }
    }

    /// Removes every foliage interactor.
    fn clear_foliage_interactors(&mut self)
        requires
            old(self).wf(),
        ensures
            final(self).wf(),
            final(self).outstanding() == old(self).outstanding(),
            *final(self) == (Scene { foliage: final(self).foliage, ..*old(self) }),
            final(self).foliage.interactors.spec_len() == 0,
            final(self).foliage.wind == old(self).foliage.wind,
            final(self).foliage.layers == old(self).foliage.layers,
    {
        let ghost before = *self;
        while self.foliage.interactors.records.id_by_slot.len() > 0
            invariant
                self.wf(),
                *self == (Scene { foliage: self.foliage, ..before }),
                self.foliage.wind == before.foliage.wind,
                self.foliage.layers == before.foliage.layers,
                self.foliage.types == before.foliage.types,
                self.foliage.generation == before.foliage.generation,
            decreases self.foliage.interactors.spec_len(),
        {
            let id: FoliageInteractorId = self.foliage.interactors.records.id_by_slot[0];
            proof {
                self.foliage.interactors.lemma_dense(0);
            }
            let _ = self.remove_foliage_interactor(id);
        }
        proof {
            lemma_outstanding_same(before, *self);
        }
    }

    /// Removes every foliage type; no layer or interactor is left that could name one.
    fn clear_foliage_types(&mut self)
        requires
            old(self).wf(),
            old(self).foliage.layers.spec_len() == 0,
        ensures
            final(self).wf(),
            final(self).outstanding() == old(self).outstanding(),
            *final(self) == (Scene {
                foliage: final(self).foliage,
                materials: final(self).materials,
                material_flags: final(self).material_flags,
                textures: final(self).textures,
                ..*old(self)
            }),
            final(self).foliage.types.spec_len() == 0,
            final(self).foliage.wind == old(self).foliage.wind,
            final(self).foliage.layers.spec_len() == 0,
            final(self).foliage.interactors == old(self).foliage.interactors,
    {
        let ghost before = *self;
        while self.foliage.types.records.id_by_slot.len() > 0
            invariant
                self.wf(),
                self.outstanding() == before.outstanding(),
                *self == (Scene {
                    foliage: self.foliage,
                    materials: self.materials,
                    material_flags: self.material_flags,
                    textures: self.textures,
                    ..before
                }),
                self.foliage.wind == before.foliage.wind,
                self.foliage.layers.spec_len() == 0,
                self.foliage.interactors == before.foliage.interactors,
            decreases self.foliage.types.spec_len(),
        {
            let id: FoliageTypeId = self.foliage.types.records.id_by_slot[0];
            proof {
                self.foliage.types.lemma_dense(0);
            }
            let ghost prior = *self;
            let _ = self.remove_foliage_type(id);
            proof {
                lemma_foliage_told(prior, *self);
            }
        }
    }

    /// Removes every virtual mesh; no object uses one any more.
    fn clear_virtual_meshes(&mut self)
        requires
            old(self).wf(),
            old(self).virtual_geometry.objects.spec_len() == 0,
        ensures
            final(self).wf(),
            final(self).outstanding() == old(self).outstanding(),
            *final(self) == (Scene {
                virtual_geometry: final(self).virtual_geometry,
                ..*old(self)
            }),
            final(self).virtual_geometry.meshes.spec_len() == 0,
            final(self).virtual_geometry.objects == old(self).virtual_geometry.objects,
    {
        let ghost before = *self;
        while self.virtual_geometry.meshes.id_by_slot.len() > 0
            invariant
                self.wf(),
                *self == (Scene { virtual_geometry: self.virtual_geometry, ..before }),
                self.virtual_geometry == (VirtualGeometry {
                    meshes: self.virtual_geometry.meshes,
                    ..before.virtual_geometry
                }),
                before.virtual_geometry.objects.spec_len() == 0,
            decreases self.virtual_geometry.meshes.spec_len(),
        {
            let id: VirtualMeshId = self.virtual_geometry.meshes.id_by_slot[0];
            proof {
                self.virtual_geometry.meshes.lemma_dense(0);
                assert(object_assets(self.virtual_geometry.spec_values()).len() == 0);
                assert(virtual_mesh_uses(self.virtual_geometry.spec_values(), id) == 0);
            }
            let _ = self.remove_virtual_mesh(id);
        }
        proof {
            lemma_outstanding_same(before, *self);
        }
    }

    /// Removes every sectioned mesh with its sections; no instance is left.
    fn clear_sectioned_meshes(&mut self)
        requires
            old(self).wf(),
            old(self).sections.instances.spec_len() == 0,
            old(self).objects.records.spec_len() == 0,
        ensures
            final(self).wf(),
            final(self).outstanding() == old(self).outstanding(),
            *final(self) == (Scene {
                meshes: final(self).meshes,
                sections: final(self).sections,
                ..*old(self)
            }),
            final(self).sections.multi_meshes.spec_len() == 0,
            final(self).sections.instances == old(self).sections.instances,
    {
        let ghost before = *self;
        while self.sections.multi_meshes.id_by_slot.len() > 0
            invariant
                self.wf(),
                *self == (Scene { meshes: self.meshes, sections: self.sections, ..before }),
                self.sections.instances == before.sections.instances,
                before.sections.instances.spec_len() == 0,
                before.objects.records.spec_len() == 0,
            decreases self.sections.multi_meshes.spec_len(),
        {
            let id: MultiMeshId = self.sections.multi_meshes.id_by_slot[0];
            proof {
                self.sections.multi_meshes.lemma_dense(0);
                assert(instance_assets(self.sections.instances.value_by_slot@).len() == 0);
                assert(self.sections.asset_linked(id, self.meshes@));
                let ids = self.sections.multi_meshes@[id].section_mesh_ids@;
                assert forall|k: int| 0 <= k < ids.len() implies self.meshes@[#[trigger] ids[k]].ref_count
                    == 1 by {
                    assert(self.meshes@.contains_key(ids[k]));
                    assert(object_meshes(self.objects.spec_values()).len() == 0);
                    assert(mesh_uses(self.objects.spec_values(), ids[k]) == 0);
                }
                assert(self.sections_unused(id));
            }
            let _ = self.remove_sectioned_mesh(id);
        }
        proof {
            lemma_outstanding_same(before, *self);
        }
    }

    /// Removes every mesh; nothing uses or owns one any more.
    fn clear_meshes(&mut self)
        requires
            old(self).wf(),
            old(self).sections.multi_meshes.spec_len() == 0,
            old(self).objects.records.spec_len() == 0,
        ensures
            final(self).wf(),
            final(self).outstanding() == old(self).outstanding(),
            *final(self) == (Scene { meshes: final(self).meshes, ..*old(self) }),
            final(self).meshes.spec_len() == 0,
    {
        let ghost before = *self;
        while self.meshes.id_by_slot.len() > 0
            invariant
                self.wf(),
                *self == (Scene { meshes: self.meshes, ..before }),
                before.sections.multi_meshes.spec_len() == 0,
                before.objects.records.spec_len() == 0,
            decreases self.meshes.spec_len(),
        {
            let id: MeshId = self.meshes.id_by_slot[0];
            proof {
                self.meshes.lemma_dense(0);
                assert(object_meshes(self.objects.spec_values()).len() == 0);
                assert(mesh_uses(self.objects.spec_values(), id) == 0);
                match self.meshes@[id].owner {
                    Some(owner) => {
                        self.sections.multi_meshes.lemma_contains(owner);
                    },
                    None => {},
                }
            }
            let _ = self.remove_mesh(id);
        }
        proof {
            lemma_outstanding_same(before, *self);
        }
    }

    /// Removes every material; nothing uses one any more.
    fn clear_materials(&mut self)
        requires
            old(self).wf(),
            old(self).material_user_count() == 0,
        ensures
            final(self).wf(),
            final(self).outstanding() == old(self).outstanding(),
            *final(self) == (Scene {
                materials: final(self).materials,
                material_flags: final(self).material_flags,
                textures: final(self).textures,
                ..*old(self)
            }),
            final(self).materials.spec_len() == 0,
    {
        let ghost before = *self;
        while self.materials.id_by_slot.len() > 0
            invariant
                self.wf(),
                *self == (Scene {
                    materials: self.materials,
                    material_flags: self.material_flags,
                    textures: self.textures,
                    ..before
                }),
                before.material_user_count() == 0,
            decreases self.materials.spec_len(),
        {
            let id: MaterialId = self.materials.id_by_slot[0];
            proof {
                self.materials.lemma_dense(0);
                assert(object_materials(self.objects.spec_values()).len() == 0);
                assert(virtual_materials(self.virtual_geometry.spec_values()).len() == 0);
                assert(foliage_materials(self.foliage.spec_types()).len() == 0);
                assert(material_uses(
                    self.objects.spec_values(),
                    self.virtual_geometry.spec_values(),
                    self.foliage.spec_types(),
                    id,
                ) == 0);
            }
            let _ = self.remove_material(id);
        }
        proof {
            lemma_outstanding_same(before, *self);
        }
    }

    /// Removes every texture; no material shows one any more.
    fn clear_textures(&mut self)
        requires
            old(self).wf(),
            old(self).materials.spec_len() == 0,
        ensures
            final(self).wf(),
            final(self).outstanding() == old(self).outstanding(),
            *final(self) == (Scene { textures: final(self).textures, ..*old(self) }),
            final(self).textures.spec_len() == 0,
    {
        let ghost before = *self;
        while self.textures.id_by_slot.len() > 0
            invariant
                self.wf(),
                *self == (Scene { textures: self.textures, ..before }),
                before.materials.spec_len() == 0,
            decreases self.textures.spec_len(),
        {
            let id: TextureId = self.textures.id_by_slot[0];
            proof {
                self.textures.lemma_dense(0);
                assert(texture_uses(self.materials.value_by_slot@, id) == 0);
            }
            let _ = self.remove_texture(id);
        }
        proof {
            lemma_outstanding_same(before, *self);
        }
    }

    /// Nothing authored is left.
    pub open spec fn is_empty(&self) -> bool {
        &&& self.spaces.sublevels.spec_len() == 0
        &&& self.spaces.portals.spec_len() == 0
        &&& self.sections.instances.spec_len() == 0
        &&& self.sections.multi_meshes.spec_len() == 0
        &&& self.objects.records.spec_len() == 0
        &&& self.lights.records.spec_len() == 0
        &&& self.decals.spec_len() == 0
        &&& self.water.volumes.spec_len() == 0
        &&& self.water.hitboxes.spec_len() == 0
        &&& self.post_process.volumes.spec_len() == 0
        &&& self.reflections.captures.spec_len() == 0
        &&& self.planar_reflectors.spec_len() == 0
        &&& self.voxels.volumes.spec_len() == 0
        &&& self.virtual_geometry.objects.spec_len() == 0
        &&& self.virtual_geometry.meshes.spec_len() == 0
        &&& self.foliage.layers.spec_len() == 0
        &&& self.foliage.interactors.spec_len() == 0
        &&& self.foliage.types.spec_len() == 0
        &&& self.sprites.sprites.spec_len() == 0
        &&& self.sprites.layers.spec_len() == 0
        &&& self.meshes.spec_len() == 0
        &&& self.materials.spec_len() == 0
        &&& self.textures.spec_len() == 0
        &&& self.data.entities.spec_len() == 0
        &&& self.data.subsystems@ == Map::<u64, Vec<u8>>::empty()
        &&& self.actors.retained@.len() == 0
        &&& self.actors.targets@.len() == 0
        &&& self.sdf.ids@.len() == 0
        &&& self.sdf.terrain is None
        &&& self.planets.entries@.len() == 0
        &&& self.presentation.billboards@.len() == 0
        &&& self.presentation.corona_emitters@.len() == 0
        &&& self.hidden_groups == GroupMask(0)
        &&& self.frame.sky is None
    }

    /// What outlives the content: how the scene is set up, where the camera stood, the
    /// wind, component policies, and the identities and epochs that must not come back.
    pub open spec fn setup_kept(&self, after: &Scene) -> bool {
        &&& after.frame == (FrameState { sky: None, ..self.frame })
        &&& after.flag_bits == self.flag_bits
        &&& after.spaces.field == self.spaces.field
        &&& after.lights.shadow_face_capacity == self.lights.shadow_face_capacity
        &&& after.foliage.wind == self.foliage.wind
        &&& after.data.policies == self.data.policies
        &&& after.sprites.next_epoch == self.sprites.next_epoch
        &&& after.sprites.limits == self.sprites.limits
        &&& self.presentation.cleared(&after.presentation)
    }

    /// Removes what is drawn as part of the world.
    #[verifier::spinoff_prover]
    #[verifier::rlimit(60)]
    fn clear_content(&mut self)
        requires
            old(self).wf(),
        ensures
            final(self).wf(),
            final(self).outstanding() == old(self).outstanding(),
            final(self).spaces.sublevels.spec_len() == 0,
            final(self).spaces.portals.spec_len() == 0,
            final(self).sections.instances.spec_len() == 0,
            final(self).objects.records.spec_len() == 0,
            final(self).lights.records.spec_len() == 0,
            final(self).decals.spec_len() == 0,
            final(self).water.volumes.spec_len() == 0,
            final(self).water.hitboxes.spec_len() == 0,
            final(self).post_process.volumes.spec_len() == 0,
            final(self).reflections.captures.spec_len() == 0,
            final(self).planar_reflectors.spec_len() == 0,
            final(self).voxels.volumes.spec_len() == 0,
            final(self).spaces.field == old(self).spaces.field,
            final(self).lights.shadow_face_capacity == old(self).lights.shadow_face_capacity,
            final(self).data.policies == old(self).data.policies,
            *final(self) == (Scene {
                spaces: final(self).spaces,
                sections: final(self).sections,
                objects: final(self).objects,
                materials: final(self).materials,
                meshes: final(self).meshes,
                lights: final(self).lights,
                decals: final(self).decals,
                water: final(self).water,
                post_process: final(self).post_process,
                reflections: final(self).reflections,
                planar_reflectors: final(self).planar_reflectors,
                voxels: final(self).voxels,
                bake_invalidated: final(self).bake_invalidated,
                actors: final(self).actors,
                data: final(self).data,
                ..*old(self)
            }),
    {
        self.clear_sublevels();
        self.clear_portals();
        self.clear_sectioned_objects();
        self.clear_objects();
        self.clear_lights();
        self.clear_decals();
        self.clear_water_volumes();
        self.clear_water_hitboxes();
        self.clear_post_process_volumes();
        self.clear_reflection_captures();
        self.clear_planar_reflectors();
        self.clear_voxel_volumes();
    }

    /// Removes what else uses assets.
    #[verifier::spinoff_prover]
    #[verifier::rlimit(60)]
    fn clear_users(&mut self)
        requires
            old(self).wf(),
        ensures
            final(self).wf(),
            final(self).outstanding() == old(self).outstanding(),
            final(self).virtual_geometry.objects.spec_len() == 0,
            final(self).foliage.layers.spec_len() == 0,
            final(self).foliage.interactors.spec_len() == 0,
            final(self).foliage.types.spec_len() == 0,
            final(self).sprites.sprites.spec_len() == 0,
            final(self).sprites.layers.spec_len() == 0,
            final(self).foliage.wind == old(self).foliage.wind,
            final(self).data.policies == old(self).data.policies,
            final(self).sprites.next_epoch == old(self).sprites.next_epoch,
            final(self).sprites.limits == old(self).sprites.limits,
            *final(self) == (Scene {
                virtual_geometry: final(self).virtual_geometry,
                foliage: final(self).foliage,
                sprites: final(self).sprites,
                materials: final(self).materials,
                material_flags: final(self).material_flags,
                textures: final(self).textures,
                actors: final(self).actors,
                data: final(self).data,
                ..*old(self)
            }),
    {
        self.clear_virtual_objects();
        self.clear_foliage_layers();
        self.clear_foliage_interactors();
        self.clear_foliage_types();
        let ghost prior = *self;
        self.clear_sprites();
        proof {
            assert forall|j: int| 0 <= j < self.sprites.layers.spec_len() implies (
            #[trigger] self.sprites.layers.value_by_slot@[j]).references == 0 by {
                self.sprites.layers.lemma_dense(j);
                let a: SceneSpriteAtlasId = self.sprites.layers.id_by_slot@[j];
                assert(self.sprites.layers@.contains_key(a));
            }
        }
        self.clear_sprite_atlas_layers();
        proof {
            lemma_outstanding_same(prior, *self);
        }
    }

    /// Removes the assets, which nothing uses any more.
    #[verifier::spinoff_prover]
    #[verifier::rlimit(60)]
    fn clear_assets(&mut self)
        requires
            old(self).wf(),
            old(self).sections.instances.spec_len() == 0,
            old(self).objects.records.spec_len() == 0,
            old(self).virtual_geometry.objects.spec_len() == 0,
            old(self).foliage.types.spec_len() == 0,
        ensures
            final(self).wf(),
            final(self).outstanding() == old(self).outstanding(),
            final(self).sections.instances.spec_len() == 0,
            final(self).sections.multi_meshes.spec_len() == 0,
            final(self).virtual_geometry.objects.spec_len() == 0,
            final(self).virtual_geometry.meshes.spec_len() == 0,
            final(self).meshes.spec_len() == 0,
            final(self).materials.spec_len() == 0,
            final(self).textures.spec_len() == 0,
            *final(self) == (Scene {
                sections: final(self).sections,
                virtual_geometry: final(self).virtual_geometry,
                meshes: final(self).meshes,
                materials: final(self).materials,
                material_flags: final(self).material_flags,
                textures: final(self).textures,
                ..*old(self)
            }),
    {
        self.clear_virtual_meshes();
        self.clear_sectioned_meshes();
        self.clear_meshes();
        self.clear_materials();
        self.clear_textures();
    }

    /// Forgets actors, extension entities, the payloads of subsystems and everything that
    /// applies to the scene as a whole.
    #[verifier::spinoff_prover]
    #[verifier::rlimit(60)]
    fn clear_policies(&mut self)
        requires
            old(self).wf(),
            old(self).virtual_geometry.objects.spec_len() == 0,
        ensures
            final(self).wf(),
            final(self).outstanding() == old(self).outstanding(),
            final(self).data.entities.spec_len() == 0,
            final(self).data.subsystems@ == Map::<u64, Vec<u8>>::empty(),
            final(self).data.policies == old(self).data.policies,
            final(self).actors.retained@.len() == 0,
            final(self).actors.targets@.len() == 0,
            final(self).sdf.ids@.len() == 0,
            final(self).sdf.terrain is None,
            final(self).planets.entries@.len() == 0,
            old(self).presentation.cleared(&final(self).presentation),
            final(self).hidden_groups == GroupMask(0),
            final(self).frame == (FrameState { sky: None, ..old(self).frame }),
            final(self).objects.records == old(self).objects.records,
            final(self).virtual_geometry.objects == old(self).virtual_geometry.objects,
            final(self).virtual_geometry.meshes == old(self).virtual_geometry.meshes,
            *final(self) == (Scene {
                data: final(self).data,
                actors: final(self).actors,
                sdf: final(self).sdf,
                planets: final(self).planets,
                presentation: final(self).presentation,
                hidden_groups: final(self).hidden_groups,
                objects: final(self).objects,
                virtual_geometry: final(self).virtual_geometry,
                frame: final(self).frame,
                ..*old(self)
            }),
    {
        self.clear_group_visibility();
        let ghost shown = *self;
        self.data.clear();
        self.actors.clear();
        self.sdf.ids.clear();
        self.sdf.edits.clear();
        self.sdf.terrain = None;
        self.planets.entries.clear();
        self.presentation.clear();
        self.frame.sky = None;
        assert(self.assets_wf()) by {
            assert(shown.assets_wf());
        }
        proof {
            lemma_nothing_to_cull(
                old(self).virtual_geometry,
                self.virtual_geometry,
                old(self).hidden_groups,
                self.hidden_groups,
            );
            lemma_outstanding_same(*old(self), *self);
        }
    }

    /// Removes everything that was authored, and publishes that. The sources of material
    /// graphs stay, and so does what [`Scene::setup_kept`] names; marks and stamps tell of
    /// all that went, as [`Scene::content_told`] says.
    #[verifier::spinoff_prover]
    #[verifier::rlimit(60)]
    pub fn clear(&mut self, view: &[F32; 16], projection: &[F32; 16], graph_epoch: u64) -> (report:
        FlushReport)
        requires
            old(self).wf(),
        ensures
            final(self).wf(),
            final(self).is_empty(),
            old(self).setup_kept(final(self)),
            old(self).content_told(final(self)),
            final(self).published_graph_epoch == graph_epoch,
            report == (FlushReport {
                graphs_changed: old(self).published_graph_epoch != graph_epoch,
                objects: 0,
                lights: 0,
                decals: 0,
            }),
    {
        self.clear_content();
        self.clear_users();
        self.clear_assets();
        self.clear_policies();
        proof {
            assert(self.is_empty());
            assert(old(self).setup_kept(self));
            lemma_no_realtime_lights(self.lights);
        }
        let ghost emptied = *self;
        let none: Vec<F32> = Vec::new();
        let report: FlushReport = self.flush(none.as_slice(), view, projection, graph_epoch);
        proof {
            lemma_content_told(
                *old(self),
                emptied,
                *self,
                none@,
                camera_hash(*view, *projection),
                graph_epoch,
            );
        }
        report
    }
}

/// Without virtual objects, hiding groups changes nothing in what is culled.
proof fn lemma_nothing_to_cull(
    before: VirtualGeometry,
    after: VirtualGeometry,
    was: GroupMask,
    hidden: GroupMask,
)
    requires
        before.wf(was),
        before.objects.spec_len() == 0,
        before.visibility_refreshed(&after, hidden),
    ensures
        after == (VirtualGeometry { cpu_visibility: after.cpu_visibility, ..before }),
{
    if !before.dirty {
        assert(after.cpu_visibility@ =~= before.cpu_visibility@);
    }
}

proof fn lemma_no_realtime_lights(lights: Lights)
    requires
        lights.wf(),
        lights.records.spec_len() == 0,
    ensures
        lights.projection.rows.spec_len() == 0,
{
    crate::sparse_set::lemma_len_of_subset(lights.projection.rows.rows, lights.records);
}

/// A scene without content shows none: no draw, no shader row, no portal view or chain,
/// and every coordinate space is the identity.
pub proof fn lemma_empty_scene_shows_nothing(scene: Scene, row: int)
    requires
        scene.wf(),
        scene.is_empty(),
        !scene.objects.dirty,
        0 <= row < scene.spaces.field.capacity,
    ensures
        scene.objects.lists.source_indices@.len() == 0,
        scene.lights.slots@.len() == 0,
        scene.decals.spec_rows().len() == 0,
        scene.voxels.raymarched.spec_len() == 0,
        scene.voxels.meshes.regions@.len() == 0,
        scene.spaces.portal_views@.len() == 0,
        scene.spaces.history.current@[row] == identity(),
        scene.spaces.history.previous@[row] == identity(),
{
    crate::sparse_set::lemma_len_of_subset(scene.lights.projection.rows.rows, scene.lights.records);
    crate::sparse_set::lemma_len_of_subset(scene.voxels.raymarched.rows, scene.voxels.volumes);
    crate::portals::lemma_all_ordered(
        scene.spaces.portals.value_by_slot@,
        scene.spaces.field.capacity as int,
    );
    assert(!scene.spaces.owned(row));
    assert(scene.spaces.history.current@[row] == identity());
    if scene.voxels.meshes.regions@.len() > 0 {
        let entity = scene.voxels.meshes.regions@[0].entity;
        assert(scene.voxels.meshes.resident(entity));
        scene.voxels.volumes.lemma_contains(VoxelVolumeId(entity));
    }
}

/// An empty scene hides nothing: whatever is brought in next is shown, whichever groups
/// were hidden before.
pub proof fn lemma_empty_scene_hides_nothing(scene: Scene, groups: GroupMask)
    requires
        scene.is_empty(),
    ensures
        visible(groups, scene.hidden_groups),
{
    assert forall|group: GroupId| group.valid() implies !(#[trigger] scene.hidden_groups.has(
        group,
    )) by {
        let g = group.0;
        assert((0u64 >> g) & 1 == 0) by (bit_vector);
    }
}

} // verus!
