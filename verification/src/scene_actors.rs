//! Built-in actors: descriptors that hand their content to the scene once.
use vstd::prelude::*;

use crate::actors::SceneActorId;
use crate::decals::{DecalRecord, GpuDecal};
use crate::draws::MeshSlice;
use crate::float_bits::F32;
use crate::frame::SkyContext;
use crate::handles::{
    DecalId, Entity, LightId, MeshId, ObjectId, PostProcessVolumeId, ReflectionCaptureId,
    VirtualMeshId, VirtualObjectId, WaterHitboxId, WaterVolumeId,
};
use crate::lifecycle::ActorAttachment;
use crate::lights::GpuLight;
use crate::objects::ObjectDescriptor;
use crate::post_process::{GpuPostProcessVolume, PostProcessVolumeRecord};
use crate::references::MeshRecord;
use crate::reflections::{CaptureMeasure, ReflectionCaptureDescriptor};
use crate::rows::{Movability, NewRow};
use crate::scene::Scene;
use crate::virtual_geometry::{VirtualGeometry, VirtualMeshRecord};
use crate::virtual_objects::VirtualObjectDescriptor;
use crate::water::WaterHitboxRecord;
use crate::water_rows::{WaterHitboxDescriptor, WaterUnitVectors, WaterVolumeDescriptor};

verus! {

/// One vertex, packed as the GPU reads it.
#[derive(Clone, Copy, Debug)]
pub struct PackedVertex {
    pub words: [u32; 8],
}

/// Geometry on its way to the mesh pool.
#[derive(Debug)]
pub struct MeshUpload {
    pub vertices: Vec<PackedVertex>,
    pub indices: Vec<u32>,
}

/// Geometry on its way to the virtual geometry arenas.
#[derive(Debug)]
pub struct VirtualMeshUpload {
    pub vertices: Vec<PackedVertex>,
    pub indices: Vec<u32>,
}

/// A mesh that is uploaded when the actor is attached.
pub struct MeshActor {
    /// What is to be uploaded; gone once the actor is attached.
    pub upload: Option<MeshUpload>,
    pub mesh_id: Option<MeshId>,
}

impl MeshActor {
    pub fn new(upload: MeshUpload) -> (actor: Self)
        ensures
            actor == (MeshActor { upload: Some(upload), mesh_id: None }),
    {
        MeshActor { upload: Some(upload), mesh_id: None }
    }

    pub fn id(&self) -> (id: Option<MeshId>)
        ensures
            id == self.mesh_id,
    {
        self.mesh_id
    }

    pub fn inserted_id(&self) -> (id: SceneActorId)
        ensures
            id == match self.mesh_id {
                Some(id) => SceneActorId::Mesh(id),
                None => SceneActorId::Nothing,
            },
    {
        match self.mesh_id {
            Some(id) => SceneActorId::Mesh(id),
            None => SceneActorId::Nothing,
        }
    }

    /// `after` is the actor, and `scene_after` the scene, once the geometry is handed over.
    pub open spec fn attached(
        &self,
        after: &MeshActor,
        scene: &Scene,
        scene_after: &Scene,
        entity: Entity,
        slice: MeshSlice,
    ) -> bool {
        if self.mesh_id is None && self.upload is Some {
            &&& *after == (MeshActor { mesh_id: Some(MeshId(entity)), upload: None })
            &&& *scene_after == (Scene { meshes: scene_after.meshes, ..*scene })
            &&& scene_after.meshes@ == scene.meshes@.insert(
                MeshId(entity),
                MeshRecord { slice, ref_count: 0, owner: None },
            )
            &&& scene_after.meshes.id_by_slot@ == scene.meshes.id_by_slot@.push(MeshId(entity))
        } else {
            *after == *self && *scene_after == *scene
        }
    }

    /// Hands the geometry over, once: `slice` is where the pool put it. An actor that was
    /// attached already, or has nothing to upload, does nothing.
    pub fn on_attach(&mut self, scene: &mut Scene, entity: Entity, slice: MeshSlice)
        requires
            old(scene).wf(),
            !old(scene).meshes.occupies(entity.index),
            entity.index < usize::MAX,
            old(scene).meshes.spec_len() < u32::MAX,
        ensures
            final(scene).wf(),
            old(self).attached(final(self), old(scene), final(scene), entity, slice),
    {
        if self.mesh_id.is_none() && self.upload.is_some() {
            self.upload = None;
            self.mesh_id = Some(scene.insert_mesh(entity, slice));
        }
    }
}

/// A virtual mesh that is uploaded when the actor is attached.
pub struct VirtualMeshActor {
    /// What is to be uploaded; gone once the actor is attached.
    pub upload: Option<VirtualMeshUpload>,
    pub virtual_mesh_id: Option<VirtualMeshId>,
}

impl VirtualMeshActor {
    pub fn new(upload: VirtualMeshUpload) -> (actor: Self)
        ensures
            actor == (VirtualMeshActor { upload: Some(upload), virtual_mesh_id: None }),
    {
        VirtualMeshActor { upload: Some(upload), virtual_mesh_id: None }
    }

    pub fn id(&self) -> (id: Option<VirtualMeshId>)
        ensures
            id == self.virtual_mesh_id,
    {
        self.virtual_mesh_id
    }

    pub fn inserted_id(&self) -> (id: SceneActorId)
        ensures
            id == match self.virtual_mesh_id {
                Some(id) => SceneActorId::VirtualMesh(id),
                None => SceneActorId::Nothing,
            },
    {
        match self.virtual_mesh_id {
            Some(id) => SceneActorId::VirtualMesh(id),
            None => SceneActorId::Nothing,
        }
    }

    /// `after` is the actor, and `scene_after` the scene, once the geometry is handed over.
    pub open spec fn attached(
        &self,
        after: &VirtualMeshActor,
        scene: &Scene,
        scene_after: &Scene,
        entity: Entity,
        first_mesh: Option<MeshId>,
        meshlet_count: u32,
    ) -> bool {
        if self.virtual_mesh_id is None && self.upload is Some {
            let before = scene.virtual_geometry;
            let now = scene_after.virtual_geometry;
            &&& *after == (VirtualMeshActor {
                virtual_mesh_id: Some(VirtualMeshId(entity)),
                upload: None,
            })
            &&& *scene_after == (Scene { virtual_geometry: now, ..*scene })
            &&& now == (VirtualGeometry { meshes: now.meshes, ..before })
            &&& now.meshes@ == before.meshes@.insert(
                VirtualMeshId(entity),
                VirtualMeshRecord { first_mesh, meshlet_count, ref_count: 0 },
            )
            &&& now.meshes.id_by_slot@ == before.meshes.id_by_slot@.push(VirtualMeshId(entity))
        } else {
            *after == *self && *scene_after == *scene
        }
    }

    /// Hands the geometry over, once: `first_mesh` and `meshlet_count` tell what came of
    /// it. An actor that was attached already, or has nothing to upload, does nothing.
    pub fn on_attach(
        &mut self,
        scene: &mut Scene,
        entity: Entity,
        first_mesh: Option<MeshId>,
        meshlet_count: u32,
    )
        requires
            old(scene).wf(),
            !old(scene).virtual_geometry.meshes.occupies(entity.index),
            entity.index < usize::MAX,
            old(scene).virtual_geometry.meshes.spec_len() < u32::MAX,
        ensures
            final(scene).wf(),
            old(self).attached(
                final(self),
                old(scene),
                final(scene),
                entity,
                first_mesh,
                meshlet_count,
            ),
    {
        if self.virtual_mesh_id.is_none() && self.upload.is_some() {
            self.upload = None;
            self.virtual_mesh_id = Some(
                scene.insert_virtual_mesh(entity, first_mesh, meshlet_count),
            );
        }
    }
}

/// A light.
#[derive(Clone, Copy, Debug)]
pub struct LightActor {
    pub light: GpuLight,
    pub light_id: Option<LightId>,
    pub movability: Option<Movability>,
    pub user_tag: u64,
}

impl LightActor {
    pub fn new(light: GpuLight) -> (actor: Self)
        ensures
            actor == (LightActor { light, light_id: None, movability: None, user_tag: 0 }),
    {
        LightActor { light, light_id: None, movability: None, user_tag: 0 }
    }

    pub fn new_with_movability(light: GpuLight, movability: Option<Movability>) -> (actor: Self)
        ensures
            actor == (LightActor { light, light_id: None, movability, user_tag: 0 }),
    {
        LightActor { light, light_id: None, movability, user_tag: 0 }
    }

    pub fn new_with_tag(light: GpuLight, user_tag: u64) -> (actor: Self)
        ensures
            actor == (LightActor { light, light_id: None, movability: None, user_tag }),
    {
        LightActor { light, light_id: None, movability: None, user_tag }
    }

    pub fn id(&self) -> (id: Option<LightId>)
        ensures
            id == self.light_id,
    {
        self.light_id
    }

    pub fn inserted_id(&self) -> (id: SceneActorId)
        ensures
            id == match self.light_id {
                Some(id) => SceneActorId::Light(id),
                None => SceneActorId::Nothing,
            },
    {
        match self.light_id {
            Some(id) => SceneActorId::Light(id),
            None => SceneActorId::Nothing,
        }
    }

    /// Inserts the content, unless the actor was attached already.
    pub fn on_attach(
        &mut self,
        scene: &mut Scene,
        new: NewRow,
    )
        requires
            old(scene).wf(),
            !old(scene).lights.records.occupies(new.entity.index),
            new.entity.index < usize::MAX,
            old(scene).lights.records.spec_len() < u32::MAX,
        ensures
            final(scene).wf(),
            if old(self).light_id is Some {
                *final(self) == *old(self) && *final(scene) == *old(scene)
            } else {
                &&& *final(self) == (LightActor {
                    light_id: Some(LightId(new.entity)),
                    ..*old(self)
                })
                &&& old(scene).light_inserted(
                    final(scene),
                    new,
                    old(self).light,
                    match old(self).movability {
                        Some(m) => m,
                        None => Movability::Movable,
                    },
                    old(self).user_tag,
                )
            },
    {
        if self.light_id.is_some() {
            return ;
        }
        self.light_id = Some(
            scene.insert_light_with_movability(new, self.light, self.movability, self.user_tag),
        );
    }
}

/// A decal.
#[derive(Clone, Copy, Debug)]
pub struct DecalActor {
    pub decal: GpuDecal,
    pub decal_id: Option<DecalId>,
    pub movability: Option<Movability>,
    pub user_tag: u64,
}

impl DecalActor {
    pub fn new(decal: GpuDecal) -> (actor: Self)
        ensures
            actor == (DecalActor { decal, decal_id: None, movability: None, user_tag: 0 }),
    {
        DecalActor { decal, decal_id: None, movability: None, user_tag: 0 }
    }

    pub fn new_with_tag(decal: GpuDecal, user_tag: u64, movability: Option<Movability>) -> (actor: Self)
        ensures
            actor == (DecalActor { decal, decal_id: None, movability, user_tag }),
    {
        DecalActor { decal, decal_id: None, movability, user_tag }
    }

    pub fn id(&self) -> (id: Option<DecalId>)
        ensures
            id == self.decal_id,
    {
        self.decal_id
    }

    pub fn inserted_id(&self) -> (id: SceneActorId)
        ensures
            id == match self.decal_id {
                Some(id) => SceneActorId::Decal(id),
                None => SceneActorId::Nothing,
            },
    {
        match self.decal_id {
            Some(id) => SceneActorId::Decal(id),
            None => SceneActorId::Nothing,
        }
    }

    /// Inserts the content, unless the actor was attached already.
    pub fn on_attach(
        &mut self,
        scene: &mut Scene,
        new: NewRow,
    )
        requires
            old(scene).wf(),
            !old(scene).decals.occupies(new.entity.index),
            new.entity.index < usize::MAX,
            old(scene).decals.spec_len() < u32::MAX,
        ensures
            final(scene).wf(),
            if old(self).decal_id is Some {
                *final(self) == *old(self) && *final(scene) == *old(scene)
            } else {
                &&& *final(self) == (DecalActor {
                    decal_id: Some(DecalId(new.entity)),
                    ..*old(self)
                })
                &&& *final(scene) == (Scene { decals: final(scene).decals, ..*old(scene) })
                &&& old(scene).decals.inserted(
                    &final(scene).decals,
                    DecalId(new.entity),
                    new.gpu_row,
                    (DecalRecord {
                        row: old(self).decal,
                        movability: match old(self).movability {
                            Some(m) => m,
                            None => Movability::Movable,
                        },
                        user_tag: old(self).user_tag,
                    }),
                )
            },
    {
        if self.decal_id.is_some() {
            return ;
        }
        self.decal_id = Some(
            scene.insert_decal_with_tag(new, self.decal, self.user_tag, self.movability),
        );
    }
}

/// An instance of a virtual mesh.
#[derive(Clone, Copy, Debug)]
pub struct VirtualObjectActor {
    pub descriptor: VirtualObjectDescriptor,
    pub object_id: Option<VirtualObjectId>,
}

impl VirtualObjectActor {
    pub fn new(descriptor: VirtualObjectDescriptor) -> (actor: Self)
        ensures
            actor == (VirtualObjectActor { descriptor, object_id: None }),
    {
        VirtualObjectActor { descriptor, object_id: None }
    }

    pub fn id(&self) -> (id: Option<VirtualObjectId>)
        ensures
            id == self.object_id,
    {
        self.object_id
    }

    pub fn inserted_id(&self) -> (id: SceneActorId)
        ensures
            id == match self.object_id {
                Some(id) => SceneActorId::VirtualObject(id),
                None => SceneActorId::Nothing,
            },
    {
        match self.object_id {
            Some(id) => SceneActorId::VirtualObject(id),
            None => SceneActorId::Nothing,
        }
    }

    /// Inserts the content, unless the actor was attached already.
    pub fn on_attach(
        &mut self,
        scene: &mut Scene,
        entity: Entity,
        normal_mat: [F32; 12],
    )
        requires
            old(scene).wf(),
            !old(scene).virtual_geometry.objects.occupies(entity.index),
            entity.index < usize::MAX,
            old(scene).material_user_count() < u32::MAX - 1,
        ensures
            final(scene).wf(),
            if old(self).object_id is Some {
                *final(self) == *old(self) && *final(scene) == *old(scene)
            } else {
                let desc = old(self).descriptor;
                if old(scene).materials@.contains_key(desc.material_id) && old(
                    scene,
                ).virtual_geometry.meshes@.contains_key(desc.virtual_mesh) && old(
                    scene,
                ).virtual_geometry.meshes@[desc.virtual_mesh].first_mesh is Some {
                    &&& *final(self) == (VirtualObjectActor {
                        object_id: Some(VirtualObjectId(entity)),
                        ..*old(self)
                    })
                    &&& old(scene).virtual_object_inserted(final(scene), entity, desc, normal_mat)
                } else {
                    *final(self) == *old(self) && *final(scene) == *old(scene)
                }
            },
    {
        if self.object_id.is_some() {
            return ;
        }
        match scene.insert_virtual_object(entity, self.descriptor, normal_mat) {
            Ok(id) => {
                self.object_id = Some(id);
            },
            Err(_) => {},
        }
    }
}

/// An object: a mesh with a material.
#[derive(Clone, Copy, Debug)]
pub struct ObjectActor {
    pub descriptor: ObjectDescriptor,
    pub object_id: Option<ObjectId>,
}

impl ObjectActor {
    pub fn new(descriptor: ObjectDescriptor) -> (actor: Self)
        ensures
            actor == (ObjectActor { descriptor, object_id: None }),
    {
        ObjectActor { descriptor, object_id: None }
    }

    pub fn id(&self) -> (id: Option<ObjectId>)
        ensures
            id == self.object_id,
    {
        self.object_id
    }

    pub fn inserted_id(&self) -> (id: SceneActorId)
        ensures
            id == match self.object_id {
                Some(id) => SceneActorId::Object(id),
                None => SceneActorId::Nothing,
            },
    {
        match self.object_id {
            Some(id) => SceneActorId::Object(id),
            None => SceneActorId::Nothing,
        }
    }

    /// Inserts the content, unless the actor was attached already.
    pub fn on_attach(
        &mut self,
        scene: &mut Scene,
        new: NewRow,
        normal_mat: [F32; 12],
    )
        requires
            old(scene).wf(),
            !old(scene).objects.records.occupies(new.entity.index),
            new.entity.index < usize::MAX,
            old(scene).material_user_count() < u32::MAX - 1,
        ensures
            final(scene).wf(),
            if old(self).object_id is Some {
                *final(self) == *old(self) && *final(scene) == *old(scene)
            } else {
                let desc = old(self).descriptor;
                if old(scene).meshes@.contains_key(desc.mesh) && old(
                    scene,
                ).materials@.contains_key(desc.material) {
                    &&& *final(self) == (ObjectActor {
                        object_id: Some(ObjectId(new.entity)),
                        ..*old(self)
                    })
                    &&& old(scene).object_inserted(final(scene), new, desc, normal_mat)
                } else {
                    *final(self) == *old(self) && *final(scene) == *old(scene)
                }
            },
    {
        if self.object_id.is_some() {
            return ;
        }
        match scene.insert_object(new, self.descriptor, normal_mat) {
            Ok(id) => {
                self.object_id = Some(id);
            },
            Err(_) => {},
        }
    }
}

/// A body of water.
#[derive(Clone, Copy, Debug)]
pub struct WaterVolumeActor {
    pub descriptor: WaterVolumeDescriptor,
    pub volume_id: Option<WaterVolumeId>,
    pub user_tag: u64,
}

impl WaterVolumeActor {
    pub fn new(descriptor: WaterVolumeDescriptor) -> (actor: Self)
        ensures
            actor == (WaterVolumeActor { descriptor, volume_id: None, user_tag: 0 }),
    {
        WaterVolumeActor { descriptor, volume_id: None, user_tag: 0 }
    }

    pub fn new_with_tag(descriptor: WaterVolumeDescriptor, user_tag: u64) -> (actor: Self)
        ensures
            actor == (WaterVolumeActor { descriptor, volume_id: None, user_tag }),
    {
        WaterVolumeActor { descriptor, volume_id: None, user_tag }
    }

    pub fn id(&self) -> (id: Option<WaterVolumeId>)
        ensures
            id == self.volume_id,
    {
        self.volume_id
    }

    pub fn inserted_id(&self) -> (id: SceneActorId)
        ensures
            id == match self.volume_id {
                Some(id) => SceneActorId::WaterVolume(id),
                None => SceneActorId::Nothing,
            },
    {
        match self.volume_id {
            Some(id) => SceneActorId::WaterVolume(id),
            None => SceneActorId::Nothing,
        }
    }

    /// Inserts the content, unless the actor was attached already.
    pub fn on_attach(
        &mut self,
        scene: &mut Scene,
        new: NewRow,
        units: WaterUnitVectors,
    )
        requires
            old(scene).wf(),
            !old(scene).water.volumes.occupies(new.entity.index),
            new.entity.index < usize::MAX,
            old(scene).water.volumes.spec_len() < u32::MAX,
        ensures
            final(scene).wf(),
            if old(self).volume_id is Some {
                *final(self) == *old(self) && *final(scene) == *old(scene)
            } else {
                exists|result: crate::errors::Result<WaterVolumeId>|
                    #[trigger] old(scene).water_volume_inserted(
                        final(scene),
                        new,
                        old(self).descriptor,
                        units,
                        old(self).user_tag,
                        result,
                    ) && *final(self) == (WaterVolumeActor {
                        volume_id: match result {
                            Ok(id) => Some(id),
                            Err(_) => None,
                        },
                        ..*old(self)
                    })
            },
    {
        if self.volume_id.is_some() {
            return ;
        }
        let result: crate::errors::Result<WaterVolumeId> = scene.insert_water_volume_with_tag(
            new,
            self.descriptor,
            units,
            self.user_tag,
        );
        match result {
            Ok(id) => {
                self.volume_id = Some(id);
            },
            Err(_) => {},
        }
    }
}

/// A reflection capture.
#[derive(Clone, Copy, Debug)]
pub struct ReflectionCaptureActor {
    pub descriptor: ReflectionCaptureDescriptor,
    pub capture_id: Option<ReflectionCaptureId>,
    pub user_tag: u64,
}

impl ReflectionCaptureActor {
    pub fn new(descriptor: ReflectionCaptureDescriptor) -> (actor: Self)
        ensures
            actor == (ReflectionCaptureActor { descriptor, capture_id: None, user_tag: 0 }),
    {
        ReflectionCaptureActor { descriptor, capture_id: None, user_tag: 0 }
    }

    pub fn new_with_tag(descriptor: ReflectionCaptureDescriptor, user_tag: u64) -> (actor: Self)
        ensures
            actor == (ReflectionCaptureActor { descriptor, capture_id: None, user_tag }),
    {
        ReflectionCaptureActor { descriptor, capture_id: None, user_tag }
    }

    pub fn id(&self) -> (id: Option<ReflectionCaptureId>)
        ensures
            id == self.capture_id,
    {
        self.capture_id
    }

    pub fn inserted_id(&self) -> (id: SceneActorId)
        ensures
            id == match self.capture_id {
                Some(id) => SceneActorId::ReflectionCapture(id),
                None => SceneActorId::Nothing,
            },
    {
        match self.capture_id {
            Some(id) => SceneActorId::ReflectionCapture(id),
            None => SceneActorId::Nothing,
        }
    }

    /// Inserts the content, unless the actor was attached already.
    pub fn on_attach(
        &mut self,
        scene: &mut Scene,
        new: NewRow,
        measure: CaptureMeasure,
    )
        requires
            old(scene).wf(),
            !old(scene).reflections.captures.occupies(new.entity.index),
            new.entity.index < usize::MAX,
            old(scene).reflections.captures.spec_len() < u32::MAX,
        ensures
            final(scene).wf(),
            if old(self).capture_id is Some {
                *final(self) == *old(self) && *final(scene) == *old(scene)
            } else {
                exists|result: crate::errors::Result<ReflectionCaptureId>|
                    #[trigger] old(scene).capture_inserted(
                        final(scene),
                        new,
                        old(self).descriptor,
                        measure,
                        old(self).user_tag,
                        result,
                    ) && *final(self) == (ReflectionCaptureActor {
                        capture_id: match result {
                            Ok(id) => Some(id),
                            Err(_) => None,
                        },
                        ..*old(self)
                    })
            },
    {
        if self.capture_id.is_some() {
            return ;
        }
        let result: crate::errors::Result<ReflectionCaptureId> = scene.insert_reflection_capture_with_tag(
            new,
            self.descriptor,
            measure,
            self.user_tag,
        );
        match result {
            Ok(id) => {
                self.capture_id = Some(id);
            },
            Err(_) => {},
        }
    }
}

/// A box that displaces water.
#[derive(Clone, Copy, Debug)]
pub struct WaterHitboxActor {
    pub descriptor: WaterHitboxDescriptor,
    pub hitbox_id: Option<WaterHitboxId>,
    pub user_tag: u64,
}

impl WaterHitboxActor {
    pub fn new(descriptor: WaterHitboxDescriptor) -> (actor: Self)
        ensures
            actor == (WaterHitboxActor { descriptor, hitbox_id: None, user_tag: 0 }),
    {
        WaterHitboxActor { descriptor, hitbox_id: None, user_tag: 0 }
    }

    pub fn new_with_tag(descriptor: WaterHitboxDescriptor, user_tag: u64) -> (actor: Self)
        ensures
            actor == (WaterHitboxActor { descriptor, hitbox_id: None, user_tag }),
    {
        WaterHitboxActor { descriptor, hitbox_id: None, user_tag }
    }

    pub fn id(&self) -> (id: Option<WaterHitboxId>)
        ensures
            id == self.hitbox_id,
    {
        self.hitbox_id
    }

    pub fn inserted_id(&self) -> (id: SceneActorId)
        ensures
            id == match self.hitbox_id {
                Some(id) => SceneActorId::WaterHitbox(id),
                None => SceneActorId::Nothing,
            },
    {
        match self.hitbox_id {
            Some(id) => SceneActorId::WaterHitbox(id),
            None => SceneActorId::Nothing,
        }
    }

    /// Inserts the content, unless the actor was attached already.
    pub fn on_attach(
        &mut self,
        scene: &mut Scene,
        new: NewRow,
    )
        requires
            old(scene).wf(),
            !old(scene).water.hitboxes.occupies(new.entity.index),
            new.entity.index < usize::MAX,
            old(scene).water.hitboxes.spec_len() < u32::MAX,
        ensures
            final(scene).wf(),
            if old(self).hitbox_id is Some {
                *final(self) == *old(self) && *final(scene) == *old(scene)
            } else {
                &&& *final(self) == (WaterHitboxActor {
                    hitbox_id: Some(WaterHitboxId(new.entity)),
                    ..*old(self)
                })
                &&& *final(scene) == (Scene { water: final(scene).water, ..*old(scene) })
                &&& old(scene).water.hitboxes.inserted(
                    &final(scene).water.hitboxes,
                    WaterHitboxId(new.entity),
                    new.gpu_row,
                    (WaterHitboxRecord {
                        row: old(self).descriptor.spec_to_gpu(),
                        user_tag: old(self).user_tag,
                    }),
                )
            },
    {
        if self.hitbox_id.is_some() {
            return ;
        }
        self.hitbox_id = Some(
            scene.insert_water_hitbox_with_tag(new, self.descriptor, self.user_tag),
        );
    }
}

/// A post-process volume.
#[derive(Debug)]
pub struct PostProcessVolumeActor {
    pub descriptor: GpuPostProcessVolume,
    pub volume_id: Option<PostProcessVolumeId>,
    pub user_tag: u64,
}

impl PostProcessVolumeActor {
    pub fn new(descriptor: GpuPostProcessVolume) -> (actor: Self)
        ensures
            actor == (PostProcessVolumeActor { descriptor, volume_id: None, user_tag: 0 }),
    {
        PostProcessVolumeActor { descriptor, volume_id: None, user_tag: 0 }
    }

    pub fn new_with_tag(descriptor: GpuPostProcessVolume, user_tag: u64) -> (actor: Self)
        ensures
            actor == (PostProcessVolumeActor { descriptor, volume_id: None, user_tag }),
    {
        PostProcessVolumeActor { descriptor, volume_id: None, user_tag }
    }

    pub fn id(&self) -> (id: Option<PostProcessVolumeId>)
        ensures
            id == self.volume_id,
    {
        self.volume_id
    }

    pub fn inserted_id(&self) -> (id: SceneActorId)
        ensures
            id == match self.volume_id {
                Some(id) => SceneActorId::PostProcessVolume(id),
                None => SceneActorId::Nothing,
            },
    {
        match self.volume_id {
            Some(id) => SceneActorId::PostProcessVolume(id),
            None => SceneActorId::Nothing,
        }
    }

    /// Inserts the content, unless the actor was attached already.
    pub fn on_attach(
        &mut self,
        scene: &mut Scene,
        new: NewRow,
    )
        requires
            old(scene).wf(),
            !old(scene).post_process.volumes.occupies(new.entity.index),
            new.entity.index < usize::MAX,
            old(scene).post_process.volumes.spec_len() < u32::MAX,
        ensures
            final(scene).wf(),
            if old(self).volume_id is Some {
                *final(self) == *old(self) && *final(scene) == *old(scene)
            } else {
                let wanted = old(self).descriptor;
                &&& *final(scene) == (Scene {
                    post_process: final(scene).post_process,
                    ..*old(scene)
                })
                &&& if wanted.priority.spec_is_finite() {
                    &&& *final(self) == (PostProcessVolumeActor {
                        volume_id: Some(PostProcessVolumeId(new.entity)),
                        ..*old(self)
                    })
                    &&& exists|row: GpuPostProcessVolume|
                        row.priority == wanted.priority && row.settings@ == wanted.settings@
                            && #[trigger] old(scene).post_process.volumes.inserted(
                            &final(scene).post_process.volumes,
                            PostProcessVolumeId(new.entity),
                            new.gpu_row,
                            (PostProcessVolumeRecord { row, user_tag: old(self).user_tag }),
                        )
                } else {
                    *final(self) == *old(self) && *final(scene) == *old(scene)
                }
            },
    {
        if self.volume_id.is_some() {
            return ;
        }
        let mut settings: Vec<u32> = Vec::new();
        let mut i: usize = 0;
        while i < self.descriptor.settings.len()
            invariant
                *self == *old(self),
                0 <= i <= self.descriptor.settings@.len(),
                settings@ == self.descriptor.settings@.take(i as int),
            decreases self.descriptor.settings@.len() - i,
        {
            settings.push(self.descriptor.settings[i]);
            i = i + 1;
            assert(settings@ =~= self.descriptor.settings@.take(i as int));
        }
        assert(settings@ =~= self.descriptor.settings@);
        let row = GpuPostProcessVolume { priority: self.descriptor.priority, settings };
        match scene.insert_post_process_volume_with_tag(new, row, self.user_tag) {
            Ok(id) => {
                self.volume_id = Some(id);
            },
            Err(_) => {},
        }
    }
}

/// Any built-in actor.
pub enum SceneActor {
    Sky(SkyContext),
    Decal(DecalActor),
    Mesh(MeshActor),
    Light(LightActor),
    ReflectionCapture(ReflectionCaptureActor),
    VirtualMesh(VirtualMeshActor),
    VirtualObject(VirtualObjectActor),
    Object(ObjectActor),
    WaterVolume(WaterVolumeActor),
    WaterHitbox(WaterHitboxActor),
    PostProcessVolume(PostProcessVolumeActor),
}

impl SceneActor {
    pub fn sky(sky: SkyContext) -> (actor: Self)
        ensures
            actor == SceneActor::Sky(sky),
    {
        SceneActor::Sky(sky)
    }

    pub fn decal(decal: GpuDecal) -> (actor: Self)
        ensures
            actor == SceneActor::Decal(DecalActor { decal, decal_id: None, movability: None, user_tag: 0 }),
    {
        SceneActor::Decal(DecalActor::new(decal))
    }

    pub fn decal_with_tag(decal: GpuDecal, user_tag: u64, movability: Option<Movability>) -> (actor: Self)
        ensures
            actor == SceneActor::Decal(DecalActor { decal, decal_id: None, movability, user_tag }),
    {
        SceneActor::Decal(DecalActor::new_with_tag(decal, user_tag, movability))
    }

    pub fn mesh(upload: MeshUpload) -> (actor: Self)
        ensures
            actor == SceneActor::Mesh(MeshActor { upload: Some(upload), mesh_id: None }),
    {
        SceneActor::Mesh(MeshActor::new(upload))
    }

    pub fn light(light: GpuLight) -> (actor: Self)
        ensures
            actor == SceneActor::Light(LightActor { light, light_id: None, movability: None, user_tag: 0 }),
    {
        SceneActor::Light(LightActor::new(light))
    }

    pub fn light_with_tag(light: GpuLight, user_tag: u64) -> (actor: Self)
        ensures
            actor == SceneActor::Light(LightActor { light, light_id: None, movability: None, user_tag }),
    {
        SceneActor::Light(LightActor::new_with_tag(light, user_tag))
    }

    pub fn light_with_movability(light: GpuLight, movability: Option<Movability>) -> (actor: Self)
        ensures
            actor == SceneActor::Light(LightActor { light, light_id: None, movability, user_tag: 0 }),
    {
        SceneActor::Light(LightActor::new_with_movability(light, movability))
    }

    pub fn reflection_capture(descriptor: ReflectionCaptureDescriptor) -> (actor: Self)
        ensures
            actor == SceneActor::ReflectionCapture(ReflectionCaptureActor { descriptor, capture_id: None, user_tag: 0 }),
    {
        SceneActor::ReflectionCapture(ReflectionCaptureActor::new(descriptor))
    }

    pub fn reflection_capture_with_tag(descriptor: ReflectionCaptureDescriptor, user_tag: u64) -> (actor: Self)
        ensures
            actor == SceneActor::ReflectionCapture(ReflectionCaptureActor { descriptor, capture_id: None, user_tag }),
    {
        SceneActor::ReflectionCapture(ReflectionCaptureActor::new_with_tag(descriptor, user_tag))
    }

    pub fn virtual_mesh(upload: VirtualMeshUpload) -> (actor: Self)
        ensures
            actor == SceneActor::VirtualMesh(VirtualMeshActor { upload: Some(upload), virtual_mesh_id: None }),
    {
        SceneActor::VirtualMesh(VirtualMeshActor::new(upload))
    }

    pub fn virtual_object(desc: VirtualObjectDescriptor) -> (actor: Self)
        ensures
            actor == SceneActor::VirtualObject(VirtualObjectActor { descriptor: desc, object_id: None }),
    {
        SceneActor::VirtualObject(VirtualObjectActor::new(desc))
    }

    pub fn object(desc: ObjectDescriptor) -> (actor: Self)
        ensures
            actor == SceneActor::Object(ObjectActor { descriptor: desc, object_id: None }),
    {
        SceneActor::Object(ObjectActor::new(desc))
    }

    pub fn water_volume(descriptor: WaterVolumeDescriptor) -> (actor: Self)
        ensures
            actor == SceneActor::WaterVolume(WaterVolumeActor { descriptor, volume_id: None, user_tag: 0 }),
    {
        SceneActor::WaterVolume(WaterVolumeActor::new(descriptor))
    }

    pub fn water_volume_with_tag(descriptor: WaterVolumeDescriptor, user_tag: u64) -> (actor: Self)
        ensures
            actor == SceneActor::WaterVolume(WaterVolumeActor { descriptor, volume_id: None, user_tag }),
    {
        SceneActor::WaterVolume(WaterVolumeActor::new_with_tag(descriptor, user_tag))
    }

    pub fn water_hitbox(descriptor: WaterHitboxDescriptor) -> (actor: Self)
        ensures
            actor == SceneActor::WaterHitbox(WaterHitboxActor { descriptor, hitbox_id: None, user_tag: 0 }),
    {
        SceneActor::WaterHitbox(WaterHitboxActor::new(descriptor))
    }

    pub fn water_hitbox_with_tag(descriptor: WaterHitboxDescriptor, user_tag: u64) -> (actor: Self)
        ensures
            actor == SceneActor::WaterHitbox(WaterHitboxActor { descriptor, hitbox_id: None, user_tag }),
    {
        SceneActor::WaterHitbox(WaterHitboxActor::new_with_tag(descriptor, user_tag))
    }

    pub fn post_process_volume(descriptor: GpuPostProcessVolume) -> (actor: Self)
        ensures
            actor == SceneActor::PostProcessVolume(PostProcessVolumeActor { descriptor, volume_id: None, user_tag: 0 }),
    {
        SceneActor::PostProcessVolume(PostProcessVolumeActor::new(descriptor))
    }

    pub fn post_process_volume_with_tag(descriptor: GpuPostProcessVolume, user_tag: u64) -> (actor: Self)
        ensures
            actor == SceneActor::PostProcessVolume(PostProcessVolumeActor { descriptor, volume_id: None, user_tag }),
    {
        SceneActor::PostProcessVolume(PostProcessVolumeActor::new_with_tag(descriptor, user_tag))
    }

    /// The resource that the actor inserted, if it did.
    pub open spec fn spec_inserted_id(self) -> SceneActorId {
        match self {
            SceneActor::Sky(_) => SceneActorId::Nothing,
            SceneActor::Decal(actor) => match actor.decal_id {
                Some(id) => SceneActorId::Decal(id),
                None => SceneActorId::Nothing,
            },
            SceneActor::Mesh(actor) => match actor.mesh_id {
                Some(id) => SceneActorId::Mesh(id),
                None => SceneActorId::Nothing,
            },
            SceneActor::Light(actor) => match actor.light_id {
                Some(id) => SceneActorId::Light(id),
                None => SceneActorId::Nothing,
            },
            SceneActor::ReflectionCapture(actor) => match actor.capture_id {
                Some(id) => SceneActorId::ReflectionCapture(id),
                None => SceneActorId::Nothing,
            },
            SceneActor::VirtualMesh(actor) => match actor.virtual_mesh_id {
                Some(id) => SceneActorId::VirtualMesh(id),
                None => SceneActorId::Nothing,
            },
            SceneActor::VirtualObject(actor) => match actor.object_id {
                Some(id) => SceneActorId::VirtualObject(id),
                None => SceneActorId::Nothing,
            },
            SceneActor::Object(actor) => match actor.object_id {
                Some(id) => SceneActorId::Object(id),
                None => SceneActorId::Nothing,
            },
            SceneActor::WaterVolume(actor) => match actor.volume_id {
                Some(id) => SceneActorId::WaterVolume(id),
                None => SceneActorId::Nothing,
            },
            SceneActor::WaterHitbox(actor) => match actor.hitbox_id {
                Some(id) => SceneActorId::WaterHitbox(id),
                None => SceneActorId::Nothing,
            },
            SceneActor::PostProcessVolume(actor) => match actor.volume_id {
                Some(id) => SceneActorId::PostProcessVolume(id),
                None => SceneActorId::Nothing,
            },
        }
    }

    pub fn inserted_id(&self) -> (id: SceneActorId)
        ensures
            id == self.spec_inserted_id(),
    {
        match self {
            SceneActor::Sky(_) => SceneActorId::Nothing,
            SceneActor::Decal(actor) => actor.inserted_id(),
            SceneActor::Mesh(actor) => actor.inserted_id(),
            SceneActor::Light(actor) => actor.inserted_id(),
            SceneActor::ReflectionCapture(actor) => actor.inserted_id(),
            SceneActor::VirtualMesh(actor) => actor.inserted_id(),
            SceneActor::VirtualObject(actor) => actor.inserted_id(),
            SceneActor::Object(actor) => actor.inserted_id(),
            SceneActor::WaterVolume(actor) => actor.inserted_id(),
            SceneActor::WaterHitbox(actor) => actor.inserted_id(),
            SceneActor::PostProcessVolume(actor) => actor.inserted_id(),
        }
    }

    /// The sky that the actor brings.
    pub fn sky_context(&self) -> (sky: Option<SkyContext>)
        ensures
            sky == match *self {
                SceneActor::Sky(context) => Some(context),
                _ => None::<SkyContext>,
            },
    {
        match self {
            SceneActor::Sky(context) => Some(*context),
            _ => None,
        }
    }

    /// Whether the actor goes on running once it is attached. What it inserted is in the
    /// scene, and it has no behaviour of its own.
    pub fn retain_after_attach(&self) -> (retained: bool)
        ensures
            !retained,
    {
        false
    }

    /// What a scene learns of the actor once it is attached.
    pub fn attachment(&self) -> (attachment: ActorAttachment)
        ensures
            attachment == (ActorAttachment {
                sky: match *self {
                    SceneActor::Sky(context) => Some(context),
                    _ => None::<SkyContext>,
                },
                target: self.spec_inserted_id(),
                retained: false,
            }),
    {
        ActorAttachment {
            sky: self.sky_context(),
            target: self.inserted_id(),
            retained: self.retain_after_attach(),
        }
    }
}

} // verus!
