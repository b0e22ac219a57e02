//! Generation-bearing handles.
//!
//! A handle names one lifetime of one entity slot. Two handles with the same
//! slot and different generations never name the same resource.
use vstd::prelude::*;

verus! {

/// One lifetime of one slot of the entity table.
#[derive(Clone, Copy, Debug, PartialEq, Eq, Hash, Structural)]
pub struct Entity {
    pub index: u32,
    pub generation: u32,
}

/// A typed name for an entity. Every handle type is an entity in a different
/// coat, so equal entities give equal handles.
pub trait Handle: Copy {
    spec fn spec_entity(self) -> Entity;

    proof fn named_by_entity(a: Self, b: Self)
        requires
            a.spec_entity() == b.spec_entity(),
        ensures
            a == b,
    ;

    fn entity(self) -> (entity: Entity)
        ensures
            entity == self.spec_entity(),
    ;

    fn from_entity(entity: Entity) -> (id: Self)
        ensures
            id.spec_entity() == entity,
    ;

    /// The slot that locates the resource.
    fn slot(self) -> (slot: u32)
        ensures
            slot == self.spec_entity().index,
    {
        self.entity().index
    }

    /// The generation that tells the lifetimes of a slot apart.
    fn generation(self) -> (generation: u32)
        ensures
            generation == self.spec_entity().generation,
    {
        self.entity().generation
    }

    fn from_raw(slot: u32, generation: u32) -> (id: Self)
        ensures
            id.spec_entity() == (Entity { index: slot, generation }),
    {
        Self::from_entity(Entity { index: slot, generation })
    }
}

/// Handle of a light.
#[derive(Clone, Copy, Debug, PartialEq, Eq, Hash, Structural)]
pub struct LightId(pub Entity);

impl Handle for LightId {
    open spec fn spec_entity(self) -> Entity {
        self.0
    }

    proof fn named_by_entity(a: Self, b: Self) {
    }

    fn entity(self) -> (entity: Entity) {
        self.0
    }

    fn from_entity(entity: Entity) -> (id: Self) {
        LightId(entity)
    }
}

/// Handle of a decal.
#[derive(Clone, Copy, Debug, PartialEq, Eq, Hash, Structural)]
pub struct DecalId(pub Entity);

impl Handle for DecalId {
    open spec fn spec_entity(self) -> Entity {
        self.0
    }

    proof fn named_by_entity(a: Self, b: Self) {
    }

    fn entity(self) -> (entity: Entity) {
        self.0
    }

    fn from_entity(entity: Entity) -> (id: Self) {
        DecalId(entity)
    }
}

/// Handle of a water volume.
#[derive(Clone, Copy, Debug, PartialEq, Eq, Hash, Structural)]
pub struct WaterVolumeId(pub Entity);

impl Handle for WaterVolumeId {
    open spec fn spec_entity(self) -> Entity {
        self.0
    }

    proof fn named_by_entity(a: Self, b: Self) {
    }

    fn entity(self) -> (entity: Entity) {
        self.0
    }

    fn from_entity(entity: Entity) -> (id: Self) {
        WaterVolumeId(entity)
    }
}

/// Handle of a water hitbox.
#[derive(Clone, Copy, Debug, PartialEq, Eq, Hash, Structural)]
pub struct WaterHitboxId(pub Entity);

impl Handle for WaterHitboxId {
    open spec fn spec_entity(self) -> Entity {
        self.0
    }

    proof fn named_by_entity(a: Self, b: Self) {
    }

    fn entity(self) -> (entity: Entity) {
        self.0
    }

    fn from_entity(entity: Entity) -> (id: Self) {
        WaterHitboxId(entity)
    }
}

/// Handle of a post-process volume.
#[derive(Clone, Copy, Debug, PartialEq, Eq, Hash, Structural)]
pub struct PostProcessVolumeId(pub Entity);

impl Handle for PostProcessVolumeId {
    open spec fn spec_entity(self) -> Entity {
        self.0
    }

    proof fn named_by_entity(a: Self, b: Self) {
    }

    fn entity(self) -> (entity: Entity) {
        self.0
    }

    fn from_entity(entity: Entity) -> (id: Self) {
        PostProcessVolumeId(entity)
    }
}

/// Handle of a reflection capture.
#[derive(Clone, Copy, Debug, PartialEq, Eq, Hash, Structural)]
pub struct ReflectionCaptureId(pub Entity);

impl Handle for ReflectionCaptureId {
    open spec fn spec_entity(self) -> Entity {
        self.0
    }

    proof fn named_by_entity(a: Self, b: Self) {
    }

    fn entity(self) -> (entity: Entity) {
        self.0
    }

    fn from_entity(entity: Entity) -> (id: Self) {
        ReflectionCaptureId(entity)
    }
}

/// Handle of a planar reflector.
#[derive(Clone, Copy, Debug, PartialEq, Eq, Hash, Structural)]
pub struct PlanarReflectorId(pub Entity);

impl Handle for PlanarReflectorId {
    open spec fn spec_entity(self) -> Entity {
        self.0
    }

    proof fn named_by_entity(a: Self, b: Self) {
    }

    fn entity(self) -> (entity: Entity) {
        self.0
    }

    fn from_entity(entity: Entity) -> (id: Self) {
        PlanarReflectorId(entity)
    }
}

/// Handle of a mesh.
#[derive(Clone, Copy, Debug, PartialEq, Eq, Hash, Structural)]
pub struct MeshId(pub Entity);

impl Handle for MeshId {
    open spec fn spec_entity(self) -> Entity {
        self.0
    }

    proof fn named_by_entity(a: Self, b: Self) {
    }

    fn entity(self) -> (entity: Entity) {
        self.0
    }

    fn from_entity(entity: Entity) -> (id: Self) {
        MeshId(entity)
    }
}

/// Handle of a material.
#[derive(Clone, Copy, Debug, PartialEq, Eq, Hash, Structural)]
pub struct MaterialId(pub Entity);

impl Handle for MaterialId {
    open spec fn spec_entity(self) -> Entity {
        self.0
    }

    proof fn named_by_entity(a: Self, b: Self) {
    }

    fn entity(self) -> (entity: Entity) {
        self.0
    }

    fn from_entity(entity: Entity) -> (id: Self) {
        MaterialId(entity)
    }
}

/// Handle of a texture.
#[derive(Clone, Copy, Debug, PartialEq, Eq, Hash, Structural)]
pub struct TextureId(pub Entity);

impl Handle for TextureId {
    open spec fn spec_entity(self) -> Entity {
        self.0
    }

    proof fn named_by_entity(a: Self, b: Self) {
    }

    fn entity(self) -> (entity: Entity) {
        self.0
    }

    fn from_entity(entity: Entity) -> (id: Self) {
        TextureId(entity)
    }
}

/// Handle of an object.
#[derive(Clone, Copy, Debug, PartialEq, Eq, Hash, Structural)]
pub struct ObjectId(pub Entity);

impl Handle for ObjectId {
    open spec fn spec_entity(self) -> Entity {
        self.0
    }

    proof fn named_by_entity(a: Self, b: Self) {
    }

    fn entity(self) -> (entity: Entity) {
        self.0
    }

    fn from_entity(entity: Entity) -> (id: Self) {
        ObjectId(entity)
    }
}

/// Handle of a sectioned mesh asset.
#[derive(Clone, Copy, Debug, PartialEq, Eq, Hash, Structural)]
pub struct MultiMeshId(pub Entity);

impl Handle for MultiMeshId {
    open spec fn spec_entity(self) -> Entity {
        self.0
    }

    proof fn named_by_entity(a: Self, b: Self) {
    }

    fn entity(self) -> (entity: Entity) {
        self.0
    }

    fn from_entity(entity: Entity) -> (id: Self) {
        MultiMeshId(entity)
    }
}

/// Handle of a placed sectioned mesh.
#[derive(Clone, Copy, Debug, PartialEq, Eq, Hash, Structural)]
pub struct SectionedInstanceId(pub Entity);

impl Handle for SectionedInstanceId {
    open spec fn spec_entity(self) -> Entity {
        self.0
    }

    proof fn named_by_entity(a: Self, b: Self) {
    }

    fn entity(self) -> (entity: Entity) {
        self.0
    }

    fn from_entity(entity: Entity) -> (id: Self) {
        SectionedInstanceId(entity)
    }
}

/// Handle of a virtual mesh.
#[derive(Clone, Copy, Debug, PartialEq, Eq, Hash, Structural)]
pub struct VirtualMeshId(pub Entity);

impl Handle for VirtualMeshId {
    open spec fn spec_entity(self) -> Entity {
        self.0
    }

    proof fn named_by_entity(a: Self, b: Self) {
    }

    fn entity(self) -> (entity: Entity) {
        self.0
    }

    fn from_entity(entity: Entity) -> (id: Self) {
        VirtualMeshId(entity)
    }
}

/// Handle of a virtual object.
#[derive(Clone, Copy, Debug, PartialEq, Eq, Hash, Structural)]
pub struct VirtualObjectId(pub Entity);

impl Handle for VirtualObjectId {
    open spec fn spec_entity(self) -> Entity {
        self.0
    }

    proof fn named_by_entity(a: Self, b: Self) {
    }

    fn entity(self) -> (entity: Entity) {
        self.0
    }

    fn from_entity(entity: Entity) -> (id: Self) {
        VirtualObjectId(entity)
    }
}

/// Handle of a voxel volume.
#[derive(Clone, Copy, Debug, PartialEq, Eq, Hash, Structural)]
pub struct VoxelVolumeId(pub Entity);

impl Handle for VoxelVolumeId {
    open spec fn spec_entity(self) -> Entity {
        self.0
    }

    proof fn named_by_entity(a: Self, b: Self) {
    }

    fn entity(self) -> (entity: Entity) {
        self.0
    }

    fn from_entity(entity: Entity) -> (id: Self) {
        VoxelVolumeId(entity)
    }
}

/// Handle of a portal pair.
#[derive(Clone, Copy, Debug, PartialEq, Eq, Hash, Structural)]
pub struct PortalId(pub Entity);

impl Handle for PortalId {
    open spec fn spec_entity(self) -> Entity {
        self.0
    }

    proof fn named_by_entity(a: Self, b: Self) {
    }

    fn entity(self) -> (entity: Entity) {
        self.0
    }

    fn from_entity(entity: Entity) -> (id: Self) {
        PortalId(entity)
    }
}

/// Handle of a sublevel.
#[derive(Clone, Copy, Debug, PartialEq, Eq, Hash, Structural)]
pub struct SublevelId(pub Entity);

impl Handle for SublevelId {
    open spec fn spec_entity(self) -> Entity {
        self.0
    }

    proof fn named_by_entity(a: Self, b: Self) {
    }

    fn entity(self) -> (entity: Entity) {
        self.0
    }

    fn from_entity(entity: Entity) -> (id: Self) {
        SublevelId(entity)
    }
}

/// Handle of a foliage type.
#[derive(Clone, Copy, Debug, PartialEq, Eq, Hash, Structural)]
pub struct FoliageTypeId(pub Entity);

impl Handle for FoliageTypeId {
    open spec fn spec_entity(self) -> Entity {
        self.0
    }

    proof fn named_by_entity(a: Self, b: Self) {
    }

    fn entity(self) -> (entity: Entity) {
        self.0
    }

    fn from_entity(entity: Entity) -> (id: Self) {
        FoliageTypeId(entity)
    }
}

/// Handle of a foliage layer.
#[derive(Clone, Copy, Debug, PartialEq, Eq, Hash, Structural)]
pub struct FoliageLayerId(pub Entity);

impl Handle for FoliageLayerId {
    open spec fn spec_entity(self) -> Entity {
        self.0
    }

    proof fn named_by_entity(a: Self, b: Self) {
    }

    fn entity(self) -> (entity: Entity) {
        self.0
    }

    fn from_entity(entity: Entity) -> (id: Self) {
        FoliageLayerId(entity)
    }
}

/// Handle of a foliage interactor.
#[derive(Clone, Copy, Debug, PartialEq, Eq, Hash, Structural)]
pub struct FoliageInteractorId(pub Entity);

impl Handle for FoliageInteractorId {
    open spec fn spec_entity(self) -> Entity {
        self.0
    }

    proof fn named_by_entity(a: Self, b: Self) {
    }

    fn entity(self) -> (entity: Entity) {
        self.0
    }

    fn from_entity(entity: Entity) -> (id: Self) {
        FoliageInteractorId(entity)
    }
}

/// Handle of an application-owned entity.
#[derive(Clone, Copy, Debug, PartialEq, Eq, Hash, Structural)]
pub struct SceneExtensionEntity(pub Entity);

impl Handle for SceneExtensionEntity {
    open spec fn spec_entity(self) -> Entity {
        self.0
    }

    proof fn named_by_entity(a: Self, b: Self) {
    }

    fn entity(self) -> (entity: Entity) {
        self.0
    }

    fn from_entity(entity: Entity) -> (id: Self) {
        SceneExtensionEntity(entity)
    }
}

/// Handle of a sprite.
#[derive(Clone, Copy, Debug, PartialEq, Eq, Hash, Structural)]
pub struct SceneSpriteId(pub Entity);

impl Handle for SceneSpriteId {
    open spec fn spec_entity(self) -> Entity {
        self.0
    }

    proof fn named_by_entity(a: Self, b: Self) {
    }

    fn entity(self) -> (entity: Entity) {
        self.0
    }

    fn from_entity(entity: Entity) -> (id: Self) {
        SceneSpriteId(entity)
    }
}

/// Handle of a sprite atlas layer.
#[derive(Clone, Copy, Debug, PartialEq, Eq, Hash, Structural)]
pub struct SceneSpriteAtlasId(pub Entity);

impl Handle for SceneSpriteAtlasId {
    open spec fn spec_entity(self) -> Entity {
        self.0
    }

    proof fn named_by_entity(a: Self, b: Self) {
    }

    fn entity(self) -> (entity: Entity) {
        self.0
    }

    fn from_entity(entity: Entity) -> (id: Self) {
        SceneSpriteAtlasId(entity)
    }
}

} // verus!
