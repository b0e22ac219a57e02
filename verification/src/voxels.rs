//! Voxel volumes: those that are raymarched, and those whose surface is extracted.
use vstd::prelude::*;

use crate::entity_projection::EntityRowProjection;
use crate::errors::{invalid, Result, SceneError};
use crate::float_bits::F32;
use crate::handles::{Entity, VoxelVolumeId};
use crate::rows::{Movability, NewRow};
use crate::scene::Scene;
use crate::sparse_set::{swap_removed, SparseSet};
use crate::voxel_mesh_projection::{
    larger, GpuVoxelMeshWork, Residency, SlotRegion, VoxelMeshProjection,
    VoxelMeshProjectionError,
};

verus! {

/// Voxels along an edge of a brick.
pub const BRICK_SIZE: u32 = 8;

/// Bricks of a volume that a terrain fills.
pub const DEFAULT_VOLUME_BRICK_COUNT: u32 = 512;

/// How a volume is drawn: by extracting its surface, or by marching rays.
#[derive(Clone, Copy, Debug, PartialEq, Eq, Structural)]
pub enum VoxelMode {
    Auto,
    Dynamic,
}

impl Default for VoxelMode {
    fn default() -> (mode: Self)
        ensures
            mode == VoxelMode::Auto,
    {
        VoxelMode::Auto
    }
}

/// One palette entry, packed.
#[derive(Debug)]
pub struct GpuVoxelMaterial {
    pub words: Vec<u32>,
}

/// What a voxel volume is made of.
pub struct VoxelVolumeDescriptor {
    pub voxel_size: F32,
    pub root_extent: F32,
    pub local_to_world: [F32; 16],
    /// Static unless it is given.
    pub movability: Option<Movability>,
    /// Extracted unless it is given.
    pub mode: Option<VoxelMode>,
    pub material_palette: Vec<GpuVoxelMaterial>,
}

/// What is measured of a voxel volume.
#[derive(Clone, Copy, Debug)]
pub struct VoxelMeasure {
    /// Voxels along an edge: the extent over the voxel size, rounded, at least one.
    pub dimension: u32,
    /// The inverse of the placement.
    pub world_to_local: [F32; 16],
}

/// Where the store keeps a volume's bricks and its palette.
#[derive(Clone, Copy, Debug)]
pub struct VoxelAllocation {
    pub brick_base: u32,
    pub palette_base: u32,
    pub palette_count: u32,
}

/// What the renderer reads of a volume.
#[derive(Clone, Copy, Debug)]
pub struct GpuVoxelVolume {
    pub local_to_world: [F32; 16],
    pub world_to_local: [F32; 16],
    pub dimensions: [u32; 3],
    pub brick_grid_dim: u32,
    pub voxel_size: F32,
    pub palette_offset: u32,
    pub brick_offset: u32,
    pub palette_count: u32,
}

/// Bricks along an edge of a volume.
pub open spec fn brick_axis(dimension: u32) -> int {
    (dimension + BRICK_SIZE - 1) / BRICK_SIZE as int
}

/// The row of a fresh volume.
pub open spec fn volume_row(
    voxel_size: F32,
    local_to_world: [F32; 16],
    measure: VoxelMeasure,
    allocation: VoxelAllocation,
) -> GpuVoxelVolume {
    GpuVoxelVolume {
        local_to_world,
        world_to_local: measure.world_to_local,
        dimensions: [measure.dimension, measure.dimension, measure.dimension],
        brick_grid_dim: brick_axis(measure.dimension) as u32,
        voxel_size,
        palette_offset: allocation.palette_base,
        brick_offset: allocation.brick_base,
        palette_count: allocation.palette_count,
    }
}

/// What the scene keeps of a volume beside its row.
pub struct VoxelVolumeRecord {
    pub voxel_size: F32,
    pub root_extent: F32,
    pub meshlet_offset: u32,
    pub meshlet_count: u32,
    pub edit_cooldown: u32,
    pub material_palette: Vec<GpuVoxelMaterial>,
}

impl VoxelVolumeRecord {
    pub fn new(voxel_size: F32, root_extent: F32, material_palette: Vec<GpuVoxelMaterial>) -> (record:
        Self)
        ensures
            record == (VoxelVolumeRecord {
                voxel_size,
                root_extent,
                meshlet_offset: 0,
                meshlet_count: 0,
                edit_cooldown: 0,
                material_palette,
            }),
    {
        VoxelVolumeRecord {
            voxel_size,
            root_extent,
            meshlet_offset: 0,
            meshlet_count: 0,
            edit_cooldown: 0,
            material_palette,
        }
    }
}

/// Bricks along an edge, rounded up.
fn grid_axis(dimension: u32) -> (axis: u32)
    ensures
        axis == brick_axis(dimension),
{
    let whole: u32 = dimension / BRICK_SIZE;
    if dimension % BRICK_SIZE == 0 {
        whole
    } else {
        whole + 1
    }
}

/// Bricks of a volume, or `None` if a word cannot count them.
pub fn brick_count(dimension: u32) -> (count: Option<u32>)
    ensures
        count == if brick_axis(dimension) * brick_axis(dimension) * brick_axis(dimension)
            <= u32::MAX {
            Some((brick_axis(dimension) * brick_axis(dimension) * brick_axis(dimension)) as u32)
        } else {
            None::<u32>
        },
{
    let axis: u32 = grid_axis(dimension);
    let ghost a = axis as int;
    match axis.checked_mul(axis) {
        Some(square) => square.checked_mul(axis),
        None => {
            assert(a * a * a > u32::MAX) by (nonlinear_arith)
                requires
                    a * a > u32::MAX,
                    a >= 0,
            ;
            None
        },
    }
}

pub struct VoxelVolume {
    pub record: VoxelVolumeRecord,
    pub row: GpuVoxelVolume,
    pub movability: Movability,
    pub mode: VoxelMode,
    pub brick_count: u32,
    pub gpu_row: u32,
}

pub struct Voxels {
    pub volumes: SparseSet<VoxelVolumeId, VoxelVolume>,
    /// The volumes that are raymarched, with their GPU rows.
    pub raymarched: EntityRowProjection<VoxelVolumeId>,
    /// Output slots of the volumes whose surface is extracted.
    pub meshes: VoxelMeshProjection,
    /// Extraction work as it was last published.
    pub mesh_work: Vec<GpuVoxelMeshWork>,
    pub mesh_work_generation: u64,
    pub mesh_draw_count: u32,
}

impl Voxels {
    /// The volume stands where its mode wants it, and only there.
    pub open spec fn housed(&self, id: VoxelVolumeId) -> bool {
        let volume = self.volumes@[id];
        match volume.mode {
            VoxelMode::Dynamic => {
                &&& self.raymarched.rows@.contains_key(id)
                &&& self.raymarched.rows@[id] == volume.gpu_row
                &&& !self.meshes.resident(id.0)
            },
            VoxelMode::Auto => {
                &&& !self.raymarched.rows@.contains_key(id)
                &&& self.meshes.resident(id.0)
                &&& self.meshes.region_of(id.0).count == volume.brick_count
            },
        }
    }

    /// A volume's bricks fill a cube.
    pub open spec fn cubic(volume: VoxelVolume) -> bool {
        let axis = volume.row.brick_grid_dim as int;
        axis * axis * axis == volume.brick_count
    }

    pub open spec fn wf(&self) -> bool {
        &&& self.volumes.wf()
        &&& self.raymarched.wf()
        &&& self.meshes.wf()
        &&& forall|id: VoxelVolumeId| #[trigger]
            self.volumes@.contains_key(id) ==> self.housed(id) && Voxels::cubic(self.volumes@[id])
        &&& forall|id: VoxelVolumeId| #[trigger]
            self.raymarched.rows@.contains_key(id) ==> self.volumes@.contains_key(id)
        &&& forall|entity: Entity| #[trigger]
            self.meshes.resident(entity) ==> self.volumes@.contains_key(VoxelVolumeId(entity))
    }

    /// A volume whose surface is to be extracted finds output slots.
    pub open spec fn output_fits(&self, count: u32) -> bool {
        count > 0 && exists|base: int| #[trigger] self.meshes.fits(base, count as int)
    }
}

proof fn lemma_region(meshes: &VoxelMeshProjection, i: int)
    requires
        meshes.wf(),
        0 <= i < meshes.regions@.len(),
    ensures
        meshes.resident(meshes.regions@[i].entity),
        meshes.region_of(meshes.regions@[i].entity) == meshes.regions@[i].region,
{
    let entity = meshes.regions@[i].entity;
    assert(meshes.resident(entity));
    let j = choose|j: int|
        0 <= j < meshes.regions@.len() && (#[trigger] meshes.regions@[j]).entity == entity;
    assert(i == j);
}

/// Which volumes have output slots after one more has got some.
proof fn lemma_one_more(
    before: &VoxelMeshProjection,
    after: &VoxelMeshProjection,
    entity: Entity,
    region: SlotRegion,
)
    requires
        before.wf(),
        after.wf(),
        after.regions@ == before.regions@.push(Residency { entity, region }),
    ensures
        forall|e: Entity| #[trigger]
            after.resident(e) <==> before.resident(e) || e == entity,
        forall|e: Entity|
            before.resident(e) ==> #[trigger] after.region_of(e) == before.region_of(e),
        after.region_of(entity) == region,
{
    let n = before.regions@.len() as int;
    assert(after.regions@[n].entity == entity);
    lemma_region(after, n);
    assert forall|e: Entity| #[trigger] after.resident(e) <==> before.resident(e) || e == entity by {
        if before.resident(e) {
            let i = choose|i: int|
                0 <= i < before.regions@.len() && (#[trigger] before.regions@[i]).entity == e;
            assert(after.regions@[i].entity == e);
        }
        if after.resident(e) {
            let i = choose|i: int|
                0 <= i < after.regions@.len() && (#[trigger] after.regions@[i]).entity == e;
            if i < n {
                assert(before.regions@[i].entity == e);
            }
        }
    }
    assert forall|e: Entity| before.resident(e) implies #[trigger] after.region_of(e)
        == before.region_of(e) by {
        let i = choose|i: int|
            0 <= i < before.regions@.len() && (#[trigger] before.regions@[i]).entity == e;
        assert(after.regions@[i] == before.regions@[i]);
        lemma_region(before, i);
        lemma_region(after, i);
    }
}

/// Which volumes have output slots after one has given them back.
proof fn lemma_one_less(before: &VoxelMeshProjection, after: &VoxelMeshProjection, k: int)
    requires
        before.wf(),
        after.wf(),
        0 <= k < before.regions@.len(),
        after.regions@ == before.regions@.remove(k),
    ensures
        forall|e: Entity| #[trigger]
            after.resident(e) <==> before.resident(e) && e != before.regions@[k].entity,
        forall|e: Entity|
            after.resident(e) ==> #[trigger] after.region_of(e) == before.region_of(e),
{
    let gone = before.regions@[k].entity;
    assert forall|e: Entity| #[trigger] after.resident(e) <==> before.resident(e) && e != gone by {
        if before.resident(e) && e != gone {
            let i = choose|i: int|
                0 <= i < before.regions@.len() && (#[trigger] before.regions@[i]).entity == e;
            if i < k {
                assert(after.regions@[i].entity == e);
            } else {
                assert(after.regions@[i - 1].entity == e);
            }
        }
        if after.resident(e) {
            let i = choose|i: int|
                0 <= i < after.regions@.len() && (#[trigger] after.regions@[i]).entity == e;
            let j = if i < k {
                i
            } else {
                i + 1
            };
            assert(before.regions@[j].entity == e);
        }
    }
    assert forall|e: Entity| after.resident(e) implies #[trigger] after.region_of(e)
        == before.region_of(e) by {
        let i = choose|i: int|
            0 <= i < after.regions@.len() && (#[trigger] after.regions@[i]).entity == e;
        let j = if i < k {
            i
        } else {
            i + 1
        };
        assert(after.regions@[i] == before.regions@[j]);
        lemma_region(before, j);
        lemma_region(after, i);
    }
}

/// The record of a fresh volume.
pub open spec fn fresh_volume(
    new: NewRow,
    descriptor: VoxelVolumeDescriptor,
    measure: VoxelMeasure,
    allocation: VoxelAllocation,
) -> VoxelVolume {
    let axis = brick_axis(measure.dimension);
    VoxelVolume {
        record: VoxelVolumeRecord {
            voxel_size: descriptor.voxel_size,
            root_extent: descriptor.root_extent,
            meshlet_offset: 0,
            meshlet_count: 0,
            edit_cooldown: 0,
            material_palette: descriptor.material_palette,
        },
        row: volume_row(
            descriptor.voxel_size,
            descriptor.local_to_world,
            measure,
            allocation,
        ),
        movability: match descriptor.movability {
            Some(movability) => movability,
            None => Movability::Static,
        },
        mode: voxel_mode(descriptor.mode),
        brick_count: (axis * axis * axis) as u32,
        gpu_row: new.gpu_row,
    }
}

/// The mode that a descriptor asks for.
pub open spec fn voxel_mode(mode: Option<VoxelMode>) -> VoxelMode {
    match mode {
        Some(mode) => mode,
        None => VoxelMode::Auto,
    }
}

/// What happens to the rows, owners and marks of the output slots when a volume gets
/// some: the lowest run that fits.
pub open spec fn slots_given(
    before: &VoxelMeshProjection,
    after: &VoxelMeshProjection,
    entity: Entity,
    count: u32,
    volume_row: u32,
) -> bool {
    let region = after.region_of(entity);
    &&& region.count == count
    &&& before.fits(region.base as int, count as int)
    &&& forall|lower: int| 0 <= lower < region.base ==> !#[trigger] before.fits(lower, count as int)
    &&& after.allocated_flag == before.allocated_flag
    &&& after.regions@ == before.regions@.push(Residency { entity, region })
    &&& after.rows@.len() == larger(before.rows@.len() as int, region.end())
    &&& forall|slot: int| #[trigger]
        after.owner_at(slot) == if region.holds(slot) {
            Some(entity)
        } else {
            before.owner_at(slot)
        }
    &&& forall|slot: int| #[trigger]
        after.work_at(slot) == if region.holds(slot) {
            before.fresh_work(region, volume_row, slot)
        } else {
            before.work_at(slot)
        }
    &&& forall|slot: int| #[trigger]
        after.occupied_at(slot) == (!region.holds(slot) && before.occupied_at(slot))
    &&& forall|slot: int| #[trigger]
        after.dirty_at(slot) == (region.holds(slot) || before.dirty_at(slot))
}

/// What happens to the output slots when a volume gives its own back.
pub open spec fn slots_returned(
    before: &VoxelMeshProjection,
    after: &VoxelMeshProjection,
    entity: Entity,
) -> bool {
    let region = before.region_of(entity);
    &&& after.allocated_flag == before.allocated_flag
    &&& after.rows@.len() == before.rows@.len()
    &&& exists|i: int|
        0 <= i < before.regions@.len() && #[trigger] before.regions@[i] == (Residency {
            entity,
            region,
        }) && after.regions@ == before.regions@.remove(i)
    &&& forall|slot: int| #[trigger]
        after.owner_at(slot) == if region.holds(slot) {
            None
        } else {
            before.owner_at(slot)
        }
    &&& forall|slot: int| #[trigger]
        after.work_at(slot) == if region.holds(slot) {
            crate::voxel_mesh_projection::spec_blank_work()
        } else {
            before.work_at(slot)
        }
    &&& forall|slot: int| #[trigger]
        after.occupied_at(slot) == (!region.holds(slot) && before.occupied_at(slot))
    &&& forall|slot: int| #[trigger]
        after.dirty_at(slot) == (region.holds(slot) || before.dirty_at(slot))
}

impl Scene {
    /// Why a volume is refused; first its sizes, then its bricks, then the store, then
    /// the output slots.
    pub open spec fn voxel_error(
        &self,
        descriptor: VoxelVolumeDescriptor,
        measure: VoxelMeasure,
        allocation: Option<VoxelAllocation>,
    ) -> Option<SceneError> {
        let axis = brick_axis(measure.dimension);
        if !descriptor.voxel_size.spec_is_positive() || !descriptor.root_extent.spec_is_positive() {
            Some(
                SceneError::InvalidOperation {
                    reason: "voxel volume size must be finite and positive",
                },
            )
        } else if axis * axis * axis > u32::MAX {
            Some(
                SceneError::InvalidOperation {
                    reason: "voxel volume brick dimensions exceed the u32 address domain",
                },
            )
        } else if allocation is None {
            Some(
                SceneError::InvalidOperation {
                    reason: "SceneDB voxel brick or palette residency capacity exceeded",
                },
            )
        } else if voxel_mode(descriptor.mode) == VoxelMode::Auto && !self.voxels.output_fits(
            (axis * axis * axis) as u32,
        ) {
            Some(SceneError::VoxelMeshCapacityExceeded)
        } else {
            None
        }
    }

    /// `after` is `self` with a fresh voxel volume.
    pub open spec fn voxel_volume_inserted(
        &self,
        after: &Scene,
        new: NewRow,
        volume: VoxelVolume,
    ) -> bool {
        let id = VoxelVolumeId(new.entity);
        let before = self.voxels;
        let now = after.voxels;
        &&& *after == (Scene { voxels: now, ..*self })
        &&& now == (Voxels {
            volumes: now.volumes,
            raymarched: now.raymarched,
            meshes: now.meshes,
            ..before
        })
        &&& now.volumes@ == before.volumes@.insert(id, volume)
        &&& now.volumes.id_by_slot@ == before.volumes.id_by_slot@.push(id)
        &&& forall|index: u32|
            #[trigger] now.volumes.occupies(index) <==> before.volumes.occupies(index) || index
                == new.entity.index
        &&& match volume.mode {
            VoxelMode::Dynamic => {
                &&& now.meshes == before.meshes
                &&& now.raymarched.spec_ids() == before.raymarched.spec_ids().push(id)
                &&& now.raymarched.spec_rows() == before.raymarched.spec_rows().push(new.gpu_row)
            },
            VoxelMode::Auto => {
                &&& now.raymarched == before.raymarched
                &&& slots_given(
                    &before.meshes,
                    &now.meshes,
                    new.entity,
                    volume.brick_count,
                    new.gpu_row,
                )
            },
        }
    }

    /// Inserts a voxel volume. `allocation` is what the store gave for its bricks and
    /// palette, `None` if it had no room.
    #[verifier::spinoff_prover]
    #[verifier::rlimit(40)]
    pub fn insert_voxel_volume(
        &mut self,
        new: NewRow,
        descriptor: VoxelVolumeDescriptor,
        measure: VoxelMeasure,
        allocation: Option<VoxelAllocation>,
    ) -> (result: Result<VoxelVolumeId>)
        requires
            old(self).wf(),
            !old(self).voxels.volumes.occupies(new.entity.index),
            new.entity.index < usize::MAX,
            old(self).voxels.volumes.spec_len() < u32::MAX,
            measure.dimension >= 1,
        ensures
            final(self).wf(),
            match old(self).voxel_error(descriptor, measure, allocation) {
                Some(error) => {
                    &&& result == Err::<VoxelVolumeId, _>(error)
                    &&& *final(self) == *old(self)
                },
                None => {
                    &&& result == Ok::<_, SceneError>(VoxelVolumeId(new.entity))
                    &&& old(self).voxel_volume_inserted(
                        final(self),
                        new,
                        fresh_volume(new, descriptor, measure, allocation->0),
                    )
                },
            },
    {
        if !descriptor.voxel_size.is_positive() || !descriptor.root_extent.is_positive() {
            return Err(
                SceneError::InvalidOperation {
                    reason: "voxel volume size must be finite and positive",
                },
            );
        }
        let mode: VoxelMode = match descriptor.mode {
            Some(mode) => mode,
            None => VoxelMode::Auto,
        };
        let count: u32 = match brick_count(measure.dimension) {
            Some(count) => count,
            None => {
                return Err(
                    SceneError::InvalidOperation {
                        reason: "voxel volume brick dimensions exceed the u32 address domain",
                    },
                );
            },
        };
        let allocation: VoxelAllocation = match allocation {
            Some(allocation) => allocation,
            None => {
                return Err(
                    SceneError::InvalidOperation {
                        reason: "SceneDB voxel brick or palette residency capacity exceeded",
                    },
                );
            },
        };
        let ghost before = *self;
        let ghost given = descriptor;
        let id = VoxelVolumeId(new.entity);
        proof {
            let a = brick_axis(measure.dimension);
            assert(a >= 1);
            assert(a * a * a >= 1) by (nonlinear_arith)
                requires
                    a >= 1,
            ;
            before.voxels.lemma_vacant(id);
        }
        if mode == VoxelMode::Dynamic {
            self.voxels.raymarched.insert(id, new.gpu_row);
        } else {
            match self.voxels.meshes.allocate(new.entity, count, new.gpu_row) {
                Ok(base) => {
                    proof {
                        lemma_one_more(
                            &before.voxels.meshes,
                            &self.voxels.meshes,
                            new.entity,
                            SlotRegion { base, count },
                        );
                        assert(before.voxels.meshes.fits(base as int, count as int));
                    }
                },
                Err(error) => {
                    return match error {
                        VoxelMeshProjectionError::CapacityExceeded => {
                            Err(SceneError::VoxelMeshCapacityExceeded)
                        },
                        _ => {
                            assert(false);
                            Err(
                                SceneError::InvalidOperation {
                                    reason: "Helio rejected fresh voxel mesh projection state",
                                },
                            )
                        },
                    };
                },
            }
        }
        let dimension: u32 = measure.dimension;
        let dimensions: [u32; 3] = [dimension, dimension, dimension];
        let movability: Movability = match descriptor.movability {
            Some(movability) => movability,
            None => Movability::Static,
        };
        let row = GpuVoxelVolume {
            local_to_world: descriptor.local_to_world,
            world_to_local: measure.world_to_local,
            dimensions,
            brick_grid_dim: grid_axis(dimension),
            voxel_size: descriptor.voxel_size,
            palette_offset: allocation.palette_base,
            brick_offset: allocation.brick_base,
            palette_count: allocation.palette_count,
        };
        let volume = VoxelVolume {
            record: VoxelVolumeRecord::new(
                descriptor.voxel_size,
                descriptor.root_extent,
                descriptor.material_palette,
            ),
            row,
            movability,
            mode,
            brick_count: count,
            gpu_row: new.gpu_row,
        };
        proof {
            let wanted = volume_row(
                given.voxel_size,
                given.local_to_world,
                measure,
                allocation,
            );
            assert(dimensions@ =~= wanted.dimensions@);
            assert(dimensions =~= wanted.dimensions);
            assert(volume == fresh_volume(new, given, measure, allocation));
        }
        self.voxels.volumes.insert(id, volume);
        proof {
            let now = self.voxels;
            assert forall|other: VoxelVolumeId| #[trigger]
                now.volumes@.contains_key(other) implies now.housed(other) && Voxels::cubic(
                now.volumes@[other],
            ) by {
                if other != id {
                    assert(before.voxels.volumes@.contains_key(other));
                    assert(before.voxels.housed(other));
                    assert(other.0 != id.0);
                }
            }
            assert forall|entity: Entity| #[trigger]
                now.meshes.resident(entity) implies now.volumes@.contains_key(
                VoxelVolumeId(entity),
            ) by {
                if entity != new.entity {
                    assert(before.voxels.meshes.resident(entity));
                }
            }
        }
        Ok(id)
    }

    /// Removes a voxel volume, and gives back what it held for drawing.
    pub fn remove_voxel_volume(&mut self, id: VoxelVolumeId) -> (result: Result<()>)
        requires
            old(self).wf(),
        ensures
            final(self).wf(),
            if old(self).voxels.volumes@.contains_key(id) {
                &&& result == Ok::<(), SceneError>(())
                &&& old(self).voxel_volume_removed(final(self), id)
            } else {
                &&& result == Err::<(), _>(SceneError::InvalidHandle { resource: "voxel volume" })
                &&& *final(self) == *old(self)
            },
    {
        let mode: VoxelMode = match self.voxels.volumes.get(id) {
            Some(volume) => volume.mode,
            None => {
                return Err(invalid("voxel volume"));
            },
        };
        let ghost before = *self;
        proof {
            self.voxels.volumes.lemma_contains(id);
            assert(before.voxels.housed(id));
        }
        if mode == VoxelMode::Dynamic {
            proof {
                self.voxels.raymarched.rows.lemma_contains(id);
            }
            self.voxels.raymarched.remove(id);
        } else {
            let base: core::result::Result<u32, VoxelMeshProjectionError> =
                self.voxels.meshes.release(id.0);
            proof {
                let k = choose|i: int|
                    0 <= i < before.voxels.meshes.regions@.len()
                        && #[trigger] before.voxels.meshes.regions@[i] == (Residency {
                        entity: id.0,
                        region: before.voxels.meshes.region_of(id.0),
                    }) && self.voxels.meshes.regions@ == before.voxels.meshes.regions@.remove(i);
                lemma_one_less(&before.voxels.meshes, &self.voxels.meshes, k);
            }
        }
        self.voxels.volumes.remove(id);
        proof {
            let now = self.voxels;
            assert forall|other: VoxelVolumeId| #[trigger]
                now.volumes@.contains_key(other) implies now.housed(other) && Voxels::cubic(
                now.volumes@[other],
            ) by {
                assert(before.voxels.volumes@.contains_key(other));
                assert(before.voxels.housed(other));
                assert(other.0 != id.0);
            }
            assert forall|other: VoxelVolumeId| #[trigger]
                now.raymarched.rows@.contains_key(other) implies now.volumes@.contains_key(
                other,
            ) by {
                assert(before.voxels.raymarched.rows@.contains_key(other));
            }
            assert forall|entity: Entity| #[trigger]
                now.meshes.resident(entity) implies now.volumes@.contains_key(
                VoxelVolumeId(entity),
            ) by {
                assert(before.voxels.meshes.resident(entity));
            }
        }
        Ok(())
    }

    /// `after` is `self` without the volume and what it held for drawing.
    pub open spec fn voxel_volume_removed(&self, after: &Scene, id: VoxelVolumeId) -> bool {
        let before = self.voxels;
        let now = after.voxels;
        &&& *after == (Scene { voxels: now, ..*self })
        &&& now == (Voxels {
            volumes: now.volumes,
            raymarched: now.raymarched,
            meshes: now.meshes,
            ..before
        })
        &&& now.volumes@ == before.volumes@.remove(id)
        &&& now.volumes.id_by_slot@ == swap_removed(
            before.volumes.id_by_slot@,
            before.volumes.place(id),
        )
        &&& forall|index: u32|
            #[trigger] now.volumes.occupies(index) <==> before.volumes.occupies(index) && index
                != id.0.index
        &&& match before.volumes@[id].mode {
            VoxelMode::Dynamic => {
                &&& now.meshes == before.meshes
                &&& now.raymarched.spec_ids() == swap_removed(
                    before.raymarched.spec_ids(),
                    before.raymarched.place(id),
                )
                &&& now.raymarched.spec_rows() == swap_removed(
                    before.raymarched.spec_rows(),
                    before.raymarched.place(id),
                )
            },
            VoxelMode::Auto => {
                &&& now.raymarched == before.raymarched
                &&& slots_returned(&before.meshes, &now.meshes, id.0)
            },
        }
    }
}

impl Voxels {
    /// An entity slot that no volume uses is used by neither way of drawing.
    proof fn lemma_vacant(&self, id: VoxelVolumeId)
        requires
            self.wf(),
            !self.volumes.occupies(id.0.index),
        ensures
            !self.raymarched.occupies(id.0.index),
            !self.volumes@.contains_key(id),
            !self.meshes.resident(id.0),
            self.raymarched.spec_len() <= self.volumes.spec_len(),
    {
        self.volumes.lemma_contains(id);
        if self.raymarched.occupies(id.0.index) {
            let slot = self.raymarched.rows.slot_by_entity@[id.0.index as int] as int;
            let other = self.raymarched.rows.id_by_slot@[slot];
            self.raymarched.rows.lemma_dense(slot);
            assert(self.raymarched.rows@.contains_key(other));
            self.volumes.lemma_contains(other);
            assert(self.volumes@.contains_key(other));
        }
        if self.meshes.resident(id.0) {
            assert(self.volumes@.contains_key(VoxelVolumeId(id.0)));
        }
        crate::sparse_set::lemma_len_of_subset(self.raymarched.rows, self.volumes);
    }
}

} // verus!
