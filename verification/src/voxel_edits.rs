//! Edits of voxel volumes: terrain uploads, palettes and the extraction work they cause.
use vstd::prelude::*;

use crate::errors::{invalid, Result, SceneError};
use crate::handles::{Entity, VoxelVolumeId};
use crate::scene::Scene;
use crate::terrain::{
    brick_in_grid, brick_occupied, brick_row, brick_rows, brick_slabs, brick_span, bricks_of,
    BrickCoords, BrickRange, CanonicalBrick, VoxelTerrain, BRICKS_PER_AXIS,
};
use crate::voxel_mesh_projection::{in_halo, GpuVoxelMeshWork, SlotRegion, VoxelMeshProjection};
use crate::voxels::{
    GpuVoxelMaterial, GpuVoxelVolume, VoxelMode, VoxelVolume, VoxelVolumeRecord, Voxels,
    DEFAULT_VOLUME_BRICK_COUNT,
};

verus! {

/// Where a brick stands in the volume's list of bricks.
pub open spec fn brick_index(b: BrickCoords) -> int {
    b.2 * BRICKS_PER_AXIS * BRICKS_PER_AXIS + b.1 * BRICKS_PER_AXIS + b.0
}

/// Whether an output slot is occupied once the bricks were uploaded, one after the other.
pub open spec fn occupied_after(
    meshes: &VoxelMeshProjection,
    region: SlotRegion,
    terrain: &VoxelTerrain,
    bricks: Seq<BrickCoords>,
    slot: int,
) -> bool
    decreases bricks.len(),
{
    if bricks.len() == 0 {
        meshes.occupied_at(slot)
    } else if slot == region.base + brick_index(bricks.last()) {
        brick_occupied(terrain, bricks.last())
    } else {
        occupied_after(meshes, region, terrain, bricks.drop_last(), slot)
    }
}

/// The output slot belongs to one of the bricks or to a neighbour of one.
pub open spec fn concerned(region: SlotRegion, bricks: Seq<BrickCoords>, slot: int) -> bool {
    region.holds(slot) && exists|n: int|
        0 <= n < bricks.len() && in_halo(
            BRICKS_PER_AXIS as int,
            brick_index(#[trigger] bricks[n]),
            slot - region.base,
        )
}

/// What an upload of bricks leaves to extract.
pub open spec fn bricks_marked(
    before: &VoxelMeshProjection,
    after: &VoxelMeshProjection,
    entity: Entity,
    terrain: &VoxelTerrain,
    bricks: Seq<BrickCoords>,
) -> bool {
    let region = before.region_of(entity);
    &&& after.allocated_flag == before.allocated_flag
    &&& after.regions@ == before.regions@
    &&& after.rows@.len() == before.rows@.len()
    &&& forall|slot: int| #[trigger] after.owner_at(slot) == before.owner_at(slot)
    &&& forall|slot: int| #[trigger] after.work_at(slot) == before.work_at(slot)
    &&& forall|slot: int| #[trigger]
        after.occupied_at(slot) == occupied_after(before, region, terrain, bricks, slot)
    &&& forall|slot: int| #[trigger]
        after.dirty_at(slot) == (before.dirty_at(slot) || concerned(region, bricks, slot))
}

proof fn lemma_row_in_grid(range: BrickRange, by: int, bz: int)
    requires
        range.wf(),
        0 <= by < BRICKS_PER_AXIS,
        0 <= bz < BRICKS_PER_AXIS,
    ensures
        forall|n: int|
            0 <= n < brick_row(range, by, bz).len() ==> brick_in_grid(
                #[trigger] brick_row(range, by, bz)[n],
            ),
{
    assert(range.min[0] < BRICKS_PER_AXIS && range.max[0] < BRICKS_PER_AXIS);
}

proof fn lemma_rows_in_grid(range: BrickRange, k: nat, bz: int)
    requires
        range.wf(),
        k <= brick_span(range, 1),
        0 <= bz < BRICKS_PER_AXIS,
    ensures
        forall|n: int|
            0 <= n < brick_rows(range, k, bz).len() ==> brick_in_grid(
                #[trigger] brick_rows(range, k, bz)[n],
            ),
    decreases k,
{
    if k > 0 {
        let rest = brick_rows(range, (k - 1) as nat, bz);
        let last = brick_row(range, range.min[1] + k - 1, bz);
        assert(range.min[1] < BRICKS_PER_AXIS && range.max[1] < BRICKS_PER_AXIS);
        lemma_rows_in_grid(range, (k - 1) as nat, bz);
        lemma_row_in_grid(range, range.min[1] + k - 1, bz);
        assert forall|n: int| 0 <= n < (rest + last).len() implies brick_in_grid(
            #[trigger] (rest + last)[n],
        ) by {
            if n < rest.len() {
                assert((rest + last)[n] == rest[n]);
            } else {
                assert((rest + last)[n] == last[n - rest.len()]);
            }
        }
    }
}

proof fn lemma_slabs_in_grid(range: BrickRange, k: nat)
    requires
        range.wf(),
        k <= brick_span(range, 2),
    ensures
        forall|n: int|
            0 <= n < brick_slabs(range, k).len() ==> brick_in_grid(
                #[trigger] brick_slabs(range, k)[n],
            ),
    decreases k,
{
    if k > 0 {
        let rest = brick_slabs(range, (k - 1) as nat);
        let last = brick_rows(range, brick_span(range, 1), range.min[2] + k - 1);
        assert(range.min[2] < BRICKS_PER_AXIS && range.max[2] < BRICKS_PER_AXIS);
        lemma_slabs_in_grid(range, (k - 1) as nat);
        lemma_rows_in_grid(range, brick_span(range, 1), range.min[2] + k - 1);
        assert forall|n: int| 0 <= n < (rest + last).len() implies brick_in_grid(
            #[trigger] (rest + last)[n],
        ) by {
            if n < rest.len() {
                assert((rest + last)[n] == rest[n]);
            } else {
                assert((rest + last)[n] == last[n - rest.len()]);
            }
        }
    }
}

/// A volume of that many bricks has eight along an edge.
proof fn lemma_default_axis(axis: int)
    requires
        axis >= 0,
        axis * axis * axis == DEFAULT_VOLUME_BRICK_COUNT,
    ensures
        axis == BRICKS_PER_AXIS,
{
    assert(axis == 8) by (nonlinear_arith)
        requires
            axis >= 0,
            axis * axis * axis == 512,
    {
        if axis <= 7 {
            assert(axis * axis <= 49);
            assert(axis * axis * axis <= 343);
        }
        if axis >= 9 {
            assert(axis * axis >= 81);
            assert(axis * axis * axis >= 729);
        }
    }
}

impl Scene {
    /// Why a terrain cannot be uploaded to a volume.
    pub open spec fn upload_error(&self, id: VoxelVolumeId) -> Option<SceneError> {
        if !self.voxels.volumes@.contains_key(id) {
            Some(SceneError::InvalidHandle { resource: "voxel volume" })
        } else if self.voxels.volumes@[id].brick_count != DEFAULT_VOLUME_BRICK_COUNT {
            Some(
                SceneError::InvalidOperation {
                    reason: "VoxelTerrain uploads require a 64x64x64 voxel volume",
                },
            )
        } else {
            None
        }
    }

    /// `after` is `self` with a volume that was just edited.
    pub open spec fn volume_edited(
        &self,
        after: &Scene,
        id: VoxelVolumeId,
        result: Result<()>,
    ) -> bool {
        &&& *after == (Scene { voxels: after.voxels, ..*self })
        &&& after.voxels == (Voxels {
            volumes: after.voxels.volumes,
            ..self.voxels
        })
        &&& if self.voxels.volumes@.contains_key(id) {
            let volume = self.voxels.volumes@[id];
            &&& result == Ok::<(), SceneError>(())
            &&& after.voxels.volumes.id_by_slot == self.voxels.volumes.id_by_slot
            &&& after.voxels.volumes@ == self.voxels.volumes@.insert(
                id,
                VoxelVolume {
                    record: VoxelVolumeRecord { edit_cooldown: 0, ..volume.record },
                    ..volume
                },
            )
        } else {
            &&& result == Err::<(), _>(SceneError::InvalidHandle { resource: "voxel volume" })
            &&& *after == *self
        }
    }

    /// An edit of a volume starts its cooldown anew. The volume's octree marks the
    /// edited sphere itself; nothing is extracted before the terrain is uploaded.
    pub fn edit_voxel_volume(&mut self, id: VoxelVolumeId) -> (result: Result<()>)
        requires
            old(self).wf(),
        ensures
            final(self).wf(),
            old(self).volume_edited(final(self), id, result),
    {
        let (row, movability, mode, brick_count, gpu_row) = match self.voxels.volumes.get(id) {
            Some(volume) => (
                volume.row,
                volume.movability,
                volume.mode,
                volume.brick_count,
                volume.gpu_row,
            ),
            None => {
                return Err(invalid("voxel volume"));
            },
        };
        let ghost before = *self;
        let placeholder = VoxelVolume {
            record: VoxelVolumeRecord::new(row.voxel_size, row.voxel_size, Vec::new()),
            row,
            movability,
            mode,
            brick_count,
            gpu_row,
        };
        let prior: VoxelVolume = self.voxels.volumes.replace(id, placeholder);
        let next = VoxelVolume {
            record: VoxelVolumeRecord { edit_cooldown: 0, ..prior.record },
            row,
            movability,
            mode,
            brick_count,
            gpu_row,
        };
        self.voxels.volumes.set(id, next);
        proof {
            assert(self.voxels.volumes@ =~= before.voxels.volumes@.insert(id, next));
            before.voxels.lemma_rewritten(&self.voxels, id, next);
        }
        Ok(())
    }

    /// The bricks of a terrain that are to be written to a volume, in the order in which
    /// they are written.
    pub fn voxel_terrain_bricks(
        &self,
        id: VoxelVolumeId,
        terrain: &VoxelTerrain,
        range: BrickRange,
    ) -> (result: Result<Vec<CanonicalBrick>>)
        requires
            self.wf(),
            terrain.wf(),
            range.wf(),
        ensures
            match self.upload_error(id) {
                Some(error) => result == Err::<Vec<CanonicalBrick>, _>(error),
                None => {
                    &&& result is Ok
                    &&& result->Ok_0@.len() == bricks_of(range).len()
                    &&& forall|n: int|
                        0 <= n < bricks_of(range).len() ==> (#[trigger] result->Ok_0@[n]).baked(
                            terrain,
                            bricks_of(range)[n],
                        )
                },
            },
    {
        match self.voxels.volumes.get(id) {
            Some(volume) => {
                if volume.brick_count != DEFAULT_VOLUME_BRICK_COUNT {
                    return Err(
                        SceneError::InvalidOperation {
                            reason: "VoxelTerrain uploads require a 64x64x64 voxel volume",
                        },
                    );
                }
                Ok(terrain.canonical_bricks(range))
            },
            None => Err(invalid("voxel volume")),
        }
    }

    /// `after` is `self` with a terrain's bricks uploaded to a volume. `written` tells
    /// whether the store took them all.
    pub open spec fn terrain_uploaded(
        &self,
        after: &Scene,
        id: VoxelVolumeId,
        terrain: &VoxelTerrain,
        range: BrickRange,
        written: bool,
        result: Result<()>,
    ) -> bool {
        match self.upload_error(id) {
            Some(error) => result == Err::<(), _>(error) && *after == *self,
            None => if !written {
                &&& result == Err::<(), _>(
                    SceneError::InvalidOperation {
                        reason: "SceneDB rejected voxel terrain upload",
                    },
                )
                &&& *after == *self
            } else {
                &&& result == Ok::<(), SceneError>(())
                &&& *after == (Scene {
                    voxels: Voxels { meshes: after.voxels.meshes, ..self.voxels },
                    ..*self
                })
                &&& if self.voxels.volumes@[id].mode == VoxelMode::Auto {
                    bricks_marked(
                        &self.voxels.meshes,
                        &after.voxels.meshes,
                        id.0,
                        terrain,
                        bricks_of(range),
                    )
                } else {
                    after.voxels.meshes == self.voxels.meshes
                }
            },
        }
    }

    /// Notes that all bricks of a terrain were written to a volume.
    pub fn upload_voxel_terrain(
        &mut self,
        id: VoxelVolumeId,
        terrain: &VoxelTerrain,
        written: bool,
    ) -> (result: Result<()>)
        requires
            old(self).wf(),
            terrain.wf(),
        ensures
            final(self).wf(),
            exists|range: BrickRange| #[trigger]
                old(self).terrain_uploaded(final(self), id, terrain, range, written, result) && (
                forall|a: int|
                    0 <= a < 3 ==> (#[trigger] range.min[a]) == 0 && range.max[a]
                        == BRICKS_PER_AXIS - 1),
    {
        let range: BrickRange = BrickRange::all();
        self.upload_voxel_terrain_range(id, terrain, range, written)
    }

    /// Notes that a range of a terrain's bricks was written to a volume. One whose
    /// surface is extracted has it extracted anew there and in the bricks around.
    #[verifier::spinoff_prover]
    pub fn upload_voxel_terrain_range(
        &mut self,
        id: VoxelVolumeId,
        terrain: &VoxelTerrain,
        range: BrickRange,
        written: bool,
    ) -> (result: Result<()>)
        requires
            old(self).wf(),
            terrain.wf(),
            range.wf(),
        ensures
            final(self).wf(),
            old(self).terrain_uploaded(final(self), id, terrain, range, written, result),
    {
        let bricks: Vec<CanonicalBrick> = match self.voxel_terrain_bricks(id, terrain, range) {
            Ok(bricks) => bricks,
            Err(error) => {
                return Err(error);
            },
        };
        if !written {
            return Err(
                SceneError::InvalidOperation { reason: "SceneDB rejected voxel terrain upload" },
            );
        }
        let (mode, axis) = match self.voxels.volumes.get(id) {
            Some(volume) => (volume.mode, volume.row.brick_grid_dim),
            None => {
                assert(false);
                return Err(invalid("voxel volume"));
            },
        };
        if mode == VoxelMode::Dynamic {
            return Ok(());
        }
        let ghost before = *self;
        let ghost region = self.voxels.meshes.region_of(id.0);
        let ghost coords = bricks_of(range);
        proof {
            assert(before.voxels.housed(id));
            assert(Voxels::cubic(before.voxels.volumes@[id]));
            lemma_default_axis(axis as int);
            lemma_slabs_in_grid(range, brick_span(range, 2));
            assert(coords.take(0) =~= Seq::<BrickCoords>::empty());
        }
        let mut n: usize = 0;
        while n < bricks.len()
            invariant
                0 <= n <= bricks@.len(),
                coords == bricks_of(range),
                bricks@.len() == coords.len(),
                forall|k: int|
                    0 <= k < coords.len() ==> (#[trigger] bricks@[k]).baked(terrain, coords[k]),
                forall|k: int| 0 <= k < coords.len() ==> brick_in_grid(#[trigger] coords[k]),
                axis == BRICKS_PER_AXIS,
                region == before.voxels.meshes.region_of(id.0),
                region.count == DEFAULT_VOLUME_BRICK_COUNT,
                before.voxels.meshes.resident(id.0),
                self.voxels.meshes.wf(),
                *self == (Scene {
                    voxels: Voxels { meshes: self.voxels.meshes, ..before.voxels },
                    ..before
                }),
                bricks_marked(
                    &before.voxels.meshes,
                    &self.voxels.meshes,
                    id.0,
                    terrain,
                    coords.take(n as int),
                ),
            decreases bricks@.len() - n,
        {
            let ghost prior = self.voxels.meshes;
            let ghost done = coords.take(n as int);
            let ghost next = coords.take(n + 1);
            let ghost b = coords[n as int];
            let index: u32 = bricks[n].index;
            let occupied: bool = bricks[n].occupied;
            proof {
                assert(bricks@[n as int].baked(terrain, b));
                assert(brick_in_grid(b));
                assert(index == brick_index(b));
                assert(index < 512);
                assert(next.last() == b);
                assert(next.drop_last() =~= done);
                assert(prior.resident(id.0));
                assert(prior.region_of(id.0) == region);
            }
            match self.voxels.meshes.mark_uploaded(id.0, index, occupied, axis) {
                Ok(()) => {},
                Err(_) => {
                    assert(false);
                    return Err(
                        SceneError::InvalidOperation {
                            reason: "Helio rejected Auto voxel mesh work",
                        },
                    );
                },
            }
            proof {
                let now = self.voxels.meshes;
                assert forall|slot: int| #[trigger] now.owner_at(slot)
                    == before.voxels.meshes.owner_at(slot) by {
                    assert(now.owner_at(slot) == prior.owner_at(slot));
                }
                assert forall|slot: int| #[trigger] now.work_at(slot)
                    == before.voxels.meshes.work_at(slot) by {
                    assert(now.work_at(slot) == prior.work_at(slot));
                }
                assert forall|slot: int| #[trigger] now.occupied_at(slot) == occupied_after(
                    &before.voxels.meshes,
                    region,
                    terrain,
                    next,
                    slot,
                ) by {
                    assert(prior.occupied_at(slot) == occupied_after(
                        &before.voxels.meshes,
                        region,
                        terrain,
                        done,
                        slot,
                    ));
                }
                assert forall|slot: int| #[trigger] now.dirty_at(slot) == (
                before.voxels.meshes.dirty_at(slot) || concerned(region, next, slot)) by {
                    assert(prior.dirty_at(slot) == (before.voxels.meshes.dirty_at(slot)
                        || concerned(region, done, slot)));
                    lemma_concerned_step(region, coords, n as int, slot);
                    if slot == region.base + brick_index(b) {
                        lemma_own_halo(brick_index(b));
                    }
                }
            }
            n = n + 1;
        }
        proof {
            assert(coords.take(n as int) =~= coords);
            before.voxels.lemma_marked(&self.voxels);
        }
        Ok(())
    }

    /// `after` is `self` with another palette for a volume.
    pub open spec fn palette_replaced(
        &self,
        after: &Scene,
        id: VoxelVolumeId,
        palette: Vec<GpuVoxelMaterial>,
        residency: Option<(u32, u32)>,
        result: Result<()>,
    ) -> bool {
        &&& *after == (Scene { voxels: after.voxels, ..*self })
        &&& after.voxels == (Voxels {
            volumes: after.voxels.volumes,
            ..self.voxels
        })
        &&& if !self.voxels.volumes@.contains_key(id) {
            &&& result == Err::<(), _>(SceneError::InvalidHandle { resource: "voxel volume" })
            &&& *after == *self
        } else if residency is None {
            &&& result == Err::<(), _>(
                SceneError::InvalidOperation {
                    reason: "SceneDB rejected voxel palette update",
                },
            )
            &&& *after == *self
        } else {
            let volume = self.voxels.volumes@[id];
            &&& result == Ok::<(), SceneError>(())
            &&& after.voxels.volumes.id_by_slot == self.voxels.volumes.id_by_slot
            &&& after.voxels.volumes@ == self.voxels.volumes@.insert(
                id,
                VoxelVolume {
                    record: VoxelVolumeRecord { material_palette: palette, ..volume.record },
                    row: palette_moved(volume.row, residency->0),
                    ..volume
                },
            )
        }
    }

    /// Replaces a volume's palette. `residency` is where the store keeps it now and how
    /// many entries it has, `None` if it had no room.
    pub fn update_voxel_material_palette(
        &mut self,
        id: VoxelVolumeId,
        palette: Vec<GpuVoxelMaterial>,
        residency: Option<(u32, u32)>,
    ) -> (result: Result<()>)
        requires
            old(self).wf(),
        ensures
            final(self).wf(),
            old(self).palette_replaced(final(self), id, palette, residency, result),
    {
        let (row, movability, mode, brick_count, gpu_row) = match self.voxels.volumes.get(id) {
            Some(volume) => (
                volume.row,
                volume.movability,
                volume.mode,
                volume.brick_count,
                volume.gpu_row,
            ),
            None => {
                return Err(invalid("voxel volume"));
            },
        };
        let (palette_offset, palette_count) = match residency {
            Some(residency) => residency,
            None => {
                return Err(
                    SceneError::InvalidOperation {
                        reason: "SceneDB rejected voxel palette update",
                    },
                );
            },
        };
        let ghost before = *self;
        let placeholder = VoxelVolume {
            record: VoxelVolumeRecord::new(row.voxel_size, row.voxel_size, Vec::new()),
            row,
            movability,
            mode,
            brick_count,
            gpu_row,
        };
        let prior: VoxelVolume = self.voxels.volumes.replace(id, placeholder);
        let next = VoxelVolume {
            record: VoxelVolumeRecord { material_palette: palette, ..prior.record },
            row: GpuVoxelVolume { palette_offset, palette_count, ..row },
            movability,
            mode,
            brick_count,
            gpu_row,
        };
        self.voxels.volumes.set(id, next);
        proof {
            assert(self.voxels.volumes@ =~= before.voxels.volumes@.insert(id, next));
            before.voxels.lemma_rewritten(&self.voxels, id, next);
        }
        Ok(())
    }

    /// What the scene keeps of a live volume.
    pub fn voxel_volume(&self, id: VoxelVolumeId) -> (record: Option<&VoxelVolumeRecord>)
        requires
            self.wf(),
        ensures
            match record {
                Some(r) => self.voxels.volumes@.contains_key(id) && *r
                    == self.voxels.volumes@[id].record,
                None => !self.voxels.volumes@.contains_key(id),
            },
    {
        match self.voxels.volumes.get(id) {
            Some(volume) => Some(&volume.record),
            None => None,
        }
    }
}

/// A volume's row with its palette elsewhere.
pub open spec fn palette_moved(row: GpuVoxelVolume, residency: (u32, u32)) -> GpuVoxelVolume {
    GpuVoxelVolume { palette_offset: residency.0, palette_count: residency.1, ..row }
}

proof fn lemma_concerned_step(region: SlotRegion, coords: Seq<BrickCoords>, n: int, slot: int)
    requires
        0 <= n < coords.len(),
    ensures
        concerned(region, coords.take(n + 1), slot) == (concerned(region, coords.take(n), slot) || (
        region.holds(slot) && in_halo(
            BRICKS_PER_AXIS as int,
            brick_index(coords[n]),
            slot - region.base,
        ))),
{
    let now = coords.take(n + 1);
    let before = coords.take(n);
    assert(now[n] == coords[n]);
    if concerned(region, before, slot) {
        let k = choose|k: int|
            0 <= k < before.len() && in_halo(
                BRICKS_PER_AXIS as int,
                brick_index(#[trigger] before[k]),
                slot - region.base,
            );
        assert(now[k] == before[k]);
    }
    if concerned(region, now, slot) {
        let k = choose|k: int|
            0 <= k < now.len() && in_halo(
                BRICKS_PER_AXIS as int,
                brick_index(#[trigger] now[k]),
                slot - region.base,
            );
        if k < n {
            assert(before[k] == now[k]);
        }
    }
}

/// A brick is among those around it.
proof fn lemma_own_halo(index: int)
    requires
        0 <= index < 512,
    ensures
        in_halo(BRICKS_PER_AXIS as int, index, index),
{
    assert(index / 64 < 8);
}

impl Voxels {
    /// Another record for a volume that is drawn as before.
    proof fn lemma_rewritten(&self, after: &Voxels, id: VoxelVolumeId, volume: VoxelVolume)
        requires
            self.wf(),
            self.volumes@.contains_key(id),
            *after == (Voxels { volumes: after.volumes, ..*self }),
            after.volumes.wf(),
            after.volumes@ == self.volumes@.insert(id, volume),
            volume.mode == self.volumes@[id].mode,
            volume.gpu_row == self.volumes@[id].gpu_row,
            volume.brick_count == self.volumes@[id].brick_count,
            volume.row.brick_grid_dim == self.volumes@[id].row.brick_grid_dim,
        ensures
            after.wf(),
    {
        assert forall|other: VoxelVolumeId| #[trigger]
            after.volumes@.contains_key(other) implies after.housed(other) && Voxels::cubic(
            after.volumes@[other],
        ) by {
            assert(self.volumes@.contains_key(other));
            assert(self.housed(other));
        }
    }

    /// Marks on output slots leave every volume where it is.
    proof fn lemma_marked(&self, after: &Voxels)
        requires
            self.wf(),
            *after == (Voxels { meshes: after.meshes, ..*self }),
            after.meshes.wf(),
            after.meshes.regions@ == self.meshes.regions@,
        ensures
            after.wf(),
    {
        assert forall|e: Entity| #[trigger] after.meshes.resident(e) == self.meshes.resident(e)
            && after.meshes.region_of(e) == self.meshes.region_of(e) by {}
        assert forall|other: VoxelVolumeId| #[trigger]
            after.volumes@.contains_key(other) implies after.housed(other) && Voxels::cubic(
            after.volumes@[other],
        ) by {
            assert(self.housed(other));
            assert(after.meshes.resident(other.0) == self.meshes.resident(other.0));
        }
    }

    /// `after` has the extraction work published, if there was any, and knows how far the
    /// occupied slots reach.
    pub open spec fn meshes_published(&self, after: &Voxels) -> bool {
        let generation = self.mesh_work_generation.wrapping_add(1);
        &&& *after == (Voxels {
            meshes: after.meshes,
            mesh_work: after.mesh_work,
            mesh_work_generation: after.mesh_work_generation,
            mesh_draw_count: after.mesh_draw_count,
            ..*self
        })
        &&& after.meshes.regions@ == self.meshes.regions@
        &&& after.meshes.owners == self.meshes.owners
        &&& after.meshes.occupied == self.meshes.occupied
        &&& forall|slot: int| !#[trigger] after.meshes.dirty_at(slot)
        &&& after.meshes.rows@.len() == self.meshes.rows@.len()
        &&& forall|slot: int|
            0 <= slot < after.meshes.rows@.len() ==> #[trigger] after.meshes.rows@[slot] == if self.meshes.dirty_at(
                slot,
            ) {
                GpuVoxelMeshWork {
                    generation: (generation % 0x1_0000_0000) as u32,
                    ..self.meshes.rows@[slot]
                }
            } else {
                self.meshes.rows@[slot]
            }
        &&& if exists|slot: int| #[trigger] self.meshes.dirty_at(slot) {
            &&& after.mesh_work@ == after.meshes.rows@
            &&& after.mesh_work_generation == generation
        } else {
            &&& after.mesh_work == self.mesh_work
            &&& after.mesh_work_generation == self.mesh_work_generation
        }
        &&& forall|slot: int|
            slot >= after.mesh_draw_count ==> !#[trigger] after.meshes.occupied_at(slot)
        &&& after.mesh_draw_count > 0 ==> after.meshes.occupied_at(after.mesh_draw_count - 1)
    }

    /// Publishes the extraction work since the last time.
    pub(crate) fn publish_meshes(&mut self)
        requires
            old(self).wf(),
        ensures
            final(self).wf(),
            old(self).meshes_published(final(self)),
    {
        let ghost before = *self;
        let generation: u64 = self.mesh_work_generation.wrapping_add(1);
        match self.meshes.take_batch(generation) {
            Some(rows) => {
                self.mesh_work = rows;
                self.mesh_work_generation = generation;
            },
            None => {},
        }
        proof {
            let between = Voxels { meshes: self.meshes, ..before };
            before.lemma_marked(&between);
            assert forall|id: VoxelVolumeId| #[trigger]
                self.volumes@.contains_key(id) implies self.housed(id) && Voxels::cubic(
                self.volumes@[id],
            ) by {
                assert(between.housed(id));
            }
        }
        self.mesh_draw_count = self.meshes.draw_count();
        proof {
            let between = Voxels { meshes: self.meshes, ..before };
            assert forall|id: VoxelVolumeId| #[trigger]
                self.volumes@.contains_key(id) implies self.housed(id) && Voxels::cubic(
                self.volumes@[id],
            ) by {
                assert(between.housed(id));
            }
        }
    }
}

} // verus!
