//! Which output slots a voxel volume has, and what an upload makes due.
use vstd::prelude::*;

use crate::ground::in_range;
use crate::handles::VoxelVolumeId;
use crate::scene::Scene;
use crate::terrain::{brick_occupied, bricks_of, BrickCoords, BrickRange, VoxelTerrain};
use crate::voxel_edits::{brick_index, occupied_after};
use crate::voxel_mesh_projection::{SlotRegion, VoxelMeshProjection};
use crate::voxels::{slots_given, slots_returned};

verus! {

/// The number of a brick in its volume, eight bricks wide.
pub open spec fn number(b: BrickCoords) -> int {
    b.0 + 8 * b.1 + 64 * b.2
}

/// The bricks touch, or are the same.
pub open spec fn neighbours(a: BrickCoords, b: BrickCoords) -> bool {
    &&& -1 <= a.0 - b.0 <= 1
    &&& -1 <= a.1 - b.1 <= 1
    &&& -1 <= a.2 - b.2 <= 1
}

proof fn lemma_occupied_after(
    meshes: VoxelMeshProjection,
    region: SlotRegion,
    terrain: VoxelTerrain,
    bricks: Seq<BrickCoords>,
    b: BrickCoords,
)
    requires
        b.0 < 8 && b.1 < 8 && b.2 < 8,
        forall|n: int|
            0 <= n < bricks.len() ==> (#[trigger] bricks[n]).0 < 8 && bricks[n].1 < 8 && bricks[n].2
                < 8,
    ensures
        bricks.contains(b) ==> occupied_after(
            &meshes,
            region,
            &terrain,
            bricks,
            region.base + number(b),
        ) == brick_occupied(&terrain, b),
        !bricks.contains(b) ==> occupied_after(
            &meshes,
            region,
            &terrain,
            bricks,
            region.base + number(b),
        ) == meshes.occupied_at(region.base + number(b)),
    decreases bricks.len(),
{
    if bricks.len() > 0 {
        let rest = bricks.drop_last();
        let last = bricks.len() - 1;
        assert forall|n: int| 0 <= n < rest.len() implies (#[trigger] rest[n]).0 < 8 && rest[n].1
            < 8 && rest[n].2 < 8 by {
            assert(bricks[n] == rest[n]);
        }
        lemma_occupied_after(meshes, region, terrain, rest, b);
        assert(bricks[last].0 < 8);
        if brick_index(bricks.last()) == number(b) {
            assert(bricks.last() == b);
        }
        if bricks.contains(b) && !rest.contains(b) {
            let k = bricks.index_of(b);
            if k < last {
                assert(rest[k] == b);
            }
        }
        if rest.contains(b) {
            let k = rest.index_of(b);
            assert(bricks[k] == b);
        }
    }
}

/// After an upload the slots of a meshed volume tell the terrain: a brick of the range is
/// occupied exactly if one of its voxels is not air, and it and its neighbours are due to be
/// extracted; the other bricks stay as they were.
pub proof fn lemma_upload_marks_the_bricks(
    before: Scene,
    after: Scene,
    id: VoxelVolumeId,
    terrain: VoxelTerrain,
    range: BrickRange,
    b: BrickCoords,
    near: BrickCoords,
)
    requires
        before.wf(),
        before.terrain_uploaded(&after, id, &terrain, range, true, Ok(())),
        before.voxels.volumes@[id].mode is Auto,
        range.wf(),
        b.0 < 8 && b.1 < 8 && b.2 < 8,
        near.0 < 8 && near.1 < 8 && near.2 < 8,
        neighbours(b, near),
    ensures
        ({
            let base = before.voxels.meshes.region_of(id.0).base;
            let slot = base + number(b);
            &&& in_range(range, b) ==> {
                &&& after.voxels.meshes.occupied_at(slot) == brick_occupied(&terrain, b)
                &&& after.voxels.meshes.dirty_at(base + number(near))
            }
            &&& !in_range(range, b) ==> after.voxels.meshes.occupied_at(slot)
                == before.voxels.meshes.occupied_at(slot)
            &&& before.voxels.meshes.dirty_at(slot) ==> after.voxels.meshes.dirty_at(slot)
            &&& after.voxels.meshes.work_at(slot) == before.voxels.meshes.work_at(slot)
            &&& after.voxels.meshes.owner_at(slot) == before.voxels.meshes.owner_at(slot)
        }),
        before.voxels.volumes@.contains_key(id),
        before.voxels.volumes@[id].brick_count == 512,
{
    let meshes = before.voxels.meshes;
    let region = meshes.region_of(id.0);
    let bricks = bricks_of(range);
    assert forall|n: int| 0 <= n < bricks.len() implies (#[trigger] bricks[n]).0 < 8 && bricks[n].1
        < 8 && bricks[n].2 < 8 && in_range(range, bricks[n]) by {
        crate::ground::lemma_range_members(range, bricks[n]);
        assert(bricks.contains(bricks[n]));
        assert(range.max[0] < 8 && range.min[0] < 8);
        assert(range.max[1] < 8 && range.min[1] < 8);
        assert(range.max[2] < 8 && range.min[2] < 8);
    }
    lemma_occupied_after(meshes, region, terrain, bricks, b);
    crate::ground::lemma_range_members(range, b);
    if in_range(range, b) {
        assert(bricks.contains(b));
        let n = bricks.index_of(b);
        assert(bricks[n] == b);
        let own = number(b);
        let next = number(near);
        assert(brick_index(b) == own);
        assert(own % 8 == b.0 && (own / 8) % 8 == b.1 && own / 64 == b.2);
        assert(next % 8 == near.0 && (next / 8) % 8 == near.1 && next / 64 == near.2);
        assert(before.voxels.housed(id));
        assert(region.count == 512);
        assert(0 <= next < 512);
    }
}

/// The lowest slots that are free in a row go to a meshed volume, one for each brick, all of
/// them due to be extracted, with its row and the number of the brick; the other slots stay
/// as they were, and no slot lies past the last.
pub proof fn lemma_volume_gets_the_first_free_slots(
    before: VoxelMeshProjection,
    after: VoxelMeshProjection,
    entity: crate::handles::Entity,
    count: u32,
    volume_row: u32,
    brick: int,
    other: int,
)
    requires
        slots_given(&before, &after, entity, count, volume_row),
        0 <= brick < count,
    ensures
        ({
            let base = after.region_of(entity).base as int;
            &&& base + count <= 1024
            &&& before.owner_at(base + brick) is None
            &&& after.owner_at(base + brick) == Some(entity)
            &&& after.dirty_at(base + brick)
            &&& !after.occupied_at(base + brick)
            &&& after.work_at(base + brick).volume_row == volume_row
            &&& after.work_at(base + brick).local_brick == brick
            &&& after.work_at(base + brick).flags == before.allocated_flag
            &&& other < base || base + count <= other ==> {
                &&& after.owner_at(other) == before.owner_at(other)
                &&& after.work_at(other) == before.work_at(other)
                &&& after.occupied_at(other) == before.occupied_at(other)
                &&& after.dirty_at(other) == before.dirty_at(other)
            }
            &&& 0 <= other < base ==> exists|slot: int|
                other <= slot < other + count && #[trigger] before.owner_at(slot) is Some
        }),
{
    let region = after.region_of(entity);
    let base = region.base as int;
    assert(before.free_slot(base + brick));
    assert(after.owner_at(base + brick) == Some(entity));
    assert(after.work_at(base + brick) == before.fresh_work(region, volume_row, base + brick));
    assert(after.dirty_at(base + brick) && !after.occupied_at(base + brick));
    if 0 <= other < base {
        assert(!before.fits(other, count as int));
        let slot = choose|slot: int|
            other <= slot < other + count && !#[trigger] before.free_slot(slot);
        assert(before.owner_at(slot) is Some);
    }
}

/// The slots of a volume that is gone are free and blank, and due to be cleared; the other
/// slots stay as they were.
pub proof fn lemma_volume_returns_its_slots(
    before: VoxelMeshProjection,
    after: VoxelMeshProjection,
    entity: crate::handles::Entity,
    slot: int,
)
    requires
        slots_returned(&before, &after, entity),
    ensures
        ({
            let region = before.region_of(entity);
            let held = region.base <= slot < region.base + region.count;
            &&& held ==> {
                &&& after.owner_at(slot) is None
                &&& !after.occupied_at(slot)
                &&& after.dirty_at(slot)
                &&& after.work_at(slot).flags == 0
                &&& after.work_at(slot).volume_row == 0
                &&& after.work_at(slot).local_brick == 0
            }
            &&& !held ==> {
                &&& after.owner_at(slot) == before.owner_at(slot)
                &&& after.occupied_at(slot) == before.occupied_at(slot)
                &&& after.work_at(slot) == before.work_at(slot)
                &&& after.dirty_at(slot) == before.dirty_at(slot)
            }
        }),
{
}

/// What was due is published: the work of every slot that was due has the new generation and
/// that of the others is untouched; nothing is due any more. As many slots are drawn as it
/// takes to reach the last occupied one.
pub proof fn lemma_due_work_is_published(before: Scene, after: Scene, slot: int)
    requires
        before.voxels.meshes_published(&after.voxels),
        0 <= slot < before.voxels.meshes.rows@.len(),
    ensures
        ({
            let was = before.voxels.meshes.rows@[slot];
            let is = after.voxels.meshes.rows@[slot];
            &&& is.volume_row == was.volume_row
            &&& is.local_brick == was.local_brick
            &&& is.flags == was.flags
            &&& before.voxels.meshes.dirty_at(slot) ==> {
                &&& is.generation == (before.voxels.mesh_work_generation.wrapping_add(1)
                    % 0x1_0000_0000) as u32
                &&& after.voxels.mesh_work@ == after.voxels.meshes.rows@
                &&& after.voxels.mesh_work_generation
                    == before.voxels.mesh_work_generation.wrapping_add(1)
            }
            &&& !before.voxels.meshes.dirty_at(slot) ==> is == was
            &&& !after.voxels.meshes.dirty_at(slot)
            &&& after.voxels.meshes.occupied_at(slot) ==> slot < after.voxels.mesh_draw_count
        }),
{
}

} // verus!
