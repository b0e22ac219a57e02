//! What the voxels of a terrain are, and how they are baked.
use vstd::arithmetic::power2::pow2;
use vstd::prelude::*;

use crate::float_bits::{lemma_small_integer_is_single, F32};
use crate::terrain::{
    brick_row, brick_rows, brick_slabs, brick_span, bricks_of, lattice_hash, lemma_pack_bytes,
    BrickCoords, BrickRange, CanonicalBrick, VoxelTerrain,
};

verus! {

/// Material of the voxel at a place of the grid, which is 64 voxels wide.
pub open spec fn voxel(terrain: VoxelTerrain, x: int, y: int, z: int) -> u8 {
    terrain.materials@[x + 64 * y + 4096 * z]
}

/// The place lies in the grid.
pub open spec fn in_grid(x: int, y: int, z: int) -> bool {
    0 <= x < 64 && 0 <= y < 64 && 0 <= z < 64
}

/// The number is less than `n`.
pub open spec fn less_than(number: F32, n: int) -> bool {
    !number.spec_is_nan() && number.units() < n * pow2(149)
}

/// Hills are layered: above the height of a column there is air, the voxel that the height
/// lies in is grass, the three below are dirt, and what is deeper is stone, ore or a cave.
pub proof fn lemma_hills_are_layered(
    terrain: VoxelTerrain,
    heights: Seq<F32>,
    seed: u32,
    x: int,
    y: int,
    z: int,
)
    requires
        terrain.holds_hills(heights, seed),
        in_grid(x, y, z),
    ensures
        ({
            let height = heights[64 * x + z];
            let material = voxel(terrain, x, y, z);
            &&& less_than(height, y) ==> material == 0
            &&& !less_than(height, y) && less_than(height, y + 1) ==> material == 1
            &&& !less_than(height, y + 1) && !less_than(height, y) && less_than(height, y + 4)
                ==> material == 2
            &&& !less_than(height, y) && !less_than(height, y + 1) && !less_than(height, y + 4)
                ==> {
                let ore = lattice_hash(x, y, z, (seed ^ 0x1234_5678) as int) >= 4262755200;
                &&& material == 0 || material == 3 || material == 4
                &&& material == 4 ==> ore
                &&& material == 3 ==> !ore
            }
        }),
{
    assert(terrain.material(x, y, z) == voxel(terrain, x, y, z));
}

/// A sphere fills the voxels whose centres are no farther from its centre than its radius,
/// as far as its reach, and leaves all others as they were. (Squares of distances below
/// two to the twenty-fourth are compared exactly.)
pub proof fn lemma_sphere_fills_what_is_near(
    before: VoxelTerrain,
    after: VoxelTerrain,
    center: [i32; 3],
    reach: int,
    radius_squared: F32,
    fill: u8,
    range: Option<BrickRange>,
    x: int,
    y: int,
    z: int,
)
    requires
        before.sphere_painted(&after, center, reach, radius_squared, fill, range),
        in_grid(x, y, z),
        !radius_squared.spec_is_nan(),
    ensures
        ({
            let (dx, dy, dz) = (x - center[0], y - center[1], z - center[2]);
            let d2 = dx * dx + dy * dy + dz * dz;
            let near = {
                &&& -reach <= dx <= reach
                &&& -reach <= dy <= reach
                &&& -reach <= dz <= reach
                &&& d2 * pow2(149) <= radius_squared.units()
            };
            d2 < 0x100_0000 ==> {
                &&& near ==> voxel(after, x, y, z) == fill
                &&& !near ==> voxel(after, x, y, z) == voxel(before, x, y, z)
                &&& near ==> {
                    &&& range matches Some(r)
                    &&& r.min[0] <= x / 8 <= r.max[0]
                    &&& r.min[1] <= y / 8 <= r.max[1]
                    &&& r.min[2] <= z / 8 <= r.max[2]
                }
            }
        }),
        -reach > x - center[0] || x - center[0] > reach ==> voxel(after, x, y, z) == voxel(
            before,
            x,
            y,
            z,
        ),
{
    let (dx, dy, dz) = (x - center[0], y - center[1], z - center[2]);
    let d2 = dx * dx + dy * dy + dz * dz;
    assert(d2 >= 0) by (nonlinear_arith)
        requires
            d2 == dx * dx + dy * dy + dz * dz,
    ;
    if d2 < 0x100_0000 {
        lemma_small_integer_is_single(d2);
    }
    assert(after.material(x, y, z) == voxel(after, x, y, z));
    assert(before.material(x, y, z) == voxel(before, x, y, z));
}

/// The `k`-th byte of a word.
pub open spec fn byte(word: u32, k: int) -> u32 {
    if k == 0 {
        word & 0xff
    } else if k == 1 {
        (word >> 8) & 0xff
    } else if k == 2 {
        (word >> 16) & 0xff
    } else {
        (word >> 24) & 0xff
    }
}

/// A baked brick holds the materials of its voxels, four to a word, counted along x, then y,
/// then z; it is occupied if one of them is not air, and numbered by where it stands.
pub proof fn lemma_brick_holds_its_voxels(
    terrain: VoxelTerrain,
    brick: CanonicalBrick,
    b: BrickCoords,
    i: int,
    j: int,
    k: int,
)
    requires
        brick.baked(&terrain, b),
        b.0 < 8,
        b.1 < 8,
        b.2 < 8,
        0 <= i < 8,
        0 <= j < 8,
        0 <= k < 8,
    ensures
        ({
            let place = i + 8 * j + 64 * k;
            let material = voxel(terrain, 8 * b.0 + i, 8 * b.1 + j, 8 * b.2 + k);
            &&& byte(brick.words[place / 4], place % 4) == material
            &&& material != 0 ==> brick.occupied
        }),
        brick.index == b.0 + 8 * b.1 + 64 * b.2,
        brick.occupied ==> exists|u: int, v: int, w: int|
            0 <= u < 8 && 0 <= v < 8 && 0 <= w < 8 && #[trigger] voxel(
                terrain,
                8 * b.0 + u,
                8 * b.1 + v,
                8 * b.2 + w,
            ) != 0,
{
    let place = i + 8 * j + 64 * k;
    assert(place % 8 == i && (place / 8) % 8 == j && place / 64 == k);
    let w = place / 4;
    assert(0 <= w < 128);
    let m = |linear: int| crate::terrain::brick_material(&terrain, b, linear);
    lemma_pack_bytes(m(4 * w), m(4 * w + 1), m(4 * w + 2), m(4 * w + 3));
    assert(brick.words[w] == crate::terrain::brick_word(&terrain, b, w));
    assert(m(place) == voxel(terrain, 8 * b.0 + i, 8 * b.1 + j, 8 * b.2 + k));
    assert(place == 4 * w + place % 4);
    if brick.occupied {
        let linear = choose|linear: int|
            0 <= linear < 512 && #[trigger] crate::terrain::brick_material(&terrain, b, linear)
                != 0;
        let (u, v, t) = (linear % 8, (linear / 8) % 8, linear / 64);
        assert(voxel(terrain, 8 * b.0 + u, 8 * b.1 + v, 8 * b.2 + t) != 0);
    }
}

/// The brick lies in the range.
pub open spec fn in_range(range: BrickRange, b: BrickCoords) -> bool {
    &&& range.min[0] <= b.0 <= range.max[0]
    &&& range.min[1] <= b.1 <= range.max[1]
    &&& range.min[2] <= b.2 <= range.max[2]
}

proof fn lemma_row_members(range: BrickRange, by: int, bz: int, b: BrickCoords)
    requires
        range.wf(),
        0 <= by < 8,
        0 <= bz < 8,
    ensures
        brick_row(range, by, bz).contains(b) <==> range.min[0] <= b.0 <= range.max[0] && b.1 == by
            && b.2 == bz,
{
    let row = brick_row(range, by, bz);
    assert(range.min[0] < 8 && range.max[0] < 8);
    if range.min[0] <= b.0 <= range.max[0] && b.1 == by && b.2 == bz {
        assert(row[b.0 - range.min[0]] == b);
    }
    if row.contains(b) {
        let i = row.index_of(b);
        assert(row[i] == b);
    }
}

proof fn lemma_rows_members(range: BrickRange, n: nat, bz: int, b: BrickCoords)
    requires
        range.wf(),
        n <= brick_span(range, 1),
        0 <= bz < 8,
    ensures
        brick_rows(range, n, bz).contains(b) <==> range.min[0] <= b.0 <= range.max[0]
            && range.min[1] <= b.1 < range.min[1] + n && b.2 == bz,
    decreases n,
{
    assert(range.min[1] < 8 && range.max[1] < 8);
    let all = brick_rows(range, n, bz);
    if n > 0 {
        let m = (n - 1) as nat;
        lemma_rows_members(range, m, bz, b);
        lemma_row_members(range, range.min[1] + n - 1, bz, b);
        lemma_joined(brick_rows(range, m, bz), brick_row(range, range.min[1] + n - 1, bz), b);
    } else {
        assert(all.len() == 0);
    }
}

proof fn lemma_joined<T>(a: Seq<T>, b: Seq<T>, x: T)
    ensures
        (a + b).contains(x) <==> a.contains(x) || b.contains(x),
{
    if a.contains(x) {
        assert((a + b)[a.index_of(x)] == x);
    }
    if b.contains(x) {
        assert((a + b)[a.len() + b.index_of(x)] == x);
    }
    if (a + b).contains(x) {
        let i = (a + b).index_of(x);
        if i < a.len() {
            assert(a[i] == x);
        } else {
            assert(b[i - a.len()] == x);
        }
    }
}

proof fn lemma_slabs_members(range: BrickRange, n: nat, b: BrickCoords)
    requires
        range.wf(),
        n <= brick_span(range, 2),
    ensures
        brick_slabs(range, n).contains(b) <==> range.min[0] <= b.0 <= range.max[0]
            && range.min[1] <= b.1 <= range.max[1] && range.min[2] <= b.2 < range.min[2] + n,
    decreases n,
{
    assert(range.min[2] < 8 && range.max[2] < 8);
    assert(range.min[1] < 8 && range.max[1] < 8);
    let all = brick_slabs(range, n);
    if n > 0 {
        let m = (n - 1) as nat;
        lemma_slabs_members(range, m, b);
        lemma_rows_members(range, brick_span(range, 1), range.min[2] + n - 1, b);
        lemma_joined(
            brick_slabs(range, m),
            brick_rows(range, brick_span(range, 1), range.min[2] + n - 1),
            b,
        );
    } else {
        assert(all.len() == 0);
    }
}

/// The list of a range's bricks holds those that lie in it.
pub proof fn lemma_range_members(range: BrickRange, b: BrickCoords)
    requires
        range.wf(),
    ensures
        bricks_of(range).contains(b) <==> in_range(range, b),
{
    lemma_slabs_members(range, brick_span(range, 2), b);
    assert(range.min[2] < 8 && range.max[2] < 8);
}

/// The bricks of a range are baked, all of them and no others, as many as its edges tell.
pub proof fn lemma_range_is_baked(
    terrain: VoxelTerrain,
    bricks: Seq<CanonicalBrick>,
    range: BrickRange,
    b: BrickCoords,
)
    requires
        terrain.bricks_listed(bricks, range),
        range.wf(),
    ensures
        in_range(range, b) ==> exists|n: int|
            0 <= n < bricks.len() && (#[trigger] bricks[n]).baked(&terrain, b),
        forall|n: int|
            0 <= n < bricks.len() ==> exists|c: BrickCoords| #[trigger]
                in_range(range, c) && (#[trigger] bricks[n]).baked(&terrain, c),
{
    let all = bricks_of(range);
    lemma_slabs_members(range, brick_span(range, 2), b);
    assert(range.min[2] < 8 && range.max[2] < 8);
    if in_range(range, b) {
        let n = all.index_of(b);
        assert(bricks[n].baked(&terrain, b));
    }
    assert forall|n: int| 0 <= n < bricks.len() implies exists|c: BrickCoords| #[trigger]
        in_range(range, c) && (#[trigger] bricks[n]).baked(&terrain, c) by {
        lemma_slabs_members(range, brick_span(range, 2), all[n]);
        assert(all.contains(all[n]));
        assert(in_range(range, all[n]));
        assert(bricks[n].baked(&terrain, all[n]));
    }
}

} // verus!
