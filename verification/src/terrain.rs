//! Dense voxel terrain and brick baking.
//!
//! The grid is always 64 voxels along each axis: 8 bricks of 8 voxels. Bricks
//! are baked as raw blocks of one material byte per voxel, packed into words.
use vstd::arithmetic::power2::pow2;
use vstd::prelude::*;

use crate::float_bits::{lemma_small_integer_is_single, nearest_single, F32};

verus! {

pub const BRICK_DIM: u32 = 8;

pub const BRICKS_PER_AXIS: u32 = 8;

pub const VOXEL_TERRAIN_GRID_DIM: u32 = 64;

/// Voxels in the whole grid.
pub const VOXEL_COUNT: usize = 262144;

/// Words that one brick packs into, four voxels each.
pub const RAW_WORDS_PER_BRICK: usize = 128;

pub const MAT_AIR: u8 = 0;

pub const MAT_GRASS: u8 = 1;

pub const MAT_DIRT: u8 = 2;

pub const MAT_STONE: u8 = 3;

pub const MAT_ORE: u8 = 4;

/// Smallest hash that marks an ore voxel, out of 2^32.
pub const ORE_HASH_FLOOR: u32 = 4262755200;

const HASH_X: u32 = 374761393;

const HASH_Y: u32 = 668265263;

const HASH_Z: u32 = 2654435761;

const HASH_SEED: u32 = 2246822519;

const HASH_MIX: u32 = 3266489917;

/// Mixes the seed for the ore hash apart from the one for the hills.
const ORE_SEED: u32 = 0x1234_5678;

/// Mixes the seed for the caves apart from the others.
const CAVE_SEED: u32 = 0x5bd1_e995;

/// Edge of the cells that have one cave each.
pub const CAVE_CELL: u32 = 16;

/// Product of two words, modulo 2^32.
pub open spec fn word_product(a: u32, b: u32) -> u32 {
    ((a * b) % 0x1_0000_0000) as u32
}

/// Lattice hash of a voxel: the coordinates and the seed combined linearly
/// modulo 2^32, then mixed.
pub open spec fn lattice_hash(x: int, y: int, z: int, seed: int) -> u32 {
    let h = ((x * 374761393 + y * 668265263 + z * 2654435761 + seed * 2246822519) % 0x1_0000_0000)
        as u32;
    let h = word_product(h ^ (h >> 15), 2246822519);
    let h = word_product(h ^ (h >> 13), 3266489917);
    h ^ (h >> 16)
}

fn product(a: u32, b: u32) -> (r: u32)
    ensures
        r == word_product(a, b),
{
    a.wrapping_mul(b)
}

fn sum(a: u32, b: u32) -> (r: u32)
    ensures
        r == (a + b) % 0x1_0000_0000,
{
    a.wrapping_add(b)
}

fn combine(x: u32, y: u32, z: u32, seed: u32) -> (h: u32)
    ensures
        h == (x * 374761393 + y * 668265263 + z * 2654435761 + seed * 2246822519)
            % 0x1_0000_0000,
{
    let a: u32 = product(x, HASH_X);
    let b: u32 = product(y, HASH_Y);
    let c: u32 = product(z, HASH_Z);
    let d: u32 = product(seed, HASH_SEED);
    proof {
        lemma_mod_sum(x * 374761393, y * 668265263, z * 2654435761, seed * 2246822519);
    }
    sum(sum(sum(a, b), c), d)
}

fn voxel_hash(x: u32, y: u32, z: u32, seed: u32) -> (h: u32)
    ensures
        h == lattice_hash(x as int, y as int, z as int, seed as int),
{
    let h: u32 = combine(x, y, z, seed);
    let h: u32 = product(h ^ (h >> 15), HASH_SEED);
    let h: u32 = product(h ^ (h >> 13), HASH_MIX);
    h ^ (h >> 16)
}

/// The word that stands for an integer modulo 2^32.
fn word(x: i32) -> (w: u32)
    ensures
        w == (x as int) % 0x1_0000_0000,
{
    proof {
        assert(x < 0 ==> x as u32 == x + 0x1_0000_0000) by (bit_vector);
        assert(x >= 0 ==> x as u32 == x) by (bit_vector);
    }
    x as u32
}

/// Lattice hash of any point with whole coordinates, of either sign.
pub fn hash(x: i32, y: i32, z: i32, seed: u32) -> (h: u32)
    ensures
        h == lattice_hash(x as int, y as int, z as int, seed as int),
{
    proof {
        let m = 0x1_0000_0000int;
        let (a, b, c, d) = (x * 374761393, y * 668265263, z * 2654435761, seed * 2246822519);
        let a2 = ((x as int) % m) * 374761393;
        let b2 = ((y as int) % m) * 668265263;
        let c2 = ((z as int) % m) * 2654435761;
        vstd::arithmetic::div_mod::lemma_mul_mod_noop_left(x as int, 374761393, m);
        vstd::arithmetic::div_mod::lemma_mul_mod_noop_left(y as int, 668265263, m);
        vstd::arithmetic::div_mod::lemma_mul_mod_noop_left(z as int, 2654435761, m);
        lemma_mod_sum(a, b, c, d);
        lemma_mod_sum(a2, b2, c2, d);
    }
    voxel_hash(word(x), word(y), word(z), seed)
}

proof fn lemma_mod_sum(a: int, b: int, c: int, d: int)
    ensures
        ({
            let m = 0x1_0000_0000int;
            (((a % m + b % m) % m + c % m) % m + d % m) % m == (a + b + c + d) % m
        }),
{
    let m = 0x1_0000_0000int;
    vstd::arithmetic::div_mod::lemma_add_mod_noop(a, b, m);
    vstd::arithmetic::div_mod::lemma_add_mod_noop(a + b, c, m);
    vstd::arithmetic::div_mod::lemma_add_mod_noop(a + b + c, d, m);
}

/// Place of a voxel in the dense grid.
pub open spec fn spec_idx(x: int, y: int, z: int) -> int {
    x + y * VOXEL_TERRAIN_GRID_DIM + z * VOXEL_TERRAIN_GRID_DIM * VOXEL_TERRAIN_GRID_DIM
}

pub open spec fn spec_in_bounds(x: int, y: int, z: int) -> bool {
    &&& 0 <= x < VOXEL_TERRAIN_GRID_DIM
    &&& 0 <= y < VOXEL_TERRAIN_GRID_DIM
    &&& 0 <= z < VOXEL_TERRAIN_GRID_DIM
}

/// A surface height lies below level `n`.
pub open spec fn below(height: F32, n: int) -> bool {
    !height.spec_is_nan() && height.units() < n * pow2(149)
}

/// Centre of the cave in a cell. The cave lies in the cell as a whole, and low in it.
pub open spec fn chamber(cx: int, cy: int, cz: int, seed: u32) -> (int, int, int) {
    let h = lattice_hash(cx, cy, cz, (seed ^ 0x5bd1_e995) as int) as int;
    (
        CAVE_CELL * cx + 2 + h % 12,
        CAVE_CELL * cy + 2 + (h / 12) % 8,
        CAVE_CELL * cz + 2 + (h / 96) % 12,
    )
}

/// The voxel lies in the cave of its cell, a ball with a radius of two voxels. Caves are
/// that small and that far apart so that a brick's surface stays within its budget.
pub open spec fn carved(x: int, y: int, z: int, seed: u32) -> bool {
    let c = chamber(x / 16, y / 16, z / 16, seed);
    (x - c.0) * (x - c.0) + (y - c.1) * (y - c.1) + (z - c.2) * (z - c.2) <= 4
}

/// Material of the voxel at depth in a column of the given surface height: air
/// above the surface, then one voxel of grass, three of dirt, and stone with caves
/// in it, and with ore where the lattice hash is high.
pub open spec fn generated_material(height: F32, x: int, y: int, z: int, seed: u32) -> u8 {
    if below(height, y) {
        MAT_AIR
    } else if below(height, y + 1) {
        MAT_GRASS
    } else if below(height, y + 4) {
        MAT_DIRT
    } else if carved(x, y, z, seed) {
        MAT_AIR
    } else if lattice_hash(x, y, z, (seed ^ 0x1234_5678) as int) >= ORE_HASH_FLOOR {
        MAT_ORE
    } else {
        MAT_STONE
    }
}

/// Square of the distance between two coordinates.
fn distance_squared(a: u32, b: u32) -> (d: u32)
    requires
        a < VOXEL_TERRAIN_GRID_DIM,
        b < VOXEL_TERRAIN_GRID_DIM,
    ensures
        d == (a - b) * (a - b),
        d < 4096,
{
    let apart: u32 = if a < b {
        b - a
    } else {
        a - b
    };
    proof {
        assert(apart * apart == (a - b) * (a - b)) by (nonlinear_arith)
            requires
                apart == a - b || apart == b - a,
        ;
        assert(apart * apart < 4096) by (nonlinear_arith)
            requires
                0 <= apart < 64,
        ;
    }
    apart * apart
}

fn is_carved(x: u32, y: u32, z: u32, seed: u32) -> (air: bool)
    requires
        spec_in_bounds(x as int, y as int, z as int),
    ensures
        air == carved(x as int, y as int, z as int, seed),
{
    let (cx, cy, cz): (u32, u32, u32) = (x / 16, y / 16, z / 16);
    let h: u32 = voxel_hash(cx, cy, cz, seed ^ CAVE_SEED);
    let dx: u32 = distance_squared(x, CAVE_CELL * cx + 2 + h % 12);
    let dy: u32 = distance_squared(y, CAVE_CELL * cy + 2 + (h / 12) % 8);
    let dz: u32 = distance_squared(z, CAVE_CELL * cz + 2 + (h / 96) % 12);
    dx + dy + dz <= 4
}

fn is_below(height: F32, n: u32) -> (b: bool)
    requires
        n < 0x100_0000,
    ensures
        b == below(height, n as int),
{
    proof {
        lemma_small_integer_is_single(n as int);
    }
    height.lt(F32::from_u32(n))
}

/// Bricks from `min` to `max` along each axis, both included.
#[derive(Clone, Copy)]
pub struct BrickRange {
    pub min: [u32; 3],
    pub max: [u32; 3],
}

impl BrickRange {
    /// The range lies in the grid.
    pub open spec fn wf(self) -> bool {
        forall|a: int|
            0 <= a < 3 ==> (#[trigger] self.min[a]) < BRICKS_PER_AXIS && self.max[a]
                < BRICKS_PER_AXIS
    }

    /// Every brick of the grid.
    pub fn all() -> (range: BrickRange)
        ensures
            range.wf(),
            forall|a: int|
                0 <= a < 3 ==> (#[trigger] range.min[a]) == 0 && range.max[a] == BRICKS_PER_AXIS
                    - 1,
    {
        BrickRange { min: [0, 0, 0], max: [7, 7, 7] }
    }
}

/// Dense voxel material grid.
pub struct VoxelTerrain {
    pub materials: Vec<u8>,
}

impl VoxelTerrain {
    pub open spec fn wf(&self) -> bool {
        self.materials@.len() == VOXEL_COUNT
    }

    /// Material of the voxel at (x, y, z).
    pub open spec fn material(&self, x: int, y: int, z: int) -> u8 {
        self.materials@[spec_idx(x, y, z)]
    }

    pub fn empty() -> (terrain: Self)
        ensures
            terrain.wf(),
            forall|x: int, y: int, z: int|
                spec_in_bounds(x, y, z) ==> #[trigger] terrain.material(x, y, z) == MAT_AIR,
    {
        let terrain = VoxelTerrain { materials: vec![MAT_AIR;VOXEL_COUNT] };
        assert forall|x: int, y: int, z: int| spec_in_bounds(x, y, z) implies #[trigger]
        terrain.material(x, y, z) == MAT_AIR by {
            lemma_idx(x, y, z);
        }
        terrain
    }

    pub fn idx(x: u32, y: u32, z: u32) -> (place: usize)
        requires
            spec_in_bounds(x as int, y as int, z as int),
        ensures
            place == spec_idx(x as int, y as int, z as int),
            place < VOXEL_COUNT,
    {
        proof {
            lemma_idx(x as int, y as int, z as int);
        }
        (x + y * VOXEL_TERRAIN_GRID_DIM + z * VOXEL_TERRAIN_GRID_DIM * VOXEL_TERRAIN_GRID_DIM)
            as usize
    }

    pub fn in_bounds(x: i32, y: i32, z: i32) -> (inside: bool)
        ensures
            inside == spec_in_bounds(x as int, y as int, z as int),
    {
        x >= 0 && y >= 0 && z >= 0 && (x as u32) < VOXEL_TERRAIN_GRID_DIM && (y as u32)
            < VOXEL_TERRAIN_GRID_DIM && (z as u32) < VOXEL_TERRAIN_GRID_DIM
    }
}

proof fn lemma_idx(x: int, y: int, z: int)
    requires
        spec_in_bounds(x, y, z),
    ensures
        0 <= spec_idx(x, y, z) < VOXEL_COUNT,
{
}

/// Different voxels have different places.
pub proof fn lemma_idx_injective(x: int, y: int, z: int, u: int, v: int, w: int)
    requires
        spec_in_bounds(x, y, z),
        spec_in_bounds(u, v, w),
        spec_idx(x, y, z) == spec_idx(u, v, w),
    ensures
        x == u && y == v && z == w,
{
}

impl VoxelTerrain {
    /// The grid holds hills of the given column heights.
    pub open spec fn holds_hills(&self, heights: Seq<F32>, seed: u32) -> bool {
        forall|x: int, y: int, z: int|
            spec_in_bounds(x, y, z) ==> #[trigger] self.material(x, y, z) == generated_material(
                heights[VOXEL_TERRAIN_GRID_DIM * x + z],
                x,
                y,
                z,
                seed,
            )
    }

    /// Fills the grid with hills of the given column heights, in layers of grass,
    /// dirt and stone with caves and ore. The column at (x, z) has the height at `64 x + z`.
    pub fn generate(&mut self, heights: &[F32], seed: u32)
        requires
            old(self).wf(),
            heights@.len() == VOXEL_TERRAIN_GRID_DIM * VOXEL_TERRAIN_GRID_DIM,
        ensures
            final(self).wf(),
            final(self).holds_hills(heights@, seed),
    {
        let mut place: usize = 0;
        while place < VOXEL_COUNT
            invariant
                0 <= place <= VOXEL_COUNT,
                self.wf(),
                heights@.len() == 4096,
                forall|i: int| #![trigger self.materials@[i]]
                    0 <= i < place ==> self.materials@[i] == generated_material(
                        heights@[64 * (i % 64) + i / 4096],
                        i % 64,
                        (i / 64) % 64,
                        i / 4096,
                        seed,
                    ),
            decreases VOXEL_COUNT - place,
        {
            let x: u32 = (place % 64) as u32;
            let y: u32 = ((place / 64) % 64) as u32;
            let z: u32 = (place / 4096) as u32;
            let height: F32 = heights[(64 * x + z) as usize];
            let material: u8 = if is_below(height, y) {
                MAT_AIR
            } else if is_below(height, y + 1) {
                MAT_GRASS
            } else if is_below(height, y + 4) {
                MAT_DIRT
            } else if is_carved(x, y, z, seed) {
                MAT_AIR
            } else if voxel_hash(x, y, z, seed ^ ORE_SEED) >= ORE_HASH_FLOOR {
                MAT_ORE
            } else {
                MAT_STONE
            };
            self.materials.set(place, material);
            place = place + 1;
        }
        assert forall|x: int, y: int, z: int| spec_in_bounds(x, y, z) implies #[trigger]
        self.material(x, y, z) == generated_material(
            heights@[VOXEL_TERRAIN_GRID_DIM * x + z],
            x,
            y,
            z,
            seed,
        ) by {
            let i = spec_idx(x, y, z);
            assert(i % 64 == x && (i / 64) % 64 == y && i / 4096 == z);
            assert(self.materials@[i] == generated_material(heights@[64 * x + z], x, y, z, seed));
        }
    }
}

/// Whatever the seed, a terrain whose hills are high enough has a cave in every cell at
/// its foot: the column through the cave's centre has air there and ground above it.
pub proof fn lemma_hills_have_caves(heights: Seq<F32>, seed: u32, cx: int, cz: int)
    requires
        heights.len() == VOXEL_TERRAIN_GRID_DIM * VOXEL_TERRAIN_GRID_DIM,
        0 <= cx < 4,
        0 <= cz < 4,
        forall|i: int| 0 <= i < heights.len() ==> !below(#[trigger] heights[i], 13),
    ensures
        ({
            let (x, y, z) = chamber(cx, 0, cz, seed);
            let height = heights[VOXEL_TERRAIN_GRID_DIM * x + z];
            &&& spec_in_bounds(x, y, z)
            &&& spec_in_bounds(x, y + 3, z)
            &&& generated_material(height, x, y, z, seed) == MAT_AIR
            &&& generated_material(height, x, y + 3, z, seed) != MAT_AIR
        }),
{
    let (x, y, z) = chamber(cx, 0, cz, seed);
    assert(x / 16 == cx && z / 16 == cz && y / 16 == 0 && (y + 3) / 16 == 0);
    let height = heights[VOXEL_TERRAIN_GRID_DIM * x + z];
    assert(!below(height, 13));
    assert forall|n: int| n <= 13 implies !#[trigger] below(height, n) by {
        vstd::arithmetic::mul::lemma_mul_inequality(n, 13, pow2(149) as int);
    }
    assert(carved(x, y, z, seed));
    assert(!carved(x, y + 3, z, seed)) by {
        let d = y + 3 - y;
        assert(d * d == 9) by (nonlinear_arith)
            requires
                d == 3,
        ;
        assert(chamber(x / 16, (y + 3) / 16, z / 16, seed) == (x, y, z));
    }
    assert(!below(height, y) && !below(height, y + 1) && !below(height, y + 4));
    assert(!below(height, y + 3));
}

/// Squared distance of a voxel from the centre.
pub open spec fn offset_squared(center: [i32; 3], x: int, y: int, z: int) -> int {
    (x - center[0]) * (x - center[0]) + (y - center[1]) * (y - center[1]) + (z - center[2]) * (z
        - center[2])
}

/// A squared distance exceeds the squared radius, the distance taken as the
/// nearest single-precision number.
pub open spec fn beyond(radius_squared: F32, d2: int) -> bool {
    !radius_squared.spec_is_nan() && radius_squared.units() < nearest_single(d2) * pow2(149)
}

/// A voxel of the grid that a sphere edit changes.
pub open spec fn painted(
    center: [i32; 3],
    reach: int,
    radius_squared: F32,
    x: int,
    y: int,
    z: int,
) -> bool {
    &&& spec_in_bounds(x, y, z)
    &&& -reach <= x - center[0] <= reach
    &&& -reach <= y - center[1] <= reach
    &&& -reach <= z - center[2] <= reach
    &&& !beyond(radius_squared, offset_squared(center, x, y, z))
}

/// (x, y, z) comes before (u, v, w) when slabs, rows and voxels are walked in order.
spec fn before(x: int, y: int, z: int, u: int, v: int, w: int) -> bool {
    z < w || (z == w && (y < v || (y == v && x < u)))
}

/// The bounds enclose every member of `p` and each is reached by one.
spec fn tight(
    p: spec_fn(int, int, int) -> bool,
    x0: int,
    x1: int,
    y0: int,
    y1: int,
    z0: int,
    z1: int,
) -> bool {
    &&& forall|x: int, y: int, z: int| #[trigger]
        p(x, y, z) ==> x0 <= x <= x1 && y0 <= y <= y1 && z0 <= z <= z1
    &&& exists|x: int, y: int, z: int| #[trigger] p(x, y, z) && x == x0
    &&& exists|x: int, y: int, z: int| #[trigger] p(x, y, z) && x == x1
    &&& exists|x: int, y: int, z: int| #[trigger] p(x, y, z) && y == y0
    &&& exists|x: int, y: int, z: int| #[trigger] p(x, y, z) && y == y1
    &&& exists|x: int, y: int, z: int| #[trigger] p(x, y, z) && z == z0
    &&& exists|x: int, y: int, z: int| #[trigger] p(x, y, z) && z == z1
}

spec fn least(a: int, b: int) -> int {
    if b < a {
        b
    } else {
        a
    }
}

spec fn greatest(a: int, b: int) -> int {
    if b > a {
        b
    } else {
        a
    }
}

/// Bounds stay tight when one member joins and each bound gives way to it.
proof fn lemma_tight_grows(
    p: spec_fn(int, int, int) -> bool,
    q: spec_fn(int, int, int) -> bool,
    b: (int, int, int, int, int, int),
    x: int,
    y: int,
    z: int,
)
    requires
        tight(p, b.0, b.1, b.2, b.3, b.4, b.5),
        forall|u: int, v: int, w: int| #[trigger]
            q(u, v, w) <==> p(u, v, w) || (u == x && v == y && w == z),
    ensures
        tight(
            q,
            least(b.0, x),
            greatest(b.1, x),
            least(b.2, y),
            greatest(b.3, y),
            least(b.4, z),
            greatest(b.5, z),
        ),
{
    assert(q(x, y, z));
    let (u, v, w) = choose|u: int, v: int, w: int| #[trigger] p(u, v, w) && u == b.0;
    assert(q(u, v, w));
    let (u, v, w) = choose|u: int, v: int, w: int| #[trigger] p(u, v, w) && u == b.1;
    assert(q(u, v, w));
    let (u, v, w) = choose|u: int, v: int, w: int| #[trigger] p(u, v, w) && v == b.2;
    assert(q(u, v, w));
    let (u, v, w) = choose|u: int, v: int, w: int| #[trigger] p(u, v, w) && v == b.3;
    assert(q(u, v, w));
    let (u, v, w) = choose|u: int, v: int, w: int| #[trigger] p(u, v, w) && w == b.4;
    assert(q(u, v, w));
    let (u, v, w) = choose|u: int, v: int, w: int| #[trigger] p(u, v, w) && w == b.5;
    assert(q(u, v, w));
}

/// The bricks that a sphere edit touches along each axis: every changed voxel
/// lies in the range, and both ends of it hold one.
pub open spec fn touches(
    range: BrickRange,
    center: [i32; 3],
    reach: int,
    radius_squared: F32,
) -> bool {
    &&& forall|x: int, y: int, z: int| #[trigger]
        painted(center, reach, radius_squared, x, y, z) ==> {
            &&& range.min[0] <= x / 8 <= range.max[0]
            &&& range.min[1] <= y / 8 <= range.max[1]
            &&& range.min[2] <= z / 8 <= range.max[2]
        }
    &&& exists|x: int, y: int, z: int| #[trigger]
        painted(center, reach, radius_squared, x, y, z) && x / 8 == range.min[0]
    &&& exists|x: int, y: int, z: int| #[trigger]
        painted(center, reach, radius_squared, x, y, z) && x / 8 == range.max[0]
    &&& exists|x: int, y: int, z: int| #[trigger]
        painted(center, reach, radius_squared, x, y, z) && y / 8 == range.min[1]
    &&& exists|x: int, y: int, z: int| #[trigger]
        painted(center, reach, radius_squared, x, y, z) && y / 8 == range.max[1]
    &&& exists|x: int, y: int, z: int| #[trigger]
        painted(center, reach, radius_squared, x, y, z) && z / 8 == range.min[2]
    &&& exists|x: int, y: int, z: int| #[trigger]
        painted(center, reach, radius_squared, x, y, z) && z / 8 == range.max[2]
}

/// A grid coordinate within `reach` of `c`.
spec fn near(c: int, reach: int, v: int) -> bool {
    0 <= v < VOXEL_TERRAIN_GRID_DIM && -reach <= v - c <= reach
}

/// Part of an axis of the grid within `reach` of `c`, end excluded.
fn clip(c: i32, reach: i32) -> (span: (i32, i32))
    requires
        reach <= 26754,
        i32::MIN <= c - reach,
        c + reach < i32::MAX,
        0 <= reach,
    ensures
        0 <= span.0,
        span.1 <= VOXEL_TERRAIN_GRID_DIM,
        forall|v: int| span.0 <= v < span.1 <==> #[trigger] near(c as int, reach as int, v),
{
    let lo: i32 = if c - reach < 0 {
        0
    } else {
        c - reach
    };
    let hi: i32 = if c + reach + 1 > 64 {
        64
    } else {
        c + reach + 1
    };
    (lo, hi)
}

/// Whether a voxel within reach of the centre lies in the sphere.
fn reaches(center: [i32; 3], radius_squared: F32, x: i32, y: i32, z: i32) -> (inside: bool)
    requires
        -26754 <= x - center[0] <= 26754,
        -26754 <= y - center[1] <= 26754,
        -26754 <= z - center[2] <= 26754,
    ensures
        inside == !beyond(
            radius_squared,
            offset_squared(center, x as int, y as int, z as int),
        ),
{
    let dx: i32 = x - center[0];
    let dy: i32 = y - center[1];
    let dz: i32 = z - center[2];
    proof {
        assert(0 <= dx * dx <= 26754 * 26754) by (nonlinear_arith)
            requires
                -26754 <= dx <= 26754,
        ;
        assert(0 <= dy * dy <= 26754 * 26754) by (nonlinear_arith)
            requires
                -26754 <= dy <= 26754,
        ;
        assert(0 <= dz * dz <= 26754 * 26754) by (nonlinear_arith)
            requires
                -26754 <= dz <= 26754,
        ;
    }
    let d2: u32 = (dx * dx + dy * dy + dz * dz) as u32;
    !radius_squared.lt(F32::from_u32(d2))
}

impl VoxelTerrain {
    /// `after` is `self` with a sphere filled; `range` holds the bricks that it touches.
    pub open spec fn sphere_painted(
        &self,
        after: &VoxelTerrain,
        center: [i32; 3],
        reach: int,
        radius_squared: F32,
        fill: u8,
        range: Option<BrickRange>,
    ) -> bool {
        &&& forall|x: int, y: int, z: int|
            spec_in_bounds(x, y, z) ==> #[trigger] after.material(x, y, z) == (if painted(
                center,
                reach,
                radius_squared,
                x,
                y,
                z,
            ) {
                fill
            } else {
                self.material(x, y, z)
            })
        &&& match range {
            None => forall|x: int, y: int, z: int|
                !#[trigger] painted(center, reach, radius_squared, x, y, z),
            Some(r) => r.wf() && touches(r, center, reach, radius_squared),
        }
    }

    /// Applies a sphere edit: fills with `material`, or clears to air unless
    /// `add`. `center` is the centre rounded down, `reach` the radius rounded up.
    /// Returns the touched bricks for partial rebaking.
    pub fn paint_sphere(
        &mut self,
        center: [i32; 3],
        reach: i32,
        radius_squared: F32,
        material: u8,
        add: bool,
    ) -> (range: Option<BrickRange>)
        requires
            old(self).wf(),
            reach <= 26754,
            forall|a: int|
                0 <= a < 3 ==> i32::MIN <= (#[trigger] center[a]) - reach && center[a] + reach
                    < i32::MAX,
        ensures
            final(self).wf(),
            old(self).sphere_painted(
                final(self),
                center,
                reach as int,
                radius_squared,
                if add {
                    material
                } else {
                    MAT_AIR
                },
                range,
            ),
    {
        if reach < 0 {
            return None;
        }
        let fill: u8 = if add {
            material
        } else {
            MAT_AIR
        };
        let (lo_x, hi_x) = clip(center[0], reach);
        let (lo_y, hi_y) = clip(center[1], reach);
        let (lo_z, hi_z) = clip(center[2], reach);
        assert forall|u: int, v: int, w: int| #[trigger]
            painted(center, reach as int, radius_squared, u, v, w) implies lo_x <= u < hi_x && lo_y
            <= v < hi_y && lo_z <= w < hi_z by {
            assert(near(center[0] as int, reach as int, u));
            assert(near(center[1] as int, reach as int, v));
            assert(near(center[2] as int, reach as int, w));
        }
        if lo_x >= hi_x || lo_y >= hi_y || lo_z >= hi_z {
            return None;
        }
        let ghost before_edit = *self;
        let ghost target = |x: int, y: int, z: int|
            painted(center, reach as int, radius_squared, x, y, z);
        let mut x: i32 = lo_x;
        let mut y: i32 = lo_y;
        let mut z: i32 = lo_z;
        let mut touched: bool = false;
        let mut x0: i32 = 64;
        let mut x1: i32 = -1;
        let mut y0: i32 = 64;
        let mut y1: i32 = -1;
        let mut z0: i32 = 64;
        let mut z1: i32 = -1;
        while z < hi_z
            invariant
                self.wf(),
                before_edit.wf(),
                0 <= reach <= 26754,
                target == (|x: int, y: int, z: int|
                    painted(center, reach as int, radius_squared, x, y, z)),
                0 <= lo_x < hi_x <= 64,
                0 <= lo_y < hi_y <= 64,
                0 <= lo_z < hi_z <= 64,
                lo_x <= x < hi_x,
                lo_y <= y < hi_y,
                lo_z <= z <= hi_z,
                z == hi_z ==> x == lo_x && y == lo_y,
                forall|v: int|
                    lo_x <= v < hi_x <==> #[trigger] near(center[0] as int, reach as int, v),
                forall|v: int|
                    lo_y <= v < hi_y <==> #[trigger] near(center[1] as int, reach as int, v),
                forall|v: int|
                    lo_z <= v < hi_z <==> #[trigger] near(center[2] as int, reach as int, v),
                forall|u: int, v: int, w: int|
                    spec_in_bounds(u, v, w) ==> #[trigger] self.material(u, v, w) == (if target(
                        u,
                        v,
                        w,
                    ) && before(u, v, w, x as int, y as int, z as int) {
                        fill
                    } else {
                        before_edit.material(u, v, w)
                    }),
                touched ==> tight(
                    |u: int, v: int, w: int|
                        target(u, v, w) && before(u, v, w, x as int, y as int, z as int),
                    x0 as int,
                    x1 as int,
                    y0 as int,
                    y1 as int,
                    z0 as int,
                    z1 as int,
                ),
                touched ==> 0 <= x0 <= x1 < 64 && 0 <= y0 <= y1 < 64 && 0 <= z0 <= z1 < 64,
                !touched ==> x0 == 64 && x1 == -1 && y0 == 64 && y1 == -1 && z0 == 64 && z1 == -1,
                !touched ==> forall|u: int, v: int, w: int|
                    !(#[trigger] target(u, v, w) && before(u, v, w, x as int, y as int, z as int)),
            decreases hi_z - z, hi_y - y, hi_x - x,
        {
            let ghost p = |u: int, v: int, w: int|
                target(u, v, w) && before(u, v, w, x as int, y as int, z as int);
            let ghost (ox, oy, oz) = (x as int, y as int, z as int);
            let ghost old_terrain = *self;
            let ghost was_touched = touched;
            let ghost bounds = (x0 as int, x1 as int, y0 as int, y1 as int, z0 as int, z1 as int);
            assert(near(center[0] as int, reach as int, ox));
            assert(near(center[1] as int, reach as int, oy));
            assert(near(center[2] as int, reach as int, oz));
            let inside: bool = reaches(center, radius_squared, x, y, z);
            assert(inside == target(ox, oy, oz));
            if inside {
                let place: usize = Self::idx(x as u32, y as u32, z as u32);
                self.materials.set(place, fill);
                touched = true;
                if x < x0 {
                    x0 = x;
                }
                if x > x1 {
                    x1 = x;
                }
                if y < y0 {
                    y0 = y;
                }
                if y > y1 {
                    y1 = y;
                }
                if z < z0 {
                    z0 = z;
                }
                if z > z1 {
                    z1 = z;
                }
            }
            x = x + 1;
            if x == hi_x {
                x = lo_x;
                y = y + 1;
                if y == hi_y {
                    y = lo_y;
                    z = z + 1;
                }
            }
            proof {
                let q = |u: int, v: int, w: int|
                    target(u, v, w) && before(u, v, w, x as int, y as int, z as int);
                assert forall|u: int, v: int, w: int| #[trigger] q(u, v, w) <==> p(u, v, w) || (
                inside && u == ox && v == oy && w == oz) by {
                    if target(u, v, w) {
                        assert(near(center[0] as int, reach as int, u));
                        assert(near(center[1] as int, reach as int, v));
                        assert(near(center[2] as int, reach as int, w));
                        assert(lo_x <= u < hi_x && lo_y <= v < hi_y && lo_z <= w < hi_z);
                    }
                }
                assert forall|u: int, v: int, w: int|
                    spec_in_bounds(u, v, w) implies #[trigger] self.material(u, v, w) == (if q(
                    u,
                    v,
                    w,
                ) {
                    fill
                } else {
                    before_edit.material(u, v, w)
                }) by {
                    assert(old_terrain.material(u, v, w) == if p(u, v, w) {
                        fill
                    } else {
                        before_edit.material(u, v, w)
                    });
                    lemma_idx(u, v, w);
                    lemma_idx(ox, oy, oz);
                    if inside && spec_idx(u, v, w) == spec_idx(ox, oy, oz) {
                        lemma_idx_injective(u, v, w, ox, oy, oz);
                    }
                    assert(q(u, v, w) <==> p(u, v, w) || (inside && u == ox && v == oy && w
                        == oz));
                }
                if inside {
                    assert(q(ox, oy, oz));
                    if was_touched {
                        lemma_tight_grows(p, q, bounds, ox, oy, oz);
                    } else {
                        assert forall|u: int, v: int, w: int| #[trigger] q(u, v, w) implies u == ox
                            && v == oy && w == oz by {
                            assert(!p(u, v, w));
                        }
                    }
                } else if was_touched {
                    assert forall|u: int, v: int, w: int| #[trigger] q(u, v, w) <==> p(
                        u,
                        v,
                        w,
                    ) by {}
                    assert(p =~= q);
                } else {
                    assert forall|u: int, v: int, w: int|
                        !(#[trigger] target(u, v, w) && before(
                            u,
                            v,
                            w,
                            x as int,
                            y as int,
                            z as int,
                        )) by {
                        assert(!q(u, v, w));
                    }
                }
            }
        }
        proof {
            assert forall|u: int, v: int, w: int|
                #[trigger] painted(center, reach as int, radius_squared, u, v, w) implies target(
                u,
                v,
                w,
            ) && before(u, v, w, x as int, y as int, z as int) by {
                assert(near(center[2] as int, reach as int, w));
                assert(target(u, v, w));
            }
            assert forall|u: int, v: int, w: int| spec_in_bounds(u, v, w) implies #[trigger]
            self.material(u, v, w) == (if painted(
                center,
                reach as int,
                radius_squared,
                u,
                v,
                w,
            ) {
                fill
            } else {
                old(self).material(u, v, w)
            }) by {
                assert(target(u, v, w) <==> painted(
                    center,
                    reach as int,
                    radius_squared,
                    u,
                    v,
                    w,
                ));
            }
        }
        if !touched {
            proof {
                assert forall|u: int, v: int, w: int|
                    !#[trigger] painted(center, reach as int, radius_squared, u, v, w) by {
                    if painted(center, reach as int, radius_squared, u, v, w) {
                        assert(target(u, v, w));
                    }
                }
            }
            return None;
        }
        let range = BrickRange {
            min: [x0 as u32 / BRICK_DIM, y0 as u32 / BRICK_DIM, z0 as u32 / BRICK_DIM],
            max: [x1 as u32 / BRICK_DIM, y1 as u32 / BRICK_DIM, z1 as u32 / BRICK_DIM],
        };
        proof {
            let p = |u: int, v: int, w: int|
                target(u, v, w) && before(u, v, w, x as int, y as int, z as int);
            lemma_tight_bricks(p, center, reach as int, radius_squared, range, (
                x0 as int,
                x1 as int,
                y0 as int,
                y1 as int,
                z0 as int,
                z1 as int,
            ));
        }
        Some(range)
    }
}

proof fn lemma_tight_bricks(
    p: spec_fn(int, int, int) -> bool,
    center: [i32; 3],
    reach: int,
    radius_squared: F32,
    range: BrickRange,
    b: (int, int, int, int, int, int),
)
    requires
        tight(p, b.0, b.1, b.2, b.3, b.4, b.5),
        forall|x: int, y: int, z: int| #[trigger]
            p(x, y, z) <==> painted(center, reach, radius_squared, x, y, z),
        range.min[0] == b.0 / 8,
        range.max[0] == b.1 / 8,
        range.min[1] == b.2 / 8,
        range.max[1] == b.3 / 8,
        range.min[2] == b.4 / 8,
        range.max[2] == b.5 / 8,
    ensures
        touches(range, center, reach, radius_squared),
{
    assert forall|x: int, y: int, z: int| #[trigger]
        painted(center, reach, radius_squared, x, y, z) implies {
        &&& range.min[0] <= x / 8 <= range.max[0]
        &&& range.min[1] <= y / 8 <= range.max[1]
        &&& range.min[2] <= z / 8 <= range.max[2]
    } by {
        assert(p(x, y, z));
    }
    let (x, y, z) = choose|x: int, y: int, z: int| #[trigger] p(x, y, z) && x == b.0;
    assert(painted(center, reach, radius_squared, x, y, z));
    let (x, y, z) = choose|x: int, y: int, z: int| #[trigger] p(x, y, z) && x == b.1;
    assert(painted(center, reach, radius_squared, x, y, z));
    let (x, y, z) = choose|x: int, y: int, z: int| #[trigger] p(x, y, z) && y == b.2;
    assert(painted(center, reach, radius_squared, x, y, z));
    let (x, y, z) = choose|x: int, y: int, z: int| #[trigger] p(x, y, z) && y == b.3;
    assert(painted(center, reach, radius_squared, x, y, z));
    let (x, y, z) = choose|x: int, y: int, z: int| #[trigger] p(x, y, z) && z == b.4;
    assert(painted(center, reach, radius_squared, x, y, z));
    let (x, y, z) = choose|x: int, y: int, z: int| #[trigger] p(x, y, z) && z == b.5;
    assert(painted(center, reach, radius_squared, x, y, z));
}

/// Coordinates of a brick.
pub type BrickCoords = (u32, u32, u32);

pub open spec fn brick_in_grid(b: BrickCoords) -> bool {
    b.0 < BRICKS_PER_AXIS && b.1 < BRICKS_PER_AXIS && b.2 < BRICKS_PER_AXIS
}

/// Four material bytes in one word, the first in the lowest byte.
pub open spec fn pack(a: u8, b: u8, c: u8, d: u8) -> u32 {
    (a as u32) | ((b as u32) << 8) | ((c as u32) << 16) | ((d as u32) << 24)
}

/// Each byte of a packed word gives back its material.
pub proof fn lemma_pack_bytes(a: u8, b: u8, c: u8, d: u8)
    by (bit_vector)
    ensures
        pack(a, b, c, d) & 0xff == a,
        (pack(a, b, c, d) >> 8) & 0xff == b,
        (pack(a, b, c, d) >> 16) & 0xff == c,
        (pack(a, b, c, d) >> 24) & 0xff == d,
{
}

/// Material of a brick's voxel, voxels counted along x, then y, then z.
pub open spec fn brick_material(terrain: &VoxelTerrain, b: BrickCoords, linear: int) -> u8 {
    terrain.material(
        b.0 * BRICK_DIM + linear % 8,
        b.1 * BRICK_DIM + (linear / 8) % 8,
        b.2 * BRICK_DIM + linear / 64,
    )
}

/// The `w`-th packed word of a brick.
pub open spec fn brick_word(terrain: &VoxelTerrain, b: BrickCoords, w: int) -> u32 {
    pack(
        brick_material(terrain, b, 4 * w),
        brick_material(terrain, b, 4 * w + 1),
        brick_material(terrain, b, 4 * w + 2),
        brick_material(terrain, b, 4 * w + 3),
    )
}

/// Some voxel of the brick is not air.
pub open spec fn brick_occupied(terrain: &VoxelTerrain, b: BrickCoords) -> bool {
    exists|linear: int|
        0 <= linear < 512 && #[trigger] brick_material(terrain, b, linear) != MAT_AIR
}

/// One baked brick.
pub struct CanonicalBrick {
    pub index: u32,
    pub occupied: bool,
    pub words: [u32; 128],
}

impl CanonicalBrick {
    /// The brick at `b`, baked from `terrain`.
    pub open spec fn baked(&self, terrain: &VoxelTerrain, b: BrickCoords) -> bool {
        &&& self.index == b.2 * BRICKS_PER_AXIS * BRICKS_PER_AXIS + b.1 * BRICKS_PER_AXIS + b.0
        &&& self.occupied == brick_occupied(terrain, b)
        &&& forall|w: int|
            0 <= w < RAW_WORDS_PER_BRICK ==> #[trigger] self.words[w] == brick_word(terrain, b, w)
    }
}

/// Number of bricks of a range along axis `a`.
pub open spec fn brick_span(range: BrickRange, a: int) -> nat {
    if range.min[a] <= range.max[a] {
        (range.max[a] - range.min[a] + 1) as nat
    } else {
        0
    }
}

/// Bricks of one row of a range.
pub open spec fn brick_row(range: BrickRange, by: int, bz: int) -> Seq<BrickCoords> {
    Seq::new(
        brick_span(range, 0),
        |i: int| ((range.min[0] + i) as u32, by as u32, bz as u32),
    )
}

/// Bricks of the first `n` rows of a slab.
pub open spec fn brick_rows(range: BrickRange, n: nat, bz: int) -> Seq<BrickCoords>
    decreases n,
{
    if n == 0 {
        Seq::empty()
    } else {
        brick_rows(range, (n - 1) as nat, bz) + brick_row(range, range.min[1] + n - 1, bz)
    }
}

/// Bricks of the first `n` slabs of a range.
pub open spec fn brick_slabs(range: BrickRange, n: nat) -> Seq<BrickCoords>
    decreases n,
{
    if n == 0 {
        Seq::empty()
    } else {
        brick_slabs(range, (n - 1) as nat) + brick_rows(
            range,
            brick_span(range, 1),
            range.min[2] + n - 1,
        )
    }
}

/// All bricks of a range, along x first, then y, then z.
pub open spec fn bricks_of(range: BrickRange) -> Seq<BrickCoords> {
    brick_slabs(range, brick_span(range, 2))
}

spec fn all_baked(
    terrain: &VoxelTerrain,
    bricks: Seq<CanonicalBrick>,
    coords: Seq<BrickCoords>,
) -> bool {
    &&& bricks.len() == coords.len()
    &&& forall|n: int| 0 <= n < bricks.len() ==> (#[trigger] bricks[n]).baked(terrain, coords[n])
}

impl VoxelTerrain {
    fn brick_voxel(&self, bx: u32, by: u32, bz: u32, linear: u32) -> (material: u8)
        requires
            self.wf(),
            brick_in_grid((bx, by, bz)),
            linear < 512,
        ensures
            material == brick_material(self, (bx, by, bz), linear as int),
    {
        let place: usize = Self::idx(
            bx * BRICK_DIM + linear % 8,
            by * BRICK_DIM + (linear / 8) % 8,
            bz * BRICK_DIM + linear / 64,
        );
        self.materials[place]
    }

    /// Packs one brick's materials into `data_out` and tells whether any voxel of
    /// it is not air.
    pub fn bake_brick(&self, bx: u32, by: u32, bz: u32, data_out: &mut [u32; 128]) -> (occupied:
        bool)
        requires
            self.wf(),
            brick_in_grid((bx, by, bz)),
        ensures
            occupied == brick_occupied(self, (bx, by, bz)),
            forall|w: int|
                0 <= w < RAW_WORDS_PER_BRICK ==> #[trigger] final(data_out)[w] == old(data_out)[w]
                    | brick_word(self, (bx, by, bz), w),
    {
        let ghost b = (bx, by, bz);
        let mut occupied: bool = false;
        let mut w: usize = 0;
        while w < RAW_WORDS_PER_BRICK
            invariant
                self.wf(),
                b == (bx, by, bz),
                brick_in_grid(b),
                0 <= w <= RAW_WORDS_PER_BRICK,
                forall|v: int|
                    0 <= v < w ==> #[trigger] data_out[v] == old(data_out)[v] | brick_word(
                        self,
                        b,
                        v,
                    ),
                forall|v: int| w <= v < RAW_WORDS_PER_BRICK ==> data_out[v] == old(data_out)[v],
                occupied <==> exists|linear: int|
                    0 <= linear < 4 * w && #[trigger] brick_material(self, b, linear) != MAT_AIR,
            decreases RAW_WORDS_PER_BRICK - w,
        {
            let first: u32 = 4 * (w as u32);
            let m0: u8 = self.brick_voxel(bx, by, bz, first);
            let m1: u8 = self.brick_voxel(bx, by, bz, first + 1);
            let m2: u8 = self.brick_voxel(bx, by, bz, first + 2);
            let m3: u8 = self.brick_voxel(bx, by, bz, first + 3);
            let ghost was = occupied;
            if m0 != MAT_AIR || m1 != MAT_AIR || m2 != MAT_AIR || m3 != MAT_AIR {
                occupied = true;
            }
            proof {
                if was {
                    let linear = choose|linear: int|
                        0 <= linear < 4 * w && #[trigger] brick_material(self, b, linear)
                            != MAT_AIR;
                    assert(brick_material(self, b, linear) != MAT_AIR);
                }
                assert forall|linear: int|
                    0 <= linear < 4 * (w + 1) && #[trigger] brick_material(self, b, linear)
                        != MAT_AIR implies occupied by {
                    if linear >= 4 * w {
                        assert(linear == first || linear == first + 1 || linear == first + 2
                            || linear == first + 3);
                    }
                }
            }
            let word: u32 = (m0 as u32) | ((m1 as u32) << 8) | ((m2 as u32) << 16) | ((m3 as u32)
                << 24);
            data_out[w] = data_out[w] | word;
            w = w + 1;
        }
        occupied
    }

    /// `bricks` holds every brick of the range, baked.
    pub open spec fn bricks_listed(&self, bricks: Seq<CanonicalBrick>, range: BrickRange) -> bool {
        &&& bricks.len() == bricks_of(range).len()
        &&& forall|n: int|
            0 <= n < bricks.len() ==> (#[trigger] bricks[n]).baked(self, bricks_of(range)[n])
    }

    /// Bakes every brick of `range`, in order.
    pub fn canonical_bricks(&self, range: BrickRange) -> (bricks: Vec<CanonicalBrick>)
        requires
            self.wf(),
            range.wf(),
        ensures
            self.bricks_listed(bricks@, range),
    {
        let mut bricks: Vec<CanonicalBrick> = Vec::new();
        assert(range.min[0] < 8 && range.min[1] < 8 && range.min[2] < 8);
        if range.min[2] > range.max[2] {
            return bricks;
        }
        let mut bz: u32 = range.min[2];
        while bz <= range.max[2]
            invariant
                self.wf(),
                range.wf(),
                range.min[0] < 8 && range.min[1] < 8 && range.min[2] < 8,
                range.min[2] <= bz <= range.max[2] + 1,
                all_baked(self, bricks@, brick_slabs(range, (bz - range.min[2]) as nat)),
            decreases range.max[2] + 1 - bz,
        {
            self.bake_slab(range, bz, &mut bricks);
            bz = bz + 1;
        }
        bricks
    }

    fn bake_slab(&self, range: BrickRange, bz: u32, bricks: &mut Vec<CanonicalBrick>)
        requires
            self.wf(),
            range.wf(),
            bz < BRICKS_PER_AXIS,
            range.min[2] <= bz,
            all_baked(self, old(bricks)@, brick_slabs(range, (bz - range.min[2]) as nat)),
        ensures
            all_baked(self, final(bricks)@, brick_slabs(range, (bz - range.min[2] + 1) as nat)),
    {
        assert(range.min[0] < 8 && range.min[1] < 8 && range.min[2] < 8);
        let ghost done = brick_slabs(range, (bz - range.min[2]) as nat);
        assert(done + brick_rows(range, 0, bz as int) =~= done);
        if range.min[1] > range.max[1] {
            return ;
        }
        let mut by: u32 = range.min[1];
        while by <= range.max[1]
            invariant
                self.wf(),
                range.wf(),
                bz < BRICKS_PER_AXIS,
                range.min[0] < 8 && range.min[1] < 8 && range.min[2] < 8,
                range.min[1] <= by <= range.max[1] + 1,
                all_baked(
                    self,
                    bricks@,
                    done + brick_rows(range, (by - range.min[1]) as nat, bz as int),
                ),
            decreases range.max[1] + 1 - by,
        {
            let ghost so_far = done + brick_rows(range, (by - range.min[1]) as nat, bz as int);
            self.bake_row(range, by, bz, Ghost(so_far), bricks);
            assert(so_far + brick_row(range, by as int, bz as int) =~= done + brick_rows(
                range,
                (by - range.min[1] + 1) as nat,
                bz as int,
            ));
            by = by + 1;
        }
    }

    fn bake_row(
        &self,
        range: BrickRange,
        by: u32,
        bz: u32,
        Ghost(so_far): Ghost<Seq<BrickCoords>>,
        bricks: &mut Vec<CanonicalBrick>,
    )
        requires
            self.wf(),
            range.wf(),
            by < BRICKS_PER_AXIS,
            bz < BRICKS_PER_AXIS,
            all_baked(self, old(bricks)@, so_far),
        ensures
            all_baked(self, final(bricks)@, so_far + brick_row(range, by as int, bz as int)),
    {
        assert(range.min[0] < 8 && range.min[1] < 8 && range.min[2] < 8);
        let ghost row = brick_row(range, by as int, bz as int);
        assert(so_far + row.take(0) =~= so_far);
        if range.min[0] > range.max[0] {
            assert(so_far + row =~= so_far);
            return ;
        }
        let mut bx: u32 = range.min[0];
        while bx <= range.max[0]
            invariant
                self.wf(),
                range.wf(),
                by < BRICKS_PER_AXIS,
                bz < BRICKS_PER_AXIS,
                range.min[0] < 8 && range.min[1] < 8 && range.min[2] < 8,
                range.min[0] <= bx <= range.max[0] + 1,
                row == brick_row(range, by as int, bz as int),
                all_baked(self, bricks@, so_far + row.take(bx - range.min[0])),
            decreases range.max[0] + 1 - bx,
        {
            let index: u32 = bz * BRICKS_PER_AXIS * BRICKS_PER_AXIS + by * BRICKS_PER_AXIS + bx;
            let mut words: [u32; 128] = [0;128];
            let occupied: bool = self.bake_brick(bx, by, bz, &mut words);
            let ghost coords = (bx, by, bz);
            proof {
                assert forall|w: int| 0 <= w < RAW_WORDS_PER_BRICK implies #[trigger] words[w]
                    == brick_word(self, coords, w) by {
                    let v = brick_word(self, coords, w);
                    assert(0u32 | v == v) by (bit_vector);
                }
                assert(row.take(bx - range.min[0] + 1) =~= row.take(bx - range.min[0]).push(
                    coords,
                ));
            }
            let brick = CanonicalBrick { index, occupied, words };
            bricks.push(brick);
            assert(so_far + row.take(bx - range.min[0] + 1) =~= (so_far + row.take(
                bx - range.min[0],
            )).push(coords));
            bx = bx + 1;
        }
        assert(row.take(bx - range.min[0]) =~= row);
    }
}

} // verus!
