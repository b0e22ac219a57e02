//! Foliage descriptors and the rows that shaders read.
//!
//! Inputs that are not finite become inert values: a row never holds anything that
//! makes a shader drop all foliage without a trace.
use vstd::prelude::*;

use crate::float_bits::{from_bits, single, F32, ONE_BITS};
use crate::handles::{FoliageTypeId, MaterialId};
use crate::planar_reflections::at_least_zero;
use crate::words::{all_finite, every_finite, same_encodings};

verus! {

/// How an instance is drawn.
#[derive(Clone, Copy, Debug, PartialEq, Eq, Structural)]
pub enum FoliageKind {
    Blade,
    Card,
    Mesh,
}

#[derive(Clone, Copy, Debug, PartialEq, Eq, Structural)]
pub struct FoliageFlags {
    pub two_sided: bool,
    pub casts_shadow: bool,
    pub receives_interaction: bool,
}

/// What a single kind of foliage is.
#[derive(Clone, Copy, Debug)]
pub struct FoliageTypeDescriptor {
    pub kind: FoliageKind,
    /// Instances per square metre at full density weight.
    pub density: F32,
    pub height_range: [F32; 2],
    pub width_range: [F32; 2],
    /// Accepted slopes, as angles from horizontal in radians.
    pub slope_range: [F32; 2],
    pub altitude_range: [F32; 2],
    pub lod_distances: [F32; 4],
    pub wind_response: [F32; 3],
    pub interaction_stiffness: F32,
    pub material_id: MaterialId,
    pub density_layer: u32,
    pub mesh_or_impostor_id: u32,
    pub two_sided: bool,
    pub casts_shadow: bool,
    pub receives_interaction: bool,
}

/// A foliage type as shaders read it.
#[derive(Clone, Copy, Debug)]
pub struct GpuFoliageType {
    pub density: F32,
    pub height_range: [F32; 2],
    pub width_range: [F32; 2],
    /// Accepted slopes, as cosines.
    pub slope_range: [F32; 2],
    pub altitude_range: [F32; 2],
    pub lod_distances: [F32; 4],
    pub wind_response: [F32; 3],
    pub interaction_stiffness: F32,
    pub material_id: u32,
    pub density_layer: u32,
    pub kind: FoliageKind,
    pub flags: FoliageFlags,
    pub mesh_or_impostor_id: u32,
}

/// Encodings of the default parameters.
pub const DEFAULT_DENSITY: u32 = 0x4220_0000;

pub const MIN_HEIGHT: u32 = 0x3E19_999A;

pub const MAX_HEIGHT: u32 = 0x3EE6_6666;

pub const MIN_WIDTH: u32 = 0x3C23_D70A;

pub const MAX_WIDTH: u32 = 0x3CF5_C28F;

pub const QUARTER_PI: u32 = 0x3F49_0FDB;

pub const PI: u32 = 0x4049_0FDB;

pub const LOWEST: u32 = 0xFF7F_FFFF;

pub const HIGHEST: u32 = 0x7F7F_FFFF;

pub const BRANCH_RESPONSE: u32 = 0x3E99_999A;

pub const DEFAULT_STIFFNESS: u32 = 0x40C0_0000;

/// The number if it is finite, otherwise the fallback.
pub open spec fn finite_or(value: F32, fallback: F32) -> F32 {
    if value.spec_is_finite() {
        value
    } else {
        fallback
    }
}

fn finite(value: F32, fallback: F32) -> (r: F32)
    ensures
        r == finite_or(value, fallback),
{
    if value.is_finite() {
        value
    } else {
        fallback
    }
}

/// Both numbers made finite, the smaller one first.
pub open spec fn ordered_pair(pair: [F32; 2], fallback: [F32; 2]) -> [F32; 2] {
    let low = finite_or(pair[0], fallback[0]);
    let high = finite_or(pair[1], fallback[1]);
    if low.spec_le(high) {
        [low, high]
    } else {
        [high, low]
    }
}

fn finite_pair(pair: [F32; 2], fallback: [F32; 2]) -> (r: [F32; 2])
    ensures
        r == ordered_pair(pair, fallback),
{
    let low: F32 = finite(pair[0], fallback[0]);
    let high: F32 = finite(pair[1], fallback[1]);
    let r: [F32; 2] = if low.le(high) {
        [low, high]
    } else {
        [high, low]
    };
    assert(r@ =~= ordered_pair(pair, fallback)@);
    assert(r =~= ordered_pair(pair, fallback));
    r
}

fn nonnegative(value: F32) -> (r: F32)
    ensures
        r == at_least_zero(value),
{
    if from_bits(0).lt(value) {
        value
    } else {
        from_bits(0)
    }
}

/// The angle brought into `[0, pi]`.
pub open spec fn half_turn(angle: F32) -> F32 {
    if angle.spec_lt(single(0)) {
        single(0)
    } else if single(PI).spec_lt(angle) {
        single(PI)
    } else {
        angle
    }
}

fn into_half_turn(angle: F32) -> (r: F32)
    ensures
        r == half_turn(angle),
{
    if angle.lt(from_bits(0)) {
        from_bits(0)
    } else if from_bits(PI).lt(angle) {
        from_bits(PI)
    } else {
        angle
    }
}

/// The larger number; the second one if neither is.
pub open spec fn larger(a: F32, b: F32) -> F32 {
    if b.spec_lt(a) {
        a
    } else {
        b
    }
}

/// Level-of-detail distance `i`: never below the one before it.
pub open spec fn lod_distance(raw: [F32; 4], i: int) -> F32
    decreases i,
{
    let previous = if i <= 0 {
        single(0)
    } else {
        lod_distance(raw, i - 1)
    };
    larger(finite_or(raw[i], previous), previous)
}

fn next_lod(raw: F32, previous: F32) -> (r: F32)
    ensures
        r == larger(finite_or(raw, previous), previous),
{
    let value: F32 = finite(raw, previous);
    if previous.lt(value) {
        value
    } else {
        previous
    }
}

impl FoliageTypeDescriptor {
    /// Two-sided blades of grass with the default ranges.
    pub fn blades(material_id: MaterialId, lod_distances: [F32; 4]) -> (desc: Self)
        ensures
            desc.kind == FoliageKind::Blade,
            desc.density == single(DEFAULT_DENSITY),
            desc.height_range@ == seq![single(MIN_HEIGHT), single(MAX_HEIGHT)],
            desc.width_range@ == seq![single(MIN_WIDTH), single(MAX_WIDTH)],
            desc.slope_range@ == seq![single(0), single(QUARTER_PI)],
            desc.altitude_range@ == seq![single(LOWEST), single(HIGHEST)],
            desc.lod_distances == lod_distances,
            desc.wind_response@ == seq![single(0), single(BRANCH_RESPONSE), single(ONE_BITS)],
            desc.interaction_stiffness == single(DEFAULT_STIFFNESS),
            desc.material_id == material_id,
            desc.density_layer == 0,
            desc.mesh_or_impostor_id == u32::MAX,
            desc.two_sided && !desc.casts_shadow && desc.receives_interaction,
    {
        let zero: F32 = from_bits(0);
        FoliageTypeDescriptor {
            kind: FoliageKind::Blade,
            density: from_bits(DEFAULT_DENSITY),
            height_range: [from_bits(MIN_HEIGHT), from_bits(MAX_HEIGHT)],
            width_range: [from_bits(MIN_WIDTH), from_bits(MAX_WIDTH)],
            slope_range: [zero, from_bits(QUARTER_PI)],
            altitude_range: [from_bits(LOWEST), from_bits(HIGHEST)],
            lod_distances,
            wind_response: [zero, from_bits(BRANCH_RESPONSE), from_bits(ONE_BITS)],
            interaction_stiffness: from_bits(DEFAULT_STIFFNESS),
            material_id,
            density_layer: 0,
            mesh_or_impostor_id: u32::MAX,
            two_sided: true,
            casts_shadow: false,
            receives_interaction: true,
        }
    }

    /// The accepted slopes as ordered angles between zero and a half turn.
    pub open spec fn spec_slope_angles(self) -> [F32; 2] {
        let angles = ordered_pair(self.slope_range, [single(0), single(QUARTER_PI)]);
        [half_turn(angles[0]), half_turn(angles[1])]
    }

    pub fn slope_angles(&self) -> (angles: [F32; 2])
        ensures
            angles == self.spec_slope_angles(),
    {
        let fallback: [F32; 2] = [from_bits(0), from_bits(QUARTER_PI)];
        assert(fallback@ =~= [single(0), single(QUARTER_PI)]@);
        assert(fallback =~= [single(0), single(QUARTER_PI)]);
        let pair: [F32; 2] = finite_pair(self.slope_range, fallback);
        let angles: [F32; 2] = [into_half_turn(pair[0]), into_half_turn(pair[1])];
        assert(angles@ =~= self.spec_slope_angles()@);
        assert(angles =~= self.spec_slope_angles());
        angles
    }

    /// `row` is the shader row of this type. The slope band is `cosines`: the
    /// steepest accepted angle gives the smallest accepted cosine.
    pub open spec fn describes(self, row: GpuFoliageType, material_row: u32, cosines: [F32; 2]) -> bool {
        &&& row.density == at_least_zero(finite_or(self.density, single(0)))
        &&& row.height_range == ordered_pair(
            self.height_range,
            [single(MIN_HEIGHT), single(MAX_HEIGHT)],
        )
        &&& row.width_range == ordered_pair(
            self.width_range,
            [single(MIN_WIDTH), single(MAX_WIDTH)],
        )
        &&& row.slope_range == cosines
        &&& row.altitude_range == ordered_pair(
            self.altitude_range,
            [single(LOWEST), single(HIGHEST)],
        )
        &&& forall|i: int|
            0 <= i < 4 ==> #[trigger] row.lod_distances@[i] == lod_distance(self.lod_distances, i)
        &&& forall|i: int|
            0 <= i < 3 ==> #[trigger] row.wind_response@[i] == finite_or(
                self.wind_response@[i],
                single(0),
            )
        &&& row.interaction_stiffness == at_least_zero(
            finite_or(self.interaction_stiffness, single(DEFAULT_STIFFNESS)),
        )
        &&& row.material_id == material_row
        &&& row.density_layer == self.density_layer
        &&& row.kind == self.kind
        &&& row.flags == (FoliageFlags {
            two_sided: self.two_sided,
            casts_shadow: self.casts_shadow,
            receives_interaction: self.receives_interaction,
        })
        &&& row.mesh_or_impostor_id == self.mesh_or_impostor_id
    }

    /// Packs the type. `cosines` are the cosines of the steepest and of the
    /// shallowest accepted angle, in this order.
    pub fn to_gpu(self, material_row: u32, cosines: [F32; 2]) -> (row: GpuFoliageType)
        ensures
            self.describes(row, material_row, cosines),
    {
        let zero: F32 = from_bits(0);
        let heights: [F32; 2] = [from_bits(MIN_HEIGHT), from_bits(MAX_HEIGHT)];
        let widths: [F32; 2] = [from_bits(MIN_WIDTH), from_bits(MAX_WIDTH)];
        let altitudes: [F32; 2] = [from_bits(LOWEST), from_bits(HIGHEST)];
        proof {
            assert(heights@ =~= [single(MIN_HEIGHT), single(MAX_HEIGHT)]@);
            assert(heights =~= [single(MIN_HEIGHT), single(MAX_HEIGHT)]);
            assert(widths@ =~= [single(MIN_WIDTH), single(MAX_WIDTH)]@);
            assert(widths =~= [single(MIN_WIDTH), single(MAX_WIDTH)]);
            assert(altitudes@ =~= [single(LOWEST), single(HIGHEST)]@);
            assert(altitudes =~= [single(LOWEST), single(HIGHEST)]);
        }
        let first: F32 = next_lod(self.lod_distances[0], zero);
        let second: F32 = next_lod(self.lod_distances[1], first);
        let third: F32 = next_lod(self.lod_distances[2], second);
        let fourth: F32 = next_lod(self.lod_distances[3], third);
        proof {
            reveal_with_fuel(lod_distance, 5);
        }
        GpuFoliageType {
            density: nonnegative(finite(self.density, zero)),
            height_range: finite_pair(self.height_range, heights),
            width_range: finite_pair(self.width_range, widths),
            slope_range: cosines,
            altitude_range: finite_pair(self.altitude_range, altitudes),
            lod_distances: [first, second, third, fourth],
            wind_response: [
                finite(self.wind_response[0], zero),
                finite(self.wind_response[1], zero),
                finite(self.wind_response[2], zero),
            ],
            interaction_stiffness: nonnegative(
                finite(self.interaction_stiffness, from_bits(DEFAULT_STIFFNESS)),
            ),
            material_id: material_row,
            density_layer: self.density_layer,
            kind: self.kind,
            flags: FoliageFlags {
                two_sided: self.two_sided,
                casts_shadow: self.casts_shadow,
                receives_interaction: self.receives_interaction,
            },
            mesh_or_impostor_id: self.mesh_or_impostor_id,
        }
    }
}

impl GpuFoliageType {
    /// Whether two rows hold the same encodings.
    pub fn same(&self, other: &GpuFoliageType) -> (same: bool)
        ensures
            same == (*self == *other),
    {
        self.density == other.density && same_encodings(&self.height_range, &other.height_range)
            && same_encodings(&self.width_range, &other.width_range) && same_encodings(
            &self.slope_range,
            &other.slope_range,
        ) && same_encodings(&self.altitude_range, &other.altitude_range) && same_encodings(
            &self.lod_distances,
            &other.lod_distances,
        ) && same_encodings(&self.wind_response, &other.wind_response)
            && self.interaction_stiffness == other.interaction_stiffness && self.material_id
            == other.material_id && self.density_layer == other.density_layer && self.kind
            == other.kind && self.flags == other.flags && self.mesh_or_impostor_id
            == other.mesh_or_impostor_id
    }
}

/// A row holds finite numbers alone, whatever was authored: its ranges are
/// ordered and its distances never shrink.
pub proof fn lemma_rows_are_inert(
    desc: FoliageTypeDescriptor,
    row: GpuFoliageType,
    material_row: u32,
    cosines: [F32; 2],
)
    requires
        desc.describes(row, material_row, cosines),
    ensures
        row.density.spec_is_nonnegative(),
        row.interaction_stiffness.spec_is_nonnegative(),
        every_finite(row.height_range) && row.height_range[0].spec_le(row.height_range[1]),
        every_finite(row.width_range) && row.width_range[0].spec_le(row.width_range[1]),
        every_finite(row.altitude_range) && row.altitude_range[0].spec_le(row.altitude_range[1]),
        every_finite(row.wind_response),
        every_finite(row.lod_distances),
        forall|i: int|
            0 <= i < 3 ==> (#[trigger] row.lod_distances@[i]).spec_le(row.lod_distances@[i + 1]),
{
    lemma_inert_number(finite_or(desc.density, single(0)));
    lemma_inert_number(finite_or(desc.interaction_stiffness, single(DEFAULT_STIFFNESS)));
    lemma_ordered_pair(desc.height_range, [single(MIN_HEIGHT), single(MAX_HEIGHT)]);
    lemma_ordered_pair(desc.width_range, [single(MIN_WIDTH), single(MAX_WIDTH)]);
    lemma_ordered_pair(desc.altitude_range, [single(LOWEST), single(HIGHEST)]);
    lemma_lod_distances(desc.lod_distances, 3);
    assert forall|i: int| 0 <= i < 4 implies (#[trigger] row.lod_distances@[i]).spec_is_finite() by {
        lemma_lod_distances(desc.lod_distances, i);
    }
    assert forall|i: int| 0 <= i < 3 implies (#[trigger] row.lod_distances@[i]).spec_le(
        row.lod_distances@[i + 1],
    ) by {
        lemma_lod_distances(desc.lod_distances, i + 1);
        assert(row.lod_distances@[i + 1] == lod_distance(desc.lod_distances, i + 1));
    }
    assert forall|i: int| 0 <= i < 3 implies (#[trigger] row.wind_response@[i]).spec_is_finite() by {
        assert(row.wind_response@[i] == finite_or(desc.wind_response@[i], single(0)));
    }
}

proof fn lemma_inert_number(value: F32)
    requires
        value.spec_is_finite(),
    ensures
        at_least_zero(value).spec_is_nonnegative(),
{
    single(0).lemma_order(value);
    single(0).lemma_order(single(0));
}

proof fn lemma_ordered_pair(pair: [F32; 2], fallback: [F32; 2])
    requires
        fallback[0].spec_is_finite(),
        fallback[1].spec_is_finite(),
    ensures
        every_finite(ordered_pair(pair, fallback)),
        ordered_pair(pair, fallback)[0].spec_le(ordered_pair(pair, fallback)[1]),
{
    let low = finite_or(pair[0], fallback[0]);
    let high = finite_or(pair[1], fallback[1]);
    low.lemma_order(high);
    high.lemma_order(low);
}

proof fn lemma_lod_distances(raw: [F32; 4], i: int)
    requires
        0 <= i < 4,
    ensures
        lod_distance(raw, i).spec_is_finite(),
        i > 0 ==> lod_distance(raw, i - 1).spec_le(lod_distance(raw, i)),
    decreases i,
{
    let previous = if i <= 0 {
        single(0)
    } else {
        lod_distance(raw, i - 1)
    };
    if i > 0 {
        lemma_lod_distances(raw, i - 1);
    }
    let value = finite_or(raw[i], previous);
    previous.lemma_order(value);
    previous.lemma_order(previous);
    previous.lemma_order(lod_distance(raw, i));
}

/// Where a set of foliage types grows.
#[derive(Debug)]
pub struct FoliageLayer {
    pub types: Vec<FoliageTypeId>,
    /// World-space box, as its two corners.
    pub bounds: [[F32; 3]; 2],
    /// Two layers with the same seed and bounds place identically.
    pub seed: u32,
    /// The bounds are not enforced.
    pub has_infinite_extent: bool,
}

/// A foliage layer as shaders read it.
#[derive(Clone, Copy, Debug)]
pub struct GpuFoliageLayer {
    pub bounds_min: [F32; 4],
    pub bounds_max: [F32; 4],
}

impl GpuFoliageLayer {
    /// Whether two rows hold the same encodings.
    pub fn same(&self, other: &GpuFoliageLayer) -> (same: bool)
        ensures
            same == (*self == *other),
    {
        same_encodings(&self.bounds_min, &other.bounds_min) && same_encodings(
            &self.bounds_max,
            &other.bounds_max,
        )
    }
}

impl FoliageLayer {
    pub open spec fn spec_to_gpu(&self) -> GpuFoliageLayer {
        let min = self.bounds[0];
        let max = self.bounds[1];
        GpuFoliageLayer {
            bounds_min: [min[0], min[1], min[2], single(0)],
            bounds_max: [
                max[0],
                max[1],
                max[2],
                if self.has_infinite_extent {
                    single(ONE_BITS)
                } else {
                    single(0)
                },
            ],
        }
    }

    pub fn to_gpu(&self) -> (row: GpuFoliageLayer)
        ensures
            row == self.spec_to_gpu(),
    {
        let min: [F32; 3] = self.bounds[0];
        let max: [F32; 3] = self.bounds[1];
        let infinite: F32 = if self.has_infinite_extent {
            from_bits(ONE_BITS)
        } else {
            from_bits(0)
        };
        let row = GpuFoliageLayer {
            bounds_min: [min[0], min[1], min[2], from_bits(0)],
            bounds_max: [max[0], max[1], max[2], infinite],
        };
        assert(row.bounds_min@ =~= self.spec_to_gpu().bounds_min@);
        assert(row.bounds_min =~= self.spec_to_gpu().bounds_min);
        assert(row.bounds_max@ =~= self.spec_to_gpu().bounds_max@);
        assert(row.bounds_max =~= self.spec_to_gpu().bounds_max);
        row
    }
}

/// A moving body that pushes foliage aside.
#[derive(Clone, Copy, Debug)]
pub struct FoliageInteractor {
    pub position: [F32; 3],
    pub radius: F32,
    pub velocity: [F32; 3],
}

/// An interactor as shaders read it.
#[derive(Clone, Copy, Debug)]
pub struct GpuFoliageInteractor {
    pub position_radius: [F32; 4],
    pub velocity: [F32; 4],
}

impl GpuFoliageInteractor {
    /// Whether two rows hold the same encodings.
    pub fn same(&self, other: &GpuFoliageInteractor) -> (same: bool)
        ensures
            same == (*self == *other),
    {
        same_encodings(&self.position_radius, &other.position_radius) && same_encodings(
            &self.velocity,
            &other.velocity,
        )
    }
}

/// The vector if all of it is finite, otherwise the zero vector.
pub open spec fn finite_vector(v: [F32; 3]) -> [F32; 3] {
    if every_finite(v) {
        v
    } else {
        [single(0), single(0), single(0)]
    }
}

fn finite_vec(v: [F32; 3]) -> (r: [F32; 3])
    ensures
        r == finite_vector(v),
{
    if all_finite(&v) {
        v
    } else {
        let zero: F32 = from_bits(0);
        let r: [F32; 3] = [zero, zero, zero];
        assert(r@ =~= [single(0), single(0), single(0)]@);
        assert(r =~= [single(0), single(0), single(0)]);
        r
    }
}

impl FoliageInteractor {
    pub open spec fn spec_to_gpu(self) -> GpuFoliageInteractor {
        let p = finite_vector(self.position);
        let v = finite_vector(self.velocity);
        GpuFoliageInteractor {
            position_radius: [
                p[0],
                p[1],
                p[2],
                if self.radius.spec_is_finite() {
                    at_least_zero(self.radius)
                } else {
                    single(0)
                },
            ],
            velocity: [v[0], v[1], v[2], single(0)],
        }
    }

    pub fn to_gpu(self) -> (row: GpuFoliageInteractor)
        ensures
            row == self.spec_to_gpu(),
    {
        let p: [F32; 3] = finite_vec(self.position);
        let v: [F32; 3] = finite_vec(self.velocity);
        let radius: F32 = if self.radius.is_finite() {
            nonnegative(self.radius)
        } else {
            from_bits(0)
        };
        let row = GpuFoliageInteractor {
            position_radius: [p[0], p[1], p[2], radius],
            velocity: [v[0], v[1], v[2], from_bits(0)],
        };
        assert(row.position_radius@ =~= self.spec_to_gpu().position_radius@);
        assert(row.position_radius =~= self.spec_to_gpu().position_radius);
        assert(row.velocity@ =~= self.spec_to_gpu().velocity@);
        assert(row.velocity =~= self.spec_to_gpu().velocity);
        row
    }
}

/// An interactor row holds finite numbers alone, and its radius is not negative.
pub proof fn lemma_interactors_are_inert(interactor: FoliageInteractor)
    ensures
        every_finite(interactor.spec_to_gpu().position_radius),
        every_finite(interactor.spec_to_gpu().velocity),
        interactor.spec_to_gpu().position_radius[3].spec_is_nonnegative(),
{
    let row = interactor.spec_to_gpu();
    let p = finite_vector(interactor.position);
    let v = finite_vector(interactor.velocity);
    if interactor.radius.spec_is_finite() {
        lemma_inert_number(interactor.radius);
    } else {
        single(0).lemma_order(single(0));
    }
    assert(every_finite(p)) by {
        if !every_finite(interactor.position) {
            assert(p@ =~= seq![single(0), single(0), single(0)]);
        }
    }
    assert(every_finite(v)) by {
        if !every_finite(interactor.velocity) {
            assert(v@ =~= seq![single(0), single(0), single(0)]);
        }
    }
    assert(p@[0].spec_is_finite() && p@[1].spec_is_finite() && p@[2].spec_is_finite());
    assert(v@[0].spec_is_finite() && v@[1].spec_is_finite() && v@[2].spec_is_finite());
    assert forall|i: int| 0 <= i < 4 implies (
    #[trigger] row.position_radius@[i]).spec_is_finite() by {}
    assert forall|i: int| 0 <= i < 4 implies (#[trigger] row.velocity@[i]).spec_is_finite() by {}
}

} // verus!
