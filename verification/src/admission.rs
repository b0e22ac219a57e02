//! Which descriptors are accepted.
use vstd::prelude::*;

use crate::float_bits::F32;
use crate::numbers::lemma_numbers_compare_as_encoded;
use crate::planar_reflections::{PlanarMeasure, PlanarReflectorDescriptor};
use crate::reflections::{capture_error, ReflectionCaptureDescriptor};
use crate::scene::Scene;
use crate::voxels::{VoxelAllocation, VoxelMeasure, VoxelMode, VoxelVolumeDescriptor};

verus! {

/// The encoding is that of a finite number.
pub open spec fn finite_bits(x: F32) -> bool {
    x.bits < 0x7F80_0000 || 0x8000_0000 <= x.bits < 0xFF80_0000
}

/// The encoding is that of a finite number above zero.
pub open spec fn positive_bits(x: F32) -> bool {
    0 < x.bits < 0x7F80_0000
}

/// The encoding is that of a finite number that is not below zero.
pub open spec fn nonnegative_bits(x: F32) -> bool {
    x.bits < 0x7F80_0000 || x.bits == 0x8000_0000
}

/// The encoding is that of a zero.
pub open spec fn zero_bits(x: F32) -> bool {
    x.bits == 0 || x.bits == 0x8000_0000
}

/// A reflector is accepted exactly if all of it is finite, its size and tolerances are
/// positive, its angle is at most a right one, and its basis spans a plane: neither vector
/// vanishes, and what of the tangent is measured across the normal does not either.
pub proof fn lemma_accepted_reflectors(desc: PlanarReflectorDescriptor, measure: PlanarMeasure)
    ensures
        desc.rejection(measure) is None <==> {
            &&& forall|i: int| 0 <= i < 3 ==> finite_bits(#[trigger] desc.position@[i])
            &&& forall|i: int| 0 <= i < 3 ==> finite_bits(#[trigger] desc.normal@[i])
            &&& forall|i: int| 0 <= i < 3 ==> finite_bits(#[trigger] desc.tangent@[i])
            &&& positive_bits(desc.half_extents[0])
            &&& positive_bits(desc.half_extents[1])
            &&& positive_bits(desc.surface_tolerance)
            &&& 0 < desc.normal_tolerance_radians.bits <= 0x3FC9_0FDB
            &&& finite_bits(desc.priority)
            &&& !(zero_bits(desc.normal[0]) && zero_bits(desc.normal[1]) && zero_bits(
                desc.normal[2],
            ))
            &&& !(zero_bits(desc.tangent[0]) && zero_bits(desc.tangent[1]) && zero_bits(
                desc.tangent[2],
            ))
            &&& !measure.projected_length_squared.spec_le(F32 { bits: 0x2B8C_BCCC })
        },
{
    let zero = F32 { bits: 0 };
    let right = F32 { bits: 0x3FC9_0FDB };
    assert forall|x: F32| #[trigger] x.spec_is_finite() == finite_bits(x) by {
        lemma_numbers_compare_as_encoded(x, zero);
    }
    lemma_numbers_compare_as_encoded(desc.half_extents[0], zero);
    lemma_numbers_compare_as_encoded(desc.half_extents[1], zero);
    lemma_numbers_compare_as_encoded(desc.surface_tolerance, zero);
    lemma_numbers_compare_as_encoded(desc.normal_tolerance_radians, zero);
    lemma_numbers_compare_as_encoded(right, desc.normal_tolerance_radians);
    assert forall|x: F32| #[trigger] x.spec_same_value(zero) == zero_bits(x) by {
        lemma_numbers_compare_as_encoded(x, zero);
        lemma_numbers_compare_as_encoded(zero, x);
    }
    assert(crate::words::every_finite(desc.position) <==> forall|i: int|
        0 <= i < 3 ==> finite_bits(#[trigger] desc.position@[i]));
    assert(crate::words::every_finite(desc.normal) <==> forall|i: int|
        0 <= i < 3 ==> finite_bits(#[trigger] desc.normal@[i]));
    assert(crate::words::every_finite(desc.tangent) <==> forall|i: int|
        0 <= i < 3 ==> finite_bits(#[trigger] desc.tangent@[i]));
}

/// A capture is accepted exactly if its transform and the inverse of it are finite, its
/// influence, extents and fade are not negative, and its brightness is finite.
pub proof fn lemma_accepted_captures(
    desc: ReflectionCaptureDescriptor,
    world_to_local: [F32; 16],
)
    ensures
        capture_error(desc, world_to_local) is None <==> {
            &&& forall|i: int| 0 <= i < 16 ==> finite_bits(#[trigger] desc.transform@[i])
            &&& forall|i: int| 0 <= i < 16 ==> finite_bits(#[trigger] world_to_local@[i])
            &&& nonnegative_bits(desc.influence_radius)
            &&& nonnegative_bits(desc.extents[0])
            &&& nonnegative_bits(desc.extents[1])
            &&& nonnegative_bits(desc.extents[2])
            &&& nonnegative_bits(desc.transition_distance)
            &&& finite_bits(desc.brightness)
        },
{
    let zero = F32 { bits: 0 };
    assert forall|x: F32| #[trigger] x.spec_is_finite() == finite_bits(x) by {
        lemma_numbers_compare_as_encoded(x, zero);
    }
    assert forall|x: F32| #[trigger] x.spec_is_nonnegative() == nonnegative_bits(x) by {
        lemma_numbers_compare_as_encoded(x, zero);
    }
    assert(crate::words::every_finite(desc.transform) <==> forall|i: int|
        0 <= i < 16 ==> finite_bits(#[trigger] desc.transform@[i]));
    assert(crate::words::every_finite(world_to_local) <==> forall|i: int|
        0 <= i < 16 ==> finite_bits(#[trigger] world_to_local@[i]));
}

/// A voxel volume is accepted exactly if its voxels and its extent have a positive size, its
/// bricks can be numbered, the store has room, and, if it is meshed, a row of free output
/// slots is as long as it has bricks.
pub proof fn lemma_accepted_volumes(
    scene: Scene,
    descriptor: VoxelVolumeDescriptor,
    measure: VoxelMeasure,
    allocation: Option<VoxelAllocation>,
)
    requires
        measure.dimension >= 1,
    ensures
        ({
            let axis = (measure.dimension + 7) / 8;
            let count = axis * axis * axis;
            scene.voxel_error(descriptor, measure, allocation) is None <==> {
                &&& positive_bits(descriptor.voxel_size)
                &&& positive_bits(descriptor.root_extent)
                &&& count <= 0xFFFF_FFFF
                &&& allocation is Some
                &&& descriptor.mode == Some(VoxelMode::Dynamic) || exists|base: int| #[trigger]
                    scene.voxels.meshes.fits(base, count)
            }
        }),
{
    let zero = F32 { bits: 0 };
    lemma_numbers_compare_as_encoded(descriptor.voxel_size, zero);
    lemma_numbers_compare_as_encoded(descriptor.root_extent, zero);
    let axis = (measure.dimension + 7) / 8;
    assert(axis >= 1);
    assert(axis * axis * axis >= 1) by (nonlinear_arith)
        requires
            axis >= 1,
    ;
}

} // verus!
