//! What was last written of a resource reads back.
use vstd::prelude::*;

use crate::authorship::padded;
use crate::baking::splits;
use crate::decals::GpuDecal;
use crate::float_bits::F32;
use crate::handles::{
    DecalId, FoliageInteractorId, MaterialId, ObjectId, PlanarReflectorId, PostProcessVolumeId,
    ReflectionCaptureId, SectionedInstanceId, VoxelVolumeId, WaterHitboxId, WaterVolumeId,
};
use crate::motion::stands_at;
use crate::planar_reflections::{PlanarMeasure, PlanarReflectorDescriptor};
use crate::post_process::GpuPostProcessVolume;
use crate::reflections::{CaptureMeasure, ReflectionCaptureDescriptor};
use crate::rows::{Movability, NewRow};
use crate::scene::Scene;
use crate::voxels::GpuVoxelMaterial;
use crate::water_rows::{WaterHitboxDescriptor, WaterUnitVectors, WaterVolumeDescriptor};

verus! {

/// Water that is updated reads back as last authored, keeps its tag, its row and its
/// heightfield, and no other volume changes.
pub proof fn lemma_updated_water_reads_back(
    before: Scene,
    after: Scene,
    id: WaterVolumeId,
    desc: WaterVolumeDescriptor,
    units: WaterUnitVectors,
    other: WaterVolumeId,
)
    requires
        before.water_updated(&after, id, desc, units, Ok(())),
    ensures
        before.water.volumes@.contains_key(id),
        ({
            let record = after.water.volumes@[id];
            &&& record.user_tag == before.water.volumes@[id].user_tag
            &&& padded(record.row.bounds_min, desc.bounds_min)
            &&& splits(record.row.bounds_max, desc.bounds_max, desc.surface_height)
            &&& record.row.wave_params[0] == desc.wave_amplitude
            &&& record.row.wave_params[2] == desc.wave_speed
            &&& record.row.sim_dynamics[0] == desc.wave_spring
            &&& record.row.sim_dynamics[1] == desc.wave_damping
            &&& record.row.sim_dynamics[2] == desc.wave_scale
        }),
        after.water.projection == before.water.projection,
        after.water.slot_generations == before.water.slot_generations,
        other != id ==> after.water.volumes@[other] == before.water.volumes@[other],
{
}

/// A hitbox reads back as last authored, whether it was inserted or updated, and keeps its
/// tag.
pub proof fn lemma_hitbox_reads_back(
    before: Scene,
    between: Scene,
    after: Scene,
    new: NewRow,
    first: WaterHitboxDescriptor,
    second: WaterHitboxDescriptor,
    user_tag: u64,
    id: WaterHitboxId,
)
    requires
        before.hitbox_inserted(&between, new, first, user_tag, id),
        between.hitbox_updated(&after, id, second, Ok(())),
    ensures
        id.0 == new.entity,
        between.water.hitboxes@[id].user_tag == user_tag,
        padded(between.water.hitboxes@[id].row.old_min, first.old_min),
        padded(between.water.hitboxes@[id].row.old_max, first.old_max),
        padded(between.water.hitboxes@[id].row.new_min, first.new_min),
        padded(between.water.hitboxes@[id].row.new_max, first.new_max),
        between.water.hitboxes@[id].row.params[0] == first.edge_softness,
        between.water.hitboxes@[id].row.params[1] == first.strength,
        after.water.hitboxes@[id].user_tag == user_tag,
        padded(after.water.hitboxes@[id].row.old_min, second.old_min),
        padded(after.water.hitboxes@[id].row.new_max, second.new_max),
        after.water.hitboxes@[id].row.params[0] == second.edge_softness,
        after.water.hitboxes@[id].row.params[1] == second.strength,
        after.water.volumes == before.water.volumes,
{
    crate::authorship::lemma_hitbox_row_gives_back_what_was_authored(first);
    crate::authorship::lemma_hitbox_row_gives_back_what_was_authored(second);
}

/// A capture that is updated reads back as last authored and keeps its tag. One that changes
/// has no layer any more; the bake is outdated only if it never changed, before or after.
pub proof fn lemma_updated_capture_reads_back(
    before: Scene,
    after: Scene,
    id: ReflectionCaptureId,
    desc: ReflectionCaptureDescriptor,
    measure: CaptureMeasure,
)
    requires
        before.wf(),
        before.capture_updated(&after, id, desc, measure, Ok(())),
    ensures
        before.reflections.captures@.contains_key(id),
        ({
            let was = before.reflections.captures@[id];
            let is = after.reflections.captures@[id];
            &&& is.user_tag == was.user_tag
            &&& is.row.position_radius[0] == desc.transform[12]
            &&& is.row.position_radius[1] == desc.transform[13]
            &&& is.row.position_radius[2] == desc.transform[14]
            &&& is.row.position_radius[3] == desc.influence_radius
            &&& splits(is.row.extents_transition, desc.extents, desc.transition_distance)
            &&& is.row.world_to_local == measure.world_to_local
            &&& is.row.mobility == desc.mobility
            &&& is.row.shape == desc.shape
            &&& is.row.brightness == desc.brightness
            &&& is.row != was.row ==> is.influence == measure.influence
            &&& !(was.row.mobility is Static) && !(desc.mobility is Static)
                ==> after.bake_invalidated == before.bake_invalidated
            &&& is.row != was.row && (was.row.mobility is Static || desc.mobility is Static)
                ==> after.bake_invalidated
            &&& is.row != was.row && !(desc.mobility is Static)
                ==> after.reflections.projection.layers@[before.reflections.captures.place(id)]
                == -1
        }),
{
    before.reflections.captures.lemma_contains(id);
    let row = before.reflections.captures@[id].row;
    if row == crate::reflections::capture_row(desc, measure.world_to_local) {
        assert(row.position_radius[0] == desc.transform[12]);
    }
}

/// A reflector that is updated reads back as last authored and keeps its tag and its row.
pub proof fn lemma_updated_reflector_reads_back(
    before: Scene,
    after: Scene,
    id: PlanarReflectorId,
    desc: PlanarReflectorDescriptor,
    measure: PlanarMeasure,
)
    requires
        before.reflector_updated(&after, id, desc, measure, Ok(())),
    ensures
        ({
            let was = before.planar_reflectors@[id];
            let is = after.planar_reflectors@[id];
            &&& is.user_tag == was.user_tag
            &&& splits(is.row.position_tolerance, desc.position, desc.surface_tolerance)
            &&& splits(is.row.normal_cos_threshold, measure.normal, is.row.normal_cos_threshold[3])
            &&& splits(is.row.tangent_priority, measure.tangent, desc.priority)
            &&& is.row.half_extents_reserved[0] == desc.half_extents[0]
            &&& is.row.half_extents_reserved[1] == desc.half_extents[1]
        }),
        after.planar_reflectors.projection == before.planar_reflectors.projection,
{
}

/// A volume reads back as last authored, whether it was inserted or updated, and keeps its
/// tag; one whose priority is no finite number is refused.
pub proof fn lemma_volume_reads_back(
    before: Scene,
    between: Scene,
    after: Scene,
    new: NewRow,
    first: GpuPostProcessVolume,
    second: GpuPostProcessVolume,
    user_tag: u64,
    id: PostProcessVolumeId,
)
    requires
        before.volume_inserted(&between, new, first, user_tag, Ok(id)),
        between.volume_updated(&after, id, second, Ok(())),
    ensures
        id.0 == new.entity,
        first.priority.spec_is_finite(),
        second.priority.spec_is_finite(),
        between.post_process.volumes@[id].row == first,
        between.post_process.volumes@[id].user_tag == user_tag,
        after.post_process.volumes@[id].row.priority == second.priority,
        after.post_process.volumes@[id].row.settings@ == second.settings@,
        after.post_process.volumes@[id].user_tag == user_tag,
{
}

/// A decal reads back as last authored, whether it was inserted or updated; it keeps its tag
/// and may move unless it is said to be otherwise.
pub proof fn lemma_decal_reads_back(
    before: Scene,
    between: Scene,
    after: Scene,
    new: NewRow,
    first: GpuDecal,
    second: GpuDecal,
    user_tag: u64,
    movability: Option<Movability>,
    id: DecalId,
    live: bool,
)
    requires
        before.decal_inserted(&between, new, first, user_tag, movability, id),
        between.decal_updated(&after, id, second, live),
    ensures
        live,
        id.0 == new.entity,
        between.decals@[id].row == first,
        after.decals@[id].row == second,
        after.decals@[id].user_tag == user_tag,
        movability matches Some(m) ==> after.decals@[id].movability == m,
        movability is None ==> after.decals@[id].movability is Movable,
{
}

/// An interactor that is moved keeps its radius; where it is and how it moves read back if
/// they are finite.
pub proof fn lemma_moved_interactor_reads_back(
    before: Scene,
    after: Scene,
    id: FoliageInteractorId,
    position: [F32; 3],
    velocity: [F32; 3],
)
    requires
        before.interactor_updated(&after, id, position, velocity, Ok(())),
        forall|i: int| 0 <= i < 3 ==> (#[trigger] position@[i]).spec_is_finite(),
        forall|i: int| 0 <= i < 3 ==> (#[trigger] velocity@[i]).spec_is_finite(),
        before.foliage.interactors@[id].position_radius[3].spec_is_finite(),
        (F32 { bits: 0 }).spec_lt(before.foliage.interactors@[id].position_radius[3]),
    ensures
        splits(
            after.foliage.interactors@[id].position_radius,
            position,
            before.foliage.interactors@[id].position_radius[3],
        ),
        padded(after.foliage.interactors@[id].velocity, velocity),
        after.foliage.types == before.foliage.types,
        after.foliage.generation == before.foliage.generation,
{
    let prior = before.foliage.interactors@[id];
    let next = crate::foliage_rows::FoliageInteractor {
        position,
        radius: prior.position_radius[3],
        velocity,
    };
    assert forall|i: int| 0 <= i < 3 implies (#[trigger] next.position[i]).spec_is_finite() by {
        assert(position@[i].spec_is_finite());
    }
    assert forall|i: int| 0 <= i < 3 implies (#[trigger] next.velocity[i]).spec_is_finite() by {
        assert(velocity@[i].spec_is_finite());
    }
    crate::authorship::lemma_interactor_row_gives_back_what_was_authored(next);
}

/// The sections of an instance that is moved stand where it was moved to, if they may move,
/// and no other object does.
pub proof fn lemma_moved_instance_takes_its_sections_along(
    before: Scene,
    after: Scene,
    id: SectionedInstanceId,
    transform: [F32; 16],
    normal_mat: [F32; 12],
    object: ObjectId,
)
    requires
        before.sections_moved(&after, id, transform, normal_mat, Ok(())),
        before.objects.records@.contains_key(object),
    ensures
        ({
            let was = before.objects.records@[object];
            let is = after.objects.records@[object];
            let section = before.sections.instances@[id].section_objects@.contains(object);
            &&& section && was.movability is Movable ==> stands_at(
                was,
                is,
                transform,
                normal_mat,
                [transform[12], transform[13], transform[14]],
            )
            &&& !section || !(was.movability is Movable) ==> is == was
        }),
        after.sections == before.sections,
        after.bake_invalidated == before.bake_invalidated,
{
}

/// A palette reads back as last written, with where it resides; the rest of the volume
/// stays.
pub proof fn lemma_palette_reads_back(
    before: Scene,
    after: Scene,
    id: VoxelVolumeId,
    palette: Vec<GpuVoxelMaterial>,
    residency: (u32, u32),
)
    requires
        before.palette_replaced(&after, id, palette, Some(residency), Ok(())),
    ensures
        ({
            let was = before.voxels.volumes@[id];
            let is = after.voxels.volumes@[id];
            &&& is.record.material_palette == palette
            &&& is.row.palette_offset == residency.0
            &&& is.row.palette_count == residency.1
            &&& is.row.brick_offset == was.row.brick_offset
            &&& is.row.local_to_world == was.row.local_to_world
            &&& is.row.dimensions == was.row.dimensions
            &&& is.row.voxel_size == was.row.voxel_size
            &&& is.mode == was.mode
            &&& is.gpu_row == was.gpu_row
        }),
        after.voxels.meshes == before.voxels.meshes,
        after.voxels.raymarched == before.voxels.raymarched,
{
}

/// Class parameters read back as last written; nothing else of the material changes, and
/// nothing is outdated.
pub proof fn lemma_class_parameters_read_back(
    before: Scene,
    after: Scene,
    id: MaterialId,
    params: [F32; 4],
)
    requires
        before.params_replaced(&after, id, params, Ok(())),
    ensures
        after.materials@[id].gpu.class_params == params,
        after.materials@[id].gpu.material_class == before.materials@[id].gpu.material_class,
        after.materials@[id].gpu.flags == before.materials@[id].gpu.flags,
        after.materials@[id].gpu.surface == before.materials@[id].gpu.surface,
        after.materials@[id].graph_hash == before.materials@[id].graph_hash,
        after.materials@[id].ref_count == before.materials@[id].ref_count,
        after.objects == before.objects,
        after.virtual_geometry == before.virtual_geometry,
{
}

/// A live capture with a layer is published by its row and layer unless 64 others are, each
/// of no larger influence.
pub proof fn lemma_capture_is_published_by_influence(scene: Scene, id: ReflectionCaptureId)
    requires
        scene.wf(),
        scene.reflections.captures@.contains_key(id),
    ensures
        ({
            let reflections = scene.reflections;
            let place = reflections.captures.place(id);
            let row = reflections.projection.active.spec_rows()[place];
            let layer = reflections.projection.layers@[place];
            let pairs = reflections.shader_pairs@;
            &&& pairs.len() <= 64
            &&& layer >= 0 ==> {
                ||| exists|k: int|
                    0 <= k < pairs.len() && (#[trigger] pairs[k])[0] == row && pairs[k][1] == layer
                ||| pairs.len() == 64 && forall|k: int|
                    0 <= k < pairs.len() ==> exists|j: int|
                        0 <= j < reflections.captures.id_by_slot@.len() && (
                        #[trigger] pairs[k])[0]
                            == #[trigger] reflections.projection.active.spec_rows()[j]
                            && reflections.captures@[reflections.captures.id_by_slot@[j]].influence.total_rank()
                            <= reflections.captures@[id].influence.total_rank()
            }
        }),
{
    let reflections = scene.reflections;
    let candidates = reflections.candidates();
    reflections.captures.lemma_contains(id);
    let place = reflections.captures.place(id);
    let pairs = reflections.shader_pairs@;
    crate::selecting::lemma_smallest_captures_are_published(candidates, pairs, place);
    if candidates[place].2 >= 0 {
        if exists|k: int|
            0 <= k < pairs.len() && crate::selecting::publishes(
                #[trigger] pairs[k],
                candidates[place],
            ) {
            let k = choose|k: int|
                0 <= k < pairs.len() && crate::selecting::publishes(
                    #[trigger] pairs[k],
                    candidates[place],
                );
            assert(pairs[k][0] == candidates[place].1);
        } else {
            assert forall|k: int| 0 <= k < pairs.len() implies exists|j: int|
                0 <= j < reflections.captures.id_by_slot@.len() && (#[trigger] pairs[k])[0]
                    == #[trigger] reflections.projection.active.spec_rows()[j]
                    && reflections.captures@[reflections.captures.id_by_slot@[j]].influence.total_rank()
                    <= reflections.captures@[id].influence.total_rank() by {
                let j = choose|j: int|
                    0 <= j < candidates.len() && crate::selecting::publishes(
                        pairs[k],
                        #[trigger] candidates[j],
                    ) && candidates[j].0.total_rank() <= candidates[place].0.total_rank();
                assert(pairs[k][0] == reflections.projection.active.spec_rows()[j]);
            }
        }
    }
}

} // verus!
