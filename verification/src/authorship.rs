//! What is stored of a resource gives back what was authored.
use vstd::prelude::*;

use crate::baking::splits;
use crate::float_bits::F32;
use crate::foliage_rows::{
    FoliageInteractor, FoliageLayer, FoliageTypeDescriptor, GpuFoliageType,
};
use crate::handles::{
    LightId, MaterialId, ObjectId, PlanarReflectorId, ReflectionCaptureId, VirtualObjectId,
    WaterVolumeId,
};
use crate::lights::{budget_input, spec_light_row, GpuLight, SceneLightRow};
use crate::materials::MaterialAsset;
use crate::objects::ObjectDescriptor;
use crate::planar_reflections::{PlanarMeasure, PlanarReflectorDescriptor};
use crate::reflections::{CaptureMeasure, ReflectionCaptureDescriptor};
use crate::rows::{Movability, NewRow};
use crate::scene::Scene;
use crate::virtual_objects::VirtualObjectDescriptor;
use crate::voxels::{fresh_volume, VoxelAllocation, VoxelMeasure, VoxelVolumeDescriptor};
use crate::water_rows::{
    GpuWaterVolume, WaterHitboxDescriptor, WaterUnitVectors, WaterVolumeDescriptor,
};

verus! {

/// The three words are those of `whole`, and the fourth is a zero.
pub open spec fn padded(whole: [F32; 4], three: [F32; 3]) -> bool {
    splits(whole, three, F32 { bits: 0 })
}

/// The word switches something: one for on, zero for off.
pub open spec fn switches(word: F32, on: bool) -> bool {
    word.bits == if on {
        0x3F80_0000u32
    } else {
        0u32
    }
}

/// The words of a water row, read one after the other, are what was authored: corners with
/// the height of the surface, waves, colours with the foam, reflection and refraction,
/// caustics, fog, optics, shadows, the sun, ray marching, the simulation and the wind.
pub proof fn lemma_water_row_gives_back_what_was_authored(
    desc: WaterVolumeDescriptor,
    units: WaterUnitVectors,
    row: GpuWaterVolume,
)
    requires
        desc.describes(row, units),
    ensures
        padded(row.bounds_min, desc.bounds_min),
        splits(row.bounds_max, desc.bounds_max, desc.surface_height),
        row.wave_params@ =~= seq![
            desc.wave_amplitude,
            desc.wave_frequency,
            desc.wave_speed,
            desc.wave_steepness,
        ],
        row.wave_direction[0] == desc.wave_direction[0],
        row.wave_direction[1] == desc.wave_direction[1],
        splits(row.water_color, desc.water_color, desc.foam_threshold),
        splits(row.extinction, desc.extinction, desc.foam_amount),
        row.reflection_refraction[0] == desc.reflection_strength,
        row.reflection_refraction[1] == desc.refraction_strength,
        row.reflection_refraction[2] == desc.fresnel_power,
        switches(row.caustics_params[0], desc.caustics_enabled),
        row.caustics_params[1] == desc.caustics_intensity,
        row.caustics_params[2] == desc.caustics_scale,
        row.caustics_params[3] == desc.caustics_speed,
        row.fog_params[0] == desc.fog_density,
        row.fog_params[1] == desc.god_rays_intensity,
        row.sim_params@ =~= seq![
            desc.ior,
            desc.caustics_intensity,
            desc.fresnel_min,
            desc.density,
        ],
        row.shadow_params[0] == desc.shadow_rim,
        row.shadow_params[1] == desc.shadow_hitbox,
        row.shadow_params[2] == desc.shadow_ao,
        padded(row.sun_direction, units.sun),
        switches(row.ssr_params[0], desc.ssr_enabled),
        row.ssr_params[2] == desc.ssr_step_size,
        row.ssr_params[3] == desc.ssr_thickness,
        row.sim_dynamics[0] == desc.wave_spring,
        row.sim_dynamics[1] == desc.wave_damping,
        row.sim_dynamics[2] == desc.wave_scale,
        row.wind_params[2] == desc.wind_strength,
{
}

/// The wind of a water row is the unit vector that was measured of the authored one, if that
/// is finite and one of its components is as large as one; without any wind it is none.
pub proof fn lemma_wind_is_the_measured_one(
    desc: WaterVolumeDescriptor,
    units: WaterUnitVectors,
    row: GpuWaterVolume,
    k: int,
)
    requires
        desc.describes(row, units),
        0 <= k < 2,
    ensures
        desc.wind_direction[0].spec_is_finite() && desc.wind_direction[1].spec_is_finite() && (
        F32 { bits: 0x3F80_0000 }).spec_le(desc.wind_direction[k].spec_abs()) ==> {
            &&& row.wind_params[0] == units.wind[0]
            &&& row.wind_params[1] == units.wind[1]
        },
        desc.wind_direction[0].bits == 0 && desc.wind_direction[1].bits == 0 ==> {
            &&& row.wind_params[0].bits == 0
            &&& row.wind_params[1].bits == 0
        },
{
    let one = F32 { bits: 0x3F80_0000 };
    let limit = F32 { bits: 0x3400_0000 };
    let v = desc.wind_direction[k].spec_abs();
    one.lemma_order(v);
    v.lemma_order(limit);
    let zero = desc.wind_direction[0];
    if zero.bits == 0 {
        zero.spec_abs().lemma_order(limit);
    }
    if desc.wind_direction[1].bits == 0 {
        desc.wind_direction[1].spec_abs().lemma_order(limit);
    }
}

/// A water volume that is inserted is stored as authored, under its tag and without any
/// other volume changing.
pub proof fn lemma_inserted_water_is_stored(
    before: Scene,
    after: Scene,
    new: NewRow,
    desc: WaterVolumeDescriptor,
    units: WaterUnitVectors,
    user_tag: u64,
    other: WaterVolumeId,
)
    requires
        before.water_volume_inserted(
            &after,
            new,
            desc,
            units,
            user_tag,
            Ok(WaterVolumeId(new.entity)),
        ),
    ensures
        after.water.volumes@.contains_key(WaterVolumeId(new.entity)),
        ({
            let record = after.water.volumes@[WaterVolumeId(new.entity)];
            &&& record.user_tag == user_tag
            &&& padded(record.row.bounds_min, desc.bounds_min)
            &&& splits(record.row.bounds_max, desc.bounds_max, desc.surface_height)
            &&& splits(record.row.water_color, desc.water_color, desc.foam_threshold)
            &&& record.row.wave_params[2] == desc.wave_speed
            &&& record.row.sim_dynamics[0] == desc.wave_spring
            &&& record.row.sim_dynamics[1] == desc.wave_damping
            &&& record.row.sim_dynamics[2] == desc.wave_scale
        }),
        other != WaterVolumeId(new.entity) && before.water.volumes@.contains_key(other) ==> {
            &&& after.water.volumes@.contains_key(other)
            &&& after.water.volumes@[other] == before.water.volumes@[other]
        },
{
}

/// The words of a hitbox row are the corners where the body was and where it is, and how
/// soft and strong its push is.
pub proof fn lemma_hitbox_row_gives_back_what_was_authored(desc: WaterHitboxDescriptor)
    ensures
        ({
            let row = desc.spec_to_gpu();
            &&& padded(row.old_min, desc.old_min)
            &&& padded(row.old_max, desc.old_max)
            &&& padded(row.new_min, desc.new_min)
            &&& padded(row.new_max, desc.new_max)
            &&& row.params[0] == desc.edge_softness
            &&& row.params[1] == desc.strength
        }),
{
}

/// A reflector that is inserted is stored with its position and tolerance, the orthonormal
/// basis that was measured, its priority and size; its cosine is the measured one unless
/// that is negative.
pub proof fn lemma_inserted_reflector_is_stored(
    before: Scene,
    after: Scene,
    new: NewRow,
    desc: PlanarReflectorDescriptor,
    measure: PlanarMeasure,
    user_tag: u64,
)
    requires
        before.reflector_inserted(
            &after,
            new,
            desc,
            measure,
            user_tag,
            Ok(PlanarReflectorId(new.entity)),
        ),
    ensures
        after.planar_reflectors@.contains_key(PlanarReflectorId(new.entity)),
        ({
            let record = after.planar_reflectors@[PlanarReflectorId(new.entity)];
            let row = record.row;
            &&& record.user_tag == user_tag
            &&& splits(row.position_tolerance, desc.position, desc.surface_tolerance)
            &&& splits(row.normal_cos_threshold, measure.normal, row.normal_cos_threshold[3])
            &&& splits(row.tangent_priority, measure.tangent, desc.priority)
            &&& row.half_extents_reserved[0] == desc.half_extents[0]
            &&& row.half_extents_reserved[1] == desc.half_extents[1]
            &&& (F32 { bits: 0 }).spec_lt(measure.cosine) ==> row.normal_cos_threshold[3]
                == measure.cosine
            &&& !(F32 { bits: 0 }).spec_lt(measure.cosine) ==> row.normal_cos_threshold[3].bits
                == 0
        }),
{
}

/// A capture that is inserted is stored where its transform puts it, with its influence,
/// extents and fade, its measured inverse and what it is; it has no layer yet. Only one that
/// never changes outdates the bake.
pub proof fn lemma_inserted_capture_is_stored(
    before: Scene,
    after: Scene,
    new: NewRow,
    desc: ReflectionCaptureDescriptor,
    measure: CaptureMeasure,
    user_tag: u64,
)
    requires
        before.capture_inserted(
            &after,
            new,
            desc,
            measure,
            user_tag,
            Ok(ReflectionCaptureId(new.entity)),
        ),
    ensures
        after.reflections.captures@.contains_key(ReflectionCaptureId(new.entity)),
        ({
            let record = after.reflections.captures@[ReflectionCaptureId(new.entity)];
            let row = record.row;
            &&& record.user_tag == user_tag
            &&& record.influence == measure.influence
            &&& row.position_radius[0] == desc.transform[12]
            &&& row.position_radius[1] == desc.transform[13]
            &&& row.position_radius[2] == desc.transform[14]
            &&& row.position_radius[3] == desc.influence_radius
            &&& splits(row.extents_transition, desc.extents, desc.transition_distance)
            &&& row.world_to_local == measure.world_to_local
            &&& row.cubemap_index == -1
            &&& row.shape == desc.shape
            &&& row.mobility == desc.mobility
            &&& row.brightness == desc.brightness
        }),
        after.bake_invalidated == (before.bake_invalidated || desc.mobility is Static),
{
}

/// A voxel volume is stored where it stands, with its size, palette and mode, and its bricks
/// cover its voxels: eight of these along each axis, with no brick to spare.
pub proof fn lemma_fresh_volume_is_as_described(
    new: NewRow,
    descriptor: VoxelVolumeDescriptor,
    measure: VoxelMeasure,
    allocation: VoxelAllocation,
)
    requires
        measure.dimension <= 0xFFFF_FF00,
    ensures
        ({
            let volume = fresh_volume(new, descriptor, measure, allocation);
            let row = volume.row;
            &&& volume.gpu_row == new.gpu_row
            &&& volume.record.voxel_size == descriptor.voxel_size
            &&& volume.record.root_extent == descriptor.root_extent
            &&& volume.record.material_palette == descriptor.material_palette
            &&& volume.record.edit_cooldown == 0
            &&& row.local_to_world == descriptor.local_to_world
            &&& row.world_to_local == measure.world_to_local
            &&& row.dimensions[0] == measure.dimension
            &&& row.dimensions[1] == measure.dimension
            &&& row.dimensions[2] == measure.dimension
            &&& row.voxel_size == descriptor.voxel_size
            &&& row.palette_offset == allocation.palette_base
            &&& row.palette_count == allocation.palette_count
            &&& row.brick_offset == allocation.brick_base
            &&& row.brick_grid_dim * 8 >= measure.dimension
            &&& measure.dimension > 0 ==> (row.brick_grid_dim - 1) * 8 < measure.dimension
            &&& descriptor.movability matches Some(m) ==> volume.movability == m
            &&& descriptor.movability is None ==> volume.movability is Static
            &&& descriptor.mode matches Some(m) ==> volume.mode == m
            &&& descriptor.mode is None ==> volume.mode is Auto
        }),
{
}

/// An object that is inserted is stored with everything that was said of it; it is static
/// unless it is said to be otherwise, has no past and no lightmap, and is drawn with its
/// mesh's slot and its material's row.
pub proof fn lemma_inserted_object_is_stored(
    before: Scene,
    after: Scene,
    new: NewRow,
    desc: ObjectDescriptor,
    normal_mat: [F32; 12],
)
    requires
        before.object_inserted(&after, new, desc, normal_mat),
    ensures
        after.objects.records@.contains_key(ObjectId(new.entity)),
        ({
            let record = after.objects.records@[ObjectId(new.entity)];
            &&& record.mesh == desc.mesh
            &&& record.material == desc.material
            &&& record.groups == desc.groups
            &&& record.user_tag == desc.user_tag
            &&& record.pose.model == desc.transform
            &&& record.pose.sphere == desc.bounds
            &&& record.pose.flags == desc.flags
            &&& record.previous == record.pose
            &&& record.normal_mat == normal_mat
            &&& record.gpu_row == new.gpu_row
            &&& record.lightmap_index == 0xFFFF_FFFFu32
            &&& record.mesh_row == desc.mesh.0.index
            &&& record.material_row == before.materials@[desc.material].gpu_row
            &&& desc.movability matches Some(m) ==> record.movability == m
            &&& desc.movability is None ==> record.movability is Static
            &&& after.objects.dirty
            &&& after.bake_invalidated == (before.bake_invalidated || !(
            record.movability is Movable))
            &&& after.objects.static_dirty == (before.objects.static_dirty || !(
            record.movability is Movable))
        }),
        after.materials@[desc.material].ref_count == (before.materials@[desc.material].ref_count
            + 1) as u32,
        after.meshes@[desc.mesh].ref_count == (before.meshes@[desc.mesh].ref_count + 1) as u32,
{
}

/// A virtual object that is inserted is stored with everything that was said of it, without
/// a past or a lightmap, drawn with its material's row and the slot of its mesh's first
/// level of detail.
pub proof fn lemma_inserted_virtual_object_is_stored(
    before: Scene,
    after: Scene,
    entity: crate::handles::Entity,
    desc: VirtualObjectDescriptor,
    normal_mat: [F32; 12],
)
    requires
        before.virtual_object_inserted(&after, entity, desc, normal_mat),
    ensures
        after.virtual_geometry.objects@.contains_key(VirtualObjectId(entity)),
        ({
            let record = after.virtual_geometry.objects@[VirtualObjectId(entity)];
            let instance = record.instance;
            &&& record.virtual_mesh == desc.virtual_mesh
            &&& record.material == desc.material_id
            &&& record.groups == desc.groups
            &&& desc.movability matches Some(m) ==> record.movability == m
            &&& desc.movability is None ==> record.movability is Static
            &&& instance.model == desc.transform
            &&& instance.prev_model == desc.transform
            &&& instance.normal_mat == normal_mat
            &&& instance.bounds == desc.bounds
            &&& instance.flags == desc.flags
            &&& instance.lightmap_index == 0xFFFF_FFFFu32
            &&& instance.material_id == before.materials@[desc.material_id].gpu_row
            &&& before.virtual_geometry.meshes@[desc.virtual_mesh].first_mesh matches Some(m)
                ==> instance.mesh_id == m.0.index
        }),
        after.virtual_geometry.dirty,
        after.materials@[desc.material_id].ref_count == (
        before.materials@[desc.material_id].ref_count + 1) as u32,
{
}

/// A material that is inserted is stored as authored, without a graph and without users.
pub proof fn lemma_inserted_material_is_stored(
    before: Scene,
    after: Scene,
    new: NewRow,
    asset: MaterialAsset,
)
    requires
        before.material_inserted(&after, new, asset),
    ensures
        after.materials@.contains_key(MaterialId(new.entity)),
        ({
            let record = after.materials@[MaterialId(new.entity)];
            &&& record.gpu == asset.gpu
            &&& record.textures == asset.textures
            &&& record.graph_hash == 0
            &&& record.gpu_row == new.gpu_row
            &&& record.ref_count == 0
        }),
        after.material_flags@[new.gpu_row as int] == asset.gpu.flags,
{
}

/// The stored row of a light is the authored light: the wish for a shadow stands for the
/// layer.
pub open spec fn stores_light(row: SceneLightRow, light: GpuLight) -> bool {
    &&& row.position_range == light.position_range
    &&& row.direction_outer == light.direction_outer
    &&& row.color_intensity == light.color_intensity
    &&& row.inner_angle == light.inner_angle
    &&& row.light_type == light.light_type
    &&& row.shading == light.shading
    &&& row.shadow_requested == if light.shadow_index == 0xFFFF_FFFFu32 {
        0xFFFF_FFFFu32
    } else {
        0u32
    }
}

/// A light that is inserted is stored as authored and under its tag; it is evaluated at run
/// time, in a slot with its row and without a part of the atlas yet, exactly if it may move,
/// and outdates the bake exactly if it may not.
pub proof fn lemma_inserted_light_is_stored(
    before: Scene,
    after: Scene,
    new: NewRow,
    light: GpuLight,
    movability: Movability,
    user_tag: u64,
)
    requires
        before.wf(),
        after.wf(),
        before.light_inserted(&after, new, light, movability, user_tag),
    ensures
        after.lights.records@.contains_key(LightId(new.entity)),
        ({
            let record = after.lights.records@[LightId(new.entity)];
            &&& stores_light(record.row, light)
            &&& record.movability == movability
            &&& record.user_tag == user_tag
            &&& record.gpu_row == new.gpu_row
        }),
        movability is Movable ==> {
            &&& after.lights.slots@.len() == before.lights.slots@.len() + 1
            &&& after.lights.slots@.last()[0] == new.gpu_row
            &&& after.lights.slots@.last()[1] == 0xFFFF_FFFFu32
            &&& after.bake_invalidated == before.bake_invalidated
            &&& after.lights.projection.atlas_dirty
        },
        !(movability is Movable) ==> {
            &&& after.lights.slots@ == before.lights.slots@
            &&& after.bake_invalidated
            &&& after.lights.projection.atlas_dirty == before.lights.projection.atlas_dirty
        },
{
}

/// A light that may move reads back as it was last authored. One that may not does so too if
/// it stays where it is and points where it pointed; otherwise the edit is ignored.
pub proof fn lemma_updated_light_reads_back(
    before: Scene,
    after: Scene,
    id: LightId,
    light: GpuLight,
)
    requires
        before.light_updated(&after, id, light, Ok(())),
    ensures
        before.lights.records@.contains_key(id),
        after.lights.records@[id].movability == before.lights.records@[id].movability,
        after.lights.records@[id].user_tag == before.lights.records@[id].user_tag,
        after.lights.records@[id].gpu_row == before.lights.records@[id].gpu_row,
        before.lights.records@[id].movability is Movable ==> stores_light(
            after.lights.records@[id].row,
            light,
        ) && after.bake_invalidated == before.bake_invalidated,
        after.lights.records@[id] != before.lights.records@[id] && !(
        before.lights.records@[id].movability is Movable) ==> {
            &&& stores_light(after.lights.records@[id].row, light)
            &&& after.bake_invalidated
            &&& forall|i: int|
                0 <= i < 4 ==> (#[trigger] light.position_range[i]).spec_same_value(
                    before.lights.records@[id].row.position_range[i],
                )
            &&& forall|i: int|
                0 <= i < 4 ==> (#[trigger] light.direction_outer[i]).spec_same_value(
                    before.lights.records@[id].row.direction_outer[i],
                )
        },
{
    let record = before.lights.records@[id];
    let row = spec_light_row(light);
    assert(stores_light(row, light));
    if before.light_edit_applies(id, light) && record.movability != Movability::Movable {
        assert forall|i: int| 0 <= i < 4 implies (
        #[trigger] light.position_range[i]).spec_same_value(record.row.position_range[i]) by {
            assert(record.row.position_range[i].spec_same_value(light.position_range[i]));
        }
        assert forall|i: int| 0 <= i < 4 implies (
        #[trigger] light.direction_outer[i]).spec_same_value(record.row.direction_outer[i]) by {
            assert(record.row.direction_outer[i].spec_same_value(light.direction_outer[i]));
        }
    }
}

/// The budget is ranked anew exactly if the edit changes whether a light asks for a shadow,
/// whether it is directional, or the range or intensity of one that asks and is not.
pub proof fn lemma_budget_follows_range_and_intensity(old_row: SceneLightRow, row: SceneLightRow)
    ensures
        budget_input(old_row) != budget_input(row) <==> {
            let asked = old_row.shadow_requested != 0xFFFF_FFFFu32;
            let asks = row.shadow_requested != 0xFFFF_FFFFu32;
            ||| asked != asks
            ||| asks && (old_row.light_type == 0) != (row.light_type == 0)
            ||| asks && row.light_type != 0 && (old_row.position_range[3]
                != row.position_range[3] || old_row.color_intensity[3] != row.color_intensity[3])
        },
{
}

/// What is finite and in order is stored as authored of a foliage type, with the row of its
/// material and the cosines that were measured.
pub proof fn lemma_foliage_row_gives_back_what_was_authored(
    desc: FoliageTypeDescriptor,
    row: GpuFoliageType,
    material_row: u32,
    cosines: [F32; 2],
)
    requires
        desc.describes(row, material_row, cosines),
    ensures
        row.material_id == material_row,
        row.slope_range == cosines,
        row.density_layer == desc.density_layer,
        row.kind == desc.kind,
        row.mesh_or_impostor_id == desc.mesh_or_impostor_id,
        row.flags.two_sided == desc.two_sided,
        row.flags.casts_shadow == desc.casts_shadow,
        row.flags.receives_interaction == desc.receives_interaction,
        desc.density.spec_is_finite() && (F32 { bits: 0 }).spec_lt(desc.density) ==> row.density
            == desc.density,
        desc.interaction_stiffness.spec_is_finite() && (F32 { bits: 0 }).spec_lt(
            desc.interaction_stiffness,
        ) ==> row.interaction_stiffness == desc.interaction_stiffness,
        desc.height_range[0].spec_is_finite() && desc.height_range[1].spec_is_finite()
            && desc.height_range[0].spec_le(desc.height_range[1]) ==> row.height_range[0]
            == desc.height_range[0] && row.height_range[1] == desc.height_range[1],
        desc.width_range[0].spec_is_finite() && desc.width_range[1].spec_is_finite()
            && desc.width_range[0].spec_le(desc.width_range[1]) ==> row.width_range[0]
            == desc.width_range[0] && row.width_range[1] == desc.width_range[1],
        desc.altitude_range[0].spec_is_finite() && desc.altitude_range[1].spec_is_finite()
            && desc.altitude_range[0].spec_le(desc.altitude_range[1]) ==> row.altitude_range[0]
            == desc.altitude_range[0] && row.altitude_range[1] == desc.altitude_range[1],
        forall|i: int|
            0 <= i < 3 && (#[trigger] desc.wind_response[i]).spec_is_finite()
                ==> row.wind_response[i] == desc.wind_response[i],
{
    assert forall|i: int|
        0 <= i < 3 && (#[trigger] desc.wind_response[i]).spec_is_finite() implies row.wind_response[i]
        == desc.wind_response[i] by {
        assert(row.wind_response@[i] == row.wind_response[i]);
        assert(desc.wind_response@[i] == desc.wind_response[i]);
    }
}

/// What is not finite of a foliage type is stored as a harmless number: no density, the
/// usual stiffness, no response to the wind.
pub proof fn lemma_foliage_row_without_sense_is_harmless(
    desc: FoliageTypeDescriptor,
    row: GpuFoliageType,
    material_row: u32,
    cosines: [F32; 2],
    i: int,
)
    requires
        desc.describes(row, material_row, cosines),
        0 <= i < 3,
    ensures
        !desc.density.spec_is_finite() ==> row.density.bits == 0,
        desc.density.spec_lt(F32 { bits: 0 }) ==> row.density.bits == 0,
        !desc.interaction_stiffness.spec_is_finite() ==> row.interaction_stiffness.bits
            == 0x40C0_0000,
        !desc.wind_response[i].spec_is_finite() ==> row.wind_response[i].bits == 0,
        !desc.height_range[0].spec_is_finite() && !desc.height_range[1].spec_is_finite()
            ==> row.height_range[0].bits == 0x3E19_999A && row.height_range[1].bits
            == 0x3EE6_6666,
        !desc.width_range[0].spec_is_finite() && !desc.width_range[1].spec_is_finite()
            ==> row.width_range[0].bits == 0x3C23_D70A && row.width_range[1].bits == 0x3CF5_C28F,
        !desc.altitude_range[0].spec_is_finite() && !desc.altitude_range[1].spec_is_finite()
            ==> row.altitude_range[0].bits == 0xFF7F_FFFF && row.altitude_range[1].bits
            == 0x7F7F_FFFF,
        desc.height_range[0].spec_is_finite() && desc.height_range[1].spec_is_finite()
            && desc.height_range[1].spec_lt(desc.height_range[0]) ==> row.height_range[0]
            == desc.height_range[1] && row.height_range[1] == desc.height_range[0],
{
    let zero = F32 { bits: 0 };
    zero.lemma_order(zero);
    zero.lemma_order(desc.density);
    desc.density.lemma_order(zero);
    let six = F32 { bits: 0x40C0_0000 };
    zero.lemma_order(six);
    (F32 { bits: 0x3E19_999A }).lemma_order(F32 { bits: 0x3EE6_6666 });
    (F32 { bits: 0x3C23_D70A }).lemma_order(F32 { bits: 0x3CF5_C28F });
    (F32 { bits: 0xFF7F_FFFF }).lemma_order(F32 { bits: 0x7F7F_FFFF });
    desc.height_range[0].lemma_order(desc.height_range[1]);
    desc.height_range[1].lemma_order(desc.height_range[0]);
    assert(row.wind_response@[i] == row.wind_response[i]);
    assert(desc.wind_response@[i] == desc.wind_response[i]);
}

/// Distances of detail that rise are stored as authored.
pub proof fn lemma_rising_distances_are_stored(
    desc: FoliageTypeDescriptor,
    row: GpuFoliageType,
    material_row: u32,
    cosines: [F32; 2],
)
    requires
        desc.describes(row, material_row, cosines),
        forall|i: int| 0 <= i < 4 ==> (#[trigger] desc.lod_distances@[i]).spec_is_finite(),
        (F32 { bits: 0 }).spec_lt(desc.lod_distances@[0]),
        desc.lod_distances@[0].spec_lt(desc.lod_distances@[1]),
        desc.lod_distances@[1].spec_lt(desc.lod_distances@[2]),
        desc.lod_distances@[2].spec_lt(desc.lod_distances@[3]),
    ensures
        forall|i: int| 0 <= i < 4 ==> #[trigger] row.lod_distances@[i] == desc.lod_distances@[i],
{
    reveal_with_fuel(crate::foliage_rows::lod_distance, 5);
    let raw = desc.lod_distances;
    assert(raw@[0] == raw[0] && raw@[1] == raw[1] && raw@[2] == raw[2] && raw@[3] == raw[3]);
    assert(row.lod_distances@[0] == raw@[0]);
    assert(row.lod_distances@[1] == raw@[1]);
    assert(row.lod_distances@[2] == raw@[2]);
    assert(row.lod_distances@[3] == raw@[3]);
}

/// Slopes that lie in order between level and overhanging are accepted as authored.
pub proof fn lemma_sensible_slopes_are_accepted(desc: FoliageTypeDescriptor)
    requires
        desc.slope_range[0].spec_is_finite(),
        desc.slope_range[1].spec_is_finite(),
        (F32 { bits: 0 }).spec_le(desc.slope_range[0]),
        desc.slope_range[0].spec_le(desc.slope_range[1]),
        desc.slope_range[1].spec_le(F32 { bits: 0x4049_0FDB }),
    ensures
        desc.spec_slope_angles()[0] == desc.slope_range[0],
        desc.spec_slope_angles()[1] == desc.slope_range[1],
{
    let zero = F32 { bits: 0 };
    let pi = F32 { bits: 0x4049_0FDB };
    let (a, b) = (desc.slope_range[0], desc.slope_range[1]);
    zero.lemma_order(a);
    a.lemma_order(zero);
    b.lemma_order(zero);
    a.lemma_order(b);
    b.lemma_order(pi);
    pi.lemma_order(b);
    pi.lemma_order(a);
}

/// A foliage layer is stored with its two corners, and whether they are enforced.
pub proof fn lemma_layer_row_gives_back_what_was_authored(layer: FoliageLayer)
    ensures
        padded(layer.spec_to_gpu().bounds_min, layer.bounds[0]),
        splits(
            layer.spec_to_gpu().bounds_max,
            layer.bounds[1],
            layer.spec_to_gpu().bounds_max[3],
        ),
        switches(layer.spec_to_gpu().bounds_max[3], layer.has_infinite_extent),
{
}

/// An interactor whose numbers are finite and whose radius is positive is stored as
/// authored.
pub proof fn lemma_interactor_row_gives_back_what_was_authored(interactor: FoliageInteractor)
    requires
        forall|i: int| 0 <= i < 3 ==> (#[trigger] interactor.position[i]).spec_is_finite(),
        forall|i: int| 0 <= i < 3 ==> (#[trigger] interactor.velocity[i]).spec_is_finite(),
        interactor.radius.spec_is_finite(),
        (F32 { bits: 0 }).spec_lt(interactor.radius),
    ensures
        splits(
            interactor.spec_to_gpu().position_radius,
            interactor.position,
            interactor.radius,
        ),
        padded(interactor.spec_to_gpu().velocity, interactor.velocity),
{
    assert(crate::words::every_finite(interactor.position));
    assert(crate::words::every_finite(interactor.velocity));
}

} // verus!
