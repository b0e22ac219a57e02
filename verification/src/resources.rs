//! What a write of a material, a foliage type, a planet frame or a portal leaves behind.
use vstd::prelude::*;

use crate::counting::occurrences;
use crate::errors::{Result, SceneError};
use crate::float_bits::F32;
use crate::foliage_rows::FoliageTypeDescriptor;
use crate::frame::SkyContext;
use crate::groups::GroupMask;
use crate::handles::{
    FoliageLayerId, FoliageTypeId, MaterialId, ObjectId, PortalId, TextureId, VoxelVolumeId,
};
use crate::materials::{GpuMaterial, MaterialAsset};
use crate::planet_frames::{
    PlanetFrameAuthorityError, PlanetFrameEntry, PlanetFrameId, PlanetFrameUniform,
    PlanetFrameUpdateOutcome, PlanetVerdict,
};
use crate::portal_showing::{lemma_portal_has_one_view, shows};
use crate::portals::PortalMeasure;
use crate::rows::NewRow;
use crate::scene::Scene;

verus! {

/// A material that is updated reads back as last written; its class graph, its textures and
/// its users stay.
pub proof fn lemma_updated_material_reads_back(
    before: Scene,
    after: Scene,
    id: MaterialId,
    material: GpuMaterial,
)
    requires
        before.material_updated(&after, id, material, Ok(())),
    ensures
        after.materials@[id].gpu == material,
        after.materials@[id].graph_hash == before.materials@[id].graph_hash,
        after.materials@[id].textures == before.materials@[id].textures,
        after.materials@[id].ref_count == before.materials@[id].ref_count,
        after.materials@[id].gpu_row == before.materials@[id].gpu_row,
        after.textures == before.textures,
        after.material_flags@ == before.material_flags@.update(
            before.materials@[id].gpu_row as int,
            material.flags,
        ),
        material.material_class != before.materials@[id].gpu.material_class
            ==> after.objects.dirty,
{
}

/// A material put into another class is of that class, with the flags given or else its own;
/// what it looks like otherwise stays, and the objects are to be drawn anew if the class or
/// its graph differs.
pub proof fn lemma_set_class_reads_back(
    before: Scene,
    after: Scene,
    id: MaterialId,
    material_class: u32,
    graph_hash: u64,
    feature_flags: Option<u32>,
)
    requires
        before.class_set(&after, id, material_class, graph_hash, feature_flags, Ok(())),
    ensures
        ({
            let was = before.materials@[id];
            let is = after.materials@[id];
            &&& is.gpu.material_class == material_class
            &&& is.graph_hash == graph_hash
            &&& feature_flags matches Some(flags) ==> is.gpu.flags == flags
            &&& feature_flags is None ==> is.gpu.flags == was.gpu.flags
            &&& is.gpu.class_params == was.gpu.class_params
            &&& is.gpu.surface == was.gpu.surface
            &&& is.textures == was.textures
            &&& is.ref_count == was.ref_count
            &&& was.gpu.material_class != material_class || was.graph_hash != graph_hash
                ==> after.objects.dirty
        }),
        after.textures == before.textures,
{
}

/// A material given another asset names the textures of that asset; each texture has as many
/// users more as the new asset names it, and as many fewer as the old one did.
pub proof fn lemma_updated_asset_moves_the_counts(
    before: Scene,
    after: Scene,
    id: MaterialId,
    material: MaterialAsset,
    texture: TextureId,
)
    requires
        before.asset_updated(&after, id, material, Ok(())),
        before.textures@.contains_key(texture),
    ensures
        after.materials@[id].gpu == material.gpu,
        after.materials@[id].textures == material.textures,
        after.materials@[id].graph_hash == before.materials@[id].graph_hash,
        after.materials@[id].ref_count == before.materials@[id].ref_count,
        after.textures@.contains_key(texture),
        after.textures@[texture].asset_key == before.textures@[texture].asset_key,
        after.textures@[texture].ref_count + occurrences(
            before.materials@[id].textures@,
            Some(texture),
        ) == before.textures@[texture].ref_count + occurrences(
            material.textures@,
            Some(texture),
        ),
{
}

/// A removed material is gone, its flags are cleared, and a texture that nothing else names
/// goes with it; any other keeps its remaining users.
pub proof fn lemma_removed_material_releases_its_textures(
    before: Scene,
    after: Scene,
    id: MaterialId,
    texture: TextureId,
)
    requires
        before.wf(),
        before.materials@.contains_key(id),
        before.material_removed(&after, id),
        before.textures@.contains_key(texture),
    ensures
        !after.materials@.contains_key(id),
        after.material_flags@[before.materials@[id].gpu_row as int] == 0,
        ({
            let names = occurrences(before.materials@[id].textures@, Some(texture));
            let left = before.textures@[texture].ref_count - names;
            &&& after.textures@.contains_key(texture) <==> left > 0
                || !before.materials@[id].textures@.contains(Some(texture))
            &&& after.textures@.contains_key(texture) ==> after.textures@[texture].ref_count
                == left
        }),
        after.objects == before.objects,
{
    before.materials.lemma_contains(id);
    let p = before.materials.place(id);
    assert(before.materials.value_by_slot@[p].gpu_row < before.material_flags@.len());
}

/// A foliage type that is added is drawn with its material, whose users are one more.
pub proof fn lemma_added_type_is_stored(
    before: Scene,
    after: Scene,
    new: NewRow,
    desc: FoliageTypeDescriptor,
    cosines: [F32; 2],
)
    requires
        before.foliage_type_added(&after, new, desc, cosines),
        before.materials@[desc.material_id].ref_count < u32::MAX,
    ensures
        ({
            let record = after.foliage.types@[FoliageTypeId(new.entity)];
            &&& after.foliage.types@.contains_key(FoliageTypeId(new.entity))
            &&& record.material == desc.material_id
            &&& record.row.material_id == before.materials@[desc.material_id].gpu_row
            &&& record.row.slope_range == cosines
            &&& record.row.density_layer == desc.density_layer
            &&& record.row.kind == desc.kind
            &&& record.row.flags.two_sided == desc.two_sided
            &&& record.row.flags.casts_shadow == desc.casts_shadow
        }),
        after.materials@[desc.material_id].ref_count == before.materials@[desc.material_id].ref_count
            + 1,
        after.foliage.layers == before.foliage.layers,
        after.foliage.generation != before.foliage.generation,
{
    let row = choose|row: crate::foliage_rows::GpuFoliageType| #[trigger]
        desc.describes(row, before.materials@[desc.material_id].gpu_row, cosines)
            && before.foliage.types.inserted(
            &after.foliage.types,
            FoliageTypeId(new.entity),
            new.gpu_row,
            crate::foliage::FoliageTypeRecord { material: desc.material_id, row },
        );
    crate::authorship::lemma_foliage_row_gives_back_what_was_authored(
        desc,
        row,
        before.materials@[desc.material_id].gpu_row,
        cosines,
    );
}

/// A foliage type that is updated is drawn with the material last given. A material that it
/// takes up has one user more; one that it gives up has one fewer, and is gone if that was
/// the last.
pub proof fn lemma_updated_type_moves_the_counts(
    before: Scene,
    after: Scene,
    id: FoliageTypeId,
    desc: FoliageTypeDescriptor,
    cosines: [F32; 2],
)
    requires
        before.wf(),
        before.type_updated(&after, id, desc, cosines, Ok(())),
    ensures
        ({
            let prior = before.foliage.types@[id].material;
            let next = desc.material_id;
            let record = after.foliage.types@[id];
            &&& record.material == next
            &&& record.row.material_id == before.materials@[next].gpu_row
            &&& record.row.slope_range == cosines
            &&& record.row.kind == desc.kind
            &&& prior == next ==> after.materials == before.materials
            &&& prior != next ==> {
                &&& after.materials@[next].ref_count == before.materials@[next].ref_count + 1
                &&& after.materials@.contains_key(prior) <==> before.materials@[prior].ref_count
                    > 1
                &&& before.materials@[prior].ref_count > 1 ==> after.materials@[prior].ref_count
                    == before.materials@[prior].ref_count - 1
            }
            &&& record.material != prior || record.row != before.foliage.types@[id].row
                ==> after.foliage.generation != before.foliage.generation
        }),
        after.foliage.layers == before.foliage.layers,
{
    before.foliage.types.lemma_places_agree(id);
    let p = before.foliage.types.place(id);
    before.foliage.types.lemma_dense(p);
    crate::references::lemma_material_uses_bounded(
        before.objects.spec_values(),
        before.virtual_geometry.spec_values(),
        before.foliage.spec_types(),
        desc.material_id,
    );
    crate::references::lemma_foliage_material_live(
        before.materials@,
        before.objects.spec_values(),
        before.virtual_geometry.spec_values(),
        before.foliage.spec_types(),
        p,
    );
    let row = choose|row: crate::foliage_rows::GpuFoliageType| #[trigger]
        desc.describes(row, before.materials@[desc.material_id].gpu_row, cosines)
            && before.foliage_type_updated(&after, id, desc.material_id, row);
    crate::authorship::lemma_foliage_row_gives_back_what_was_authored(
        desc,
        row,
        before.materials@[desc.material_id].gpu_row,
        cosines,
    );
}

/// The entries hold the frame under the name.
pub open spec fn framed(
    entries: Seq<PlanetFrameEntry>,
    id: PlanetFrameId,
    frame: PlanetFrameUniform,
) -> bool {
    exists|i: int|
        0 <= i < entries.len() && (#[trigger] entries[i]).id == id && entries[i].frame == frame
}

/// A frame that was stored is held under its name, and is the only one of its planet; every
/// frame of another planet stays. A frame that was not stored changes nothing.
pub proof fn lemma_set_frame_is_the_only_one_of_its_planet(
    before: Scene,
    after: Scene,
    frame: PlanetFrameUniform,
    stored: PlanetVerdict<(PlanetFrameId, PlanetFrameUpdateOutcome)>,
    result: Result<(PlanetFrameId, PlanetFrameUpdateOutcome)>,
    i: int,
)
    requires
        before.frame_set(&after, frame, stored, result),
        after.planets.wf(),
        0 <= i < before.planets.entries@.len(),
    ensures
        stored is Err ==> after == before && result is Err,
        stored matches Ok(given) ==> {
            let entries = after.planets.entries@;
            let other = before.planets.entries@[i];
            &&& result == Ok::<_, SceneError>(given)
            &&& framed(entries, given.0, frame)
            &&& other.frame.planet != frame.planet ==> framed(entries, other.id, other.frame)
            &&& forall|k: int|
                0 <= k < entries.len() && (#[trigger] entries[k]).frame.planet == frame.planet
                    ==> entries[k].frame == frame && entries[k].id == given.0
        },
{
    if stored is Ok {
        let was = before.planets.entries@;
        let entries = after.planets.entries@;
        let planet = frame.planet;
        let at = if crate::planet_frames::frames_planet(was, planet) {
            crate::planet_frames::place_for(was, planet)
        } else {
            was.len() as int
        };
        assert(entries[at].frame == frame);
        assert(was[i].frame.planet != planet ==> entries[i] == was[i]);
    }
}

/// A frame that is inserted is held under the name that the store gave it, beside every
/// other.
pub proof fn lemma_inserted_frame_is_held(
    before: Scene,
    after: Scene,
    frame: PlanetFrameUniform,
    id: PlanetFrameId,
    i: int,
)
    requires
        before.frame_inserted(&after, frame, Ok(id), Ok(id)),
        0 <= i < before.planets.entries@.len(),
    ensures
        framed(after.planets.entries@, id, frame),
        framed(
            after.planets.entries@,
            before.planets.entries@[i].id,
            before.planets.entries@[i].frame,
        ),
        after.planets.entries@.len() == before.planets.entries@.len() + 1,
{
    let entries = after.planets.entries@;
    assert(entries[before.planets.entries@.len() as int].id == id);
    assert(entries[i] == before.planets.entries@[i]);
}

/// A frame that is updated reads back; every frame under another name stays.
pub proof fn lemma_updated_frame_reads_back(
    before: Scene,
    after: Scene,
    id: PlanetFrameId,
    frame: PlanetFrameUniform,
    outcome: PlanetFrameUpdateOutcome,
    i: int,
)
    requires
        before.frame_updated(&after, id, frame, Ok(outcome), Ok(outcome)),
        exists|k: int|
            0 <= k < before.planets.entries@.len() && (#[trigger] before.planets.entries@[k]).id
                == id,
        0 <= i < before.planets.entries@.len(),
    ensures
        framed(after.planets.entries@, id, frame),
        before.planets.entries@[i].id != id ==> framed(
            after.planets.entries@,
            before.planets.entries@[i].id,
            before.planets.entries@[i].frame,
        ),
        after.planets.entries@.len() == before.planets.entries@.len(),
{
    let was = before.planets.entries@;
    let entries = after.planets.entries@;
    assert(crate::planet_frames::names_frame(was, id));
    assert(entries[crate::planet_frames::place_of(was, id)].id == id);
    assert(was[i].id != id ==> entries[i] == was[i]);
}

/// A frame that is removed is handed back and held no longer; every frame under another name
/// stays.
pub proof fn lemma_removed_frame_is_handed_back(
    before: Scene,
    after: Scene,
    id: PlanetFrameId,
    frame: PlanetFrameUniform,
    i: int,
)
    requires
        before.planets.wf(),
        before.frame_removed(&after, id, Ok(()), Ok(frame)),
        exists|k: int|
            0 <= k < before.planets.entries@.len() && (#[trigger] before.planets.entries@[k]).id
                == id,
        0 <= i < before.planets.entries@.len(),
    ensures
        framed(before.planets.entries@, id, frame),
        forall|k: int|
            0 <= k < after.planets.entries@.len() ==> (#[trigger] after.planets.entries@[k]).id
                != id,
        before.planets.entries@[i].id != id ==> framed(
            after.planets.entries@,
            before.planets.entries@[i].id,
            before.planets.entries@[i].frame,
        ),
{
    let was = before.planets.entries@;
    let entries = after.planets.entries@;
    assert(crate::planet_frames::names_frame(was, id));
    let at = crate::planet_frames::place_of(was, id);
    assert(was[at].id == id);
    assert forall|k: int| 0 <= k < entries.len() implies (#[trigger] entries[k]).id != id by {
        let from = if k < at {
            k
        } else {
            k + 1
        };
        assert(entries[k] == was[from]);
    }
    if was[i].id != id {
        let to = if i < at {
            i
        } else {
            i - 1
        };
        assert(entries[to] == was[i]);
    }
}

/// A frame that the store refuses changes nothing. A stale name is an invalid handle, any
/// other refusal an invalid operation.
pub proof fn lemma_refused_frame_changes_nothing(
    before: Scene,
    after: Scene,
    frame: PlanetFrameUniform,
    error: PlanetFrameAuthorityError,
    refused: SceneError,
)
    requires
        before.frame_inserted(&after, frame, Err(error), Err(refused)),
    ensures
        after == before,
        refused is InvalidHandle <==> error is StaleFrame,
        refused is InvalidOperation <==> !(error is StaleFrame),
{
}

/// A portal that is posed shows what it was posed to, in the opening that it had.
pub proof fn lemma_posed_portal_is_shown_there(
    before: Scene,
    after: Scene,
    id: PortalId,
    a: [F32; 16],
    b: [F32; 16],
    measure: PortalMeasure,
    locals: Vec<Vec<[F32; 3]>>,
) -> (k: int)
    requires
        before.wf(),
        after.wf(),
        before.portal_posed(&after, id, a, b, measure, locals, Ok(())),
    ensures
        0 <= k < after.spaces.portal_views@.len(),
        shows(
            after.spaces.portal_views@[k],
            a,
            measure.a_inverse,
            before.spaces.portals@[id].half_extent,
            before.spaces.portals@[id].row,
        ),
        after.spaces.portals@[id].a == a,
        after.spaces.portals@[id].b == b,
        after.spaces.history.current@[before.spaces.portals@[id].row as int]
            == measure.pair_map_inverse,
        after.spaces.history.previous@ == before.spaces.history.previous@,
        after.spaces.locals == locals,
{
    crate::portal_showing::lemma_moved_portal_is_shown_there(
        before.spaces,
        after.spaces,
        id,
        a,
        b,
        measure,
    )
}

/// A portal that is resized shows the same place in the opening it was resized to.
pub proof fn lemma_resized_portal_shows_the_same_place(
    before: Scene,
    after: Scene,
    id: PortalId,
    half_extent: [F32; 2],
) -> (k: int)
    requires
        before.wf(),
        after.wf(),
        before.portal_resized(&after, id, half_extent, Ok(())),
    ensures
        0 <= k < after.spaces.portal_views@.len(),
        shows(
            after.spaces.portal_views@[k],
            before.spaces.portals@[id].a,
            before.spaces.portals@[id].a_inverse,
            half_extent,
            before.spaces.portals@[id].row,
        ),
        after.spaces.portals@[id].a == before.spaces.portals@[id].a,
        after.spaces.portals@[id].b == before.spaces.portals@[id].b,
        after.spaces.history.current@ == before.spaces.history.current@,
        after.spaces.history.previous@ == before.spaces.history.previous@,
{
    lemma_portal_has_one_view(after.spaces, id)
}

/// A portal that is removed is gone, its row maps to itself, and every other portal stays.
pub proof fn lemma_removed_portal_is_gone(
    before: Scene,
    after: Scene,
    id: PortalId,
    other: PortalId,
)
    requires
        before.wf(),
        after.wf(),
        before.spaces.portals@.contains_key(id),
        before.spaces.portal_taken(&after.spaces, id),
        other != id,
    ensures
        !after.spaces.portals@.contains_key(id),
        after.spaces.portals@.contains_key(other) <==> before.spaces.portals@.contains_key(other),
        after.spaces.portals@[other] == before.spaces.portals@[other],
        after.spaces.portal_views@.len() == before.spaces.portal_views@.len() - 1,
        ({
            let row = before.spaces.portals@[id].row;
            let one = F32 { bits: 0x3F80_0000 };
            let zero = F32 { bits: 0 };
            let back = after.spaces.history.current@[row as int];
            &&& forall|k: int|
                0 <= k < 16 ==> #[trigger] back@[k] == if k % 5 == 0 {
                    one
                } else {
                    zero
                }
            &&& after.spaces.history.previous@[row as int] == back
        }),
{
    let _ = lemma_portal_has_one_view(before.spaces, id);
    before.spaces.portals.lemma_contains(id);
    let p = before.spaces.portals.place(id);
    assert(before.spaces.portals.value_by_slot@[p].row < before.spaces.history.current@.len());
    crate::portals::lemma_all_ordered(
        after.spaces.portals.value_by_slot@,
        after.spaces.field.capacity as int,
    );
}

/// A foliage type that is removed is gone from the types and from every layer; its material
/// has one user fewer, and is gone if that was the last.
pub proof fn lemma_removed_type_is_gone(
    before: Scene,
    after: Scene,
    id: FoliageTypeId,
    layer: FoliageLayerId,
    other: FoliageTypeId,
)
    requires
        before.wf(),
        before.foliage.types@.contains_key(id),
        before.foliage_type_removed(&after, id),
        before.foliage.layers@.contains_key(layer),
        other != id,
    ensures
        !after.foliage.types@.contains_key(id),
        after.foliage.layers@.contains_key(layer),
        !after.foliage.layers@[layer].types@.contains(id),
        after.foliage.layers@[layer].types@.contains(other)
            <==> before.foliage.layers@[layer].types@.contains(other),
        ({
            let material = before.foliage.types@[id].material;
            let users = before.materials@[material].ref_count;
            &&& after.materials@.contains_key(material) <==> users > 1
            &&& users > 1 ==> after.materials@[material].ref_count == users - 1
        }),
        after.foliage.generation != before.foliage.generation,
{
    before.foliage.types.lemma_places_agree(id);
    let p = before.foliage.types.place(id);
    before.foliage.types.lemma_dense(p);
    crate::references::lemma_foliage_material_live(
        before.materials@,
        before.objects.spec_values(),
        before.virtual_geometry.spec_values(),
        before.foliage.spec_types(),
        p,
    );
    crate::groves::lemma_forgotten_type_is_gone(
        before.foliage.layers@[layer].types@,
        id,
        other,
    );
    assert(after.foliage.layers@.dom().contains(layer));
}

/// An object that is put into other groups is in those, stands where it stood, and no other
/// object changes.
pub proof fn lemma_regrouped_object_stays_as_it_is(
    before: Scene,
    after: Scene,
    id: ObjectId,
    groups: GroupMask,
    other: ObjectId,
)
    requires
        before.regrouped(&after, id, groups),
        other != id,
    ensures
        after.objects.records@[id].groups == groups,
        after.objects.records@[id].pose == before.objects.records@[id].pose,
        after.objects.records@[id].mesh == before.objects.records@[id].mesh,
        after.objects.records@[id].material == before.objects.records@[id].material,
        after.objects.records@[id].movability == before.objects.records@[id].movability,
        after.objects.records@[other] == before.objects.records@[other],
        after.objects.dirty == before.objects.dirty,
        after.hidden_groups == before.hidden_groups,
        after.bake_invalidated == before.bake_invalidated,
{
}

/// There is room for as many shadow faces as was last asked, at least one and at most 256;
/// asking for as many as there are leaves the atlas as it is.
pub proof fn lemma_face_capacity_is_as_asked(before: Scene, after: Scene, capacity: u32)
    requires
        before.face_capacity_set(&after, capacity),
    ensures
        1 <= capacity <= 256 ==> after.lights.shadow_face_capacity == capacity,
        1 <= after.lights.shadow_face_capacity <= 256,
        capacity > 256 ==> after.lights.shadow_face_capacity == 256,
        capacity == 0 ==> after.lights.shadow_face_capacity == 1,
        capacity == before.lights.shadow_face_capacity && 1 <= capacity <= 256
            ==> after.lights.projection.atlas_dirty == before.lights.projection.atlas_dirty,
        after.lights.shadow_face_capacity != before.lights.shadow_face_capacity
            ==> after.lights.projection.atlas_dirty,
        after.lights.records == before.lights.records,
{
}

/// The first sky that is claimed stays under any further claim; only an update replaces it.
pub proof fn lemma_sky_is_claimed_once(
    before: Scene,
    between: Scene,
    after: Scene,
    first: SkyContext,
    second: SkyContext,
    third: SkyContext,
    updated: Scene,
)
    requires
        before.frame.sky is None,
        before.sky_claimed(&between, first, true),
        between.sky_claimed(&after, second, false),
        after.sky_updated(&updated, third, true),
    ensures
        between.frame.sky == Some(first),
        after == between,
        updated.frame.sky == Some(third),
        updated.frame.camera_generation == before.frame.camera_generation,
{
}

/// A volume that was just edited waits anew; what it holds and where stays.
pub proof fn lemma_edited_volume_waits_anew(
    before: Scene,
    after: Scene,
    id: VoxelVolumeId,
    other: VoxelVolumeId,
)
    requires
        before.volume_edited(&after, id, Ok(())),
        other != id,
    ensures
        after.voxels.volumes@[id].record.edit_cooldown == 0,
        after.voxels.volumes@[id].record.material_palette
            == before.voxels.volumes@[id].record.material_palette,
        after.voxels.volumes@[id].row == before.voxels.volumes@[id].row,
        after.voxels.volumes@[id].mode == before.voxels.volumes@[id].mode,
        after.voxels.volumes@[other] == before.voxels.volumes@[other],
        after.voxels.meshes == before.voxels.meshes,
{
}

/// Bricks of eight voxels a side reach the end of a dimension, and one fewer does not.
pub proof fn lemma_bricks_reach_the_end(dimension: u32)
    ensures
        crate::voxels::brick_axis(dimension) * 8 >= dimension,
        dimension > 0 ==> (crate::voxels::brick_axis(dimension) - 1) * 8 < dimension,
        dimension == 0 ==> crate::voxels::brick_axis(dimension) == 0,
{
}

} // verus!
