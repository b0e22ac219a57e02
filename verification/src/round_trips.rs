//! What a read gives back of a write, and what stays of a resource while it is used.
use vstd::prelude::*;

use crate::actors::{
    lemma_filter_contains, registered_only, registers, ActorTarget, SceneActorId,
};
use crate::counting::{lemma_occurrences_positive, lemma_total_at_least};
use crate::draws::MeshSlice;
use crate::errors::SceneError;
use crate::float_bits::F32;
use crate::handles::{
    Entity, FoliageTypeId, Handle, MaterialId, MeshId, MultiMeshId, ObjectId, PortalId,
    SceneExtensionEntity, SceneSpriteId, SectionedInstanceId, SublevelId, TextureId,
    VirtualMeshId, WaterVolumeId,
};
use crate::lifecycle::ActorAttachment;
use crate::materials::{slot_uses, texture_uses, TEXTURE_SLOTS};
use crate::objects::{object_movability, ObjectDescriptor};
use crate::planar_reflections::{PlanarMeasure, PlanarReflectorDescriptor};
use crate::portals::{portal_record, PortalDescriptor, PortalMeasure};
use crate::presentation::{emitter_words, ScenePresentation};
use crate::projected_table::ProjectedTable;
use crate::references::{lemma_foliage_material_live, MeshRecord};
use crate::rows::NewRow;
use crate::scene::{actor_entities, names_actor_of, Scene};
use crate::scene_actors::{MeshActor, MeshUpload, VirtualMeshActor, VirtualMeshUpload};
use crate::sectioned_objects::{listed_materials, section_ids, SectionPlacement};
use crate::spaces::{Spaces, SublevelRecord};
use crate::sprites::SceneSpriteRow;
use crate::virtual_geometry::VirtualMeshRecord;
use crate::water::WaterSimulationTarget;
use crate::water_rows::{WaterUnitVectors, WaterVolumeDescriptor};

verus! {

/// What was inserted in a table reads back, and all else in it is as it was.
pub proof fn lemma_insertion_reads_back<H: Handle, R>(
    before: ProjectedTable<H, R>,
    after: ProjectedTable<H, R>,
    id: H,
    gpu_row: u32,
    record: R,
    other: H,
)
    requires
        before.inserted(&after, id, gpu_row, record),
        other != id,
    ensures
        after@.contains_key(id) && after@[id] == record,
        after@.contains_key(other) <==> before@.contains_key(other),
        before@.contains_key(other) ==> after@[other] == before@[other],
{
}

/// What was removed from a table reads no more, and all else in it is as it was.
pub proof fn lemma_removal_reads_nothing<H: Handle, R>(
    before: ProjectedTable<H, R>,
    after: ProjectedTable<H, R>,
    id: H,
    other: H,
)
    requires
        before.removed(&after, id),
        other != id,
    ensures
        !after@.contains_key(id),
        after@.contains_key(other) <==> before@.contains_key(other),
        before@.contains_key(other) ==> after@[other] == before@[other],
{
}

/// Removing what was inserted last leaves a table as it was: the same entries, in the
/// same compact slots, with the same rows.
pub proof fn lemma_removal_undoes_insertion<H: Handle, R>(
    before: ProjectedTable<H, R>,
    between: ProjectedTable<H, R>,
    after: ProjectedTable<H, R>,
    id: H,
    gpu_row: u32,
    record: R,
)
    requires
        before.wf(),
        between.wf(),
        before.inserted(&between, id, gpu_row, record),
        between.removed(&after, id),
        !before@.contains_key(id),
    ensures
        after@ == before@,
        after.spec_ids() == before.spec_ids(),
        after.spec_rows() == before.spec_rows(),
{
    let last = before.spec_len() as int;
    between.lemma_dense(last);
    assert(between.spec_ids()[last] == id);
    assert(between.place(id) == last);
    assert(after.spec_ids() =~= before.spec_ids());
    assert(after.spec_rows() =~= before.spec_rows());
    assert(after@ =~= before@);
}

/// An object reads back as it was described, with its mobility made explicit.
pub proof fn lemma_inserted_object_reads_back(
    before: Scene,
    after: Scene,
    new: NewRow,
    desc: ObjectDescriptor,
    normal_mat: [F32; 12],
)
    requires
        before.object_inserted(&after, new, desc, normal_mat),
    ensures
        after.objects.records@.contains_key(ObjectId(new.entity)),
        after.object_descriptor(ObjectId(new.entity)) == (ObjectDescriptor {
            movability: Some(object_movability(desc.movability)),
            ..desc
        }),
{
}

/// A reflector's row keeps what was authored of it: where it stands, how far it reaches,
/// its tolerance and its priority. Only its axes are made a unit basis.
pub proof fn lemma_reflector_row_keeps_authorship(
    desc: PlanarReflectorDescriptor,
    measure: PlanarMeasure,
)
    ensures
        ({
            let row = desc.accepted_row(measure);
            &&& row.position_tolerance@.take(3) == desc.position@
            &&& row.position_tolerance[3] == desc.surface_tolerance
            &&& row.normal_cos_threshold@.take(3) == measure.normal@
            &&& row.tangent_priority@.take(3) == measure.tangent@
            &&& row.tangent_priority[3] == desc.priority
            &&& row.half_extents_reserved@.take(2) == desc.half_extents@
        }),
{
    let row = desc.accepted_row(measure);
    assert(row.position_tolerance@.take(3) =~= desc.position@);
    assert(row.normal_cos_threshold@.take(3) =~= measure.normal@);
    assert(row.tangent_priority@.take(3) =~= measure.tangent@);
    assert(row.half_extents_reserved@.take(2) =~= desc.half_extents@);
}

/// A sublevel reads back where it was placed, its row shows that placement, and the row
/// keeps nothing of an earlier owner.
pub proof fn lemma_added_sublevel_reads_back(
    before: Spaces,
    after: Spaces,
    id: SublevelId,
    record: SublevelRecord,
)
    requires
        before.wf(),
        before.free_row(record.row),
        before.sublevel_added(&after, id, record),
    ensures
        after.sublevels@[id].placement == record.placement,
        after.history.current@[record.row as int] == record.placement,
        after.history.previous@[record.row as int] == record.placement,
{
}

/// A portal reads back as it was described.
pub proof fn lemma_added_portal_reads_back(
    before: Spaces,
    after: Spaces,
    id: PortalId,
    desc: PortalDescriptor,
    measure: PortalMeasure,
    row: u32,
)
    requires
        before.portal_added(&after, id, portal_record(desc, measure, row)),
    ensures
        after.portals@.contains_key(id),
        after.portals@[id].a == desc.a,
        after.portals@[id].b == desc.b,
        after.portals@[id].half_extent == desc.half_extent,
{
}

/// A sprite reads back as it was authored, on the layer where its atlas image stands.
pub proof fn lemma_inserted_sprite_reads_back(
    before: Scene,
    after: Scene,
    entity: Entity,
    row: SceneSpriteRow,
)
    requires
        before.sprite_inserted(&after, entity, row),
    ensures
        after.sprites.sprites@.contains_key(SceneSpriteId(entity)),
        after.sprites.sprites@[SceneSpriteId(entity)].body == row.body,
        after.sprites.sprites@[SceneSpriteId(entity)].atlas == row.atlas,
        row.atlas is None ==> after.sprites.sprites@[SceneSpriteId(entity)].physical_layer is None,
        row.atlas matches Some(atlas)
            ==> after.sprites.sprites@[SceneSpriteId(entity)].physical_layer == Some(
            before.sprites.layers@[atlas].physical_layer,
        ),
{
}

/// A volume that takes over a heightfield is told apart from whoever had it before: what
/// was queued for that one names an older residency.
pub proof fn lemma_reused_heightfield_is_told_apart(
    before: Scene,
    after: Scene,
    new: NewRow,
    desc: WaterVolumeDescriptor,
    units: WaterUnitVectors,
    user_tag: u64,
    queued: WaterSimulationTarget,
)
    requires
        before.wf(),
        after.wf(),
        desc.simulates(),
        before.water_volume_inserted(
            &after,
            new,
            desc,
            units,
            user_tag,
            Ok(WaterVolumeId(new.entity)),
        ),
        before.water.projection.free_sim_slots@.len() > 0,
        queued.sim_slot == before.water.projection.free_sim_slots@.last(),
        queued.residency_generation == before.water.slot_generations[queued.sim_slot as int],
    ensures
        ({
            let target = after.sim_target(WaterVolumeId(new.entity));
            &&& target is Ok
            &&& target->Ok_0.sim_slot == queued.sim_slot
            &&& target->Ok_0.residency_generation != queued.residency_generation
        }),
{
    let id = WaterVolumeId(new.entity);
    let active = after.water.projection.active;
    let last = before.water.projection.active.spec_len() as int;
    assert(active.spec_ids()[last] == id);
    active.rows.lemma_dense(last);
    assert(after.water.projection.slot_of(id) == queued.sim_slot);
    let free = before.water.projection.free_sim_slots@;
    assert(free[free.len() - 1] == queued.sim_slot);
    assert(queued.sim_slot < 8);
    assert(after.water.slot_generations[queued.sim_slot as int]
        == before.water.slot_generations[queued.sim_slot as int].wrapping_add(1));
}

/// While a material names a texture, the texture lives and counts the material, so that
/// removing it is refused.
pub proof fn lemma_material_holds_its_textures(
    scene: Scene,
    material: MaterialId,
    k: int,
    texture: TextureId,
)
    requires
        scene.wf(),
        scene.materials@.contains_key(material),
        0 <= k < TEXTURE_SLOTS,
        scene.materials@[material].textures@[k] == Some(texture),
    ensures
        scene.textures@.contains_key(texture),
        scene.textures@[texture].ref_count > 0,
{
    scene.materials.lemma_contains(material);
    let values = scene.materials.value_by_slot@;
    let i = scene.materials.place(material);
    let slots = values[i].textures@;
    assert(slots[k] == Some(texture));
    assert(slots.contains(Some(texture)));
    lemma_occurrences_positive(slots, Some(texture));
    lemma_total_at_least(values, i, slot_uses(texture));
    assert(texture_uses(values, texture) > 0);
}

/// While a foliage type lives, its material does, and counts the type.
pub proof fn lemma_foliage_type_holds_its_material(scene: Scene, id: FoliageTypeId)
    requires
        scene.wf(),
        scene.foliage.types@.contains_key(id),
    ensures
        ({
            let material = scene.foliage.types@[id].material;
            &&& scene.materials@.contains_key(material)
            &&& scene.materials@[material].ref_count > 0
        }),
{
    scene.foliage.types.records.lemma_contains(id);
    lemma_foliage_material_live(
        scene.materials@,
        scene.objects.spec_values(),
        scene.virtual_geometry.spec_values(),
        scene.foliage.spec_types(),
        scene.foliage.types.records.place(id),
    );
}

/// While a sectioned mesh lives, so does the geometry of its sections, placed or not:
/// removing a section's mesh is refused.
pub proof fn lemma_asset_holds_its_sections(scene: Scene, id: MultiMeshId, k: int)
    requires
        scene.wf(),
        scene.sections.multi_meshes@.contains_key(id),
        0 <= k < scene.sections.multi_meshes@[id].section_mesh_ids@.len(),
    ensures
        ({
            let mesh = scene.sections.multi_meshes@[id].section_mesh_ids@[k];
            &&& scene.meshes@.contains_key(mesh)
            &&& scene.removal_answer(SceneActorId::Mesh(mesh)) == Err::<(), _>(
                SceneError::ResourceInUse { resource: "mesh" },
            )
        }),
{
    assert(scene.sections.asset_linked(id, scene.meshes@));
    let mesh = scene.sections.multi_meshes@[id].section_mesh_ids@[k];
    assert(scene.meshes@.contains_key(mesh));
}

/// Actors that register during a frame run from the next one on, behind all that ran in
/// it and are still wanted; each of those ran in it.
pub proof fn lemma_newcomers_run_last(
    during: Scene,
    after: Scene,
    running: Seq<SceneActorId>,
    i: int,
)
    requires
        during.frame_advanced(&after, running),
        0 <= i < after.actors.retained@.len(),
    ensures
        ({
            let order = after.actors.retained@;
            let newcomers = during.actors.retained@;
            let first = order.len() - newcomers.len();
            if i < first {
                running.contains(order[i]) && during.actors.registered(order[i])
            } else {
                order[i] == newcomers[i - first]
            }
        }),
{
    let order = after.actors.retained@;
    let first = order.len() - during.actors.retained@.len();
    if i < first {
        let keep = |id: SceneActorId| registers(during.actors.targets@, id);
        let stayed = registered_only(running, during.actors.targets@);
        assert(stayed =~= running.filter(keep));
        assert(stayed[i] == order[i]);
        assert(running.filter(keep).contains(order[i]));
        lemma_filter_contains(running, keep, order[i]);
    }
}

/// The first actor that brings a sky decides it; later ones change nothing.
pub proof fn lemma_first_sky_wins(
    before: Scene,
    between: Scene,
    after: Scene,
    first: ActorAttachment,
    second: ActorAttachment,
    identities: (SceneExtensionEntity, SceneExtensionEntity),
    ids: (SceneActorId, SceneActorId),
)
    requires
        before.frame.sky is None,
        first.sky is Some,
        before.actor_inserted(&between, first, identities.0, ids.0),
        between.actor_inserted(&after, second, identities.1, ids.1),
    ensures
        after.frame.sky == first.sky,
{
}

/// Handing in the emitters that are simulated already changes nothing.
pub proof fn lemma_same_emitters_are_no_change(
    before: ScenePresentation,
    after: ScenePresentation,
    emitters: Seq<Seq<u32>>,
)
    requires
        before.emitters_replaced(&after, emitters),
        emitter_words(before.corona_emitters@) == emitters,
    ensures
        emitter_words(after.corona_emitters@) == emitter_words(before.corona_emitters@),
        after.corona_generation == before.corona_generation,
        after.corona_reset_epoch == before.corona_reset_epoch,
{
}

/// An entity that is despawned is an entity no more, and nothing that it named runs. An
/// actor that belongs to the entity may be named by another one only beside an actor that
/// the entity names itself.
pub proof fn lemma_despawned_entity_is_gone(
    before: Scene,
    after: Scene,
    entity: SceneExtensionEntity,
    key: u64,
)
    requires
        before.despawned(entity, &after),
        before.actors.concerned(SceneActorId::Custom(entity)) ==> before.actors.registered(
            SceneActorId::Custom(entity),
        ),
    ensures
        !after.data.alive(entity),
        !after.data.carries(entity, key),
        !after.actors.registered(SceneActorId::Custom(entity)),
{
    let target = SceneActorId::Custom(entity);
    let targets = before.actors.targets@;
    if before.actors.concerned(target) {
        let i = choose|i: int| 0 <= i < targets.len() && (#[trigger] targets[i]).id == target;
        assert(targets[i].concerns(target));
        assert(names_actor_of(targets, target, entity));
        assert(actor_entities(targets, target).contains(entity));
    }
    let keep = |t: ActorTarget| !t.concerns(target);
    let left = after.actors.targets@;
    if after.actors.registered(target) {
        let i = choose|i: int| 0 <= i < left.len() && (#[trigger] left[i]).id == target;
        assert(left.contains(left[i]));
        lemma_filter_contains(targets, keep, left[i]);
    }
}

/// A copy of a placed instance stands where the instance stands, with the same bounds,
/// and each of its sections has the material of the section that it copies.
pub proof fn lemma_copy_keeps_placement_and_materials(
    before: Scene,
    after: Scene,
    id: SectionedInstanceId,
    entity: Entity,
    rows: Seq<NewRow>,
    fallback: SectionPlacement,
    k: int,
)
    requires
        before.wf(),
        after.wf(),
        before.instance_fits(entity, rows),
        before.sections.instances@.contains_key(id),
        before.sections.instances@[id].section_objects@.len() <= rows.len(),
        before.instance_placed(
            &after,
            entity,
            rows,
            before.sections.instances@[id].multi_mesh,
            listed_materials(
                before.objects.records@,
                before.sections.instances@[id].section_objects@,
            ),
            before.copied_placement(id, fallback),
            Ok(SectionedInstanceId(entity)),
        ),
        0 <= k < before.sections.instances@[id].section_objects@.len(),
    ensures
        ({
            let source = before.sections.instances@[id].section_objects@;
            let copy = after.sections.instances@[SectionedInstanceId(entity)].section_objects@;
            let first = before.objects.records@[source[0]];
            &&& copy.len() == source.len()
            &&& after.objects.records@.contains_key(copy[k])
            &&& after.objects.records@[copy[k]].pose.model == first.pose.model
            &&& after.objects.records@[copy[k]].pose.sphere == first.pose.sphere
            &&& after.objects.records@[copy[k]].movability == first.movability
            &&& after.objects.records@[copy[k]].material
                == before.objects.records@[source[k]].material
        }),
{
    let source = before.sections.instances@[id].section_objects@;
    let materials = listed_materials(before.objects.records@, source);
    let n = before.objects.records.value_by_slot@.len() as int;
    let ids = section_ids(rows.take(materials.len() as int));
    assert(after.objects.records.id_by_slot@[n + k] == ids[k]);
    after.objects.records.lemma_dense(n + k);
}

/// A new mesh actor hands its upload over with the first attachment: the upload is gone,
/// the id names the one mesh that the scene gained. A second attachment changes nothing.
pub proof fn lemma_mesh_is_handed_over_once(
    upload: MeshUpload,
    actors: (MeshActor, MeshActor),
    scenes: (Scene, Scene, Scene),
    entities: (Entity, Entity),
    slices: (MeshSlice, MeshSlice),
)
    requires
        (MeshActor { upload: Some(upload), mesh_id: None }).attached(
            &actors.0,
            &scenes.0,
            &scenes.1,
            entities.0,
            slices.0,
        ),
        actors.0.attached(&actors.1, &scenes.1, &scenes.2, entities.1, slices.1),
    ensures
        actors.0.upload is None,
        actors.0.mesh_id == Some(MeshId(entities.0)),
        scenes.1.meshes@ == scenes.0.meshes@.insert(
            MeshId(entities.0),
            MeshRecord { slice: slices.0, ref_count: 0, owner: None },
        ),
        actors.1 == actors.0,
        scenes.2 == scenes.1,
{
}

/// A new virtual mesh actor hands its upload over with the first attachment: the upload is
/// gone, the id names the one virtual mesh that the scene gained. A second attachment
/// changes nothing.
pub proof fn lemma_virtual_mesh_is_handed_over_once(
    upload: VirtualMeshUpload,
    actors: (VirtualMeshActor, VirtualMeshActor),
    scenes: (Scene, Scene, Scene),
    entities: (Entity, Entity),
    first_meshes: (Option<MeshId>, Option<MeshId>),
    meshlet_counts: (u32, u32),
)
    requires
        (VirtualMeshActor { upload: Some(upload), virtual_mesh_id: None }).attached(
            &actors.0,
            &scenes.0,
            &scenes.1,
            entities.0,
            first_meshes.0,
            meshlet_counts.0,
        ),
        actors.0.attached(
            &actors.1,
            &scenes.1,
            &scenes.2,
            entities.1,
            first_meshes.1,
            meshlet_counts.1,
        ),
    ensures
        actors.0.upload is None,
        actors.0.virtual_mesh_id == Some(VirtualMeshId(entities.0)),
        scenes.1.virtual_geometry.meshes@ == scenes.0.virtual_geometry.meshes@.insert(
            VirtualMeshId(entities.0),
            VirtualMeshRecord {
                first_mesh: first_meshes.0,
                meshlet_count: meshlet_counts.0,
                ref_count: 0,
            },
        ),
        actors.1 == actors.0,
        scenes.2 == scenes.1,
{
}

/// Two live textures have different authored identities, so that at most one is found by
/// each.
pub proof fn lemma_texture_keys_differ(scene: Scene, a: TextureId, b: TextureId)
    requires
        scene.wf(),
        scene.textures@.contains_key(a),
        scene.textures@.contains_key(b),
        a != b,
    ensures
        scene.textures@[a].asset_key != scene.textures@[b].asset_key,
{
}

} // verus!
