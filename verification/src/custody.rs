//! What the scene keeps of sections, captures, sprites, volumes and lists, and what a clear
//! leaves.
use vstd::prelude::*;

use crate::bake::{pool_indices, pool_vertices};
use crate::extension::{ComponentType, ExtensionComponentPolicy, MirrorMode, SceneData};
use crate::handles::{
    Entity, MaterialId, MeshId, MultiMeshId, PostProcessVolumeId, ReflectionCaptureId,
    SceneExtensionEntity, SceneSpriteId, SectionedInstanceId,
};
use crate::object_draws::{drawn_triangles, drawn_vertices};
use crate::objects::ObjectRecord;
use crate::presentation::{BillboardInstance, ScenePresentation};
use crate::references::MeshRecord;
use crate::reflections::{
    numbered_layers, static_captures, ReflectionCaptureRecord,
};
use crate::rows::NewRow;
use crate::scene::Scene;
use crate::sectioned_objects::SectionPlacement;
use crate::sprites::SceneSpriteRow;

verus! {

/// Each section of a placed instance is an object of its own mesh and material, where the
/// instance stands, which casts and receives shadows and belongs to no group. The instance
/// lists its sections in order, and nothing else about the scene's objects changes.
pub proof fn lemma_sections_are_placed_together(
    before: Scene,
    after: Scene,
    entity: Entity,
    rows: Seq<NewRow>,
    multi_mesh: MultiMeshId,
    materials: Seq<MaterialId>,
    placement: SectionPlacement,
    k: int,
    i: int,
)
    requires
        before.wf(),
        before.instance_placed(
            &after,
            entity,
            rows,
            multi_mesh,
            materials,
            placement,
            Ok(SectionedInstanceId(entity)),
        ),
        rows.len() >= materials.len(),
        0 <= k < materials.len(),
        0 <= i < before.objects.spec_values().len(),
    ensures
        ({
            let count = before.objects.spec_values().len();
            let record = after.objects.spec_values()[count + k];
            &&& after.objects.spec_values().len() == count + materials.len()
            &&& after.objects.records.id_by_slot@[count + k].0 == rows[k].entity
            &&& record.mesh == before.sections.multi_meshes@[multi_mesh].section_mesh_ids@[k]
            &&& record.material == materials[k]
            &&& record.material_row == before.materials@[materials[k]].gpu_row
            &&& record.gpu_row == rows[k].gpu_row
            &&& record.pose.model == placement.transform
            &&& record.pose.sphere == placement.bounds
            &&& record.pose.flags == 3
            &&& record.normal_mat == placement.normal_mat
            &&& record.groups.0 == 0
            &&& placement.movability matches Some(m) ==> record.movability == m
            &&& placement.movability is None ==> record.movability is Static
        }),
        after.objects.spec_values()[i] == before.objects.spec_values()[i],
        ({
            let id = SectionedInstanceId(entity);
            &&& after.sections.instances@.contains_key(id)
            &&& after.sections.instances@[id].section_objects@[k].0 == rows[k].entity
            &&& after.sections.instances@[id].section_objects@.len() == materials.len()
        }),
        after.objects.dirty,
{
    let count = before.objects.spec_values().len() as int;
    let n = materials.len() as int;
    assert(after.objects.spec_values()[count + k].mesh
        == before.sections.multi_meshes@[multi_mesh].section_mesh_ids@[k]);
    assert(rows.take(n)[k] == rows[k]);
    let ids = crate::sectioned_objects::section_ids(rows.take(n));
    assert((before.objects.records.id_by_slot@ + ids)[count + k] == ids[k]);
}

/// The capture never changes.
pub open spec fn fixed_capture(
    records: Map<ReflectionCaptureId, ReflectionCaptureRecord>,
    id: ReflectionCaptureId,
) -> bool {
    records[id].row.mobility is Static
}

/// The captures that never change are numbered in order, from nought and without a gap; the
/// others keep the layers they had.
pub proof fn lemma_fixed_captures_are_numbered_in_order(
    records: Map<ReflectionCaptureId, ReflectionCaptureRecord>,
    ids: Seq<ReflectionCaptureId>,
    layers: Seq<i32>,
    i: int,
    j: int,
)
    requires
        ids.len() == layers.len(),
        ids.len() <= i32::MAX,
        0 <= i < j < ids.len(),
        forall|m: int| i < m < j ==> !fixed_capture(records, #[trigger] ids[m]),
    ensures
        ({
            let numbered = numbered_layers(records, ids, layers);
            &&& numbered.len() == ids.len()
            &&& !fixed_capture(records, ids[i]) ==> numbered[i] == layers[i]
            &&& fixed_capture(records, ids[i]) && fixed_capture(records, ids[j]) ==> numbered[j]
                == numbered[i] + 1
            &&& fixed_capture(records, ids[i]) && (forall|m: int|
                0 <= m < i ==> !fixed_capture(records, #[trigger] ids[m])) ==> numbered[i] == 0
            &&& fixed_capture(records, ids[i]) ==> 0 <= numbered[i] <= i
        }),
{
    lemma_fixed_between(records, ids, i, j);
    lemma_fixed_count(records, ids, i);
    if forall|m: int| 0 <= m < i ==> !fixed_capture(records, #[trigger] ids[m]) {
        lemma_none_fixed(records, ids, i);
    }
}

proof fn lemma_fixed_between(
    records: Map<ReflectionCaptureId, ReflectionCaptureRecord>,
    ids: Seq<ReflectionCaptureId>,
    i: int,
    j: int,
)
    requires
        0 <= i < j <= ids.len(),
        forall|m: int| i < m < j ==> !fixed_capture(records, #[trigger] ids[m]),
    ensures
        static_captures(records, ids.take(j)).len() == static_captures(records, ids.take(i)).len()
            + (if fixed_capture(records, ids[i]) {
            1int
        } else {
            0
        }),
    decreases j - i,
{
    assert(ids.take(j).drop_last() =~= ids.take(j - 1));
    assert(ids.take(j).last() == ids[j - 1]);
    if i < j - 1 {
        lemma_fixed_between(records, ids, i, j - 1);
    }
}

proof fn lemma_fixed_count(
    records: Map<ReflectionCaptureId, ReflectionCaptureRecord>,
    ids: Seq<ReflectionCaptureId>,
    i: int,
)
    requires
        0 <= i <= ids.len(),
    ensures
        static_captures(records, ids.take(i)).len() <= i,
    decreases i,
{
    if i > 0 {
        assert(ids.take(i).drop_last() =~= ids.take(i - 1));
        lemma_fixed_count(records, ids, i - 1);
    }
}

proof fn lemma_none_fixed(
    records: Map<ReflectionCaptureId, ReflectionCaptureRecord>,
    ids: Seq<ReflectionCaptureId>,
    i: int,
)
    requires
        0 <= i <= ids.len(),
        forall|m: int| 0 <= m < i ==> !fixed_capture(records, #[trigger] ids[m]),
    ensures
        static_captures(records, ids.take(i)).len() == 0,
    decreases i,
{
    if i > 0 {
        assert(ids.take(i).drop_last() =~= ids.take(i - 1));
        assert(ids.take(i).last() == ids[i - 1]);
        lemma_none_fixed(records, ids, i - 1);
    }
}

/// A sprite is stored with what was authored of it, on the layer where its image stands, and
/// later than every sprite before it.
pub proof fn lemma_sprite_is_stored_on_its_layer(
    before: Scene,
    after: Scene,
    entity: Entity,
    row: SceneSpriteRow,
    other: SceneSpriteId,
)
    requires
        before.sprite_inserted(&after, entity, row),
        before.sprites.next_epoch != 0,
    ensures
        ({
            let stored = after.sprites.sprites@[SceneSpriteId(entity)];
            &&& after.sprites.sprites@.contains_key(SceneSpriteId(entity))
            &&& stored.body == row.body
            &&& stored.atlas == row.atlas
            &&& row.atlas matches Some(atlas) ==> stored.physical_layer == Some(
                before.sprites.layers@[atlas].physical_layer,
            )
            &&& row.atlas is None ==> stored.physical_layer is None
            &&& stored.authored_epoch == before.sprites.next_epoch
            &&& after.sprites.next_epoch == 0 || after.sprites.next_epoch > stored.authored_epoch
        }),
        other != SceneSpriteId(entity) ==> after.sprites.sprites@[other]
            == before.sprites.sprites@[other],
{
}

/// A sprite that is written anew keeps its place, has what was authored last, and is later
/// than before.
pub proof fn lemma_sprite_is_rewritten(
    before: Scene,
    after: Scene,
    id: SceneSpriteId,
    row: SceneSpriteRow,
)
    requires
        before.sprite_updated(&after, id, row),
    ensures
        ({
            let stored = after.sprites.sprites@[id];
            &&& stored.body == row.body
            &&& stored.atlas == row.atlas
            &&& row.atlas matches Some(atlas) ==> stored.physical_layer == Some(
                before.sprites.layers@[atlas].physical_layer,
            )
            &&& row.atlas is None ==> stored.physical_layer is None
            &&& stored.authored_epoch == before.sprites.next_epoch
        }),
        after.sprites.sprites.id_by_slot == before.sprites.sprites.id_by_slot,
{
}

/// A live post-process volume is published by its row unless 256 others are, each of no
/// lower priority.
pub proof fn lemma_volume_is_published_by_priority(scene: Scene, id: PostProcessVolumeId)
    requires
        scene.wf(),
        scene.post_process.volumes@.contains_key(id),
    ensures
        ({
            let table = scene.post_process.volumes;
            let rows = scene.post_process.shader_rows@;
            let place = table.place(id);
            let own = table.spec_rows()[place];
            &&& rows.len() <= 256
            &&& rows.contains(own) || rows.len() == 256 && forall|k: int|
                0 <= k < rows.len() ==> exists|j: int|
                    0 <= j < table.spec_ids().len() && #[trigger] rows[k]
                        == #[trigger] table.spec_rows()[j]
                        && table@[id].row.priority.total_rank()
                        <= table@[table.spec_ids()[j]].row.priority.total_rank()
        }),
{
    let table = scene.post_process.volumes;
    let candidates = scene.post_process.candidates();
    table.lemma_places_agree(id);
    table.lemma_dense(table.place(id));
    let place = table.place(id);
    crate::selecting::lemma_highest_volumes_are_published(candidates, place);
    let rows = scene.post_process.shader_rows@;
    if !rows.contains(table.spec_rows()[place]) {
        assert forall|k: int| 0 <= k < rows.len() implies exists|j: int|
            0 <= j < table.spec_ids().len() && #[trigger] rows[k]
                == #[trigger] table.spec_rows()[j] && table@[id].row.priority.total_rank()
                <= table@[table.spec_ids()[j]].row.priority.total_rank() by {
            let j = choose|j: int|
                0 <= j < candidates.len() && rows[k] == (#[trigger] candidates[j]).1
                    && candidates[place].0.total_rank() <= candidates[j].0.total_rank();
            assert(rows[k] == table.spec_rows()[j]);
        }
    }
}

/// Billboards read back as they were set; their generation advances exactly if they differ
/// from those before, and nothing else changes.
pub proof fn lemma_set_billboards_read_back(
    before: ScenePresentation,
    after: ScenePresentation,
    billboards: Seq<BillboardInstance>,
)
    requires
        before.billboards_replaced(&after, billboards),
    ensures
        after.billboards@ == billboards,
        (after.billboard_generation == before.billboard_generation) == (before.billboards@
            == billboards),
        after.corona_emitters == before.corona_emitters,
        after.corona_generation == before.corona_generation,
        after.corona_reset_epoch == before.corona_reset_epoch,
{
}

/// Emitters read back as they were set; their generation advances exactly if they differ from
/// those before, and running simulations go on.
pub proof fn lemma_set_emitters_read_back(
    before: ScenePresentation,
    after: ScenePresentation,
    emitters: Seq<Seq<u32>>,
    i: int,
)
    requires
        before.emitters_replaced(&after, emitters),
        0 <= i < emitters.len(),
    ensures
        after.corona_emitters@.len() == emitters.len(),
        after.corona_emitters@[i].words@ == emitters[i],
        after.corona_reset_epoch == before.corona_reset_epoch,
        after.billboards == before.billboards,
        after.billboard_generation == before.billboard_generation,
        after.corona_generation == before.corona_generation || after.corona_generation
            == before.corona_generation.wrapping_add(1),
{
    assert(crate::presentation::emitter_words(after.corona_emitters@)[i] == emitters[i]);
}

/// The kind of a component follows from its columns: without any it stays with the
/// processor; otherwise it is tracked, handed over once, or mixed, as its columns all are
/// the one, all the other, or some of each.
pub proof fn lemma_policy_follows_the_columns(columns: Seq<MirrorMode>, i: int, j: int)
    requires
        0 <= i < columns.len(),
        0 <= j < columns.len(),
    ensures
        ({
            let policy = crate::extension::policy_of(columns);
            &&& !(policy is CpuOnly)
            &&& policy is DirtyTracked ==> columns[i] is DirtyTracked
            &&& policy is Once ==> columns[i] is Once
            &&& columns[i] is DirtyTracked && columns[j] is Once ==> policy is Mixed
            &&& crate::extension::policy_of(Seq::<MirrorMode>::empty()) is CpuOnly
        }),
{
}

/// A component that was added is carried, and adding it again is refused; no other entity
/// and no other component of this one changes.
pub proof fn lemma_added_component_is_carried(
    before: SceneData,
    after: SceneData,
    entity: SceneExtensionEntity,
    ty: ComponentType,
    expected: ExtensionComponentPolicy,
    other: SceneExtensionEntity,
    key: u64,
)
    requires
        before.added(&after, entity, &ty, expected, Ok(())),
        before.entities@.contains_key(other),
        key != ty.key,
    ensures
        before.entities@.contains_key(entity),
        !before.entities@[entity]@.contains(ty.key),
        after.entities@.contains_key(entity),
        after.entities@[entity]@.contains(ty.key),
        after.add_outcome(entity, &ty, expected) is Err,
        after.entities@[other]@.contains(key) <==> before.entities@[other]@.contains(key),
        other != entity ==> after.entities@[other]@ == before.entities@[other]@,
{
    let list = before.entities@[entity]@;
    assert(after.entities@[entity]@ == list.push(ty.key));
    assert(list.push(ty.key).last() == ty.key);
    assert(list.push(ty.key)[list.len() as int] == ty.key);
    if before.entities@[other]@.contains(key) {
        let k = before.entities@[other]@.index_of(key);
        assert(after.entities@[other]@[k] == key);
    }
    if after.entities@[other]@.contains(key) {
        let k = after.entities@[other]@.index_of(key);
        assert(before.entities@[other]@[k] == key);
    }
}

/// A component is accepted exactly if its kind is the one that was asked for and, unless the
/// kind was settled before or it stays with the processor, its columns are registered. An
/// accepted kind is settled from then on.
pub proof fn lemma_accepted_components(
    before: SceneData,
    after: SceneData,
    ty: ComponentType,
    expected: ExtensionComponentPolicy,
)
    requires
        before.settles(&after, &ty, expected),
    ensures
        before.verdict(&ty, expected) is Ok <==> {
            &&& expected == before.policy(&ty)
            &&& before.settled(ty.key) || expected is CpuOnly || ty.registered
        },
        before.verdict(&ty, expected) is Ok ==> after.settled(ty.key),
        before.verdict(&ty, expected) is Err ==> after.policies@ == before.policies@,
        !before.settled(ty.key) ==> before.policy(&ty) == crate::extension::policy_of(
            ty.columns@,
        ),
{
    if before.verdict(&ty, expected) is Ok && !before.settled(ty.key) {
        let n = before.policies@.len() as int;
        assert(after.policies@[n].key == ty.key);
    }
}

/// When an instance is removed, it and its sections are gone, its asset has one user less,
/// and each material and mesh as many as sections used it; no other object changes.
pub proof fn lemma_removed_instance_takes_its_sections(
    before: Scene,
    after: Scene,
    id: SectionedInstanceId,
    k: int,
    other: crate::handles::ObjectId,
)
    requires
        before.wf(),
        before.sections.instances@.contains_key(id),
        before.sectioned_object_removed(&after, id),
        0 <= k < before.sections.instances@[id].section_objects@.len(),
    ensures
        !after.sections.instances@.contains_key(id),
        ({
            let list = before.sections.instances@[id].section_objects@;
            &&& !after.objects.records@.contains_key(list[k])
            &&& !after.sections.instance_of@.contains_key(list[k])
            &&& !list.contains(other) && before.objects.records@.contains_key(other) ==> {
                &&& after.objects.records@.contains_key(other)
                &&& after.objects.records@[other] == before.objects.records@[other]
            }
            &&& before.objects.records@[list[k]].movability is Static ==> after.bake_invalidated
        }),
        after.sections.multi_meshes@[before.sections.instances@[id].multi_mesh].ref_count == (
        before.sections.multi_meshes@[before.sections.instances@[id].multi_mesh].ref_count
            - 1) as u32,
        after.objects.dirty,
{
    let list = before.sections.instances@[id].section_objects@;
    assert(list.contains(list[k]));
    assert(list.to_set().contains(list[k]));
    assert(list.to_set().contains(other) == list.contains(other));
}

/// A mesh adds its vertices and indices to what the pool holds, and an instance of it its
/// vertices and triangles to what is drawn.
pub proof fn lemma_counts_add_up(
    pool: Seq<MeshRecord>,
    mesh: MeshRecord,
    values: Seq<ObjectRecord>,
    object: ObjectRecord,
    meshes: Map<MeshId, MeshRecord>,
)
    ensures
        pool_vertices(pool.push(mesh)) == pool_vertices(pool) + mesh.slice.vertex_count,
        pool_indices(pool.push(mesh)) == pool_indices(pool) + mesh.slice.index_count,
        drawn_vertices(values.push(object), meshes) == drawn_vertices(values, meshes)
            + meshes[object.mesh].slice.vertex_count,
        drawn_triangles(values.push(object), meshes) == drawn_triangles(values, meshes)
            + meshes[object.mesh].slice.index_count as int / 3,
        pool_vertices(Seq::<MeshRecord>::empty()) == 0,
        pool_indices(Seq::<MeshRecord>::empty()) == 0,
        drawn_vertices(Seq::<ObjectRecord>::empty(), meshes) == 0,
        drawn_triangles(Seq::<ObjectRecord>::empty(), meshes) == 0,
{
    assert(pool.push(mesh).drop_last() =~= pool);
    assert(values.push(object).drop_last() =~= values);
}

/// A clear keeps the wind, the frame counter, the settled kinds of components, the size of
/// the shadow atlas and the order of sprites; it takes the sky, and retires running
/// simulations. Lists that were empty count as unchanged.
pub proof fn lemma_clear_keeps_the_setup(before: Scene, after: Scene)
    requires
        before.setup_kept(&after),
    ensures
        after.foliage.wind == before.foliage.wind,
        after.frame.frame_count == before.frame.frame_count,
        after.frame.sky is None,
        after.data.policies == before.data.policies,
        after.lights.shadow_face_capacity == before.lights.shadow_face_capacity,
        after.sprites.next_epoch == before.sprites.next_epoch,
        after.sprites.limits == before.sprites.limits,
        after.spaces.field == before.spaces.field,
        after.flag_bits == before.flag_bits,
        after.presentation.corona_reset_epoch
            == before.presentation.corona_reset_epoch.wrapping_add(1),
        after.presentation.corona_capacity == before.presentation.corona_capacity,
        (after.presentation.billboard_generation == before.presentation.billboard_generation)
            == (before.presentation.billboards@.len() == 0),
        (after.presentation.corona_generation == before.presentation.corona_generation) == (
        before.presentation.corona_emitters@.len() == 0),
        after.presentation.billboards@.len() == 0,
        after.presentation.corona_emitters@.len() == 0,
{
}

/// No handle leads to anything in an empty scene, nothing is hidden, and no actor runs.
pub proof fn lemma_nothing_lives_in_an_empty_scene(scene: Scene, entity: Entity, key: u64)
    requires
        scene.wf(),
        scene.is_empty(),
    ensures
        !scene.objects.records@.contains_key(crate::handles::ObjectId(entity)),
        !scene.lights.records@.contains_key(crate::handles::LightId(entity)),
        !scene.decals@.contains_key(crate::handles::DecalId(entity)),
        !scene.water.volumes@.contains_key(crate::handles::WaterVolumeId(entity)),
        !scene.water.hitboxes@.contains_key(crate::handles::WaterHitboxId(entity)),
        !scene.post_process.volumes@.contains_key(PostProcessVolumeId(entity)),
        !scene.reflections.captures@.contains_key(ReflectionCaptureId(entity)),
        !scene.planar_reflectors@.contains_key(crate::handles::PlanarReflectorId(entity)),
        !scene.voxels.volumes@.contains_key(crate::handles::VoxelVolumeId(entity)),
        !scene.virtual_geometry.objects@.contains_key(crate::handles::VirtualObjectId(entity)),
        !scene.virtual_geometry.meshes@.contains_key(crate::handles::VirtualMeshId(entity)),
        !scene.foliage.types@.contains_key(crate::handles::FoliageTypeId(entity)),
        !scene.foliage.layers@.contains_key(crate::handles::FoliageLayerId(entity)),
        !scene.sprites.sprites@.contains_key(SceneSpriteId(entity)),
        !scene.sprites.layers@.contains_key(crate::handles::SceneSpriteAtlasId(entity)),
        !scene.meshes@.contains_key(MeshId(entity)),
        !scene.materials@.contains_key(MaterialId(entity)),
        !scene.textures@.contains_key(crate::handles::TextureId(entity)),
        !scene.spaces.sublevels@.contains_key(crate::handles::SublevelId(entity)),
        !scene.spaces.portals@.contains_key(crate::handles::PortalId(entity)),
        !scene.sections.instances@.contains_key(SectionedInstanceId(entity)),
        !scene.sections.multi_meshes@.contains_key(MultiMeshId(entity)),
        !scene.data.entities@.contains_key(SceneExtensionEntity(entity)),
        !scene.data.subsystems@.contains_key(key),
        scene.hidden_groups.0 == 0,
        scene.actors.retained@.len() == 0,
        scene.sdf.terrain is None,
        scene.planets.entries@.len() == 0,
        scene.frame.sky is None,
{
}

} // verus!
