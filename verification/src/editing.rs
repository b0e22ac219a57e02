//! What edits and removals leave.
use vstd::prelude::*;

use crate::bake::PickableObject;
use crate::extension_views::carriers;
use crate::float_bits::F32;
use crate::handles::{LightId, MaterialId, ObjectId, SceneExtensionEntity};
use crate::membership::space_named;
use crate::scene::Scene;

verus! {

/// Bounds read back as they were set; where the object stands and everything else about it
/// stays. Only a movable object counts as moved.
pub proof fn lemma_set_bounds_read_back(
    before: Scene,
    after: Scene,
    id: ObjectId,
    bounds: [F32; 4],
    other: ObjectId,
)
    requires
        before.object_bounded(&after, id, bounds, Ok(())),
    ensures
        before.objects.records@.contains_key(id),
        ({
            let was = before.objects.records@[id];
            let is = after.objects.records@[id];
            &&& is.pose.sphere == bounds
            &&& is.pose.model == was.pose.model
            &&& is.pose.flags == was.pose.flags
            &&& is.previous == was.previous
            &&& is.mesh == was.mesh
            &&& is.material == was.material
            &&& is.groups == was.groups
            &&& is.gpu_row == was.gpu_row
            &&& is.movability == was.movability
            &&& (after.objects.movable_generation == before.objects.movable_generation) == !(
            was.movability is Movable)
        }),
        other != id ==> after.objects.records@[other] == before.objects.records@[other],
{
}

/// An object that gets another material is drawn with its row, from the next rebuild on; the
/// new material has one user more and the old one less.
pub proof fn lemma_repainted_object_has_its_material(
    before: Scene,
    after: Scene,
    id: ObjectId,
    material: MaterialId,
)
    requires
        before.wf(),
        before.object_repainted(&after, id, material, Ok(())),
        before.objects.records@[id].material != material,
    ensures
        before.objects.records@.contains_key(id),
        before.materials@.contains_key(material),
        ({
            let was = before.objects.records@[id];
            let is = after.objects.records@[id];
            &&& is.material == material
            &&& is.material_row == before.materials@[material].gpu_row
            &&& is.mesh == was.mesh
            &&& is.pose == was.pose
            &&& is.gpu_row == was.gpu_row
            &&& is.groups == was.groups
            &&& after.objects.dirty
            &&& after.materials@[material].ref_count == (before.materials@[material].ref_count
                + 1) as u32
            &&& after.materials@[was.material].ref_count == (
            before.materials@[was.material].ref_count - 1) as u32
            &&& after.materials@[material].gpu == before.materials@[material].gpu
        }),
{
}

/// A removed object is gone, its mesh and material have one user less and stay, and no other
/// object changes. One that could not move outdates the bake and the static shadows.
pub proof fn lemma_removed_object_releases_its_assets(
    before: Scene,
    after: Scene,
    id: ObjectId,
    other: ObjectId,
)
    requires
        before.wf(),
        before.objects.records@.contains_key(id),
        before.object_removed(&after, id),
    ensures
        !after.objects.records@.contains_key(id),
        other != id && before.objects.records@.contains_key(other) ==> {
            &&& after.objects.records@.contains_key(other)
            &&& after.objects.records@[other] == before.objects.records@[other]
        },
        ({
            let was = before.objects.records@[id];
            &&& after.materials@[was.material].ref_count == (
            before.materials@[was.material].ref_count - 1) as u32
            &&& after.meshes@[was.mesh].ref_count == (before.meshes@[was.mesh].ref_count
                - 1) as u32
            &&& after.meshes@[was.mesh].slice == before.meshes@[was.mesh].slice
            &&& !(was.movability is Movable) ==> after.bake_invalidated
                && after.objects.static_dirty
            &&& was.movability is Movable ==> after.bake_invalidated == before.bake_invalidated
        }),
        after.objects.dirty,
        after.objects.records.spec_len() == before.objects.records.spec_len() - 1,
{
    before.objects.records.lemma_contains(id);
}

/// A removed light is gone, and no other light changes; those that are evaluated at run time
/// keep their rows and their parts of the atlas. One that may not move outdates the bake,
/// one that may asks for the atlas to be shared out anew.
pub proof fn lemma_removed_light_leaves_the_others(
    before: Scene,
    after: Scene,
    id: LightId,
    other: LightId,
)
    requires
        before.wf(),
        after.wf(),
        before.lights.records@.contains_key(id),
        before.light_removed(&after, id),
        before.lights.records@.contains_key(other),
        other != id,
    ensures
        !after.lights.records@.contains_key(id),
        after.lights.records@.contains_key(other),
        after.lights.records@[other] == before.lights.records@[other],
        before.lights.records@[id].movability is Movable ==> after.lights.projection.atlas_dirty
            && after.bake_invalidated == before.bake_invalidated,
        !(before.lights.records@[id].movability is Movable) ==> after.bake_invalidated
            && after.lights.slots@ == before.lights.slots@,
        before.lights.records@[other].movability is Movable ==> exists|i: int, j: int|
            0 <= i < before.lights.slots@.len() && 0 <= j < after.lights.slots@.len()
                && before.lights.projection.rows.rows.id_by_slot@[i] == other
                && after.lights.projection.rows.rows.id_by_slot@[j] == other
                && #[trigger] before.lights.slots@[i] == #[trigger] after.lights.slots@[j],
{
    if before.lights.records@[other].movability is Movable {
        let rows = before.lights.projection.rows.rows;
        let now = after.lights.projection.rows.rows;
        assert(rows@.contains_key(other));
        rows.lemma_contains(other);
        let i = rows.place(other);
        let last = before.lights.slots@.len() - 1;
        if before.lights.records@[id].movability is Movable {
            assert(rows@.contains_key(id));
            rows.lemma_contains(id);
            let gap = rows.place(id);
            assert(gap != i);
            let j = if i == last { gap } else { i };
            assert(after.lights.slots@[j] == before.lights.slots@[i]);
            assert(now.id_by_slot@[j] == other);
        } else {
            assert(after.lights.slots@[i] == before.lights.slots@[i]);
        }
    }
}

/// A ray finds every live object once: its id, mesh, model and tag, and the matrix of the
/// coordinate row that its flags name, unless that is the world's.
pub proof fn lemma_every_object_can_be_picked(
    scene: Scene,
    list: Seq<PickableObject>,
    id: ObjectId,
) -> (i: int)
    requires
        scene.wf(),
        scene.can_be_picked(list),
        scene.objects.records@.contains_key(id),
    ensures
        0 <= i < list.len(),
        list[i].id == id,
        forall|j: int| 0 <= j < list.len() && (#[trigger] list[j]).id == id ==> j == i,
        ({
            let record = scene.objects.records@[id];
            let row = space_named(scene, record.pose.flags);
            &&& list[i].mesh_id == record.mesh
            &&& list[i].model == record.pose.model
            &&& list[i].user_tag == record.user_tag
            &&& row == 0 ==> list[i].space is None
            &&& row != 0 ==> list[i].space == Some(scene.spaces.history.current@[row as int])
        }),
{
    let records = scene.objects.records;
    records.lemma_contains(id);
    let i = records.place(id);
    assert forall|j: int| 0 <= j < list.len() && (#[trigger] list[j]).id == id implies j == i by {
        if j != i {
            records.lemma_distinct(i, j);
        }
    }
    i
}

/// The entities that carry a component are found, each once and in order, and no others.
pub proof fn lemma_query_finds_the_carriers(
    ids: Seq<SceneExtensionEntity>,
    components: Seq<Vec<u64>>,
    key: u64,
    i: int,
)
    requires
        ids.len() == components.len(),
        ids.no_duplicates(),
        0 <= i < ids.len(),
    ensures
        carriers(ids, components, key).contains(ids[i]) <==> components[i]@.contains(key),
        carriers(ids, components, key).len() <= ids.len(),
        forall|k: int|
            0 <= k < carriers(ids, components, key).len() ==> ids.contains(
                #[trigger] carriers(ids, components, key)[k],
            ),
    decreases ids.len(),
{
    let rest = ids.drop_last();
    let fewer = components.drop_last();
    let last = ids.len() - 1;
    let found = carriers(rest, fewer, key);
    let all = carriers(ids, components, key);
    assert(rest.no_duplicates());
    if rest.len() > 0 {
        let j = if i < last { i } else { 0 };
        lemma_query_finds_the_carriers(rest, fewer, key, j);
        assert(rest[j] == ids[j] && fewer[j] == components[j]);
    }
    assert forall|k: int| 0 <= k < all.len() implies ids.contains(#[trigger] all[k]) by {
        if k < found.len() {
            assert(all[k] == found[k]);
            let m = rest.index_of(found[k]);
            assert(ids[m] == all[k]);
        } else {
            assert(ids[last] == all[k]);
        }
    }
    if found.contains(ids[i]) {
        assert(all[found.index_of(ids[i])] == ids[i]);
    }
    if all.contains(ids[i]) && i < last {
        let k = all.index_of(ids[i]);
        if k < found.len() {
            assert(found[k] == ids[i]);
        } else {
            assert(all[k] == ids[last]);
        }
    }
    if i == last {
        if components[i]@.contains(key) {
            assert(all[all.len() - 1] == ids[i]);
        } else if all.contains(ids[i]) {
            let k = all.index_of(ids[i]);
            assert(found[k] == ids[i]);
            let m = rest.index_of(found[k]);
            assert(ids[m] == ids[last]);
        }
    }
}

/// The foliage pass is told of as many types, layers and interactors as there are, their
/// greatest height and density, the wind and when they changed, and of nothing without a
/// type.
pub proof fn lemma_foliage_pass_is_told_of_everything(scene: Scene)
    ensures
        scene.frame_data() is None <==> scene.foliage.types.spec_len() == 0,
        scene.frame_data() matches Some(data) ==> {
            &&& data.type_count == scene.foliage.types.spec_len() as u32
            &&& data.layer_count == scene.foliage.layers.spec_len() as u32
            &&& data.interactor_count == scene.foliage.interactors.spec_len() as u32
            &&& data.max_height == scene.foliage.max_height
            &&& data.max_density == scene.foliage.max_density
            &&& data.wind == scene.foliage.wind
            &&& data.generation == scene.foliage.generation
        },
        scene.foliage.wf() && scene.frame_data() is Some
            ==> scene.frame_data()->0.layer_relation_count == scene.foliage.relations@.len(),
{
    if scene.foliage.wf() {
        crate::foliage::lemma_relation_total(scene.foliage.types, scene.foliage.spec_layers());
    }
}

} // verus!
