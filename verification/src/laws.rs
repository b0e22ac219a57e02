//! What holds of the scene across operations.
use vstd::prelude::*;

use crate::actors::SceneActorId;
use crate::errors::SceneError;
use crate::float_bits::F32;
use crate::groups::GroupId;
use crate::handles::{LightId, ObjectId, VirtualObjectId};
use crate::lights::{GpuLight, NO_SHADOW};
use crate::objects::{object_movability, ObjectDescriptor, ObjectRecord};
use crate::references::{
    lemma_object_material_live, lemma_object_mesh_live, lemma_virtual_material_live,
};
use crate::rows::{Movability, NewRow};
use crate::scene::Scene;
use crate::spaces::SpaceField;
use crate::sublevels::group_tagged;
use crate::virtual_geometry::{object_assets, virtual_mesh_uses};

verus! {

/// While an object lives, its mesh and its material do: removing them is refused.
pub proof fn lemma_object_holds_its_assets(scene: Scene, id: ObjectId)
    requires
        scene.wf(),
        scene.objects.records@.contains_key(id),
    ensures
        ({
            let record = scene.objects.records@[id];
            &&& scene.meshes@.contains_key(record.mesh)
            &&& scene.materials@.contains_key(record.material)
            &&& scene.removal_answer(SceneActorId::Mesh(record.mesh)) == Err::<(), _>(
                SceneError::ResourceInUse { resource: "mesh" },
            )
            &&& scene.materials@[record.material].ref_count > 0
        }),
{
    let i = scene.objects.records.place(id);
    scene.objects.records.lemma_contains(id);
    lemma_object_mesh_live(scene.meshes@, scene.objects.spec_values(), i);
    lemma_object_material_live(
        scene.materials@,
        scene.objects.spec_values(),
        scene.virtual_geometry.spec_values(),
        scene.foliage.spec_types(),
        i,
    );
}

/// While a virtual object lives, its virtual mesh and its material do: removing them is
/// refused.
pub proof fn lemma_virtual_object_holds_its_assets(scene: Scene, id: VirtualObjectId)
    requires
        scene.wf(),
        scene.virtual_geometry.objects@.contains_key(id),
    ensures
        ({
            let record = scene.virtual_geometry.objects@[id];
            &&& scene.removal_answer(SceneActorId::VirtualMesh(record.virtual_mesh)) == Err::<
                (),
                _,
            >(SceneError::ResourceInUse { resource: "virtual_mesh" })
            &&& scene.materials@.contains_key(record.material)
            &&& scene.materials@[record.material].ref_count > 0
        }),
{
    let i = scene.virtual_geometry.objects.place(id);
    let values = scene.virtual_geometry.spec_values();
    scene.virtual_geometry.objects.lemma_contains(id);
    assert(object_assets(values)[i] == values[i].virtual_mesh);
    crate::counting::lemma_occurrences_positive(object_assets(values), values[i].virtual_mesh);
    assert(virtual_mesh_uses(values, values[i].virtual_mesh) > 0);
    lemma_virtual_material_live(
        scene.materials@,
        scene.objects.spec_values(),
        values,
        scene.foliage.spec_types(),
        i,
    );
}

/// An object that is a section of a placed sectioned mesh cannot be removed on its own.
pub proof fn lemma_section_is_not_removed_alone(scene: Scene, id: ObjectId)
    requires
        scene.wf(),
        scene.sections.instance_of@.contains_key(id),
    ensures
        scene.removal_answer(SceneActorId::Object(id)) is Err,
        scene.objects.records@.contains_key(id),
        scene.removal_answer(
            SceneActorId::SectionedObject(scene.sections.instance_of@[id]),
        ) is Ok,
{
}

/// A light that was inserted reads back as it was authored, but for the atlas layer that
/// was asked for: only whether one was asked for is kept.
pub proof fn lemma_inserted_light_reads_back(
    before: Scene,
    after: Scene,
    new: NewRow,
    light: GpuLight,
    movability: Movability,
    user_tag: u64,
)
    requires
        before.light_inserted(&after, new, light, movability, user_tag),
    ensures
        after.lights.records@.contains_key(LightId(new.entity)),
        after.lights.records@[LightId(new.entity)].row.spec_authored() == (GpuLight {
            shadow_index: if light.shadow_index == NO_SHADOW {
                NO_SHADOW
            } else {
                0
            },
            ..light
        }),
{
}

/// What an inserted light or object does not name stays as it was.
pub proof fn lemma_light_insertion_leaves_others(
    before: Scene,
    after: Scene,
    new: NewRow,
    light: GpuLight,
    movability: Movability,
    user_tag: u64,
    other: LightId,
)
    requires
        before.light_inserted(&after, new, light, movability, user_tag),
        before.lights.records@.contains_key(other),
        other != LightId(new.entity),
    ensures
        after.lights.records@.contains_key(other),
        after.lights.records@[other] == before.lights.records@[other],
{
}

/// Members of a group that were taken into a space and then out of it are in the world's
/// space, and their other flags are what they were.
pub proof fn lemma_leaving_a_space_leads_to_the_world(
    field: SpaceField,
    values: Seq<ObjectRecord>,
    group: GroupId,
    space: u32,
    i: int,
)
    requires
        field.wf(),
        1 <= space < field.capacity,
        0 <= i < values.len(),
        values[i].groups.has(group),
    ensures
        ({
            let inside = group_tagged(field, values, group, None, space);
            let outside = group_tagged(field, inside, group, Some(space), 0);
            &&& field.space_of(inside[i].pose.flags) == space
            &&& field.space_of(outside[i].pose.flags) == 0
            &&& outside[i].pose.flags & !field.occupied_bits() == values[i].pose.flags
                & !field.occupied_bits()
            &&& outside[i].pose.model == values[i].pose.model
        }),
{
    let inside = group_tagged(field, values, group, None, space);
    field.lemma_tag_reads_back(values[i].pose.flags, space);
    field.lemma_tag_reads_back(inside[i].pose.flags, 0);
}

/// Showing a group undoes hiding it: the same groups are hidden as before, and every
/// object is as visible as it was.
pub proof fn lemma_showing_undoes_hiding(
    before: Scene,
    hidden: Scene,
    shown: Scene,
    group: GroupId,
    i: int,
)
    requires
        before.wf(),
        !before.objects.dirty,
        group.valid(),
        !before.hidden_groups.has(group),
        before.groups_hidden(&hidden, hidden.hidden_groups),
        hidden.groups_hidden(&shown, shown.hidden_groups),
        forall|other: GroupId|
            other.valid() ==> (#[trigger] hidden.hidden_groups.has(other)
                <==> before.hidden_groups.has(other) || other == group),
        forall|other: GroupId|
            other.valid() ==> (#[trigger] shown.hidden_groups.has(other)
                <==> hidden.hidden_groups.has(other) && other != group),
        0 <= i < before.objects.records.spec_len(),
    ensures
        shown.hidden_groups == before.hidden_groups,
        shown.objects.lists.visibility@[shown.objects.slot_at(i) as int]
            == before.objects.lists.visibility@[before.objects.slot_at(i) as int],
{
    assert forall|other: GroupId| other.valid() implies (#[trigger] shown.hidden_groups.has(other)
        <==> before.hidden_groups.has(other)) by {
        assert(hidden.hidden_groups.has(other) <==> before.hidden_groups.has(other) || other
            == group);
    }
    shown.hidden_groups.lemma_extensional(before.hidden_groups);
    assert(before.objects.records.id_by_slot@[i].0.index < before.objects.projection_slots@.len());
    assert(shown.objects.records.id_by_slot@[i].0.index < shown.objects.projection_slots@.len());
}

/// A bake is out of date as soon as an object or a light that never moves is added.
pub proof fn lemma_fixed_content_outdates_the_bake(
    before: Scene,
    with_object: Scene,
    with_light: Scene,
    new: NewRow,
    desc: ObjectDescriptor,
    normal_mat: [F32; 12],
    light: GpuLight,
    movability: Movability,
    user_tag: u64,
)
    requires
        before.object_inserted(&with_object, new, desc, normal_mat),
        object_movability(desc.movability) != Movability::Movable,
        before.light_inserted(&with_light, new, light, movability, user_tag),
        movability != Movability::Movable,
    ensures
        with_object.bake_invalidated,
        with_light.bake_invalidated,
{
}

} // verus!
