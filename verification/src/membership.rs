//! What belongs to a group, a space or a lightmap, and what follows from it.
use vstd::prelude::*;

use crate::groups::{lemma_masks_meet, GroupId, GroupMask};
use crate::handles::MaterialId;
use crate::materials::MaterialRecord;
use crate::object_draws::{lightmap_of, relit};
use crate::objects::ObjectRecord;
use crate::scene::Scene;

verus! {

/// The mask has the group.
pub open spec fn in_mask(mask: GroupMask, group: GroupId) -> bool {
    (mask.0 >> group.0) & 1 == 1
}

/// After groups were hidden or shown, exactly those are hidden that were and were not shown,
/// or are hidden now.
pub proof fn lemma_set_visibility_holds(
    before: Scene,
    after: Scene,
    mask: GroupMask,
    visible: bool,
    group: GroupId,
)
    requires
        before.visibility_set(&after, mask, visible),
        group.0 < 64,
    ensures
        visible && in_mask(mask, group) ==> !in_mask(after.hidden_groups, group),
        !visible && in_mask(mask, group) ==> in_mask(after.hidden_groups, group),
        !in_mask(mask, group) ==> (in_mask(after.hidden_groups, group) <==> in_mask(
            before.hidden_groups,
            group,
        )),
{
    assert(after.hidden_groups.has(group) == in_mask(after.hidden_groups, group));
    assert(before.hidden_groups.has(group) == in_mask(before.hidden_groups, group));
    assert(mask.has(group) == in_mask(mask, group));
    assert(group.valid());
}

/// Hiding a group and showing it again leaves the same groups hidden, if it was shown; in
/// between it is hidden, and no other group is touched.
pub proof fn lemma_hidden_group_is_hidden_until_shown(
    before: Scene,
    hidden: Scene,
    after: Scene,
    group: GroupId,
    other: GroupId,
)
    requires
        before.group_hidden_by(&hidden, group),
        hidden.group_shown_by(&after, group),
        group.0 < 64,
        other.0 < 64,
        other != group,
    ensures
        in_mask(hidden.hidden_groups, group),
        !in_mask(after.hidden_groups, group),
        in_mask(hidden.hidden_groups, other) <==> in_mask(before.hidden_groups, other),
        in_mask(after.hidden_groups, other) <==> in_mask(before.hidden_groups, other),
        !in_mask(before.hidden_groups, group) ==> after.hidden_groups == before.hidden_groups,
{
    assert(hidden.hidden_groups.has(group) == in_mask(hidden.hidden_groups, group));
    assert(hidden.hidden_groups.has(other) == in_mask(hidden.hidden_groups, other));
    assert(after.hidden_groups.has(group) == in_mask(after.hidden_groups, group));
    assert(after.hidden_groups.has(other) == in_mask(after.hidden_groups, other));
    assert(before.hidden_groups.has(other) == in_mask(before.hidden_groups, other));
    assert(before.hidden_groups.has(group) == in_mask(before.hidden_groups, group));
    assert(group.valid() && other.valid());
    if !before.hidden_groups.has(group) {
        assert forall|g: GroupId| g.valid() implies (#[trigger] after.hidden_groups.has(g)
            <==> before.hidden_groups.has(g)) by {
            assert(hidden.hidden_groups.has(g) <==> before.hidden_groups.has(g) || g == group);
        }
        after.hidden_groups.lemma_extensional(before.hidden_groups);
    }
}

/// While the lists are not due to be rebuilt, an object's slot has its GPU row, and is shown
/// exactly if none of its groups is hidden.
pub proof fn lemma_object_is_shown_unless_hidden(scene: Scene, i: int)
    requires
        scene.wf(),
        !scene.objects.dirty,
        0 <= i < scene.objects.records.spec_len(),
    ensures
        ({
            let record = scene.objects.records.value_by_slot@[i];
            let slot = scene.objects.projection_slots@[scene.objects.records.id_by_slot@[i].0.index as int];
            &&& scene.objects.lists.source_indices@[slot as int] == record.gpu_row
            &&& scene.objects.lists.visibility@[slot as int] == if record.groups.0
                & scene.hidden_groups.0 == 0 {
                1u32
            } else {
                0u32
            }
        }),
{
    let record = scene.objects.records.value_by_slot@[i];
    lemma_masks_meet(record.groups, scene.hidden_groups);
    assert(scene.objects.records.id_by_slot@[i].0.index
        < scene.objects.projection_slots@.len());
}

/// The space that flags name: the field's bits of them.
pub open spec fn space_named(scene: Scene, flags: u32) -> u32 {
    (flags >> scene.spaces.field.shift) & ((scene.spaces.field.capacity - 1) as u32)
}

/// What a group's members are once they join a space: each names it, whatever it named, and
/// everything else about them stays. Objects that are no members stay as they are.
pub proof fn lemma_members_join_the_space(
    before: Scene,
    after: Scene,
    group: GroupId,
    row: u32,
    i: int,
)
    requires
        before.wf(),
        before.group_in_space(&after, group, None, row),
        row < before.spaces.field.capacity,
        0 <= i < before.objects.spec_values().len(),
    ensures
        after.objects.spec_values().len() == before.objects.spec_values().len(),
        ({
            let was = before.objects.spec_values()[i];
            let is = after.objects.spec_values()[i];
            let bits = ((before.spaces.field.capacity - 1) as u32) << before.spaces.field.shift;
            &&& in_mask(was.groups, group) ==> space_named(before, is.pose.flags) == row
            &&& !in_mask(was.groups, group) ==> is == was
            &&& is.pose.flags & !bits == was.pose.flags & !bits
            &&& is.pose.model == was.pose.model
            &&& is.pose.sphere == was.pose.sphere
            &&& is.previous == was.previous
            &&& is.gpu_row == was.gpu_row
            &&& is.mesh == was.mesh
            &&& is.material == was.material
            &&& is.groups == was.groups
            &&& is != was && !(was.movability is Movable) ==> after.bake_invalidated
                && after.objects.static_dirty
            &&& is != was && was.movability is Movable ==> after.objects.movable_generation
                == before.objects.movable_generation.wrapping_add(1)
        }),
{
    let was = before.objects.spec_values()[i];
    before.spaces.field.lemma_tag_reads_back(was.pose.flags, row);
    assert(was.groups.has(group) == in_mask(was.groups, group));
}

/// When a group leaves a space, those of its members that named it name the world's, and no
/// other object changes.
pub proof fn lemma_members_leave_the_space(
    before: Scene,
    after: Scene,
    group: GroupId,
    row: u32,
    i: int,
)
    requires
        before.wf(),
        before.group_in_space(&after, group, Some(row), 0),
        0 <= i < before.objects.spec_values().len(),
    ensures
        ({
            let was = before.objects.spec_values()[i];
            let is = after.objects.spec_values()[i];
            let leaves = in_mask(was.groups, group) && space_named(before, was.pose.flags) == row;
            &&& leaves ==> space_named(before, is.pose.flags) == 0
            &&& !leaves ==> is == was
            &&& is.pose.model == was.pose.model
            &&& is.gpu_row == was.gpu_row
        }),
{
    let was = before.objects.spec_values()[i];
    before.spaces.field.lemma_tag_reads_back(was.pose.flags, 0);
    assert(was.groups.has(group) == in_mask(was.groups, group));
}

/// The region is for the mesh slot.
pub open spec fn lights_slot(region: [u64; 2], slot: u32) -> bool {
    region[1] == 0 && region[0] % 0x1_0000_0000 == slot
}

/// An object that cannot move is lit by the last region for its mesh's slot, or by none if
/// there is none; one that can move keeps what it had. Nothing else about it changes.
pub proof fn lemma_object_is_lit_by_its_last_region(
    record: ObjectRecord,
    regions: Seq<[u64; 2]>,
    k: int,
)
    requires
        regions.len() <= u32::MAX,
        0 <= k < regions.len(),
    ensures
        ({
            let lit = relit(record, regions);
            let slot = record.mesh.0.index;
            &&& record.movability is Movable ==> lit == record
            &&& !(record.movability is Movable) && lit.lightmap_index != 0xFFFF_FFFFu32 ==> {
                &&& lit.lightmap_index < regions.len()
                &&& lights_slot(regions[lit.lightmap_index as int], slot)
                &&& k > lit.lightmap_index ==> !lights_slot(regions[k], slot)
            }
            &&& !(record.movability is Movable) && lit.lightmap_index == 0xFFFF_FFFFu32
                ==> !lights_slot(regions[k], slot)
            &&& lit.pose == record.pose
            &&& lit.mesh == record.mesh
            &&& lit.material == record.material
            &&& lit.gpu_row == record.gpu_row
        }),
    decreases regions.len(),
{
    lemma_last_region(regions, record.mesh.0.index, k);
}

proof fn lemma_last_region(regions: Seq<[u64; 2]>, slot: u32, k: int)
    requires
        regions.len() <= u32::MAX,
        0 <= k < regions.len(),
    ensures
        ({
            let index = lightmap_of(regions, slot);
            &&& index != 0xFFFF_FFFFu32 ==> index < regions.len() && lights_slot(
                regions[index as int],
                slot,
            ) && (k > index ==> !lights_slot(regions[k], slot))
            &&& index == 0xFFFF_FFFFu32 ==> !lights_slot(regions[k], slot)
        }),
    decreases regions.len(),
{
    let rest = regions.drop_last();
    let last = regions.len() - 1;
    assert(regions.last() == regions[last]);
    assert(rest.len() == 0 ==> lightmap_of(rest, slot) == 0xFFFF_FFFFu32);
    if !lights_slot(regions[last], slot) && rest.len() > 0 {
        let j = if k < last { k } else { 0 };
        lemma_last_region(rest, slot, j);
        assert(rest[j] == regions[j]);
        let index = lightmap_of(rest, slot);
        if index != 0xFFFF_FFFFu32 {
            assert(rest[index as int] == regions[index as int]);
        }
    }
}

/// An edit of a material outdates the draw lists exactly if its class, its graph, or one of
/// the flags that choose its bucket changes, and what is culled exactly if alpha testing
/// does; it changes that material alone.
pub proof fn lemma_material_edit_outdates_what_it_changes(
    before: Scene,
    after: Scene,
    id: MaterialId,
    next: MaterialRecord,
    other: MaterialId,
)
    requires
        before.material_edited(&after, id, next),
        before.materials@.contains_key(id),
        other != id,
    ensures
        after.materials@[id] == next,
        after.materials@.contains_key(other) <==> before.materials@.contains_key(other),
        after.materials@[other] == before.materials@[other],
        ({
            let prior = before.materials@[id];
            let bits = before.flag_bits;
            let choosing = bits.transparent_only | bits.forward_shading;
            &&& after.objects.dirty == (before.objects.dirty || prior.gpu.material_class
                != next.gpu.material_class || prior.graph_hash != next.graph_hash
                || prior.gpu.flags & choosing != next.gpu.flags & choosing)
            &&& (after.virtual_geometry.cull_signature_version
                == before.virtual_geometry.cull_signature_version) == (prior.gpu.flags
                & bits.alpha_test == next.gpu.flags & bits.alpha_test)
            &&& after.material_flags@ == before.material_flags@.update(
                prior.gpu_row as int,
                next.gpu.flags,
            )
        }),
{
}

} // verus!
