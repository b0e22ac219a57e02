//! How one call relates to the next.
use vstd::prelude::*;

use crate::float_bits::F32;
use crate::foliage::Wind;
use crate::frame::CameraHistory;
use crate::groups::{lemma_masks_meet, GroupId};
use crate::handles::ObjectId;
use crate::membership::in_mask;
use crate::scene::Scene;
use crate::sdf::{SdfEdit, SdfEditId};

verus! {

/// A camera is told where it was at the call before, and in which frame it is.
pub proof fn lemma_camera_is_told_where_it_was(
    before: Scene,
    between: Scene,
    after: Scene,
    first: [F32; 16],
    second: [F32; 16],
    histories: (CameraHistory, CameraHistory),
)
    requires
        before.camera_moved(&between, first, histories.0),
        between.camera_moved(&after, second, histories.1),
    ensures
        histories.1.prev_view_proj == first,
        histories.0.frame == histories.1.frame,
        histories.0.frame == (before.frame.frame_count % 0x1_0000_0000) as u32,
        between.frame.camera_generation == before.frame.camera_generation.wrapping_add(1),
        after.frame.frame_count == before.frame.frame_count,
        after.frame.sky == before.frame.sky,
{
}

/// The wind's past is where its clock stood before it last advanced; another wind does not
/// set the clock.
pub proof fn lemma_wind_remembers_its_clock(
    before: Scene,
    between: Scene,
    after: Scene,
    wind: Wind,
    time: F32,
)
    requires
        before.wind_set(&between, wind),
        between.wind_advanced(&after, time),
    ensures
        after.foliage.wind.time == time,
        after.foliage.wind.prev_time == before.foliage.wind.time,
        after.foliage.wind.direction == wind.direction,
        after.foliage.wind.speed == wind.speed,
        after.foliage.wind.gusts == wind.gusts,
        between.foliage.wind.time == before.foliage.wind.time,
        between.foliage.wind.prev_time == before.foliage.wind.prev_time,
        after.foliage.generation == before.foliage.generation,
        after.foliage.types == before.foliage.types,
{
}

/// An object that joins a group and leaves it again is in the groups it was in; in between
/// it is in that group too. Whatever its groups, what is published of it is shown exactly if
/// none of them is hidden.
pub proof fn lemma_leaving_undoes_joining(
    before: Scene,
    between: Scene,
    after: Scene,
    id: ObjectId,
    group: GroupId,
    other: GroupId,
)
    requires
        before.wf(),
        between.wf(),
        before.objects.records@.contains_key(id),
        before.group_joined(&between, id, group, Ok(())),
        between.group_left(&after, id, group, Ok(())),
        group.0 < 64,
        other.0 < 64,
        other != group,
    ensures
        in_mask(between.objects.records@[id].groups, group),
        !in_mask(after.objects.records@[id].groups, group),
        in_mask(after.objects.records@[id].groups, other) <==> in_mask(
            before.objects.records@[id].groups,
            other,
        ),
        !in_mask(before.objects.records@[id].groups, group)
            ==> after.objects.records@[id].groups == before.objects.records@[id].groups,
        after.objects.records@[id].pose == before.objects.records@[id].pose,
        !before.objects.dirty ==> {
            let slot = between.objects.projection_slots@[id.0.index as int];
            between.objects.lists.visibility@[slot as int] == if between.objects.records@[id].groups.0
                & between.hidden_groups.0 == 0 {
                1u32
            } else {
                0u32
            }
        },
{
    let a = before.objects.records@[id].groups;
    let b = between.objects.records@[id].groups;
    let c = after.objects.records@[id].groups;
    assert(b.has(group) == in_mask(b, group) && b.has(other) == in_mask(b, other));
    assert(c.has(group) == in_mask(c, group) && c.has(other) == in_mask(c, other));
    assert(a.has(group) == in_mask(a, group) && a.has(other) == in_mask(a, other));
    assert(group.valid() && other.valid());
    if !a.has(group) {
        assert forall|g: GroupId| g.valid() implies (#[trigger] c.has(g) <==> a.has(g)) by {
            assert(b.has(g) <==> a.has(g) || g == group);
        }
        c.lemma_extensional(a);
    }
    if !before.objects.dirty {
        lemma_masks_meet(b, between.hidden_groups);
        between.objects.records.lemma_contains(id);
        let i = between.objects.records.place(id);
        assert(between.objects.records.id_by_slot@[i].0.index
            < between.objects.projection_slots@.len());
    }
}

/// The edit stands at that place of the authored order.
pub open spec fn edit_stands_at(scene: Scene, at: int, id: SdfEditId, edit: SdfEdit) -> bool {
    &&& 0 <= at < scene.sdf.ids@.len()
    &&& scene.sdf.ids@[at] == id
    &&& scene.sdf.edits@[at] == edit
}

/// An inserted edit stands where it was put; those before it stay where they were, and those
/// behind it are one place farther.
pub proof fn lemma_inserted_edit_stands_where_it_was_put(
    before: Scene,
    after: Scene,
    at: int,
    id: SdfEditId,
    edit: SdfEdit,
    k: int,
)
    requires
        before.wf(),
        before.edit_inserted(&after, at, id, edit),
        0 <= at <= before.sdf.ids@.len(),
        0 <= k < before.sdf.ids@.len(),
    ensures
        edit_stands_at(after, at, id, edit),
        edit_stands_at(
            after,
            if k < at {
                k
            } else {
                k + 1
            },
            before.sdf.ids@[k],
            before.sdf.edits@[k],
        ),
        after.sdf.ids@.len() == before.sdf.ids@.len() + 1,
        after.sdf.terrain == before.sdf.terrain,
{
}

/// A moved edit stands where it was moved to, and the others keep their order.
pub proof fn lemma_moved_edit_stands_where_it_was_moved(
    before: Scene,
    after: Scene,
    id: SdfEditId,
    from: int,
    to: int,
    k: int,
)
    requires
        before.wf(),
        before.edit_moved(&after, id, to),
        0 <= from < before.sdf.ids@.len(),
        before.sdf.ids@[from] == id,
        0 <= to < before.sdf.ids@.len(),
        0 <= k < before.sdf.ids@.len(),
        k != from,
    ensures
        edit_stands_at(after, to, id, before.sdf.edits@[from]),
        after.sdf.ids@.len() == before.sdf.ids@.len(),
        ({
            let among = if k < from { k } else { k - 1 };
            edit_stands_at(
                after,
                if among < to {
                    among
                } else {
                    among + 1
                },
                before.sdf.ids@[k],
                before.sdf.edits@[k],
            )
        }),
{
    let order = before.sdf.ids@.index_of(id);
    assert(before.sdf.ids@[order] == id);
    assert(order == from);
}

/// A removed edit is gone, and the others keep their order.
pub proof fn lemma_removed_edit_leaves_the_others(
    before: Scene,
    after: Scene,
    id: SdfEditId,
    from: int,
    k: int,
)
    requires
        before.wf(),
        before.edit_removed(&after, id),
        0 <= from < before.sdf.ids@.len(),
        before.sdf.ids@[from] == id,
        0 <= k < before.sdf.ids@.len(),
        k != from,
    ensures
        after.sdf.ids@.len() == before.sdf.ids@.len() - 1,
        edit_stands_at(
            after,
            if k < from {
                k
            } else {
                k - 1
            },
            before.sdf.ids@[k],
            before.sdf.edits@[k],
        ),
        after.sdf.terrain == before.sdf.terrain,
{
    let order = before.sdf.ids@.index_of(id);
    assert(before.sdf.ids@[order] == id);
    assert(order == from);
}

} // verus!
