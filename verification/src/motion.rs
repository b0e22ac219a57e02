//! Where things stand after a move, and where they stood before.
use vstd::prelude::*;

use crate::actors::SceneActorId;
use crate::errors::Result;
use crate::float_bits::F32;
use crate::group_edits::{range_with_members, GroupMove};
use crate::groups::GroupId;
use crate::handles::{ObjectId, SublevelId, VirtualObjectId};
use crate::objects::ObjectRecord;
use crate::scene::Scene;
use crate::virtual_geometry::{widened, VirtualObjectRecord};

verus! {

/// The object stands at `model`, with its bounds round `center`; its radius, its flags and
/// all that is not its place are as in `before`.
pub open spec fn stands_at(
    before: ObjectRecord,
    after: ObjectRecord,
    model: [F32; 16],
    normal_mat: [F32; 12],
    center: [F32; 3],
) -> bool {
    &&& after.pose.model == model
    &&& after.normal_mat == normal_mat
    &&& after.pose.sphere[0] == center[0]
    &&& after.pose.sphere[1] == center[1]
    &&& after.pose.sphere[2] == center[2]
    &&& after.pose.sphere[3] == before.pose.sphere[3]
    &&& after.pose.flags == before.pose.flags
    &&& after.previous == before.previous
    &&& after.mesh == before.mesh
    &&& after.material == before.material
    &&& after.groups == before.groups
    &&& after.user_tag == before.user_tag
    &&& after.mesh_row == before.mesh_row
    &&& after.material_row == before.material_row
    &&& after.lightmap_index == before.lightmap_index
    &&& after.movability == before.movability
    &&& after.gpu_row == before.gpu_row
}

/// A movable object that is moved stands where it was moved to: its bounds follow the last
/// column of its model and keep their radius, and where it stood when the last frame ended
/// stays known. An object that cannot move stays, and so does every other one.
pub proof fn lemma_moved_object_stands_there(
    before: Scene,
    after: Scene,
    id: ObjectId,
    other: ObjectId,
    transform: [F32; 16],
    normal_mat: [F32; 12],
    result: Result<()>,
)
    requires
        before.object_moved(&after, id, transform, normal_mat, result),
        before.objects.records@.contains_key(id),
    ensures
        result is Ok,
        before.objects.records@[id].movability is Movable ==> stands_at(
            before.objects.records@[id],
            after.objects.records@[id],
            transform,
            normal_mat,
            [transform[12], transform[13], transform[14]],
        ) && after.objects.movable_generation
            == before.objects.movable_generation.wrapping_add(1),
        !(before.objects.records@[id].movability is Movable) ==> after == before,
        other != id ==> after.objects.records@[other] == before.objects.records@[other],
{
}

/// A move of a group takes each of its members, and no other object, to where its own move
/// leads.
pub proof fn lemma_moved_group_stands_there(
    before: Scene,
    after: Scene,
    group: GroupId,
    moves: Seq<GroupMove>,
    virtual_moves: Seq<GroupMove>,
    i: int,
)
    requires
        before.group_moved(&after, group, moves, virtual_moves),
        moves.len() == before.objects.spec_values().len(),
        0 <= i < moves.len(),
    ensures
        ({
            let was = before.objects.spec_values()[i];
            let is = after.objects.spec_values()[i];
            let member = (was.groups.0 >> group.0) & 1 == 1;
            &&& member ==> stands_at(
                was,
                is,
                moves[i].model,
                moves[i].normal_mat,
                moves[i].center,
            )
            &&& !member ==> is == was
            &&& member && was.movability is Movable ==> after.objects.movable_generation
                == before.objects.movable_generation.wrapping_add(1)
            &&& member && !(was.movability is Movable) ==> after.objects.static_dirty
                && after.bake_invalidated
        }),
        after.objects.spec_values().len() == before.objects.spec_values().len(),
        after.objects.records.id_by_slot == before.objects.records.id_by_slot,
{
    let was = before.objects.spec_values()[i];
    assert(was.groups.has(group) == ((was.groups.0 >> group.0) & 1 == 1));
}

/// If a group has no members, nothing moves and nothing is outdated.
pub proof fn lemma_empty_group_moves_nothing(
    before: Scene,
    after: Scene,
    group: GroupId,
    moves: Seq<GroupMove>,
    virtual_moves: Seq<GroupMove>,
)
    requires
        before.group_moved(&after, group, moves, virtual_moves),
        forall|i: int|
            0 <= i < before.objects.spec_values().len() ==> ((
            #[trigger] before.objects.spec_values()[i]).groups.0 >> group.0) & 1 != 1,
        forall|i: int|
            0 <= i < before.virtual_geometry.spec_values().len() ==> ((
            #[trigger] before.virtual_geometry.spec_values()[i]).groups.0 >> group.0) & 1 != 1,
    ensures
        after.objects.spec_values() == before.objects.spec_values(),
        after.objects.movable_generation == before.objects.movable_generation,
        after.objects.static_dirty == before.objects.static_dirty,
        after.bake_invalidated == before.bake_invalidated,
        after.virtual_geometry.spec_values() == before.virtual_geometry.spec_values(),
        after.virtual_geometry.instance_dirty_range
            == before.virtual_geometry.instance_dirty_range,
{
    let values = before.objects.spec_values();
    let virtuals = before.virtual_geometry.spec_values();
    assert forall|i: int| 0 <= i < values.len() implies !(#[trigger] values[i]).groups.has(
        group,
    ) by {}
    assert forall|i: int| 0 <= i < virtuals.len() implies !(#[trigger] virtuals[i]).groups.has(
        group,
    ) by {}
    assert(after.objects.spec_values() =~= values);
    assert(after.virtual_geometry.spec_values() =~= virtuals);
    lemma_no_member_no_range(before, group, virtuals.len() as int);
}

proof fn lemma_no_member_no_range(scene: Scene, group: GroupId, n: int)
    requires
        0 <= n <= scene.virtual_geometry.spec_values().len(),
        forall|i: int|
            0 <= i < scene.virtual_geometry.spec_values().len() ==> !(
            #[trigger] scene.virtual_geometry.spec_values()[i]).groups.has(group),
    ensures
        range_with_members(
            scene.virtual_geometry.instance_dirty_range,
            scene.virtual_geometry.spec_values(),
            scene.virtual_geometry.projection_slots@,
            group,
            n,
        ) == scene.virtual_geometry.instance_dirty_range,
    decreases n,
{
    if n > 0 {
        lemma_no_member_no_range(scene, group, n - 1);
    }
}

/// The virtual object stands at `model`; all that is not its place is as in `before`.
pub open spec fn virtual_stands_at(
    before: VirtualObjectRecord,
    after: VirtualObjectRecord,
    model: [F32; 16],
    normal_mat: [F32; 12],
) -> bool {
    &&& after.instance.model == model
    &&& after.instance.normal_mat == normal_mat
    &&& after.instance.prev_model == before.instance.prev_model
    &&& after.instance.bounds[3] == before.instance.bounds[3]
    &&& after.instance.mesh_id == before.instance.mesh_id
    &&& after.instance.material_id == before.instance.material_id
    &&& after.instance.flags == before.instance.flags
    &&& after.instance.lightmap_index == before.instance.lightmap_index
    &&& after.virtual_mesh == before.virtual_mesh
    &&& after.material == before.material
    &&& after.groups == before.groups
    &&& after.movability == before.movability
}

/// A move of a group takes the virtual objects among its members along, bounds and all.
pub proof fn lemma_moved_group_takes_virtual_objects_along(
    before: Scene,
    after: Scene,
    group: GroupId,
    moves: Seq<GroupMove>,
    virtual_moves: Seq<GroupMove>,
    i: int,
)
    requires
        before.group_moved(&after, group, moves, virtual_moves),
        virtual_moves.len() == before.virtual_geometry.spec_values().len(),
        0 <= i < virtual_moves.len(),
    ensures
        ({
            let was = before.virtual_geometry.spec_values()[i];
            let is = after.virtual_geometry.spec_values()[i];
            let member = (was.groups.0 >> group.0) & 1 == 1;
            let to = virtual_moves[i];
            &&& member ==> {
                &&& virtual_stands_at(was, is, to.model, to.normal_mat)
                &&& is.instance.bounds[0] == to.center[0]
                &&& is.instance.bounds[1] == to.center[1]
                &&& is.instance.bounds[2] == to.center[2]
            }
            &&& !member ==> is == was
            &&& member && was.movability is Movable ==> after.objects.movable_generation
                == before.objects.movable_generation.wrapping_add(1)
            &&& member && !(was.movability is Movable) ==> after.objects.static_dirty
                && after.bake_invalidated
        }),
{
    let was = before.virtual_geometry.spec_values()[i];
    assert(was.groups.has(group) == ((was.groups.0 >> group.0) & 1 == 1));
}

/// A virtual object that is moved stands where it was moved to, keeps its bounds, and its
/// published instance, if it has one, is the moved one and lies in the range to be uploaded.
pub proof fn lemma_moved_virtual_object_stands_there(
    before: Scene,
    after: Scene,
    id: VirtualObjectId,
    transform: [F32; 16],
    normal_mat: [F32; 12],
)
    requires
        before.wf(),
        before.virtual_geometry.objects@.contains_key(id),
        before.virtual_object_moved(&after, id, transform, normal_mat),
    ensures
        ({
            let was = before.virtual_geometry.objects@[id];
            let is = after.virtual_geometry.objects@[id];
            let slot = before.virtual_geometry.projection_slots@[before.virtual_geometry.objects.place(
                id,
            )];
            &&& virtual_stands_at(was, is, transform, normal_mat)
            &&& is.instance.bounds == was.instance.bounds
            &&& !before.virtual_geometry.dirty && slot != 0xFFFF_FFFFu32 ==> {
                &&& after.virtual_geometry.cpu_instances@[slot as int] == is.instance
                &&& after.virtual_geometry.instance_dirty_range matches Some((start, end))
                    && start <= slot < end
            }
        }),
        after.objects.movable_generation == before.objects.movable_generation.wrapping_add(1),
        after.virtual_geometry.dirty == before.virtual_geometry.dirty,
{
    let g = before.virtual_geometry;
    g.objects.lemma_contains(id);
    if !g.dirty {
        let i = g.objects.place(id);
        assert(g.projection_slots@[i] == g.projection_slots@[i]);
    }
}

/// A widened range holds what it held and the new place, and starts and ends at one of them.
pub proof fn lemma_widened_range_is_the_least(
    range: Option<(usize, usize)>,
    index: usize,
    slot: int,
)
    requires
        index < usize::MAX,
        range matches Some((start, end)) ==> start < end,
    ensures
        widened(range, index) matches Some((start, end)) && {
            &&& start <= index < end
            &&& range matches Some((s, e)) ==> {
                &&& s <= slot < e ==> start <= slot < end
                &&& start == s || start == index
                &&& end == e || end == index + 1
            }
            &&& range is None ==> start == index && end == index + 1
        },
{
}

/// When a frame ends, where every object and every space stands becomes its past, and
/// nothing moves.
pub proof fn lemma_frame_end_turns_the_present_into_the_past(
    before: Scene,
    after: Scene,
    running: Seq<SceneActorId>,
    i: int,
    row: int,
)
    requires
        before.wf(),
        before.frame_advanced(&after, running),
        0 <= i < before.objects.spec_values().len(),
        0 <= row < before.spaces.history.current@.len(),
    ensures
        ({
            let was = before.objects.spec_values()[i];
            let is = after.objects.spec_values()[i];
            &&& is.pose == was.pose
            &&& is.previous == was.pose
            &&& is.normal_mat == was.normal_mat
            &&& is.mesh == was.mesh
            &&& is.material == was.material
            &&& is.gpu_row == was.gpu_row
            &&& is.groups == was.groups
            &&& is.user_tag == was.user_tag
        }),
        after.objects.spec_values().len() == before.objects.spec_values().len(),
        after.spaces.history.current@[row] == before.spaces.history.current@[row],
        after.spaces.history.previous@[row] == before.spaces.history.current@[row],
        after.frame.frame_count == before.frame.frame_count.wrapping_add(1),
        after.frame.sky == before.frame.sky,
{
}

/// A sublevel that is placed stands there, its row has the placement, and where the row was
/// when the last frame ended stays known. No object is touched; what hangs on the place of
/// any of them is outdated.
pub proof fn lemma_placed_sublevel_stands_there(
    before: Scene,
    after: Scene,
    sublevel: SublevelId,
    placement: [F32; 16],
    row: int,
)
    requires
        before.wf(),
        before.sublevel_moved(&after, sublevel, placement, Ok(())),
        0 <= row < before.spaces.history.current@.len(),
    ensures
        before.spaces.sublevels@.contains_key(sublevel),
        ({
            let was = before.spaces.sublevels@[sublevel];
            let is = after.spaces.sublevels@[sublevel];
            &&& is.placement == placement
            &&& is.group == was.group
            &&& is.row == was.row
            &&& after.spaces.history.current@[row] == if row == was.row {
                placement
            } else {
                before.spaces.history.current@[row]
            }
        }),
        after.spaces.history.previous@ == before.spaces.history.previous@,
        after.objects.records == before.objects.records,
        after.bake_invalidated,
        after.objects.static_dirty,
        after.objects.movable_generation == before.objects.movable_generation.wrapping_add(1),
{
    before.spaces.sublevels.lemma_contains(sublevel);
}

} // verus!
