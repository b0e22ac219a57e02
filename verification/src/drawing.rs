//! What the published lists draw.
use vstd::prelude::*;

use crate::draws::{
    batches, draw_order, drawn, indirect_args, keys_of, lemma_draw_order,
    lemma_equal_keys_share_a_draw, material_ranges, placed_keys, range_key, ranges_in_bucket,
    DrawEntry, DrawIndexedIndirectArgs, DrawLists, MaterialRange, MaterialRangeKey, RenderBucket,
};
use crate::groups::{lemma_masks_meet, GroupMask};
use crate::ordering::{lemma_ordered, ordered, Ordered};
use crate::runs::{lemma_run_of_place, lemma_runs_tile, runs};

verus! {

/// The command draws the instance at `slot`.
pub open spec fn draws_slot(command: DrawIndexedIndirectArgs, slot: int) -> bool {
    command.first_instance <= slot < command.first_instance + command.instance_count
}

/// The commands draw the slots below `count`, each once: every command draws some, the
/// first starts at none, each starts where the one before it stopped, and the last stops at
/// `count`.
pub open spec fn commands_tile(commands: Seq<DrawIndexedIndirectArgs>, count: int) -> bool {
    &&& commands.len() == 0 <==> count == 0
    &&& commands.len() > 0 ==> commands[0].first_instance == 0
    &&& commands.len() > 0 ==> commands.last().first_instance + commands.last().instance_count
        == count
    &&& forall|n: int| 0 <= n < commands.len() ==> (#[trigger] commands[n]).instance_count > 0
    &&& forall|n: int|
        0 <= n < commands.len() - 1 ==> (#[trigger] commands[n]).first_instance
            + commands[n].instance_count == commands[n + 1].first_instance
}

/// Objects of one mesh row have one slice of the geometry buffers.
pub open spec fn slices_by_mesh(entries: Seq<DrawEntry>) -> bool {
    forall|i: int, j: int|
        0 <= i < entries.len() && 0 <= j < entries.len() && (#[trigger] entries[i]).key.mesh_row
            == (#[trigger] entries[j]).key.mesh_row ==> entries[i].slice == entries[j].slice
}

/// Commands that are made of the batches of `entries` tile its instances; the instance at
/// `slot` is drawn by one of them, with the geometry of its own mesh.
pub proof fn lemma_commands_draw_each_instance_once(
    commands: Seq<DrawIndexedIndirectArgs>,
    entries: Seq<DrawEntry>,
    slot: int,
) -> (n: int)
    requires
        entries.len() <= u32::MAX,
        slices_by_mesh(entries),
        commands == batches(entries).map_values(
            |b: (int, int)| indirect_args(drawn(entries), b),
        ),
        0 <= slot < entries.len(),
    ensures
        commands_tile(commands, entries.len() as int),
        0 <= n < commands.len(),
        draws_slot(commands[n], slot),
        forall|m: int|
            0 <= m < commands.len() && draws_slot(#[trigger] commands[m], slot) ==> m == n,
        ({
            let slice = entries[draw_order(entries)[slot] as int].slice;
            &&& commands[n].index_count == slice.index_count
            &&& commands[n].first_index == slice.first_index
            &&& commands[n].base_vertex == slice.first_vertex as i32
        }),
{
    let list = drawn(entries);
    let keys = keys_of(list);
    let groups = batches(entries);
    lemma_draw_order(entries);
    lemma_runs_tile(keys, 0);
    lemma_tiled(commands, entries);
    let n = lemma_run_of_place(keys, 0, slot);
    assert(groups[n].0 <= slot < groups[n].1);
    assert(commands[n] == indirect_args(list, groups[n]));
    assert forall|m: int|
        0 <= m < commands.len() && draws_slot(#[trigger] commands[m], slot) implies m == n by {
        assert(commands[m] == indirect_args(list, groups[m]));
        assert(groups[m].0 <= slot < groups[m].1);
    }
    let first = groups[n].0;
    assert(keys[slot] == keys[first]);
    let order = draw_order(entries);
    assert(order[slot] < entries.len() && order[first] < entries.len());
    assert(list[first] == entries[order[first] as int]);
    assert(list[slot] == entries[order[slot] as int]);
    assert(entries[order[first] as int].key.mesh_row == entries[order[slot] as int].key.mesh_row);
    n
}

proof fn lemma_tiled(commands: Seq<DrawIndexedIndirectArgs>, entries: Seq<DrawEntry>)
    requires
        entries.len() <= u32::MAX,
        commands == batches(entries).map_values(
            |b: (int, int)| indirect_args(drawn(entries), b),
        ),
    ensures
        commands_tile(commands, entries.len() as int),
{
    let list = drawn(entries);
    let keys = keys_of(list);
    let groups = batches(entries);
    lemma_draw_order(entries);
    lemma_runs_tile(keys, 0);
    assert forall|n: int| 0 <= n < commands.len() implies #[trigger] commands[n] == indirect_args(
        list,
        groups[n],
    ) && groups[n].0 < groups[n].1 <= entries.len() && 0 <= groups[n].0 by {}
    assert forall|n: int| 0 <= n < commands.len() - 1 implies (
    #[trigger] commands[n]).first_instance + commands[n].instance_count
        == commands[n + 1].first_instance by {
        assert(groups[n].1 == groups[n + 1].0);
        assert(commands[n + 1] == indirect_args(list, groups[n + 1]));
    }
}

/// Where the object at compact place `i` is drawn: `at.1` is its instance slot, `at.0` the
/// command that draws it.
pub open spec fn drawn_at(lists: DrawLists, i: int, at: (int, int)) -> bool {
    &&& 0 <= at.0 < lists.indirect@.len()
    &&& 0 <= at.1 < lists.order@.len()
    &&& lists.order@[at.1] == i
    &&& draws_slot(lists.indirect@[at.0], at.1)
}

/// Every object is drawn by exactly one published command, in exactly one slot: the command
/// has the index range and the base vertex of the object's own mesh and the row of its
/// material, the slot has its GPU row, and is shown unless one of its groups is hidden.
pub proof fn lemma_object_is_drawn_by_one_command(
    lists: DrawLists,
    entries: Seq<DrawEntry>,
    hidden: GroupMask,
    i: int,
) -> (at: (int, int))
    requires
        entries.len() <= u32::MAX,
        slices_by_mesh(entries),
        lists.describes(entries, hidden),
        0 <= i < entries.len(),
    ensures
        drawn_at(lists, i, at),
        forall|other: (int, int)| #[trigger] drawn_at(lists, i, other) ==> other == at,
        lists.indirect@[at.0].index_count == entries[i].slice.index_count,
        lists.indirect@[at.0].first_index == entries[i].slice.first_index,
        lists.indirect@[at.0].base_vertex == entries[i].slice.first_vertex as i32,
        lists.draw_material_rows@.len() == lists.indirect@.len(),
        lists.draw_material_rows@[at.0] == entries[i].key.material_row,
        lists.source_indices@.len() == entries.len(),
        lists.source_indices@[at.1] == entries[i].gpu_row,
        lists.visibility@.len() == entries.len(),
        lists.visibility@[at.1] == 1 || lists.visibility@[at.1] == 0,
        lists.visibility@[at.1] == 1 <==> entries[i].groups.0 & hidden.0 == 0,
{
    lemma_draw_order(entries);
    let order = draw_order(entries);
    let list = drawn(entries);
    assert(order.contains(i as usize));
    let p = order.index_of(i as usize);
    let n = lemma_commands_draw_each_instance_once(lists.indirect@, entries, p);
    assert(list[p] == entries[i]);
    assert forall|other: (int, int)| #[trigger] drawn_at(lists, i, other) implies other == (n, p) by {
        assert(order[other.1] == order[p]);
    }
    let keys = keys_of(list);
    let groups = batches(entries);
    lemma_runs_tile(keys, 0);
    assert(lists.indirect@[n] == indirect_args(list, groups[n]));
    assert(groups[n].0 <= p < groups[n].1);
    assert(keys[p] == keys[groups[n].0]);
    lemma_masks_meet(entries[i].groups, hidden);
    (n, p)
}

/// Draw calls and indirect commands are the same draws, told in two forms, and they tile
/// the instances.
pub proof fn lemma_calls_and_commands_agree(
    lists: DrawLists,
    entries: Seq<DrawEntry>,
    hidden: GroupMask,
)
    requires
        entries.len() <= u32::MAX,
        lists.describes(entries, hidden),
    ensures
        commands_tile(lists.indirect@, entries.len() as int),
        lists.draw_calls@.len() == lists.indirect@.len(),
        forall|n: int|
            0 <= n < lists.indirect@.len() ==> {
                let call = #[trigger] lists.draw_calls@[n];
                let command = lists.indirect@[n];
                &&& call.index_count == command.index_count
                &&& call.instance_count == command.instance_count
                &&& call.first_index == command.first_index
                &&& call.vertex_offset == command.base_vertex
                &&& call.first_instance == command.first_instance
            },
{
    lemma_tiled(lists.indirect@, entries);
}

/// Two objects are drawn by one command exactly if they agree in material class, graph,
/// bucket, mesh row and material row.
pub proof fn lemma_one_command_per_kind(
    lists: DrawLists,
    entries: Seq<DrawEntry>,
    hidden: GroupMask,
    i: int,
    j: int,
    at: (int, int),
    other: (int, int),
)
    requires
        entries.len() <= u32::MAX,
        lists.describes(entries, hidden),
        0 <= i < entries.len(),
        0 <= j < entries.len(),
        drawn_at(lists, i, at),
        drawn_at(lists, j, other),
    ensures
        at.0 == other.0 <==> {
            &&& entries[i].key.class == entries[j].key.class
            &&& entries[i].key.graph_hash == entries[j].key.graph_hash
            &&& entries[i].key.bucket == entries[j].key.bucket
            &&& entries[i].key.mesh_row == entries[j].key.mesh_row
            &&& entries[i].key.material_row == entries[j].key.material_row
        },
{
    lemma_draw_order(entries);
    let list = drawn(entries);
    let keys = keys_of(list);
    let groups = batches(entries);
    lemma_runs_tile(keys, 0);
    assert(lists.indirect@[at.0] == indirect_args(list, groups[at.0]));
    assert(lists.indirect@[other.0] == indirect_args(list, groups[other.0]));
    assert(groups[at.0].0 <= at.1 < groups[at.0].1);
    assert(groups[other.0].0 <= other.1 < groups[other.0].1);
    assert(list[at.1] == entries[i] && list[other.1] == entries[j]);
    assert(keys[at.1] == keys[groups[at.0].0]);
    assert(keys[other.1] == keys[groups[other.0].0]);
    if entries[i].key == entries[j].key {
        lemma_equal_keys_share_a_draw(entries, at.0, other.0, at.1, other.1);
    }
}

/// `a` may be drawn before `b`: by class, then graph, then bucket with opaque before
/// transparent before forward, then mesh row, then material row.
pub open spec fn drawn_before(a: DrawEntry, b: DrawEntry) -> bool {
    let (x, y) = (a.key, b.key);
    &&& x.class <= y.class
    &&& x.class == y.class ==> x.graph_hash <= y.graph_hash
    &&& x.class == y.class && x.graph_hash == y.graph_hash ==> {
        &&& y.bucket is Opaque ==> x.bucket is Opaque
        &&& y.bucket is Transparent ==> !(x.bucket is Forward)
        &&& x.bucket == y.bucket ==> x.mesh_row <= y.mesh_row
        &&& x.bucket == y.bucket && x.mesh_row == y.mesh_row ==> x.material_row <= y.material_row
    }
}

/// The instance slots are filled in draw order, objects that agree in everything in the
/// order in which they stand in the scene.
pub proof fn lemma_slots_are_in_draw_order(
    lists: DrawLists,
    entries: Seq<DrawEntry>,
    hidden: GroupMask,
    p: int,
    q: int,
)
    requires
        entries.len() <= u32::MAX,
        lists.describes(entries, hidden),
        0 <= p < q < entries.len(),
    ensures
        lists.order@.len() == entries.len(),
        lists.order@[p] < entries.len(),
        lists.order@[q] < entries.len(),
        drawn_before(entries[lists.order@[p] as int], entries[lists.order@[q] as int]),
        entries[lists.order@[p] as int].key == entries[lists.order@[q] as int].key
            ==> lists.order@[p] < lists.order@[q],
{
    lemma_draw_order(entries);
    let sorted = ordered(placed_keys(entries));
    lemma_ordered(placed_keys(entries));
    assert(draw_order(entries)[p] < entries.len());
    assert(draw_order(entries)[q] < entries.len());
    assert(sorted[p].at_most(sorted[q]));
    assert(draw_order(entries)[p] != draw_order(entries)[q]);
}

} // verus!
