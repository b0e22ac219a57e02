//! What a flushed scene draws of its objects, and which of them cast shadows.
use vstd::prelude::*;

use crate::drawing::{
    commands_tile, draws_slot, drawn_at, lemma_commands_draw_each_instance_once,
    lemma_object_is_drawn_by_one_command, slices_by_mesh,
};
use crate::draws::{
    batches, draw_order, drawn, indirect_args, keys_of, lemma_draw_order, material_range,
    material_ranges, range_key, ranges_in_bucket, DrawEntry, DrawIndexedIndirectArgs, DrawLists,
    MaterialRange, MaterialRangeKey, RenderBucket,
};
use crate::float_bits::F32;
use crate::handles::{MeshId, ObjectId};
use crate::object_draws::{draws_casters, shadow_casters};
use crate::objects::ObjectRecord;
use crate::references::{
    lemma_object_material_live, lemma_object_mesh_live, meshes_linked, MeshRecord,
};
use crate::runs::{lemma_run_of_place, lemma_runs_tile, runs, runs_from};
use crate::scene::Scene;
use crate::sparse_set::SparseSet;

verus! {

/// The range holds the draw `n`.
pub open spec fn range_holds(range: MaterialRange, n: int) -> bool {
    range.2 <= n < range.2 + range.3
}

/// Some range of the list holds the draw `n`.
pub open spec fn held(ranges: Seq<MaterialRange>, n: int) -> bool {
    exists|k: int| 0 <= k < ranges.len() && #[trigger] range_holds(ranges[k], n)
}

proof fn lemma_ranges_in_bucket(
    keys: Seq<MaterialRangeKey>,
    list: Seq<(int, int)>,
    bucket: RenderBucket,
)
    requires
        keys.len() <= u32::MAX,
        forall|m: int|
            0 <= m < list.len() ==> 0 <= (#[trigger] list[m]).0 < list[m].1 <= keys.len(),
        forall|m: int, o: int|
            0 <= m < o < list.len() ==> (#[trigger] list[m]).1 <= (#[trigger] list[o]).0,
    ensures
        ({
            let ranges = ranges_in_bucket(keys, list, bucket);
            &&& forall|k: int|
                0 <= k < ranges.len() ==> exists|m: int|
                    0 <= m < list.len() && #[trigger] ranges[k] == material_range(
                        keys,
                        #[trigger] list[m],
                    ) && keys[list[m].0].bucket == bucket
            &&& forall|m: int|
                0 <= m < list.len() && keys[(#[trigger] list[m]).0].bucket == bucket
                    ==> ranges.contains(material_range(keys, list[m]))
            &&& forall|k: int, l: int|
                0 <= k < l < ranges.len() ==> (#[trigger] ranges[k]).2 + ranges[k].3 <= (
                #[trigger] ranges[l]).2
        }),
    decreases list.len(),
{
    if list.len() > 0 {
        let rest = list.drop_last();
        let last = list.len() - 1;
        lemma_ranges_in_bucket(keys, rest, bucket);
        let earlier = ranges_in_bucket(keys, rest, bucket);
        let ranges = ranges_in_bucket(keys, list, bucket);
        assert forall|k: int| 0 <= k < ranges.len() implies exists|m: int|
            0 <= m < list.len() && #[trigger] ranges[k] == material_range(
                keys,
                #[trigger] list[m],
            ) && keys[list[m].0].bucket == bucket by {
            if k < earlier.len() {
                assert(ranges[k] == earlier[k]);
                let m = choose|m: int|
                    0 <= m < rest.len() && earlier[k] == material_range(keys, #[trigger] rest[m])
                        && keys[rest[m].0].bucket == bucket;
                assert(list[m] == rest[m]);
            } else {
                assert(ranges[k] == material_range(keys, list[last]));
            }
        }
        assert forall|m: int|
            0 <= m < list.len() && keys[(#[trigger] list[m]).0].bucket
                == bucket implies ranges.contains(material_range(keys, list[m])) by {
            if m < last {
                assert(rest[m] == list[m]);
                assert(earlier.contains(material_range(keys, rest[m])));
                let k = earlier.index_of(material_range(keys, rest[m]));
                assert(ranges[k] == earlier[k]);
            } else {
                assert(ranges[ranges.len() - 1] == material_range(keys, list[m]));
            }
        }
        assert forall|k: int, l: int| 0 <= k < l < ranges.len() implies (
        #[trigger] ranges[k]).2 + ranges[k].3 <= (#[trigger] ranges[l]).2 by {
            assert(ranges[k] == earlier[k]);
            if l < earlier.len() {
                assert(ranges[l] == earlier[l]);
            } else {
                let m = choose|m: int|
                    0 <= m < rest.len() && earlier[k] == material_range(keys, #[trigger] rest[m])
                        && keys[rest[m].0].bucket == bucket;
                assert(list[m] == rest[m]);
                assert(list[m].1 <= list[last].0);
            }
        }
    }
}

proof fn lemma_runs_ascend<K>(keys: Seq<K>, m: int, o: int)
    requires
        0 <= m < o < runs(keys).len(),
    ensures
        runs(keys)[m].1 <= runs(keys)[o].0,
    decreases o - m,
{
    lemma_runs_tile(keys, 0);
    let all = runs(keys);
    assert(all[o - 1].1 == all[o].0);
    if m < o - 1 {
        lemma_runs_ascend(keys, m, o - 1);
        assert(all[o - 1].0 < all[o - 1].1);
    }
}

/// The ranges of a bucket hold exactly the draws of that bucket, each in one range, with the
/// class and the graph of the range; neighbours that agree in all three share a range.
pub proof fn lemma_ranges_hold_their_draws(
    keys: Seq<MaterialRangeKey>,
    bucket: RenderBucket,
    n: int,
)
    requires
        keys.len() <= u32::MAX,
        0 <= n < keys.len(),
    ensures
        ({
            let ranges = material_ranges(keys, bucket);
            &&& held(ranges, n) <==> keys[n].bucket == bucket
            &&& forall|k: int|
                0 <= k < ranges.len() && #[trigger] range_holds(ranges[k], n) ==> ranges[k].0
                    == keys[n].class && ranges[k].1 == keys[n].graph_hash
            &&& forall|k: int, l: int|
                0 <= k < ranges.len() && 0 <= l < ranges.len() && #[trigger] range_holds(
                    ranges[k],
                    n,
                ) && #[trigger] range_holds(ranges[l], n) ==> k == l
            &&& forall|k: int|
                0 <= k < ranges.len() && n + 1 < keys.len() && keys[n + 1] == keys[n]
                    && #[trigger] range_holds(ranges[k], n) ==> range_holds(ranges[k], n + 1)
            &&& forall|k: int|
                0 <= k < ranges.len() ==> (#[trigger] ranges[k]).3 > 0 && ranges[k].2
                    + ranges[k].3 <= keys.len()
        }),
{
    let ranges = material_ranges(keys, bucket);
    lemma_range_runs(keys, bucket);
    if keys[n].bucket == bucket {
        let k = lemma_place_has_range(keys, n);
        assert(range_holds(ranges[k], n));
    }
    assert forall|k: int| 0 <= k < ranges.len() && #[trigger] range_holds(ranges[k], n) implies ({
        &&& ranges[k].0 == keys[n].class
        &&& ranges[k].1 == keys[n].graph_hash
        &&& keys[n].bucket == bucket
        &&& n + 1 < keys.len() && keys[n + 1] == keys[n] ==> range_holds(ranges[k], n + 1)
    }) by {
        let m = lemma_range_run(keys, bucket, k);
        lemma_run_is_uniform(keys, m, n);
    }
    assert forall|k: int| 0 <= k < ranges.len() implies (#[trigger] ranges[k]).3 > 0
        && ranges[k].2 + ranges[k].3 <= keys.len() by {
        let m = lemma_range_run(keys, bucket, k);
    }
    assert forall|k: int, l: int|
        0 <= k < ranges.len() && 0 <= l < ranges.len() && #[trigger] range_holds(ranges[k], n)
            && #[trigger] range_holds(ranges[l], n) implies k == l by {
        if k < l {
            assert(ranges[k].2 + ranges[k].3 <= ranges[l].2);
        }
        if l < k {
            assert(ranges[l].2 + ranges[l].3 <= ranges[k].2);
        }
    }
}

/// The range that holds a draw, in the list of its bucket.
proof fn lemma_place_has_range(keys: Seq<MaterialRangeKey>, n: int) -> (k: int)
    requires
        keys.len() <= u32::MAX,
        0 <= n < keys.len(),
    ensures
        0 <= k < material_ranges(keys, keys[n].bucket).len(),
        range_holds(material_ranges(keys, keys[n].bucket)[k], n),
{
    let list = runs(keys);
    let ranges = material_ranges(keys, keys[n].bucket);
    let own = lemma_run_of_place(keys, 0, n);
    lemma_range_runs(keys, keys[n].bucket);
    lemma_run_is_uniform(keys, own, n);
    lemma_run_within(keys, own);
    let range = material_range(keys, list[own]);
    assert(ranges.contains(range));
    ranges.index_of(range)
}

proof fn lemma_run_within(keys: Seq<MaterialRangeKey>, m: int)
    requires
        0 <= m < runs(keys).len(),
    ensures
        0 <= runs(keys)[m].0 < runs(keys)[m].1 <= keys.len(),
{
    lemma_runs_tile(keys, 0);
}

/// A run holds one key, and the place behind it another.
proof fn lemma_run_is_uniform(keys: Seq<MaterialRangeKey>, m: int, n: int)
    requires
        0 <= m < runs(keys).len(),
        runs(keys)[m].0 <= n < runs(keys)[m].1,
    ensures
        keys[n] == keys[runs(keys)[m].0],
        0 <= n < keys.len(),
        n + 1 < keys.len() && keys[n + 1] == keys[n] ==> n + 1 < runs(keys)[m].1,
{
    lemma_runs_tile(keys, 0);
    let list = runs(keys);
    assert(keys[n] == keys[list[m].0]);
    if n + 1 < keys.len() && n + 1 == list[m].1 {
        assert(m < list.len() - 1);
        assert(keys[list[m].1] != keys[list[m].0]);
    }
}

proof fn lemma_range_runs(keys: Seq<MaterialRangeKey>, bucket: RenderBucket)
    requires
        keys.len() <= u32::MAX,
    ensures
        ({
            let list = runs(keys);
            let ranges = material_ranges(keys, bucket);
            &&& forall|m: int|
                0 <= m < list.len() && keys[(#[trigger] list[m]).0].bucket == bucket
                    ==> ranges.contains(material_range(keys, list[m]))
            &&& forall|k: int, l: int|
                0 <= k < l < ranges.len() ==> (#[trigger] ranges[k]).2 + ranges[k].3 <= (
                #[trigger] ranges[l]).2
        }),
{
    let list = runs(keys);
    lemma_runs_tile(keys, 0);
    assert forall|m: int| 0 <= m < list.len() implies 0 <= (#[trigger] list[m]).0 < list[m].1
        <= keys.len() by {}
    assert forall|m: int, o: int| 0 <= m < o < list.len() implies (#[trigger] list[m]).1 <= (
    #[trigger] list[o]).0 by {
        lemma_runs_ascend(keys, m, o);
    }
    lemma_ranges_in_bucket(keys, list, bucket);
}

/// The run that a range stands for.
proof fn lemma_range_run(keys: Seq<MaterialRangeKey>, bucket: RenderBucket, k: int) -> (m: int)
    requires
        keys.len() <= u32::MAX,
        0 <= k < material_ranges(keys, bucket).len(),
    ensures
        0 <= m < runs(keys).len(),
        material_ranges(keys, bucket)[k] == material_range(keys, runs(keys)[m]),
        keys[runs(keys)[m].0].bucket == bucket,
        0 <= runs(keys)[m].0 < runs(keys)[m].1 <= keys.len(),
{
    let list = runs(keys);
    lemma_runs_tile(keys, 0);
    assert forall|m: int| 0 <= m < list.len() implies 0 <= (#[trigger] list[m]).0 < list[m].1
        <= keys.len() by {}
    assert forall|m: int, o: int| 0 <= m < o < list.len() implies (#[trigger] list[m]).1 <= (
    #[trigger] list[o]).0 by {
        lemma_runs_ascend(keys, m, o);
    }
    lemma_ranges_in_bucket(keys, list, bucket);
    let ranges = material_ranges(keys, bucket);
    assert(ranges[k] == ranges_in_bucket(keys, list, bucket)[k]);
    let m = choose|m: int|
        0 <= m < list.len() && ranges[k] == material_range(keys, #[trigger] list[m])
            && keys[list[m].0].bucket == bucket;
    assert(0 <= list[m].0 < list[m].1 <= keys.len());
    m
}

/// Two live handles with one slot are the same.
proof fn lemma_same_slot_same_mesh<V>(meshes: SparseSet<MeshId, V>, a: MeshId, b: MeshId)
    requires
        meshes.wf(),
        meshes@.contains_key(a),
        meshes@.contains_key(b),
        a.0.index == b.0.index,
    ensures
        a == b,
{
    meshes.lemma_contains(a);
    meshes.lemma_contains(b);
}

/// Objects with one mesh row have one mesh.
proof fn lemma_slices_by_mesh(scene: Scene)
    requires
        scene.assets_wf(),
    ensures
        slices_by_mesh(scene.entries()),
        forall|i: int|
            0 <= i < scene.entries().len() ==> (#[trigger] scene.entries()[i]).slice
                == scene.meshes@[scene.objects.spec_values()[i].mesh].slice,
{
    let values = scene.objects.spec_values();
    let entries = scene.entries();
    assert forall|i: int, j: int|
        0 <= i < entries.len() && 0 <= j < entries.len() && (#[trigger] entries[i]).key.mesh_row
            == (#[trigger] entries[j]).key.mesh_row implies entries[i].slice
        == entries[j].slice by {
        lemma_object_mesh_live(scene.meshes@, values, i);
        lemma_object_mesh_live(scene.meshes@, values, j);
        assert(values[i].mesh_row == values[i].mesh.0.index);
        assert(values[j].mesh_row == values[j].mesh.0.index);
        lemma_same_slot_same_mesh(scene.meshes, values[i].mesh, values[j].mesh);
    }
}

/// `lists` draws the object: one command draws it, with the index range and base vertex of
/// its own mesh and the row of its own material, in one slot, which has its GPU row and is
/// shown unless one of its groups is hidden. The command lies in a range of its material's
/// class and graph, in the list of the bucket that the material's flags name.
pub open spec fn draws_object(scene: Scene, lists: DrawLists, id: ObjectId, at: (int, int)) -> bool {
    let record = scene.objects.records@[id];
    let slice = scene.meshes@[record.mesh].slice;
    let material = scene.materials@[record.material];
    let forward = material.gpu.flags & scene.flag_bits.forward_shading != 0;
    let transparent = material.gpu.flags & scene.flag_bits.transparent_only != 0;
    &&& drawn_at(lists, scene.objects.records.place(id), at)
    &&& lists.indirect@[at.0].index_count == slice.index_count
    &&& lists.indirect@[at.0].first_index == slice.first_index
    &&& lists.indirect@[at.0].base_vertex == slice.first_vertex as i32
    &&& lists.draw_material_rows@[at.0] == material.gpu_row
    &&& lists.source_indices@[at.1] == record.gpu_row
    &&& lists.visibility@[at.1] == if record.groups.0 & scene.hidden_groups.0 == 0 {
        1u32
    } else {
        0u32
    }
    &&& held(lists.forward_ranges@, at.0) <==> forward
    &&& held(lists.transparent_ranges@, at.0) <==> transparent && !forward
    &&& held(lists.opaque_ranges@, at.0) <==> !transparent && !forward
    &&& forall|k: int|
        0 <= k < lists.forward_ranges@.len() && #[trigger] range_holds(
            lists.forward_ranges@[k],
            at.0,
        ) ==> lists.forward_ranges@[k].0 == material.gpu.material_class
            && lists.forward_ranges@[k].1 == material.graph_hash
    &&& forall|k: int|
        0 <= k < lists.transparent_ranges@.len() && #[trigger] range_holds(
            lists.transparent_ranges@[k],
            at.0,
        ) ==> lists.transparent_ranges@[k].0 == material.gpu.material_class
            && lists.transparent_ranges@[k].1 == material.graph_hash
    &&& forall|k: int|
        0 <= k < lists.opaque_ranges@.len() && #[trigger] range_holds(
            lists.opaque_ranges@[k],
            at.0,
        ) ==> lists.opaque_ranges@[k].0 == material.gpu.material_class
            && lists.opaque_ranges@[k].1 == material.graph_hash
}

proof fn lemma_listed_object_is_drawn(scene: Scene, lists: DrawLists, id: ObjectId) -> (at: (
    int,
    int,
))
    requires
        scene.wf(),
        lists.describes(scene.entries(), scene.hidden_groups),
        scene.objects.records@.contains_key(id),
    ensures
        draws_object(scene, lists, id, at),
        commands_tile(lists.indirect@, scene.objects.records.spec_len() as int),
        forall|other: (int, int)| #[trigger]
            drawn_at(lists, scene.objects.records.place(id), other) ==> other == at,
{
    let entries = scene.entries();
    let values = scene.objects.spec_values();
    scene.objects.records.lemma_contains(id);
    let i = scene.objects.records.place(id);
    lemma_slices_by_mesh(scene);
    lemma_object_material_live(
        scene.materials@,
        values,
        scene.virtual_geometry.spec_values(),
        scene.foliage.spec_types(),
        i,
    );
    assert(values[i].material_row == scene.materials@[values[i].material].gpu_row);
    let at = lemma_object_is_drawn_by_one_command(lists, entries, scene.hidden_groups, i);
    crate::drawing::lemma_calls_and_commands_agree(lists, entries, scene.hidden_groups);
    let list = drawn(entries);
    let groups = batches(entries);
    let keys = groups.map_values(|b: (int, int)| range_key(list, b));
    lemma_draw_order(entries);
    lemma_runs_tile(keys_of(list), 0);
    assert(lists.indirect@[at.0] == indirect_args(list, groups[at.0]));
    assert(groups[at.0].0 <= at.1 < groups[at.0].1);
    assert(keys_of(list)[at.1] == keys_of(list)[groups[at.0].0]);
    assert(list[at.1] == entries[i]);
    assert(keys[at.0].class == entries[i].key.class);
    lemma_ranges_hold_their_draws(keys, RenderBucket::Opaque, at.0);
    lemma_ranges_hold_their_draws(keys, RenderBucket::Transparent, at.0);
    lemma_ranges_hold_their_draws(keys, RenderBucket::Forward, at.0);
    at
}

/// A flush with changed objects draws every object, once, as it is, and tells its slot by
/// its entity; the published commands draw nothing else.
pub proof fn lemma_flush_draws_every_object(
    before: Scene,
    after: Scene,
    measured: Seq<F32>,
    camera: u64,
    graph_epoch: u64,
    id: ObjectId,
) -> (at: (int, int))
    requires
        before.wf(),
        before.flushed(&after, measured, camera, graph_epoch),
        before.objects.dirty,
        before.objects.records@.contains_key(id),
    ensures
        draws_object(before, after.objects.lists, id, at),
        commands_tile(after.objects.lists.indirect@, before.objects.records.spec_len() as int),
        forall|other: (int, int)| #[trigger]
            drawn_at(after.objects.lists, before.objects.records.place(id), other) ==> other
                == at,
        id.0.index < after.objects.projection_slots@.len(),
        after.objects.projection_slots@[id.0.index as int] == at.1,
{
    let at = lemma_listed_object_is_drawn(before, after.objects.lists, id);
    before.objects.records.lemma_contains(id);
    let i = before.objects.records.place(id);
    assert(after.objects.records.id_by_slot@[i] == id);
    lemma_draw_order(before.entries());
    at
}

/// A rebuild of the draw lists draws every object as a flush does.
pub proof fn lemma_rebuild_draws_every_object(before: Scene, after: Scene, id: ObjectId) -> (at: (
    int,
    int,
))
    requires
        before.wf(),
        before.draws_rebuilt(&after),
        before.objects.records@.contains_key(id),
    ensures
        draws_object(before, after.objects.lists, id, at),
        commands_tile(after.objects.lists.indirect@, before.objects.records.spec_len() as int),
        after.objects.projection_slots@[id.0.index as int] == at.1,
{
    let at = lemma_listed_object_is_drawn(before, after.objects.lists, id);
    before.objects.records.lemma_contains(id);
    let i = before.objects.records.place(id);
    assert(after.objects.records.id_by_slot@[i] == id);
    lemma_draw_order(before.entries());
    at
}

/// The object casts a shadow, from the partition of what moves or from the other one.
pub open spec fn casts_from(record: ObjectRecord, movable: bool) -> bool {
    &&& record.pose.flags & 1 == 1
    &&& movable <==> record.movability is Movable
}

/// `from` tells of each caster which object it is: the casters are the objects that cast
/// from the partition, in order.
proof fn lemma_casters_from(
    values: Seq<ObjectRecord>,
    meshes: Map<MeshId, MeshRecord>,
    movable: bool,
) -> (from: Seq<int>)
    ensures
        ({
            let casters = shadow_casters(values, meshes, movable);
            &&& from.len() == casters.len()
            &&& from.no_duplicates()
            &&& forall|k: int|
                0 <= k < from.len() ==> {
                    let record = values[#[trigger] from[k]];
                    &&& 0 <= from[k] < values.len()
                    &&& casts_from(record, movable)
                    &&& casters[k].gpu_row == record.gpu_row
                    &&& casters[k].slice == meshes[record.mesh].slice
                    &&& casters[k].key.mesh_row == record.mesh.0.index
                    &&& casters[k].key.material_row == record.mesh.0.generation
                    &&& casters[k].key.class == 0
                    &&& casters[k].key.graph_hash == 0
                    &&& casters[k].key.bucket is Opaque
                }
            &&& forall|i: int|
                0 <= i < values.len() && casts_from(#[trigger] values[i], movable)
                    ==> from.contains(i)
        }),
    decreases values.len(),
{
    if values.len() == 0 {
        Seq::empty()
    } else {
        let rest = values.drop_last();
        let earlier = lemma_casters_from(rest, meshes, movable);
        let last = values.len() - 1;
        let casters = shadow_casters(values, meshes, movable);
        let flags = values[last].pose.flags;
        assert(flags & 1 != 0 <==> flags & 1 == 1) by (bit_vector);
        let from = if casts_from(values[last], movable) {
            earlier.push(last)
        } else {
            earlier
        };
        assert forall|k: int| 0 <= k < from.len() implies {
            let record = values[#[trigger] from[k]];
            &&& 0 <= from[k] < values.len()
            &&& casts_from(record, movable)
            &&& casters[k].gpu_row == record.gpu_row
            &&& casters[k].slice == meshes[record.mesh].slice
            &&& casters[k].key.mesh_row == record.mesh.0.index
            &&& casters[k].key.material_row == record.mesh.0.generation
            &&& casters[k].key.class == 0
            &&& casters[k].key.graph_hash == 0
            &&& casters[k].key.bucket is Opaque
        } by {
            if k < earlier.len() {
                assert(earlier[k] == from[k]);
                assert(rest[from[k]] == values[from[k]]);
                assert(shadow_casters(rest, meshes, movable)[k] == casters[k]);
            }
        }
        assert(from.no_duplicates()) by {
            assert forall|k: int, l: int|
                0 <= k < from.len() && 0 <= l < from.len() && k != l implies from[k] != from[l] by {
                if k < earlier.len() {
                    assert(earlier[k] < rest.len());
                }
                if l < earlier.len() {
                    assert(earlier[l] < rest.len());
                }
            }
        }
        assert forall|i: int|
            0 <= i < values.len() && casts_from(#[trigger] values[i], movable) implies from.contains(
            i,
        ) by {
            if i < last {
                assert(rest[i] == values[i]);
                assert(earlier.contains(i));
                let k = earlier.index_of(i);
                assert(from[k] == i);
            } else {
                assert(from[from.len() - 1] == i);
            }
        }
        from
    }
}

/// The partition draws exactly the objects that cast a shadow from it: `from` tells of each
/// source which object it is, each object once; the commands tile the sources, and the one
/// that draws a source has the geometry of the object's own mesh.
pub open spec fn partition_draws(
    scene: Scene,
    movable: bool,
    sources: Seq<u32>,
    commands: Seq<DrawIndexedIndirectArgs>,
    from: Seq<int>,
) -> bool {
    let values = scene.objects.spec_values();
    &&& from.len() == sources.len()
    &&& from.no_duplicates()
    &&& commands_tile(commands, sources.len() as int)
    &&& forall|p: int|
        0 <= p < from.len() ==> {
            let record = values[#[trigger] from[p]];
            &&& 0 <= from[p] < values.len()
            &&& casts_from(record, movable)
            &&& sources[p] == record.gpu_row
        }
    &&& forall|i: int|
        0 <= i < values.len() && casts_from(#[trigger] values[i], movable) ==> from.contains(i)
    &&& forall|p: int, n: int|
        #![trigger from[p], commands[n]]
        0 <= p < from.len() && 0 <= n < commands.len() && draws_slot(commands[n], p) ==> {
            let slice = scene.meshes@[values[from[p]].mesh].slice;
            &&& commands[n].index_count == slice.index_count
            &&& commands[n].first_index == slice.first_index
            &&& commands[n].base_vertex == slice.first_vertex as i32
        }
}

proof fn lemma_partition(
    scene: Scene,
    movable: bool,
    sources: Seq<u32>,
    commands: Seq<DrawIndexedIndirectArgs>,
) -> (from: Seq<int>)
    requires
        scene.assets_wf(),
        scene.objects.records.wf(),
        draws_casters(sources, commands, scene.casters(movable)),
    ensures
        partition_draws(scene, movable, sources, commands, from),
{
    let values = scene.objects.spec_values();
    let casters = scene.casters(movable);
    let places = lemma_casters_from(values, scene.meshes@, movable);
    lemma_few(places, values.len() as int);
    assert(casters.len() <= u32::MAX);
    assert(slices_by_mesh(casters)) by {
        assert forall|i: int, j: int|
            0 <= i < casters.len() && 0 <= j < casters.len() && (
            #[trigger] casters[i]).key.mesh_row == (
            #[trigger] casters[j]).key.mesh_row implies casters[i].slice == casters[j].slice by {
            let a = values[places[i]];
            let b = values[places[j]];
            lemma_object_mesh_live(scene.meshes@, values, places[i]);
            lemma_object_mesh_live(scene.meshes@, values, places[j]);
            lemma_same_slot_same_mesh(scene.meshes, a.mesh, b.mesh);
        }
    }
    lemma_draw_order(casters);
    let order = draw_order(casters);
    let from = order.map_values(|k: usize| places[k as int]);
    assert forall|p: int| 0 <= p < from.len() implies {
        let record = values[#[trigger] from[p]];
        &&& 0 <= from[p] < values.len()
        &&& casts_from(record, movable)
        &&& sources[p] == record.gpu_row
    } by {
        assert(order[p] < casters.len());
        assert(drawn(casters)[p] == casters[order[p] as int]);
        assert(values[places[order[p] as int]] == values[from[p]]);
    }
    assert(from.no_duplicates()) by {
        assert forall|p: int, q: int|
            0 <= p < from.len() && 0 <= q < from.len() && p != q implies from[p] != from[q] by {
            assert(order[p] < casters.len() && order[q] < casters.len());
            assert(order[p] != order[q]);
        }
    }
    assert forall|i: int|
        0 <= i < values.len() && casts_from(#[trigger] values[i], movable) implies from.contains(
        i,
    ) by {
        let k = places.index_of(i);
        assert(order.contains(k as usize));
        let p = order.index_of(k as usize);
        assert(from[p] == i);
    }
    if casters.len() > 0 {
        let _ = lemma_commands_draw_each_instance_once(commands, casters, 0);
    } else {
        lemma_runs_tile(keys_of(drawn(casters)), 0);
    }
    assert forall|p: int, n: int|
        #![trigger from[p], commands[n]]
        0 <= p < from.len() && 0 <= n < commands.len() && draws_slot(commands[n], p) implies {
        let slice = scene.meshes@[values[from[p]].mesh].slice;
        &&& commands[n].index_count == slice.index_count
        &&& commands[n].first_index == slice.first_index
        &&& commands[n].base_vertex == slice.first_vertex as i32
    } by {
        let m = lemma_commands_draw_each_instance_once(commands, casters, p);
        assert(m == n);
        assert(order[p] < casters.len());
        assert(values[places[order[p] as int]] == values[from[p]]);
    }
    from
}

proof fn lemma_few(places: Seq<int>, n: int)
    requires
        places.no_duplicates(),
        0 <= n,
        forall|k: int| 0 <= k < places.len() ==> 0 <= #[trigger] places[k] < n,
    ensures
        places.len() <= n,
{
    places.unique_seq_to_set();
    let all = vstd::set_lib::set_int_range(0, n);
    vstd::set_lib::lemma_int_range(0, n);
    assert(places.to_set().subset_of(all)) by {
        assert forall|x: int| places.to_set().contains(x) implies all.contains(x) by {
            let k = places.index_of(x);
            assert(places[k] == x);
        }
    }
    vstd::set_lib::lemma_len_subset(places.to_set(), all);
}

/// The shadow partitions draw the objects whose flags have the lowest bit, those that move
/// apart from the rest: an object without that bit is in neither, one with it in the one it
/// belongs to, once, with the geometry of its own mesh.
pub proof fn lemma_shadow_partitions_draw_the_casters(before: Scene, after: Scene) -> (from: (
    Seq<int>,
    Seq<int>,
))
    requires
        before.wf(),
        before.shadows_rebuilt(&after),
    ensures
        ({
            let shadow = after.objects.shadow;
            &&& partition_draws(
                before,
                false,
                shadow.static_sources@,
                shadow.static_indirect@,
                from.0,
            )
            &&& partition_draws(
                before,
                true,
                shadow.movable_sources@,
                shadow.movable_indirect@,
                from.1,
            )
        }),
{
    let shadow = after.objects.shadow;
    let fixed = lemma_partition(before, false, shadow.static_sources@, shadow.static_indirect@);
    let moving = lemma_partition(before, true, shadow.movable_sources@, shadow.movable_indirect@);
    (fixed, moving)
}

/// A GPU row is among the sources of a partition exactly if a live object with that row
/// casts a shadow from it.
pub proof fn lemma_row_is_in_its_partition(before: Scene, after: Scene, row: u32)
    requires
        before.wf(),
        before.shadows_rebuilt(&after),
    ensures
        after.objects.shadow.static_sources@.contains(row) <==> exists|id: ObjectId|
            #![trigger before.objects.records@[id]]
            before.objects.records@.contains_key(id) && before.objects.records@[id].gpu_row == row
                && casts_from(before.objects.records@[id], false),
        after.objects.shadow.movable_sources@.contains(row) <==> exists|id: ObjectId|
            #![trigger before.objects.records@[id]]
            before.objects.records@.contains_key(id) && before.objects.records@[id].gpu_row == row
                && casts_from(before.objects.records@[id], true),
{
    let (fixed, moving) = lemma_shadow_partitions_draw_the_casters(before, after);
    let shadow = after.objects.shadow;
    lemma_row_is_in_one(before, false, shadow.static_sources@, shadow.static_indirect@, fixed, row);
    lemma_row_is_in_one(
        before,
        true,
        shadow.movable_sources@,
        shadow.movable_indirect@,
        moving,
        row,
    );
}

proof fn lemma_row_is_in_one(
    scene: Scene,
    movable: bool,
    sources: Seq<u32>,
    commands: Seq<DrawIndexedIndirectArgs>,
    from: Seq<int>,
    row: u32,
)
    requires
        scene.objects.records.wf(),
        partition_draws(scene, movable, sources, commands, from),
    ensures
        sources.contains(row) <==> exists|id: ObjectId|
            #![trigger scene.objects.records@[id]]
            scene.objects.records@.contains_key(id) && scene.objects.records@[id].gpu_row == row
                && casts_from(scene.objects.records@[id], movable),
{
    let records = scene.objects.records;
    let values = scene.objects.spec_values();
    if sources.contains(row) {
        let p = sources.index_of(row);
        assert(values[from[p]].gpu_row == row);
        records.lemma_dense(from[p]);
        let id = records.id_by_slot@[from[p]];
        assert(records@[id].gpu_row == row);
    }
    if exists|id: ObjectId|
        #![trigger records@[id]]
        records@.contains_key(id) && records@[id].gpu_row == row && casts_from(
            records@[id],
            movable,
        ) {
        let id = choose|id: ObjectId|
            #![trigger records@[id]]
            records@.contains_key(id) && records@[id].gpu_row == row && casts_from(
                records@[id],
                movable,
            );
        records.lemma_contains(id);
        let i = records.place(id);
        assert(casts_from(values[i], movable));
        let p = from.index_of(i);
        assert(from[p] == i);
        assert(sources[p] == row);
    }
}

} // verus!
