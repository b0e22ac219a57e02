//! What a flushed scene draws of its virtual objects.
use vstd::prelude::*;

use crate::groups::{lemma_masks_meet, GroupMask};
use crate::handles::VirtualMeshId;
use crate::virtual_geometry::{
    drawn_objects, renderable, VirtualGeometry, VirtualMeshRecord, VirtualObjectRecord,
};

verus! {

/// The object's mesh is live and has meshlets.
pub open spec fn has_meshlets(geometry: VirtualGeometry, i: int) -> bool {
    let mesh = geometry.objects.value_by_slot@[i].virtual_mesh;
    geometry.meshes@.contains_key(mesh) && geometry.meshes@[mesh].meshlet_count > 0
}

proof fn lemma_drawn_place(
    objects: Seq<VirtualObjectRecord>,
    meshes: Map<VirtualMeshId, VirtualMeshRecord>,
    i: int,
)
    requires
        0 <= i < objects.len(),
        renderable(objects[i], meshes),
    ensures
        drawn_objects(objects.take(i), meshes).len() < drawn_objects(objects, meshes).len(),
        drawn_objects(objects, meshes)[drawn_objects(objects.take(i), meshes).len() as int]
            == objects[i],
    decreases objects.len(),
{
    let rest = objects.drop_last();
    if i < objects.len() - 1 {
        assert(rest[i] == objects[i]);
        assert(rest.take(i) =~= objects.take(i));
        lemma_drawn_place(rest, meshes, i);
    } else {
        assert(objects.take(i) =~= rest);
    }
}

proof fn lemma_drawn_source(
    objects: Seq<VirtualObjectRecord>,
    meshes: Map<VirtualMeshId, VirtualMeshRecord>,
    slot: int,
) -> (i: int)
    requires
        0 <= slot < drawn_objects(objects, meshes).len(),
    ensures
        0 <= i < objects.len(),
        renderable(objects[i], meshes),
        drawn_objects(objects.take(i), meshes).len() == slot,
    decreases objects.len(),
{
    let rest = objects.drop_last();
    if slot < drawn_objects(rest, meshes).len() {
        let i = lemma_drawn_source(rest, meshes, slot);
        assert(rest.take(i) =~= objects.take(i));
        assert(rest[i] == objects[i]);
        i
    } else {
        assert(objects.take(objects.len() - 1) =~= rest);
        objects.len() - 1
    }
}

proof fn lemma_drawn_bounded(
    objects: Seq<VirtualObjectRecord>,
    meshes: Map<VirtualMeshId, VirtualMeshRecord>,
)
    ensures
        drawn_objects(objects, meshes).len() <= objects.len(),
    decreases objects.len(),
{
    if objects.len() > 0 {
        lemma_drawn_bounded(objects.drop_last(), meshes);
    }
}

/// After a new layout every virtual object whose mesh has meshlets has a slot with its
/// instance, shown unless one of its groups is hidden; every other one has none. No slot is
/// empty and no two objects share one. The layout has a new version, and nothing is left to
/// upload apart.
pub proof fn lemma_layout_draws_what_has_meshlets(
    before: VirtualGeometry,
    after: VirtualGeometry,
    hidden: GroupMask,
    i: int,
    j: int,
    slot: int,
)
    requires
        before.wf(hidden),
        before.vg_flushed(&after, hidden),
        before.dirty,
        0 <= i < before.objects.spec_len(),
        0 <= j < before.objects.spec_len(),
        0 <= slot < after.cpu_instances@.len(),
    ensures
        after.projection_slots@.len() == before.objects.spec_len(),
        after.cpu_visibility@.len() == after.cpu_instances@.len(),
        has_meshlets(before, i) ==> {
            let s = after.projection_slots@[i] as int;
            let record = before.objects.value_by_slot@[i];
            &&& s < after.cpu_instances@.len()
            &&& after.cpu_instances@[s] == record.instance
            &&& after.cpu_visibility@[s] == if record.groups.0 & hidden.0 == 0 {
                1u32
            } else {
                0u32
            }
        },
        !has_meshlets(before, i) ==> after.projection_slots@[i] == 0xFFFF_FFFFu32,
        has_meshlets(before, i) && has_meshlets(before, j) && i != j
            ==> after.projection_slots@[i] != after.projection_slots@[j],
        exists|k: int|
            0 <= k < before.objects.spec_len() && has_meshlets(before, k)
                && #[trigger] after.projection_slots@[k] == slot,
        !after.dirty,
        after.buffer_version == before.buffer_version.wrapping_add(1),
        after.instance_version == before.instance_version,
        after.instance_dirty_range is None,
        after.objects == before.objects,
{
    let objects = before.spec_values();
    let meshes = before.meshes@;
    lemma_drawn_bounded(objects, meshes);
    lemma_drawn_bounded(objects.take(i), meshes);
    lemma_drawn_bounded(objects.take(j), meshes);
    lemma_masks_meet(objects[i].groups, hidden);
    if renderable(objects[i], meshes) {
        lemma_drawn_place(objects, meshes, i);
    }
    if renderable(objects[j], meshes) {
        lemma_drawn_place(objects, meshes, j);
    }
    if renderable(objects[i], meshes) && renderable(objects[j], meshes) && i != j {
        let (a, b) = if i < j { (i, j) } else { (j, i) };
        let shorter = objects.take(b);
        assert(shorter[a] == objects[a]);
        assert(shorter.take(a) =~= objects.take(a));
        lemma_drawn_place(shorter, meshes, a);
    }
    let k = lemma_drawn_source(objects, meshes, slot);
    lemma_drawn_bounded(objects.take(k), meshes);
    assert(after.projection_slots@[k] == slot);
}

/// Without a new layout, what was moved is uploaded: the range that is published is the one
/// that gathered, and it advances the version of the instances; without any nothing changes.
pub proof fn lemma_upload_publishes_what_was_moved(
    before: VirtualGeometry,
    after: VirtualGeometry,
    hidden: GroupMask,
)
    requires
        before.vg_flushed(&after, hidden),
        !before.dirty,
    ensures
        after.buffer_version == before.buffer_version,
        after.cpu_instances == before.cpu_instances,
        after.projection_slots == before.projection_slots,
        after.instance_dirty_range is None,
        before.instance_dirty_range is Some ==> after.published_dirty_range
            == before.instance_dirty_range && after.instance_version
            == before.instance_version.wrapping_add(1),
        before.instance_dirty_range is None ==> after == before,
{
}

} // verus!
