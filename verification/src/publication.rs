//! What a flush tells, and what it leaves due.
use vstd::prelude::*;

use crate::float_bits::F32;
use crate::scene::Scene;

verus! {

/// A flush tells how many objects and decals there are and how many lights may move, and
/// that the graphs changed exactly if their state is not the one at the last flush.
pub proof fn lemma_flush_tells_what_there_is(scene: Scene, graph_epoch: u64)
    requires
        scene.wf(),
    ensures
        ({
            let report = scene.flush_report(graph_epoch);
            &&& report.objects == scene.objects.records.value_by_slot@.len()
            &&& report.lights == scene.lights.slots@.len()
            &&& report.decals == scene.decals.spec_ids().len()
            &&& report.graphs_changed <==> scene.published_graph_epoch != graph_epoch
        }),
{
}

/// After a flush nothing is due: neither draw lists nor layouts nor the sharing out of the
/// atlas nor extraction. The versions of what was rebuilt advanced by one, those of what was
/// not stayed. What is authored stays, and so does what the frame tells.
pub proof fn lemma_flush_leaves_nothing_due(
    before: Scene,
    after: Scene,
    measured: Seq<F32>,
    camera: u64,
    graph_epoch: u64,
    slot: int,
)
    requires
        before.flushed(&after, measured, camera, graph_epoch),
    ensures
        !after.objects.dirty,
        !after.virtual_geometry.dirty,
        !after.lights.projection.atlas_dirty,
        !after.voxels.meshes.dirty_at(slot),
        after.published_graph_epoch == graph_epoch,
        before.objects.dirty ==> after.objects.topology_generation
            == before.objects.topology_generation.wrapping_add(1) && !after.objects.static_dirty,
        !before.objects.dirty ==> after.objects == before.objects,
        after.objects.records == before.objects.records,
        after.objects.movable_generation == before.objects.movable_generation,
        after.lights.records == before.lights.records,
        after.lights.generation == before.lights.generation,
        after.virtual_geometry.objects == before.virtual_geometry.objects,
        after.virtual_geometry.meshes == before.virtual_geometry.meshes,
        after.voxels.volumes == before.voxels.volumes,
        after.materials == before.materials,
        after.meshes == before.meshes,
        after.spaces == before.spaces,
        after.frame == before.frame,
        after.hidden_groups == before.hidden_groups,
        after.bake_invalidated == before.bake_invalidated,
        after.water == before.water,
        after.foliage == before.foliage,
{
}

/// The static shadows have a new generation exactly if something static changed since they
/// were drawn, and the movable ones exactly if what they draw differs from before.
pub proof fn lemma_shadows_are_new_if_they_changed(before: Scene, after: Scene)
    requires
        before.shadows_rebuilt(&after),
    ensures
        ({
            let was = before.objects.shadow;
            let is = after.objects.shadow;
            &&& (is.static_generation == was.static_generation) == !before.objects.static_dirty
            &&& (is.movable_topology_generation == was.movable_topology_generation) == (
            is.movable_sources@ == was.movable_sources@ && is.movable_indirect@
                == was.movable_indirect@)
        }),
{
}

} // verus!
