//! The flush: everything that changed since the last one is published.
use vstd::prelude::*;

use crate::float_bits::F32;
use crate::light_projection::NO_ATLAS_BASE;
use crate::lights::Lights;
use crate::object_draws::slots_follow;
use crate::objects::Objects;
use crate::scene::Scene;
use crate::shadow_budget::camera_hash;

verus! {

/// What a flush hands to the renderer beside the scene's own lists.
#[derive(Clone, Copy, Debug, PartialEq, Eq, Structural)]
pub struct FlushReport {
    /// The graph sources changed and must be copied.
    pub graphs_changed: bool,
    /// Objects that are drawn.
    pub objects: usize,
    /// Lights that are evaluated at run time.
    pub lights: usize,
    pub decals: usize,
}

impl Lights {
    /// `after` has the shadow atlas given to the casters that `measured` ranks highest,
    /// if the budget was due to be ranked.
    pub open spec fn budget_ranked(&self, after: &Lights, measured: Seq<F32>) -> bool {
        &&& !after.projection.atlas_dirty
        &&& after.projection.rows == self.projection.rows
        &&& *after == (Lights {
            projection: after.projection,
            slots: after.slots,
            active_shadow_face_count: after.active_shadow_face_count,
            shadow_matrix_count: after.shadow_matrix_count,
            caster_hashes: after.caster_hashes,
            ..*self
        })
        &&& if self.projection.atlas_dirty {
            &&& after.slots@.len() == self.slots@.len()
            &&& exists|winners: Seq<int>| #[trigger]
                self.budget_goes_to(measured, winners) && self.atlas_given(after, winners)
            &&& after.faces_in_use(after.active_shadow_face_count)
            &&& after.shadow_matrix_count == if after.active_shadow_face_count == 0 {
                1
            } else {
                after.active_shadow_face_count
            }
        } else {
            &&& after.slots == self.slots
            &&& after.active_shadow_face_count == self.active_shadow_face_count
            &&& after.shadow_matrix_count == self.shadow_matrix_count
        }
    }
}

proof fn lemma_hashes_same(a: Lights, b: Lights, camera: u64, n: int)
    requires
        a.records == b.records,
        a.projection.rows == b.projection.rows,
        a.slots == b.slots,
    ensures
        a.hashes(camera, n) == b.hashes(camera, n),
    decreases n,
{
    if n > 0 {
        lemma_hashes_same(a, b, camera, n - 1);
    }
}

proof fn lemma_faces_same(a: Lights, b: Lights, count: u32)
    requires
        a.slots == b.slots,
    ensures
        a.faces_in_use(count) == b.faces_in_use(count),
{
    if a.faces_in_use(count) && count > 0 {
        let i = choose|i: int|
            0 <= i < a.slots@.len() && (#[trigger] a.slots@[i])[1] != NO_ATLAS_BASE
                && a.slots@[i][1] + crate::light_projection::FACES_PER_LIGHT == count;
        assert(b.slots@[i][1] != NO_ATLAS_BASE);
    }
    if b.faces_in_use(count) && count > 0 {
        let i = choose|i: int|
            0 <= i < b.slots@.len() && (#[trigger] b.slots@[i])[1] != NO_ATLAS_BASE
                && b.slots@[i][1] + crate::light_projection::FACES_PER_LIGHT == count;
        assert(a.slots@[i][1] != NO_ATLAS_BASE);
    }
}

impl Scene {
    /// `after` draws the objects as they are in `self`.
    pub open spec fn objects_flushed(&self, after: &Scene) -> bool {
        if self.objects.dirty {
            &&& after.objects == (Objects {
                projection_slots: after.objects.projection_slots,
                lists: after.objects.lists,
                topology_generation: self.objects.topology_generation.wrapping_add(1),
                shadow: after.objects.shadow,
                dirty: false,
                static_dirty: false,
                ..self.objects
            })
            &&& after.objects.lists.describes(self.entries(), self.hidden_groups)
            &&& slots_follow(after.objects)
            &&& self.shadows_rebuilt(after)
        } else {
            after.objects == self.objects
        }
    }

    /// `after` is `self` with everything published.
    pub open spec fn flushed(
        &self,
        after: &Scene,
        measured: Seq<F32>,
        camera: u64,
        graph_epoch: u64,
    ) -> bool {
        &&& *after == (Scene {
            lights: after.lights,
            objects: after.objects,
            virtual_geometry: after.virtual_geometry,
            voxels: after.voxels,
            published_graph_epoch: graph_epoch,
            ..*self
        })
        &&& self.lights.budget_ranked(&after.lights, measured)
        &&& after.lights.caster_hashes@ == after.lights.hashes(
            camera,
            after.lights.slots@.len() as int,
        )
        &&& self.objects_flushed(after)
        &&& after.objects.published(self.hidden_groups)
        &&& self.virtual_geometry.vg_flushed(&after.virtual_geometry, self.hidden_groups)
        &&& self.voxels.meshes_published(&after.voxels)
    }

    /// What a flush tells of the scene.
    pub open spec fn flush_report(&self, graph_epoch: u64) -> FlushReport {
        FlushReport {
            graphs_changed: self.published_graph_epoch != graph_epoch,
            objects: self.objects.records.spec_len() as usize,
            lights: self.lights.projection.rows.spec_len() as usize,
            decals: self.decals.spec_len() as usize,
        }
    }

    /// Publishes what changed. `measured` holds for each light that is evaluated at run
    /// time how much its shadow matters; `view` and `projection` are those of the camera
    /// without jitter; `graph_epoch` tells which state the graph sources are in.
    #[verifier::spinoff_prover]
    #[verifier::rlimit(60)]
    pub fn flush(
        &mut self,
        measured: &[F32],
        view: &[F32; 16],
        projection: &[F32; 16],
        graph_epoch: u64,
    ) -> (report: FlushReport)
        requires
            old(self).wf(),
            measured@.len() == old(self).lights.projection.rows.spec_len(),
        ensures
            final(self).wf(),
            old(self).flushed(
                final(self),
                measured@,
                camera_hash(*view, *projection),
                graph_epoch,
            ),
            report == old(self).flush_report(graph_epoch),
    {
        let ghost before = *self;
        self.lights.rank_shadow_budget(measured);
        let ghost ranked = self.lights;
        self.lights.refresh_caster_hashes(view, projection);
        proof {
            lemma_hashes_same(
                ranked,
                self.lights,
                camera_hash(*view, *projection),
                ranked.slots@.len() as int,
            );
            lemma_faces_same(ranked, self.lights, self.lights.active_shadow_face_count);
            if before.lights.projection.atlas_dirty {
                let winners = choose|winners: Seq<int>| #[trigger]
                    before.lights.budget_goes_to(measured@, winners) && before.lights.atlas_given(
                        &ranked,
                        winners,
                    );
                assert(before.lights.atlas_given(&self.lights, winners));
            }
            assert(before.lights.budget_ranked(&self.lights, measured@));
        }
        let ghost lit = *self;
        assert(lit.wf());
        if self.objects.dirty {
            self.rebuild_instance_buffers();
            let ghost rebuilt = *self;
            self.objects.dirty = false;
            proof {
                assert(self.objects.published(self.hidden_groups) == rebuilt.objects.published(
                    rebuilt.hidden_groups,
                ));
                assert(slots_follow(self.objects) == slots_follow(rebuilt.objects));
                assert(lit.entries() == before.entries());
                assert(before.objects_flushed(self));
            }
        }
        assert(before.objects_flushed(self));
        let ghost drawn = *self;
        assert(drawn.wf());
        self.virtual_geometry.publish(self.hidden_groups);
        let ghost laid_out = *self;
        assert(laid_out.wf());
        self.voxels.publish_meshes();
        let graphs_changed: bool = self.published_graph_epoch != graph_epoch;
        self.published_graph_epoch = graph_epoch;
        assert(before.objects_flushed(self));
        FlushReport {
            graphs_changed,
            objects: self.objects.lists.source_indices.len(),
            lights: self.lights.projection.rows.len(),
            decals: self.decals.len(),
        }
    }
}

/// A flush right after a flush publishes nothing new: lists, layouts, shadow slots,
/// extraction work and the versions of all of them stay.
pub proof fn lemma_second_flush_changes_nothing(
    before: Scene,
    flushed: Scene,
    again: Scene,
    measured: Seq<F32>,
    camera: u64,
    graph_epoch: u64,
)
    requires
        flushed.wf(),
        again.wf(),
        before.flushed(&flushed, measured, camera, graph_epoch),
        flushed.flushed(&again, measured, camera, graph_epoch),
    ensures
        again.objects == flushed.objects,
        again.virtual_geometry == flushed.virtual_geometry,
        again.lights.slots == flushed.lights.slots,
        again.lights.caster_hashes@ == flushed.lights.caster_hashes@,
        again.lights.active_shadow_face_count == flushed.lights.active_shadow_face_count,
        again.lights.shadow_matrix_count == flushed.lights.shadow_matrix_count,
        again.voxels.mesh_work == flushed.voxels.mesh_work,
        again.voxels.mesh_work_generation == flushed.voxels.mesh_work_generation,
        again.voxels.meshes.rows@ == flushed.voxels.meshes.rows@,
        again.voxels.mesh_draw_count == flushed.voxels.mesh_draw_count,
        again.published_graph_epoch == flushed.published_graph_epoch,
{
    lemma_hashes_same(
        flushed.lights,
        again.lights,
        camera,
        flushed.lights.slots@.len() as int,
    );
    assert forall|slot: int| !#[trigger] flushed.voxels.meshes.dirty_at(slot) by {}
    assert(again.voxels.meshes.rows@ =~= flushed.voxels.meshes.rows@);
    assert(again.voxels.meshes.occupied == flushed.voxels.meshes.occupied);
    let a = flushed.voxels.mesh_draw_count;
    let b = again.voxels.mesh_draw_count;
    if a > 0 {
        assert(flushed.voxels.meshes.occupied_at(a - 1));
        assert(again.voxels.meshes.occupied_at(a - 1));
    }
    if b > 0 {
        assert(again.voxels.meshes.occupied_at(b - 1));
        assert(flushed.voxels.meshes.occupied_at(b - 1));
    }
}

} // verus!
