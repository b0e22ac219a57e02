//! What is still to be told of the scene's content: the marks and stamps as they will
//! stand once all of it is gone. Removing something tells of it, and so leaves these alone.
use vstd::prelude::*;

use crate::counting::{lemma_total_swap_removed, total};
use crate::draws::{batches, drawn, keys_of, lemma_draw_order, DrawEntry};
use crate::float_bits::F32;
use crate::handles::{
    LightId, ObjectId, ReflectionCaptureId, SublevelId, VirtualObjectId, VoxelVolumeId,
};
use crate::lights::LightRecord;
use crate::objects::{ObjectRecord, Objects, ShadowPartitions};
use crate::reflections::{ReflectionCaptureMobility, ReflectionCaptureRecord};
use crate::rows::Movability;
use crate::runs::lemma_runs_tile;
use crate::scene::Scene;
use crate::sectioned_objects::{advanced, some_fixed};
use crate::spaces::{SpaceField, SublevelRecord};
use crate::sparse_set::{lemma_len_of_subset, swap_removed};
use crate::sublevels::{changes_space, some_tagged};
use crate::virtual_geometry::VirtualGeometry;
use crate::voxel_mesh_projection::{GpuVoxelMeshWork, VoxelMeshProjection};
use crate::voxels::VoxelMode;

verus! {

/// Some object never moves.
pub open spec fn fixed_object(records: Map<ObjectId, ObjectRecord>) -> bool {
    exists|id: ObjectId| #[trigger]
        records.contains_key(id) && records[id].movability != Movability::Movable
}

/// Some light never moves.
pub open spec fn fixed_light(records: Map<LightId, LightRecord>) -> bool {
    exists|id: LightId| #[trigger]
        records.contains_key(id) && records[id].movability != Movability::Movable
}

/// Some reflection capture is baked.
pub open spec fn baked_capture(
    captures: Map<ReflectionCaptureId, ReflectionCaptureRecord>,
) -> bool {
    exists|id: ReflectionCaptureId| #[trigger]
        captures.contains_key(id) && captures[id].row.mobility == ReflectionCaptureMobility::Static
}

/// Number of sublevels in which a movable object stands.
pub open spec fn moving_sublevels(
    field: SpaceField,
    values: Seq<ObjectRecord>,
    sublevels: Seq<SublevelRecord>,
) -> nat {
    total(sublevels, houses_mover(field, values))
}

/// One for a sublevel in which a movable object stands.
pub open spec fn houses_mover(field: SpaceField, values: Seq<ObjectRecord>) -> spec_fn(
    SublevelRecord,
) -> nat {
    |record: SublevelRecord|
        if some_tagged(field, values, record.group, Some(record.row), 0, true) {
            1nat
        } else {
            0
        }
}

/// Some output slot waits to be published, or will once its volume is gone.
pub open spec fn work_due(meshes: VoxelMeshProjection) -> bool {
    ||| exists|slot: int| #[trigger] meshes.dirty_at(slot)
    ||| meshes.regions@.len() > 0
}

/// Marks and stamps of a scene as they will stand before the next flush if all that is
/// in it goes first.
pub struct Outstanding {
    pub bake: bool,
    pub static_shadows: bool,
    pub draws: bool,
    pub movable_generation: u64,
    pub topology_generation: u64,
    pub shadow: ShadowPartitions,
    pub light_generation: u64,
    pub atlas: bool,
    pub shadow_faces: u32,
    pub shadow_matrices: u32,
    pub foliage_generation: u64,
    pub layout: bool,
    pub layout_version: u64,
    pub moved_instances: Option<(usize, usize)>,
    pub published_instances: Option<(usize, usize)>,
    pub instance_version: u64,
    pub cull_version: u64,
    pub extraction: bool,
    pub extraction_generation: u64,
    pub extraction_work: Vec<GpuVoxelMeshWork>,
}

impl Scene {
    /// What was baked is out of date, or will be.
    pub open spec fn bake_due(&self) -> bool {
        ||| self.bake_invalidated
        ||| fixed_object(self.objects.records@)
        ||| fixed_light(self.lights.records@)
        ||| baked_capture(self.reflections.captures@)
    }

    /// The static shadows are out of date, or will be.
    pub open spec fn static_shadows_due(&self) -> bool {
        self.objects.static_dirty || fixed_object(self.objects.records@)
    }

    /// The draw lists must be rebuilt, or will have to be.
    pub open spec fn draws_due(&self) -> bool {
        self.objects.dirty || self.objects.records.spec_len() > 0
    }

    /// Every sublevel that a movable object stands in counts as one move.
    pub open spec fn movable_stamp(&self) -> u64 {
        advanced(
            self.objects.movable_generation,
            moving_sublevels(
                self.spaces.field,
                self.objects.spec_values(),
                self.spaces.sublevels.value_by_slot@,
            ),
        )
    }

    /// Every light that is evaluated at run time counts as one change.
    pub open spec fn light_stamp(&self) -> u64 {
        advanced(self.lights.generation, self.lights.projection.rows.spec_len())
    }

    /// The shadow budget must be ranked, or will have to be.
    pub open spec fn ranking_due(&self) -> bool {
        self.lights.projection.atlas_dirty || self.lights.projection.rows.spec_len() > 0
    }

    /// Every foliage layer and every foliage type counts as one change.
    pub open spec fn foliage_stamp(&self) -> u64 {
        advanced(
            self.foliage.generation,
            self.foliage.layers.spec_len() + self.foliage.types.spec_len(),
        )
    }

    /// The layout of virtual geometry must be rebuilt, or will have to be.
    pub open spec fn layout_due(&self) -> bool {
        self.virtual_geometry.dirty || self.virtual_geometry.objects.spec_len() > 0
    }

    /// All of it, together with the stamps that content does not bear on.
    #[verifier::opaque]
    pub open spec fn outstanding(&self) -> Outstanding {
        Outstanding {
            bake: self.bake_due(),
            static_shadows: self.static_shadows_due(),
            draws: self.draws_due(),
            movable_generation: self.movable_stamp(),
            topology_generation: self.objects.topology_generation,
            shadow: self.objects.shadow,
            light_generation: self.light_stamp(),
            atlas: self.ranking_due(),
            shadow_faces: self.lights.active_shadow_face_count,
            shadow_matrices: self.lights.shadow_matrix_count,
            foliage_generation: self.foliage_stamp(),
            layout: self.layout_due(),
            layout_version: self.virtual_geometry.buffer_version,
            moved_instances: self.virtual_geometry.instance_dirty_range,
            published_instances: self.virtual_geometry.published_dirty_range,
            instance_version: self.virtual_geometry.instance_version,
            cull_version: self.virtual_geometry.cull_signature_version,
            extraction: work_due(self.voxels.meshes),
            extraction_generation: self.voxels.mesh_work_generation,
            extraction_work: self.voxels.mesh_work,
        }
    }

    /// `after` is empty and has been flushed, and its marks and stamps tell of all that
    /// was in `self`.
    pub open spec fn content_told(&self, after: &Scene) -> bool {
        let shadow = self.objects.shadow;
        let layout = self.virtual_geometry;
        &&& after.bake_invalidated == self.bake_due()
        &&& after.objects.movable_generation == self.movable_stamp()
        &&& !after.objects.dirty
        &&& if self.draws_due() {
            &&& after.objects.topology_generation == self.objects.topology_generation.wrapping_add(
                1,
            )
            &&& !after.objects.static_dirty
            &&& after.objects.shadow.static_sources@.len() == 0
            &&& after.objects.shadow.static_indirect@.len() == 0
            &&& after.objects.shadow.movable_sources@.len() == 0
            &&& after.objects.shadow.movable_indirect@.len() == 0
            &&& after.objects.shadow.static_generation == if self.static_shadows_due() {
                shadow.static_generation.wrapping_add(1)
            } else {
                shadow.static_generation
            }
            &&& after.objects.shadow.movable_topology_generation == if shadow.movable_sources@.len()
                > 0 || shadow.movable_indirect@.len() > 0 {
                shadow.movable_topology_generation.wrapping_add(1)
            } else {
                shadow.movable_topology_generation
            }
        } else {
            &&& after.objects.topology_generation == self.objects.topology_generation
            &&& after.objects.static_dirty == self.objects.static_dirty
            &&& after.objects.shadow == shadow
        }
        &&& after.lights.generation == self.light_stamp()
        &&& !after.lights.projection.atlas_dirty
        &&& if self.ranking_due() {
            &&& after.lights.active_shadow_face_count == 0
            &&& after.lights.shadow_matrix_count == 1
        } else {
            &&& after.lights.active_shadow_face_count == self.lights.active_shadow_face_count
            &&& after.lights.shadow_matrix_count == self.lights.shadow_matrix_count
        }
        &&& after.foliage.generation == self.foliage_stamp()
        &&& !after.virtual_geometry.dirty
        &&& after.virtual_geometry.instance_dirty_range is None
        &&& after.virtual_geometry.cull_signature_version == layout.cull_signature_version
        &&& if self.layout_due() {
            &&& after.virtual_geometry.buffer_version == layout.buffer_version.wrapping_add(1)
            &&& after.virtual_geometry.instance_version == layout.instance_version
            &&& after.virtual_geometry.published_dirty_range is None
            &&& after.virtual_geometry.cpu_instances@.len() == 0
            &&& after.virtual_geometry.cpu_visibility@.len() == 0
        } else {
            &&& after.virtual_geometry.buffer_version == layout.buffer_version
            &&& match layout.instance_dirty_range {
                Some(range) => {
                    &&& after.virtual_geometry.instance_version
                        == layout.instance_version.wrapping_add(1)
                    &&& after.virtual_geometry.published_dirty_range == Some(range)
                },
                None => {
                    &&& after.virtual_geometry.instance_version == layout.instance_version
                    &&& after.virtual_geometry.published_dirty_range
                        == layout.published_dirty_range
                },
            }
        }
        &&& after.voxels.mesh_draw_count == 0
        &&& forall|slot: int| !#[trigger] after.voxels.meshes.dirty_at(slot)
        &&& if work_due(self.voxels.meshes) {
            &&& after.voxels.mesh_work@ == after.voxels.meshes.rows@
            &&& after.voxels.mesh_work_generation == self.voxels.mesh_work_generation.wrapping_add(
                1,
            )
        } else {
            &&& after.voxels.mesh_work == self.voxels.mesh_work
            &&& after.voxels.mesh_work_generation == self.voxels.mesh_work_generation
        }
    }
}

/// One step now and the rest later come to the same stamp.
proof fn lemma_one_step(generation: u64, n: nat)
    requires
        n > 0,
    ensures
        advanced(generation.wrapping_add(1), (n - 1) as nat) == advanced(generation, n),
{
    if generation == u64::MAX {
        assert((n - 1) % 0x1_0000_0000_0000_0000 == (n - 1 + 0x1_0000_0000_0000_0000)
            % 0x1_0000_0000_0000_0000) by (nonlinear_arith);
    }
}

proof fn lemma_total_same<T>(s: Seq<T>, f: spec_fn(T) -> nat, g: spec_fn(T) -> nat)
    requires
        forall|i: int| 0 <= i < s.len() ==> f(#[trigger] s[i]) == g(s[i]),
    ensures
        total(s, f) == total(s, g),
    decreases s.len(),
{
    if s.len() > 0 {
        assert(f(s[s.len() - 1]) == g(s[s.len() - 1]));
        assert forall|i: int| 0 <= i < s.drop_last().len() implies f(#[trigger] s.drop_last()[i])
            == g(s.drop_last()[i]) by {
            assert(s.drop_last()[i] == s[i]);
        }
        lemma_total_same(s.drop_last(), f, g);
    }
}

/// Nothing else has a say in it.
pub(crate) proof fn lemma_outstanding_same(before: Scene, after: Scene)
    requires
        after.objects == (Objects { lists: after.objects.lists, ..before.objects }),
        after.lights == before.lights,
        after.reflections.captures@ == before.reflections.captures@,
        after.spaces.field == before.spaces.field,
        after.spaces.sublevels == before.spaces.sublevels,
        after.foliage.generation == before.foliage.generation,
        after.foliage.layers == before.foliage.layers,
        after.foliage.types == before.foliage.types,
        after.virtual_geometry == (VirtualGeometry {
            meshes: after.virtual_geometry.meshes,
            cpu_visibility: after.virtual_geometry.cpu_visibility,
            ..before.virtual_geometry
        }),
        after.voxels == before.voxels,
        after.bake_invalidated == before.bake_invalidated,
    ensures
        after.outstanding() == before.outstanding(),
{
    reveal(Scene::outstanding);
}

/// Removing a sublevel tells of its members.
pub(crate) proof fn lemma_sublevel_told(before: Scene, after: Scene, id: SublevelId)
    requires
        before.wf(),
        after.wf(),
        before.spaces.sublevels@.contains_key(id),
        after == (Scene {
            objects: after.objects,
            bake_invalidated: after.bake_invalidated,
            spaces: after.spaces,
            ..before
        }),
        before.spaces.sublevel_taken(&after.spaces, id),
        before.group_in_space(
            &after,
            before.spaces.sublevels@[id].group,
            Some(before.spaces.sublevels@[id].row),
            0,
        ),
    ensures
        after.outstanding() == before.outstanding(),
{
    reveal(Scene::outstanding);
    let field = before.spaces.field;
    let a = before.objects.spec_values();
    let b = after.objects.spec_values();
    let record = before.spaces.sublevels@[id];
    let ids = before.objects.records.id_by_slot@;
    before.spaces.sublevels.lemma_contains(id);
    let p = before.spaces.sublevels.place(id);
    let levels = before.spaces.sublevels.value_by_slot@;
    let rest = swap_removed(levels, p);
    // The objects are the same and can move as before.
    assert forall|o: ObjectId| #[trigger]
        after.objects.records@.contains_key(o) == before.objects.records@.contains_key(o) && (
        after.objects.records@.contains_key(o) ==> after.objects.records@[o].movability
            == before.objects.records@[o].movability) by {
        before.objects.records.lemma_contains(o);
        after.objects.records.lemma_contains(o);
        if before.objects.records@.contains_key(o) {
            let i = before.objects.records.place(o);
            after.objects.records.lemma_dense(i);
            assert(b[i].movability == a[i].movability);
        }
        if after.objects.records@.contains_key(o) {
            let i = after.objects.records.place(o);
            before.objects.records.lemma_dense(i);
        }
    }
    assert(fixed_object(after.objects.records@) == fixed_object(before.objects.records@)) by {
        if fixed_object(before.objects.records@) {
            let o = choose|o: ObjectId| #[trigger]
                before.objects.records@.contains_key(o) && before.objects.records@[o].movability
                    != Movability::Movable;
            assert(after.objects.records@.contains_key(o));
        }
        if fixed_object(after.objects.records@) {
            let o = choose|o: ObjectId| #[trigger]
                after.objects.records@.contains_key(o) && after.objects.records@[o].movability
                    != Movability::Movable;
            assert(before.objects.records@.contains_key(o));
        }
    }
    if some_tagged(field, a, record.group, Some(record.row), 0, false) {
        let i = choose|i: int|
            0 <= i < a.len() && changes_space(
                field,
                #[trigger] a[i],
                record.group,
                Some(record.row),
                0,
            ) && (a[i].movability == Movability::Movable) == false;
        before.objects.records.lemma_dense(i);
        assert(before.objects.records@.contains_key(ids[i]));
    }
    // The other sublevels have the members they had.
    assert forall|k: int| 0 <= k < rest.len() implies houses_mover(field, b)(#[trigger] rest[k])
        == houses_mover(field, a)(rest[k]) by {
        let other = rest[k];
        assert(other.row != record.row && other.row != 0) by {
            assert(exists|j: int| 0 <= j < levels.len() && j != p && levels[j] == other) by {
                if k == p {
                    assert(levels[levels.len() - 1] == other);
                } else {
                    assert(levels[k] == other);
                }
            }
            let j = choose|j: int| 0 <= j < levels.len() && j != p && levels[j] == other;
            assert(levels[p] == record);
        }
        assert forall|i: int| 0 <= i < a.len() implies changes_space(
            field,
            #[trigger] a[i],
            other.group,
            Some(other.row),
            0,
        ) == changes_space(field, b[i], other.group, Some(other.row), 0)
            && b[i].movability == a[i].movability by {
            field.lemma_tag_reads_back(a[i].pose.flags, 0);
        }
        if some_tagged(field, a, other.group, Some(other.row), 0, true) {
            let i = choose|i: int|
                0 <= i < a.len() && changes_space(
                    field,
                    #[trigger] a[i],
                    other.group,
                    Some(other.row),
                    0,
                ) && (a[i].movability == Movability::Movable) == true;
            assert(changes_space(field, b[i], other.group, Some(other.row), 0));
        }
        if some_tagged(field, b, other.group, Some(other.row), 0, true) {
            let i = choose|i: int|
                0 <= i < b.len() && changes_space(
                    field,
                    #[trigger] b[i],
                    other.group,
                    Some(other.row),
                    0,
                ) && (b[i].movability == Movability::Movable) == true;
            assert(changes_space(field, a[i], other.group, Some(other.row), 0));
        }
    }
    lemma_total_same(rest, houses_mover(field, b), houses_mover(field, a));
    lemma_total_swap_removed(levels, p, houses_mover(field, a));
    assert(levels[p] == record);
    if some_tagged(field, a, record.group, Some(record.row), 0, true) {
        assert(houses_mover(field, a)(record) == 1);
        lemma_one_step(before.objects.movable_generation, moving_sublevels(field, a, levels));
    }
}

/// Removing objects tells of them; no sublevel is left.
pub(crate) proof fn lemma_objects_told(before: Scene, after: Scene, list: Seq<ObjectId>)
    requires
        before.spaces.sublevels.spec_len() == 0,
        before.spaces.wf(),
        before.objects_taken(&after, list),
        forall|k: int|
            0 <= k < list.len() ==> before.objects.records@.contains_key(#[trigger] list[k]),
        list.len() <= before.objects.records.spec_len(),
    ensures
        after.outstanding() == before.outstanding(),
{
    reveal(Scene::outstanding);
    let a = before.objects.records@;
    let b = after.objects.records@;
    if some_fixed(a, list) {
        let k = choose|k: int|
            0 <= k < list.len() && a[#[trigger] list[k]].movability != Movability::Movable;
        assert(a.contains_key(list[k]));
    }
    if fixed_object(a) {
        let o = choose|o: ObjectId| #[trigger]
            a.contains_key(o) && a[o].movability != Movability::Movable;
        if list.contains(o) {
            let k = list.index_of(o);
            assert(a[list[k]].movability != Movability::Movable);
        } else {
            assert(!list.to_set().contains(o));
            assert(b.contains_key(o));
        }
    }
    if fixed_object(b) {
        let o = choose|o: ObjectId| #[trigger]
            b.contains_key(o) && b[o].movability != Movability::Movable;
        assert(a.contains_key(o));
    }
    assert(moving_sublevels(
        before.spaces.field,
        before.objects.spec_values(),
        before.spaces.sublevels.value_by_slot@,
    ) == 0);
    assert(moving_sublevels(
        after.spaces.field,
        after.objects.spec_values(),
        after.spaces.sublevels.value_by_slot@,
    ) == 0);
}

/// Removing an object tells of it; no sublevel is left.
pub(crate) proof fn lemma_object_told(before: Scene, after: Scene, id: ObjectId)
    requires
        before.spaces.sublevels.spec_len() == 0,
        before.spaces.wf(),
        before.objects.records.wf(),
        before.objects.records@.contains_key(id),
        before.object_removed(&after, id),
    ensures
        after.outstanding() == before.outstanding(),
{
    reveal(Scene::outstanding);
    let a = before.objects.records@;
    let b = after.objects.records@;
    before.objects.records.lemma_contains(id);
    if fixed_object(a) {
        let o = choose|o: ObjectId| #[trigger]
            a.contains_key(o) && a[o].movability != Movability::Movable;
        if o != id {
            assert(b.contains_key(o));
        }
    }
    if fixed_object(b) {
        let o = choose|o: ObjectId| #[trigger]
            b.contains_key(o) && b[o].movability != Movability::Movable;
        assert(a.contains_key(o));
    }
    assert(moving_sublevels(
        before.spaces.field,
        before.objects.spec_values(),
        before.spaces.sublevels.value_by_slot@,
    ) == 0);
    assert(moving_sublevels(
        after.spaces.field,
        after.objects.spec_values(),
        after.spaces.sublevels.value_by_slot@,
    ) == 0);
}

/// Removing a light tells of it.
pub(crate) proof fn lemma_light_told(before: Scene, after: Scene, id: LightId)
    requires
        before.lights.wf(),
        before.lights.records@.contains_key(id),
        before.light_removed(&after, id),
    ensures
        after.outstanding() == before.outstanding(),
{
    reveal(Scene::outstanding);
    let a = before.lights.records@;
    let b = after.lights.records@;
    if fixed_light(a) {
        let o = choose|o: LightId| #[trigger]
            a.contains_key(o) && a[o].movability != Movability::Movable;
        if o != id {
            assert(b.contains_key(o));
        }
    }
    if fixed_light(b) {
        let o = choose|o: LightId| #[trigger]
            b.contains_key(o) && b[o].movability != Movability::Movable;
        assert(a.contains_key(o));
    }
    if a[id].movability == Movability::Movable {
        let rows = before.lights.projection.rows;
        assert(rows.rows@.contains_key(id));
        rows.rows.lemma_contains(id);
        lemma_one_step(before.lights.generation, rows.spec_len());
    }
}

/// Removing a reflection capture tells of it.
pub(crate) proof fn lemma_capture_told(before: Scene, after: Scene, id: ReflectionCaptureId)
    requires
        before.reflections.captures@.contains_key(id),
        before.reflection_capture_removed(&after, id),
    ensures
        after.outstanding() == before.outstanding(),
{
    reveal(Scene::outstanding);
    let a = before.reflections.captures@;
    let b = after.reflections.captures@;
    if baked_capture(a) {
        let o = choose|o: ReflectionCaptureId| #[trigger]
            a.contains_key(o) && a[o].row.mobility == ReflectionCaptureMobility::Static;
        if o != id {
            assert(b.contains_key(o));
        }
    }
    if baked_capture(b) {
        let o = choose|o: ReflectionCaptureId| #[trigger]
            b.contains_key(o) && b[o].row.mobility == ReflectionCaptureMobility::Static;
        assert(a.contains_key(o));
    }
}

/// Removing a voxel volume tells of its output slots.
pub(crate) proof fn lemma_volume_told(before: Scene, after: Scene, id: VoxelVolumeId)
    requires
        before.voxels.wf(),
        after.voxels.wf(),
        before.voxels.volumes@.contains_key(id),
        before.voxel_volume_removed(&after, id),
    ensures
        after.outstanding() == before.outstanding(),
{
    reveal(Scene::outstanding);
    let a = before.voxels.meshes;
    let b = after.voxels.meshes;
    assert(before.voxels.housed(id));
    if before.voxels.volumes@[id].mode == VoxelMode::Auto {
        assert(a.resident(id.0));
        let region = a.region_of(id.0);
        assert(region.holds(region.base as int));
        assert(b.dirty_at(region.base as int));
    }
}

/// Removing a virtual object tells of it.
pub(crate) proof fn lemma_virtual_object_told(before: Scene, after: Scene, id: VirtualObjectId)
    requires
        before.virtual_geometry.objects.wf(),
        before.virtual_geometry.objects@.contains_key(id),
        before.virtual_object_removed(&after, id),
    ensures
        after.outstanding() == before.outstanding(),
{
    reveal(Scene::outstanding);
    before.virtual_geometry.objects.lemma_contains(id);
}

/// Removing a foliage layer or type tells of it.
pub(crate) proof fn lemma_foliage_told(before: Scene, after: Scene)
    requires
        after.objects == before.objects,
        after.lights == before.lights,
        after.reflections == before.reflections,
        after.spaces == before.spaces,
        after.virtual_geometry == before.virtual_geometry,
        after.voxels == before.voxels,
        after.bake_invalidated == before.bake_invalidated,
        after.foliage.generation == before.foliage.generation.wrapping_add(1),
        after.foliage.layers.spec_len() + after.foliage.types.spec_len() + 1
            == before.foliage.layers.spec_len() + before.foliage.types.spec_len(),
    ensures
        after.outstanding() == before.outstanding(),
{
    reveal(Scene::outstanding);
    lemma_one_step(
        before.foliage.generation,
        before.foliage.layers.spec_len() + before.foliage.types.spec_len(),
    );
}

/// Nothing is drawn of no casters.
proof fn lemma_no_casters(casters: Seq<DrawEntry>)
    requires
        casters.len() == 0,
    ensures
        drawn(casters).len() == 0,
        batches(casters).len() == 0,
{
    lemma_draw_order(casters);
    lemma_runs_tile(keys_of(drawn(casters)), 0);
}

proof fn lemma_nothing_fixed(scene: Scene)
    requires
        scene.wf(),
        scene.is_empty(),
    ensures
        !fixed_object(scene.objects.records@),
        !fixed_light(scene.lights.records@),
        !baked_capture(scene.reflections.captures@),
{
    assert forall|id: ObjectId| !#[trigger] scene.objects.records@.contains_key(id) by {
        scene.objects.records.lemma_contains(id);
    }
    assert forall|id: LightId| !#[trigger] scene.lights.records@.contains_key(id) by {
        scene.lights.records.lemma_contains(id);
    }
    assert forall|id: ReflectionCaptureId| !#[trigger] scene.reflections.captures@.contains_key(
        id,
    ) by {
        scene.reflections.captures.lemma_contains(id);
    }
}

proof fn lemma_nothing_resident(scene: Scene)
    requires
        scene.voxels.wf(),
        scene.voxels.volumes.spec_len() == 0,
    ensures
        scene.voxels.meshes.regions@.len() == 0,
{
    if scene.voxels.meshes.regions@.len() > 0 {
        let entity = scene.voxels.meshes.regions@[0].entity;
        assert(scene.voxels.meshes.resident(entity));
        scene.voxels.volumes.lemma_contains(VoxelVolumeId(entity));
    }
}

/// What a flush makes of an emptied scene.
#[verifier::spinoff_prover]
pub(crate) proof fn lemma_content_told(
    before: Scene,
    emptied: Scene,
    after: Scene,
    measured: Seq<F32>,
    camera: u64,
    graph_epoch: u64,
)
    requires
        emptied.wf(),
        after.wf(),
        emptied.is_empty(),
        emptied.outstanding() == before.outstanding(),
        emptied.flushed(&after, measured, camera, graph_epoch),
    ensures
        before.content_told(&after),
{
    reveal(Scene::outstanding);
    lemma_nothing_fixed(emptied);
    lemma_len_of_subset(emptied.lights.projection.rows.rows, emptied.lights.records);
    assert(moving_sublevels(
        emptied.spaces.field,
        emptied.objects.spec_values(),
        emptied.spaces.sublevels.value_by_slot@,
    ) == 0);
    lemma_nothing_resident(emptied);
    lemma_nothing_resident(after);
    let count = after.voxels.mesh_draw_count;
    if count > 0 {
        assert(after.voxels.meshes.occupied_at(count - 1));
        assert(after.voxels.meshes.owners@[count - 1] is None);
    }
    if emptied.objects.dirty {
        lemma_no_casters(emptied.casters(false));
        lemma_no_casters(emptied.casters(true));
        let shadow = emptied.objects.shadow;
        assert(shadow.movable_sources@ =~= after.objects.shadow.movable_sources@
            <==> shadow.movable_sources@.len() == 0);
        assert(shadow.movable_indirect@ =~= after.objects.shadow.movable_indirect@
            <==> shadow.movable_indirect@.len() == 0);
    }
}

/// Clearing a scene that was just cleared tells of nothing: every mark and stamp stays.
pub proof fn lemma_clearing_again_tells_nothing(before: Scene, cleared: Scene, again: Scene)
    requires
        cleared.wf(),
        cleared.is_empty(),
        before.content_told(&cleared),
        cleared.content_told(&again),
    ensures
        again.bake_invalidated == cleared.bake_invalidated,
        again.objects.movable_generation == cleared.objects.movable_generation,
        again.objects.topology_generation == cleared.objects.topology_generation,
        again.objects.static_dirty == cleared.objects.static_dirty,
        again.objects.shadow == cleared.objects.shadow,
        again.lights.generation == cleared.lights.generation,
        again.lights.active_shadow_face_count == cleared.lights.active_shadow_face_count,
        again.lights.shadow_matrix_count == cleared.lights.shadow_matrix_count,
        again.foliage.generation == cleared.foliage.generation,
        again.virtual_geometry.buffer_version == cleared.virtual_geometry.buffer_version,
        again.virtual_geometry.instance_version == cleared.virtual_geometry.instance_version,
        again.virtual_geometry.cull_signature_version
            == cleared.virtual_geometry.cull_signature_version,
        again.voxels.mesh_work_generation == cleared.voxels.mesh_work_generation,
        again.voxels.mesh_work == cleared.voxels.mesh_work,
{
    lemma_nothing_fixed(cleared);
    lemma_nothing_resident(cleared);
    lemma_len_of_subset(cleared.lights.projection.rows.rows, cleared.lights.records);
    assert(moving_sublevels(
        cleared.spaces.field,
        cleared.objects.spec_values(),
        cleared.spaces.sublevels.value_by_slot@,
    ) == 0);
}

} // verus!
