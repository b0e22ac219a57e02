//! Draw lists and shadow partitions of the scene's objects.
use vstd::prelude::*;

use crate::draws::{
    batches, build_draw_lists, drawn, draw_order, indirect_args, lemma_draw_order, render_bucket,
    shadow_key, shadow_movable_partition_changed, spec_render_bucket, spec_shadow_key, DrawEntry,
    DrawIndexedIndirectArgs, DrawLists, MaterialFlagBits, ObjectSortKey,
};
use crate::groups::GroupMask;
use crate::handles::{Handle, MaterialId, MeshId, ObjectId};
use crate::materials::MaterialRecord;
use crate::objects::{
    ObjectRecord, Objects, ShadowPartitions, NO_LIGHTMAP, NO_OBJECT_PROJECTION_SLOT,
};
use crate::references::{lemma_object_mesh_live, meshes_linked, MeshRecord};
use crate::rows::Movability;
use crate::scene::Scene;

verus! {

/// Flag of an object that casts shadows.
pub const CASTS_SHADOW: u32 = 1;

/// What batches an object: the class, graph and bucket of its material, its mesh
/// and its material.
pub open spec fn object_key(
    record: ObjectRecord,
    materials: Map<MaterialId, MaterialRecord>,
    bits: MaterialFlagBits,
) -> ObjectSortKey {
    let material = materials[record.material];
    let known = materials.contains_key(record.material);
    ObjectSortKey {
        class: if known {
            material.gpu.material_class
        } else {
            0
        },
        graph_hash: if known {
            material.graph_hash
        } else {
            0
        },
        bucket: spec_render_bucket(
            if known {
                material.gpu.flags
            } else {
                0
            },
            bits,
        ),
        mesh_row: record.mesh_row,
        material_row: record.material_row,
    }
}

/// The objects as the draw lists see them, in compact order.
pub open spec fn object_entries(
    values: Seq<ObjectRecord>,
    materials: Map<MaterialId, MaterialRecord>,
    meshes: Map<MeshId, MeshRecord>,
    bits: MaterialFlagBits,
) -> Seq<DrawEntry> {
    Seq::new(
        values.len(),
        |i: int|
            DrawEntry {
                key: object_key(values[i], materials, bits),
                gpu_row: values[i].gpu_row,
                groups: values[i].groups,
                slice: meshes[values[i].mesh].slice,
            },
    )
}

/// The object casts shadows and belongs to the named partition.
pub open spec fn casts_in(record: ObjectRecord, movable: bool) -> bool {
    record.pose.flags & CASTS_SHADOW != 0 && (record.movability == Movability::Movable) == movable
}

/// The shadow casters of one partition, in compact order.
pub open spec fn shadow_casters(
    values: Seq<ObjectRecord>,
    meshes: Map<MeshId, MeshRecord>,
    movable: bool,
) -> Seq<DrawEntry>
    decreases values.len(),
{
    if values.len() == 0 {
        Seq::empty()
    } else {
        let rest = shadow_casters(values.drop_last(), meshes, movable);
        let record = values.last();
        if casts_in(record, movable) {
            rest.push(
                DrawEntry {
                    key: spec_shadow_key(record.mesh.0.index, record.mesh.0.generation),
                    gpu_row: record.gpu_row,
                    groups: record.groups,
                    slice: meshes[record.mesh].slice,
                },
            )
        } else {
            rest
        }
    }
}

/// Rows and commands that draw `casters`, batched by mesh.
pub open spec fn draws_casters(
    sources: Seq<u32>,
    indirect: Seq<DrawIndexedIndirectArgs>,
    casters: Seq<DrawEntry>,
) -> bool {
    let list = drawn(casters);
    &&& sources == list.map_values(|e: DrawEntry| e.gpu_row)
    &&& indirect == batches(casters).map_values(|b: (int, int)| indirect_args(list, b))
}

proof fn lemma_casters_bounded(
    values: Seq<ObjectRecord>,
    meshes: Map<MeshId, MeshRecord>,
    movable: bool,
)
    ensures
        shadow_casters(values, meshes, movable).len() <= values.len(),
    decreases values.len(),
{
    if values.len() > 0 {
        lemma_casters_bounded(values.drop_last(), meshes, movable);
    }
}

/// Every object has the draw slot at which the lists hold it; other entity slots
/// have none.
pub open spec fn slots_follow(objects: Objects) -> bool {
    &&& forall|i: int|
        0 <= i < objects.records.spec_len() ==> {
            &&& (#[trigger] objects.records.id_by_slot@[i]).0.index
                < objects.projection_slots@.len()
            &&& objects.slot_at(i) < objects.lists.order@.len()
            &&& objects.lists.order@[objects.slot_at(i) as int] == i
        }
    &&& forall|e: u32|
        e < objects.projection_slots@.len() && !objects.records.occupies(e)
            ==> #[trigger] objects.projection_slots@[e as int] == NO_OBJECT_PROJECTION_SLOT
}

/// The region that lights a mesh: the last one with this mesh slot.
pub open spec fn lightmap_of(regions: Seq<[u64; 2]>, slot: u32) -> u32
    decreases regions.len(),
{
    if regions.len() == 0 {
        NO_LIGHTMAP
    } else if regions.last()[1] == 0 && regions.last()[0] % 0x1_0000_0000 == slot {
        (regions.len() - 1) as u32
    } else {
        lightmap_of(regions.drop_last(), slot)
    }
}

fn lightmap_index(regions: &Vec<[u64; 2]>, slot: u32) -> (index: u32)
    requires
        regions@.len() <= u32::MAX,
    ensures
        index == lightmap_of(regions@, slot),
{
    let mut i: usize = regions.len();
    assert(regions@.take(i as int) =~= regions@);
    while i > 0
        invariant
            0 <= i <= regions@.len() <= u32::MAX,
            lightmap_of(regions@, slot) == lightmap_of(regions@.take(i as int), slot),
        decreases i,
    {
        let region: [u64; 2] = regions[i - 1];
        assert(regions@.take(i as int).drop_last() =~= regions@.take(i - 1));
        assert(regions@.take(i as int).last() == region);
        if region[1] == 0 && region[0] % 0x1_0000_0000 == slot as u64 {
            return (i - 1) as u32;
        }
        i = i - 1;
    }
    NO_LIGHTMAP
}

/// An object as a new lightmap atlas lights it.
pub open spec fn relit(record: ObjectRecord, regions: Seq<[u64; 2]>) -> ObjectRecord {
    if record.movability == Movability::Movable {
        record
    } else {
        ObjectRecord { lightmap_index: lightmap_of(regions, record.mesh.0.index), ..record }
    }
}

impl Scene {
    pub open spec fn entries(&self) -> Seq<DrawEntry> {
        object_entries(
            self.objects.spec_values(),
            self.materials@,
            self.meshes@,
            self.flag_bits,
        )
    }

    pub open spec fn casters(&self, movable: bool) -> Seq<DrawEntry> {
        shadow_casters(self.objects.spec_values(), self.meshes@, movable)
    }

    fn draw_entries(&self) -> (entries: Vec<DrawEntry>)
        requires
            self.assets_wf(),
            self.objects.records.wf(),
        ensures
            entries@ == self.entries(),
    {
        let mut entries: Vec<DrawEntry> = Vec::new();
        let mut i: usize = 0;
        while i < self.objects.records.value_by_slot.len()
            invariant
                0 <= i <= self.objects.spec_values().len(),
                self.assets_wf(),
                entries@ =~= self.entries().take(i as int),
            decreases self.objects.spec_values().len() - i,
        {
            let record: ObjectRecord = self.objects.records.value_by_slot[i];
            proof {
                lemma_object_mesh_live(self.meshes@, self.objects.spec_values(), i as int);
            }
            let (class, graph_hash, flags) = match self.materials.get(record.material) {
                Some(material) => (
                    material.gpu.material_class,
                    material.graph_hash,
                    material.gpu.flags,
                ),
                None => (0u32, 0u64, 0u32),
            };
            match self.meshes.get(record.mesh) {
                Some(mesh) => {
                    entries.push(
                        DrawEntry {
                            key: ObjectSortKey {
                                class,
                                graph_hash,
                                bucket: render_bucket(flags, self.flag_bits),
                                mesh_row: record.mesh_row,
                                material_row: record.material_row,
                            },
                            gpu_row: record.gpu_row,
                            groups: record.groups,
                            slice: mesh.slice,
                        },
                    );
                },
                None => {
                    assert(false);
                },
            }
            i = i + 1;
        }
        assert(entries@ =~= self.entries());
        entries
    }

    fn caster_entries(&self, movable: bool) -> (entries: Vec<DrawEntry>)
        requires
            self.assets_wf(),
            self.objects.records.wf(),
        ensures
            entries@ == self.casters(movable),
    {
        let mut entries: Vec<DrawEntry> = Vec::new();
        let ghost values = self.objects.spec_values();
        let mut i: usize = 0;
        while i < self.objects.records.value_by_slot.len()
            invariant
                0 <= i <= values.len(),
                values == self.objects.spec_values(),
                self.assets_wf(),
                entries@ == shadow_casters(values.take(i as int), self.meshes@, movable),
            decreases values.len() - i,
        {
            let record: ObjectRecord = self.objects.records.value_by_slot[i];
            proof {
                lemma_object_mesh_live(self.meshes@, values, i as int);
                assert(values.take(i + 1).drop_last() =~= values.take(i as int));
                assert(values.take(i + 1).last() == record);
            }
            if record.pose.flags & CASTS_SHADOW != 0 && record.movability.can_move() == movable {
                match self.meshes.get(record.mesh) {
                    Some(mesh) => {
                        entries.push(
                            DrawEntry {
                                key: shadow_key(record.mesh.slot(), record.mesh.generation()),
                                gpu_row: record.gpu_row,
                                groups: record.groups,
                                slice: mesh.slice,
                            },
                        );
                    },
                    None => {
                        assert(false);
                    },
                }
            }
            i = i + 1;
        }
        assert(values.take(i as int) =~= values);
        entries
    }

    /// Draw slots of the objects in `lists`.
    fn slots_for(&self, lists: &DrawLists) -> (slots: Vec<u32>)
        requires
            self.objects.records.wf(),
            lists.order@ == draw_order(self.entries()),
        ensures
            slots@.len() >= self.objects.projection_slots@.len(),
            forall|i: int|
                0 <= i < self.objects.records.spec_len() ==> {
                    let e = (#[trigger] self.objects.records.id_by_slot@[i]).0.index as int;
                    &&& e < slots@.len()
                    &&& slots@[e] < lists.order@.len()
                    &&& lists.order@[slots@[e] as int] == i
                },
            forall|e: u32|
                e < slots@.len() && !self.objects.records.occupies(e)
                    ==> #[trigger] slots@[e as int] == NO_OBJECT_PROJECTION_SLOT,
    {
        let ghost ids = self.objects.records.id_by_slot@;
        let ghost entries = self.entries();
        proof {
            lemma_draw_order(entries);
        }
        let mut span: usize = self.objects.projection_slots.len();
        let mut i: usize = 0;
        while i < self.objects.records.id_by_slot.len()
            invariant
                0 <= i <= ids.len(),
                ids == self.objects.records.id_by_slot@,
                self.objects.records.wf(),
                span >= self.objects.projection_slots@.len(),
                forall|j: int| 0 <= j < i ==> (#[trigger] ids[j]).0.index < span,
            decreases ids.len() - i,
        {
            let index: usize = self.objects.records.id_by_slot[i].slot() as usize;
            assert(ids[i as int].spec_entity().index
                < self.objects.records.slot_by_entity@.len());
            let reach: usize = self.objects.records.slot_by_entity.len();
            assert(index < reach);
            if span <= index {
                span = index + 1;
            }
            i = i + 1;
        }
        let mut slots: Vec<u32> = Vec::new();
        slots.resize(span, NO_OBJECT_PROJECTION_SLOT);
        let mut p: usize = 0;
        while p < lists.order.len()
            invariant
                0 <= p <= lists.order@.len(),
                lists.order@ == draw_order(entries),
                entries.len() == ids.len(),
                ids == self.objects.records.id_by_slot@,
                self.objects.records.wf(),
                slots@.len() == span,
                forall|j: int| 0 <= j < ids.len() ==> (#[trigger] ids[j]).0.index < span,
                draw_order(entries).len() == entries.len(),
                forall|q: int|
                    0 <= q < entries.len() ==> #[trigger] draw_order(entries)[q] < entries.len(),
                draw_order(entries).no_duplicates(),
                forall|q: int|
                    0 <= q < p ==> slots@[ids[#[trigger] lists.order@[q] as int].0.index as int]
                        == q,
                forall|e: u32|
                    e < slots@.len() && !self.objects.records.occupies(e)
                        ==> #[trigger] slots@[e as int] == NO_OBJECT_PROJECTION_SLOT,
            decreases lists.order@.len() - p,
        {
            let place: usize = lists.order[p];
            assert(draw_order(entries)[p as int] < entries.len());
            let index: usize = self.objects.records.id_by_slot[place].slot() as usize;
            proof {
                self.objects.records.lemma_dense(place as int);
                assert(self.objects.records.occupies(ids[place as int].0.index));
                assert forall|q: int| 0 <= q < p implies ids[#[trigger] lists.order@[q] as int].0.index
                    != index by {
                    assert(draw_order(entries)[q] < entries.len());
                    self.objects.records.lemma_distinct(lists.order@[q] as int, place as int);
                }
            }
            slots.set(index, p as u32);
            p = p + 1;
        }
        proof {
            assert forall|k: int| 0 <= k < self.objects.records.spec_len() implies {
                let e = (#[trigger] self.objects.records.id_by_slot@[k]).0.index as int;
                &&& e < slots@.len()
                &&& slots@[e] < lists.order@.len()
                &&& lists.order@[slots@[e] as int] == k
            } by {
                assert(draw_order(entries).contains(k as usize));
                let q = draw_order(entries).index_of(k as usize);
                assert(lists.order@[q] == k);
            }
        }
        slots
    }

    /// Sorts and batches the objects anew, and with them the shadow casters.
    pub fn rebuild_instance_buffers(&mut self)
        requires
            old(self).wf(),
        ensures
            final(self).wf(),
            old(self).draws_rebuilt(final(self)),
            final(self).objects.published(final(self).hidden_groups),
    {
        let entries: Vec<DrawEntry> = self.draw_entries();
        let lists: DrawLists = build_draw_lists(&entries, self.hidden_groups);
        let slots: Vec<u32> = self.slots_for(&lists);
        let ghost all = self.entries();
        proof {
            lemma_draw_order(all);
        }
        self.objects.projection_slots = slots;
        self.objects.lists = lists;
        self.objects.topology_generation = self.objects.topology_generation.wrapping_add(1);
        proof {
            assert(self.objects.published(self.hidden_groups)) by {
                assert forall|i: int| 0 <= i < self.objects.records.spec_len() implies {
                    &&& (#[trigger] self.objects.records.id_by_slot@[i]).0.index
                        < self.objects.projection_slots@.len()
                    &&& self.objects.slot_at(i) < self.objects.records.spec_len()
                    &&& self.objects.lists.source_indices@[self.objects.slot_at(i) as int]
                        == self.objects.spec_values()[i].gpu_row
                    &&& self.objects.lists.visibility@[self.objects.slot_at(i) as int]
                        == crate::draws::visibility_word(
                        self.objects.spec_values()[i].groups,
                        self.hidden_groups,
                    )
                } by {
                    let p = self.objects.slot_at(i) as int;
                    assert(draw_order(all)[p] == i);
                    assert(drawn(all)[p] == all[i]);
                }
                assert forall|i: int, j: int|
                    0 <= i < self.objects.records.spec_len() && 0 <= j
                        < self.objects.records.spec_len() && i
                        != j implies #[trigger] self.objects.slot_at(i)
                    != #[trigger] self.objects.slot_at(j) by {
                    assert(self.objects.records.id_by_slot@[i].0.index
                        < self.objects.projection_slots@.len());
                    assert(self.objects.records.id_by_slot@[j].0.index
                        < self.objects.projection_slots@.len());
                }
            }
        }
        self.rebuild_shadow_partition_buffers();
    }

    /// `after` is `self` with draw lists and shadow partitions of its objects.
    pub open spec fn draws_rebuilt(&self, after: &Scene) -> bool {
        &&& *after == (Scene { objects: after.objects, ..*self })
        &&& after.objects == (Objects {
            projection_slots: after.objects.projection_slots,
            lists: after.objects.lists,
            topology_generation: self.objects.topology_generation.wrapping_add(1),
            shadow: after.objects.shadow,
            static_dirty: false,
            ..self.objects
        })
        &&& after.objects.lists.describes(self.entries(), self.hidden_groups)
        &&& slots_follow(after.objects)
        &&& self.shadows_rebuilt(after)
    }

    /// The shadow partitions of `after` draw the casters of `self`.
    pub open spec fn shadows_rebuilt(&self, after: &Scene) -> bool {
        let before = self.objects.shadow;
        let now = after.objects.shadow;
        &&& draws_casters(now.static_sources@, now.static_indirect@, self.casters(false))
        &&& draws_casters(now.movable_sources@, now.movable_indirect@, self.casters(true))
        &&& now.static_generation == if self.objects.static_dirty {
            before.static_generation.wrapping_add(1)
        } else {
            before.static_generation
        }
        &&& now.movable_topology_generation == if before.movable_sources@ != now.movable_sources@
            || before.movable_indirect@ != now.movable_indirect@ {
            before.movable_topology_generation.wrapping_add(1)
        } else {
            before.movable_topology_generation
        }
    }

    /// Batches the shadow casters by mesh, those that move apart from the rest.
    pub fn rebuild_shadow_partition_buffers(&mut self)
        requires
            old(self).assets_wf(),
            old(self).objects.records.wf(),
        ensures
            *final(self) == (Scene { objects: final(self).objects, ..*old(self) }),
            final(self).objects == (Objects {
                shadow: final(self).objects.shadow,
                static_dirty: false,
                ..old(self).objects
            }),
            old(self).shadows_rebuilt(final(self)),
    {
        let static_casters: Vec<DrawEntry> = self.caster_entries(false);
        let movable_casters: Vec<DrawEntry> = self.caster_entries(true);
        proof {
            lemma_casters_bounded(self.objects.spec_values(), self.meshes@, false);
            lemma_casters_bounded(self.objects.spec_values(), self.meshes@, true);
        }
        let fixed: DrawLists = build_draw_lists(&static_casters, GroupMask::none());
        let moving: DrawLists = build_draw_lists(&movable_casters, GroupMask::none());
        let static_generation: u64 = if self.objects.static_dirty {
            self.objects.shadow.static_generation.wrapping_add(1)
        } else {
            self.objects.shadow.static_generation
        };
        let changed: bool = shadow_movable_partition_changed(
            self.objects.shadow.movable_sources.as_slice(),
            moving.source_indices.as_slice(),
            self.objects.shadow.movable_indirect.as_slice(),
            moving.indirect.as_slice(),
        );
        let movable_topology_generation: u64 = if changed {
            self.objects.shadow.movable_topology_generation.wrapping_add(1)
        } else {
            self.objects.shadow.movable_topology_generation
        };
        self.objects.shadow =
        ShadowPartitions {
            static_sources: fixed.source_indices,
            static_indirect: fixed.indirect,
            movable_sources: moving.source_indices,
            movable_indirect: moving.indirect,
            static_generation,
            movable_topology_generation,
        };
        self.objects.static_dirty = false;
    }

    /// Tells every object that cannot move which region of the lightmap atlas
    /// lights it. A region names a mesh slot; the last one that names it counts.
    pub fn update_lightmap_indices(&mut self, regions: &Vec<[u64; 2]>)
        requires
            old(self).wf(),
            regions@.len() <= u32::MAX,
        ensures
            final(self).wf(),
            *final(self) == (Scene { objects: final(self).objects, ..*old(self) }),
            final(self).objects == (Objects {
                records: final(self).objects.records,
                ..old(self).objects
            }),
            final(self).objects.records.id_by_slot == old(self).objects.records.id_by_slot,
            final(self).objects.records@.dom() == old(self).objects.records@.dom(),
            forall|id: ObjectId| #[trigger]
                old(self).objects.records@.contains_key(id) ==> final(self).objects.records@[id]
                    == relit(old(self).objects.records@[id], regions@),
    {
        let ghost before = *self;
        let ghost values = self.objects.spec_values();
        let mut i: usize = 0;
        while i < self.objects.records.id_by_slot.len()
            invariant
                0 <= i <= values.len(),
                regions@.len() <= u32::MAX,
                self.wf(),
                before.wf(),
                values == before.objects.spec_values(),
                *self == (Scene { objects: self.objects, ..before }),
                self.objects == (Objects { records: self.objects.records, ..before.objects }),
                self.objects.records.id_by_slot == before.objects.records.id_by_slot,
                self.objects.records.slot_by_entity == before.objects.records.slot_by_entity,
                self.objects.spec_values().len() == values.len(),
                forall|j: int|
                    0 <= j < values.len() ==> #[trigger] self.objects.spec_values()[j] == if j
                        < i {
                        relit(values[j], regions@)
                    } else {
                        values[j]
                    },
            decreases values.len() - i,
        {
            let id: ObjectId = self.objects.records.id_by_slot[i];
            let record: ObjectRecord = self.objects.records.value_by_slot[i];
            proof {
                self.objects.records.lemma_dense(i as int);
            }
            if !record.movability.can_move() {
                let index: u32 = lightmap_index(regions, record.mesh.slot());
                let ghost prior = self.objects.spec_values();
                self.relight_object(
                    id,
                    ObjectRecord { lightmap_index: index, ..record },
                );
            }
            i = i + 1;
        }
        proof {
            assert forall|id: ObjectId| #[trigger]
                self.objects.records@.contains_key(id) <==> before.objects.records@.contains_key(
                    id,
                ) by {
                self.objects.records.lemma_contains(id);
                before.objects.records.lemma_contains(id);
            }
            assert(self.objects.records@.dom() =~= before.objects.records@.dom());
            assert forall|id: ObjectId| #[trigger]
                before.objects.records@.contains_key(id) implies self.objects.records@[id] == relit(
                before.objects.records@[id],
                regions@,
            ) by {
                before.objects.records.lemma_contains(id);
                let p = before.objects.records.place(id);
                assert(self.objects.spec_values()[p] == relit(values[p], regions@));
                self.objects.records.lemma_dense(p);
            }
        }
    }

    /// Vertices and triangles drawn, every instance counted.
    pub fn drawn_mesh_stats(&self) -> (drawn_counts: (u64, u64))
        requires
            self.wf(),
        ensures
            drawn_counts.0 == drawn_vertices(self.objects.spec_values(), self.meshes@),
            drawn_counts.1 == drawn_triangles(self.objects.spec_values(), self.meshes@),
    {
        let ghost values = self.objects.spec_values();
        let mut vertices: u64 = 0;
        let mut triangles: u64 = 0;
        let mut i: usize = 0;
        while i < self.objects.records.value_by_slot.len()
            invariant
                0 <= i <= values.len() <= u32::MAX,
                values == self.objects.spec_values(),
                self.meshes.wf(),
                meshes_linked(self.meshes@, values),
                vertices == drawn_vertices(values.take(i as int), self.meshes@),
                triangles == drawn_triangles(values.take(i as int), self.meshes@),
                vertices <= i * 0xFFFF_FFFF,
                triangles <= i * 0xFFFF_FFFF,
            decreases values.len() - i,
        {
            proof {
                lemma_object_mesh_live(self.meshes@, values, i as int);
                assert(values.take(i + 1).drop_last() =~= values.take(i as int));
                assert(values.take(i + 1).last() == values[i as int]);
                assert(i * 0xFFFF_FFFF <= 0xFFFF_FFFE * 0xFFFF_FFFF) by (nonlinear_arith)
                    requires
                        i < 0xFFFF_FFFF,
                ;
            }
            match self.meshes.get(self.objects.records.value_by_slot[i].mesh) {
                Some(mesh) => {
                    triangles = triangles + (mesh.slice.index_count / 3) as u64;
                    vertices = vertices + mesh.slice.vertex_count as u64;
                },
                None => {
                    assert(false);
                },
            }
            i = i + 1;
        }
        assert(values.take(i as int) =~= values);
        (vertices, triangles)
    }
}

/// Vertices of all drawn instances.
pub open spec fn drawn_vertices(values: Seq<ObjectRecord>, meshes: Map<MeshId, MeshRecord>) -> int
    decreases values.len(),
{
    if values.len() == 0 {
        0
    } else {
        drawn_vertices(values.drop_last(), meshes) + meshes[values.last().mesh].slice.vertex_count
    }
}

/// Triangles of all drawn instances.
pub open spec fn drawn_triangles(values: Seq<ObjectRecord>, meshes: Map<MeshId, MeshRecord>) -> int
    decreases values.len(),
{
    if values.len() == 0 {
        0
    } else {
        drawn_triangles(values.drop_last(), meshes) + meshes[values.last().mesh].slice.index_count
            as int / 3
    }
}

} // verus!
