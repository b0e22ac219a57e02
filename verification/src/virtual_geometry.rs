//! Virtual geometry: meshlet-based meshes and their placed instances.
use vstd::prelude::*;

use crate::counting::occurrences;
use crate::draws::visibility_word;
use crate::float_bits::F32;
use crate::groups::{object_is_visible, GroupMask};
use crate::handles::{MaterialId, MeshId, VirtualMeshId, VirtualObjectId};
use crate::rows::Movability;
use crate::sparse_set::SparseSet;

verus! {

/// Instance data of a virtual object as shaders read it.
#[derive(Clone, Copy, Debug)]
pub struct GpuInstanceData {
    pub model: [F32; 16],
    pub normal_mat: [F32; 12],
    pub bounds: [F32; 4],
    pub prev_model: [F32; 16],
    pub mesh_id: u32,
    pub material_id: u32,
    pub flags: u32,
    pub lightmap_index: u32,
}

#[derive(Clone, Copy, Debug)]
pub struct VirtualMeshRecord {
    /// Pool mesh of the finest level of detail, if one was uploaded.
    pub first_mesh: Option<MeshId>,
    /// Meshlets of all levels of detail; a mesh without any is not drawn.
    pub meshlet_count: u32,
    /// Number of virtual objects that use this mesh.
    pub ref_count: u32,
}

#[derive(Clone, Copy, Debug)]
pub struct VirtualObjectRecord {
    pub virtual_mesh: VirtualMeshId,
    pub material: MaterialId,
    pub groups: GroupMask,
    pub movability: Movability,
    pub instance: GpuInstanceData,
}

pub struct VirtualGeometry {
    pub meshes: SparseSet<VirtualMeshId, VirtualMeshRecord>,
    pub objects: SparseSet<VirtualObjectId, VirtualObjectRecord>,
    /// The layout must be rebuilt at the next flush.
    pub dirty: bool,
    /// Advances with every rebuilt layout.
    pub buffer_version: u64,
    /// Instances that moved since the last flush, end exclusive.
    pub instance_dirty_range: Option<(usize, usize)>,
    /// Instances that the last transform-only flush published, end exclusive.
    pub published_dirty_range: Option<(usize, usize)>,
    /// Advances with every transform-only flush.
    pub instance_version: u64,
    /// Advances when material cull flags or group visibility change what is culled.
    pub cull_signature_version: u64,
    /// Published slot of each object, in compact order; `u32::MAX` means none.
    pub projection_slots: Vec<u32>,
    pub cpu_instances: Vec<GpuInstanceData>,
    pub cpu_visibility: Vec<u32>,
}

/// Marks an object that the published layout does not draw.
pub const NO_VG_SLOT: u32 = u32::MAX;

pub open spec fn object_assets(objects: Seq<VirtualObjectRecord>) -> Seq<VirtualMeshId> {
    objects.map_values(|o: VirtualObjectRecord| o.virtual_mesh)
}

/// Number of virtual objects that use a virtual mesh.
pub open spec fn virtual_mesh_uses(objects: Seq<VirtualObjectRecord>, mesh: VirtualMeshId) -> nat {
    occurrences(object_assets(objects), mesh)
}

impl VirtualGeometry {
    pub open spec fn spec_values(&self) -> Seq<VirtualObjectRecord> {
        self.objects.value_by_slot@
    }

    /// Virtual meshes count their users, and used ones are live.
    pub open spec fn linked(&self) -> bool {
        &&& forall|m: VirtualMeshId| #[trigger]
            self.meshes@.contains_key(m) ==> self.meshes@[m].ref_count == virtual_mesh_uses(
                self.spec_values(),
                m,
            )
        &&& forall|m: VirtualMeshId| #[trigger]
            virtual_mesh_uses(self.spec_values(), m) > 0 ==> self.meshes@.contains_key(m)
    }

    /// Every drawn object has a slot of its own, and what stands there is its
    /// instance data and its visibility.
    pub open spec fn published(&self, hidden: GroupMask) -> bool {
        &&& self.projection_slots@.len() == self.objects.spec_len()
        &&& self.cpu_visibility@.len() == self.cpu_instances@.len()
        &&& forall|i: int|
            0 <= i < self.projection_slots@.len() && #[trigger] self.projection_slots@[i]
                != NO_VG_SLOT ==> {
                let slot = self.projection_slots@[i] as int;
                &&& slot < self.cpu_instances@.len()
                &&& self.cpu_instances@[slot] == self.spec_values()[i].instance
                &&& self.cpu_visibility@[slot] == visibility_word(
                    self.spec_values()[i].groups,
                    hidden,
                )
            }
        &&& forall|i: int, j: int|
            0 <= i < j < self.projection_slots@.len() && #[trigger] self.projection_slots@[i]
                != NO_VG_SLOT ==> self.projection_slots@[i] != #[trigger] self.projection_slots@[j]
    }

    /// Unless a rebuild is due, the published layout shows the objects as they are.
    pub open spec fn wf(&self, hidden: GroupMask) -> bool {
        &&& self.meshes.wf()
        &&& self.objects.wf()
        &&& self.linked()
        &&& !self.dirty ==> self.published(hidden)
    }
}

/// The range with `index` in it.
pub open spec fn widened(range: Option<(usize, usize)>, index: usize) -> Option<(usize, usize)> {
    match range {
        Some((start, end)) => Some(
            (
                if start < index {
                    start
                } else {
                    index
                },
                if end > index + 1 {
                    end
                } else {
                    (index + 1) as usize
                },
            ),
        ),
        None => Some((index, (index + 1) as usize)),
    }
}

/// Widens an end-exclusive range so that `index` is in it.
pub fn include_dirty_instance(range: &mut Option<(usize, usize)>, index: usize)
    requires
        index < usize::MAX,
    ensures
        *final(range) == widened(*old(range), index),
{
    let next: (usize, usize) = match *range {
        Some((start, end)) => (
            if start < index {
                start
            } else {
                index
            },
            if end > index + 1 {
                end
            } else {
                index + 1
            },
        ),
        None => (index, index + 1),
    };
    *range = Some(next);
}

/// A widened range holds the new index and everything that it held before.
pub proof fn lemma_widened_holds(range: Option<(usize, usize)>, index: usize, k: int)
    requires
        index < usize::MAX,
    ensures
        widened(range, index) matches Some((start, end)) && start <= index < end && (
        range matches Some((from, to)) ==> from <= k < to ==> start <= k < end),
{
}

/// The object is drawn: its mesh is live and has meshlets.
pub open spec fn renderable(
    record: VirtualObjectRecord,
    meshes: Map<VirtualMeshId, VirtualMeshRecord>,
) -> bool {
    meshes.contains_key(record.virtual_mesh) && meshes[record.virtual_mesh].meshlet_count > 0
}

/// The drawn objects, in compact order.
pub open spec fn drawn_objects(
    objects: Seq<VirtualObjectRecord>,
    meshes: Map<VirtualMeshId, VirtualMeshRecord>,
) -> Seq<VirtualObjectRecord>
    decreases objects.len(),
{
    if objects.len() == 0 {
        Seq::empty()
    } else {
        let rest = drawn_objects(objects.drop_last(), meshes);
        if renderable(objects.last(), meshes) {
            rest.push(objects.last())
        } else {
            rest
        }
    }
}

/// The layout's slot of each object: drawn ones are numbered in order.
pub open spec fn layout_slots(
    objects: Seq<VirtualObjectRecord>,
    meshes: Map<VirtualMeshId, VirtualMeshRecord>,
) -> Seq<u32> {
    Seq::new(
        objects.len(),
        |i: int|
            if renderable(objects[i], meshes) {
                drawn_objects(objects.take(i), meshes).len() as u32
            } else {
                NO_VG_SLOT
            },
    )
}

proof fn lemma_drawn_bounded(
    objects: Seq<VirtualObjectRecord>,
    meshes: Map<VirtualMeshId, VirtualMeshRecord>,
)
    ensures
        drawn_objects(objects, meshes).len() <= objects.len(),
    decreases objects.len(),
{
    if objects.len() > 0 {
        lemma_drawn_bounded(objects.drop_last(), meshes);
    }
}

impl VirtualGeometry {
    /// Numbers the drawn objects and republishes instance data and visibility.
    pub(crate) fn rebuild(&mut self, hidden: GroupMask)
        requires
            old(self).meshes.wf(),
            old(self).objects.wf(),
            old(self).linked(),
            old(self).objects.spec_len() < u32::MAX,
        ensures
            final(self).wf(hidden),
            *final(self) == (VirtualGeometry {
                dirty: false,
                buffer_version: old(self).buffer_version.wrapping_add(1),
                instance_dirty_range: None,
                published_dirty_range: None,
                projection_slots: final(self).projection_slots,
                cpu_instances: final(self).cpu_instances,
                cpu_visibility: final(self).cpu_visibility,
                ..*old(self)
            }),
            final(self).projection_slots@ == layout_slots(
                old(self).spec_values(),
                old(self).meshes@,
            ),
            final(self).cpu_instances@ == drawn_objects(
                old(self).spec_values(),
                old(self).meshes@,
            ).map_values(|o: VirtualObjectRecord| o.instance),
            final(self).cpu_visibility@ == drawn_objects(
                old(self).spec_values(),
                old(self).meshes@,
            ).map_values(|o: VirtualObjectRecord| visibility_word(o.groups, hidden)),
    {
        let ghost values = self.spec_values();
        let ghost meshes = self.meshes@;
        let mut slots: Vec<u32> = Vec::new();
        let mut instances: Vec<GpuInstanceData> = Vec::new();
        let mut visibility: Vec<u32> = Vec::new();
        let mut i: usize = 0;
        while i < self.objects.value_by_slot.len()
            invariant
                0 <= i <= values.len() < u32::MAX,
                *self == *old(self),
                values == self.spec_values(),
                meshes == self.meshes@,
                self.meshes.wf(),
                slots@ =~= layout_slots(values, meshes).take(i as int),
                instances@ =~= drawn_objects(values.take(i as int), meshes).map_values(
                    |o: VirtualObjectRecord| o.instance,
                ),
                visibility@ =~= drawn_objects(values.take(i as int), meshes).map_values(
                    |o: VirtualObjectRecord| visibility_word(o.groups, hidden),
                ),
                instances@.len() <= i,
                forall|j: int|
                    0 <= j < i && #[trigger] slots@[j] != NO_VG_SLOT ==> {
                        &&& slots@[j] < instances@.len()
                        &&& instances@[slots@[j] as int] == values[j].instance
                        &&& visibility@[slots@[j] as int] == visibility_word(
                            values[j].groups,
                            hidden,
                        )
                    },
                forall|j: int, k: int|
                    0 <= j < k < i && #[trigger] slots@[j] != NO_VG_SLOT ==> slots@[j]
                        != #[trigger] slots@[k],
            decreases values.len() - i,
        {
            let record: VirtualObjectRecord = self.objects.value_by_slot[i];
            proof {
                assert(values.take(i + 1).drop_last() =~= values.take(i as int));
                assert(values.take(i + 1).last() == record);
                lemma_drawn_bounded(values.take(i as int), meshes);
            }
            let shown: bool = match self.meshes.get(record.virtual_mesh) {
                Some(mesh) => mesh.meshlet_count > 0,
                None => false,
            };
            if shown {
                slots.push(instances.len() as u32);
                instances.push(record.instance);
                let word: u32 = if object_is_visible(record.groups, hidden) {
                    1
                } else {
                    0
                };
                visibility.push(word);
            } else {
                slots.push(NO_VG_SLOT);
            }
            i = i + 1;
        }
        proof {
            assert(values.take(i as int) =~= values);
            assert(slots@ =~= layout_slots(values, meshes));
        }
        self.projection_slots = slots;
        self.cpu_instances = instances;
        self.cpu_visibility = visibility;
        self.buffer_version = self.buffer_version.wrapping_add(1);
        self.instance_dirty_range = None;
        self.published_dirty_range = None;
        self.dirty = false;
        proof {
            assert forall|a: int, b: int|
                0 <= a < b < self.projection_slots@.len() && #[trigger] self.projection_slots@[a]
                    != NO_VG_SLOT implies self.projection_slots@[a]
                != #[trigger] self.projection_slots@[b] by {}
        }
    }

    /// Publishes what changed since the last flush: a new layout if one is due,
    /// otherwise the instances that moved.
    pub(crate) fn publish(&mut self, hidden: GroupMask)
        requires
            old(self).wf(hidden),
            old(self).objects.spec_len() < u32::MAX,
        ensures
            final(self).wf(hidden),
            final(self).objects == old(self).objects,
            final(self).meshes == old(self).meshes,
            old(self).vg_flushed(final(self), hidden),
    {
        if self.dirty {
            self.rebuild(hidden);
        } else {
            match self.instance_dirty_range {
                Some(range) => {
                    self.instance_dirty_range = None;
                    self.published_dirty_range = Some(range);
                    self.instance_version = self.instance_version.wrapping_add(1);
                    assert(self.published(hidden) == old(self).published(hidden));
                },
                None => {},
            }
        }
    }

    /// What publishing comes to.
    pub open spec fn vg_flushed(&self, after: &VirtualGeometry, hidden: GroupMask) -> bool {
        if self.dirty {
            &&& *after == (VirtualGeometry {
                dirty: false,
                buffer_version: self.buffer_version.wrapping_add(1),
                instance_dirty_range: None,
                published_dirty_range: None,
                projection_slots: after.projection_slots,
                cpu_instances: after.cpu_instances,
                cpu_visibility: after.cpu_visibility,
                ..*self
            })
            &&& after.projection_slots@ == layout_slots(self.spec_values(), self.meshes@)
            &&& after.cpu_instances@ == drawn_objects(
                self.spec_values(),
                self.meshes@,
            ).map_values(|o: VirtualObjectRecord| o.instance)
            &&& after.cpu_visibility@ == drawn_objects(
                self.spec_values(),
                self.meshes@,
            ).map_values(|o: VirtualObjectRecord| visibility_word(o.groups, hidden))
        } else {
            match self.instance_dirty_range {
                Some(range) => *after == (VirtualGeometry {
                    instance_dirty_range: None,
                    published_dirty_range: Some(range),
                    instance_version: self.instance_version.wrapping_add(1),
                    ..*self
                }),
                None => *after == *self,
            }
        }
    }

    /// Brings the published visibility in line with newly hidden groups. The cull
    /// signature advances only if some object's visibility changed; nothing is done
    /// while a rebuild is due.
    pub(crate) fn refresh_group_visibility(&mut self, before_hidden: GroupMask, hidden: GroupMask)
        requires
            old(self).wf(before_hidden),
        ensures
            final(self).wf(hidden),
            old(self).visibility_refreshed(final(self), hidden),
    {
        if self.dirty {
            return;
        }
        let ghost before = *self;
        let mut changed: bool = false;
        let ghost mut at: int = 0;
        let mut i: usize = 0;
        while i < self.projection_slots.len()
            invariant
                0 <= i <= self.projection_slots@.len(),
                before.published(before_hidden),
                !before.dirty,
                *self == (VirtualGeometry { cpu_visibility: self.cpu_visibility, ..before }),
                self.cpu_visibility@.len() == before.cpu_visibility@.len(),
                before.objects.wf(),
                forall|j: int|
                    0 <= j < self.projection_slots@.len() && #[trigger] self.projection_slots@[j]
                        != NO_VG_SLOT ==> self.cpu_visibility@[self.projection_slots@[j] as int]
                        == if j < i {
                        visibility_word(self.spec_values()[j].groups, hidden)
                    } else {
                        before.cpu_visibility@[self.projection_slots@[j] as int]
                    },
                !changed ==> self.cpu_visibility@ == before.cpu_visibility@,
                changed ==> 0 <= at < i && self.projection_slots@[at] != NO_VG_SLOT
                    && before.cpu_visibility@[self.projection_slots@[at] as int]
                    != visibility_word(self.spec_values()[at].groups, hidden),
                forall|k: int|
                    0 <= k < self.cpu_visibility@.len() && !before.projection_slots@.contains(
                        k as u32,
                    ) ==> #[trigger] self.cpu_visibility@[k] == before.cpu_visibility@[k],
            decreases self.projection_slots@.len() - i,
        {
            let slot: u32 = self.projection_slots[i];
            if slot != NO_VG_SLOT {
                let record: VirtualObjectRecord = self.objects.value_by_slot[i];
                let word: u32 = if object_is_visible(record.groups, hidden) {
                    1
                } else {
                    0
                };
                assert(self.projection_slots@[i as int] != NO_VG_SLOT);
                assert(before.projection_slots@.contains(slot)) by {
                    assert(before.projection_slots@[i as int] == slot);
                }
                if self.cpu_visibility[slot as usize] != word {
                    self.cpu_visibility.set(slot as usize, word);
                    changed = true;
                    proof {
                        at = i as int;
                    }
                }
            }
            i = i + 1;
        }
        if changed {
            self.cull_signature_version = self.cull_signature_version.wrapping_add(1);
            assert(self.cpu_visibility@[self.projection_slots@[at] as int]
                != before.cpu_visibility@[self.projection_slots@[at] as int]);
        }
        assert(self.published(hidden)) by {
            assert forall|a: int, b: int|
                0 <= a < b < self.projection_slots@.len() && #[trigger] self.projection_slots@[a]
                    != NO_VG_SLOT implies self.projection_slots@[a]
                != #[trigger] self.projection_slots@[b] by {}
        }
    }

    /// What refreshing the visibility comes to.
    pub open spec fn visibility_refreshed(&self, after: &VirtualGeometry, hidden: GroupMask) -> bool {
        if self.dirty {
            *after == *self
        } else {
            &&& *after == (VirtualGeometry {
                cpu_visibility: after.cpu_visibility,
                cull_signature_version: if after.cpu_visibility@ == self.cpu_visibility@ {
                    self.cull_signature_version
                } else {
                    self.cull_signature_version.wrapping_add(1)
                },
                ..*self
            })
            &&& after.published(hidden)
            &&& forall|slot: int|
                0 <= slot < self.cpu_visibility@.len() && !self.projection_slots@.contains(
                    slot as u32,
                ) ==> #[trigger] after.cpu_visibility@[slot] == self.cpu_visibility@[slot]
        }
    }
}

} // verus!
