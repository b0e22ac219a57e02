//! Groups in the scene: membership, visibility and joint moves.
use vstd::prelude::*;

use crate::draws::visibility_word;
use crate::errors::{invalid, Result, SceneError};
use crate::float_bits::F32;
use crate::groups::{object_is_visible, GroupId, GroupMask};
use crate::handles::{Handle, ObjectId, VirtualObjectId};
use crate::objects::{ObjectPose, ObjectRecord, Objects};
use crate::references::lemma_uses_update;
use crate::rows::Movability;
use crate::scene::Scene;
use crate::virtual_geometry::{
    include_dirty_instance, widened, GpuInstanceData, VirtualGeometry, VirtualObjectRecord,
    NO_VG_SLOT,
};

verus! {

/// Where a joint move takes one object: the moved model with its normal matrix, and
/// the moved centre of the bounding sphere.
#[derive(Clone, Copy, Debug)]
pub struct GroupMove {
    pub model: [F32; 16],
    pub normal_mat: [F32; 12],
    pub center: [F32; 3],
}

/// An object where a joint move takes it; the radius stays.
pub open spec fn carried(record: ObjectRecord, to: GroupMove) -> ObjectRecord {
    ObjectRecord {
        pose: ObjectPose {
            model: to.model,
            sphere: [to.center[0], to.center[1], to.center[2], record.pose.sphere[3]],
            flags: record.pose.flags,
        },
        normal_mat: to.normal_mat,
        ..record
    }
}

/// A virtual object where a joint move takes it; the radius stays.
pub open spec fn carried_virtual(record: VirtualObjectRecord, to: GroupMove) -> VirtualObjectRecord {
    VirtualObjectRecord {
        instance: GpuInstanceData {
            model: to.model,
            normal_mat: to.normal_mat,
            bounds: [to.center[0], to.center[1], to.center[2], record.instance.bounds[3]],
            ..record.instance
        },
        ..record
    }
}

/// Objects after a joint move of a group.
pub open spec fn group_carried(
    values: Seq<ObjectRecord>,
    group: GroupId,
    moves: Seq<GroupMove>,
) -> Seq<ObjectRecord> {
    Seq::new(
        values.len(),
        |i: int|
            if values[i].groups.has(group) {
                carried(values[i], moves[i])
            } else {
                values[i]
            },
    )
}

/// Virtual objects after a joint move of a group.
pub open spec fn group_carried_virtual(
    values: Seq<VirtualObjectRecord>,
    group: GroupId,
    moves: Seq<GroupMove>,
) -> Seq<VirtualObjectRecord> {
    Seq::new(
        values.len(),
        |i: int|
            if values[i].groups.has(group) {
                carried_virtual(values[i], moves[i])
            } else {
                values[i]
            },
    )
}

/// Some member of the group can move, or some cannot.
pub open spec fn has_member(values: Seq<ObjectRecord>, group: GroupId, movable: bool) -> bool {
    exists|i: int|
        0 <= i < values.len() && (#[trigger] values[i]).groups.has(group) && (values[i].movability
            == Movability::Movable) == movable
}

/// Some virtual member of the group can move, or some cannot.
pub open spec fn has_virtual_member(
    values: Seq<VirtualObjectRecord>,
    group: GroupId,
    movable: bool,
) -> bool {
    exists|i: int|
        0 <= i < values.len() && (#[trigger] values[i]).groups.has(group) && (values[i].movability
            == Movability::Movable) == movable
}

/// The dirty range with the slots of all drawn members in it.
pub open spec fn range_with_members(
    range: Option<(usize, usize)>,
    values: Seq<VirtualObjectRecord>,
    slots: Seq<u32>,
    group: GroupId,
    n: int,
) -> Option<(usize, usize)>
    decreases n,
{
    if n <= 0 {
        range
    } else {
        let rest = range_with_members(range, values, slots, group, n - 1);
        if values[n - 1].groups.has(group) && slots[n - 1] != NO_VG_SLOT {
            widened(rest, slots[n - 1] as usize)
        } else {
            rest
        }
    }
}

impl Scene {
    /// `after` is `self` with other groups for a live object; its visibility is
    /// published at once unless a rebuild is due.
    pub open spec fn regrouped(&self, after: &Scene, id: ObjectId, groups: GroupMask) -> bool {
        let before = self.objects;
        let now = after.objects;
        let i = before.records.place(id);
        &&& *after == (Scene { objects: now, ..*self })
        &&& now.records@ == before.records@.insert(
            id,
            ObjectRecord { groups, ..before.records@[id] },
        )
        &&& now.records.id_by_slot == before.records.id_by_slot
        &&& now == (Objects { records: now.records, lists: now.lists, ..before })
        &&& now.lists == (crate::draws::DrawLists {
            visibility: now.lists.visibility,
            ..before.lists
        })
        &&& now.lists.visibility@ == if before.dirty {
            before.lists.visibility@
        } else {
            before.lists.visibility@.update(
                before.slot_at(i) as int,
                visibility_word(groups, self.hidden_groups),
            )
        }
    }

    fn regroup(&mut self, id: ObjectId, groups: GroupMask)
        requires
            old(self).wf(),
            old(self).objects.records@.contains_key(id),
        ensures
            final(self).wf(),
            old(self).regrouped(final(self), id, groups),
    {
        let record: ObjectRecord = match self.objects.records.get(id) {
            Some(record) => *record,
            None => {
                assert(false);
                return ;
            },
        };
        let ghost before = *self;
        let ghost i = self.objects.records.place(id);
        let ghost values = self.objects.spec_values();
        proof {
            self.objects.records.lemma_contains(id);
        }
        let next = ObjectRecord { groups, ..record };
        self.objects.records.set(id, next);
        if !self.objects.dirty {
            assert(before.objects.records.id_by_slot@[i].0.index
                < self.objects.projection_slots@.len());
            let slot: u32 = self.objects.projection_slots[id.slot() as usize];
            let word: u32 = if object_is_visible(groups, self.hidden_groups) {
                1
            } else {
                0
            };
            self.objects.lists.visibility.set(slot as usize, word);
        }
        proof {
            lemma_uses_update(values, i, next);
            assert forall|j: int| 0 <= j < self.objects.spec_values().len() implies (
            #[trigger] self.objects.spec_values()[j]).rows_named(self.materials@) by {
                assert(values[j] == values[j]);
            }
            before.lemma_object_links(*self);
            self.sections.lemma_kept(
                before.objects.records@,
                before.meshes@,
                self.objects.records@,
                self.meshes@,
            );
            if !before.objects.dirty {
                assert(self.objects.published(self.hidden_groups)) by {
                    assert forall|j: int| 0 <= j < self.objects.records.spec_len() implies {
                        &&& (#[trigger] self.objects.records.id_by_slot@[j]).0.index
                            < self.objects.projection_slots@.len()
                        &&& self.objects.slot_at(j) < self.objects.records.spec_len()
                        &&& self.objects.lists.source_indices@[self.objects.slot_at(j) as int]
                            == self.objects.spec_values()[j].gpu_row
                        &&& self.objects.lists.visibility@[self.objects.slot_at(j) as int]
                            == visibility_word(
                            self.objects.spec_values()[j].groups,
                            self.hidden_groups,
                        )
                    } by {
                        assert(before.objects.records.id_by_slot@[j].0.index
                            < before.objects.projection_slots@.len());
                        assert(before.objects.slot_at(j) == self.objects.slot_at(j));
                        if j != i {
                            assert(before.objects.slot_at(i) != before.objects.slot_at(j));
                        }
                    }
                    assert forall|a: int, b: int|
                        0 <= a < self.objects.records.spec_len() && 0 <= b
                            < self.objects.records.spec_len() && a
                            != b implies #[trigger] self.objects.slot_at(a)
                        != #[trigger] self.objects.slot_at(b) by {
                        assert(before.objects.slot_at(a) != before.objects.slot_at(b));
                    }
                }
            }
        }
    }

    /// Replaces an object's groups.
    pub fn set_object_groups(&mut self, id: ObjectId, mask: GroupMask) -> (result: Result<()>)
        requires
            old(self).wf(),
        ensures
            final(self).wf(),
            if old(self).objects.records@.contains_key(id) {
                &&& result == Ok::<(), SceneError>(())
                &&& old(self).regrouped(final(self), id, mask)
            } else {
                &&& result == Err::<(), _>(SceneError::InvalidHandle { resource: "object" })
                &&& *final(self) == *old(self)
            },
    {
        if !self.objects.records.is_live(id) {
            return Err(invalid("object"));
        }
        self.regroup(id, mask);
        Ok(())
    }

    /// `after` is `self` with an object in one group more.
    pub open spec fn group_joined(
        &self,
        after: &Scene,
        id: ObjectId,
        group: GroupId,
        result: Result<()>,
    ) -> bool {
        if self.objects.records@.contains_key(id) {
            let mask = after.objects.records@[id].groups;
            &&& result == Ok::<(), SceneError>(())
            &&& self.regrouped(after, id, mask)
            &&& forall|other: GroupId|
                other.valid() ==> (#[trigger] mask.has(other)
                    <==> self.objects.records@[id].groups.has(other) || other == group)
        } else {
            &&& result == Err::<(), _>(SceneError::InvalidHandle { resource: "object" })
            &&& *after == *self
        }
    }

    /// `after` is `self` with an object in one group less.
    pub open spec fn group_left(
        &self,
        after: &Scene,
        id: ObjectId,
        group: GroupId,
        result: Result<()>,
    ) -> bool {
        if self.objects.records@.contains_key(id) {
            let mask = after.objects.records@[id].groups;
            &&& result == Ok::<(), SceneError>(())
            &&& self.regrouped(after, id, mask)
            &&& forall|other: GroupId|
                other.valid() ==> (#[trigger] mask.has(other)
                    <==> self.objects.records@[id].groups.has(other) && other != group)
        } else {
            &&& result == Err::<(), _>(SceneError::InvalidHandle { resource: "object" })
            &&& *after == *self
        }
    }

    /// Puts an object into a group.
    pub fn add_object_to_group(&mut self, id: ObjectId, group: GroupId) -> (result: Result<()>)
        requires
            old(self).wf(),
            group.valid(),
        ensures
            final(self).wf(),
            old(self).group_joined(final(self), id, group, result),
    {
        let mask: GroupMask = match self.objects.records.get(id) {
            Some(record) => record.groups.with(group),
            None => {
                return Err(invalid("object"));
            },
        };
        self.regroup(id, mask);
        Ok(())
    }

    /// Takes an object out of a group.
    pub fn remove_object_from_group(&mut self, id: ObjectId, group: GroupId) -> (result: Result<()>)
        requires
            old(self).wf(),
            group.valid(),
        ensures
            final(self).wf(),
            old(self).group_left(final(self), id, group, result),
    {
        let mask: GroupMask = match self.objects.records.get(id) {
            Some(record) => record.groups.without(group),
            None => {
                return Err(invalid("object"));
            },
        };
        self.regroup(id, mask);
        Ok(())
    }

    pub fn object_groups(&self, id: ObjectId) -> (result: Result<GroupMask>)
        requires
            self.wf(),
        ensures
            result == if self.objects.records@.contains_key(id) {
                Ok::<_, SceneError>(self.objects.records@[id].groups)
            } else {
                Err(SceneError::InvalidHandle { resource: "object" })
            },
    {
        match self.objects.records.get(id) {
            Some(record) => Ok(record.groups),
            None => Err(invalid("object")),
        }
    }

    /// `after` is `self` with other groups hidden; published visibilities follow.
    /// Objects and virtual objects whose lists are due to be rebuilt keep what was
    /// published until then.
    pub open spec fn groups_hidden(&self, after: &Scene, hidden: GroupMask) -> bool {
        &&& *after == (Scene {
            hidden_groups: hidden,
            objects: after.objects,
            virtual_geometry: after.virtual_geometry,
            ..*self
        })
        &&& after.objects == (Objects { lists: after.objects.lists, ..self.objects })
        &&& after.objects.lists == (crate::draws::DrawLists {
            visibility: after.objects.lists.visibility,
            ..self.objects.lists
        })
        &&& if self.objects.dirty {
            after.objects.lists.visibility@ == self.objects.lists.visibility@
        } else {
            after.objects.published(hidden)
        }
        &&& self.virtual_geometry.visibility_refreshed(&after.virtual_geometry, hidden)
    }

    /// Hides exactly the groups in `hidden` and publishes what that changes.
    fn hide_exactly(&mut self, hidden: GroupMask)
        requires
            old(self).wf(),
        ensures
            final(self).wf(),
            old(self).groups_hidden(final(self), hidden),
    {
        let ghost before = *self;
        let before_hidden: GroupMask = self.hidden_groups;
        self.hidden_groups = hidden;
        if !self.objects.dirty {
            let mut i: usize = 0;
            while i < self.objects.records.id_by_slot.len()
                invariant
                    0 <= i <= self.objects.records.spec_len(),
                    before.objects.published(before.hidden_groups),
                    before.objects.records.wf(),
                    self.hidden_groups == hidden,
                    *self == (Scene { hidden_groups: hidden, objects: self.objects, ..before }),
                    self.objects == (Objects { lists: self.objects.lists, ..before.objects }),
                    self.objects.lists == (crate::draws::DrawLists {
                        visibility: self.objects.lists.visibility,
                        ..before.objects.lists
                    }),
                    self.objects.lists.visibility@.len() == before.objects.records.spec_len(),
                    forall|j: int|
                        0 <= j < i ==> self.objects.lists.visibility@[#[trigger] before.objects.slot_at(
                            j,
                        ) as int] == visibility_word(
                            before.objects.spec_values()[j].groups,
                            hidden,
                        ),
                decreases self.objects.records.spec_len() - i,
            {
                let index: usize = self.objects.records.id_by_slot[i].slot() as usize;
                assert(before.objects.records.id_by_slot@[i as int].0.index
                    < before.objects.projection_slots@.len());
                let slot: u32 = self.objects.projection_slots[index];
                assert(slot == before.objects.slot_at(i as int));
                let word: u32 = if object_is_visible(
                    self.objects.records.value_by_slot[i].groups,
                    hidden,
                ) {
                    1
                } else {
                    0
                };
                proof {
                    assert forall|j: int| 0 <= j < i implies #[trigger] before.objects.slot_at(j)
                        != slot by {
                        assert(before.objects.slot_at(j) != before.objects.slot_at(i as int));
                    }
                }
                self.objects.lists.visibility.set(slot as usize, word);
                i = i + 1;
            }
            assert(self.objects.published(hidden)) by {
                assert forall|j: int| 0 <= j < self.objects.records.spec_len() implies {
                    &&& (#[trigger] self.objects.records.id_by_slot@[j]).0.index
                        < self.objects.projection_slots@.len()
                    &&& self.objects.slot_at(j) < self.objects.records.spec_len()
                    &&& self.objects.lists.source_indices@[self.objects.slot_at(j) as int]
                        == self.objects.spec_values()[j].gpu_row
                    &&& self.objects.lists.visibility@[self.objects.slot_at(j) as int]
                        == visibility_word(self.objects.spec_values()[j].groups, hidden)
                } by {
                    assert(before.objects.records.id_by_slot@[j].0.index
                        < before.objects.projection_slots@.len());
                    assert(before.objects.slot_at(j) == self.objects.slot_at(j));
                }
                assert forall|a: int, b: int|
                    0 <= a < self.objects.records.spec_len() && 0 <= b
                        < self.objects.records.spec_len() && a
                        != b implies #[trigger] self.objects.slot_at(a)
                    != #[trigger] self.objects.slot_at(b) by {
                    assert(before.objects.slot_at(a) != before.objects.slot_at(b));
                }
            }
        }
        self.virtual_geometry.refresh_group_visibility(before_hidden, hidden);
    }

    /// `after` is `self` with the group hidden.
    pub open spec fn group_hidden_by(&self, after: &Scene, group: GroupId) -> bool {
        if self.hidden_groups.has(group) {
            *after == *self
        } else {
            let hidden = after.hidden_groups;
            &&& self.groups_hidden(after, hidden)
            &&& forall|other: GroupId|
                other.valid() ==> (#[trigger] hidden.has(other) <==> self.hidden_groups.has(other)
                    || other == group)
        }
    }

    /// `after` is `self` with the group shown.
    pub open spec fn group_shown_by(&self, after: &Scene, group: GroupId) -> bool {
        if !self.hidden_groups.has(group) {
            *after == *self
        } else {
            let hidden = after.hidden_groups;
            &&& self.groups_hidden(after, hidden)
            &&& forall|other: GroupId|
                other.valid() ==> (#[trigger] hidden.has(other) <==> self.hidden_groups.has(other)
                    && other != group)
        }
    }

    /// Hides a group and with it every object that belongs to it.
    pub fn hide_group(&mut self, group: GroupId)
        requires
            old(self).wf(),
            group.valid(),
        ensures
            final(self).wf(),
            old(self).group_hidden_by(final(self), group),
    {
        if self.hidden_groups.contains(group) {
            return;
        }
        let hidden: GroupMask = self.hidden_groups.with(group);
        self.hide_exactly(hidden);
    }

    /// Shows a group. Objects that also belong to a hidden group stay hidden.
    pub fn show_group(&mut self, group: GroupId)
        requires
            old(self).wf(),
            group.valid(),
        ensures
            final(self).wf(),
            old(self).group_shown_by(final(self), group),
    {
        if !self.hidden_groups.contains(group) {
            return;
        }
        let hidden: GroupMask = self.hidden_groups.without(group);
        self.hide_exactly(hidden);
    }

    pub fn is_group_hidden(&self, group: GroupId) -> (hidden: bool)
        requires
            group.valid(),
        ensures
            hidden == self.hidden_groups.has(group),
    {
        self.hidden_groups.contains(group)
    }

    /// `after` is `self` with the groups of `mask` shown or hidden.
    pub open spec fn visibility_set(&self, after: &Scene, mask: GroupMask, visible: bool) -> bool {
        &&& forall|group: GroupId|
            group.valid() ==> (#[trigger] after.hidden_groups.has(group) <==> if visible {
                self.hidden_groups.has(group) && !mask.has(group)
            } else {
                self.hidden_groups.has(group) || mask.has(group)
            })
        &&& if after.hidden_groups == self.hidden_groups {
            *after == *self
        } else {
            self.groups_hidden(after, after.hidden_groups)
        }
    }

    /// Shows or hides all groups in `mask`; other groups keep their state. Nothing
    /// is done if that changes no group.
    pub fn set_group_visibility(&mut self, mask: GroupMask, visible: bool)
        requires
            old(self).wf(),
        ensures
            final(self).wf(),
            old(self).visibility_set(final(self), mask, visible),
    {
        let hidden: GroupMask = if visible {
            self.hidden_groups.minus(mask)
        } else {
            self.hidden_groups.union(mask)
        };
        if hidden.0 == self.hidden_groups.0 {
            return;
        }
        self.hide_exactly(hidden);
    }

    /// Shows every group; what is published follows at the next rebuild or at once.
    pub(crate) fn clear_group_visibility(&mut self)
        requires
            old(self).wf(),
        ensures
            final(self).wf(),
            old(self).groups_hidden(final(self), GroupMask(0)),
    {
        self.hide_exactly(GroupMask::none());
    }

    /// What a joint move of a group comes to.
    pub open spec fn group_moved(
        &self,
        after: &Scene,
        group: GroupId,
        moves: Seq<GroupMove>,
        virtual_moves: Seq<GroupMove>,
    ) -> bool {
        let values = self.objects.spec_values();
        let virtuals = self.virtual_geometry.spec_values();
        let movable = has_member(values, group, true) || has_virtual_member(virtuals, group, true);
        let fixed = has_member(values, group, false) || has_virtual_member(virtuals, group, false);
        let before = self.virtual_geometry;
        let now = after.virtual_geometry;
        &&& *after == (Scene {
            objects: after.objects,
            virtual_geometry: now,
            bake_invalidated: self.bake_invalidated || fixed,
            ..*self
        })
        &&& after.objects == (Objects {
            records: after.objects.records,
            static_dirty: self.objects.static_dirty || fixed,
            movable_generation: if movable {
                self.objects.movable_generation.wrapping_add(1)
            } else {
                self.objects.movable_generation
            },
            ..self.objects
        })
        &&& after.objects.records.id_by_slot == self.objects.records.id_by_slot
        &&& after.objects.spec_values() == group_carried(values, group, moves)
        &&& now == (VirtualGeometry {
            objects: now.objects,
            cpu_instances: now.cpu_instances,
            instance_dirty_range: if before.dirty {
                before.instance_dirty_range
            } else {
                range_with_members(
                    before.instance_dirty_range,
                    virtuals,
                    before.projection_slots@,
                    group,
                    virtuals.len() as int,
                )
            },
            ..before
        })
        &&& now.objects.id_by_slot == before.objects.id_by_slot
        &&& now.spec_values() == group_carried_virtual(virtuals, group, virtual_moves)
        &&& before.dirty ==> now.cpu_instances@ == before.cpu_instances@
        &&& now.cpu_instances@.len() == before.cpu_instances@.len()
    }

    /// Moves every object of a group jointly, those that cannot move included.
    /// `moves` and `virtual_moves` hold for each object, in compact order, where the
    /// move takes it; those of objects outside the group are not looked at.
    #[verifier::spinoff_prover]
    #[verifier::rlimit(40)]
    pub fn move_group(
        &mut self,
        group: GroupId,
        moves: &Vec<GroupMove>,
        virtual_moves: &Vec<GroupMove>,
    )
        requires
            old(self).wf(),
            group.valid(),
            moves@.len() == old(self).objects.records.spec_len(),
            virtual_moves@.len() == old(self).virtual_geometry.objects.spec_len(),
            old(self).virtual_geometry.cpu_instances@.len() < usize::MAX,
        ensures
            final(self).wf(),
            old(self).group_moved(final(self), group, moves@, virtual_moves@),
    {
        let ghost before = *self;
        let ghost values = self.objects.spec_values();
        let ghost virtuals = self.virtual_geometry.spec_values();
        let mut moved_movable: bool = false;
        let mut moved_static: bool = false;
        let mut i: usize = 0;
        while i < self.objects.records.id_by_slot.len()
            invariant
                0 <= i <= values.len(),
                self.wf(),
                before.wf(),
                group.valid(),
                moves@.len() == values.len(),
                values == before.objects.spec_values(),
                *self == (Scene { objects: self.objects, ..before }),
                self.objects == (Objects { records: self.objects.records, ..before.objects }),
                self.objects.records.id_by_slot == before.objects.records.id_by_slot,
                self.objects.spec_values().len() == values.len(),
                forall|j: int|
                    0 <= j < values.len() ==> #[trigger] self.objects.spec_values()[j] == if j
                        < i {
                        group_carried(values, group, moves@)[j]
                    } else {
                        values[j]
                    },
                moved_movable == has_member(values.take(i as int), group, true),
                moved_static == has_member(values.take(i as int), group, false),
            decreases values.len() - i,
        {
            let id: ObjectId = self.objects.records.id_by_slot[i];
            let record: ObjectRecord = self.objects.records.value_by_slot[i];
            proof {
                self.objects.records.lemma_dense(i as int);
                assert(record == values[i as int]);
                lemma_has_member_step(values, group, i as int, true);
                lemma_has_member_step(values, group, i as int, false);
            }
            if record.groups.contains(group) {
                let to: GroupMove = moves[i];
                let sphere: [F32; 4] = [
                    to.center[0],
                    to.center[1],
                    to.center[2],
                    record.pose.sphere[3],
                ];
                proof {
                    assert(sphere@ =~= carried(record, to).pose.sphere@);
                    assert(sphere =~= carried(record, to).pose.sphere);
                }
                let next = ObjectRecord {
                    pose: ObjectPose { model: to.model, sphere, flags: record.pose.flags },
                    normal_mat: to.normal_mat,
                    ..record
                };
                let generation: u64 = self.objects.movable_generation;
                self.edit_object(id, next, generation);
                if record.movability.can_move() {
                    moved_movable = true;
                } else {
                    moved_static = true;
                }
            }
            i = i + 1;
        }
        proof {
            assert(values.take(i as int) =~= values);
            assert(self.objects.spec_values() =~= group_carried(values, group, moves@));
            assert(virtuals.take(0) =~= Seq::<VirtualObjectRecord>::empty());
        }
        let ghost classic = *self;
        let ghost classic_movable = moved_movable;
        let ghost classic_static = moved_static;
        let mut k: usize = 0;
        while k < self.virtual_geometry.objects.id_by_slot.len()
            invariant
                0 <= k <= virtuals.len(),
                self.wf(),
                classic.wf(),
                group.valid(),
                virtual_moves@.len() == virtuals.len(),
                virtuals == classic.virtual_geometry.spec_values(),
                *self == (Scene { virtual_geometry: self.virtual_geometry, ..classic }),
                self.virtual_geometry.cpu_instances@.len() < usize::MAX,
                self.virtual_geometry.cpu_instances@.len()
                    == classic.virtual_geometry.cpu_instances@.len(),
                classic.virtual_geometry.dirty ==> self.virtual_geometry.cpu_instances@
                    == classic.virtual_geometry.cpu_instances@,
                self.virtual_geometry == (VirtualGeometry {
                    objects: self.virtual_geometry.objects,
                    cpu_instances: self.virtual_geometry.cpu_instances,
                    instance_dirty_range: if classic.virtual_geometry.dirty {
                        classic.virtual_geometry.instance_dirty_range
                    } else {
                        range_with_members(
                            classic.virtual_geometry.instance_dirty_range,
                            virtuals,
                            classic.virtual_geometry.projection_slots@,
                            group,
                            k as int,
                        )
                    },
                    ..classic.virtual_geometry
                }),
                self.virtual_geometry.objects.id_by_slot
                    == classic.virtual_geometry.objects.id_by_slot,
                self.virtual_geometry.spec_values().len() == virtuals.len(),
                forall|j: int|
                    0 <= j < virtuals.len() ==> #[trigger] self.virtual_geometry.spec_values()[j]
                        == if j < k {
                        group_carried_virtual(virtuals, group, virtual_moves@)[j]
                    } else {
                        virtuals[j]
                    },
                moved_movable == (classic_movable || has_virtual_member(
                    virtuals.take(k as int),
                    group,
                    true,
                )),
                moved_static == (classic_static || has_virtual_member(
                    virtuals.take(k as int),
                    group,
                    false,
                )),
            decreases virtuals.len() - k,
        {
            let id: VirtualObjectId = self.virtual_geometry.objects.id_by_slot[k];
            let record: VirtualObjectRecord = self.virtual_geometry.objects.value_by_slot[k];
            let ghost prior = *self;
            proof {
                self.virtual_geometry.objects.lemma_dense(k as int);
                assert(record == virtuals[k as int]);
                lemma_has_virtual_member_step(virtuals, group, k as int, true);
                lemma_has_virtual_member_step(virtuals, group, k as int, false);
            }
            if record.groups.contains(group) {
                let to: GroupMove = virtual_moves[k];
                let bounds: [F32; 4] = [
                    to.center[0],
                    to.center[1],
                    to.center[2],
                    record.instance.bounds[3],
                ];
                proof {
                    assert(bounds@ =~= carried_virtual(record, to).instance.bounds@);
                    assert(bounds =~= carried_virtual(record, to).instance.bounds);
                }
                let next = VirtualObjectRecord {
                    instance: GpuInstanceData {
                        model: to.model,
                        normal_mat: to.normal_mat,
                        bounds,
                        ..record.instance
                    },
                    ..record
                };
                self.virtual_geometry.objects.set(id, next);
                if !self.virtual_geometry.dirty {
                    let slot: u32 = self.virtual_geometry.projection_slots[k];
                    if slot != NO_VG_SLOT {
                        let index: usize = slot as usize;
                        self.virtual_geometry.cpu_instances.set(index, next.instance);
                        include_dirty_instance(
                            &mut self.virtual_geometry.instance_dirty_range,
                            index,
                        );
                    }
                }
                if record.movability.can_move() {
                    moved_movable = true;
                } else {
                    moved_static = true;
                }
                proof {
                    prior.lemma_virtual_edit(*self, id, next);
                }
            }
            k = k + 1;
        }
        proof {
            assert(virtuals.take(k as int) =~= virtuals);
            assert(self.virtual_geometry.spec_values() =~= group_carried_virtual(
                virtuals,
                group,
                virtual_moves@,
            ));
        }
        let ghost carried_all = *self;
        if moved_movable {
            self.objects.movable_generation = self.objects.movable_generation.wrapping_add(1);
        }
        if moved_static {
            self.objects.static_dirty = true;
            self.bake_invalidated = true;
        }
        assert(self.objects.published(self.hidden_groups) == carried_all.objects.published(
            self.hidden_groups,
        ));
    }
}

proof fn lemma_has_member_step(values: Seq<ObjectRecord>, group: GroupId, i: int, movable: bool)
    requires
        0 <= i < values.len(),
    ensures
        has_member(values.take(i + 1), group, movable) == (has_member(
            values.take(i),
            group,
            movable,
        ) || (values[i].groups.has(group) && (values[i].movability == Movability::Movable)
            == movable)),
{
    let now = values.take(i + 1);
    let before = values.take(i);
    if has_member(before, group, movable) {
        let j = choose|j: int|
            0 <= j < before.len() && (#[trigger] before[j]).groups.has(group) && (
            before[j].movability == Movability::Movable) == movable;
        assert(now[j] == before[j]);
    }
    if values[i].groups.has(group) && (values[i].movability == Movability::Movable) == movable {
        assert(now[i] == values[i]);
    }
    if has_member(now, group, movable) {
        let j = choose|j: int|
            0 <= j < now.len() && (#[trigger] now[j]).groups.has(group) && (now[j].movability
                == Movability::Movable) == movable;
        if j < i {
            assert(before[j] == now[j]);
        }
    }
}

proof fn lemma_has_virtual_member_step(
    values: Seq<VirtualObjectRecord>,
    group: GroupId,
    i: int,
    movable: bool,
)
    requires
        0 <= i < values.len(),
    ensures
        has_virtual_member(values.take(i + 1), group, movable) == (has_virtual_member(
            values.take(i),
            group,
            movable,
        ) || (values[i].groups.has(group) && (values[i].movability == Movability::Movable)
            == movable)),
{
    let now = values.take(i + 1);
    let before = values.take(i);
    if has_virtual_member(before, group, movable) {
        let j = choose|j: int|
            0 <= j < before.len() && (#[trigger] before[j]).groups.has(group) && (
            before[j].movability == Movability::Movable) == movable;
        assert(now[j] == before[j]);
    }
    if values[i].groups.has(group) && (values[i].movability == Movability::Movable) == movable {
        assert(now[i] == values[i]);
    }
    if has_virtual_member(now, group, movable) {
        let j = choose|j: int|
            0 <= j < now.len() && (#[trigger] now[j]).groups.has(group) && (now[j].movability
                == Movability::Movable) == movable;
        if j < i {
            assert(before[j] == now[j]);
        }
    }
}

} // verus!
