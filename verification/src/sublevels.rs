//! Sublevels: groups of objects that are drawn through one movable coordinate space.
use vstd::prelude::*;

use crate::errors::{invalid, Result, SceneError};
use crate::float_bits::F32;
use crate::groups::GroupId;
use crate::handles::{ObjectId, SublevelId};
use crate::objects::{ObjectPose, ObjectRecord, Objects};
use crate::rows::{Movability, NewRow};
use crate::scene::Scene;
use crate::spaces::{identity, identity_matrix, row_taken, SpaceField, Spaces, SublevelRecord};
use crate::sparse_set::swap_removed;

verus! {

/// The group whose members become the sublevel's, and where its origin stands.
#[derive(Clone, Copy, Debug)]
pub struct SublevelDescriptor {
    pub group: GroupId,
    pub placement: [F32; 16],
}

impl Spaces {
    /// `after` is `self` with a fresh sublevel.
    pub open spec fn sublevel_added(
        &self,
        after: &Spaces,
        id: SublevelId,
        record: SublevelRecord,
    ) -> bool {
        &&& *after == (Spaces {
            sublevels: after.sublevels,
            history: after.history,
            ..*self
        })
        &&& after.sublevels@ == self.sublevels@.insert(id, record)
        &&& after.sublevels.id_by_slot@ == self.sublevels.id_by_slot@.push(id)
        &&& after.sublevels.value_by_slot@ == self.sublevels.value_by_slot@.push(record)
        &&& forall|index: u32|
            #[trigger] after.sublevels.occupies(index) <==> self.sublevels.occupies(index) || index
                == id.0.index
        &&& after.history.current@ == self.history.current@.update(
            record.row as int,
            record.placement,
        )
        &&& after.history.previous@ == self.history.previous@.update(
            record.row as int,
            record.placement,
        )
    }

    /// Enters a sublevel in a free row.
    pub(crate) fn enter_sublevel(&mut self, id: SublevelId, record: SublevelRecord)
        requires
            old(self).wf(),
            old(self).live_rows() < old(self).field.capacity,
            old(self).free_row(record.row),
            record.group.valid(),
            !old(self).sublevels.occupies(id.0.index),
            id.0.index < usize::MAX,
        ensures
            final(self).wf(),
            old(self).sublevel_added(final(self), id, record),
    {
        let ghost before = *self;
        self.sublevels.insert(id, record);
        self.history.stage_new(record.row, record.placement);
        proof {
            let values = before.sublevels.value_by_slot@;
            let now = self.sublevels.value_by_slot@;
            assert(now[values.len() as int] == record);
            assert(!before.owned(record.row as int));
            assert(!row_taken(self.portals.value_by_slot@, record.row as int));
            assert forall|i: int| 0 <= i < values.len() implies #[trigger] now[i] == values[i]
                && values[i].row != record.row by {}
            assert(self.ordered() == before.ordered());
            assert forall|i: int| 0 <= i < self.portals.spec_len() implies #[trigger] self.portals.value_by_slot@[i].row
                != record.row by {}
            assert forall|row: int|
                0 <= row < self.field.capacity && !self.owned(
                    row,
                ) implies #[trigger] self.history.current@[row] == identity()
                && self.history.previous@[row] == identity() by {
                assert(now[values.len() as int].row == record.row);
                assert(row != record.row);
                assert(!before.owned(row)) by {
                    if exists|i: int| 0 <= i < values.len() && #[trigger] values[i].row == row {
                        let i = choose|i: int|
                            0 <= i < values.len() && #[trigger] values[i].row == row;
                        assert(now[i].row == row);
                    }
                }
                assert(before.history.current@[row] == identity());
            }
        }
    }

    /// `after` is `self` without the sublevel; its row is free and the identity.
    pub open spec fn sublevel_taken(&self, after: &Spaces, id: SublevelId) -> bool {
        let record = self.sublevels@[id];
        &&& *after == (Spaces {
            sublevels: after.sublevels,
            history: after.history,
            ..*self
        })
        &&& after.sublevels@ == self.sublevels@.remove(id)
        &&& after.sublevels.id_by_slot@ == swap_removed(
            self.sublevels.id_by_slot@,
            self.sublevels.place(id),
        )
        &&& after.sublevels.value_by_slot@ == swap_removed(
            self.sublevels.value_by_slot@,
            self.sublevels.place(id),
        )
        &&& forall|index: u32|
            #[trigger] after.sublevels.occupies(index) <==> self.sublevels.occupies(index) && index
                != id.0.index
        &&& after.history.current@ == self.history.current@.update(record.row as int, identity())
        &&& after.history.previous@ == self.history.previous@.update(record.row as int, identity())
    }

    /// Takes a live sublevel out and resets its row.
    pub(crate) fn take_sublevel(&mut self, id: SublevelId) -> (record: SublevelRecord)
        requires
            old(self).wf(),
            old(self).sublevels@.contains_key(id),
        ensures
            final(self).wf(),
            record == old(self).sublevels@[id],
            old(self).sublevel_taken(final(self), id),
            final(self).free_row(record.row),
    {
        let ghost before = *self;
        let ghost p = self.sublevels.place(id);
        proof {
            self.sublevels.lemma_contains(id);
        }
        let record: SublevelRecord = match self.sublevels.get(id) {
            Some(record) => *record,
            None => {
                assert(false);
                SublevelRecord { group: GroupId(0), placement: identity_matrix(), row: 0 }
            },
        };
        assert(record == before.sublevels.value_by_slot@[p]);
        self.history.stage_new(record.row, identity_matrix());
        self.sublevels.remove(id);
        proof {
            let values = before.sublevels.value_by_slot@;
            let now = self.sublevels.value_by_slot@;
            let last = values.len() - 1;
            assert forall|i: int| 0 <= i < now.len() implies #[trigger] now[i] == values[if i == p {
                last
            } else {
                i
            }] && now[i].row != record.row by {}
            assert(self.ordered() == before.ordered());
            assert forall|i: int| 0 <= i < self.portals.spec_len() implies #[trigger] self.portals.value_by_slot@[i].row
                != record.row by {}
            assert(!self.owned(record.row as int)) by {
                assert(!row_taken(self.portals.value_by_slot@, record.row as int));
            }
            assert forall|row: int|
                0 <= row < self.field.capacity && !self.owned(
                    row,
                ) implies #[trigger] self.history.current@[row] == identity()
                && self.history.previous@[row] == identity() by {
                if row != record.row {
                    assert(!before.owned(row)) by {
                        if exists|i: int| 0 <= i < values.len() && #[trigger] values[i].row == row {
                            let i = choose|i: int|
                                0 <= i < values.len() && #[trigger] values[i].row == row;
                            if i == last {
                                assert(now[p].row == row);
                            } else {
                                assert(now[i].row == row);
                            }
                        }
                    }
                    assert(before.history.current@[row] == identity());
                }
            }
        }
        record
    }

    /// `after` is `self` with a sublevel elsewhere; where it was stays known.
    pub open spec fn sublevel_placed(
        &self,
        after: &Spaces,
        id: SublevelId,
        placement: [F32; 16],
    ) -> bool {
        let record = SublevelRecord { placement, ..self.sublevels@[id] };
        &&& *after == (Spaces {
            sublevels: after.sublevels,
            history: after.history,
            ..*self
        })
        &&& after.sublevels@ == self.sublevels@.insert(id, record)
        &&& after.sublevels.slot_by_entity == self.sublevels.slot_by_entity
        &&& after.sublevels.id_by_slot == self.sublevels.id_by_slot
        &&& after.history.current@ == self.history.current@.update(record.row as int, placement)
        &&& after.history.previous == self.history.previous
    }

    pub(crate) fn place_sublevel(&mut self, id: SublevelId, placement: [F32; 16])
        requires
            old(self).wf(),
            old(self).sublevels@.contains_key(id),
        ensures
            final(self).wf(),
            old(self).sublevel_placed(final(self), id, placement),
    {
        let ghost before = *self;
        let ghost p = self.sublevels.place(id);
        proof {
            self.sublevels.lemma_contains(id);
        }
        let record: SublevelRecord = match self.sublevels.get(id) {
            Some(record) => *record,
            None => {
                assert(false);
                return ;
            },
        };
        self.sublevels.set(id, SublevelRecord { placement, ..record });
        self.history.stage_current(record.row, placement);
        proof {
            let values = before.sublevels.value_by_slot@;
            let now = self.sublevels.value_by_slot@;
            assert forall|i: int| 0 <= i < now.len() implies (#[trigger] now[i]).row == values[i].row
                && now[i].group == values[i].group && (i != p ==> now[i] == values[i] && now[i].row
                != record.row) by {}
            assert(self.ordered() == before.ordered());
            assert forall|i: int| 0 <= i < self.portals.spec_len() implies #[trigger] self.portals.value_by_slot@[i].row
                != record.row by {}
            assert forall|row: int|
                0 <= row < self.field.capacity && !self.owned(
                    row,
                ) implies #[trigger] self.history.current@[row] == identity()
                && self.history.previous@[row] == identity() by {
                assert(now[p].row == record.row);
                assert(!before.owned(row)) by {
                    if exists|i: int| 0 <= i < values.len() && #[trigger] values[i].row == row {
                        let i = choose|i: int|
                            0 <= i < values.len() && #[trigger] values[i].row == row;
                        assert(now[i].row == row);
                    }
                }
                assert(before.history.current@[row] == identity());
            }
        }
    }
}

/// The object is a member that is to change its space: one that names `from` if that is
/// given, else one that does not name `to` yet.
pub open spec fn changes_space(
    field: SpaceField,
    record: ObjectRecord,
    group: GroupId,
    from: Option<u32>,
    to: u32,
) -> bool {
    record.groups.has(group) && match from {
        Some(space) => field.space_of(record.pose.flags) == space,
        None => field.space_of(record.pose.flags) != to,
    }
}

/// The object in another space.
pub open spec fn tagged(field: SpaceField, record: ObjectRecord, to: u32) -> ObjectRecord {
    ObjectRecord {
        pose: ObjectPose { flags: field.with_space(record.pose.flags, to), ..record.pose },
        ..record
    }
}

/// Objects once the members of a group that are to change their space have done so.
pub open spec fn group_tagged(
    field: SpaceField,
    values: Seq<ObjectRecord>,
    group: GroupId,
    from: Option<u32>,
    to: u32,
) -> Seq<ObjectRecord> {
    Seq::new(
        values.len(),
        |i: int|
            if changes_space(field, values[i], group, from, to) {
                tagged(field, values[i], to)
            } else {
                values[i]
            },
    )
}

/// Some object that changes its space can move, or some cannot.
pub open spec fn some_tagged(
    field: SpaceField,
    values: Seq<ObjectRecord>,
    group: GroupId,
    from: Option<u32>,
    to: u32,
    movable: bool,
) -> bool {
    exists|i: int|
        0 <= i < values.len() && changes_space(field, #[trigger] values[i], group, from, to) && (
        values[i].movability == Movability::Movable) == movable
}

impl Scene {
    /// `after` has the members of a group that are to change their space in it. What
    /// was drawn of them is known to be out of date.
    pub open spec fn group_in_space(
        &self,
        after: &Scene,
        group: GroupId,
        from: Option<u32>,
        to: u32,
    ) -> bool {
        let field = self.spaces.field;
        let values = self.objects.spec_values();
        let fixed = some_tagged(field, values, group, from, to, false);
        &&& after.objects == (Objects {
            records: after.objects.records,
            static_dirty: self.objects.static_dirty || fixed,
            movable_generation: if some_tagged(field, values, group, from, to, true) {
                self.objects.movable_generation.wrapping_add(1)
            } else {
                self.objects.movable_generation
            },
            ..self.objects
        })
        &&& after.objects.records.id_by_slot == self.objects.records.id_by_slot
        &&& after.objects.spec_values() == group_tagged(field, values, group, from, to)
        &&& after.bake_invalidated == (self.bake_invalidated || fixed)
    }

    /// Takes the members of a group that are to change their space there.
    #[verifier::spinoff_prover]
    fn tag_group_with_coordinate_space(&mut self, group: GroupId, from: Option<u32>, to: u32)
        requires
            old(self).wf(),
            group.valid(),
        ensures
            final(self).wf(),
            *final(self) == (Scene {
                objects: final(self).objects,
                bake_invalidated: final(self).bake_invalidated,
                ..*old(self)
            }),
            old(self).group_in_space(final(self), group, from, to),
    {
        let ghost before = *self;
        let ghost values = self.objects.spec_values();
        let field: SpaceField = self.spaces.field;
        let mut changed_movable: bool = false;
        let mut changed_static: bool = false;
        let mut i: usize = 0;
        while i < self.objects.records.id_by_slot.len()
            invariant
                0 <= i <= values.len(),
                self.wf(),
                before.wf(),
                group.valid(),
                field == before.spaces.field,
                values == before.objects.spec_values(),
                *self == (Scene { objects: self.objects, ..before }),
                self.objects == (Objects { records: self.objects.records, ..before.objects }),
                self.objects.records.id_by_slot == before.objects.records.id_by_slot,
                self.objects.spec_values().len() == values.len(),
                forall|j: int|
                    0 <= j < values.len() ==> #[trigger] self.objects.spec_values()[j] == if j
                        < i {
                        group_tagged(field, values, group, from, to)[j]
                    } else {
                        values[j]
                    },
                changed_movable == some_tagged(
                    field,
                    values.take(i as int),
                    group,
                    from,
                    to,
                    true,
                ),
                changed_static == some_tagged(
                    field,
                    values.take(i as int),
                    group,
                    from,
                    to,
                    false,
                ),
            decreases values.len() - i,
        {
            let id: ObjectId = self.objects.records.id_by_slot[i];
            let record: ObjectRecord = self.objects.records.value_by_slot[i];
            proof {
                self.objects.records.lemma_dense(i as int);
                assert(record == values[i as int]);
                lemma_some_tagged_step(field, values, group, from, to, i as int, true);
                lemma_some_tagged_step(field, values, group, from, to, i as int, false);
            }
            let space: u32 = field.coordinate_space(record.pose.flags);
            let chosen: bool = match from {
                Some(wanted) => space == wanted,
                None => space != to,
            };
            if record.groups.contains(group) && chosen {
                let flags: u32 = field.set_coordinate_space(record.pose.flags, to);
                let next = ObjectRecord {
                    pose: ObjectPose {
                        model: record.pose.model,
                        sphere: record.pose.sphere,
                        flags,
                    },
                    ..record
                };
                let generation: u64 = self.objects.movable_generation;
                self.edit_object(id, next, generation);
                if record.movability.can_move() {
                    changed_movable = true;
                } else {
                    changed_static = true;
                }
            }
            i = i + 1;
        }
        proof {
            assert(values.take(i as int) =~= values);
            assert(self.objects.spec_values() =~= group_tagged(field, values, group, from, to));
        }
        let ghost all = *self;
        if changed_movable {
            self.objects.movable_generation = self.objects.movable_generation.wrapping_add(1);
        }
        if changed_static {
            self.objects.static_dirty = true;
            self.bake_invalidated = true;
        }
        assert(self.objects.published(self.hidden_groups) == all.objects.published(
            self.hidden_groups,
        ));
    }

    /// Creates a sublevel in a free coordinate row and takes the current members of its
    /// group there. Objects that join the group later are not members.
    pub fn add_sublevel(&mut self, new: NewRow, desc: SublevelDescriptor) -> (result: Result<
        SublevelId,
    >)
        requires
            old(self).wf(),
            desc.group.valid(),
            old(self).spaces.live_rows() < old(self).spaces.field.capacity ==> old(
                self,
            ).spaces.free_row(new.gpu_row),
            !old(self).spaces.sublevels.occupies(new.entity.index),
            new.entity.index < usize::MAX,
        ensures
            final(self).wf(),
            *final(self) == (Scene {
                objects: final(self).objects,
                bake_invalidated: final(self).bake_invalidated,
                spaces: final(self).spaces,
                ..*old(self)
            }),
            if old(self).spaces.live_rows() < old(self).spaces.field.capacity {
                &&& result == Ok::<_, SceneError>(SublevelId(new.entity))
                &&& old(self).spaces.sublevel_added(
                    &final(self).spaces,
                    SublevelId(new.entity),
                    (SublevelRecord {
                        group: desc.group,
                        placement: desc.placement,
                        row: new.gpu_row,
                    }),
                )
                &&& old(self).group_in_space(final(self), desc.group, None, new.gpu_row)
            } else {
                &&& result == Err::<SublevelId, _>(SceneError::CoordinateSpaceCapacityExceeded)
                &&& *final(self) == *old(self)
            },
    {
        if !self.spaces.has_room() {
            return Err(SceneError::CoordinateSpaceCapacityExceeded);
        }
        let id = SublevelId(new.entity);
        self.spaces.enter_sublevel(
            id,
            SublevelRecord { group: desc.group, placement: desc.placement, row: new.gpu_row },
        );
        self.tag_group_with_coordinate_space(desc.group, None, new.gpu_row);
        Ok(id)
    }

    /// Takes the members that joined the group since into the sublevel too.
    pub fn refresh_sublevel_membership(&mut self, sublevel: SublevelId) -> (result: Result<()>)
        requires
            old(self).wf(),
        ensures
            final(self).wf(),
            *final(self) == (Scene {
                objects: final(self).objects,
                bake_invalidated: final(self).bake_invalidated,
                ..*old(self)
            }),
            if old(self).spaces.sublevels@.contains_key(sublevel) {
                &&& result == Ok::<(), SceneError>(())
                &&& old(self).group_in_space(
                    final(self),
                    old(self).spaces.sublevels@[sublevel].group,
                    None,
                    old(self).spaces.sublevels@[sublevel].row,
                )
            } else {
                &&& result == Err::<(), _>(SceneError::InvalidHandle { resource: "sublevel" })
                &&& *final(self) == *old(self)
            },
    {
        proof {
            self.spaces.sublevels.lemma_contains(sublevel);
        }
        let record: SublevelRecord = match self.spaces.sublevels.get(sublevel) {
            Some(record) => *record,
            None => {
                return Err(invalid("sublevel"));
            },
        };
        assert(self.spaces.sublevels.value_by_slot@[self.spaces.sublevels.place(sublevel)]
            == record);
        self.tag_group_with_coordinate_space(record.group, None, record.row);
        Ok(())
    }

    /// `after` is `self` with a sublevel at `placement`. No member is touched; what was
    /// drawn of static objects and of movable ones is out of date.
    pub open spec fn sublevel_moved(
        &self,
        after: &Scene,
        sublevel: SublevelId,
        placement: [F32; 16],
        result: Result<()>,
    ) -> bool {
        if self.spaces.sublevels@.contains_key(sublevel) {
            &&& result == Ok::<(), SceneError>(())
            &&& self.spaces.sublevel_placed(&after.spaces, sublevel, placement)
            &&& *after == (Scene {
                spaces: after.spaces,
                bake_invalidated: true,
                objects: Objects {
                    static_dirty: true,
                    movable_generation: self.objects.movable_generation.wrapping_add(1),
                    ..self.objects
                },
                ..*self
            })
        } else {
            &&& result == Err::<(), _>(SceneError::InvalidHandle { resource: "sublevel" })
            &&& *after == *self
        }
    }

    /// Moves a sublevel to `moved`: its placement with the move applied on the left.
    pub fn move_sublevel(&mut self, sublevel: SublevelId, moved: [F32; 16]) -> (result: Result<()>)
        requires
            old(self).wf(),
        ensures
            final(self).wf(),
            old(self).sublevel_moved(final(self), sublevel, moved, result),
    {
        self.update_sublevel(sublevel, moved)
    }

    /// Places a sublevel.
    pub fn update_sublevel(&mut self, sublevel: SublevelId, placement: [F32; 16]) -> (result:
        Result<()>)
        requires
            old(self).wf(),
        ensures
            final(self).wf(),
            old(self).sublevel_moved(final(self), sublevel, placement, result),
    {
        if !self.spaces.sublevels.is_live(sublevel) {
            return Err(invalid("sublevel"));
        }
        let ghost before = *self;
        self.spaces.place_sublevel(sublevel, placement);
        self.objects.static_dirty = true;
        self.bake_invalidated = true;
        self.objects.movable_generation = self.objects.movable_generation.wrapping_add(1);
        assert(self.objects.published(self.hidden_groups) == before.objects.published(
            before.hidden_groups,
        ));
        Ok(())
    }

    /// Where a live sublevel stands.
    pub fn sublevel_placement(&self, sublevel: SublevelId) -> (placement: Option<[F32; 16]>)
        requires
            self.wf(),
        ensures
            placement == if self.spaces.sublevels@.contains_key(sublevel) {
                Some(self.spaces.sublevels@[sublevel].placement)
            } else {
                None::<[F32; 16]>
            },
    {
        match self.spaces.sublevels.get(sublevel) {
            Some(record) => Some(record.placement),
            None => None,
        }
    }

    /// Removes a sublevel: the members of its group that are still in its space return
    /// to the world's, and its row is free again.
    pub fn remove_sublevel(&mut self, sublevel: SublevelId) -> (result: Result<()>)
        requires
            old(self).wf(),
        ensures
            final(self).wf(),
            *final(self) == (Scene {
                objects: final(self).objects,
                bake_invalidated: final(self).bake_invalidated,
                spaces: final(self).spaces,
                ..*old(self)
            }),
            if old(self).spaces.sublevels@.contains_key(sublevel) {
                let record = old(self).spaces.sublevels@[sublevel];
                &&& result == Ok::<(), SceneError>(())
                &&& old(self).spaces.sublevel_taken(&final(self).spaces, sublevel)
                &&& final(self).spaces.free_row(record.row)
                &&& old(self).group_in_space(final(self), record.group, Some(record.row), 0)
            } else {
                &&& result == Err::<(), _>(SceneError::InvalidHandle { resource: "sublevel" })
                &&& *final(self) == *old(self)
            },
    {
        if !self.spaces.sublevels.is_live(sublevel) {
            return Err(invalid("sublevel"));
        }
        proof {
            let p = self.spaces.sublevels.place(sublevel);
            self.spaces.sublevels.lemma_contains(sublevel);
            assert(self.spaces.sublevels.value_by_slot@[p].group.valid());
        }
        let record: SublevelRecord = self.spaces.take_sublevel(sublevel);
        self.tag_group_with_coordinate_space(record.group, Some(record.row), 0);
        Ok(())
    }
}

proof fn lemma_some_tagged_step(
    field: SpaceField,
    values: Seq<ObjectRecord>,
    group: GroupId,
    from: Option<u32>,
    to: u32,
    i: int,
    movable: bool,
)
    requires
        0 <= i < values.len(),
    ensures
        some_tagged(field, values.take(i + 1), group, from, to, movable) == (some_tagged(
            field,
            values.take(i),
            group,
            from,
            to,
            movable,
        ) || (changes_space(field, values[i], group, from, to) && (values[i].movability
            == Movability::Movable) == movable)),
{
    let now = values.take(i + 1);
    let before = values.take(i);
    if some_tagged(field, before, group, from, to, movable) {
        let j = choose|j: int|
            0 <= j < before.len() && changes_space(field, #[trigger] before[j], group, from, to)
                && (before[j].movability == Movability::Movable) == movable;
        assert(now[j] == before[j]);
    }
    if changes_space(field, values[i], group, from, to) && (values[i].movability
        == Movability::Movable) == movable {
        assert(now[i] == values[i]);
    }
    if some_tagged(field, now, group, from, to, movable) {
        let j = choose|j: int|
            0 <= j < now.len() && changes_space(field, #[trigger] now[j], group, from, to) && (
            now[j].movability == Movability::Movable) == movable;
        if j < i {
            assert(before[j] == now[j]);
        }
    }
}

} // verus!
