//! Active water volumes with their heightfield residency.
//!
//! The simulation has a fixed number of heightfields. Volumes take them in turn
//! and keep theirs until they are removed; a volume that found none free gets the
//! first one that is released.
use vstd::prelude::*;

use crate::entity_projection::EntityRowProjection;
use crate::handles::WaterVolumeId;
use crate::sparse_set::swap_removed;

verus! {

/// Heightfields of the water simulation.
pub const WATER_SIM_SLOT_COUNT: usize = 8;

/// Marks a volume without a heightfield.
pub const WATER_SIM_SLOT_UNASSIGNED: u32 = u32::MAX;

pub struct WaterVolumeProjection {
    pub active: EntityRowProjection<WaterVolumeId>,
    /// Heightfield of each compact slot.
    pub sim_slots: Vec<u32>,
    /// Free heightfields; the last is handed out first.
    pub free_sim_slots: Vec<u32>,
}

/// What a removal did beside taking the volume out.
pub struct WaterVolumeRemoval {
    /// Compact slot that the volume had.
    pub compact: usize,
    /// A volume that got the released heightfield, with its `[row, heightfield]`.
    pub promoted: Option<(usize, [u32; 2])>,
}

impl WaterVolumeProjection {
    /// Heightfields are in range, no two volumes share one, none is both in use
    /// and free, each is one of the two, and nobody waits while one is free.
    pub open spec fn wf(&self) -> bool {
        &&& self.active.wf()
        &&& self.sim_slots@.len() == self.active.spec_len()
        &&& forall|i: int|
            0 <= i < self.sim_slots@.len() ==> #[trigger] self.sim_slots@[i]
                == WATER_SIM_SLOT_UNASSIGNED || self.sim_slots@[i] < WATER_SIM_SLOT_COUNT
        &&& forall|i: int, j: int|
            0 <= i < j < self.sim_slots@.len() && #[trigger] self.sim_slots@[i]
                == #[trigger] self.sim_slots@[j] ==> self.sim_slots@[i]
                == WATER_SIM_SLOT_UNASSIGNED
        &&& forall|i: int|
            0 <= i < self.free_sim_slots@.len() ==> #[trigger] self.free_sim_slots@[i]
                < WATER_SIM_SLOT_COUNT
        &&& self.free_sim_slots@.no_duplicates()
        &&& forall|i: int, j: int|
            0 <= i < self.sim_slots@.len() && 0 <= j < self.free_sim_slots@.len()
                ==> #[trigger] self.sim_slots@[i] != #[trigger] self.free_sim_slots@[j]
        &&& forall|slot: u32|
            slot < WATER_SIM_SLOT_COUNT ==> self.sim_slots@.contains(slot)
                || #[trigger] self.free_sim_slots@.contains(slot)
        &&& self.free_sim_slots@.len() > 0 ==> !self.sim_slots@.contains(
            WATER_SIM_SLOT_UNASSIGNED,
        )
    }

    /// Heightfield of an active volume; `WATER_SIM_SLOT_UNASSIGNED` if it has none.
    pub open spec fn slot_of(&self, id: WaterVolumeId) -> u32 {
        self.sim_slots@[self.active.place(id)]
    }

    pub fn new() -> (projection: Self)
        ensures
            projection.wf(),
            projection.active.spec_ids() == Seq::<WaterVolumeId>::empty(),
            projection.active.spec_rows() == Seq::<u32>::empty(),
            projection.active.rows@ == Map::<WaterVolumeId, u32>::empty(),
            projection.sim_slots@ == Seq::<u32>::empty(),
            projection.free_sim_slots@ == seq![7u32, 6, 5, 4, 3, 2, 1, 0],
    {
        let free_sim_slots: Vec<u32> = vec![7, 6, 5, 4, 3, 2, 1, 0];
        let ghost free = free_sim_slots@;
        assert(free =~= seq![7u32, 6, 5, 4, 3, 2, 1, 0]);
        assert forall|slot: u32| slot < WATER_SIM_SLOT_COUNT implies #[trigger] free.contains(
            slot,
        ) by {
            assert(free[7 - slot] == slot);
        }
        WaterVolumeProjection {
            active: EntityRowProjection::new(),
            sim_slots: Vec::new(),
            free_sim_slots,
        }
    }

    /// Appends a volume and gives it a heightfield if one is free. Returns its
    /// compact slot and its `[row, heightfield]`.
    pub fn insert(&mut self, id: WaterVolumeId, row: u32) -> (placed: (usize, [u32; 2]))
        requires
            old(self).wf(),
            !old(self).active.occupies(id.0.index),
            id.0.index < usize::MAX,
            old(self).active.spec_len() < u32::MAX,
        ensures
            final(self).wf(),
            final(self).active.spec_ids() == old(self).active.spec_ids().push(id),
            final(self).active.spec_rows() == old(self).active.spec_rows().push(row),
            final(self).active.rows@ == old(self).active.rows@.insert(id, row),
            forall|index: u32|
                #[trigger] final(self).active.occupies(index) <==> old(self).active.occupies(index)
                    || index == id.0.index,
            placed.0 == old(self).active.spec_len(),
            placed.1[0] == row,
            final(self).sim_slots@ == old(self).sim_slots@.push(placed.1[1]),
            if old(self).free_sim_slots@.len() > 0 {
                &&& placed.1[1] == old(self).free_sim_slots@.last()
                &&& final(self).free_sim_slots@ == old(self).free_sim_slots@.drop_last()
            } else {
                &&& placed.1[1] == WATER_SIM_SLOT_UNASSIGNED
                &&& final(self).free_sim_slots@ == old(self).free_sim_slots@
            },
    {
        let ghost before = *self;
        let compact: usize = self.active.insert(id, row);
        let sim_slot: u32 = match self.free_sim_slots.pop() {
            Some(slot) => slot,
            None => WATER_SIM_SLOT_UNASSIGNED,
        };
        self.sim_slots.push(sim_slot);
        proof {
            let slots = self.sim_slots@;
            let free = self.free_sim_slots@;
            assert forall|slot: u32| slot < WATER_SIM_SLOT_COUNT implies slots.contains(slot)
                || #[trigger] free.contains(slot) by {
                if before.sim_slots@.contains(slot) {
                    let i = before.sim_slots@.index_of(slot);
                    assert(slots[i] == slot);
                } else {
                    assert(before.free_sim_slots@.contains(slot));
                    let j = before.free_sim_slots@.index_of(slot);
                    if j < free.len() {
                        assert(free[j] == slot);
                    } else {
                        assert(slots[before.sim_slots@.len() as int] == slot);
                    }
                }
            }
            if free.len() > 0 {
                assert(!slots.contains(WATER_SIM_SLOT_UNASSIGNED)) by {
                    if slots.contains(WATER_SIM_SLOT_UNASSIGNED) {
                        let i = slots.index_of(WATER_SIM_SLOT_UNASSIGNED);
                        if i < before.sim_slots@.len() {
                            assert(before.sim_slots@[i] == WATER_SIM_SLOT_UNASSIGNED);
                        }
                    }
                }
            }
        }
        (compact, [row, sim_slot])
    }

    fn first_waiting(&self) -> (waiting: Option<usize>)
        ensures
            match waiting {
                Some(i) => i < self.sim_slots@.len() && self.sim_slots@[i as int]
                    == WATER_SIM_SLOT_UNASSIGNED && forall|j: int|
                    0 <= j < i ==> #[trigger] self.sim_slots@[j] != WATER_SIM_SLOT_UNASSIGNED,
                None => !self.sim_slots@.contains(WATER_SIM_SLOT_UNASSIGNED),
            },
    {
        let mut i: usize = 0;
        while i < self.sim_slots.len()
            invariant
                0 <= i <= self.sim_slots@.len(),
                forall|j: int|
                    0 <= j < i ==> #[trigger] self.sim_slots@[j] != WATER_SIM_SLOT_UNASSIGNED,
            decreases self.sim_slots@.len() - i,
        {
            if self.sim_slots[i] == WATER_SIM_SLOT_UNASSIGNED {
                return Some(i);
            }
            i = i + 1;
        }
        None
    }

    /// Removes a volume. The last volume takes its compact slot; its heightfield
    /// goes to the first volume that waits for one, or becomes free.
    pub fn remove(&mut self, id: WaterVolumeId) -> (removal: Option<WaterVolumeRemoval>)
        requires
            old(self).wf(),
        ensures
            final(self).wf(),
            final(self).active.rows@ == old(self).active.rows@.remove(id),
            match removal {
                None => !old(self).active.contains(id) && *final(self) == *old(self),
                Some(r) => {
                    let remaining = swap_removed(old(self).sim_slots@, r.compact as int);
                    let released = old(self).slot_of(id);
                    &&& old(self).active.contains(id)
                    &&& r.compact == old(self).active.place(id)
                    &&& final(self).active.spec_ids() == swap_removed(
                        old(self).active.spec_ids(),
                        r.compact as int,
                    )
                    &&& final(self).active.spec_rows() == swap_removed(
                        old(self).active.spec_rows(),
                        r.compact as int,
                    )
                    &&& forall|index: u32|
                        #[trigger] final(self).active.occupies(index) <==> old(
                            self,
                        ).active.occupies(index) && index != id.0.index
                    &&& match r.promoted {
                        Some((to, pair)) => {
                            &&& released != WATER_SIM_SLOT_UNASSIGNED
                            &&& to < remaining.len()
                            &&& remaining[to as int] == WATER_SIM_SLOT_UNASSIGNED
                            &&& forall|j: int|
                                0 <= j < to ==> #[trigger] remaining[j]
                                    != WATER_SIM_SLOT_UNASSIGNED
                            &&& pair[0] == final(self).active.spec_rows()[to as int]
                            &&& pair[1] == released
                            &&& final(self).sim_slots@ == remaining.update(to as int, released)
                            &&& final(self).free_sim_slots@ == old(self).free_sim_slots@
                        },
                        None => {
                            &&& released == WATER_SIM_SLOT_UNASSIGNED || !remaining.contains(
                                WATER_SIM_SLOT_UNASSIGNED,
                            )
                            &&& final(self).sim_slots@ == remaining
                            &&& final(self).free_sim_slots@ == if released
                                == WATER_SIM_SLOT_UNASSIGNED {
                                old(self).free_sim_slots@
                            } else {
                                old(self).free_sim_slots@.push(released)
                            }
                        },
                    }
                },
            },
    {
        let ghost before = *self;
        let compact: usize = match self.active.remove(id) {
            Some(compact) => compact,
            None => {
                return None;
            },
        };
        let released: u32 = self.sim_slots.swap_remove(compact);
        let ghost remaining = self.sim_slots@;
        let ghost last = before.sim_slots@.len() - 1;
        assert(remaining =~= swap_removed(before.sim_slots@, compact as int));
        assert(released == before.slot_of(id));
        proof {
            before.lemma_slots_after_removal(compact as int);
        }
        if released != WATER_SIM_SLOT_UNASSIGNED {
            match self.first_waiting() {
                Some(to) => {
                    self.sim_slots.set(to, released);
                    let row: u32 = self.active.rows.value_by_slot[to];
                    proof {
                        assert(self.free_sim_slots@.len() == 0) by {
                            if self.free_sim_slots@.len() > 0 {
                                let from = if to == compact { last } else { to as int };
                                assert(before.sim_slots@[from] == WATER_SIM_SLOT_UNASSIGNED);
                            }
                        }
                        let slots = self.sim_slots@;
                        assert forall|slot: u32| slot < WATER_SIM_SLOT_COUNT implies slots.contains(
                            slot,
                        ) || #[trigger] self.free_sim_slots@.contains(slot) by {
                            if slot == released {
                                assert(slots[to as int] == slot);
                            } else {
                                assert(before.free_sim_slots@.contains(slot)
                                    || before.sim_slots@.contains(slot));
                                let i = remaining.index_of(slot);
                                assert(remaining[i] == slot);
                                assert(slots[i] == slot);
                            }
                        }
                        assert forall|i: int, j: int|
                            0 <= i < j < slots.len() && #[trigger] slots[i] == #[trigger] slots[j]
                                implies slots[i] == WATER_SIM_SLOT_UNASSIGNED by {
                            if i == to {
                                assert(remaining[j] != released);
                            } else if j == to {
                                assert(remaining[i] != released);
                            } else {
                                assert(remaining[i] == remaining[j]);
                            }
                        }
                    }
                    return Some(
                        WaterVolumeRemoval { compact, promoted: Some((to, [row, released])) },
                    );
                },
                None => {
                    self.free_sim_slots.push(released);
                    proof {
                        let free = self.free_sim_slots@;
                        assert forall|slot: u32| slot < WATER_SIM_SLOT_COUNT implies
                            remaining.contains(slot) || #[trigger] free.contains(slot) by {
                            if slot == released {
                                assert(free[free.len() - 1] == slot);
                            } else {
                                assert(before.free_sim_slots@.contains(slot)
                                    || before.sim_slots@.contains(slot));
                                if before.free_sim_slots@.contains(slot) {
                                    let j = before.free_sim_slots@.index_of(slot);
                                    assert(free[j] == slot);
                                }
                            }
                        }
                        assert forall|i: int, j: int|
                            0 <= i < remaining.len() && 0 <= j < free.len() implies
                            #[trigger] remaining[i] != #[trigger] free[j] by {
                            if j == free.len() - 1 {
                                assert(remaining[i] != released);
                            } else {
                                let from = if i == compact { last } else { i };
                                assert(before.sim_slots@[from] == remaining[i]);
                                assert(before.free_sim_slots@[j] == free[j]);
                            }
                        }
                        assert(free.no_duplicates()) by {
                            assert forall|i: int, j: int|
                                0 <= i < free.len() && 0 <= j < free.len() && i != j implies
                                free[i] != free[j] by {
                                assert(before.sim_slots@[compact as int] == released);
                                if i == free.len() - 1 {
                                    assert(before.free_sim_slots@[j] == free[j]);
                                } else if j == free.len() - 1 {
                                    assert(before.free_sim_slots@[i] == free[i]);
                                } else {
                                    assert(before.free_sim_slots@[i] == free[i]);
                                    assert(before.free_sim_slots@[j] == free[j]);
                                }
                            }
                        }
                    }
                },
            }
        } else {
            proof {
                assert forall|slot: u32| slot < WATER_SIM_SLOT_COUNT implies remaining.contains(
                    slot,
                ) || #[trigger] self.free_sim_slots@.contains(slot) by {
                    assert(before.free_sim_slots@.contains(slot) || before.sim_slots@.contains(
                        slot,
                    ));
                }
                assert(self.free_sim_slots@.len() > 0 ==> false) by {
                    assert(before.sim_slots@[compact as int] == WATER_SIM_SLOT_UNASSIGNED);
                }
            }
        }
        Some(WaterVolumeRemoval { compact, promoted: None })
    }

    /// What is left of the heightfields in use when the volume at `gap` goes.
    proof fn lemma_slots_after_removal(&self, gap: int)
        requires
            self.wf(),
            0 <= gap < self.sim_slots@.len(),
        ensures
            ({
                let remaining = swap_removed(self.sim_slots@, gap);
                let released = self.sim_slots@[gap];
                &&& forall|i: int|
                    0 <= i < remaining.len() ==> #[trigger] remaining[i]
                        == WATER_SIM_SLOT_UNASSIGNED || remaining[i] < WATER_SIM_SLOT_COUNT
                &&& forall|i: int, j: int|
                    0 <= i < j < remaining.len() && #[trigger] remaining[i]
                        == #[trigger] remaining[j] ==> remaining[i] == WATER_SIM_SLOT_UNASSIGNED
                &&& forall|i: int|
                    0 <= i < remaining.len() && released != WATER_SIM_SLOT_UNASSIGNED
                        ==> #[trigger] remaining[i] != released
                &&& forall|slot: u32|
                    slot < WATER_SIM_SLOT_COUNT && slot != released && #[trigger] self.sim_slots@.contains(
                        slot,
                    ) ==> remaining.contains(slot)
                &&& forall|i: int, j: int|
                    0 <= i < remaining.len() && 0 <= j < self.free_sim_slots@.len()
                        ==> #[trigger] remaining[i] != #[trigger] self.free_sim_slots@[j]
            }),
    {
        let remaining = swap_removed(self.sim_slots@, gap);
        let released = self.sim_slots@[gap];
        let last = self.sim_slots@.len() - 1;
        assert forall|i: int| 0 <= i < remaining.len() implies #[trigger] remaining[i]
            == self.sim_slots@[if i == gap { last } else { i }] by {}
        assert forall|slot: u32|
            slot < WATER_SIM_SLOT_COUNT && slot != released && #[trigger] self.sim_slots@.contains(
                slot,
            ) implies remaining.contains(slot) by {
            let i = self.sim_slots@.index_of(slot);
            let to = if i == last { gap } else { i };
            assert(remaining[to] == slot);
        }
    }

    pub fn ids(&self) -> (ids: &[WaterVolumeId])
        ensures
            ids@ == self.active.spec_ids(),
    {
        self.active.ids()
    }

    /// Heightfield of an active volume that has one.
    pub fn sim_slot(&self, id: WaterVolumeId) -> (slot: Option<u32>)
        requires
            self.wf(),
        ensures
            slot == if self.active.contains(id) && self.slot_of(id) != WATER_SIM_SLOT_UNASSIGNED {
                Some(self.slot_of(id))
            } else {
                None::<u32>
            },
            slot matches Some(s) ==> s < WATER_SIM_SLOT_COUNT,
    {
        match self.active.slot(id) {
            Some(compact) => {
                let slot: u32 = self.sim_slots[compact];
                if slot != WATER_SIM_SLOT_UNASSIGNED {
                    Some(slot)
                } else {
                    None
                }
            },
            None => None,
        }
    }

    pub fn len(&self) -> (len: usize)
        ensures
            len == self.active.spec_len(),
    {
        self.active.len()
    }
}

/// A removal never changes the heightfield of a volume that has one.
pub proof fn lemma_removal_keeps_survivor_slots(
    before: WaterVolumeProjection,
    after: WaterVolumeProjection,
    id: WaterVolumeId,
    other: WaterVolumeId,
    to: int,
)
    requires
        before.wf(),
        after.wf(),
        before.active.contains(id),
        before.active.contains(other),
        other != id,
        before.slot_of(other) != WATER_SIM_SLOT_UNASSIGNED,
        after.active.spec_ids() == swap_removed(before.active.spec_ids(), before.active.place(id)),
        ({
            let remaining = swap_removed(before.sim_slots@, before.active.place(id));
            ||| after.sim_slots@ == remaining
            ||| 0 <= to < remaining.len() && remaining[to] == WATER_SIM_SLOT_UNASSIGNED
                && after.sim_slots@ == remaining.update(to, before.slot_of(id))
        }),
    ensures
        after.active.contains(other),
        after.slot_of(other) == before.slot_of(other),
{
    let gap = before.active.place(id);
    let from = before.active.place(other);
    let last = before.active.spec_len() - 1;
    let place = if from == last { gap } else { from };
    assert(before.active.rows.id_by_slot@[from] == other);
    assert(before.active.rows.id_by_slot@[gap] == id);
    assert(after.active.spec_ids()[place] == other);
    after.active.rows.lemma_contains(other);
    after.active.rows.lemma_dense(place);
    assert(swap_removed(before.sim_slots@, gap)[place] == before.sim_slots@[from]);
}

/// While a volume waits for a heightfield, all of them are in use.
pub proof fn lemma_waiting_means_all_in_use(projection: WaterVolumeProjection, i: int, slot: u32)
    requires
        projection.wf(),
        0 <= i < projection.sim_slots@.len(),
        projection.sim_slots@[i] == WATER_SIM_SLOT_UNASSIGNED,
        slot < WATER_SIM_SLOT_COUNT,
    ensures
        projection.sim_slots@.contains(slot),
{
    assert(projection.sim_slots@.contains(WATER_SIM_SLOT_UNASSIGNED));
    assert(projection.free_sim_slots@.contains(slot) ==> projection.free_sim_slots@.len() > 0);
    assert(projection.sim_slots@.contains(slot) || projection.free_sim_slots@.contains(slot));
}

} // verus!
