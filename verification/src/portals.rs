//! Portals: pairs of poses that duplicate what stands near one of them at the other.
use vstd::prelude::*;

use crate::errors::{invalid, Result, SceneError};
use crate::float_bits::F32;
use crate::handles::PortalId;
use crate::portal_chains::{
    build_portal_chains, chain_list, lemma_fewer_portals_fewer_chains, portal_chains,
    without_portal, GpuPortalChain, Reachability, MAX_PORTAL_CHAINS,
};
use crate::rows::NewRow;
use crate::scene::Scene;
use crate::spaces::{
    holder, identity, identity_matrix, lemma_holder, lemma_portals_below, lemma_rank, openings,
    ordered_portals, pairs_covered, portal_views, portals_below, reachability, row_taken,
    rows_differ, views_of, GpuPortalView, PortalRecord, Spaces,
};
use crate::sparse_set::swap_removed;

verus! {

/// What a portal is made of: the surface to look through, the far surface, and half the
/// size of the opening.
#[derive(Clone, Copy, Debug)]
pub struct PortalDescriptor {
    pub a: [F32; 16],
    pub b: [F32; 16],
    pub half_extent: [F32; 2],
}

/// What is measured of a pair of poses.
#[derive(Clone, Copy, Debug)]
pub struct PortalMeasure {
    /// The inverse of the near surface's pose.
    pub a_inverse: [F32; 16],
    /// Takes the frame of the far surface to that of the near one.
    pub pair_map_inverse: [F32; 16],
}

pub open spec fn portal_record(
    desc: PortalDescriptor,
    measure: PortalMeasure,
    row: u32,
) -> PortalRecord {
    PortalRecord {
        a: desc.a,
        b: desc.b,
        half_extent: desc.half_extent,
        a_inverse: measure.a_inverse,
        pair_map_inverse: measure.pair_map_inverse,
        row,
    }
}

/// The chain table holds all chains of `portals`.
pub open spec fn chains_fit(
    portals: Seq<PortalRecord>,
    capacity: u32,
    locals: Seq<Vec<[F32; 3]>>,
) -> bool {
    let ordered = portals_below(portals, capacity as int);
    portal_chains(openings(ordered, locals), ordered.len() as int).len() <= MAX_PORTAL_CHAINS
}

proof fn lemma_below_push(portals: Seq<PortalRecord>, next: PortalRecord, row: int)
    requires
        rows_differ(portals.push(next)),
    ensures
        portals_below(portals.push(next), row).len() == portals_below(portals, row).len() + if next.row
            < row {
            1int
        } else {
            0
        },
    decreases row,
{
    let all = portals.push(next);
    if row > 0 {
        lemma_below_push(portals, next, row - 1);
        assert(all[portals.len() as int] == next);
        assert(row_taken(all, row - 1) <==> row_taken(portals, row - 1) || next.row == row - 1) by {
            if row_taken(portals, row - 1) {
                let i = holder(portals, row - 1);
                assert(portals[i].row == row - 1);
                assert(all[i].row == row - 1);
            }
            if row_taken(all, row - 1) {
                let i = holder(all, row - 1);
                assert(all[i].row == row - 1);
                if i < portals.len() {
                    assert(portals[i].row == row - 1);
                }
            }
        }
        if next.row == row - 1 {
            assert(!row_taken(portals, row - 1)) by {
                if row_taken(portals, row - 1) {
                    let i = holder(portals, row - 1);
                    assert(portals[i].row == row - 1);
                    assert(all[i].row != all[portals.len() as int].row);
                }
            }
        }
    }
}

/// Every portal stands in the row order.
pub proof fn lemma_all_ordered(portals: Seq<PortalRecord>, capacity: int)
    requires
        rows_differ(portals),
        forall|i: int| 0 <= i < portals.len() ==> (#[trigger] portals[i]).row < capacity,
    ensures
        portals_below(portals, capacity).len() == portals.len(),
    decreases portals.len(),
{
    if portals.len() == 0 {
        lemma_none_below(portals, capacity);
    } else {
        let rest = portals.drop_last();
        assert(rest.push(portals.last()) =~= portals);
        assert(rows_differ(rest)) by {
            assert forall|i: int, j: int|
                0 <= i < rest.len() && 0 <= j < rest.len() && i
                    != j implies #[trigger] rest[i].row != #[trigger] rest[j].row by {
                assert(portals[i].row != portals[j].row);
            }
        }
        assert forall|i: int| 0 <= i < rest.len() implies (#[trigger] rest[i]).row < capacity by {
            assert(portals[i].row < capacity);
        }
        assert(portals[portals.len() - 1].row < capacity);
        lemma_all_ordered(rest, capacity);
        lemma_below_push(rest, portals.last(), capacity);
    }
}

proof fn lemma_none_below(portals: Seq<PortalRecord>, row: int)
    requires
        portals.len() == 0,
    ensures
        portals_below(portals, row).len() == 0,
    decreases row,
{
    if row > 0 {
        lemma_none_below(portals, row - 1);
    }
}

/// A portal that is gone leaves the others in their order.
proof fn lemma_below_removed(portals: Seq<PortalRecord>, i: int, row: int)
    requires
        rows_differ(portals),
        0 <= i < portals.len(),
    ensures
        portals_below(swap_removed(portals, i), row) == if row <= portals[i].row {
            portals_below(portals, row)
        } else {
            portals_below(portals, row).remove(
                portals_below(portals, portals[i].row as int).len() as int,
            )
        },
    decreases row,
{
    let fewer = swap_removed(portals, i);
    let gone = portals[i].row as int;
    let last = portals.len() - 1;
    if row > 0 {
        lemma_below_removed(portals, i, row - 1);
        let x = row - 1;
        assert forall|j: int| 0 <= j < fewer.len() implies #[trigger] fewer[j] == portals[if j == i {
            last
        } else {
            j
        }] by {}
        assert(rows_differ(fewer)) by {
            assert forall|j: int, k: int|
                0 <= j < fewer.len() && 0 <= k < fewer.len() && j
                    != k implies #[trigger] fewer[j].row != #[trigger] fewer[k].row by {}
        }
        if row_taken(fewer, x) {
            let j = holder(fewer, x);
            assert(fewer[j].row == x);
            let k = if j == i {
                last
            } else {
                j
            };
            lemma_holder(portals, k);
        }
        if x == gone {
            lemma_holder(portals, i);
            assert(!row_taken(fewer, x)) by {
                if row_taken(fewer, x) {
                    let j = holder(fewer, x);
                    assert(fewer[j].row == x);
                }
            }
            let all = portals_below(portals, row);
            assert(all.remove(portals_below(portals, gone).len() as int) =~= portals_below(
                portals,
                x,
            ));
        } else {
            if row_taken(portals, x) {
                let h = holder(portals, x);
                assert(portals[h].row == x);
                if h == last {
                    assert(fewer[i].row == x);
                    lemma_holder(fewer, i);
                } else {
                    assert(fewer[h].row == x);
                    lemma_holder(fewer, h);
                }
            }
            if x > gone {
                lemma_rank(portals, i, x);
                let k = portals_below(portals, gone).len() as int;
                assert(portals_below(swap_removed(portals, i), row) =~= portals_below(
                    portals,
                    row,
                ).remove(k));
            }
        }
    }
}

/// What is published of a set of portals, or `None` if the chain table is too small.
fn publication(portals: &Vec<PortalRecord>, capacity: u32, locals: &Vec<Vec<[F32; 3]>>) -> (plan:
    Option<(Vec<GpuPortalView>, Vec<GpuPortalChain>)>)
    requires
        rows_differ(portals@),
        pairs_covered(locals@, portals_below(portals@, capacity as int).len() as int),
    ensures
        ({
            let ordered = portals_below(portals@, capacity as int);
            match plan {
                Some((views, chains)) => {
                    &&& chains_fit(portals@, capacity, locals@)
                    &&& views@ == views_of(ordered)
                    &&& chain_list(
                        chains@,
                        portal_chains(openings(ordered, locals@), ordered.len() as int),
                    )
                },
                None => !chains_fit(portals@, capacity, locals@),
            }
        }),
{
    proof {
        lemma_portals_below(portals@, capacity as int);
    }
    let ordered: Vec<PortalRecord> = ordered_portals(portals, capacity);
    let reach: Reachability = reachability(&ordered, locals);
    match build_portal_chains(&reach, ordered.len() as u32) {
        Some(chains) => Some((portal_views(&ordered), chains)),
        None => None,
    }
}

/// `locals` of `n` portals without portal `k`.
fn without_place(locals: &Vec<Vec<[F32; 3]>>, n: usize, k: usize) -> (fewer: Vec<Vec<[F32; 3]>>)
    requires
        pairs_covered(locals@, n as int),
        k < n,
    ensures
        pairs_covered(fewer@, n - 1),
        forall|p: int, q: int|
            0 <= p < n - 1 && 0 <= q < n - 1 ==> #[trigger] fewer@[p]@[q] == locals@[if p < k {
                p
            } else {
                p + 1
            }]@[if q < k {
                q
            } else {
                q + 1
            }],
{
    let mut fewer: Vec<Vec<[F32; 3]>> = Vec::new();
    let mut p: usize = 0;
    while p < n - 1
        invariant
            0 <= p <= n - 1,
            k < n,
            pairs_covered(locals@, n as int),
            fewer@.len() == p,
            forall|i: int| 0 <= i < p ==> (#[trigger] fewer@[i])@.len() == n - 1,
            forall|i: int, j: int|
                0 <= i < p && 0 <= j < n - 1 ==> #[trigger] fewer@[i]@[j] == locals@[if i < k {
                    i
                } else {
                    i + 1
                }]@[if j < k {
                    j
                } else {
                    j + 1
                }],
        decreases n - p,
    {
        let from: usize = if p < k {
            p
        } else {
            p + 1
        };
        assert(locals@[from as int]@.len() >= n);
        let mut row: Vec<[F32; 3]> = Vec::new();
        let mut q: usize = 0;
        while q < n - 1
            invariant
                0 <= q <= n - 1,
                k < n,
                from < locals@.len(),
                locals@[from as int]@.len() >= n,
                row@.len() == q,
                forall|j: int|
                    0 <= j < q ==> #[trigger] row@[j] == locals@[from as int]@[if j < k {
                        j
                    } else {
                        j + 1
                    }],
            decreases n - q,
        {
            let at: usize = if q < k {
                q
            } else {
                q + 1
            };
            row.push(locals[from][at]);
            q = q + 1;
        }
        fewer.push(row);
        p = p + 1;
    }
    fewer
}

/// A copy of the portals with room for changes.
fn copied(portals: &Vec<PortalRecord>) -> (copy: Vec<PortalRecord>)
    ensures
        copy@ == portals@,
{
    let mut copy: Vec<PortalRecord> = Vec::new();
    let mut i: usize = 0;
    while i < portals.len()
        invariant
            0 <= i <= portals@.len(),
            copy@ == portals@.take(i as int),
        decreases portals@.len() - i,
    {
        copy.push(portals[i]);
        i = i + 1;
        assert(copy@ =~= portals@.take(i as int));
    }
    assert(portals@.take(i as int) =~= portals@);
    copy
}

impl Spaces {
    /// `after` is `self` with a fresh portal.
    pub open spec fn portal_added(
        &self,
        after: &Spaces,
        id: PortalId,
        record: PortalRecord,
    ) -> bool {
        &&& *after == (Spaces {
            portals: after.portals,
            history: after.history,
            portal_views: after.portal_views,
            locals: after.locals,
            portal_chains: after.portal_chains,
            ..*self
        })
        &&& after.portals@ == self.portals@.insert(id, record)
        &&& after.portals.id_by_slot@ == self.portals.id_by_slot@.push(id)
        &&& after.portals.value_by_slot@ == self.portals.value_by_slot@.push(record)
        &&& forall|index: u32|
            #[trigger] after.portals.occupies(index) <==> self.portals.occupies(index) || index
                == id.0.index
        &&& after.history.current@ == self.history.current@.update(
            record.row as int,
            record.pair_map_inverse,
        )
        &&& after.history.previous@ == self.history.previous@.update(
            record.row as int,
            record.pair_map_inverse,
        )
    }

    /// Enters a portal in a free row, unless its chains do not fit.
    pub(crate) fn enter_portal(
        &mut self,
        id: PortalId,
        record: PortalRecord,
        locals: Vec<Vec<[F32; 3]>>,
    ) -> (entered: bool)
        requires
            old(self).wf(),
            old(self).live_rows() < old(self).field.capacity,
            old(self).free_row(record.row),
            !old(self).portals.occupies(id.0.index),
            id.0.index < usize::MAX,
            pairs_covered(locals@, old(self).portals.spec_len() as int + 1),
        ensures
            final(self).wf(),
            entered == chains_fit(
                old(self).portals.value_by_slot@.push(record),
                old(self).field.capacity,
                locals@,
            ),
            if entered {
                &&& old(self).portal_added(final(self), id, record)
                &&& final(self).locals == locals
            } else {
                *final(self) == *old(self)
            },
    {
        let ghost before = *self;
        let ghost values = self.portals.value_by_slot@;
        let mut proposed: Vec<PortalRecord> = copied(&self.portals.value_by_slot);
        proposed.push(record);
        let capacity: u32 = self.field.capacity;
        proof {
            assert(!before.owned(record.row as int));
            assert forall|i: int, j: int|
                0 <= i < proposed@.len() && 0 <= j < proposed@.len() && i
                    != j implies #[trigger] proposed@[i].row != #[trigger] proposed@[j].row by {
                if i < values.len() {
                    assert(values[i] == proposed@[i]);
                }
                if j < values.len() {
                    assert(values[j] == proposed@[j]);
                }
            }
            assert forall|i: int| 0 <= i < proposed@.len() implies (#[trigger] proposed@[i]).row
                < capacity by {
                if i < values.len() {
                    assert(values[i] == proposed@[i]);
                }
            }
            lemma_all_ordered(proposed@, capacity as int);
        }
        match publication(&proposed, capacity, &locals) {
            Some((views, chains)) => {
                self.portals.insert(id, record);
                self.history.stage_new(record.row, record.pair_map_inverse);
                self.portal_views = views;
                self.locals = locals;
                self.portal_chains = chains;
                proof {
                    let now = self.portals.value_by_slot@;
                    assert(now =~= proposed@);
                    assert(now[values.len() as int] == record);
                    assert forall|i: int| 0 <= i < values.len() implies #[trigger] now[i]
                        == values[i] && values[i].row != record.row by {}
                    assert forall|i: int| 0 <= i < self.sublevels.spec_len() implies #[trigger] self.sublevels.value_by_slot@[i].row
                        != record.row && !row_taken(
                        now,
                        self.sublevels.value_by_slot@[i].row as int,
                    ) by {
                        let row = self.sublevels.value_by_slot@[i].row as int;
                        assert(before.sublevels.value_by_slot@[i].row == row);
                        if row_taken(now, row) {
                            let j = holder(now, row);
                            assert(now[j].row == row);
                            if j < values.len() {
                                assert(values[j].row == row);
                            }
                        }
                    }
                    assert forall|row: int|
                        0 <= row < self.field.capacity && !self.owned(
                            row,
                        ) implies #[trigger] self.history.current@[row] == identity()
                        && self.history.previous@[row] == identity() by {
                        assert(now[values.len() as int].row == record.row);
                        assert(row != record.row);
                        assert(!before.owned(row)) by {
                            if row_taken(values, row) {
                                let i = holder(values, row);
                                assert(values[i].row == row);
                                assert(now[i].row == row);
                            }
                            assert forall|i: int| 0 <= i
                                < before.sublevels.spec_len() implies #[trigger] before.sublevels.value_by_slot@[i].row
                                != row by {
                                assert(self.sublevels.value_by_slot@[i].row != row);
                            }
                        }
                        assert(before.history.current@[row] == identity());
                    }
                }
                true
            },
            None => {
                assert(proposed@ =~= values.push(record));
                false
            },
        }
    }

    /// `after` is `self` with another record for a live portal, in the same row.
    pub open spec fn portal_changed(
        &self,
        after: &Spaces,
        id: PortalId,
        record: PortalRecord,
    ) -> bool {
        &&& *after == (Spaces {
            portals: after.portals,
            history: after.history,
            portal_views: after.portal_views,
            locals: after.locals,
            portal_chains: after.portal_chains,
            ..*self
        })
        &&& after.portals@ == self.portals@.insert(id, record)
        &&& after.portals.slot_by_entity == self.portals.slot_by_entity
        &&& after.portals.id_by_slot == self.portals.id_by_slot
        &&& after.portals.value_by_slot@ == self.portals.value_by_slot@.update(
            self.portals.place(id),
            record,
        )
        &&& after.history.current@ == self.history.current@.update(
            record.row as int,
            record.pair_map_inverse,
        )
        &&& after.history.previous == self.history.previous
    }

    /// `locals` if they were measured anew, else those at hand.
    pub open spec fn locals_or(&self, locals: Option<Vec<Vec<[F32; 3]>>>) -> Vec<Vec<[F32; 3]>> {
        match locals {
            Some(measured) => measured,
            None => self.locals,
        }
    }

    /// Changes a portal, unless the chains would not fit.
    pub(crate) fn change_portal(
        &mut self,
        id: PortalId,
        record: PortalRecord,
        locals: Option<Vec<Vec<[F32; 3]>>>,
    ) -> (changed: bool)
        requires
            old(self).wf(),
            old(self).portals@.contains_key(id),
            record.row == old(self).portals@[id].row,
            pairs_covered(old(self).locals_or(locals)@, old(self).portals.spec_len() as int),
        ensures
            final(self).wf(),
            changed == chains_fit(
                old(self).portals.value_by_slot@.update(old(self).portals.place(id), record),
                old(self).field.capacity,
                old(self).locals_or(locals)@,
            ),
            if changed {
                &&& old(self).portal_changed(final(self), id, record)
                &&& final(self).locals == old(self).locals_or(locals)
            } else {
                *final(self) == *old(self)
            },
    {
        let ghost before = *self;
        let ghost values = self.portals.value_by_slot@;
        let ghost p = self.portals.place(id);
        proof {
            self.portals.lemma_contains(id);
        }
        let place: usize = match self.portals.slot(id) {
            Some(place) => place,
            None => {
                assert(false);
                0
            },
        };
        let mut proposed: Vec<PortalRecord> = copied(&self.portals.value_by_slot);
        proposed.set(place, record);
        let capacity: u32 = self.field.capacity;
        proof {
            assert(values[p].row == record.row);
            assert forall|i: int| 0 <= i < proposed@.len() implies (#[trigger] proposed@[i]).row
                == values[i].row && proposed@[i].row < capacity by {}
            assert(rows_differ(proposed@)) by {
                assert forall|i: int, j: int|
                    0 <= i < proposed@.len() && 0 <= j < proposed@.len() && i
                        != j implies #[trigger] proposed@[i].row != #[trigger] proposed@[j].row by {
                    assert(values[i].row != values[j].row);
                }
            }
            lemma_all_ordered(proposed@, capacity as int);
        }
        let plan: Option<(Vec<GpuPortalView>, Vec<GpuPortalChain>)> = match &locals {
            Some(measured) => publication(&proposed, capacity, measured),
            None => publication(&proposed, capacity, &self.locals),
        };
        match plan {
            Some((views, chains)) => {
                self.portals.set(id, record);
                self.history.stage_current(record.row, record.pair_map_inverse);
                self.portal_views = views;
                match locals {
                    Some(measured) => {
                        self.locals = measured;
                    },
                    None => {},
                }
                self.portal_chains = chains;
                proof {
                    let now = self.portals.value_by_slot@;
                    assert(now =~= proposed@);
                    assert forall|i: int| 0 <= i < now.len() && i != p implies #[trigger] now[i]
                        == values[i] && now[i].row != record.row by {
                        assert(values[i].row != values[p].row);
                    }
                    assert forall|row: int| row_taken(now, row) == row_taken(values, row) by {
                        if row_taken(now, row) {
                            let i = holder(now, row);
                            assert(now[i].row == row);
                            assert(values[i].row == row);
                        }
                        if row_taken(values, row) {
                            let i = holder(values, row);
                            assert(values[i].row == row);
                            assert(now[i].row == row);
                        }
                    }
                    assert(row_taken(values, record.row as int));
                    assert forall|i: int| 0 <= i < self.sublevels.spec_len() implies #[trigger] self.sublevels.value_by_slot@[i].row
                        != record.row by {
                        assert(!row_taken(values, before.sublevels.value_by_slot@[i].row as int));
                    }
                    assert forall|row: int|
                        0 <= row < self.field.capacity && !self.owned(
                            row,
                        ) implies #[trigger] self.history.current@[row] == identity()
                        && self.history.previous@[row] == identity() by {
                        assert(now[p].row == record.row);
                        assert(!before.owned(row)) by {
                            assert forall|i: int| 0 <= i
                                < before.sublevels.spec_len() implies #[trigger] before.sublevels.value_by_slot@[i].row
                                != row by {
                                assert(self.sublevels.value_by_slot@[i].row != row);
                            }
                        }
                        assert(before.history.current@[row] == identity());
                    }
                }
                true
            },
            None => {
                assert(proposed@ =~= values.update(p, record));
                false
            },
        }
    }

    /// `after` is `self` without the portal; its row is free and the identity.
    pub open spec fn portal_taken(&self, after: &Spaces, id: PortalId) -> bool {
        let row = self.portals@[id].row;
        &&& *after == (Spaces {
            portals: after.portals,
            history: after.history,
            portal_views: after.portal_views,
            locals: after.locals,
            portal_chains: after.portal_chains,
            ..*self
        })
        &&& after.portals@ == self.portals@.remove(id)
        &&& after.portals.id_by_slot@ == swap_removed(
            self.portals.id_by_slot@,
            self.portals.place(id),
        )
        &&& after.portals.value_by_slot@ == swap_removed(
            self.portals.value_by_slot@,
            self.portals.place(id),
        )
        &&& forall|index: u32|
            #[trigger] after.portals.occupies(index) <==> self.portals.occupies(index) && index
                != id.0.index
        &&& after.history.current@ == self.history.current@.update(row as int, identity())
        &&& after.history.previous@ == self.history.previous@.update(row as int, identity())
        &&& after.free_row(row)
    }

    /// Takes a live portal out; the chains of those that stay always fit.
    #[verifier::spinoff_prover]
    #[verifier::rlimit(40)]
    pub(crate) fn take_portal(&mut self, id: PortalId)
        requires
            old(self).wf(),
            old(self).portals@.contains_key(id),
        ensures
            final(self).wf(),
            old(self).portal_taken(final(self), id),
    {
        let ghost before = *self;
        let ghost values = self.portals.value_by_slot@;
        let ghost p = self.portals.place(id);
        proof {
            self.portals.lemma_contains(id);
        }
        let record: PortalRecord = match self.portals.get(id) {
            Some(record) => *record,
            None => {
                assert(false);
                return ;
            },
        };
        assert(record == values[p]);
        let capacity: u32 = self.field.capacity;
        let n: usize = self.portals.len();
        let k: usize = ordered_portals(&self.portals.value_by_slot, record.row).len();
        proof {
            lemma_all_ordered(values, capacity as int);
            lemma_rank(values, p, capacity as int);
        }
        let locals: Vec<Vec<[F32; 3]>> = without_place(&self.locals, n, k);
        self.history.stage_new(record.row, identity_matrix());
        self.portals.remove(id);
        let ghost now = self.portals.value_by_slot@;
        let ghost last = values.len() - 1;
        proof {
            assert forall|i: int| 0 <= i < now.len() implies #[trigger] now[i] == values[if i == p {
                last
            } else {
                i
            }] && now[i].row != record.row && now[i].row < capacity by {}
            assert(rows_differ(now)) by {
                assert forall|i: int, j: int|
                    0 <= i < now.len() && 0 <= j < now.len() && i != j implies #[trigger] now[i].row
                    != #[trigger] now[j].row by {}
            }
            lemma_all_ordered(now, capacity as int);
            lemma_below_removed(values, p, capacity as int);
            let all = portals_below(values, capacity as int);
            let fewer = portals_below(now, capacity as int);
            assert(fewer == all.remove(k as int));
            let leads = openings(all, before.locals@);
            let less = openings(fewer, locals@);
            assert(without_portal(leads, less, n as int, k as int)) by {
                assert forall|a: int, b: int|
                    0 <= a < n - 1 && 0 <= b < n - 1 implies #[trigger] less[a][b] == leads[if a
                    < k {
                    a
                } else {
                    a + 1
                }][if b < k {
                    b
                } else {
                    b + 1
                }] by {
                    assert(fewer[a] == all[if a < k as int {
                        a
                    } else {
                        a + 1
                    }]);
                    assert(locals@[a]@[b] == before.locals@[if a < k {
                        a
                    } else {
                        a + 1
                    }]@[if b < k {
                        b
                    } else {
                        b + 1
                    }]);
                }
            }
            lemma_fewer_portals_fewer_chains(leads, less, n as int, k as int);
        }
        match publication(&self.portals.value_by_slot, capacity, &locals) {
            Some((views, chains)) => {
                self.portal_views = views;
                self.locals = locals;
                self.portal_chains = chains;
            },
            None => {
                assert(false);
            },
        }
        proof {
            assert(row_taken(values, record.row as int));
            assert forall|row: int| row != record.row implies row_taken(now, row) == row_taken(
                values,
                row,
            ) by {
                if row_taken(now, row) {
                    let i = holder(now, row);
                    assert(now[i].row == row);
                    assert(values[if i == p {
                        last
                    } else {
                        i
                    }].row == row);
                }
                if row_taken(values, row) {
                    let i = holder(values, row);
                    assert(values[i].row == row);
                    assert(i != p);
                    if i == last {
                        assert(now[p].row == row);
                    } else {
                        assert(now[i].row == row);
                    }
                }
            }
            assert(!row_taken(now, record.row as int)) by {
                if row_taken(now, record.row as int) {
                    let i = holder(now, record.row as int);
                    assert(now[i].row == record.row);
                }
            }
            assert forall|i: int| 0 <= i < self.sublevels.spec_len() implies #[trigger] self.sublevels.value_by_slot@[i].row
                != record.row by {
                assert(!row_taken(values, before.sublevels.value_by_slot@[i].row as int));
            }
            assert(!self.owned(record.row as int));
            assert forall|row: int|
                0 <= row < self.field.capacity && !self.owned(
                    row,
                ) implies #[trigger] self.history.current@[row] == identity()
                && self.history.previous@[row] == identity() by {
                if row != record.row {
                    assert(!before.owned(row)) by {
                        assert forall|i: int| 0 <= i
                            < before.sublevels.spec_len() implies #[trigger] before.sublevels.value_by_slot@[i].row
                            != row by {
                            assert(self.sublevels.value_by_slot@[i].row != row);
                        }
                    }
                    assert(before.history.current@[row] == identity());
                }
            }
        }
    }
}

impl Spaces {
    /// Whether a row can be given to a sublevel or a portal.
    pub fn is_free_row(&self, row: u32) -> (free: bool)
        requires
            self.wf(),
        ensures
            free == self.free_row(row),
    {
        if row == 0 || row >= self.field.capacity {
            return false;
        }
        let mut i: usize = 0;
        while i < self.portals.value_by_slot.len()
            invariant
                self.wf(),
                0 <= i <= self.portals.value_by_slot@.len(),
                forall|j: int| 0 <= j < i ==> (#[trigger] self.portals.value_by_slot@[j]).row != row,
            decreases self.portals.value_by_slot@.len() - i,
        {
            if self.portals.value_by_slot[i].row == row {
                return false;
            }
            i = i + 1;
        }
        let mut i: usize = 0;
        while i < self.sublevels.value_by_slot.len()
            invariant
                self.wf(),
                0 <= i <= self.sublevels.value_by_slot@.len(),
                forall|j: int|
                    0 <= j < i ==> (#[trigger] self.sublevels.value_by_slot@[j]).row != row,
            decreases self.sublevels.value_by_slot@.len() - i,
        {
            if self.sublevels.value_by_slot[i].row == row {
                return false;
            }
            i = i + 1;
        }
        true
    }

    /// The portals in the order of their rows, with one more among them.
    pub fn portals_with(&self, record: PortalRecord) -> (ordered: Vec<PortalRecord>)
        requires
            self.wf(),
            self.free_row(record.row),
        ensures
            ordered@ == portals_below(
                self.portals.value_by_slot@.push(record),
                self.field.capacity as int,
            ),
    {
        let mut proposed: Vec<PortalRecord> = copied(&self.portals.value_by_slot);
        proposed.push(record);
        proof {
            assert(!self.owned(record.row as int));
        }
        ordered_portals(&proposed, self.field.capacity)
    }

    /// The portals in the order of their rows, with another record for one of them.
    pub fn portals_with_replaced(&self, portal: PortalId, record: PortalRecord) -> (ordered: Vec<
        PortalRecord,
    >)
        requires
            self.wf(),
            self.portals@.contains_key(portal),
            record.row == self.portals@[portal].row,
        ensures
            ordered@ == portals_below(
                self.portals.value_by_slot@.update(self.portals.place(portal), record),
                self.field.capacity as int,
            ),
    {
        let mut proposed: Vec<PortalRecord> = copied(&self.portals.value_by_slot);
        proof {
            self.portals.lemma_contains(portal);
        }
        match self.portals.slot(portal) {
            Some(place) => {
                proposed.set(place, record);
            },
            None => {},
        }
        ordered_portals(&proposed, self.field.capacity)
    }
}

impl Scene {
    /// Creates a portal in a free coordinate row. `locals` says for each pair of the
    /// portals there will be, in row order, where the near surface of the second stands
    /// in the frame of the far surface of the first.
    pub fn add_portal(
        &mut self,
        new: NewRow,
        desc: PortalDescriptor,
        measure: PortalMeasure,
        locals: Vec<Vec<[F32; 3]>>,
    ) -> (result: Result<PortalId>)
        requires
            old(self).wf(),
            old(self).spaces.live_rows() < old(self).spaces.field.capacity ==> old(
                self,
            ).spaces.free_row(new.gpu_row),
            !old(self).spaces.portals.occupies(new.entity.index),
            new.entity.index < usize::MAX,
            pairs_covered(locals@, old(self).spaces.portals.spec_len() as int + 1),
        ensures
            final(self).wf(),
            *final(self) == (Scene { spaces: final(self).spaces, ..*old(self) }),
            ({
                let spaces = old(self).spaces;
                let record = portal_record(desc, measure, new.gpu_row);
                if spaces.live_rows() >= spaces.field.capacity {
                    &&& result == Err::<PortalId, _>(SceneError::CoordinateSpaceCapacityExceeded)
                    &&& *final(self) == *old(self)
                } else if !chains_fit(
                    spaces.portals.value_by_slot@.push(record),
                    spaces.field.capacity,
                    locals@,
                ) {
                    &&& result == Err::<PortalId, _>(SceneError::PortalChainCapacityExceeded)
                    &&& *final(self) == *old(self)
                } else {
                    &&& result == Ok::<_, SceneError>(PortalId(new.entity))
                    &&& spaces.portal_added(&final(self).spaces, PortalId(new.entity), record)
                    &&& final(self).spaces.locals == locals
                }
            }),
    {
        if !self.spaces.has_room() {
            return Err(SceneError::CoordinateSpaceCapacityExceeded);
        }
        let id = PortalId(new.entity);
        let record = PortalRecord {
            a: desc.a,
            b: desc.b,
            half_extent: desc.half_extent,
            a_inverse: measure.a_inverse,
            pair_map_inverse: measure.pair_map_inverse,
            row: new.gpu_row,
        };
        if self.spaces.enter_portal(id, record, locals) {
            Ok(id)
        } else {
            Err(SceneError::PortalChainCapacityExceeded)
        }
    }

    /// `after` is `self` with another record for a portal, or `self` if the portal is not
    /// live or its chains would not fit.
    pub open spec fn portal_updated(
        &self,
        after: &Scene,
        portal: PortalId,
        record: PortalRecord,
        locals: Seq<Vec<[F32; 3]>>,
        result: Result<()>,
    ) -> bool {
        let spaces = self.spaces;
        &&& *after == (Scene { spaces: after.spaces, ..*self })
        &&& if !spaces.portals@.contains_key(portal) {
            &&& result == Err::<(), _>(SceneError::InvalidHandle { resource: "portal" })
            &&& *after == *self
        } else if !chains_fit(
            spaces.portals.value_by_slot@.update(spaces.portals.place(portal), record),
            spaces.field.capacity,
            locals,
        ) {
            &&& result == Err::<(), _>(SceneError::PortalChainCapacityExceeded)
            &&& *after == *self
        } else {
            &&& result == Ok::<(), SceneError>(())
            &&& spaces.portal_changed(&after.spaces, portal, record)
        }
    }

    /// `after` is `self` with a portal elsewhere, where the chains fit.
    pub open spec fn portal_posed(
        &self,
        after: &Scene,
        portal: PortalId,
        a: [F32; 16],
        b: [F32; 16],
        measure: PortalMeasure,
        locals: Vec<Vec<[F32; 3]>>,
        result: Result<()>,
    ) -> bool {
        &&& self.portal_updated(
            after,
            portal,
            (PortalRecord {
                a,
                b,
                a_inverse: measure.a_inverse,
                pair_map_inverse: measure.pair_map_inverse,
                ..self.spaces.portals@[portal]
            }),
            locals@,
            result,
        )
        &&& result is Ok ==> after.spaces.locals == locals
    }

    /// Moves both surfaces of a portal. `locals` is as for [`Scene::add_portal`], with
    /// the portal where it will stand.
    pub fn update_portal_pose(
        &mut self,
        portal: PortalId,
        a: [F32; 16],
        b: [F32; 16],
        measure: PortalMeasure,
        locals: Vec<Vec<[F32; 3]>>,
    ) -> (result: Result<()>)
        requires
            old(self).wf(),
            pairs_covered(locals@, old(self).spaces.portals.spec_len() as int),
        ensures
            final(self).wf(),
            old(self).portal_posed(final(self), portal, a, b, measure, locals, result),
    {
        let record: PortalRecord = match self.spaces.portals.get(portal) {
            Some(record) => *record,
            None => {
                return Err(invalid("portal"));
            },
        };
        let next = PortalRecord {
            a,
            b,
            a_inverse: measure.a_inverse,
            pair_map_inverse: measure.pair_map_inverse,
            ..record
        };
        if self.spaces.change_portal(portal, next, Some(locals)) {
            Ok(())
        } else {
            Err(SceneError::PortalChainCapacityExceeded)
        }
    }

    /// `after` is `self` with another opening for a portal, where the chains fit.
    pub open spec fn portal_resized(
        &self,
        after: &Scene,
        portal: PortalId,
        half_extent: [F32; 2],
        result: Result<()>,
    ) -> bool {
        &&& self.portal_updated(
            after,
            portal,
            (PortalRecord { half_extent, ..self.spaces.portals@[portal] }),
            self.spaces.locals@,
            result,
        )
        &&& result is Ok ==> after.spaces.history.current@ == self.spaces.history.current@
    }

    /// Changes the size of a portal's opening.
    pub fn update_portal_half_extent(&mut self, portal: PortalId, half_extent: [F32; 2]) -> (result:
        Result<()>)
        requires
            old(self).wf(),
        ensures
            final(self).wf(),
            old(self).portal_resized(final(self), portal, half_extent, result),
    {
        let record: PortalRecord = match self.spaces.portals.get(portal) {
            Some(record) => *record,
            None => {
                return Err(invalid("portal"));
            },
        };
        let ghost before = *self;
        proof {
            let values = self.spaces.portals.value_by_slot@;
            lemma_all_ordered(values, self.spaces.field.capacity as int);
            self.spaces.portals.lemma_contains(portal);
            assert(values[self.spaces.portals.place(portal)] == record);
        }
        let next = PortalRecord { half_extent, ..record };
        if self.spaces.change_portal(portal, next, None) {
            assert(self.spaces.history.current@ =~= before.spaces.history.current@);
            Ok(())
        } else {
            Err(SceneError::PortalChainCapacityExceeded)
        }
    }

    /// The poses of a live portal: the near surface's and the far one's.
    pub fn portal_pair(&self, portal: PortalId) -> (pair: Option<([F32; 16], [F32; 16])>)
        requires
            self.wf(),
        ensures
            pair == if self.spaces.portals@.contains_key(portal) {
                Some((self.spaces.portals@[portal].a, self.spaces.portals@[portal].b))
            } else {
                None::<([F32; 16], [F32; 16])>
            },
    {
        match self.spaces.portals.get(portal) {
            Some(record) => Some((record.a, record.b)),
            None => None,
        }
    }

    /// Half the size of a live portal's opening.
    pub fn portal_half_extent(&self, portal: PortalId) -> (half_extent: Option<[F32; 2]>)
        requires
            self.wf(),
        ensures
            half_extent == if self.spaces.portals@.contains_key(portal) {
                Some(self.spaces.portals@[portal].half_extent)
            } else {
                None::<[F32; 2]>
            },
    {
        match self.spaces.portals.get(portal) {
            Some(record) => Some(record.half_extent),
            None => None,
        }
    }

    /// Removes a portal and frees its coordinate row.
    pub fn remove_portal(&mut self, portal: PortalId) -> (result: Result<()>)
        requires
            old(self).wf(),
        ensures
            final(self).wf(),
            *final(self) == (Scene { spaces: final(self).spaces, ..*old(self) }),
            if old(self).spaces.portals@.contains_key(portal) {
                &&& result == Ok::<(), SceneError>(())
                &&& old(self).spaces.portal_taken(&final(self).spaces, portal)
            } else {
                &&& result == Err::<(), _>(SceneError::InvalidHandle { resource: "portal" })
                &&& *final(self) == *old(self)
            },
    {
        if !self.spaces.portals.is_live(portal) {
            return Err(invalid("portal"));
        }
        self.spaces.take_portal(portal);
        Ok(())
    }
}

} // verus!
