//! Stable mesh-output slots for automatically meshed voxel volumes, and the
//! extraction work that is pending for them.
//!
//! Each volume owns one run of output slots for as long as it lives. The exact
//! entity, generation included, is kept as the owner, so that work of a removed
//! volume is never taken for that of a volume which reuses its slots.
use vstd::prelude::*;

use crate::handles::Entity;

verus! {

/// Output slots of the mesh pass.
pub const VOXEL_MESH_OUTPUT_CAPACITY: u32 = 1024;

#[derive(Clone, Copy, Debug, PartialEq, Eq, Structural)]
pub enum VoxelMeshProjectionError {
    AlreadyResident,
    NotResident,
    InvalidBrick,
    CapacityExceeded,
}

/// A run of output slots.
#[derive(Clone, Copy, Debug, PartialEq, Eq, Structural)]
pub struct SlotRegion {
    pub base: u32,
    pub count: u32,
}

impl SlotRegion {
    pub open spec fn end(self) -> int {
        self.base + self.count
    }

    pub open spec fn holds(self, slot: int) -> bool {
        self.base <= slot < self.end()
    }
}

/// The run of output slots that a volume owns.
#[derive(Clone, Copy, Debug, PartialEq, Eq, Structural)]
pub struct Residency {
    pub entity: Entity,
    pub region: SlotRegion,
}

/// One row of extraction work.
#[derive(Clone, Copy, Debug, PartialEq, Eq, Structural)]
pub struct GpuVoxelMeshWork {
    pub volume_row: u32,
    pub local_brick: u32,
    pub flags: u32,
    pub generation: u32,
}

/// The larger of two numbers.
pub open spec fn larger(a: int, b: int) -> int {
    if a < b {
        b
    } else {
        a
    }
}

/// The row of a slot that nobody owns.
pub open spec fn spec_blank_work() -> GpuVoxelMeshWork {
    GpuVoxelMeshWork { volume_row: 0, local_brick: 0, flags: 0, generation: 0 }
}

fn blank_work() -> (row: GpuVoxelMeshWork)
    ensures
        row == spec_blank_work(),
{
    GpuVoxelMeshWork { volume_row: 0, local_brick: 0, flags: 0, generation: 0 }
}

pub struct VoxelMeshProjection {
    /// Flag word of a row whose slot is owned.
    pub allocated_flag: u32,
    pub rows: Vec<GpuVoxelMeshWork>,
    pub owners: Vec<Option<Entity>>,
    pub occupied: Vec<bool>,
    pub dirty: Vec<bool>,
    pub regions: Vec<Residency>,
    pub free_regions: Vec<SlotRegion>,
    pub next_slot: u32,
}

/// `slot` lies in one of the regions.
pub open spec fn in_some(list: Seq<SlotRegion>, slot: int) -> bool {
    exists|i: int| 0 <= i < list.len() && (#[trigger] list[i]).holds(slot)
}

/// `slot` is above the high-water mark or in the free list.
pub open spec fn available(next_slot: u32, list: Seq<SlotRegion>, slot: int) -> bool {
    slot >= next_slot || in_some(list, slot)
}

/// The regions are non-empty, in order, and no two of them touch.
pub open spec fn apart(list: Seq<SlotRegion>) -> bool {
    &&& forall|i: int| 0 <= i < list.len() ==> (#[trigger] list[i]).count > 0
    &&& forall|i: int, j: int|
        0 <= i < j < list.len() ==> (#[trigger] list[i]).end() < (#[trigger] list[j]).base
}

/// `entity` is one of the residents.
pub open spec fn listed(residents: Seq<Residency>, entity: Entity) -> bool {
    exists|i: int| 0 <= i < residents.len() && (#[trigger] residents[i]).entity == entity
}

impl VoxelMeshProjection {
    /// The arrays cover the same slots.
    pub open spec fn arrays_match(&self) -> bool {
        &&& self.owners@.len() == self.rows@.len()
        &&& self.occupied@.len() == self.rows@.len()
        &&& self.dirty@.len() == self.rows@.len()
        &&& self.rows@.len() <= VOXEL_MESH_OUTPUT_CAPACITY
    }

    /// The free list describes the unowned slots below the high-water mark, and
    /// the slot just below the mark is owned.
    pub open spec fn free_list_matches(&self) -> bool {
        &&& apart(self.free_regions@)
        &&& forall|i: int|
            0 <= i < self.free_regions@.len() ==> (#[trigger] self.free_regions@[i]).end()
                < self.next_slot
        &&& forall|slot: int|
            0 <= slot < self.owners@.len() ==> (#[trigger] self.owners@[slot] is None <==> slot
                >= self.next_slot || in_some(self.free_regions@, slot))
    }

    /// The resident volumes are distinct and own exactly the slots of their runs.
    pub open spec fn residents_match(&self) -> bool {
        &&& forall|i: int, j: int|
            0 <= i < j < self.regions@.len() ==> (#[trigger] self.regions@[i]).entity != (
            #[trigger] self.regions@[j]).entity
        &&& forall|i: int|
            0 <= i < self.regions@.len() ==> (#[trigger] self.regions@[i]).region.count > 0
                && self.regions@[i].region.end() <= self.owners@.len()
        &&& forall|i: int, slot: int| #![trigger self.regions@[i], self.owners@[slot]]
            0 <= i < self.regions@.len() && 0 <= slot < self.owners@.len() ==> (
            self.regions@[i].region.holds(slot) <==> self.owners@[slot] == Some(
                self.regions@[i].entity,
            ))
        &&& forall|slot: int|
            0 <= slot < self.owners@.len() && #[trigger] self.owners@[slot] is Some
                ==> listed(self.regions@, self.owners@[slot]->0)
    }

    /// Unowned slots hold nothing to draw.
    pub open spec fn unowned_is_blank(&self) -> bool {
        forall|slot: int|
            0 <= slot < self.owners@.len() && #[trigger] self.owners@[slot] is None
                ==> !self.occupied@[slot] && self.rows@[slot].flags == 0
                && self.rows@[slot].volume_row == 0 && self.rows@[slot].local_brick == 0
    }

    pub open spec fn wf(&self) -> bool {
        &&& self.arrays_match()
        &&& self.next_slot <= self.rows@.len()
        &&& self.free_list_matches()
        &&& self.residents_match()
        &&& self.unowned_is_blank()
    }

    /// `entity` owns a run of slots.
    pub open spec fn resident(&self, entity: Entity) -> bool {
        listed(self.regions@, entity)
    }

    /// The run of slots that a resident volume owns.
    pub open spec fn region_of(&self, entity: Entity) -> SlotRegion {
        let i = choose|i: int|
            0 <= i < self.regions@.len() && (#[trigger] self.regions@[i]).entity == entity;
        self.regions@[i].region
    }

    /// Owner of `slot`, if it has one.
    pub open spec fn owner_at(&self, slot: int) -> Option<Entity> {
        if 0 <= slot < self.owners@.len() {
            self.owners@[slot]
        } else {
            None
        }
    }

    /// Work row of `slot`; blank where none was ever written.
    pub open spec fn work_at(&self, slot: int) -> GpuVoxelMeshWork {
        if 0 <= slot < self.rows@.len() {
            self.rows@[slot]
        } else {
            spec_blank_work()
        }
    }

    /// `slot` holds a mesh to draw.
    pub open spec fn occupied_at(&self, slot: int) -> bool {
        0 <= slot < self.occupied@.len() && self.occupied@[slot]
    }

    /// The work row of `slot` waits to be published.
    pub open spec fn dirty_at(&self, slot: int) -> bool {
        0 <= slot < self.dirty@.len() && self.dirty@[slot]
    }

    /// Nobody owns `slot`.
    pub open spec fn free_slot(&self, slot: int) -> bool {
        self.owner_at(slot) is None
    }

    /// The `count` slots from `base` on are free.
    pub open spec fn fits(&self, base: int, count: int) -> bool {
        &&& 0 <= base
        &&& base + count <= VOXEL_MESH_OUTPUT_CAPACITY
        &&& forall|slot: int| base <= slot < base + count ==> #[trigger] self.free_slot(slot)
    }

    pub fn new(allocated_flag: u32) -> (projection: Self)
        ensures
            projection.wf(),
            projection.allocated_flag == allocated_flag,
            projection.regions@.len() == 0,
            projection.rows@.len() == 0,
            forall|slot: int| 0 <= slot ==> #[trigger] projection.free_slot(slot),
    {
        VoxelMeshProjection {
            allocated_flag,
            rows: Vec::new(),
            owners: Vec::new(),
            occupied: Vec::new(),
            dirty: Vec::new(),
            regions: Vec::new(),
            free_regions: Vec::new(),
            next_slot: 0,
        }
    }

    /// A free run that starts in a free region ends in it.
    proof fn lemma_run_stays_in_region(&self, i: int, base: int, count: int)
        requires
            self.wf(),
            0 <= i < self.free_regions@.len(),
            self.free_regions@[i].holds(base),
            self.fits(base, count),
            count > 0,
        ensures
            base + count <= self.free_regions@[i].end(),
    {
        let end = self.free_regions@[i].end();
        if base + count > end {
            assert(self.free_slot(end));
            assert(self.owners@[end] is None);
            let j = choose|j: int|
                0 <= j < self.free_regions@.len() && (#[trigger] self.free_regions@[j]).holds(end);
            assert(j != i);
        }
    }

    /// A free run lies in one free region or above the high-water mark.
    proof fn lemma_run_place(&self, base: int, count: int) -> (i: int)
        requires
            self.wf(),
            self.fits(base, count),
            count > 0,
        ensures
            base >= self.next_slot || (0 <= i < self.free_regions@.len()
                && self.free_regions@[i].base <= base && base + count
                <= self.free_regions@[i].end()),
    {
        if base < self.next_slot {
            assert(self.free_slot(base));
            assert(self.owners@[base] is None);
            let i = choose|i: int|
                0 <= i < self.free_regions@.len() && (#[trigger] self.free_regions@[i]).holds(base);
            self.lemma_run_stays_in_region(i, base, count);
            i
        } else {
            0
        }
    }

    fn find(&self, entity: Entity) -> (at: Option<usize>)
        requires
            self.residents_match(),
        ensures
            match at {
                Some(i) => self.resident(entity) && i < self.regions@.len()
                    && self.regions@[i as int] == (Residency {
                    entity,
                    region: self.region_of(entity),
                }),
                None => !self.resident(entity),
            },
    {
        let mut i: usize = 0;
        while i < self.regions.len()
            invariant
                0 <= i <= self.regions@.len(),
                self.residents_match(),
                forall|j: int| 0 <= j < i ==> (#[trigger] self.regions@[j]).entity != entity,
            decreases self.regions@.len() - i,
        {
            if self.regions[i].entity == entity {
                proof {
                    assert(self.regions@[i as int].entity == entity);
                    let k = choose|k: int|
                        0 <= k < self.regions@.len() && (#[trigger] self.regions@[k]).entity
                            == entity;
                    assert(k == i);
                }
                return Some(i);
            }
            i = i + 1;
        }
        None
    }
}

impl VoxelMeshProjection {
    /// Takes `count` slots from the lowest free region that is large enough.
    fn take_free_region(&mut self, count: u32) -> (taken: Option<SlotRegion>)
        requires
            apart(old(self).free_regions@),
            forall|i: int|
                0 <= i < old(self).free_regions@.len() ==> (
                #[trigger] old(self).free_regions@[i]).end() < old(self).next_slot,
            count > 0,
        ensures
            *final(self) == (VoxelMeshProjection {
                free_regions: final(self).free_regions,
                ..*old(self)
            }),
            match taken {
                Some(region) => {
                    &&& region.count == count
                    &&& exists|i: int|
                        0 <= i < old(self).free_regions@.len() && (
                        #[trigger] old(self).free_regions@[i]).base == region.base
                            && old(self).free_regions@[i].count >= count && forall|j: int|
                            0 <= j < i ==> (#[trigger] old(self).free_regions@[j]).count < count
                    &&& apart(final(self).free_regions@)
                    &&& forall|i: int|
                        0 <= i < final(self).free_regions@.len() ==> (
                        #[trigger] final(self).free_regions@[i]).end() < old(self).next_slot
                    &&& forall|slot: int| #[trigger]
                        in_some(final(self).free_regions@, slot) <==> in_some(
                            old(self).free_regions@,
                            slot,
                        ) && !region.holds(slot)
                },
                None => {
                    &&& *final(self) == *old(self)
                    &&& forall|i: int|
                        0 <= i < old(self).free_regions@.len() ==> (
                        #[trigger] old(self).free_regions@[i]).count < count
                },
            },
    {
        let ghost before = self.free_regions@;
        let mut i: usize = 0;
        while i < self.free_regions.len()
            invariant
                0 <= i <= self.free_regions@.len(),
                *self == *old(self),
                before == self.free_regions@,
                count > 0,
                apart(before),
                forall|k: int| 0 <= k < before.len() ==> (#[trigger] before[k]).end()
                    < self.next_slot,
                forall|j: int| 0 <= j < i ==> (#[trigger] self.free_regions@[j]).count < count,
            decreases self.free_regions@.len() - i,
        {
            let free: SlotRegion = self.free_regions[i];
            if free.count >= count {
                let taken = SlotRegion { base: free.base, count };
                if free.count == count {
                    self.free_regions.remove(i);
                    proof {
                        let after = self.free_regions@;
                        assert forall|slot: int| #[trigger] in_some(after, slot) <==> in_some(
                            before,
                            slot,
                        ) && !taken.holds(slot) by {
                            if in_some(after, slot) {
                                let k = choose|k: int|
                                    0 <= k < after.len() && (#[trigger] after[k]).holds(slot);
                                let source = if k < i { k } else { k + 1 };
                                assert(before[source].holds(slot));
                                assert(before[i as int] == free);
                            }
                            if in_some(before, slot) && !taken.holds(slot) {
                                let k = choose|k: int|
                                    0 <= k < before.len() && (#[trigger] before[k]).holds(slot);
                                let target = if k < i { k } else { k - 1 };
                                assert(after[target].holds(slot));
                            }
                        }
                    }
                } else {
                    let rest = SlotRegion { base: free.base + count, count: free.count - count };
                    self.free_regions.set(i, rest);
                    proof {
                        let after = self.free_regions@;
                        assert(before[i as int] == free);
                        assert forall|slot: int| #[trigger] in_some(after, slot) <==> in_some(
                            before,
                            slot,
                        ) && !taken.holds(slot) by {
                            if in_some(after, slot) {
                                let k = choose|k: int|
                                    0 <= k < after.len() && (#[trigger] after[k]).holds(slot);
                                assert(before[k].holds(slot));
                            }
                            if in_some(before, slot) && !taken.holds(slot) {
                                let k = choose|k: int|
                                    0 <= k < before.len() && (#[trigger] before[k]).holds(slot);
                                assert(after[k].holds(slot));
                            }
                        }
                    }
                }
                return Some(taken);
            }
            i = i + 1;
        }
        None
    }

    /// Grows the arrays to `end` slots, the new ones unowned.
    fn grow(&mut self, end: u32)
        requires
            old(self).arrays_match(),
            end <= VOXEL_MESH_OUTPUT_CAPACITY,
        ensures
            *final(self) == (VoxelMeshProjection {
                rows: final(self).rows,
                owners: final(self).owners,
                occupied: final(self).occupied,
                dirty: final(self).dirty,
                ..*old(self)
            }),
            final(self).arrays_match(),
            final(self).rows@.len() == larger(old(self).rows@.len() as int, end as int),
            forall|slot: int| #[trigger] final(self).work_at(slot) == old(self).work_at(slot),
            forall|slot: int| #[trigger] final(self).owner_at(slot) == old(self).owner_at(slot),
            forall|slot: int|
                #[trigger] final(self).occupied_at(slot) == old(self).occupied_at(slot),
            forall|slot: int| #[trigger] final(self).dirty_at(slot) == old(self).dirty_at(slot),
    {
        while self.rows.len() < end as usize
            invariant
                self.arrays_match(),
                end <= VOXEL_MESH_OUTPUT_CAPACITY,
                *self == (VoxelMeshProjection {
                    rows: self.rows,
                    owners: self.owners,
                    occupied: self.occupied,
                    dirty: self.dirty,
                    ..*old(self)
                }),
                old(self).rows@.len() <= self.rows@.len(),
                self.rows@.len() <= larger(old(self).rows@.len() as int, end as int),
                forall|slot: int| #[trigger] self.work_at(slot) == old(self).work_at(slot),
                forall|slot: int| #[trigger] self.owner_at(slot) == old(self).owner_at(slot),
                forall|slot: int| #[trigger] self.occupied_at(slot) == old(self).occupied_at(slot),
                forall|slot: int| #[trigger] self.dirty_at(slot) == old(self).dirty_at(slot),
            decreases end - self.rows@.len(),
        {
            let ghost before = *self;
            self.rows.push(blank_work());
            self.owners.push(None);
            self.occupied.push(false);
            self.dirty.push(false);
            proof {
                assert forall|slot: int| #[trigger] self.work_at(slot) == old(self).work_at(
                    slot,
                ) by {
                    assert(before.work_at(slot) == old(self).work_at(slot));
                }
                assert forall|slot: int| #[trigger] self.owner_at(slot) == old(self).owner_at(
                    slot,
                ) by {
                    assert(before.owner_at(slot) == old(self).owner_at(slot));
                }
                assert forall|slot: int| #[trigger] self.occupied_at(slot) == old(
                    self,
                ).occupied_at(slot) by {
                    assert(before.occupied_at(slot) == old(self).occupied_at(slot));
                }
                assert forall|slot: int| #[trigger] self.dirty_at(slot) == old(self).dirty_at(
                    slot,
                ) by {
                    assert(before.dirty_at(slot) == old(self).dirty_at(slot));
                }
            }
        }
    }

    /// Work row of an owned slot before anything was extracted into it.
    pub open spec fn fresh_work(
        &self,
        region: SlotRegion,
        volume_row: u32,
        slot: int,
    ) -> GpuVoxelMeshWork {
        GpuVoxelMeshWork {
            volume_row,
            local_brick: (slot - region.base) as u32,
            flags: self.allocated_flag,
            generation: 0,
        }
    }

    /// Hands the slots of `region` to `owner` with fresh work, or takes them back.
    fn assign(&mut self, region: SlotRegion, owner: Option<Entity>, volume_row: u32)
        requires
            old(self).arrays_match(),
            region.end() <= old(self).rows@.len(),
        ensures
            *final(self) == (VoxelMeshProjection {
                rows: final(self).rows,
                owners: final(self).owners,
                occupied: final(self).occupied,
                dirty: final(self).dirty,
                ..*old(self)
            }),
            final(self).arrays_match(),
            final(self).rows@.len() == old(self).rows@.len(),
            forall|slot: int| #[trigger]
                final(self).work_at(slot) == if !region.holds(slot) {
                    old(self).work_at(slot)
                } else if owner is Some {
                    old(self).fresh_work(region, volume_row, slot)
                } else {
                    spec_blank_work()
                },
            forall|slot: int| #[trigger]
                final(self).owner_at(slot) == if region.holds(slot) {
                    owner
                } else {
                    old(self).owner_at(slot)
                },
            forall|slot: int| #[trigger]
                final(self).occupied_at(slot) == (!region.holds(slot) && old(self).occupied_at(
                    slot,
                )),
            forall|slot: int| #[trigger]
                final(self).dirty_at(slot) == (region.holds(slot) || old(self).dirty_at(slot)),
    {
        let ghost len = self.rows@.len();
        let ghost start = *self;
        let mut local_brick: u32 = 0;
        while local_brick < region.count
            invariant
                0 <= local_brick <= region.count,
                self.arrays_match(),
                start == *old(self),
                start.arrays_match(),
                region.end() <= len,
                self.rows@.len() == len,
                start.rows@.len() == len,
                *self == (VoxelMeshProjection {
                    rows: self.rows,
                    owners: self.owners,
                    occupied: self.occupied,
                    dirty: self.dirty,
                    ..start
                }),
                self.rows@ =~= Seq::new(
                    len,
                    |slot: int|
                        if !(region.base <= slot < region.base + local_brick) {
                            start.rows@[slot]
                        } else if owner is Some {
                            start.fresh_work(region, volume_row, slot)
                        } else {
                            spec_blank_work()
                        },
                ),
                self.owners@ =~= Seq::new(
                    len,
                    |slot: int|
                        if region.base <= slot < region.base + local_brick {
                            owner
                        } else {
                            start.owners@[slot]
                        },
                ),
                self.occupied@ =~= Seq::new(
                    len,
                    |slot: int|
                        !(region.base <= slot < region.base + local_brick)
                            && start.occupied@[slot],
                ),
                self.dirty@ =~= Seq::new(
                    len,
                    |slot: int|
                        region.base <= slot < region.base + local_brick || start.dirty@[slot],
                ),
            decreases region.count - local_brick,
        {
            let slot: usize = (region.base + local_brick) as usize;
            self.owners.set(slot, owner);
            self.occupied.set(slot, false);
            let row = if owner.is_some() {
                GpuVoxelMeshWork {
                    volume_row,
                    local_brick,
                    flags: self.allocated_flag,
                    generation: 0,
                }
            } else {
                blank_work()
            };
            self.rows.set(slot, row);
            self.dirty.set(slot, true);
            local_brick = local_brick + 1;
        }
    }

    /// Gives `entity` the lowest run of `brick_count` free slots and queues fresh
    /// work for each of them. Returns the first slot of the run.
    pub fn allocate(&mut self, entity: Entity, brick_count: u32, volume_row: u32) -> (base: Result<
        u32,
        VoxelMeshProjectionError,
    >)
        requires
            old(self).wf(),
        ensures
            final(self).wf(),
            final(self).allocated_flag == old(self).allocated_flag,
            base is Err ==> *final(self) == *old(self),
            base == Err::<u32, _>(VoxelMeshProjectionError::AlreadyResident) <==> old(
                self,
            ).resident(entity),
            base == Err::<u32, _>(VoxelMeshProjectionError::CapacityExceeded) <==> !old(
                self,
            ).resident(entity) && (brick_count == 0 || forall|b: int|
                !#[trigger] old(self).fits(b, brick_count as int)),
            match base {
                Ok(b) => {
                    let region = SlotRegion { base: b, count: brick_count };
                    &&& old(self).fits(b as int, brick_count as int)
                    &&& forall|lower: int|
                        0 <= lower < b ==> !#[trigger] old(self).fits(lower, brick_count as int)
                    &&& final(self).regions@ == old(self).regions@.push(
                        Residency { entity, region },
                    )
                    &&& final(self).rows@.len() == larger(
                        old(self).rows@.len() as int,
                        region.end(),
                    )
                    &&& forall|slot: int| #[trigger]
                        final(self).owner_at(slot) == if region.holds(slot) {
                            Some(entity)
                        } else {
                            old(self).owner_at(slot)
                        }
                    &&& forall|slot: int| #[trigger]
                        final(self).work_at(slot) == if region.holds(slot) {
                            old(self).fresh_work(region, volume_row, slot)
                        } else {
                            old(self).work_at(slot)
                        }
                    &&& forall|slot: int| #[trigger]
                        final(self).occupied_at(slot) == (!region.holds(slot) && old(
                            self,
                        ).occupied_at(slot))
                    &&& forall|slot: int| #[trigger]
                        final(self).dirty_at(slot) == (region.holds(slot) || old(self).dirty_at(
                            slot,
                        ))
                },
                Err(e) => e is AlreadyResident || e is CapacityExceeded,
            },
    {
        let ghost before = *self;
        if self.find(entity).is_some() {
            return Err(VoxelMeshProjectionError::AlreadyResident);
        }
        if brick_count == 0 || brick_count > VOXEL_MESH_OUTPUT_CAPACITY {
            return Err(VoxelMeshProjectionError::CapacityExceeded);
        }
        let region = match self.take_free_region(brick_count) {
            Some(region) => {
                proof {
                    let i = choose|i: int|
                        0 <= i < before.free_regions@.len() && (
                        #[trigger] before.free_regions@[i]).base == region.base
                            && before.free_regions@[i].count >= brick_count && forall|j: int|
                            0 <= j < i ==> (#[trigger] before.free_regions@[j]).count
                                < brick_count;
                    assert forall|slot: int|
                        region.base <= slot < region.base + brick_count implies #[trigger]
                    before.free_slot(slot) by {
                        assert(before.free_regions@[i].holds(slot));
                        assert(in_some(before.free_regions@, slot));
                        assert(before.owners@[slot] is None);
                    }
                    assert forall|lower: int| 0 <= lower < region.base implies !#[trigger]
                    before.fits(lower, brick_count as int) by {
                        if before.fits(lower, brick_count as int) {
                            let k = before.lemma_run_place(lower, brick_count as int);
                            assert(k <= i);
                        }
                    }
                }
                region
            },
            None => {
                proof {
                    assert forall|lower: int| 0 <= lower < before.next_slot implies !#[trigger]
                    before.fits(lower, brick_count as int) by {
                        if before.fits(lower, brick_count as int) {
                            let k = before.lemma_run_place(lower, brick_count as int);
                            assert(before.free_regions@[k].count < brick_count);
                        }
                    }
                }
                let end: u32 = self.next_slot + brick_count;
                if end > VOXEL_MESH_OUTPUT_CAPACITY {
                    assert(*self == before);
                    return Err(VoxelMeshProjectionError::CapacityExceeded);
                }
                SlotRegion { base: self.next_slot, count: brick_count }
            },
        };
        assert(before.fits(region.base as int, brick_count as int));
        let end: u32 = region.base + region.count;
        let ghost taken = *self;
        self.grow(end);
        let ghost grown = *self;
        self.assign(region, Some(entity), volume_row);
        let ghost assigned = *self;
        if self.next_slot < end {
            self.next_slot = end;
        }
        self.regions.push(Residency { entity, region });
        proof {
            assert forall|slot: int| #[trigger] self.owner_at(slot) == if region.holds(slot) {
                Some(entity)
            } else {
                before.owner_at(slot)
            } by {
                assert(self.owner_at(slot) == assigned.owner_at(slot));
                assert(grown.owner_at(slot) == taken.owner_at(slot));
                assert(taken.owner_at(slot) == before.owner_at(slot));
            }
            assert forall|slot: int| #[trigger] self.work_at(slot) == if region.holds(slot) {
                before.fresh_work(region, volume_row, slot)
            } else {
                before.work_at(slot)
            } by {
                assert(self.work_at(slot) == assigned.work_at(slot));
                assert(grown.work_at(slot) == taken.work_at(slot));
                assert(taken.work_at(slot) == before.work_at(slot));
            }
            assert forall|slot: int| #[trigger] self.occupied_at(slot) == (!region.holds(slot)
                && before.occupied_at(slot)) by {
                assert(self.occupied_at(slot) == assigned.occupied_at(slot));
                assert(grown.occupied_at(slot) == taken.occupied_at(slot));
                assert(taken.occupied_at(slot) == before.occupied_at(slot));
            }
            assert forall|slot: int| #[trigger] self.dirty_at(slot) == (region.holds(slot)
                || before.dirty_at(slot)) by {
                assert(self.dirty_at(slot) == assigned.dirty_at(slot));
                assert(grown.dirty_at(slot) == taken.dirty_at(slot));
                assert(taken.dirty_at(slot) == before.dirty_at(slot));
            }
            before.lemma_allocated(*self, entity, region);
        }
        Ok(region.base)
    }

    proof fn lemma_allocated(self, after: Self, entity: Entity, region: SlotRegion)
        requires
            self.wf(),
            !self.resident(entity),
            region.count > 0,
            self.fits(region.base as int, region.count as int),
            after.arrays_match(),
            after.rows@.len() >= self.rows@.len(),
            region.end() <= after.rows@.len(),
            after.next_slot <= after.rows@.len(),
            after.next_slot == self.next_slot || (region.base == self.next_slot && after.next_slot
                == region.end()),
            self.next_slot <= after.next_slot,
            apart(after.free_regions@),
            forall|i: int|
                0 <= i < after.free_regions@.len() ==> (#[trigger] after.free_regions@[i]).end()
                    < after.next_slot,
            forall|slot: int| #[trigger]
                in_some(after.free_regions@, slot) <==> in_some(self.free_regions@, slot)
                    && !region.holds(slot),
            after.next_slot == self.next_slot ==> region.end() <= self.next_slot,
            after.regions@ == self.regions@.push(Residency { entity, region }),
            forall|slot: int| #[trigger]
                after.owner_at(slot) == if region.holds(slot) {
                    Some(entity)
                } else {
                    self.owner_at(slot)
                },
            forall|slot: int| !region.holds(slot) ==> #[trigger] after.work_at(slot)
                == self.work_at(slot),
            forall|slot: int| !region.holds(slot) ==> #[trigger] after.occupied_at(slot)
                == self.occupied_at(slot),
        ensures
            after.wf(),
    {
        assert forall|slot: int| 0 <= slot < after.owners@.len() implies #[trigger]
        after.owners@[slot] == (if region.holds(slot) {
            Some(entity)
        } else {
            self.owner_at(slot)
        }) by {
            assert(after.owner_at(slot) == after.owners@[slot]);
        }
        assert forall|slot: int| 0 <= slot < after.owners@.len() implies (
        #[trigger] after.owners@[slot] is None <==> slot >= after.next_slot || in_some(
            after.free_regions@,
            slot,
        )) by {
            if region.holds(slot) {
                assert(!in_some(after.free_regions@, slot));
            } else {
                assert(in_some(after.free_regions@, slot) <==> in_some(self.free_regions@, slot));
                if slot < self.owners@.len() {
                    assert(self.owners@[slot] == self.owner_at(slot));
                } else {
                    assert(!in_some(self.free_regions@, slot) || slot < self.next_slot);
                }
            }
        }
        assert forall|i: int, slot: int| #![trigger after.regions@[i], after.owners@[slot]]
            0 <= i < after.regions@.len() && 0 <= slot < after.owners@.len() implies (
        after.regions@[i].region.holds(slot) <==> after.owners@[slot] == Some(
            after.regions@[i].entity,
        )) by {
            if i < self.regions@.len() {
                assert(after.regions@[i] == self.regions@[i]);
                assert(self.regions@[i].entity != entity);
                if region.holds(slot) {
                    assert(self.free_slot(slot));
                    if slot < self.owners@.len() {
                        assert(self.owners@[slot] is None);
                    }
                } else if slot < self.owners@.len() {
                    assert(self.owners@[slot] == after.owners@[slot]);
                }
            } else {
                assert(after.regions@[i] == (Residency { entity, region }));
                if !region.holds(slot) && slot < self.owners@.len() {
                    if self.owners@[slot] == Some(entity) {
                        assert(self.resident(entity));
                    }
                }
            }
        }
        assert forall|slot: int|
            0 <= slot < after.owners@.len() && #[trigger] after.owners@[slot] is Some implies
            listed(after.regions@, after.owners@[slot]->0) by {
            if region.holds(slot) {
                assert(after.regions@[self.regions@.len() as int].entity == entity);
            } else {
                assert(self.owners@[slot] is Some);
                let i = choose|i: int|
                    0 <= i < self.regions@.len() && (#[trigger] self.regions@[i]).entity
                        == self.owners@[slot]->0;
                assert(after.regions@[i] == self.regions@[i]);
            }
        }
        assert forall|i: int, j: int| 0 <= i < j < after.regions@.len() implies (
        #[trigger] after.regions@[i]).entity != (#[trigger] after.regions@[j]).entity by {
            assert(after.regions@[i] == self.regions@[i]);
            if j < self.regions@.len() {
                assert(after.regions@[j] == self.regions@[j]);
            } else {
                if self.regions@[i].entity == entity {
                    assert(self.resident(entity));
                }
            }
        }
        assert forall|i: int| 0 <= i < after.regions@.len() implies (
        #[trigger] after.regions@[i]).region.count > 0 && after.regions@[i].region.end()
            <= after.owners@.len() by {
            if i < self.regions@.len() {
                assert(after.regions@[i] == self.regions@[i]);
            }
        }
        assert(after.unowned_is_blank()) by {
            assert forall|slot: int|
                0 <= slot < after.owners@.len() && #[trigger] after.owners@[slot] is None implies
                !after.occupied@[slot] && after.rows@[slot].flags == 0
                && after.rows@[slot].volume_row == 0 && after.rows@[slot].local_brick == 0 by {
                assert(!region.holds(slot));
                assert(after.work_at(slot) == self.work_at(slot));
                assert(after.occupied_at(slot) == self.occupied_at(slot));
                if slot < self.owners@.len() {
                    assert(self.owners@[slot] is None);
                }
            }
        }
    }
}

/// `slot` is in the list built so far or in the region that waits to be placed.
spec fn covered(list: Seq<SlotRegion>, placed: bool, pending: SlotRegion, slot: int) -> bool {
    in_some(list, slot) || (!placed && pending.holds(slot))
}

/// Free list with `region` put in its place and merged with what it touches.
fn merged_with(list: &Vec<SlotRegion>, region: SlotRegion) -> (merged: Vec<SlotRegion>)
    requires
        apart(list@),
        region.count > 0,
        region.end() <= VOXEL_MESH_OUTPUT_CAPACITY,
        forall|i: int| 0 <= i < list@.len() ==> (#[trigger] list@[i]).end()
            <= VOXEL_MESH_OUTPUT_CAPACITY,
        forall|i: int|
            0 <= i < list@.len() ==> (#[trigger] list@[i]).end() <= region.base || region.end()
                <= list@[i].base,
    ensures
        apart(merged@),
        merged@.len() > 0,
        forall|i: int| 0 <= i < merged@.len() ==> (#[trigger] merged@[i]).end()
            <= VOXEL_MESH_OUTPUT_CAPACITY,
        forall|slot: int| #[trigger]
            in_some(merged@, slot) <==> in_some(list@, slot) || region.holds(slot),
{
    let mut merged: Vec<SlotRegion> = Vec::new();
    let mut pending: SlotRegion = region;
    let mut placed: bool = false;
    let mut i: usize = 0;
    while i < list.len()
        invariant
            0 <= i <= list@.len(),
            apart(list@),
            apart(merged@),
            pending.count > 0,
            pending.end() <= VOXEL_MESH_OUTPUT_CAPACITY,
            region.count > 0,
            forall|k: int| 0 <= k < list@.len() ==> (#[trigger] list@[k]).end()
                <= VOXEL_MESH_OUTPUT_CAPACITY,
            forall|k: int| 0 <= k < merged@.len() ==> (#[trigger] merged@[k]).end()
                <= VOXEL_MESH_OUTPUT_CAPACITY,
            !placed ==> forall|k: int|
                0 <= k < merged@.len() ==> (#[trigger] merged@[k]).end() < pending.base,
            forall|k: int, j: int| #![trigger list@[k], merged@[j]]
                i <= k < list@.len() && 0 <= j < merged@.len() ==> merged@[j].end()
                    < list@[k].base,
            !placed ==> forall|k: int|
                i <= k < list@.len() ==> (#[trigger] list@[k]).end() <= pending.base
                    || pending.end() <= list@[k].base,
            placed ==> merged@.len() > 0,
            forall|slot: int| #[trigger]
                covered(merged@, placed, pending, slot) <==> in_some(list@.take(i as int), slot)
                    || region.holds(slot),
        decreases list@.len() - i,
    {
        let entry: SlotRegion = list[i];
        let ghost before = merged@;
        let ghost was = pending;
        let ghost was_placed = placed;
        let ghost seen = list@.take(i as int);
        let ghost now = list@.take(i + 1);
        assert(now =~= seen.push(entry));
        if placed {
            merged.push(entry);
        } else if entry.base + entry.count < pending.base {
            merged.push(entry);
        } else if entry.base + entry.count == pending.base {
            pending = SlotRegion { base: entry.base, count: entry.count + pending.count };
        } else if pending.base + pending.count == entry.base {
            pending = SlotRegion { base: pending.base, count: pending.count + entry.count };
        } else {
            merged.push(pending);
            merged.push(entry);
            placed = true;
        }
        proof {
            assert forall|slot: int| #[trigger] covered(merged@, placed, pending, slot) <==> in_some(
                now,
                slot,
            ) || region.holds(slot) by {
                assert(covered(before, was_placed, was, slot) <==> in_some(seen, slot)
                    || region.holds(slot));
                lemma_in_some_push(seen, entry, slot);
                if was_placed || (entry.base + entry.count < was.base) {
                    lemma_in_some_push(before, entry, slot);
                } else if entry.base + entry.count == was.base || was.base + was.count
                    == entry.base {
                } else {
                    lemma_in_some_push(before, was, slot);
                    lemma_in_some_push(before.push(was), entry, slot);
                }
            }
        }
        i = i + 1;
    }
    let ghost before = merged@;
    assert(list@.take(i as int) =~= list@);
    if !placed {
        merged.push(pending);
    }
    assert forall|slot: int| #[trigger] in_some(merged@, slot) <==> in_some(list@, slot)
        || region.holds(slot) by {
        lemma_in_some_push(before, pending, slot);
        assert(covered(before, placed, pending, slot) <==> in_some(list@, slot) || region.holds(
            slot,
        ));
    }
    merged
}

proof fn lemma_in_some_push(list: Seq<SlotRegion>, last: SlotRegion, slot: int)
    ensures
        in_some(list.push(last), slot) <==> in_some(list, slot) || last.holds(slot),
{
    let all = list.push(last);
    if in_some(list, slot) {
        let i = choose|i: int| 0 <= i < list.len() && (#[trigger] list[i]).holds(slot);
        assert(all[i].holds(slot));
    }
    if last.holds(slot) {
        assert(all[list.len() as int].holds(slot));
    }
    if in_some(all, slot) && !last.holds(slot) {
        let i = choose|i: int| 0 <= i < all.len() && (#[trigger] all[i]).holds(slot);
        assert(list[i].holds(slot));
    }
}

impl VoxelMeshProjection {
    /// Returns the slots of `region` to the free list and lowers the high-water
    /// mark past free slots at the top.
    fn recycle_region(&mut self, region: SlotRegion)
        requires
            apart(old(self).free_regions@),
            old(self).next_slot <= VOXEL_MESH_OUTPUT_CAPACITY,
            region.count > 0,
            region.end() <= old(self).next_slot,
            forall|i: int|
                0 <= i < old(self).free_regions@.len() ==> (
                #[trigger] old(self).free_regions@[i]).end() < old(self).next_slot,
            forall|i: int|
                0 <= i < old(self).free_regions@.len() ==> (
                #[trigger] old(self).free_regions@[i]).end() <= region.base || region.end()
                    <= old(self).free_regions@[i].base,
        ensures
            *final(self) == (VoxelMeshProjection {
                free_regions: final(self).free_regions,
                next_slot: final(self).next_slot,
                ..*old(self)
            }),
            apart(final(self).free_regions@),
            final(self).next_slot <= old(self).next_slot,
            forall|i: int|
                0 <= i < final(self).free_regions@.len() ==> (
                #[trigger] final(self).free_regions@[i]).end() < final(self).next_slot,
            forall|slot: int| #[trigger]
                available(final(self).next_slot, final(self).free_regions@, slot) <==> available(
                    old(self).next_slot,
                    old(self).free_regions@,
                    slot,
                ) || region.holds(slot),
    {
        let merged: Vec<SlotRegion> = merged_with(&self.free_regions, region);
        let ghost all = merged@;
        assert forall|i: int| 0 <= i < all.len() implies (#[trigger] all[i]).end()
            <= self.next_slot by {
            let top = all[i].end() - 1;
            assert(all[i].holds(top));
            assert(in_some(all, top));
            if in_some(self.free_regions@, top) {
                let k = choose|k: int|
                    0 <= k < self.free_regions@.len() && (#[trigger] self.free_regions@[k]).holds(
                        top,
                    );
                assert(self.free_regions@[k].end() < self.next_slot);
            }
        }
        self.free_regions = merged;
        let last: usize = self.free_regions.len() - 1;
        let tail: SlotRegion = self.free_regions[last];
        if tail.base + tail.count == self.next_slot {
            self.free_regions.pop();
            self.next_slot = tail.base;
            proof {
                let rest = self.free_regions@;
                assert(all =~= rest.push(tail));
                assert forall|slot: int| #[trigger] available(self.next_slot, rest, slot)
                    <==> available(old(self).next_slot, old(self).free_regions@, slot)
                    || region.holds(slot) by {
                    lemma_in_some_push(rest, tail, slot);
                    assert(in_some(all, slot) <==> in_some(old(self).free_regions@, slot)
                        || region.holds(slot));
                }
                assert forall|i: int| 0 <= i < rest.len() implies (#[trigger] rest[i]).end()
                    < self.next_slot by {
                    assert(all[i] == rest[i]);
                    assert(all[last as int] == tail);
                }
            }
        } else {
            proof {
                assert forall|i: int| 0 <= i < all.len() implies (#[trigger] all[i]).end()
                    < self.next_slot by {
                    if i < last {
                        assert(all[i].end() < all[last as int].base);
                    }
                }
                assert forall|slot: int| #[trigger] available(self.next_slot, all, slot)
                    <==> available(old(self).next_slot, old(self).free_regions@, slot)
                    || region.holds(slot) by {
                    assert(in_some(all, slot) <==> in_some(old(self).free_regions@, slot)
                        || region.holds(slot));
                }
            }
        }
    }

    /// Takes a volume's slots back and queues the clearing of each of them.
    /// Returns the first slot of its run.
    pub fn release(&mut self, entity: Entity) -> (base: Result<u32, VoxelMeshProjectionError>)
        requires
            old(self).wf(),
        ensures
            final(self).wf(),
            final(self).allocated_flag == old(self).allocated_flag,
            final(self).rows@.len() == old(self).rows@.len(),
            match base {
                Ok(b) => {
                    let region = old(self).region_of(entity);
                    &&& old(self).resident(entity)
                    &&& b == region.base
                    &&& exists|i: int|
                        0 <= i < old(self).regions@.len() && #[trigger] old(self).regions@[i] == (
                        Residency { entity, region }) && final(self).regions@
                            == old(self).regions@.remove(i)
                    &&& forall|slot: int| #[trigger]
                        final(self).owner_at(slot) == if region.holds(slot) {
                            None
                        } else {
                            old(self).owner_at(slot)
                        }
                    &&& forall|slot: int| #[trigger]
                        final(self).work_at(slot) == if region.holds(slot) {
                            spec_blank_work()
                        } else {
                            old(self).work_at(slot)
                        }
                    &&& forall|slot: int| #[trigger]
                        final(self).occupied_at(slot) == (!region.holds(slot) && old(
                            self,
                        ).occupied_at(slot))
                    &&& forall|slot: int| #[trigger]
                        final(self).dirty_at(slot) == (region.holds(slot) || old(self).dirty_at(
                            slot,
                        ))
                },
                Err(e) => e is NotResident && !old(self).resident(entity) && *final(self) == *old(
                    self,
                ),
            },
    {
        let ghost before = *self;
        let i: usize = match self.find(entity) {
            Some(i) => i,
            None => {
                return Err(VoxelMeshProjectionError::NotResident);
            },
        };
        let region: SlotRegion = self.regions[i].region;
        self.regions.remove(i);
        let ghost unlisted = *self;
        proof {
            before.lemma_region_below_mark(i as int);
        }
        self.assign(region, None, 0);
        let ghost assigned = *self;
        self.recycle_region(region);
        proof {
            assert forall|slot: int| #[trigger] self.owner_at(slot) == if region.holds(slot) {
                None
            } else {
                before.owner_at(slot)
            } by {
                assert(self.owner_at(slot) == assigned.owner_at(slot));
                assert(unlisted.owner_at(slot) == before.owner_at(slot));
            }
            assert forall|slot: int| #[trigger] self.work_at(slot) == if region.holds(slot) {
                spec_blank_work()
            } else {
                before.work_at(slot)
            } by {
                assert(self.work_at(slot) == assigned.work_at(slot));
                assert(unlisted.work_at(slot) == before.work_at(slot));
            }
            assert forall|slot: int| #[trigger] self.occupied_at(slot) == (!region.holds(slot)
                && before.occupied_at(slot)) by {
                assert(self.occupied_at(slot) == assigned.occupied_at(slot));
                assert(unlisted.occupied_at(slot) == before.occupied_at(slot));
            }
            assert forall|slot: int| #[trigger] self.dirty_at(slot) == (region.holds(slot)
                || before.dirty_at(slot)) by {
                assert(self.dirty_at(slot) == assigned.dirty_at(slot));
                assert(unlisted.dirty_at(slot) == before.dirty_at(slot));
            }
            before.lemma_released(*self, i as int);
        }
        Ok(region.base)
    }

    /// A resident's run lies below the high-water mark and apart from the free list.
    proof fn lemma_region_below_mark(&self, i: int)
        requires
            self.wf(),
            0 <= i < self.regions@.len(),
        ensures
            self.regions@[i].region.end() <= self.next_slot,
            forall|k: int|
                0 <= k < self.free_regions@.len() ==> (#[trigger] self.free_regions@[k]).end()
                    <= self.regions@[i].region.base || self.regions@[i].region.end()
                    <= self.free_regions@[k].base,
    {
        let region = self.regions@[i].region;
        let top = region.end() - 1;
        assert(region.holds(top));
        assert(self.owners@[top] is Some);
        assert forall|k: int| 0 <= k < self.free_regions@.len() implies (
        #[trigger] self.free_regions@[k]).end() <= region.base || region.end()
            <= self.free_regions@[k].base by {
            let free = self.free_regions@[k];
            let shared = if free.base >= region.base {
                free.base as int
            } else {
                region.base as int
            };
            if free.holds(shared) && region.holds(shared) {
                assert(self.owners@[shared] is Some);
                assert(in_some(self.free_regions@, shared));
            }
        }
    }

    proof fn lemma_released(self, after: Self, i: int)
        requires
            self.wf(),
            0 <= i < self.regions@.len(),
            after.arrays_match(),
            after.rows@.len() == self.rows@.len(),
            after.next_slot <= self.next_slot,
            apart(after.free_regions@),
            forall|k: int|
                0 <= k < after.free_regions@.len() ==> (#[trigger] after.free_regions@[k]).end()
                    < after.next_slot,
            forall|slot: int| #[trigger]
                available(after.next_slot, after.free_regions@, slot) <==> available(
                    self.next_slot,
                    self.free_regions@,
                    slot,
                ) || self.regions@[i].region.holds(slot),
            after.regions@ == self.regions@.remove(i),
            forall|slot: int| #[trigger]
                after.owner_at(slot) == if self.regions@[i].region.holds(slot) {
                    None
                } else {
                    self.owner_at(slot)
                },
            forall|slot: int| #[trigger]
                after.work_at(slot) == if self.regions@[i].region.holds(slot) {
                    spec_blank_work()
                } else {
                    self.work_at(slot)
                },
            forall|slot: int| #[trigger]
                after.occupied_at(slot) == (!self.regions@[i].region.holds(slot)
                    && self.occupied_at(slot)),
        ensures
            after.wf(),
    {
        let region = self.regions@[i].region;
        let entity = self.regions@[i].entity;
        assert forall|slot: int| 0 <= slot < after.owners@.len() implies #[trigger]
        after.owners@[slot] == (if region.holds(slot) {
            None
        } else {
            self.owners@[slot]
        }) by {
            assert(after.owner_at(slot) == after.owners@[slot]);
        }
        assert forall|slot: int| 0 <= slot < after.owners@.len() implies (
        #[trigger] after.owners@[slot] is None <==> slot >= after.next_slot || in_some(
            after.free_regions@,
            slot,
        )) by {
            assert(self.owners@[slot] is None <==> available(
                self.next_slot,
                self.free_regions@,
                slot,
            ));
            assert(available(after.next_slot, after.free_regions@, slot) <==> available(
                self.next_slot,
                self.free_regions@,
                slot,
            ) || region.holds(slot));
        }
        assert forall|k: int| 0 <= k < after.regions@.len() implies (
        #[trigger] after.regions@[k]) == self.regions@[if k < i { k } else { k + 1 }] by {}
        assert forall|k: int, slot: int| #![trigger after.regions@[k], after.owners@[slot]]
            0 <= k < after.regions@.len() && 0 <= slot < after.owners@.len() implies (
        after.regions@[k].region.holds(slot) <==> after.owners@[slot] == Some(
            after.regions@[k].entity,
        )) by {
            let source = if k < i { k } else { k + 1 };
            assert(after.regions@[k] == self.regions@[source]);
            assert(self.owners@[slot] == Some(entity) <==> region.holds(slot));
            assert(self.regions@[source].entity != entity);
        }
        assert forall|slot: int|
            0 <= slot < after.owners@.len() && #[trigger] after.owners@[slot] is Some implies
            listed(after.regions@, after.owners@[slot]->0) by {
            assert(self.owners@[slot] is Some);
            let k = choose|k: int|
                0 <= k < self.regions@.len() && (#[trigger] self.regions@[k]).entity
                    == self.owners@[slot]->0;
            assert(k != i) by {
                if k == i {
                    assert(region.holds(slot));
                }
            }
            let target = if k < i { k } else { k - 1 };
            assert(after.regions@[target] == self.regions@[k]);
        }
        assert(after.unowned_is_blank()) by {
            assert forall|slot: int|
                0 <= slot < after.owners@.len() && #[trigger] after.owners@[slot] is None implies
                !after.occupied@[slot] && after.rows@[slot].flags == 0
                && after.rows@[slot].volume_row == 0 && after.rows@[slot].local_brick == 0 by {
                assert(after.work_at(slot) == after.rows@[slot]);
                assert(after.occupied_at(slot) == after.occupied@[slot]);
                if !region.holds(slot) {
                    assert(self.owners@[slot] is None);
                }
            }
        }
    }
}

/// Brick coordinates of the `a`-th brick of a grid of `dim` bricks along each axis.
pub open spec fn brick_x(dim: int, a: int) -> int {
    a % dim
}

pub open spec fn brick_y(dim: int, a: int) -> int {
    (a / dim) % dim
}

pub open spec fn brick_z(dim: int, a: int) -> int {
    a / (dim * dim)
}

/// Two coordinates are at most one brick apart.
pub open spec fn adjacent(a: int, b: int) -> bool {
    -1 <= a - b <= 1
}

/// `b` is a brick of the grid that touches brick `a`, or is `a` itself: its halo
/// samples reach into `a`.
pub open spec fn in_halo(dim: int, a: int, b: int) -> bool {
    &&& adjacent(brick_x(dim, a), brick_x(dim, b))
    &&& adjacent(brick_y(dim, a), brick_y(dim, b))
    &&& adjacent(brick_z(dim, a), brick_z(dim, b))
    &&& brick_z(dim, b) < dim
}

/// The brick at (x, y, z).
spec fn brick_at(dim: int, x: int, y: int, z: int) -> int {
    z * (dim * dim) + y * dim + x
}

proof fn lemma_brick_at(dim: int, x: int, y: int, z: int)
    requires
        0 <= x < dim,
        0 <= y < dim,
        0 <= z,
    ensures
        brick_x(dim, brick_at(dim, x, y, z)) == x,
        brick_y(dim, brick_at(dim, x, y, z)) == y,
        brick_z(dim, brick_at(dim, x, y, z)) == z,
        0 <= brick_at(dim, x, y, z),
{
    let a = brick_at(dim, x, y, z);
    let q = z * dim + y;
    assert(a == q * dim + x) by (nonlinear_arith)
        requires
            a == z * (dim * dim) + y * dim + x,
            q == z * dim + y,
    ;
    vstd::arithmetic::div_mod::lemma_fundamental_div_mod_converse(a, dim, q, x);
    vstd::arithmetic::div_mod::lemma_fundamental_div_mod_converse(q, dim, z, y);
    assert(dim * dim > 0 && 0 <= a && y * dim + x < dim * dim && 0 <= y * dim + x)
        by (nonlinear_arith)
        requires
            0 <= x < dim,
            0 <= y < dim,
            0 <= z,
            a == z * (dim * dim) + y * dim + x,
    ;
    vstd::arithmetic::div_mod::lemma_fundamental_div_mod_converse(
        a,
        dim * dim,
        z,
        y * dim + x,
    );
}

proof fn lemma_brick_parts(dim: int, a: int)
    requires
        dim > 0,
        a >= 0,
    ensures
        0 <= brick_x(dim, a) < dim,
        0 <= brick_y(dim, a) < dim,
        0 <= brick_z(dim, a),
        a == brick_at(dim, brick_x(dim, a), brick_y(dim, a), brick_z(dim, a)),
{
    let q = a / dim;
    vstd::arithmetic::div_mod::lemma_fundamental_div_mod(a, dim);
    vstd::arithmetic::div_mod::lemma_fundamental_div_mod(q, dim);
    vstd::arithmetic::div_mod::lemma_div_denominator(a, dim, dim);
    vstd::arithmetic::div_mod::lemma_div_pos_is_pos(a, dim);
    vstd::arithmetic::div_mod::lemma_div_pos_is_pos(q, dim);
    let x = brick_x(dim, a);
    let y = brick_y(dim, a);
    let z = brick_z(dim, a);
    assert(a == z * (dim * dim) + y * dim + x) by (nonlinear_arith)
        requires
            a == dim * q + x,
            q == dim * z + y,
    ;
}

/// Coordinate reached from `a` by the `k`-th of three steps: back, none, forward.
spec fn stepped(a: int, k: int) -> int {
    a + k - 1
}

/// The `k`-th of the 27 neighbours of brick `a`, itself included.
spec fn neighbour(dim: int, a: int, k: int) -> (int, int, int) {
    (
        stepped(brick_x(dim, a), k % 3),
        stepped(brick_y(dim, a), (k / 3) % 3),
        stepped(brick_z(dim, a), k / 9),
    )
}

/// The `k`-th neighbour of brick `a` lies in the grid and is brick `b`.
spec fn reaches_brick(dim: int, a: int, k: int, b: int) -> bool {
    let (x, y, z) = neighbour(dim, a, k);
    0 <= x < dim && 0 <= y < dim && 0 <= z < dim && b == brick_at(dim, x, y, z)
}

proof fn lemma_halo(dim: int, a: int, b: int)
    requires
        dim > 0,
        a >= 0,
        b >= 0,
    ensures
        in_halo(dim, a, b) <==> exists|k: int| 0 <= k < 27 && #[trigger] reaches_brick(dim, a, k, b),
{
    lemma_brick_parts(dim, a);
    lemma_brick_parts(dim, b);
    if in_halo(dim, a, b) {
        let kx = brick_x(dim, b) - brick_x(dim, a) + 1;
        let ky = brick_y(dim, b) - brick_y(dim, a) + 1;
        let kz = brick_z(dim, b) - brick_z(dim, a) + 1;
        let k = kz * 9 + ky * 3 + kx;
        assert(k % 3 == kx && (k / 3) % 3 == ky && k / 9 == kz);
        assert(reaches_brick(dim, a, k, b));
    }
    if exists|k: int| 0 <= k < 27 && #[trigger] reaches_brick(dim, a, k, b) {
        let k = choose|k: int| 0 <= k < 27 && #[trigger] reaches_brick(dim, a, k, b);
        let (x, y, z) = neighbour(dim, a, k);
        lemma_brick_at(dim, x, y, z);
    }
}

impl VoxelMeshProjection {
    /// Queues every brick of `region` whose halo reaches into `local_brick`.
    fn mark_halo(&mut self, region: SlotRegion, local_brick: u32, dim: u32)
        requires
            old(self).arrays_match(),
            region.end() <= old(self).rows@.len(),
            local_brick < region.count,
            0 < dim <= 65535,
        ensures
            *final(self) == (VoxelMeshProjection { dirty: final(self).dirty, ..*old(self) }),
            final(self).arrays_match(),
            forall|slot: int| #[trigger]
                final(self).dirty_at(slot) == (old(self).dirty_at(slot) || (region.holds(slot)
                    && in_halo(dim as int, local_brick as int, slot - region.base))),
    {
        let ghost start = *self;
        let ghost d = dim as int;
        let ghost a = local_brick as int;
        proof {
            assert(0 < dim * dim <= 65535 * 65535) by (nonlinear_arith)
                requires
                    0 < dim <= 65535,
            ;
            lemma_brick_parts(d, a);
            assert(brick_x(d, a) <= a && brick_y(d, a) <= a && brick_z(d, a) <= a)
                by (nonlinear_arith)
                requires
                    a == brick_z(d, a) * (d * d) + brick_y(d, a) * d + brick_x(d, a),
                    0 <= brick_x(d, a),
                    0 <= brick_y(d, a),
                    0 <= brick_z(d, a),
                    d >= 1,
            ;
        }
        let plane: u32 = dim * dim;
        let z: u32 = local_brick / plane;
        let y: u32 = (local_brick / dim) % dim;
        let x: u32 = local_brick % dim;
        let mut k: u32 = 0;
        while k < 27
            invariant
                0 <= k <= 27,
                start == *old(self),
                *self == (VoxelMeshProjection { dirty: self.dirty, ..start }),
                self.arrays_match(),
                start.arrays_match(),
                region.end() <= self.rows@.len(),
                local_brick < region.count,
                region.count <= VOXEL_MESH_OUTPUT_CAPACITY,
                0 < dim <= 65535,
                plane == dim * dim,
                d == dim,
                a == local_brick,
                x == brick_x(d, a),
                y == brick_y(d, a),
                z == brick_z(d, a),
                x <= a,
                y <= a,
                z <= a,
                x < dim,
                y < dim,
                a == z * (d * d) + y * d + x,
                forall|slot: int| #[trigger]
                    self.dirty_at(slot) == (start.dirty_at(slot) || (region.holds(slot) && exists|
                        j: int,
                    | 0 <= j < k && #[trigger] reaches_brick(d, a, j, slot - region.base))),
            decreases 27 - k,
        {
            let nx: i32 = x as i32 + (k % 3) as i32 - 1;
            let ny: i32 = y as i32 + ((k / 3) % 3) as i32 - 1;
            let nz: i32 = z as i32 + (k / 9) as i32 - 1;
            let ghost before = *self;
            assert(neighbour(d, a, k as int) == (nx as int, ny as int, nz as int));
            if nx >= 0 && ny >= 0 && nz >= 0 && (nx as u32) < dim && (ny as u32) < dim && (
            nz as u32) < dim {
                proof {
                    assert(nz * (d * d) + ny * d + nx <= a + d * d + d + 1) by (nonlinear_arith)
                        requires
                            a == z * (d * d) + y * d + x,
                            nz <= z + 1,
                            ny <= y + 1,
                            nx <= x + 1,
                            d >= 1,
                    ;
                    assert(d * d <= 65535 * 65535) by (nonlinear_arith)
                        requires
                            0 < d <= 65535,
                    ;
                    assert(0 <= nz * (d * d) && 0 <= ny * d) by (nonlinear_arith)
                        requires
                            0 <= nz,
                            0 <= ny,
                            d > 0,
                    ;
                }
                let neighbour_brick: u32 = nz as u32 * plane + ny as u32 * dim + nx as u32;
                assert(reaches_brick(d, a, k as int, neighbour_brick as int));
                if neighbour_brick < region.count {
                    self.dirty.set((region.base + neighbour_brick) as usize, true);
                }
                proof {
                    assert forall|slot: int| #[trigger] self.dirty_at(slot) == (start.dirty_at(
                        slot,
                    ) || (region.holds(slot) && exists|j: int|
                        0 <= j < k + 1 && #[trigger] reaches_brick(
                            d,
                            a,
                            j,
                            slot - region.base,
                        ))) by {
                        let b = slot - region.base;
                        assert(before.dirty_at(slot) == (start.dirty_at(slot) || (region.holds(
                            slot,
                        ) && exists|j: int| 0 <= j < k && #[trigger] reaches_brick(d, a, j, b))));
                        if region.holds(slot) && before.dirty_at(slot) && !start.dirty_at(slot) {
                            let j = choose|j: int|
                                0 <= j < k && #[trigger] reaches_brick(d, a, j, b);
                            assert(reaches_brick(d, a, j, b));
                        }
                        if region.holds(slot) && exists|j: int|
                            0 <= j < k + 1 && #[trigger] reaches_brick(d, a, j, b) {
                            let j = choose|j: int|
                                0 <= j < k + 1 && #[trigger] reaches_brick(d, a, j, b);
                            if j == k {
                                assert(b == neighbour_brick);
                            } else {
                                assert(before.dirty_at(slot));
                            }
                        }
                        if region.holds(slot) && b == neighbour_brick {
                            assert(reaches_brick(d, a, k as int, b));
                        }
                    }
                }
            } else {
                proof {
                    assert forall|slot: int| #[trigger] self.dirty_at(slot) == (start.dirty_at(
                        slot,
                    ) || (region.holds(slot) && exists|j: int|
                        0 <= j < k + 1 && #[trigger] reaches_brick(
                            d,
                            a,
                            j,
                            slot - region.base,
                        ))) by {
                        let b = slot - region.base;
                        assert(before.dirty_at(slot) == (start.dirty_at(slot) || (region.holds(
                            slot,
                        ) && exists|j: int| 0 <= j < k && #[trigger] reaches_brick(d, a, j, b))));
                        assert(!reaches_brick(d, a, k as int, b));
                        if exists|j: int| 0 <= j < k && #[trigger] reaches_brick(d, a, j, b) {
                            let j = choose|j: int|
                                0 <= j < k && #[trigger] reaches_brick(d, a, j, b);
                            assert(reaches_brick(d, a, j, b) && j < k + 1);
                        }
                        if exists|j: int| 0 <= j < k + 1 && #[trigger] reaches_brick(d, a, j, b) {
                            let j = choose|j: int|
                                0 <= j < k + 1 && #[trigger] reaches_brick(d, a, j, b);
                            assert(j != k);
                        }
                    }
                }
            }
            k = k + 1;
        }
        assert forall|slot: int| #[trigger] self.dirty_at(slot) == (start.dirty_at(slot) || (
        region.holds(slot) && in_halo(d, a, slot - region.base))) by {
            if region.holds(slot) {
                lemma_halo(d, a, slot - region.base);
            }
        }
    }

    /// Records that a brick's voxels changed: notes whether it holds anything and
    /// queues every brick whose extraction samples it. The brick itself is noted
    /// even where the grid is too large to have neighbours looked up.
    pub fn mark_uploaded(
        &mut self,
        entity: Entity,
        local_brick: u32,
        occupied: bool,
        brick_grid_dim: u32,
    ) -> (result: Result<(), VoxelMeshProjectionError>)
        requires
            old(self).wf(),
        ensures
            final(self).wf(),
            final(self).allocated_flag == old(self).allocated_flag,
            final(self).rows@.len() == old(self).rows@.len(),
            final(self).regions@ == old(self).regions@,
            forall|slot: int| #[trigger] final(self).owner_at(slot) == old(self).owner_at(slot),
            forall|slot: int| #[trigger] final(self).work_at(slot) == old(self).work_at(slot),
            result == Err::<(), _>(VoxelMeshProjectionError::NotResident) <==> !old(
                self,
            ).resident(entity),
            result == Err::<(), _>(VoxelMeshProjectionError::InvalidBrick) <==> old(
                self,
            ).resident(entity) && (local_brick >= old(self).region_of(entity).count
                || brick_grid_dim == 0 || brick_grid_dim > 65535),
            result matches Err(e) ==> e is NotResident || e is InvalidBrick,
            ({
                let region = old(self).region_of(entity);
                let named = old(self).resident(entity) && local_brick < region.count
                    && brick_grid_dim != 0;
                &&& forall|slot: int| #[trigger]
                    final(self).occupied_at(slot) == if named && slot == region.base
                        + local_brick {
                        occupied
                    } else {
                        old(self).occupied_at(slot)
                    }
                &&& forall|slot: int| #[trigger]
                    final(self).dirty_at(slot) == (old(self).dirty_at(slot) || (named && (slot
                        == region.base + local_brick || (result is Ok && region.holds(slot)
                        && in_halo(
                        brick_grid_dim as int,
                        local_brick as int,
                        slot - region.base,
                    )))))
            }),
    {
        let ghost before = *self;
        let i: usize = match self.find(entity) {
            Some(i) => i,
            None => {
                return Err(VoxelMeshProjectionError::NotResident);
            },
        };
        let region: SlotRegion = self.regions[i].region;
        if local_brick >= region.count || brick_grid_dim == 0 {
            return Err(VoxelMeshProjectionError::InvalidBrick);
        }
        let slot: usize = (region.base + local_brick) as usize;
        assert(region.holds(slot as int));
        assert(self.owners@[slot as int] == Some(entity));
        self.occupied.set(slot, occupied);
        self.dirty.set(slot, true);
        assert(self.residents_match());
        assert forall|s: int| #[trigger] self.occupied_at(s) == if s == slot {
            occupied
        } else {
            before.occupied_at(s)
        } by {}
        assert forall|s: int| #[trigger] self.dirty_at(s) == (before.dirty_at(s) || s == slot) by {}
        assert(self.unowned_is_blank());
        assert(self.free_list_matches());
        if brick_grid_dim > 65535 {
            return Err(VoxelMeshProjectionError::InvalidBrick);
        }
        let ghost marked = *self;
        self.mark_halo(region, local_brick, brick_grid_dim);
        proof {
            assert(self.residents_match());
            assert forall|s: int| #[trigger] self.occupied_at(s) == marked.occupied_at(s) by {}
            assert forall|s: int| #[trigger] self.dirty_at(s) == (before.dirty_at(s) || s == slot
                || (region.holds(s) && in_halo(
                brick_grid_dim as int,
                local_brick as int,
                s - region.base,
            ))) by {
                assert(marked.dirty_at(s) == (before.dirty_at(s) || s == slot));
            }
        }
        Ok(())
    }

    /// Publishes all rows if any is dirty, stamping the dirty ones with the low
    /// half of `generation`; afterwards none is dirty.
    pub fn take_batch(&mut self, generation: u64) -> (batch: Option<Vec<GpuVoxelMeshWork>>)
        requires
            old(self).wf(),
        ensures
            final(self).wf(),
            final(self).allocated_flag == old(self).allocated_flag,
            final(self).regions@ == old(self).regions@,
            final(self).owners == old(self).owners,
            final(self).occupied == old(self).occupied,
            final(self).rows@.len() == old(self).rows@.len(),
            forall|slot: int| !#[trigger] final(self).dirty_at(slot),
            forall|slot: int|
                0 <= slot < final(self).rows@.len() ==> #[trigger] final(self).rows@[slot] == if old(
                    self,
                ).dirty_at(slot) {
                    GpuVoxelMeshWork {
                        generation: (generation % 0x1_0000_0000) as u32,
                        ..old(self).rows@[slot]
                    }
                } else {
                    old(self).rows@[slot]
                },
            match batch {
                None => forall|slot: int| !#[trigger] old(self).dirty_at(slot),
                Some(rows) => rows@ == final(self).rows@ && exists|slot: int| #[trigger] old(
                    self,
                ).dirty_at(slot),
            },
    {
        let ghost before = *self;
        let mut any: bool = false;
        let mut i: usize = 0;
        while i < self.dirty.len()
            invariant
                0 <= i <= self.dirty@.len(),
                any <==> exists|slot: int| 0 <= slot < i && #[trigger] self.dirty@[slot],
            decreases self.dirty@.len() - i,
        {
            if self.dirty[i] {
                any = true;
            }
            i = i + 1;
        }
        if !any {
            assert forall|slot: int| !#[trigger] before.dirty_at(slot) by {
                if before.dirty_at(slot) {
                    assert(before.dirty@[slot]);
                }
            }
            return None;
        }
        assert(exists|slot: int| #[trigger] before.dirty_at(slot)) by {
            let slot = choose|slot: int| 0 <= slot < i && #[trigger] before.dirty@[slot];
            assert(before.dirty_at(slot));
        }
        let stamp: u32 = (generation % 0x1_0000_0000) as u32;
        let mut published: Vec<GpuVoxelMeshWork> = Vec::new();
        let mut k: usize = 0;
        while k < self.rows.len()
            invariant
                0 <= k <= self.rows@.len(),
                before.wf(),
                stamp == (generation % 0x1_0000_0000) as u32,
                self.rows@.len() == before.rows@.len(),
                self.dirty@.len() == before.rows@.len(),
                *self == (VoxelMeshProjection { rows: self.rows, dirty: self.dirty, ..before }),
                published@ == self.rows@.take(k as int),
                forall|slot: int|
                    0 <= slot < k ==> #[trigger] self.rows@[slot] == if before.dirty_at(slot) {
                        GpuVoxelMeshWork { generation: stamp, ..before.rows@[slot] }
                    } else {
                        before.rows@[slot]
                    },
                forall|slot: int| 0 <= slot < k ==> !#[trigger] self.dirty@[slot],
                forall|slot: int|
                    k <= slot < self.rows@.len() ==> #[trigger] self.rows@[slot]
                        == before.rows@[slot],
                forall|slot: int|
                    k <= slot < self.rows@.len() ==> #[trigger] self.dirty@[slot]
                        == before.dirty@[slot],
            decreases self.rows@.len() - k,
        {
            let row: GpuVoxelMeshWork = self.rows[k];
            if self.dirty[k] {
                self.rows.set(
                    k,
                    GpuVoxelMeshWork {
                        volume_row: row.volume_row,
                        local_brick: row.local_brick,
                        flags: row.flags,
                        generation: stamp,
                    },
                );
                self.dirty.set(k, false);
            }
            published.push(self.rows[k]);
            k = k + 1;
            assert(published@ =~= self.rows@.take(k as int));
        }
        assert(self.rows@.take(k as int) =~= self.rows@);
        assert(self.residents_match());
        assert(self.free_list_matches());
        assert(self.unowned_is_blank());
        Some(published)
    }

    /// Number of slots the mesh pass has to draw: one past the last that holds
    /// something.
    pub fn draw_count(&self) -> (count: u32)
        requires
            self.wf(),
        ensures
            forall|slot: int| slot >= count ==> !#[trigger] self.occupied_at(slot),
            count > 0 ==> self.occupied_at(count - 1),
    {
        let mut i: usize = self.occupied.len();
        while i > 0
            invariant
                0 <= i <= self.occupied@.len(),
                self.occupied@.len() <= VOXEL_MESH_OUTPUT_CAPACITY,
                forall|slot: int| i <= slot < self.occupied@.len() ==> !#[trigger] self.occupied@[slot],
            decreases i,
        {
            if self.occupied[i - 1] {
                return i as u32;
            }
            i = i - 1;
        }
        0
    }

    /// The work row of `slot`, if one was ever written.
    pub fn row(&self, slot: u32) -> (row: Option<GpuVoxelMeshWork>)
        ensures
            row == if slot < self.rows@.len() {
                Some(self.rows@[slot as int])
            } else {
                None::<GpuVoxelMeshWork>
            },
    {
        if (slot as usize) < self.rows.len() {
            Some(self.rows[slot as usize])
        } else {
            None
        }
    }
}

/// Releasing a volume makes room again: as many slots fit wherever the volume's
/// run was.
pub proof fn lemma_release_makes_room(
    before: VoxelMeshProjection,
    after: VoxelMeshProjection,
    entity: Entity,
)
    requires
        before.wf(),
        before.resident(entity),
        forall|slot: int| #[trigger]
            after.owner_at(slot) == if before.region_of(entity).holds(slot) {
                None
            } else {
                before.owner_at(slot)
            },
    ensures
        after.fits(before.region_of(entity).base as int, before.region_of(entity).count as int),
{
}

/// Two resident volumes never own a slot in common.
pub proof fn lemma_residents_are_disjoint(
    projection: VoxelMeshProjection,
    i: int,
    j: int,
    slot: int,
)
    requires
        projection.wf(),
        0 <= i < projection.regions@.len(),
        0 <= j < projection.regions@.len(),
        projection.regions@[i].region.holds(slot),
        projection.regions@[j].region.holds(slot),
    ensures
        i == j,
{
    assert(projection.owners@[slot] == Some(projection.regions@[i].entity));
    assert(projection.owners@[slot] == Some(projection.regions@[j].entity));
}

} // verus!
