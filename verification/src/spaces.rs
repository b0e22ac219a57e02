//! Coordinate spaces: the rows of matrices that sublevels and portals share.
use vstd::prelude::*;

use crate::float_bits::{from_bits, single, F32, ONE_BITS};
use crate::groups::GroupId;
use crate::handles::{PortalId, SublevelId};
use crate::portal_chains::{chain_list, portal_chains, GpuPortalChain, Reachability, MAX_PORTAL_CHAINS};
use crate::sparse_set::SparseSet;

verus! {

/// Where a flag word keeps its coordinate space, and how many spaces there are.
/// Space 0 is the world.
#[derive(Clone, Copy, Debug)]
pub struct SpaceField {
    pub shift: u32,
    /// A power of two.
    pub capacity: u32,
}

impl SpaceField {
    pub open spec fn wf(&self) -> bool {
        &&& self.shift < 32
        &&& self.capacity > 0
        &&& self.capacity & self.mask() == 0
        &&& (self.mask() << self.shift) >> self.shift == self.mask()
    }

    /// The greatest space.
    pub open spec fn mask(&self) -> u32 {
        (self.capacity - 1) as u32
    }

    /// The bits of a flag word that hold the space.
    pub open spec fn occupied_bits(&self) -> u32 {
        self.mask() << self.shift
    }

    /// The coordinate space that a flag word names.
    pub open spec fn space_of(&self, flags: u32) -> u32 {
        (flags >> self.shift) & self.mask()
    }

    /// The flag word with another coordinate space.
    pub open spec fn with_space(&self, flags: u32, space: u32) -> u32 {
        (flags & !self.occupied_bits()) | ((space & self.mask()) << self.shift)
    }

    pub fn coordinate_space(&self, flags: u32) -> (space: u32)
        requires
            self.wf(),
        ensures
            space == self.space_of(flags),
            space < self.capacity,
    {
        let mask: u32 = self.capacity - 1;
        let shift: u32 = self.shift;
        assert((flags >> shift) & mask <= mask) by (bit_vector);
        (flags >> shift) & mask
    }

    pub fn set_coordinate_space(&self, flags: u32, space: u32) -> (tagged: u32)
        requires
            self.wf(),
        ensures
            tagged == self.with_space(flags, space),
    {
        let mask: u32 = self.capacity - 1;
        (flags & !(mask << self.shift)) | ((space & mask) << self.shift)
    }

    /// A tagged flag word names the space that it was tagged with, and its other bits
    /// are untouched.
    pub proof fn lemma_tag_reads_back(&self, flags: u32, space: u32)
        requires
            self.wf(),
            space < self.capacity,
        ensures
            self.space_of(self.with_space(flags, space)) == space,
            self.with_space(flags, space) & !self.occupied_bits() == flags & !self.occupied_bits(),
    {
        let capacity = self.capacity;
        let mask = self.mask();
        let shift = self.shift;
        assert(space & mask == space) by (bit_vector)
            requires
                capacity & mask == 0,
                capacity > 0,
                mask == capacity - 1,
                space < capacity,
        ;
        assert((((flags & !(mask << shift)) | (space << shift)) >> shift) & mask == space)
            by (bit_vector)
            requires
                shift < 32,
                (mask << shift) >> shift == mask,
                space & mask == space,
        ;
        assert(((flags & !(mask << shift)) | (space << shift)) & !(mask << shift) == flags & !(mask
            << shift)) by (bit_vector)
            requires
                shift < 32,
                space & mask == space,
        ;
    }
}

/// The identity matrix.
pub open spec fn identity() -> [F32; 16] {
    let one = single(ONE_BITS);
    let zero = single(0);
    [
        one,
        zero,
        zero,
        zero,
        zero,
        one,
        zero,
        zero,
        zero,
        zero,
        one,
        zero,
        zero,
        zero,
        zero,
        one,
    ]
}

pub fn identity_matrix() -> (matrix: [F32; 16])
    ensures
        matrix == identity(),
{
    let one: F32 = from_bits(ONE_BITS);
    let zero: F32 = from_bits(0);
    let matrix: [F32; 16] = [
        one,
        zero,
        zero,
        zero,
        zero,
        one,
        zero,
        zero,
        zero,
        zero,
        one,
        zero,
        zero,
        zero,
        zero,
        one,
    ];
    assert(matrix@ =~= identity()@);
    assert(matrix =~= identity());
    matrix
}

/// The matrix of each row, now and when the last frame ended.
pub struct SpaceHistory {
    pub current: Vec<[F32; 16]>,
    pub previous: Vec<[F32; 16]>,
}

impl SpaceHistory {
    /// Every row is the identity.
    pub fn new(capacity: u32) -> (history: Self)
        ensures
            history.current@ == Seq::new(capacity as nat, |r: int| identity()),
            history.previous@ == Seq::new(capacity as nat, |r: int| identity()),
    {
        let mut current: Vec<[F32; 16]> = Vec::new();
        let mut previous: Vec<[F32; 16]> = Vec::new();
        let mut row: u32 = 0;
        while row < capacity
            invariant
                0 <= row <= capacity,
                current@ == Seq::new(row as nat, |r: int| identity()),
                previous@ == Seq::new(row as nat, |r: int| identity()),
            decreases capacity - row,
        {
            current.push(identity_matrix());
            previous.push(identity_matrix());
            row = row + 1;
            assert(current@ =~= Seq::new(row as nat, |r: int| identity()));
            assert(previous@ =~= Seq::new(row as nat, |r: int| identity()));
        }
        SpaceHistory { current, previous }
    }

    /// Starts a row anew: it has no past.
    pub fn stage_new(&mut self, row: u32, matrix: [F32; 16])
        requires
            row < old(self).current@.len(),
            row < old(self).previous@.len(),
        ensures
            final(self).current@ == old(self).current@.update(row as int, matrix),
            final(self).previous@ == old(self).previous@.update(row as int, matrix),
    {
        self.current.set(row as usize, matrix);
        self.previous.set(row as usize, matrix);
    }

    /// Moves a row; where it was stays known until the frame ends.
    pub fn stage_current(&mut self, row: u32, matrix: [F32; 16])
        requires
            row < old(self).current@.len(),
        ensures
            final(self).current@ == old(self).current@.update(row as int, matrix),
            final(self).previous == old(self).previous,
    {
        self.current.set(row as usize, matrix);
    }

    /// Ends the frame: what is current becomes the past.
    pub fn advance_frame(&mut self)
        ensures
            final(self).current@ == old(self).current@,
            final(self).previous@ == old(self).current@,
    {
        let mut previous: Vec<[F32; 16]> = Vec::new();
        let mut row: usize = 0;
        while row < self.current.len()
            invariant
                0 <= row <= self.current@.len(),
                previous@ == self.current@.take(row as int),
                self.current@ == old(self).current@,
            decreases self.current@.len() - row,
        {
            previous.push(self.current[row]);
            row = row + 1;
            assert(previous@ =~= self.current@.take(row as int));
        }
        assert(self.current@.take(row as int) =~= self.current@);
        self.previous = previous;
    }
}

/// A group of objects that is drawn through one coordinate space.
#[derive(Clone, Copy, Debug)]
pub struct SublevelRecord {
    pub group: GroupId,
    pub placement: [F32; 16],
    pub row: u32,
}

/// A pair of poses: what stands near `b` is also drawn as seen through `a`.
#[derive(Clone, Copy, Debug)]
pub struct PortalRecord {
    pub a: [F32; 16],
    pub b: [F32; 16],
    /// Half the opening's size along the local axes of `a`.
    pub half_extent: [F32; 2],
    /// The inverse of `a`.
    pub a_inverse: [F32; 16],
    /// Takes the frame of `b` to the frame of `a`.
    pub pair_map_inverse: [F32; 16],
    pub row: u32,
}

/// What the renderer reads of a portal.
#[derive(Clone, Copy, Debug)]
pub struct GpuPortalView {
    pub transform: [F32; 16],
    pub inverse_transform: [F32; 16],
    pub half_extent: [F32; 2],
    pub coordinate_space: u32,
}

pub open spec fn view_of(portal: PortalRecord) -> GpuPortalView {
    GpuPortalView {
        transform: portal.a,
        inverse_transform: portal.a_inverse,
        half_extent: portal.half_extent,
        coordinate_space: portal.row,
    }
}

/// Some portal has the coordinate row.
pub open spec fn row_taken(portals: Seq<PortalRecord>, row: int) -> bool {
    exists|i: int| 0 <= i < portals.len() && #[trigger] portals[i].row == row
}

/// The place of the portal that has the coordinate row.
pub open spec fn holder(portals: Seq<PortalRecord>, row: int) -> int {
    choose|i: int| 0 <= i < portals.len() && #[trigger] portals[i].row == row
}

/// The portals whose coordinate row is less than `row`, in the order of their rows.
pub open spec fn portals_below(portals: Seq<PortalRecord>, row: int) -> Seq<PortalRecord>
    decreases row,
{
    if row <= 0 {
        Seq::empty()
    } else {
        let rest = portals_below(portals, row - 1);
        if row_taken(portals, row - 1) {
            rest.push(portals[holder(portals, row - 1)])
        } else {
            rest
        }
    }
}

/// The rows of `portals` differ.
pub open spec fn rows_differ(portals: Seq<PortalRecord>) -> bool {
    forall|i: int, j: int|
        0 <= i < portals.len() && 0 <= j < portals.len() && i != j ==> #[trigger] portals[i].row
            != #[trigger] portals[j].row
}

pub proof fn lemma_holder(portals: Seq<PortalRecord>, i: int)
    requires
        rows_differ(portals),
        0 <= i < portals.len(),
    ensures
        row_taken(portals, portals[i].row as int),
        holder(portals, portals[i].row as int) == i,
{
    let row = portals[i].row as int;
    assert(portals[i].row == row);
    let h = holder(portals, row);
    assert(portals[h].row == row);
}

pub proof fn lemma_portals_below(portals: Seq<PortalRecord>, row: int)
    ensures
        portals_below(portals, row).len() <= if row > 0 {
            row
        } else {
            0
        },
        forall|k: int|
            0 <= k < portals_below(portals, row).len() ==> (#[trigger] portals_below(
                portals,
                row,
            )[k]).row < row,
    decreases row,
{
    if row > 0 {
        lemma_portals_below(portals, row - 1);
        if row_taken(portals, row - 1) {
            assert(portals[holder(portals, row - 1)].row == row - 1);
        }
    }
}

/// A portal stands in the row order right behind those with a lesser row.
pub proof fn lemma_rank(portals: Seq<PortalRecord>, i: int, row: int)
    requires
        rows_differ(portals),
        0 <= i < portals.len(),
        portals[i].row < row,
    ensures
        portals_below(portals, portals[i].row as int).len() < portals_below(portals, row).len(),
        portals_below(portals, row)[portals_below(portals, portals[i].row as int).len() as int]
            == portals[i],
    decreases row,
{
    lemma_holder(portals, i);
    if portals[i].row < row - 1 {
        lemma_rank(portals, i, row - 1);
    }
}

/// The portals in row order, written down.
pub fn ordered_portals(portals: &Vec<PortalRecord>, capacity: u32) -> (ordered: Vec<PortalRecord>)
    requires
        rows_differ(portals@),
    ensures
        ordered@ == portals_below(portals@, capacity as int),
{
    let mut ordered: Vec<PortalRecord> = Vec::new();
    let mut row: u32 = 0;
    while row < capacity
        invariant
            0 <= row <= capacity,
            rows_differ(portals@),
            ordered@ == portals_below(portals@, row as int),
        decreases capacity - row,
    {
        let mut found: Option<PortalRecord> = None;
        let mut i: usize = 0;
        while i < portals.len()
            invariant
                0 <= i <= portals@.len(),
                rows_differ(portals@),
                match found {
                    Some(portal) => row_taken(portals@, row as int) && portal == portals@[holder(
                        portals@,
                        row as int,
                    )],
                    None => forall|j: int|
                        0 <= j < i ==> (#[trigger] portals@[j]).row != row,
                },
            decreases portals@.len() - i,
        {
            if portals[i].row == row {
                proof {
                    lemma_holder(portals@, i as int);
                }
                found = Some(portals[i]);
            }
            i = i + 1;
        }
        match found {
            Some(portal) => {
                ordered.push(portal);
            },
            None => {
                assert(!row_taken(portals@, row as int));
            },
        }
        row = row + 1;
    }
    ordered
}

/// The view of each portal.
pub open spec fn views_of(ordered: Seq<PortalRecord>) -> Seq<GpuPortalView> {
    ordered.map_values(|p: PortalRecord| view_of(p))
}

pub fn portal_views(ordered: &Vec<PortalRecord>) -> (views: Vec<GpuPortalView>)
    ensures
        views@ == views_of(ordered@),
{
    let mut views: Vec<GpuPortalView> = Vec::new();
    let mut i: usize = 0;
    while i < ordered.len()
        invariant
            0 <= i <= ordered@.len(),
            views@ == views_of(ordered@.take(i as int)),
        decreases ordered@.len() - i,
    {
        let portal: PortalRecord = ordered[i];
        views.push(
            GpuPortalView {
                transform: portal.a,
                inverse_transform: portal.a_inverse,
                half_extent: portal.half_extent,
                coordinate_space: portal.row,
            },
        );
        i = i + 1;
        assert(views@ =~= views_of(ordered@.take(i as int)));
    }
    assert(ordered@.take(i as int) =~= ordered@);
    views
}

/// The greater of two numbers; one that is no number loses.
pub open spec fn greater(a: F32, b: F32) -> F32 {
    if a.spec_is_nan() || a.spec_lt(b) {
        b
    } else {
        a
    }
}

/// A portal with opening `half_extent` leads to what stands at `local` in the frame of
/// its far surface: `local` lies within the opening, and no farther from the surface
/// than the opening's greater half extent.
pub open spec fn opens_onto(half_extent: [F32; 2], local: [F32; 3]) -> bool {
    &&& local[0].spec_abs().spec_le(half_extent[0])
    &&& local[1].spec_abs().spec_le(half_extent[1])
    &&& local[2].spec_abs().spec_le(greater(half_extent[0], half_extent[1]))
}

pub fn portal_reachable_through(half_extent: [F32; 2], local: [F32; 3]) -> (reachable: bool)
    ensures
        reachable == opens_onto(half_extent, local),
{
    let tolerance: F32 = if half_extent[0].is_nan() || half_extent[0].lt(half_extent[1]) {
        half_extent[1]
    } else {
        half_extent[0]
    };
    local[0].abs().le(half_extent[0]) && local[1].abs().le(half_extent[1]) && local[2].abs().le(
        tolerance,
    )
}

/// `locals` has an entry for every pair of `n` portals.
pub open spec fn pairs_covered(locals: Seq<Vec<[F32; 3]>>, n: int) -> bool {
    &&& locals.len() >= n
    &&& forall|p: int| 0 <= p < n ==> (#[trigger] locals[p])@.len() >= n
}

/// Which portal opens onto which.
pub open spec fn openings(ordered: Seq<PortalRecord>, locals: Seq<Vec<[F32; 3]>>) -> Seq<
    Seq<bool>,
> {
    Seq::new(
        ordered.len(),
        |p: int|
            Seq::new(
                ordered.len(),
                |q: int| opens_onto(ordered[p].half_extent, locals[p]@[q]),
            ),
    )
}

pub fn reachability(ordered: &Vec<PortalRecord>, locals: &Vec<Vec<[F32; 3]>>) -> (reach:
    Reachability)
    requires
        pairs_covered(locals@, ordered@.len() as int),
    ensures
        reach.covers(ordered@.len() as int),
        reach@ == openings(ordered@, locals@),
{
    let ghost wanted = openings(ordered@, locals@);
    let mut rows: Vec<Vec<bool>> = Vec::new();
    let mut p: usize = 0;
    while p < ordered.len()
        invariant
            0 <= p <= ordered@.len(),
            pairs_covered(locals@, ordered@.len() as int),
            wanted == openings(ordered@, locals@),
            rows@.len() == p,
            forall|i: int| 0 <= i < p ==> (#[trigger] rows@[i])@ == wanted[i],
        decreases ordered@.len() - p,
    {
        let mut row: Vec<bool> = Vec::new();
        let mut q: usize = 0;
        assert(locals@[p as int]@.len() >= ordered@.len());
        while q < ordered.len()
            invariant
                0 <= q <= ordered@.len(),
                p < ordered@.len(),
                p < locals@.len(),
                locals@[p as int]@.len() >= ordered@.len(),
                row@.len() == q,
                forall|j: int|
                    0 <= j < q ==> #[trigger] row@[j] == opens_onto(
                        ordered@[p as int].half_extent,
                        locals@[p as int]@[j],
                    ),
            decreases ordered@.len() - q,
        {
            row.push(portal_reachable_through(ordered[p].half_extent, locals[p][q]));
            q = q + 1;
        }
        assert(row@ =~= wanted[p as int]);
        rows.push(row);
        p = p + 1;
    }
    let reach = Reachability { rows };
    assert forall|i: int| 0 <= i < ordered@.len() implies (#[trigger] reach.rows@[i])@.len()
        >= ordered@.len() by {
        assert(reach.rows@[i]@ == wanted[i]);
    }
    assert(reach@ =~= wanted);
    reach
}

/// Sublevels and portals, the rows that they share, and what is derived of the portals.
pub struct Spaces {
    pub field: SpaceField,
    pub sublevels: SparseSet<SublevelId, SublevelRecord>,
    pub portals: SparseSet<PortalId, PortalRecord>,
    pub history: SpaceHistory,
    /// Portals in row order, as the renderer reads them.
    pub portal_views: Vec<GpuPortalView>,
    /// Where the near surface of one portal stands in the frame of the far surface of
    /// another, for every pair, in row order.
    pub locals: Vec<Vec<[F32; 3]>>,
    /// Every chain of portals that is drawn.
    pub portal_chains: Vec<GpuPortalChain>,
}

impl Spaces {
    /// Coordinate rows in use, with that of the world.
    pub open spec fn live_rows(&self) -> nat {
        1 + self.sublevels.spec_len() + self.portals.spec_len()
    }

    /// The portals in row order.
    pub open spec fn ordered(&self) -> Seq<PortalRecord> {
        portals_below(self.portals.value_by_slot@, self.field.capacity as int)
    }

    /// A sublevel or a portal has the row.
    pub open spec fn owned(&self, row: int) -> bool {
        ||| exists|i: int|
            0 <= i < self.sublevels.spec_len() && #[trigger] self.sublevels.value_by_slot@[i].row
                == row
        ||| row_taken(self.portals.value_by_slot@, row)
    }

    /// The row can be given to a sublevel or a portal.
    pub open spec fn free_row(&self, row: u32) -> bool {
        1 <= row < self.field.capacity && !self.owned(row as int)
    }

    /// Owners have rows of their own, where their matrix stands; a row without an owner
    /// is the identity and has no past.
    pub open spec fn rows_wf(&self) -> bool {
        &&& self.history.current@.len() == self.field.capacity
        &&& self.history.previous@.len() == self.field.capacity
        &&& self.live_rows() <= self.field.capacity
        &&& forall|i: int|
            0 <= i < self.sublevels.spec_len() ==> {
                let s = #[trigger] self.sublevels.value_by_slot@[i];
                &&& 1 <= s.row < self.field.capacity
                &&& self.history.current@[s.row as int] == s.placement
                &&& s.group.valid()
                &&& !row_taken(self.portals.value_by_slot@, s.row as int)
            }
        &&& forall|i: int|
            0 <= i < self.portals.spec_len() ==> {
                let p = #[trigger] self.portals.value_by_slot@[i];
                &&& 1 <= p.row < self.field.capacity
                &&& self.history.current@[p.row as int] == p.pair_map_inverse
            }
        &&& forall|i: int, j: int|
            0 <= i < self.sublevels.spec_len() && 0 <= j < self.sublevels.spec_len() && i != j
                ==> #[trigger] self.sublevels.value_by_slot@[i].row
                != #[trigger] self.sublevels.value_by_slot@[j].row
        &&& rows_differ(self.portals.value_by_slot@)
        &&& forall|row: int|
            0 <= row < self.field.capacity && !self.owned(row) ==> #[trigger] self.history.current@[row]
                == identity() && self.history.previous@[row] == identity()
    }

    /// Views and chains show the portals as they are.
    pub open spec fn portals_published(&self) -> bool {
        let n = self.ordered().len() as int;
        &&& self.portal_views@ == views_of(self.ordered())
        &&& pairs_covered(self.locals@, n)
        &&& portal_chains(openings(self.ordered(), self.locals@), n).len() <= MAX_PORTAL_CHAINS
        &&& chain_list(
            self.portal_chains@,
            portal_chains(openings(self.ordered(), self.locals@), n),
        )
    }

    pub open spec fn wf(&self) -> bool {
        &&& self.field.wf()
        &&& self.sublevels.wf()
        &&& self.portals.wf()
        &&& self.rows_wf()
        &&& self.portals_published()
    }

    /// Whether a row is left.
    pub fn has_room(&self) -> (room: bool)
        requires
            self.wf(),
        ensures
            room == (self.live_rows() < self.field.capacity),
    {
        let sublevels: usize = self.sublevels.len();
        let portals: usize = self.portals.len();
        sublevels < self.field.capacity as usize && portals < self.field.capacity as usize
            - sublevels && 1 < self.field.capacity as usize - sublevels - portals
    }
}

} // verus!
