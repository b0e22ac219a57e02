//! Visibility groups.
//!
//! An object belongs to any number of the 64 groups. It is hidden if any of its
//! groups is hidden; an object without a group is always visible.
use vstd::prelude::*;

verus! {

/// Number of groups.
pub const GROUP_COUNT: u8 = 64;

/// Index of a group, below [`GROUP_COUNT`].
#[derive(Clone, Copy, Debug, PartialEq, Eq, Hash, Structural)]
pub struct GroupId(pub u8);

/// A set of groups, one bit each.
#[derive(Clone, Copy, Debug, PartialEq, Eq, Hash, Structural)]
pub struct GroupMask(pub u64);

impl GroupId {
    pub open spec fn valid(self) -> bool {
        self.0 < GROUP_COUNT
    }
}

proof fn lemma_bit_ops(x: u64, y: u64, g: u8, h: u8)
    by (bit_vector)
    requires
        g < 64,
        h < 64,
    ensures
        ((x | y) >> h) & 1 == 1 <==> (x >> h) & 1 == 1 || (y >> h) & 1 == 1,
        ((x & y) >> h) & 1 == 1 <==> (x >> h) & 1 == 1 && (y >> h) & 1 == 1,
        ((x & !y) >> h) & 1 == 1 <==> (x >> h) & 1 == 1 && !((y >> h) & 1 == 1),
        ((1u64 << g) >> h) & 1 == 1 <==> g == h,
        (0u64 >> h) & 1 == 0,
        x & (1u64 << h) != 0 <==> (x >> h) & 1 == 1,
{
}

proof fn lemma_nonzero_has_bit(x: u64) -> (g: u8)
    requires
        x != 0,
    ensures
        g < 64,
        (x >> g) & 1 == 1,
    decreases x,
{
    if x & 1 == 1 {
        assert((x >> 0u8) & 1 == 1) by (bit_vector)
            requires
                x & 1 == 1,
        ;
        0
    } else {
        let y = x >> 1u8;
        assert(y < x && y != 0 && y < 0x8000_0000_0000_0000) by (bit_vector)
            requires
                y == x >> 1u8,
                x != 0,
                x & 1 != 1,
        ;
        let g = lemma_nonzero_has_bit(y);
        assert(g != 63) by (bit_vector)
            requires
                g < 64,
                (y >> g) & 1 == 1,
                y < 0x8000_0000_0000_0000,
        ;
        let next = (g + 1) as u8;
        assert((x >> next) & 1 == 1) by (bit_vector)
            requires
                y == x >> 1u8,
                g < 63,
                next == g + 1,
                (y >> g) & 1 == 1,
        ;
        next
    }
}

impl GroupMask {
    /// `group` is a member of the mask.
    pub open spec fn has(self, group: GroupId) -> bool {
        (self.0 >> group.0) & 1 == 1
    }

    /// The two masks share a group.
    pub open spec fn meets(self, other: GroupMask) -> bool {
        exists|group: GroupId| group.valid() && #[trigger] self.has(group) && other.has(group)
    }

    /// Two masks with the same members are the same mask.
    pub proof fn lemma_extensional(self, other: GroupMask)
        requires
            forall|group: GroupId|
                group.valid() ==> (#[trigger] self.has(group) <==> other.has(group)),
        ensures
            self == other,
    {
        let x = self.0;
        let y = other.0;
        let difference = x ^ y;
        if difference != 0 {
            let g = lemma_nonzero_has_bit(difference);
            assert((x >> g) & 1 == 1 <==> !((y >> g) & 1 == 1)) by (bit_vector)
                requires
                    g < 64,
                    difference == x ^ y,
                    (difference >> g) & 1 == 1,
            ;
            assert(self.has(GroupId(g)) <==> other.has(GroupId(g)));
        }
        assert(difference == 0 ==> x == y) by (bit_vector)
            requires
                difference == x ^ y,
        ;
    }

    /// The mask without members.
    pub fn none() -> (mask: GroupMask)
        ensures
            mask == GroupMask(0),
            forall|group: GroupId| group.valid() ==> !(#[trigger] mask.has(group)),
    {
        assert forall|group: GroupId| group.valid() implies !(#[trigger] GroupMask(0).has(
            group,
        )) by {
            lemma_bit_ops(0, 0, 0, group.0);
        }
        GroupMask(0)
    }

    pub fn from_id(group: GroupId) -> (mask: GroupMask)
        requires
            group.valid(),
        ensures
            forall|other: GroupId|
                other.valid() ==> (#[trigger] mask.has(other) <==> other == group),
    {
        let mask = GroupMask(1u64 << group.0);
        assert forall|other: GroupId| other.valid() implies (#[trigger] mask.has(other) <==> other
            == group) by {
            lemma_bit_ops(0, 0, group.0, other.0);
        }
        mask
    }

    pub fn with(self, group: GroupId) -> (mask: GroupMask)
        requires
            group.valid(),
        ensures
            forall|other: GroupId|
                other.valid() ==> (#[trigger] mask.has(other) <==> self.has(other) || other
                    == group),
    {
        let mask = GroupMask(self.0 | (1u64 << group.0));
        assert forall|other: GroupId| other.valid() implies (#[trigger] mask.has(other)
            <==> self.has(other) || other == group) by {
            lemma_bit_ops(self.0, 1u64 << group.0, group.0, other.0);
        }
        mask
    }

    pub fn without(self, group: GroupId) -> (mask: GroupMask)
        requires
            group.valid(),
        ensures
            forall|other: GroupId|
                other.valid() ==> (#[trigger] mask.has(other) <==> self.has(other) && other
                    != group),
    {
        let mask = GroupMask(self.0 & !(1u64 << group.0));
        assert forall|other: GroupId| other.valid() implies (#[trigger] mask.has(other)
            <==> self.has(other) && other != group) by {
            lemma_bit_ops(self.0, 1u64 << group.0, group.0, other.0);
        }
        mask
    }

    /// All members of either mask.
    pub fn union(self, other: GroupMask) -> (mask: GroupMask)
        ensures
            forall|group: GroupId|
                group.valid() ==> (#[trigger] mask.has(group) <==> self.has(group) || other.has(
                    group,
                )),
    {
        let mask = GroupMask(self.0 | other.0);
        assert forall|group: GroupId| group.valid() implies (#[trigger] mask.has(group)
            <==> self.has(group) || other.has(group)) by {
            lemma_bit_ops(self.0, other.0, 0, group.0);
        }
        mask
    }

    /// The members that are not in `other`.
    pub fn minus(self, other: GroupMask) -> (mask: GroupMask)
        ensures
            forall|group: GroupId|
                group.valid() ==> (#[trigger] mask.has(group) <==> self.has(group) && !other.has(
                    group,
                )),
    {
        let mask = GroupMask(self.0 & !other.0);
        assert forall|group: GroupId| group.valid() implies (#[trigger] mask.has(group)
            <==> self.has(group) && !other.has(group)) by {
            lemma_bit_ops(self.0, other.0, 0, group.0);
        }
        mask
    }

    pub fn contains(self, group: GroupId) -> (member: bool)
        requires
            group.valid(),
        ensures
            member == self.has(group),
    {
        proof {
            lemma_bit_ops(self.0, 0, 0, group.0);
        }
        self.0 & (1u64 << group.0) != 0
    }

    pub fn intersects(self, other: GroupMask) -> (shared: bool)
        ensures
            shared == self.meets(other),
    {
        proof {
            let both = self.0 & other.0;
            if both != 0 {
                let g = lemma_nonzero_has_bit(both);
                lemma_bit_ops(self.0, other.0, 0, g);
                assert(self.has(GroupId(g)) && other.has(GroupId(g)));
            } else if self.meets(other) {
                let group = choose|group: GroupId|
                    group.valid() && #[trigger] self.has(group) && other.has(group);
                lemma_bit_ops(self.0, other.0, 0, group.0);
                assert((0u64 >> group.0) & 1 == 1);
                lemma_bit_ops(0, 0, 0, group.0);
            }
        }
        self.0 & other.0 != 0
    }

    pub fn is_empty(self) -> (empty: bool)
        ensures
            empty == (self == GroupMask(0)),
            empty <==> forall|group: GroupId| group.valid() ==> !(#[trigger] self.has(group)),
    {
        proof {
            if self.0 == 0 {
                assert forall|group: GroupId| group.valid() implies !(#[trigger] self.has(
                    group,
                )) by {
                    lemma_bit_ops(0, 0, 0, group.0);
                }
            } else {
                let g = lemma_nonzero_has_bit(self.0);
                assert(self.has(GroupId(g)));
            }
        }
        self.0 == 0
    }
}

/// An object in `groups` is visible while the groups in `hidden` are hidden: none
/// of its groups is among them.
pub open spec fn visible(groups: GroupMask, hidden: GroupMask) -> bool {
    !groups.meets(hidden)
}

/// Whether an object is visible, given its groups and the hidden ones.
pub fn object_is_visible(groups: GroupMask, group_hidden: GroupMask) -> (shown: bool)
    ensures
        shown == visible(groups, group_hidden),
{
    groups.is_empty() || !groups.intersects(group_hidden)
}

/// Two masks share a group exactly if they share a bit.
pub proof fn lemma_masks_meet(a: GroupMask, b: GroupMask)
    ensures
        a.meets(b) <==> a.0 & b.0 != 0,
{
    let x = a.0;
    let y = b.0;
    if x & y != 0 {
        let g = lemma_nonzero_has_bit(x & y);
        lemma_bit_ops(x, y, g, g);
        assert(a.has(GroupId(g)) && b.has(GroupId(g)));
    }
    if a.meets(b) {
        let group = choose|group: GroupId|
            group.valid() && #[trigger] a.has(group) && b.has(group);
        let g = group.0;
        assert(x & y != 0) by (bit_vector)
            requires
                g < 64,
                (x >> g) & 1 == 1,
                (y >> g) & 1 == 1,
        ;
    }
}

/// An object without a group is visible whatever is hidden.
pub proof fn lemma_ungrouped_is_always_visible(groups: GroupMask, hidden: GroupMask)
    requires
        forall|group: GroupId| group.valid() ==> !(#[trigger] groups.has(group)),
    ensures
        visible(groups, hidden),
{
}

/// Hiding one of an object's groups hides the object.
pub proof fn lemma_any_hidden_group_hides(groups: GroupMask, hidden: GroupMask, group: GroupId)
    requires
        group.valid(),
        groups.has(group),
        hidden.has(group),
    ensures
        !visible(groups, hidden),
{
}

} // verus!
