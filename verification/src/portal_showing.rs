//! What is published of the portals.
use vstd::prelude::*;

use crate::float_bits::F32;
use crate::handles::PortalId;
use crate::portal_chains::{
    chains_from, chains_through, continues, is_chain, lemma_chains_are_complete, portal_chains,
    GpuPortalChain,
};
use crate::portals::{
    lemma_all_ordered, portal_record, PortalDescriptor, PortalMeasure,
};
use crate::spaces::{
    holder, lemma_portals_below, lemma_rank, openings, portals_below, row_taken,
    rows_differ, GpuPortalView, PortalRecord, Spaces,
};

verus! {

/// The view shows an opening of that size at that pose, and what is seen in it through that
/// coordinate row.
pub open spec fn shows(
    view: GpuPortalView,
    near: [F32; 16],
    near_inverse: [F32; 16],
    half_extent: [F32; 2],
    row: u32,
) -> bool {
    &&& view.transform == near
    &&& view.inverse_transform == near_inverse
    &&& view.half_extent == half_extent
    &&& view.coordinate_space == row
}

/// The portals in row order have ascending rows.
proof fn lemma_rows_ascend(portals: Seq<PortalRecord>, row: int, k: int, l: int)
    requires
        rows_differ(portals),
        0 <= k < l < portals_below(portals, row).len(),
    ensures
        portals_below(portals, row)[k].row < portals_below(portals, row)[l].row,
    decreases row,
{
    let rest = portals_below(portals, row - 1);
    lemma_portals_below(portals, row - 1);
    if l < rest.len() {
        lemma_rows_ascend(portals, row - 1, k, l);
    } else {
        let h = holder(portals, row - 1);
        assert(row_taken(portals, row - 1));
        assert(portals[h].row == row - 1);
        assert(rest[k].row < row - 1);
    }
}

/// A live portal has exactly one published view: it shows the near surface, with the inverse
/// of that pose and the size of the opening, and through the row where the map to the far
/// surface stands. There are no other views, and they stand in the order of their rows.
pub proof fn lemma_portal_has_one_view(spaces: Spaces, id: PortalId) -> (k: int)
    requires
        spaces.wf(),
        spaces.portals@.contains_key(id),
    ensures
        0 <= k < spaces.portal_views@.len(),
        ({
            let portal = spaces.portals@[id];
            &&& shows(
                spaces.portal_views@[k],
                portal.a,
                portal.a_inverse,
                portal.half_extent,
                portal.row,
            )
            &&& spaces.history.current@[portal.row as int] == portal.pair_map_inverse
            &&& forall|l: int|
                0 <= l < spaces.portal_views@.len() && (
                #[trigger] spaces.portal_views@[l]).coordinate_space == portal.row ==> l == k
        }),
        spaces.portal_views@.len() == spaces.portals.spec_len(),
        forall|l: int, m: int|
            0 <= l < m < spaces.portal_views@.len() ==> (
            #[trigger] spaces.portal_views@[l]).coordinate_space < (
            #[trigger] spaces.portal_views@[m]).coordinate_space,
{
    let values = spaces.portals.value_by_slot@;
    let capacity = spaces.field.capacity as int;
    let ordered = spaces.ordered();
    spaces.portals.lemma_contains(id);
    let i = spaces.portals.place(id);
    lemma_all_ordered(values, capacity);
    lemma_rank(values, i, capacity);
    let k = portals_below(values, values[i].row as int).len() as int;
    assert(ordered[k] == values[i]);
    assert forall|l: int, m: int| 0 <= l < m < spaces.portal_views@.len() implies (
    #[trigger] spaces.portal_views@[l]).coordinate_space < (
    #[trigger] spaces.portal_views@[m]).coordinate_space by {
        lemma_rows_ascend(values, capacity, l, m);
    }
    assert forall|l: int|
        0 <= l < spaces.portal_views@.len() && (
        #[trigger] spaces.portal_views@[l]).coordinate_space == values[i].row implies l == k by {
        if l < k {
            lemma_rows_ascend(values, capacity, l, k);
        }
        if k < l {
            lemma_rows_ascend(values, capacity, k, l);
        }
    }
    k
}

/// An added portal is shown once: at its near pose, with the inverse given for it, and as
/// large as its opening. What is seen in it stands in its row, now and in the past. The
/// other portals are shown as before.
pub proof fn lemma_added_portal_is_shown_once(
    before: Spaces,
    after: Spaces,
    id: PortalId,
    desc: PortalDescriptor,
    measure: PortalMeasure,
    row: u32,
    other: PortalId,
) -> (k: int)
    requires
        before.wf(),
        after.wf(),
        before.portal_added(&after, id, portal_record(desc, measure, row)),
        before.free_row(row),
        before.portals@.contains_key(other),
        other != id,
    ensures
        0 <= k < after.portal_views@.len(),
        shows(after.portal_views@[k], desc.a, measure.a_inverse, desc.half_extent, row),
        forall|l: int|
            0 <= l < after.portal_views@.len() && (
            #[trigger] after.portal_views@[l]).coordinate_space == row ==> l == k,
        after.portal_views@.len() == before.portal_views@.len() + 1,
        after.history.current@[row as int] == measure.pair_map_inverse,
        after.history.previous@[row as int] == measure.pair_map_inverse,
        exists|l: int, m: int|
            0 <= l < before.portal_views@.len() && 0 <= m < after.portal_views@.len()
                && #[trigger] before.portal_views@[l] == #[trigger] after.portal_views@[m]
                && before.portal_views@[l].coordinate_space == before.portals@[other].row,
{
    let l = lemma_portal_has_one_view(before, other);
    let m = lemma_portal_has_one_view(after, other);
    assert(before.portal_views@[l] == after.portal_views@[m]);
    lemma_portal_has_one_view(after, id)
}

/// The far surface does not show: two portals that differ in it alone have the same view.
pub proof fn lemma_far_surface_does_not_show(
    before: Spaces,
    one: Spaces,
    two: Spaces,
    id: PortalId,
    descs: (PortalDescriptor, PortalDescriptor),
    measures: (PortalMeasure, PortalMeasure),
    row: u32,
) -> (places: (int, int))
    requires
        one.wf(),
        two.wf(),
        before.portal_added(&one, id, portal_record(descs.0, measures.0, row)),
        before.portal_added(&two, id, portal_record(descs.1, measures.1, row)),
        descs.0.a == descs.1.a,
        descs.0.half_extent == descs.1.half_extent,
        measures.0.a_inverse == measures.1.a_inverse,
    ensures
        0 <= places.0 < one.portal_views@.len(),
        0 <= places.1 < two.portal_views@.len(),
        one.portal_views@[places.0].coordinate_space == row,
        one.portal_views@[places.0] == two.portal_views@[places.1],
{
    (lemma_portal_has_one_view(one, id), lemma_portal_has_one_view(two, id))
}

/// A portal that was moved is shown where it was moved to, as large as before, and its row
/// has the new map; where the row was when the last frame ended stays known.
pub proof fn lemma_moved_portal_is_shown_there(
    before: Spaces,
    after: Spaces,
    id: PortalId,
    a: [F32; 16],
    b: [F32; 16],
    measure: PortalMeasure,
) -> (k: int)
    requires
        before.wf(),
        after.wf(),
        before.portals@.contains_key(id),
        before.portal_changed(
            &after,
            id,
            (PortalRecord {
                a,
                b,
                a_inverse: measure.a_inverse,
                pair_map_inverse: measure.pair_map_inverse,
                ..before.portals@[id]
            }),
        ),
    ensures
        0 <= k < after.portal_views@.len(),
        shows(
            after.portal_views@[k],
            a,
            measure.a_inverse,
            before.portals@[id].half_extent,
            before.portals@[id].row,
        ),
        after.portal_views@.len() == before.portal_views@.len(),
        after.history.current@[before.portals@[id].row as int] == measure.pair_map_inverse,
        after.history.previous@ == before.history.previous@,
        after.portals@[id].a == a,
        after.portals@[id].b == b,
{
    let _ = lemma_portal_has_one_view(before, id);
    lemma_portal_has_one_view(after, id)
}

/// Portal `p` leads to portal `q`: the near surface of `q` lies within the opening of `p`,
/// seen from its far surface, and no farther off than one of its half extents.
pub open spec fn leads_to(spaces: Spaces, p: int, q: int) -> bool {
    let opening = spaces.portal_views@[p].half_extent;
    let local = spaces.locals@[p]@[q];
    &&& local[0].spec_abs().spec_le(opening[0])
    &&& local[1].spec_abs().spec_le(opening[1])
    &&& local[2].spec_abs().spec_le(opening[0]) || local[2].spec_abs().spec_le(opening[1])
}

/// The chain goes through the portals of `sequence`, and the places behind it are blank.
pub open spec fn goes_through(chain: GpuPortalChain, sequence: Seq<u32>) -> bool {
    &&& chain.depth == sequence.len()
    &&& forall|i: int| 0 <= i < sequence.len() ==> #[trigger] chain.portals[i] == sequence[i]
    &&& forall|i: int| sequence.len() <= i < 3 ==> #[trigger] chain.portals[i] == 0
}

/// The published chains are those of at most three portals in which each leads to the next,
/// and there are no more than fit the table.
pub proof fn lemma_chains_are_those_that_lead_on(spaces: Spaces, sequence: Seq<u32>)
    requires
        spaces.wf(),
        1 <= sequence.len() <= 3,
    ensures
        spaces.portal_chains@.len() <= 300,
        (exists|k: int|
            0 <= k < spaces.portal_chains@.len() && goes_through(
                #[trigger] spaces.portal_chains@[k],
                sequence,
            )) <==> {
            &&& forall|i: int|
                0 <= i < sequence.len() ==> #[trigger] sequence[i] < spaces.portal_views@.len()
            &&& forall|i: int|
                1 <= i < sequence.len() ==> leads_to(
                    spaces,
                    sequence[i - 1] as int,
                    #[trigger] sequence[i] as int,
                )
        },
{
    let ordered = spaces.ordered();
    let n = ordered.len() as int;
    let leads = openings(ordered, spaces.locals@);
    let all = portal_chains(leads, n);
    let values = spaces.portals.value_by_slot@;
    lemma_portals_below(values, spaces.field.capacity as int);
    lemma_chains_are_complete(leads, n, sequence);
    assert forall|p: int, q: int| 0 <= p < n && 0 <= q < n implies #[trigger] leads[p][q]
        == leads_to(spaces, p, q) by {
        let opening = ordered[p].half_extent;
        let z = spaces.locals@[p]@[q][2].spec_abs();
        z.lemma_order(opening[0]);
        z.lemma_order(opening[1]);
        opening[0].lemma_order(opening[1]);
        assert(spaces.portal_views@[p].half_extent == opening);
    }
    if is_chain(leads, n, sequence) {
        let k = all.index_of(sequence);
        assert(all[k] == sequence);
        assert(goes_through(spaces.portal_chains@[k], sequence));
        assert forall|i: int| 1 <= i < sequence.len() implies leads_to(
            spaces,
            sequence[i - 1] as int,
            #[trigger] sequence[i] as int,
        ) by {
            assert(leads[sequence[i - 1] as int][sequence[i] as int]);
        }
    }
    if exists|k: int|
        0 <= k < spaces.portal_chains@.len() && goes_through(
            #[trigger] spaces.portal_chains@[k],
            sequence,
        ) {
        let k = choose|k: int|
            0 <= k < spaces.portal_chains@.len() && goes_through(
                #[trigger] spaces.portal_chains@[k],
                sequence,
            );
        assert(spaces.portal_chains@[k].holds(all[k]));
        assert(all[k].len() == sequence.len());
        assert forall|i: int| 0 <= i < sequence.len() implies all[k][i] == sequence[i] by {
            assert(spaces.portal_chains@[k].portals[i] == sequence[i]);
        }
        assert(all[k] =~= sequence);
        assert(all.contains(sequence));
    }
}

/// An opening that is larger leads at least as far, on whichever side of it something
/// stands.
pub proof fn lemma_larger_opening_leads_farther(
    small: [F32; 2],
    large: [F32; 2],
    local: [F32; 3],
    mirrored: [F32; 3],
)
    requires
        small[0].spec_le(large[0]),
        small[1].spec_le(large[1]),
        mirrored[0].spec_abs() == local[0].spec_abs(),
        mirrored[1].spec_abs() == local[1].spec_abs(),
        mirrored[2].spec_abs() == local[2].spec_abs(),
        crate::spaces::opens_onto(small, local),
    ensures
        crate::spaces::opens_onto(large, local),
        crate::spaces::opens_onto(small, mirrored),
{
    small[0].lemma_order(large[0]);
    small[1].lemma_order(large[1]);
    small[0].lemma_order(small[1]);
    large[0].lemma_order(large[1]);
    local[0].spec_abs().lemma_order(small[0]);
    local[0].spec_abs().lemma_order(large[0]);
    local[1].spec_abs().lemma_order(small[1]);
    local[1].spec_abs().lemma_order(large[1]);
    local[2].spec_abs().lemma_order(small[0]);
    local[2].spec_abs().lemma_order(small[1]);
    local[2].spec_abs().lemma_order(large[0]);
    local[2].spec_abs().lemma_order(large[1]);
}

/// `a` comes before `b`: where they first differ, `a` has ended or names the lower portal.
pub open spec fn precedes(a: Seq<u32>, b: Seq<u32>) -> bool {
    exists|i: int| #[trigger] differs_at(a, b, i)
}

/// The two agree up to `i`, where `a` has ended or names the lower portal.
pub open spec fn differs_at(a: Seq<u32>, b: Seq<u32>, i: int) -> bool {
    &&& 0 <= i <= a.len()
    &&& i < b.len()
    &&& forall|j: int| 0 <= j < i ==> #[trigger] a[j] == b[j]
    &&& i == a.len() || a[i] < b[i]
}

spec fn in_chain_order(list: Seq<Seq<u32>>) -> bool {
    forall|k: int, l: int|
        0 <= k < l < list.len() ==> precedes(#[trigger] list[k], #[trigger] list[l])
}

spec fn starts_with(sequence: Seq<u32>, prefix: Seq<u32>) -> bool {
    &&& sequence.len() >= prefix.len()
    &&& forall|i: int| 0 <= i < prefix.len() ==> #[trigger] sequence[i] == prefix[i]
}

/// The sequence starts with the prefix and goes on with a portal from `p` on.
spec fn goes_on_from(sequence: Seq<u32>, prefix: Seq<u32>, p: int) -> bool {
    &&& starts_with(sequence, prefix)
    &&& sequence.len() > prefix.len()
    &&& sequence[prefix.len() as int] >= p
}

proof fn lemma_joined_in_order(a: Seq<Seq<u32>>, b: Seq<Seq<u32>>)
    requires
        in_chain_order(a),
        in_chain_order(b),
        forall|k: int, l: int|
            0 <= k < a.len() && 0 <= l < b.len() ==> precedes(#[trigger] a[k], #[trigger] b[l]),
    ensures
        in_chain_order(a + b),
{
    let all = a + b;
    assert forall|k: int, l: int| 0 <= k < l < all.len() implies precedes(
        #[trigger] all[k],
        #[trigger] all[l],
    ) by {
        let n = a.len();
        if l < n {
            assert(all[k] == a[k] && all[l] == a[l]);
        } else if k >= n {
            assert(all[k] == b[k - n] && all[l] == b[l - n]);
        } else {
            assert(all[k] == a[k] && all[l] == b[l - n]);
        }
    }
}

proof fn lemma_chains_from_in_order(
    leads: Seq<Seq<bool>>,
    n: int,
    prefix: Seq<u32>,
    room: nat,
)
    requires
        n <= u32::MAX,
    ensures
        in_chain_order(chains_from(leads, n, prefix, room)),
        forall|k: int|
            0 <= k < chains_from(leads, n, prefix, room).len() ==> starts_with(
                #[trigger] chains_from(leads, n, prefix, room)[k],
                prefix,
            ),
    decreases room, n + 1,
{
    let own: Seq<Seq<u32>> = if prefix.len() > 0 {
        seq![prefix]
    } else {
        Seq::empty()
    };
    let all = chains_from(leads, n, prefix, room);
    if room > 0 && n >= 0 {
        let more = chains_through(leads, n, prefix, room, 0);
        lemma_chains_through_in_order(leads, n, prefix, room, 0);
        assert forall|k: int, l: int| 0 <= k < own.len() && 0 <= l < more.len() implies precedes(
            #[trigger] own[k],
            #[trigger] more[l],
        ) by {
            assert(goes_on_from(more[l], prefix, 0));
            assert(differs_at(own[k], more[l], prefix.len() as int));
        }
        lemma_joined_in_order(own, more);
        assert forall|k: int| 0 <= k < all.len() implies starts_with(
            #[trigger] all[k],
            prefix,
        ) by {
            if k >= own.len() {
                assert(all[k] == more[k - own.len()]);
                assert(goes_on_from(more[k - own.len()], prefix, 0));
            }
        }
    }
}

proof fn lemma_chains_through_in_order(
    leads: Seq<Seq<bool>>,
    n: int,
    prefix: Seq<u32>,
    room: nat,
    p: int,
)
    requires
        n <= u32::MAX,
        0 <= p,
    ensures
        in_chain_order(chains_through(leads, n, prefix, room, p)),
        forall|k: int|
            0 <= k < chains_through(leads, n, prefix, room, p).len() ==> goes_on_from(
                #[trigger] chains_through(leads, n, prefix, room, p)[k],
                prefix,
                p,
            ),
    decreases room, n - p,
{
    if p < n && room > 0 {
        let longer = prefix.push(p as u32);
        let with_p: Seq<Seq<u32>> = if continues(leads, prefix, p) {
            chains_from(leads, n, longer, (room - 1) as nat)
        } else {
            Seq::empty()
        };
        let rest = chains_through(leads, n, prefix, room, p + 1);
        if continues(leads, prefix, p) {
            lemma_chains_from_in_order(leads, n, longer, (room - 1) as nat);
        }
        lemma_chains_through_in_order(leads, n, prefix, room, p + 1);
        let d = prefix.len() as int;
        assert forall|k: int| 0 <= k < with_p.len() implies goes_on_from(
            #[trigger] with_p[k],
            prefix,
            p,
        ) && with_p[k][d] == p by {
            assert(starts_with(with_p[k], longer));
            assert(with_p[k][d] == longer[d]);
            assert forall|i: int| 0 <= i < prefix.len() implies #[trigger] with_p[k][i]
                == prefix[i] by {
                assert(with_p[k][i] == longer[i]);
            }
        }
        assert forall|k: int, l: int| 0 <= k < with_p.len() && 0 <= l < rest.len() implies precedes(
            #[trigger] with_p[k],
            #[trigger] rest[l],
        ) by {
            assert(goes_on_from(with_p[k], prefix, p) && with_p[k][d] == p);
            assert(goes_on_from(rest[l], prefix, p + 1));
            assert(differs_at(with_p[k], rest[l], d));
        }
        lemma_joined_in_order(with_p, rest);
        let all = chains_through(leads, n, prefix, room, p);
        assert(all == with_p + rest);
        assert forall|k: int| 0 <= k < all.len() implies goes_on_from(
            #[trigger] all[k],
            prefix,
            p,
        ) by {
            if k < with_p.len() {
                assert(all[k] == with_p[k]);
            } else {
                assert(all[k] == rest[k - with_p.len()]);
                assert(goes_on_from(rest[k - with_p.len()], prefix, p + 1));
            }
        }
    }
}

/// The chains stand in order, a chain before those that go on from it, and lower portals
/// before higher ones; so no chain stands there twice.
pub proof fn lemma_chains_stand_in_order(spaces: Spaces, k: int, l: int) -> (i: int)
    requires
        spaces.wf(),
        0 <= k < l < spaces.portal_chains@.len(),
    ensures
        ({
            let a = spaces.portal_chains@[k];
            let b = spaces.portal_chains@[l];
            &&& 0 <= i <= a.depth
            &&& i < b.depth <= 3
            &&& forall|j: int| 0 <= j < i ==> #[trigger] a.portals[j] == b.portals[j]
            &&& i == a.depth || a.portals[i] < b.portals[i]
        }),
{
    let ordered = spaces.ordered();
    let n = ordered.len() as int;
    let leads = openings(ordered, spaces.locals@);
    let all = portal_chains(leads, n);
    lemma_portals_below(spaces.portals.value_by_slot@, spaces.field.capacity as int);
    lemma_chains_from_in_order(leads, n, Seq::empty(), 3);
    let a = all[k];
    let b = all[l];
    assert(precedes(a, b));
    let i = choose|i: int| #[trigger] differs_at(a, b, i);
    assert(spaces.portal_chains@[k].holds(a));
    assert(spaces.portal_chains@[l].holds(b));
    assert forall|j: int| 0 <= j < i implies #[trigger] spaces.portal_chains@[k].portals[j]
        == spaces.portal_chains@[l].portals[j] by {
        assert(a[j] == b[j]);
        assert(spaces.portal_chains@[l].portals[j] == b[j]);
    }
    assert(spaces.portal_chains@[l].portals[i] == b[i]);
    if i < a.len() {
        assert(spaces.portal_chains@[k].portals[i] == a[i]);
    }
    i
}

} // verus!
