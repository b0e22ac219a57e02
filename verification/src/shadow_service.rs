//! Which lights are served with a part of the shadow atlas.
use vstd::prelude::*;

use crate::float_bits::F32;
use crate::light_projection::{
    all_numbers, keeps_base, lemma_bases_are_disjoint, lemma_continuing_winner_keeps_base,
    lemma_winners_get_valid_bases, shadow_rank, shadow_winners, wins,
};
use crate::lights::{LightRecord, Lights};
use crate::ordering::{lemma_ordered, ordered, Ordered};
use crate::shadow_budget::{
    caster_limit, lemma_numbers_are_ranked, lemma_scored, lemma_winners, was_scored,
};

verus! {

/// The light behind a compact slot.
pub open spec fn light_at(lights: Lights, slot: int) -> LightRecord {
    lights.records@[lights.projection.rows.rows.id_by_slot@[slot]]
}

/// The light at `slot` asks for a shadow.
pub open spec fn asks(lights: Lights, slot: int) -> bool {
    light_at(lights, slot).row.shadow_requested != 0xFFFF_FFFFu32
}

/// The light at `slot` shines from a direction.
pub open spec fn directional(lights: Lights, slot: int) -> bool {
    light_at(lights, slot).row.light_type == 0
}

/// The light at `slot` has a part of the atlas.
pub open spec fn served(lights: Lights, slot: int) -> bool {
    lights.slots@[slot][1] != 0xFFFF_FFFFu32
}

/// The budget was due to be ranked, and `after` is what came of it.
pub open spec fn ranked(before: Lights, after: Lights, measured: Seq<F32>) -> bool {
    &&& before.wf()
    &&& before.projection.atlas_dirty
    &&& measured.len() == before.slots@.len()
    &&& before.budget_ranked(&after, measured)
}

/// What was measured is a number for every light that is ranked by it.
pub open spec fn measured_numbers(lights: Lights, measured: Seq<F32>) -> bool {
    forall|i: int|
        0 <= i < measured.len() && asks(lights, i) && !directional(lights, i) ==> !(
        #[trigger] measured[i]).spec_is_nan()
}

/// How many casters an atlas with that many layers serves: six layers each, 42 at most.
pub open spec fn most_served(capacity: u32) -> int {
    if capacity as int / 6 < 42 {
        capacity as int / 6
    } else {
        42
    }
}

proof fn lemma_scored_members(lights: Lights, measured: Seq<F32>, n: int, slot: int)
    requires
        0 <= slot < n <= lights.projection.rows.spec_len() <= usize::MAX,
    ensures
        was_scored(lights.scored(measured, n), slot) <==> asks(lights, slot),
        forall|k: int|
            0 <= k < lights.scored(measured, n).len() && (#[trigger] lights.scored(
                measured,
                n,
            )[k]).1 == slot ==> lights.scored(measured, n)[k].0 == if directional(lights, slot) {
                F32 { bits: 0x7F7F_FFFF }
            } else {
                measured[slot]
            },
    decreases n,
{
    let all = lights.scored(measured, n);
    let rest = lights.scored(measured, n - 1);
    lemma_scored(&lights, measured, n - 1);
    if slot < n - 1 {
        lemma_scored_members(lights, measured, n - 1, slot);
        if was_scored(rest, slot) {
            let i = choose|i: int| 0 <= i < rest.len() && (#[trigger] rest[i]).1 == slot;
            assert(all[i] == rest[i]);
        }
        if was_scored(all, slot) {
            let i = choose|i: int| 0 <= i < all.len() && (#[trigger] all[i]).1 == slot;
            assert(all[i] == rest[i]);
        }
        assert forall|k: int| 0 <= k < all.len() && (#[trigger] all[k]).1 == slot implies all[k].0
            == (if directional(lights, slot) {
            F32 { bits: 0x7F7F_FFFF }
        } else {
            measured[slot]
        }) by {
            assert(all[k] == rest[k]);
        }
    } else {
        if asks(lights, slot) {
            assert(all[all.len() - 1].1 == slot);
        }
        assert(!was_scored(rest, slot)) by {
            if was_scored(rest, slot) {
                let i = choose|i: int| 0 <= i < rest.len() && (#[trigger] rest[i]).1 == slot;
                assert(rest[i].1 < n - 1);
            }
        }
        assert forall|k: int| 0 <= k < all.len() && (#[trigger] all[k]).1 == slot implies k
            == all.len() - 1 by {
            if k < rest.len() {
                assert(rest[k].1 < n - 1);
            }
        }
    }
}

/// Who did not win is outranked by everyone who did.
proof fn lemma_winner_outranks(
    scores: Seq<(F32, usize)>,
    max_casters: int,
    winners: Seq<int>,
    i: int,
    j: int,
)
    requires
        0 <= max_casters,
        forall|i: int, j: int|
            0 <= i < j < scores.len() ==> (#[trigger] scores[i]).1 < (#[trigger] scores[j]).1,
        all_numbers(scores),
        wins(scores, max_casters, winners),
        0 <= i < scores.len(),
        0 <= j < scores.len(),
        !winners.contains(scores[i].1 as int),
        winners.contains(scores[j].1 as int),
    ensures
        !scores[j].0.spec_lt(scores[i].0),
        !scores[i].0.spec_lt(scores[j].0) ==> scores[j].1 < scores[i].1,
        winners.len() == max_casters,
{
    broadcast use vstd::seq_lib::group_to_multiset_ensures;

    let ranking = lemma_numbers_are_ranked(scores, max_casters);
    let keys = scores.map_values(|s: (F32, usize)| shadow_rank(s));
    let order = ordered(keys);
    lemma_ordered(keys);
    assert(winners == shadow_winners(scores, max_casters));
    assert(scores.to_multiset().count(scores[i]) > 0);
    assert(scores.to_multiset().count(scores[j]) > 0);
    assert(ranking.contains(scores[i]));
    assert(ranking.contains(scores[j]));
    let p = ranking.index_of(scores[i]);
    assert(p >= winners.len()) by {
        if p < winners.len() {
            assert(winners[p] == scores[i].1);
        }
    }
    let k = winners.index_of(scores[j].1 as int);
    assert(ranking.contains(ranking[k]));
    assert(scores.to_multiset().count(ranking[k]) > 0);
    assert(scores.contains(ranking[k]));
    let m = scores.index_of(ranking[k]);
    assert(scores[m].1 == scores[j].1);
    assert(m == j);
    assert(order[k].at_most(order[p]));
    scores[j].0.lemma_order(scores[i].0);
    scores[i].0.lemma_order(scores[j].0);
    assert(scores[i].1 != scores[j].1);
}

/// The winners that the budget went to, and what each slot got.
proof fn lemma_ranking(before: Lights, after: Lights, measured: Seq<F32>) -> (winners: Seq<int>)
    requires
        ranked(before, after, measured),
    ensures
        ({
            let n = before.slots@.len() as int;
            let scores = before.scored(measured, n);
            let limit = most_served(before.shadow_face_capacity);
            &&& wins(scores, limit, winners)
            &&& before.budget_goes_to(measured, winners)
            &&& before.atlas_given(&after, winners)
            &&& winners.len() <= limit
            &&& winners.no_duplicates()
            &&& forall|i: int, j: int|
                0 <= i < j < scores.len() ==> (#[trigger] scores[i]).1 < (#[trigger] scores[j]).1
            &&& forall|k: int|
                0 <= k < winners.len() ==> 0 <= #[trigger] winners[k] < n && asks(
                    before,
                    winners[k],
                )
            &&& forall|s: int|
                0 <= s < n ==> (#[trigger] served(after, s) <==> winners.contains(s))
            &&& measured_numbers(before, measured) ==> all_numbers(scores)
            &&& after.slots@.len() == n
        }),
{
    let n = before.slots@.len() as int;
    let scores = before.scored(measured, n);
    let limit = caster_limit(before.shadow_face_capacity);
    let winners = choose|winners: Seq<int>| #[trigger]
        before.budget_goes_to(measured, winners) && before.atlas_given(&after, winners);
    lemma_scored(&before, measured, n);
    lemma_winners(scores, limit, winners);
    assert forall|k: int| 0 <= k < winners.len() implies 0 <= #[trigger] winners[k] < n && asks(
        before,
        winners[k],
    ) by {
        assert(was_scored(scores, winners[k]));
        let i = choose|i: int| 0 <= i < scores.len() && (#[trigger] scores[i]).1 == winners[k];
        assert(scores[i].1 < n);
        lemma_scored_members(before, measured, n, winners[k]);
    }
    assert forall|s: int| 0 <= s < n implies (#[trigger] served(after, s) <==> winners.contains(
        s,
    )) by {
        lemma_winners_get_valid_bases(winners, before.slots@, limit, s);
        assert(after.slots@[s] == after.slots@[s]);
    }
    if measured_numbers(before, measured) {
        assert forall|k: int| 0 <= k < scores.len() implies !(
        #[trigger] scores[k]).0.spec_is_nan() by {
            let slot = scores[k].1 as int;
            assert(slot < n);
            assert(was_scored(scores, slot));
            lemma_scored_members(before, measured, n, slot);
            if !directional(before, slot) {
                assert(!measured[slot].spec_is_nan());
            }
        }
    }
    winners
}

/// No light is served before one that matters more: if a light asks for a shadow and is not
/// served, none that was measured to matter less is, and neither is any in place of a
/// directional one; and then the atlas is used to its limit.
proof fn lemma_served_first(before: Lights, after: Lights, measured: Seq<F32>, i: int, j: int)
    requires
        ranked(before, after, measured),
        measured_numbers(before, measured),
        0 <= i < before.slots@.len(),
        0 <= j < before.slots@.len(),
        asks(before, i),
        !served(after, i),
        served(after, j),
    ensures
        ({
            let most = F32 { bits: 0x7F7F_FFFF };
            let a = if directional(before, i) { most } else { measured[i] };
            let b = if directional(before, j) { most } else { measured[j] };
            !b.spec_lt(a) && (!a.spec_lt(b) ==> j < i)
        }),
        asks(before, j),
{
    let winners = lemma_ranking(before, after, measured);
    let n = before.slots@.len() as int;
    let scores = before.scored(measured, n);
    assert(winners.contains(j));
    let k = winners.index_of(j);
    assert(asks(before, winners[k]));
    lemma_scored_members(before, measured, n, i);
    lemma_scored_members(before, measured, n, j);
    let p = choose|p: int| 0 <= p < scores.len() && (#[trigger] scores[p]).1 == i;
    let q = choose|q: int| 0 <= q < scores.len() && (#[trigger] scores[q]).1 == j;
    lemma_winner_outranks(
        scores,
        most_served(before.shadow_face_capacity),
        winners,
        p,
        q,
    );
}

/// A directional light is served before any other: if it asks for a shadow and is not
/// served, every light that is served is directional too. Only a light that was measured to
/// be the largest finite number, or no number at all, could stand in its way.
pub proof fn lemma_directional_lights_are_served_first(
    before: Lights,
    after: Lights,
    measured: Seq<F32>,
    sun: int,
    other: int,
)
    requires
        ranked(before, after, measured),
        forall|i: int|
            0 <= i < measured.len() ==> (#[trigger] measured[i]).spec_lt(
                F32 { bits: 0x7F7F_FFFF },
            ),
        0 <= sun < before.slots@.len(),
        0 <= other < before.slots@.len(),
        asks(before, sun),
        directional(before, sun),
        !served(after, sun),
        served(after, other),
    ensures
        directional(before, other),
{
    assert(measured_numbers(before, measured));
    lemma_served_first(before, after, measured, sun, other);
    assert(measured[other].spec_lt(F32 { bits: 0x7F7F_FFFF }));
}

/// Of two lights that shine from a place, the one that was measured to matter more is
/// served first.
pub proof fn lemma_stronger_lights_are_served_first(
    before: Lights,
    after: Lights,
    measured: Seq<F32>,
    strong: int,
    weak: int,
)
    requires
        ranked(before, after, measured),
        measured_numbers(before, measured),
        0 <= strong < before.slots@.len(),
        0 <= weak < before.slots@.len(),
        asks(before, strong),
        !directional(before, strong),
        !directional(before, weak),
        measured[weak].spec_lt(measured[strong]),
        served(after, weak),
    ensures
        served(after, strong),
{
    if !served(after, strong) {
        lemma_served_first(before, after, measured, strong, weak);
    }
}

/// Of two lights of equal importance, the one in the lower slot is served first.
pub proof fn lemma_lower_slots_are_served_first(
    before: Lights,
    after: Lights,
    measured: Seq<F32>,
    low: int,
    high: int,
)
    requires
        ranked(before, after, measured),
        measured_numbers(before, measured),
        0 <= low < high < before.slots@.len(),
        asks(before, low),
        directional(before, low) == directional(before, high),
        !directional(before, low) ==> measured[low].spec_same_value(measured[high]),
        served(after, high),
    ensures
        served(after, low),
{
    if !served(after, low) {
        lemma_served_first(before, after, measured, low, high);
        measured[low].lemma_order(measured[high]);
        measured[high].lemma_order(measured[low]);
        let most = F32 { bits: 0x7F7F_FFFF };
        most.lemma_order(most);
    }
}

/// The shadow pass has a matrix for every layer up to the last in use, and one at least.
pub proof fn lemma_matrices_reach_the_last_layer(
    before: Lights,
    after: Lights,
    measured: Seq<F32>,
    slot: int,
)
    requires
        ranked(before, after, measured),
        0 <= slot < after.slots@.len(),
    ensures
        after.shadow_matrix_count >= 1,
        served(after, slot) ==> after.slots@[slot][1] + 6 <= after.shadow_matrix_count,
        after.active_shadow_face_count > 0 ==> after.shadow_matrix_count
            == after.active_shadow_face_count && exists|s: int|
            0 <= s < after.slots@.len() && served(after, s) && (#[trigger] after.slots@[s])[1] + 6
                == after.active_shadow_face_count,
        after.shadow_face_capacity == before.shadow_face_capacity,
        !after.projection.atlas_dirty,
{
    assert(after.slots@[slot] == after.slots@[slot]);
}

/// Whoever is served asked for it, has six layers of the atlas that no one else has, and
/// kept those that it alone had. A light that asks and is not served found the atlas used
/// to its limit.
pub proof fn lemma_atlas_is_shared_out(
    before: Lights,
    after: Lights,
    measured: Seq<F32>,
    slot: int,
    other: int,
) -> (winners: Seq<int>)
    requires
        ranked(before, after, measured),
        0 <= slot < before.slots@.len(),
        0 <= other < before.slots@.len(),
    ensures
        after.slots@.len() == before.slots@.len(),
        served(after, slot) ==> {
            &&& asks(before, slot)
            &&& after.slots@[slot][1] % 6 == 0
            &&& after.slots@[slot][1] as int / 6 < 42
            &&& after.slots@[slot][1] + 6 <= before.shadow_face_capacity
            &&& after.slots@[slot][1] + 6 <= after.active_shadow_face_count
        },
        served(after, slot) && served(after, other) && slot != other ==> after.slots@[slot][1]
            != after.slots@[other][1],
        ({
            let base = before.slots@[slot][1];
            &&& served(after, slot)
            &&& base % 6 == 0
            &&& base as int / 6 < most_served(before.shadow_face_capacity)
            &&& forall|s: int|
                0 <= s < before.slots@.len() && s != slot ==> (#[trigger] before.slots@[s])[1]
                    != base
        }) ==> after.slots@[slot][1] == before.slots@[slot][1],
        asks(before, slot) && !served(after, slot) && measured_numbers(before, measured)
            ==> winners.len() == most_served(before.shadow_face_capacity),
        winners.no_duplicates(),
        forall|k: int|
            0 <= k < winners.len() ==> 0 <= #[trigger] winners[k] < before.slots@.len() && served(
                after,
                winners[k],
            ),
{
    let winners = lemma_ranking(before, after, measured);
    let limit = most_served(before.shadow_face_capacity);
    let n = before.slots@.len() as int;
    let scores = before.scored(measured, n);
    assert(after.slots@[slot] == after.slots@[slot]);
    assert(after.slots@[other] == after.slots@[other]);
    assert forall|k: int| 0 <= k < winners.len() implies 0 <= #[trigger] winners[k] < n && served(
        after,
        winners[k],
    ) by {
        assert(winners.contains(winners[k]));
    }
    if served(after, slot) {
        assert(winners.contains(slot));
        let k = winners.index_of(slot);
        assert(asks(before, winners[k]));
        lemma_winners_get_valid_bases(winners, before.slots@, limit, slot);
        if served(after, other) && slot != other {
            lemma_bases_are_disjoint(winners, before.slots@, limit, slot, other);
        }
        let base = before.slots@[slot][1];
        if base % 6 == 0 && base as int / 6 < limit && forall|s: int|
            0 <= s < n && s != slot ==> (#[trigger] before.slots@[s])[1] != base {
            assert(keeps_base(winners, before.slots@, limit, k)) by {
                assert forall|j: int| 0 <= j < k implies crate::light_projection::previous_base(
                    before.slots@,
                    #[trigger] winners[j],
                ) != base by {
                    assert(winners[j] != winners[k]);
                    assert(before.slots@[winners[j]][1] != base);
                }
            }
            lemma_continuing_winner_keeps_base(winners, before.slots@, limit, k);
        }
    }
    if asks(before, slot) && !served(after, slot) && measured_numbers(before, measured) {
        lemma_scored_members(before, measured, n, slot);
        let p = choose|p: int| 0 <= p < scores.len() && (#[trigger] scores[p]).1 == slot;
        lemma_loser_means_full(scores, limit, winners, p);
    }
    winners
}

proof fn lemma_loser_means_full(
    scores: Seq<(F32, usize)>,
    max_casters: int,
    winners: Seq<int>,
    i: int,
)
    requires
        0 <= max_casters,
        forall|i: int, j: int|
            0 <= i < j < scores.len() ==> (#[trigger] scores[i]).1 < (#[trigger] scores[j]).1,
        all_numbers(scores),
        wins(scores, max_casters, winners),
        0 <= i < scores.len(),
        !winners.contains(scores[i].1 as int),
    ensures
        winners.len() == max_casters,
{
    broadcast use vstd::seq_lib::group_to_multiset_ensures;

    let ranking = lemma_numbers_are_ranked(scores, max_casters);
    assert(scores.to_multiset().count(scores[i]) > 0);
    assert(ranking.contains(scores[i]));
    let p = ranking.index_of(scores[i]);
    if winners.len() < max_casters {
        assert(winners[p] == scores[i].1);
    }
}

} // verus!
