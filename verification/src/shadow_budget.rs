//! Ranking of the shadow budget and tracking of what cached faces show.
use vstd::prelude::*;

use crate::float_bits::F32;
use crate::handles::LightId;
use crate::light_projection::{
    all_numbers, assigned, assigned_base, is_ranking, leading_slots,
    lemma_winners_get_valid_bases, shadow_rank, shadow_winners, stable_shadow_assignments,
    valid_base, wins, FACES_PER_LIGHT, NO_ATLAS_BASE,
};
use crate::lights::{LightRecord, Lights, SceneLightRow};
use crate::ordering::{lemma_ordered, ordered};

verus! {

/// Casters that the shadow pass can serve at most.
pub const MAX_SHADOW_CASTERS: usize = 42;

/// Score of a directional light: the largest finite number.
pub const DIRECTIONAL_SCORE_BITS: u32 = 0x7F7F_FFFF;

const FNV_OFFSET: u64 = 14695981039346656037;

const FNV_PRIME: u64 = 1099511628211;

/// FNV-1a over encodings, one word each.
pub open spec fn fnv1a(values: Seq<F32>) -> u64
    decreases values.len(),
{
    if values.len() == 0 {
        14695981039346656037
    } else {
        (((fnv1a(values.drop_last()) ^ (values.last().bits as u64)) * 1099511628211)
            % 0x1_0000_0000_0000_0000) as u64
    }
}

/// FNV-1a over the encodings of numbers, so that every pattern counts, zeros of
/// either sign and patterns that encode no number included.
pub fn fnv1a_f32s(values: &[F32]) -> (hash: u64)
    ensures
        hash == fnv1a(values@),
{
    let mut hash: u64 = FNV_OFFSET;
    let mut i: usize = 0;
    assert(values@.take(0) =~= Seq::<F32>::empty());
    while i < values.len()
        invariant
            0 <= i <= values@.len(),
            hash == fnv1a(values@.take(i as int)),
        decreases values@.len() - i,
    {
        assert(values@.take(i + 1).drop_last() =~= values@.take(i as int));
        hash = (hash ^ (values[i].bits as u64)).wrapping_mul(FNV_PRIME);
        i = i + 1;
    }
    assert(values@.take(i as int) =~= values@);
    hash
}

pub open spec fn camera_hash(view: [F32; 16], projection: [F32; 16]) -> u64 {
    fnv1a(view@) ^ fnv1a(projection@)
}

/// Hash of the camera that directional shadows follow: its view, and its projection
/// without temporal jitter.
pub fn directional_camera_shadow_hash(view: &[F32; 16], projection: &[F32; 16]) -> (hash: u64)
    ensures
        hash == camera_hash(*view, *projection),
{
    fnv1a_f32s(view.as_slice()) ^ fnv1a_f32s(projection.as_slice())
}

/// Hash of what a caster's faces are rendered from.
pub open spec fn caster_hash(row: SceneLightRow, camera: u64) -> u64 {
    let base = fnv1a(row.position_range@) ^ fnv1a(row.direction_outer@) ^ ((row.light_type
        * 2654435761) % 0x1_0000_0000_0000_0000) as u64;
    if row.light_type == 0 {
        base ^ camera
    } else {
        base
    }
}

fn hash_caster(row: &SceneLightRow, camera: u64) -> (hash: u64)
    ensures
        hash == caster_hash(*row, camera),
{
    let base: u64 = fnv1a_f32s(row.position_range.as_slice()) ^ fnv1a_f32s(
        row.direction_outer.as_slice(),
    ) ^ (row.light_type as u64).wrapping_mul(2654435761);
    if row.light_type == 0 {
        base ^ camera
    } else {
        base
    }
}

/// How many casters a shadow atlas of `capacity` layers serves.
pub open spec fn caster_limit(capacity: u32) -> int {
    if capacity / FACES_PER_LIGHT < MAX_SHADOW_CASTERS {
        (capacity / FACES_PER_LIGHT) as int
    } else {
        MAX_SHADOW_CASTERS as int
    }
}

impl Lights {
    /// The record behind a compact slot.
    pub open spec fn realtime(&self, slot: int) -> LightRecord {
        self.records@[self.projection.rows.spec_ids()[slot]]
    }

    /// Score of a light that asks for a shadow, given the measured ones.
    pub open spec fn score(&self, measured: Seq<F32>, slot: int) -> F32 {
        if self.realtime(slot).row.light_type == 0 {
            F32 { bits: DIRECTIONAL_SCORE_BITS }
        } else {
            measured[slot]
        }
    }

    /// Scores of the first `n` compact slots that ask for a shadow.
    pub open spec fn scored(&self, measured: Seq<F32>, n: int) -> Seq<(F32, usize)>
        decreases n,
    {
        if n <= 0 {
            Seq::empty()
        } else if self.realtime(n - 1).row.spec_requests_shadow() {
            self.scored(measured, n - 1).push((self.score(measured, n - 1), (n - 1) as usize))
        } else {
            self.scored(measured, n - 1)
        }
    }

    /// `winners` are compact slots that win the places in the budget, most important
    /// first.
    pub open spec fn budget_goes_to(&self, measured: Seq<F32>, winners: Seq<int>) -> bool {
        wins(
            self.scored(measured, self.projection.rows.spec_len() as int),
            caster_limit(self.shadow_face_capacity),
            winners,
        )
    }

    /// `after` has the atlas given to `winners`.
    pub open spec fn atlas_given(&self, after: &Lights, winners: Seq<int>) -> bool {
        forall|i: int|
            0 <= i < after.slots@.len() ==> (#[trigger] after.slots@[i])[1] == assigned_base(
                winners,
                self.slots@,
                caster_limit(self.shadow_face_capacity),
                i,
            )
    }

    /// Hashes of the casters among the first `n` compact slots.
    pub open spec fn hashes(&self, camera: u64, n: int) -> Seq<u64>
        decreases n,
    {
        if n <= 0 {
            Seq::new(MAX_SHADOW_CASTERS as nat, |i: int| 0u64)
        } else {
            let rest = self.hashes(camera, n - 1);
            let base = self.slots@[n - 1][1];
            if base != NO_ATLAS_BASE && base / FACES_PER_LIGHT < MAX_SHADOW_CASTERS {
                rest.update(
                    (base / FACES_PER_LIGHT) as int,
                    caster_hash(self.realtime(n - 1).row, camera),
                )
            } else {
                rest
            }
        }
    }
}

pub(crate) proof fn lemma_scored(lights: &Lights, measured: Seq<F32>, n: int)
    requires
        0 <= n <= lights.projection.rows.spec_len() <= usize::MAX,
    ensures
        ({
            let s = lights.scored(measured, n);
            &&& forall|i: int| 0 <= i < s.len() ==> (#[trigger] s[i]).1 < n
            &&& forall|i: int, j: int|
                0 <= i < j < s.len() ==> (#[trigger] s[i]).1 < (#[trigger] s[j]).1
        }),
    decreases n,
{
    if n > 0 {
        lemma_scored(lights, measured, n - 1);
        let rest = lights.scored(measured, n - 1);
        let s = lights.scored(measured, n);
        if lights.realtime(n - 1).row.spec_requests_shadow() {
            assert forall|i: int| 0 <= i < s.len() implies (#[trigger] s[i]).1 < n by {
                if i < rest.len() {
                    assert(s[i] == rest[i]);
                }
            }
            assert forall|i: int, j: int| 0 <= i < j < s.len() implies (#[trigger] s[i]).1 < (
            #[trigger] s[j]).1 by {
                assert(s[i] == rest[i]);
                if j < rest.len() {
                    assert(s[j] == rest[j]);
                }
            }
        }
    }
}

/// Some score is for `slot`.
pub(crate) open spec fn was_scored(scores: Seq<(F32, usize)>, slot: int) -> bool {
    exists|i: int| 0 <= i < scores.len() && (#[trigger] scores[i]).1 == slot
}

/// Numbers have a ranking of the general kind: the one by score and slot.
pub(crate) proof fn lemma_numbers_are_ranked(scores: Seq<(F32, usize)>, max_casters: int) -> (ranking: Seq<
    (F32, usize),
>)
    requires
        0 <= max_casters,
        forall|i: int, j: int|
            0 <= i < j < scores.len() ==> (#[trigger] scores[i]).1 < (#[trigger] scores[j]).1,
    ensures
        ranking.to_multiset() == scores.to_multiset(),
        shadow_winners(scores, max_casters) == leading_slots(ranking, max_casters),
        ranking.len() == scores.len(),
        forall|k: int|
            0 <= k < ranking.len() ==> shadow_rank(#[trigger] ranking[k]) == ordered(
                scores.map_values(|s: (F32, usize)| shadow_rank(s)),
            )[k],
{
    broadcast use vstd::seq_lib::group_to_multiset_ensures;

    let keys = scores.map_values(|s: (F32, usize)| shadow_rank(s));
    let order = ordered(keys);
    lemma_ordered(keys);
    assert(keys.no_duplicates()) by {
        assert forall|i: int, j: int|
            0 <= i < keys.len() && 0 <= j < keys.len() && i != j implies keys[i] != keys[j] by {
            assert(scores[i].1 != scores[j].1);
        }
    }
    assert(order.no_duplicates()) by {
        keys.lemma_multiset_has_no_duplicates();
        order.lemma_multiset_has_no_duplicates_conv();
    }
    let ranking = Seq::new(order.len(), |k: int| scores[keys.index_of(order[k])]);
    assert forall|k: int| 0 <= k < order.len() implies {
        let i = keys.index_of(#[trigger] order[k]);
        0 <= i < scores.len() && shadow_rank(scores[i]) == order[k]
    } by {
        assert(order.contains(order[k]));
        assert(keys[keys.index_of(order[k])] == order[k]);
    }
    assert(ranking.no_duplicates()) by {
        assert forall|k: int, l: int|
            0 <= k < ranking.len() && 0 <= l < ranking.len() && k != l implies ranking[k]
            != ranking[l] by {
            assert(order[k] != order[l]);
            assert(shadow_rank(ranking[k]) == order[k]);
            assert(shadow_rank(ranking[l]) == order[l]);
        }
    }
    assert(scores.no_duplicates());
    assert forall|x: (F32, usize)| ranking.contains(x) <==> #[trigger] scores.contains(x) by {
        if scores.contains(x) {
            let i = scores.index_of(x);
            assert(keys.contains(keys[i]));
            assert(order.contains(keys[i]));
            let k = order.index_of(keys[i]);
            assert(order[k] == keys[i]);
            let j = keys.index_of(order[k]);
            assert(keys[j] == keys[i]);
            assert(ranking[k] == x);
        }
        if ranking.contains(x) {
            let k = ranking.index_of(x);
            assert(order[k] == order[k]);
            assert(scores[keys.index_of(order[k])] == x);
        }
    }
    assert(ranking.to_multiset() =~= scores.to_multiset()) by {
        ranking.lemma_multiset_has_no_duplicates();
        scores.lemma_multiset_has_no_duplicates();
        assert forall|x: (F32, usize)|
            ranking.to_multiset().count(x) == scores.to_multiset().count(x) by {
            assert(ranking.contains(x) <==> scores.contains(x));
        }
    }
    assert(shadow_winners(scores, max_casters) =~= leading_slots(ranking, max_casters)) by {
        assert forall|k: int| 0 <= k < order.len() implies (#[trigger] order[k]).row
            == ranking[k].1 by {
            assert(shadow_rank(ranking[k]) == order[k]);
        }
    }
    ranking
}

/// Winners come from the scored slots, each at most once.
pub(crate) proof fn lemma_winners(scores: Seq<(F32, usize)>, max_casters: int, winners: Seq<int>)
    requires
        0 <= max_casters,
        forall|i: int, j: int|
            0 <= i < j < scores.len() ==> (#[trigger] scores[i]).1 < (#[trigger] scores[j]).1,
        wins(scores, max_casters, winners),
    ensures
        winners.len() <= max_casters,
        winners.no_duplicates(),
        forall|k: int| 0 <= k < winners.len() ==> was_scored(scores, #[trigger] winners[k]),
{
    broadcast use vstd::seq_lib::group_to_multiset_ensures;

    let ranking = if all_numbers(scores) {
        lemma_numbers_are_ranked(scores, max_casters)
    } else {
        choose|ranking: Seq<(F32, usize)>| #[trigger]
            is_ranking(scores, ranking) && winners == leading_slots(ranking, max_casters)
    };
    assert(scores.no_duplicates());
    assert(ranking.no_duplicates()) by {
        scores.lemma_multiset_has_no_duplicates();
        ranking.lemma_multiset_has_no_duplicates_conv();
    }
    assert forall|k: int| 0 <= k < ranking.len() implies scores.contains(#[trigger] ranking[k]) by {
        assert(ranking.contains(ranking[k]));
        assert(ranking.to_multiset().count(ranking[k]) > 0);
    }
    assert forall|k: int| 0 <= k < winners.len() implies was_scored(
        scores,
        #[trigger] winners[k],
    ) by {
        let i = scores.index_of(ranking[k]);
        assert(scores[i].1 == winners[k]);
    }
    assert forall|k: int, l: int|
        0 <= k < winners.len() && 0 <= l < winners.len() && k != l implies winners[k]
        != winners[l] by {
        let i = scores.index_of(ranking[k]);
        let j = scores.index_of(ranking[l]);
        assert(scores[i] == ranking[k] && scores[j] == ranking[l]);
        assert(ranking[k] != ranking[l]);
    }
}

/// Where there is a place for each light that was scored, each wins one, whatever the
/// scores are.
pub proof fn lemma_everyone_wins_if_there_is_room(
    scores: Seq<(F32, usize)>,
    max_casters: int,
    winners: Seq<int>,
    i: int,
)
    requires
        scores.len() <= max_casters,
        forall|i: int, j: int|
            0 <= i < j < scores.len() ==> (#[trigger] scores[i]).1 < (#[trigger] scores[j]).1,
        wins(scores, max_casters, winners),
        0 <= i < scores.len(),
    ensures
        winners.contains(scores[i].1 as int),
{
    broadcast use vstd::seq_lib::group_to_multiset_ensures;

    let ranking = if all_numbers(scores) {
        lemma_numbers_are_ranked(scores, max_casters)
    } else {
        choose|ranking: Seq<(F32, usize)>| #[trigger]
            is_ranking(scores, ranking) && winners == leading_slots(ranking, max_casters)
    };
    assert(ranking.len() == ranking.to_multiset().len() && scores.len()
        == scores.to_multiset().len());
    assert(scores.contains(scores[i]));
    assert(scores.to_multiset().count(scores[i]) > 0);
    assert(ranking.contains(scores[i]));
    let k = ranking.index_of(scores[i]);
    assert(winners[k] == scores[i].1);
}

impl Lights {
    /// `count` is one past the last atlas layer that the slots use.
    pub open spec fn faces_in_use(&self, count: u32) -> bool {
        &&& forall|i: int|
            0 <= i < self.slots@.len() && (#[trigger] self.slots@[i])[1] != NO_ATLAS_BASE
                ==> self.slots@[i][1] + FACES_PER_LIGHT <= count
        &&& count > 0 ==> exists|i: int|
            0 <= i < self.slots@.len() && (#[trigger] self.slots@[i])[1] != NO_ATLAS_BASE
                && self.slots@[i][1] + FACES_PER_LIGHT == count
    }

    /// Ranks the shadow budget if something asked for it. `measured` holds the
    /// score of each compact slot, intensity times the square of the range;
    /// directional lights outrank every finite score. Where scores that are not numbers
    /// leave the ranking open, it is open which lights win.
    pub fn rank_shadow_budget(&mut self, measured: &[F32])
        requires
            old(self).wf(),
            measured@.len() == old(self).projection.rows.spec_len(),
        ensures
            final(self).wf(),
            !final(self).projection.atlas_dirty,
            final(self).projection.rows == old(self).projection.rows,
            *final(self) == (Lights {
                projection: final(self).projection,
                slots: final(self).slots,
                active_shadow_face_count: final(self).active_shadow_face_count,
                shadow_matrix_count: final(self).shadow_matrix_count,
                ..*old(self)
            }),
            if old(self).projection.atlas_dirty {
                &&& exists|winners: Seq<int>| #[trigger]
                    old(self).budget_goes_to(measured@, winners) && old(self).atlas_given(
                        final(self),
                        winners,
                    )
                &&& final(self).faces_in_use(final(self).active_shadow_face_count)
                &&& final(self).shadow_matrix_count == if final(self).active_shadow_face_count
                    == 0 {
                    1
                } else {
                    final(self).active_shadow_face_count
                }
            } else {
                &&& final(self).slots == old(self).slots
                &&& final(self).active_shadow_face_count == old(self).active_shadow_face_count
                &&& final(self).shadow_matrix_count == old(self).shadow_matrix_count
            },
    {
        if !self.projection.take_atlas_dirty() {
            return ;
        }
        let ghost before = *self;
        let light_count: usize = self.projection.len();
        let by_capacity: usize = (self.shadow_face_capacity / FACES_PER_LIGHT) as usize;
        let max_casters: usize = if by_capacity < MAX_SHADOW_CASTERS {
            by_capacity
        } else {
            MAX_SHADOW_CASTERS
        };
        let mut scored: Vec<(F32, usize)> = Vec::new();
        let mut slot: usize = 0;
        while slot < light_count
            invariant
                0 <= slot <= light_count,
                self.wf(),
                light_count == self.projection.rows.spec_len(),
                measured@.len() == light_count,
                scored@ == self.scored(measured@, slot as int),
            decreases light_count - slot,
        {
            let id: LightId = self.projection.ids()[slot];
            proof {
                self.projection.rows.rows.lemma_dense(slot as int);
                assert(self.projection.rows.rows@.contains_key(id));
            }
            match self.records.get(id) {
                Some(record) => {
                    if record.row.requests_shadow() {
                        let score: F32 = if record.row.light_type == 0 {
                            F32 { bits: DIRECTIONAL_SCORE_BITS }
                        } else {
                            measured[slot]
                        };
                        scored.push((score, slot));
                    }
                },
                None => {},
            }
            slot = slot + 1;
        }
        proof {
            assert forall|i: int| old(self).realtime(i) == self.realtime(i) by {}
            lemma_scored(self, measured@, light_count as int);
            assert forall|winners: Seq<int>, k: int|
                #![trigger wins(scored@, max_casters as int, winners), winners[k]]
                wins(scored@, max_casters as int, winners) && 0 <= k < winners.len() implies 0
                <= winners[k] < light_count by {
                lemma_winners(scored@, max_casters as int, winners);
                assert(was_scored(scored@, winners[k]));
            }
            lemma_scored_same(old(self), self, measured@, light_count as int);
        }
        let assignments: Vec<u32> = stable_shadow_assignments(
            light_count,
            scored.as_slice(),
            self.slots.as_slice(),
            max_casters,
        );
        let ghost winners = choose|winners: Seq<int>| #[trigger]
            wins(scored@, max_casters as int, winners) && assigned(
                assignments@,
                winners,
                self.slots@,
                max_casters as int,
            );
        proof {
            lemma_winners(scored@, max_casters as int, winners);
            assert forall|j: int| 0 <= j < light_count implies #[trigger] assignments@[j]
                == NO_ATLAS_BASE || valid_base(assignments@[j], max_casters as int) by {
                lemma_winners_get_valid_bases(winners, self.slots@, max_casters as int, j);
            }
        }
        let mut active: u32 = 0;
        let mut i: usize = 0;
        while i < light_count
            invariant
                0 <= i <= light_count,
                assignments@.len() == light_count,
                self.slots@.len() == light_count,
                max_casters <= MAX_SHADOW_CASTERS,
                *self == (Lights { slots: self.slots, ..before }),
                before.wf(),
                light_count == before.projection.rows.spec_len(),
                forall|j: int|
                    0 <= j < light_count ==> #[trigger] assignments@[j] == NO_ATLAS_BASE
                        || valid_base(assignments@[j], max_casters as int),
                forall|j: int|
                    0 <= j < i ==> (#[trigger] self.slots@[j])[1] == assignments@[j]
                        && self.slots@[j][0] == before.projection.rows.spec_rows()[j],
                forall|j: int| i <= j < light_count ==> #[trigger] self.slots@[j] == before.slots@[j],
                forall|j: int|
                    0 <= j < i && #[trigger] assignments@[j] != NO_ATLAS_BASE ==> assignments@[j]
                        + FACES_PER_LIGHT <= active,
                active > 0 ==> exists|j: int|
                    0 <= j < i && #[trigger] assignments@[j] != NO_ATLAS_BASE && assignments@[j]
                        + FACES_PER_LIGHT == active,
            decreases light_count - i,
        {
            let base: u32 = assignments[i];
            let row: u32 = self.slots[i][0];
            let ghost was = active;
            assert(self.slots@[i as int] == before.slots@[i as int]);
            if base != NO_ATLAS_BASE {
                assert(valid_base(assignments@[i as int], max_casters as int));
                if base + FACES_PER_LIGHT > active {
                    active = base + FACES_PER_LIGHT;
                }
            }
            self.slots.set(i, [row, base]);
            proof {
                if active > 0 {
                    if active == was {
                        let j = choose|j: int|
                            0 <= j < i && #[trigger] assignments@[j] != NO_ATLAS_BASE
                                && assignments@[j] + FACES_PER_LIGHT == was;
                        assert(assignments@[j] != NO_ATLAS_BASE);
                    } else {
                        assert(assignments@[i as int] != NO_ATLAS_BASE);
                    }
                }
            }
            i = i + 1;
        }
        self.active_shadow_face_count = active;
        self.shadow_matrix_count = if active == 0 {
            1
        } else {
            active
        };
        proof {
            assert(old(self).budget_goes_to(measured@, winners));
            assert(old(self).atlas_given(self, winners)) by {
                assert forall|j: int| 0 <= j < self.slots@.len() implies (
                #[trigger] self.slots@[j])[1] == assigned_base(
                    winners,
                    before.slots@,
                    max_casters as int,
                    j,
                ) by {
                    assert(self.slots@[j][1] == assignments@[j]);
                }
            }
            assert forall|j: int|
                0 <= j < self.slots@.len() && (#[trigger] self.slots@[j])[1]
                    != NO_ATLAS_BASE implies self.slots@[j][1] + FACES_PER_LIGHT <= active by {
                assert(assignments@[j] == self.slots@[j][1]);
            }
            if active > 0 {
                let j = choose|j: int|
                    0 <= j < i && #[trigger] assignments@[j] != NO_ATLAS_BASE && assignments@[j]
                        + FACES_PER_LIGHT == active;
                assert(self.slots@[j][1] == assignments@[j]);
            }
        }
    }

    /// Notes what each caster's faces are to be rendered from, so that the shadow
    /// pass can tell stale ones.
    pub fn refresh_caster_hashes(&mut self, view: &[F32; 16], projection: &[F32; 16])
        requires
            old(self).wf(),
        ensures
            final(self).wf(),
            *final(self) == (Lights { caster_hashes: final(self).caster_hashes, ..*old(self) }),
            final(self).caster_hashes@ == old(self).hashes(
                camera_hash(*view, *projection),
                old(self).slots@.len() as int,
            ),
    {
        let ghost before = *self;
        let camera: u64 = directional_camera_shadow_hash(view, projection);
        let mut hashes: [u64; 42] = [0;42];
        assert(hashes@ =~= before.hashes(camera, 0));
        let mut slot: usize = 0;
        while slot < self.slots.len()
            invariant
                0 <= slot <= self.slots@.len(),
                *self == before,
                before.wf(),
                hashes@ == before.hashes(camera, slot as int),
            decreases self.slots@.len() - slot,
        {
            let base: u32 = self.slots[slot][1];
            let id: LightId = self.projection.ids()[slot];
            proof {
                self.projection.rows.rows.lemma_dense(slot as int);
                assert(self.projection.rows.rows@.contains_key(id));
            }
            if base != NO_ATLAS_BASE {
                let caster: usize = (base / FACES_PER_LIGHT) as usize;
                if caster < MAX_SHADOW_CASTERS {
                    match self.records.get(id) {
                        Some(record) => {
                            let ghost was = hashes@;
                            hashes[caster] = hash_caster(&record.row, camera);
                            assert(hashes@ =~= was.update(
                                caster as int,
                                caster_hash(before.realtime(slot as int).row, camera),
                            ));
                        },
                        None => {},
                    }
                }
            }
            slot = slot + 1;
        }
        self.caster_hashes = hashes;
    }
}

proof fn lemma_scored_same(a: &Lights, b: &Lights, measured: Seq<F32>, n: int)
    requires
        a.records == b.records,
        a.projection.rows == b.projection.rows,
    ensures
        a.scored(measured, n) == b.scored(measured, n),
    decreases n,
{
    if n > 0 {
        lemma_scored_same(a, b, measured, n - 1);
        assert(a.realtime(n - 1) == b.realtime(n - 1));
    }
}

} // verus!
