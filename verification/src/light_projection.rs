//! Compact realtime-light topology.
//!
//! The sparse map finds a light's compact slot in constant time, while the
//! compact vector keeps the renderer's insertion and swap-remove order.
use vstd::prelude::*;

use crate::entity_projection::EntityRowProjection;
use crate::float_bits::F32;
use crate::handles::LightId;
use crate::ordering::{lemma_ordered, ordered, sort, Ordered, RankedRow};

verus! {

/// Shadow-map layers reserved for one realtime caster.
pub const FACES_PER_LIGHT: u32 = 6;

/// Marks a light without an atlas base.
pub const NO_ATLAS_BASE: u32 = u32::MAX;

pub struct LightProjection {
    pub rows: EntityRowProjection<LightId>,
    pub atlas_dirty: bool,
}

impl LightProjection {
    pub open spec fn wf(&self) -> bool {
        self.rows.wf()
    }

    /// `after` has the light at its end, and a new ranking is due.
    pub open spec fn with_light(&self, after: &Self, id: LightId, gpu_row: u32) -> bool {
        self.rows.with_row(&after.rows, id, gpu_row) && after.atlas_dirty
    }

    /// `after` is without the light; a new ranking is due if it was there.
    pub open spec fn without_light(
        &self,
        after: &Self,
        id: LightId,
        compact_slot: Option<usize>,
    ) -> bool {
        &&& self.rows.without_row(&after.rows, id, compact_slot)
        &&& match compact_slot {
            Some(_) => after.atlas_dirty,
            None => *after == *self,
        }
    }

    /// `after` has its request for a new ranking withdrawn; `dirty` tells whether there
    /// was one.
    pub open spec fn atlas_taken(&self, after: &Self, dirty: bool) -> bool {
        dirty == self.atlas_dirty && after.rows == self.rows && !after.atlas_dirty
    }

    pub fn new() -> (projection: Self)
        ensures
            projection.rows.is_fresh(),
            !projection.atlas_dirty,
    {
        LightProjection { rows: EntityRowProjection::new(), atlas_dirty: false }
    }

    /// Appends a light and asks for the shadow budget to be ranked anew.
    pub fn insert(&mut self, id: LightId, gpu_row: u32) -> (compact_slot: usize)
        requires
            old(self).wf(),
            old(self).rows.can_take(id),
        ensures
            compact_slot == old(self).rows.spec_len(),
            old(self).with_light(final(self), id, gpu_row),
    {
        let compact_slot: usize = self.rows.insert(id, gpu_row);
        self.atlas_dirty = true;
        compact_slot
    }

    /// Removes a light; only a removal that took place asks for a new ranking.
    pub fn remove(&mut self, id: LightId) -> (compact_slot: Option<usize>)
        requires
            old(self).wf(),
        ensures
            old(self).without_light(final(self), id, compact_slot),
    {
        match self.rows.remove(id) {
            Some(compact_slot) => {
                self.atlas_dirty = true;
                Some(compact_slot)
            },
            None => None,
        }
    }

    pub fn slot(&self, id: LightId) -> (compact_slot: Option<usize>)
        requires
            self.wf(),
        ensures
            match compact_slot {
                Some(i) => self.rows.contains(id) && i == self.rows.place(id) && i
                    < self.rows.spec_len() && self.rows.spec_ids()[i as int] == id,
                None => !self.rows.contains(id) && !self.rows.spec_ids().contains(id),
            },
    {
        self.rows.slot(id)
    }

    pub fn ids(&self) -> (ids: &[LightId])
        ensures
            ids@ == self.rows.spec_ids(),
    {
        self.rows.ids()
    }

    pub fn row(&self, compact_slot: usize) -> (row: Option<u32>)
        ensures
            row == if compact_slot < self.rows.spec_rows().len() {
                Some(self.rows.spec_rows()[compact_slot as int])
            } else {
                None::<u32>
            },
    {
        self.rows.row(compact_slot)
    }

    pub fn len(&self) -> (len: usize)
        ensures
            len == self.rows.spec_len(),
    {
        self.rows.len()
    }

    pub fn mark_atlas_dirty(&mut self)
        ensures
            final(self).rows == old(self).rows,
            final(self).atlas_dirty,
    {
        self.atlas_dirty = true;
    }

    /// Reads the request for a new ranking and withdraws it.
    pub fn take_atlas_dirty(&mut self) -> (dirty: bool)
        ensures
            old(self).atlas_taken(final(self), dirty),
    {
        let dirty: bool = self.atlas_dirty;
        self.atlas_dirty = false;
        dirty
    }
}

/// Sort key of a score: higher scores come first, ties go to the lower slot.
pub open spec fn shadow_rank(score: (F32, usize)) -> RankedRow {
    RankedRow { rank: (-score.0.order_key()) as i64, row: score.1 as u64 }
}

/// Compact slots that win a place in the shadow budget, most important first.
pub open spec fn shadow_winners(scores: Seq<(F32, usize)>, max_casters: int) -> Seq<int> {
    let ranking = ordered(scores.map_values(|s: (F32, usize)| shadow_rank(s)));
    let count = if ranking.len() < max_casters { ranking.len() as int } else { max_casters };
    ranking.take(count).map_values(|r: RankedRow| r.row as int)
}

/// Every score is a number.
pub open spec fn all_numbers(scores: Seq<(F32, usize)>) -> bool {
    forall|i: int| 0 <= i < scores.len() ==> !(#[trigger] scores[i]).0.spec_is_nan()
}

/// `a` may stand before `b` in the ranking: its score is higher, or neither score is
/// higher and it has the lower slot. A score that is not a number is neither higher nor
/// lower than another.
pub open spec fn ranks_before(a: (F32, usize), b: (F32, usize)) -> bool {
    b.0.spec_lt(a.0) || !a.0.spec_lt(b.0) && a.1 <= b.1
}

/// The scores agree on one ranking: no three of them go round in a circle, as
/// `(1.0, 0)`, a score that is not a number at slot 1, and `(2.0, 2)` do.
pub open spec fn rankable(scores: Seq<(F32, usize)>) -> bool {
    forall|i: int, j: int, k: int|
        0 <= i < scores.len() && 0 <= j < scores.len() && 0 <= k < scores.len()
            && #[trigger] ranks_before(scores[i], scores[j]) && #[trigger] ranks_before(
            scores[j],
            scores[k],
        ) ==> ranks_before(scores[i], scores[k])
}

/// `ranking` holds the scores, and holds them in order if they agree on one.
pub open spec fn is_ranking(scores: Seq<(F32, usize)>, ranking: Seq<(F32, usize)>) -> bool {
    &&& ranking.to_multiset() == scores.to_multiset()
    &&& rankable(scores) ==> forall|i: int, j: int|
        0 <= i < j < ranking.len() ==> ranks_before(#[trigger] ranking[i], #[trigger] ranking[j])
}

/// Slots of the first `max_casters` of a ranking.
pub open spec fn leading_slots(ranking: Seq<(F32, usize)>, max_casters: int) -> Seq<int> {
    let count = if ranking.len() < max_casters { ranking.len() as int } else { max_casters };
    ranking.take(count).map_values(|s: (F32, usize)| s.1 as int)
}

/// `winners` are slots that win the places in the shadow budget, most important first.
/// Numbers leave no choice; among other scores any ranking will do.
pub open spec fn wins(scores: Seq<(F32, usize)>, max_casters: int, winners: Seq<int>) -> bool {
    if all_numbers(scores) {
        winners == shadow_winners(scores, max_casters)
    } else {
        exists|ranking: Seq<(F32, usize)>| #[trigger]
            is_ranking(scores, ranking) && winners == leading_slots(ranking, max_casters)
    }
}

/// `assignments` gives each slot the base that it has when `winners` win.
pub open spec fn assigned(
    assignments: Seq<u32>,
    winners: Seq<int>,
    previous: Seq<[u32; 2]>,
    max_casters: int,
) -> bool {
    forall|slot: int|
        0 <= slot < assignments.len() ==> #[trigger] assignments[slot] == assigned_base(
            winners,
            previous,
            max_casters,
            slot,
        )
}

/// Atlas base that a light held before, if it was listed.
pub open spec fn previous_base(previous: Seq<[u32; 2]>, slot: int) -> u32 {
    if 0 <= slot < previous.len() {
        previous[slot][1]
    } else {
        NO_ATLAS_BASE
    }
}

/// A base that the budget can hand out: aligned to a caster's layers and within
/// the caster limit.
pub open spec fn valid_base(base: u32, max_casters: int) -> bool {
    base != NO_ATLAS_BASE && base % FACES_PER_LIGHT == 0 && base / FACES_PER_LIGHT < max_casters
}

/// The `k`-th winner keeps the base it held: the base is valid and no more
/// important winner held it too.
pub open spec fn keeps_base(
    winners: Seq<int>,
    previous: Seq<[u32; 2]>,
    max_casters: int,
    k: int,
) -> bool {
    &&& valid_base(previous_base(previous, winners[k]), max_casters)
    &&& forall|j: int|
        0 <= j < k ==> previous_base(previous, #[trigger] winners[j]) != previous_base(
            previous,
            winners[k],
        )
}

/// Some winner keeps the `b`-th base.
pub open spec fn base_kept(
    winners: Seq<int>,
    previous: Seq<[u32; 2]>,
    max_casters: int,
    b: int,
) -> bool {
    exists|k: int|
        0 <= k < winners.len() && #[trigger] keeps_base(winners, previous, max_casters, k)
            && previous_base(previous, winners[k]) == b * FACES_PER_LIGHT
}

/// Bases that no winner keeps, lowest first.
pub open spec fn free_bases(
    winners: Seq<int>,
    previous: Seq<[u32; 2]>,
    max_casters: int,
) -> Seq<int> {
    Seq::new(max_casters as nat, |b: int| b).filter(
        |b: int| !base_kept(winners, previous, max_casters, b),
    )
}

/// Slots of the first `n` winners that keep no base, in order of importance.
pub open spec fn entrants(
    winners: Seq<int>,
    previous: Seq<[u32; 2]>,
    max_casters: int,
    n: int,
) -> Seq<u64>
    decreases n,
{
    if n <= 0 {
        Seq::empty()
    } else if keeps_base(winners, previous, max_casters, n - 1) {
        entrants(winners, previous, max_casters, n - 1)
    } else {
        entrants(winners, previous, max_casters, n - 1).push(winners[n - 1] as u64)
    }
}

/// Among the winners that held one valid base, the most important one keeps it.
proof fn lemma_first_holder_keeps(
    winners: Seq<int>,
    previous: Seq<[u32; 2]>,
    max_casters: int,
    k: int,
) -> (j: int)
    requires
        0 <= k < winners.len(),
        valid_base(previous_base(previous, winners[k]), max_casters),
    ensures
        0 <= j <= k,
        keeps_base(winners, previous, max_casters, j),
        previous_base(previous, winners[j]) == previous_base(previous, winners[k]),
    decreases k,
{
    if keeps_base(winners, previous, max_casters, k) {
        k
    } else {
        let j = choose|j: int|
            0 <= j < k && previous_base(previous, #[trigger] winners[j]) == previous_base(
                previous,
                winners[k],
            );
        lemma_first_holder_keeps(winners, previous, max_casters, j)
    }
}

/// `e` is the last place at which `slot` stands in `entering`.
pub open spec fn last_entry(entering: Seq<u64>, slot: int, e: int) -> bool {
    &&& 0 <= e < entering.len()
    &&& entering[e] == slot
    &&& forall|f: int| e < f < entering.len() ==> #[trigger] entering[f] != slot
}

/// Atlas base of the light at `slot`: entrants take the free bases in slot
/// order, every other winner keeps its own, and the rest get none.
pub open spec fn assigned_base(
    winners: Seq<int>,
    previous: Seq<[u32; 2]>,
    max_casters: int,
    slot: int,
) -> u32 {
    let entering = ordered(entrants(winners, previous, max_casters, winners.len() as int));
    if exists|e: int| last_entry(entering, slot, e) {
        let e = choose|e: int| last_entry(entering, slot, e);
        (free_bases(winners, previous, max_casters)[e] * FACES_PER_LIGHT) as u32
    } else if exists|k: int|
        0 <= k < winners.len() && #[trigger] winners[k] == slot && keeps_base(
            winners,
            previous,
            max_casters,
            k,
        ) {
        previous_base(previous, slot)
    } else {
        NO_ATLAS_BASE
    }
}

/// `value` is the free base of the last entry of `slot`, or `base` if there is none.
spec fn entered(entering: Seq<u64>, free: Seq<u32>, base: u32, slot: int, value: u32) -> bool {
    ||| exists|f: int| last_entry(entering, slot, f) && value == free[f]
    ||| !entering.contains(slot as u64) && value == base
}

spec fn count_true(s: Seq<bool>) -> nat
    decreases s.len(),
{
    if s.len() == 0 {
        0
    } else {
        count_true(s.drop_last()) + if s.last() {
            1nat
        } else {
            0nat
        }
    }
}

proof fn lemma_count_true_update(s: Seq<bool>, i: int)
    requires
        0 <= i < s.len(),
        !s[i],
    ensures
        count_true(s.update(i, true)) == count_true(s) + 1,
    decreases s.len(),
{
    let t = s.update(i, true);
    if i == s.len() - 1 {
        assert(t.drop_last() =~= s.drop_last());
    } else {
        assert(t.drop_last() =~= s.drop_last().update(i, true));
        lemma_count_true_update(s.drop_last(), i);
    }
}

proof fn lemma_count_true_zero(s: Seq<bool>)
    requires
        forall|i: int| 0 <= i < s.len() ==> !#[trigger] s[i],
    ensures
        count_true(s) == 0,
    decreases s.len(),
{
    if s.len() > 0 {
        lemma_count_true_zero(s.drop_last());
    }
}

proof fn lemma_filter_count(used: Seq<bool>, kept: spec_fn(int) -> bool)
    requires
        forall|b: int| 0 <= b < used.len() ==> (#[trigger] used[b] <==> kept(b)),
    ensures
        Seq::new(used.len(), |b: int| b).filter(|b: int| !kept(b)).len() + count_true(used)
            == used.len(),
    decreases used.len(),
{
    reveal(Seq::filter);
    let all = Seq::new(used.len(), |b: int| b);
    if used.len() > 0 {
        lemma_filter_count(used.drop_last(), kept);
        assert(all.drop_last() =~= Seq::new((used.len() - 1) as nat, |b: int| b));
    }
}

/// Sort keys of `scores`, best first.
fn rank_scores(scores: &[(F32, usize)]) -> (ranking: Vec<RankedRow>)
    ensures
        ranking@ == ordered(scores@.map_values(|s: (F32, usize)| shadow_rank(s))),
{
    let ghost key = |s: (F32, usize)| shadow_rank(s);
    let mut keys: Vec<RankedRow> = Vec::new();
    let mut i: usize = 0;
    while i < scores.len()
        invariant
            0 <= i <= scores@.len(),
            key == (|s: (F32, usize)| shadow_rank(s)),
            keys@ =~= scores@.take(i as int).map_values(key),
        decreases scores@.len() - i,
    {
        let (score, slot) = scores[i];
        keys.push(RankedRow { rank: -score.order(), row: slot as u64 });
        i = i + 1;
    }
    assert(scores@.take(i as int) =~= scores@);
    sort(&keys)
}

fn comes_before(a: (F32, usize), b: (F32, usize)) -> (before: bool)
    ensures
        before == ranks_before(a, b),
{
    proof {
        a.0.lemma_order(b.0);
        b.0.lemma_order(a.0);
    }
    let numbers: bool = !a.0.is_nan() && !b.0.is_nan();
    if numbers && b.0.order() < a.0.order() {
        true
    } else if numbers && a.0.order() < b.0.order() {
        false
    } else {
        a.1 <= b.1
    }
}

/// Inserts each score before the first one that it outranks.
fn rank_by_insertion(scores: &[(F32, usize)]) -> (ranking: Vec<(F32, usize)>)
    ensures
        is_ranking(scores@, ranking@),
        ranking@.len() == scores@.len(),
{
    broadcast use vstd::seq_lib::group_to_multiset_ensures;

    let mut ranking: Vec<(F32, usize)> = Vec::new();
    let mut i: usize = 0;
    assert(scores@.take(0) =~= ranking@);
    while i < scores.len()
        invariant
            0 <= i <= scores@.len(),
            ranking@.len() == i,
            ranking@.to_multiset() == scores@.take(i as int).to_multiset(),
            rankable(scores@) ==> forall|a: int, b: int|
                0 <= a < b < ranking@.len() ==> ranks_before(
                    #[trigger] ranking@[a],
                    #[trigger] ranking@[b],
                ),
        decreases scores@.len() - i,
    {
        broadcast use vstd::seq_lib::group_to_multiset_ensures;

        let entry: (F32, usize) = scores[i];
        let mut place: usize = 0;
        while place < ranking.len() && comes_before(ranking[place], entry)
            invariant
                0 <= place <= ranking@.len(),
                forall|a: int| 0 <= a < place ==> ranks_before(#[trigger] ranking@[a], entry),
            ensures
                place < ranking@.len() ==> !ranks_before(ranking@[place as int], entry),
            decreases ranking@.len() - place,
        {
            place = place + 1;
        }
        let ghost before = ranking@;
        ranking.insert(place, entry);
        proof {
            assert(scores@.take(i + 1) =~= scores@.take(i as int).push(entry));
            vstd::seq_lib::to_multiset_insert(before, place as int, entry);
            assert(ranking@.to_multiset() =~= scores@.take(i + 1).to_multiset());
            if rankable(scores@) {
                assert forall|b: int| place <= b < before.len() implies ranks_before(
                    entry,
                    #[trigger] before[b],
                ) by {
                    let first = before[place as int];
                    let x = lemma_in_prefix(scores@, before, i as int, place as int);
                    let y = lemma_in_prefix(scores@, before, i as int, b);
                    assert(ranks_before(entry, first));
                    if b > place {
                        assert(ranks_before(scores@[i as int], scores@[x]));
                        assert(ranks_before(scores@[x], scores@[y]));
                    }
                }
                assert forall|a: int, b: int| 0 <= a < b < ranking@.len() implies ranks_before(
                    #[trigger] ranking@[a],
                    #[trigger] ranking@[b],
                ) by {
                    let from_a = if a < place { a } else { a - 1 };
                    let from_b = if b < place { b } else { b - 1 };
                    if a != place {
                        assert(ranking@[a] == before[from_a]);
                    }
                    if b != place {
                        assert(ranking@[b] == before[from_b]);
                    }
                }
            }
        }
        i = i + 1;
    }
    assert(scores@.take(i as int) =~= scores@);
    ranking
}

/// An entry of a reordered prefix stands somewhere in the whole.
proof fn lemma_in_prefix(
    scores: Seq<(F32, usize)>,
    reordered: Seq<(F32, usize)>,
    n: int,
    k: int,
) -> (x: int)
    requires
        0 <= n <= scores.len(),
        reordered.to_multiset() == scores.take(n).to_multiset(),
        0 <= k < reordered.len(),
    ensures
        0 <= x < n,
        scores[x] == reordered[k],
{
    broadcast use vstd::seq_lib::group_to_multiset_ensures;

    assert(reordered.contains(reordered[k]));
    assert(reordered.to_multiset().count(reordered[k]) > 0);
    assert(scores.take(n).contains(reordered[k]));
    scores.take(n).index_of(reordered[k])
}

/// Slots that win a place in the shadow budget, most important first.
fn rank_slots(scores: &[(F32, usize)], max_casters: usize) -> (winners: Vec<usize>)
    ensures
        wins(scores@, max_casters as int, winners@.map_values(|s: usize| s as int)),
        winners@.len() <= max_casters,
{
    let mut numbers: bool = true;
    let mut i: usize = 0;
    while i < scores.len()
        invariant
            0 <= i <= scores@.len(),
            numbers <==> all_numbers(scores@.take(i as int)),
        decreases scores@.len() - i,
    {
        proof {
            let rest = scores@.take(i as int);
            let now = scores@.take(i + 1);
            assert(now =~= rest.push(scores@[i as int]));
            assert(now[i as int] == scores@[i as int]);
            assert forall|j: int| 0 <= j < i implies #[trigger] now[j] == rest[j] by {}
            if all_numbers(now) {
                assert forall|j: int| 0 <= j < i implies !(#[trigger] rest[j]).0.spec_is_nan() by {
                    assert(now[j] == rest[j]);
                }
            }
        }
        if scores[i].0.is_nan() {
            numbers = false;
        }
        i = i + 1;
    }
    assert(scores@.take(i as int) =~= scores@);
    let mut winners: Vec<usize> = Vec::new();
    if numbers {
        let ranking: Vec<RankedRow> = rank_scores(scores);
        let count: usize = if ranking.len() < max_casters {
            ranking.len()
        } else {
            max_casters
        };
        proof {
            let keys = scores@.map_values(|s: (F32, usize)| shadow_rank(s));
            lemma_ordered(keys);
            assert forall|j: int| 0 <= j < ranking@.len() implies (#[trigger] ranking@[j]).row
                <= usize::MAX by {
                assert(ordered(keys).contains(ranking@[j]));
                let g = keys.index_of(ranking@[j]);
                assert(keys[g] == ranking@[j]);
            }
        }
        let mut k: usize = 0;
        while k < count
            invariant
                0 <= k <= count <= ranking@.len(),
                winners@.len() == k,
                forall|j: int| 0 <= j < ranking@.len() ==> (#[trigger] ranking@[j]).row <= usize::MAX,
                forall|j: int| 0 <= j < k ==> #[trigger] winners@[j] == ranking@[j].row,
            decreases count - k,
        {
            winners.push(ranking[k].row as usize);
            k = k + 1;
        }
        assert(winners@.map_values(|s: usize| s as int) =~= shadow_winners(
            scores@,
            max_casters as int,
        ));
    } else {
        let ranking: Vec<(F32, usize)> = rank_by_insertion(scores);
        let count: usize = if ranking.len() < max_casters {
            ranking.len()
        } else {
            max_casters
        };
        let mut k: usize = 0;
        while k < count
            invariant
                0 <= k <= count <= ranking@.len(),
                winners@.len() == k,
                forall|j: int| 0 <= j < k ==> #[trigger] winners@[j] == ranking@[j].1,
            decreases count - k,
        {
            winners.push(ranking[k].1);
            k = k + 1;
        }
        assert(winners@.map_values(|s: usize| s as int) =~= leading_slots(
            ranking@,
            max_casters as int,
        ));
    }
    winners
}

/// Selects shadow winners by importance while retaining every continuing
/// winner's valid atlas base. Only entrants consume freed bases, so removing an
/// earlier compact light cannot invalidate later cached shadow faces. Where scores
/// that are not numbers leave the ranking open, it is open which slots win.
pub fn stable_shadow_assignments(
    light_count: usize,
    scores: &[(F32, usize)],
    previous: &[[u32; 2]],
    max_casters: usize,
) -> (assignments: Vec<u32>)
    requires
        max_casters * FACES_PER_LIGHT <= u32::MAX,
        forall|winners: Seq<int>, k: int|
            #![trigger wins(scores@, max_casters as int, winners), winners[k]]
            wins(scores@, max_casters as int, winners) && 0 <= k < winners.len() ==> 0 <= winners[k]
                < light_count,
    ensures
        assignments@.len() == light_count,
        exists|winners: Seq<int>| #[trigger]
            wins(scores@, max_casters as int, winners) && assigned(
                assignments@,
                winners,
                previous@,
                max_casters as int,
            ),
{
    let ghost max = max_casters as int;
    let ranking: Vec<usize> = rank_slots(scores, max_casters);
    let ghost winners = ranking@.map_values(|s: usize| s as int);
    let count: usize = ranking.len();
    let mut assignments: Vec<u32> = vec![NO_ATLAS_BASE;light_count];
    let mut used_bases: Vec<bool> = vec![false;max_casters];
    let mut needs_base: Vec<u64> = Vec::new();
    proof {
        lemma_count_true_zero(used_bases@);
    }
    let mut k: usize = 0;
    while k < count
        invariant
            0 <= k <= count,
            count <= ranking@.len(),
            count <= max,
            max == max_casters,
            max_casters * FACES_PER_LIGHT <= u32::MAX,
            winners.len() == count,
            forall|j: int| 0 <= j < count ==> #[trigger] winners[j] == ranking@[j],
            forall|j: int| 0 <= j < count ==> 0 <= #[trigger] winners[j] < light_count,
            assignments@.len() == light_count,
            used_bases@.len() == max,
            needs_base@ == entrants(winners, previous@, max, k as int),
            needs_base@.len() + count_true(used_bases@) == k,
            forall|f: int| 0 <= f < needs_base@.len() ==> #[trigger] needs_base@[f] < light_count,
            forall|b: int|
                0 <= b < max ==> (#[trigger] used_bases@[b] <==> exists|j: int|
                    0 <= j < k && #[trigger] keeps_base(winners, previous@, max, j)
                        && previous_base(previous@, winners[j]) == b * FACES_PER_LIGHT),
            forall|slot: int|
                0 <= slot < light_count ==> #[trigger] assignments@[slot] == (if exists|j: int|
                    0 <= j < k && #[trigger] winners[j] == slot && keeps_base(
                        winners,
                        previous@,
                        max,
                        j,
                    ) {
                    previous_base(previous@, slot)
                } else {
                    NO_ATLAS_BASE
                }),
        decreases count - k,
    {
        let compact_slot: usize = ranking[k];
        assert(winners[k as int] == compact_slot);
        let held: u32 = if compact_slot < previous.len() {
            previous[compact_slot][1]
        } else {
            NO_ATLAS_BASE
        };
        let base_slot: usize = (held / FACES_PER_LIGHT) as usize;
        let ghost before = assignments@;
        let ghost used_before = used_bases@;
        assert(held == previous_base(previous@, winners[k as int]));
        if held != NO_ATLAS_BASE && held % FACES_PER_LIGHT == 0 && base_slot < max_casters
            && !used_bases[base_slot] {
            proof {
                assert(held == base_slot * FACES_PER_LIGHT);
                assert forall|j: int| 0 <= j < k implies previous_base(
                    previous@,
                    #[trigger] winners[j],
                ) != held by {
                    if previous_base(previous@, winners[j]) == held {
                        lemma_first_holder_keeps(winners, previous@, max, j);
                    }
                }
                assert(keeps_base(winners, previous@, max, k as int));
                lemma_count_true_update(used_bases@, base_slot as int);
            }
            assignments.set(compact_slot, held);
            used_bases.set(base_slot, true);
            assert forall|slot: int| 0 <= slot < light_count implies #[trigger] assignments@[slot]
                == (if exists|j: int|
                0 <= j < k + 1 && #[trigger] winners[j] == slot && keeps_base(
                    winners,
                    previous@,
                    max,
                    j,
                ) {
                previous_base(previous@, slot)
            } else {
                NO_ATLAS_BASE
            }) by {
                assert(winners[k as int] == compact_slot);
            }
        } else {
            proof {
                if valid_base(held, max) {
                    let b = base_slot as int;
                    assert(held == b * FACES_PER_LIGHT);
                    assert(used_bases@[b]);
                    let j = choose|j: int|
                        0 <= j < k && #[trigger] keeps_base(winners, previous@, max, j)
                            && previous_base(previous@, winners[j]) == b * FACES_PER_LIGHT;
                    assert(previous_base(previous@, winners[j]) == held);
                }
                assert(!keeps_base(winners, previous@, max, k as int));
            }
            needs_base.push(compact_slot as u64);
        }
        assert forall|b: int| 0 <= b < max implies (#[trigger] used_bases@[b] <==> exists|j: int|
            0 <= j < k + 1 && #[trigger] keeps_base(winners, previous@, max, j) && previous_base(
                previous@,
                winners[j],
            ) == b * FACES_PER_LIGHT) by {
            if used_bases@[b] && used_before[b] {
                let j = choose|j: int|
                    0 <= j < k && #[trigger] keeps_base(winners, previous@, max, j)
                        && previous_base(previous@, winners[j]) == b * FACES_PER_LIGHT;
                assert(keeps_base(winners, previous@, max, j));
            }
            assert(used_before[b] || !used_bases@[b] || keeps_base(
                winners,
                previous@,
                max,
                k as int,
            ));
        }
        k = k + 1;
    }
    let entering: Vec<u64> = sort(&needs_base);
    let mut free: Vec<u32> = Vec::new();
    let ghost kept = |b: int| base_kept(winners, previous@, max, b);
    let ghost open = |b: int| !base_kept(winners, previous@, max, b);
    proof {
        lemma_ordered(needs_base@);
        lemma_filter_count(used_bases@, kept);
        assert((|b: int| !kept(b)) =~= open);
    }
    let mut b: usize = 0;
    while b < max_casters
        invariant
            0 <= b <= max_casters,
            max == max_casters,
            max_casters * FACES_PER_LIGHT <= u32::MAX,
            used_bases@.len() == max,
            open == (|b: int| !base_kept(winners, previous@, max, b)),
            forall|b: int| 0 <= b < max ==> (#[trigger] used_bases@[b] <==> !open(b)),
            free@ =~= Seq::new(b as nat, |b: int| b).filter(open).map_values(
                |b: int| (b * FACES_PER_LIGHT) as u32,
            ),
        decreases max_casters - b,
    {
        proof {
            reveal(Seq::filter);
            assert(Seq::new((b + 1) as nat, |b: int| b).drop_last() =~= Seq::new(
                b as nat,
                |b: int| b,
            ));
        }
        if !used_bases[b] {
            free.push(b as u32 * FACES_PER_LIGHT);
        }
        b = b + 1;
    }
    let ghost base = assignments@;
    assert forall|f: int| 0 <= f < entering@.len() implies #[trigger] entering@[f]
        < light_count by {
        assert(ordered(needs_base@).contains(entering@[f]));
        let g = needs_base@.index_of(entering@[f]);
        assert(needs_base@[g] == entering@[f]);
    }
    let mut e: usize = 0;
    while e < entering.len()
        invariant
            0 <= e <= entering@.len(),
            entering@.len() <= free@.len(),
            assignments@.len() == light_count,
            base.len() == light_count,
            forall|f: int| 0 <= f < entering@.len() ==> #[trigger] entering@[f] < light_count,
            light_count <= u64::MAX,
            forall|slot: int|
                0 <= slot < light_count ==> entered(
                    entering@.take(e as int),
                    free@,
                    base[slot],
                    slot,
                    #[trigger] assignments@[slot],
                ),
        decreases entering@.len() - e,
    {
        let slot: usize = entering[e] as usize;
        let ghost before = assignments@;
        let ghost seen = entering@.take(e as int);
        let ghost now = entering@.take(e + 1);
        assignments.set(slot, free[e]);
        proof {
            assert(now =~= seen.push(entering@[e as int]));
            assert(last_entry(now, slot as int, e as int));
            assert forall|other: int| 0 <= other < light_count implies entered(
                now,
                free@,
                base[other],
                other,
                #[trigger] assignments@[other],
            ) by {
                if other != slot {
                    assert(assignments@[other] == before[other]);
                    assert(entered(seen, free@, base[other], other, before[other]));
                    if exists|f: int| last_entry(seen, other, f) && before[other] == free@[f] {
                        let f = choose|f: int|
                            last_entry(seen, other, f) && before[other] == free@[f];
                        assert(last_entry(now, other, f));
                    } else {
                        assert(!now.contains(other as u64));
                    }
                }
            }
        }
        e = e + 1;
    }
    proof {
        assert(entering@.take(e as int) =~= entering@);
        assert forall|slot: int| 0 <= slot < light_count implies #[trigger] assignments@[slot]
            == assigned_base(winners, previous@, max, slot) by {
            assert(entered(entering@, free@, base[slot], slot, assignments@[slot]));
            if exists|f: int| last_entry(entering@, slot, f) && assignments@[slot] == free@[f] {
                let f = choose|f: int|
                    last_entry(entering@, slot, f) && assignments@[slot] == free@[f];
                let g = choose|g: int| last_entry(entering@, slot, g);
                assert(f == g);
            } else {
                assert(!entering@.contains(slot as u64));
                assert(base[slot] == assignments@[slot]);
            }
        }
        assert(assigned(assignments@, winners, previous@, max));
    }
    assignments
}

/// Bases kept by the first `n` winners.
spec fn used_by(winners: Seq<int>, previous: Seq<[u32; 2]>, max_casters: int, n: int) -> Seq<bool> {
    Seq::new(
        max_casters as nat,
        |b: int|
            exists|j: int|
                0 <= j < n && #[trigger] keeps_base(winners, previous, max_casters, j)
                    && previous_base(previous, winners[j]) == b * FACES_PER_LIGHT,
    )
}

proof fn lemma_entrant_count(
    winners: Seq<int>,
    previous: Seq<[u32; 2]>,
    max_casters: int,
    n: int,
)
    requires
        0 <= n <= winners.len(),
        0 <= max_casters,
    ensures
        entrants(winners, previous, max_casters, n).len() + count_true(
            used_by(winners, previous, max_casters, n),
        ) == n,
    decreases n,
{
    let used = used_by(winners, previous, max_casters, n);
    if n == 0 {
        lemma_count_true_zero(used);
    } else {
        let earlier = used_by(winners, previous, max_casters, n - 1);
        lemma_entrant_count(winners, previous, max_casters, n - 1);
        if keeps_base(winners, previous, max_casters, n - 1) {
            let held = previous_base(previous, winners[n - 1]);
            let b = (held / FACES_PER_LIGHT) as int;
            assert(held == b * FACES_PER_LIGHT);
            assert(!earlier[b]);
            assert(used[b]);
            assert forall|c: int| 0 <= c < max_casters implies used[c] == earlier.update(
                b,
                true,
            )[c] by {
                if used[c] && c != b {
                    let j = choose|j: int|
                        0 <= j < n && #[trigger] keeps_base(winners, previous, max_casters, j)
                            && previous_base(previous, winners[j]) == c * FACES_PER_LIGHT;
                    assert(j < n - 1);
                }
                if earlier[c] {
                    let j = choose|j: int|
                        0 <= j < n - 1 && #[trigger] keeps_base(winners, previous, max_casters, j)
                            && previous_base(previous, winners[j]) == c * FACES_PER_LIGHT;
                    assert(keeps_base(winners, previous, max_casters, j));
                }
            }
            assert(used =~= earlier.update(b, true));
            lemma_count_true_update(earlier, b);
        } else {
            assert forall|c: int| 0 <= c < max_casters implies used[c] == earlier[c] by {
                if used[c] {
                    let j = choose|j: int|
                        0 <= j < n && #[trigger] keeps_base(winners, previous, max_casters, j)
                            && previous_base(previous, winners[j]) == c * FACES_PER_LIGHT;
                    assert(j < n - 1);
                }
                if earlier[c] {
                    let j = choose|j: int|
                        0 <= j < n - 1 && #[trigger] keeps_base(winners, previous, max_casters, j)
                            && previous_base(previous, winners[j]) == c * FACES_PER_LIGHT;
                    assert(keeps_base(winners, previous, max_casters, j));
                }
            }
            assert(used =~= earlier);
        }
    }
}

proof fn lemma_filter_members(n: nat, keep: spec_fn(int) -> bool)
    ensures
        ({
            let members = Seq::new(n, |b: int| b).filter(keep);
            &&& forall|i: int|
                0 <= i < members.len() ==> 0 <= #[trigger] members[i] < n && keep(members[i])
            &&& forall|i: int, j: int|
                0 <= i < j < members.len() ==> #[trigger] members[i] < #[trigger] members[j]
        }),
    decreases n,
{
    reveal(Seq::filter);
    let all = Seq::new(n, |b: int| b);
    if n > 0 {
        lemma_filter_members((n - 1) as nat, keep);
        let fewer = Seq::new((n - 1) as nat, |b: int| b);
        assert(all.drop_last() =~= fewer);
        let rest = fewer.filter(keep);
        assert(all.filter(keep) == if keep(n - 1) {
            rest.push(n - 1)
        } else {
            rest
        });
    } else {
        assert(all.filter(keep).len() == 0);
    }
}

proof fn lemma_entrants_members(
    winners: Seq<int>,
    previous: Seq<[u32; 2]>,
    max_casters: int,
    n: int,
    slot: int,
)
    requires
        0 <= n <= winners.len(),
        0 <= slot <= u64::MAX,
        forall|k: int| 0 <= k < winners.len() ==> 0 <= #[trigger] winners[k] <= u64::MAX,
    ensures
        entrants(winners, previous, max_casters, n).contains(slot as u64) <==> exists|k: int|
            0 <= k < n && #[trigger] winners[k] == slot && !keeps_base(
                winners,
                previous,
                max_casters,
                k,
            ),
    decreases n,
{
    if n > 0 {
        lemma_entrants_members(winners, previous, max_casters, n - 1, slot);
        let all = entrants(winners, previous, max_casters, n);
        let rest = entrants(winners, previous, max_casters, n - 1);
        if !keeps_base(winners, previous, max_casters, n - 1) {
            assert(all.last() == winners[n - 1] as u64);
            if rest.contains(slot as u64) {
                assert(all[rest.index_of(slot as u64)] == slot as u64);
            }
            if all.contains(slot as u64) && winners[n - 1] != slot {
                assert(rest[all.index_of(slot as u64)] == slot as u64);
            }
        }
    }
}

/// What a slot's assignment means: where an entrant's base comes from, and that
/// there is a free base for each entrant.
proof fn lemma_assignment(
    winners: Seq<int>,
    previous: Seq<[u32; 2]>,
    max_casters: int,
    slot: int,
) -> (e: int)
    requires
        winners.len() <= max_casters,
        max_casters * FACES_PER_LIGHT <= u32::MAX,
        winners.no_duplicates(),
        forall|k: int| 0 <= k < winners.len() ==> 0 <= #[trigger] winners[k] <= u64::MAX,
        0 <= slot <= u64::MAX,
    ensures
        ({
            let entering = ordered(entrants(winners, previous, max_casters, winners.len() as int));
            let free = free_bases(winners, previous, max_casters);
            let base = assigned_base(winners, previous, max_casters, slot);
            &&& entering.len() <= free.len()
            &&& forall|k: int|
                0 <= k < winners.len() && #[trigger] winners[k] == slot ==> if keeps_base(
                    winners,
                    previous,
                    max_casters,
                    k,
                ) {
                    base == previous_base(previous, slot)
                } else {
                    0 <= e < free.len() && last_entry(entering, slot, e) && base == free[e]
                        * FACES_PER_LIGHT && 0 <= free[e] < max_casters && !base_kept(
                        winners,
                        previous,
                        max_casters,
                        free[e],
                    )
                }
            &&& !winners.contains(slot) ==> base == NO_ATLAS_BASE
        }),
{
    let n = winners.len() as int;
    let list = entrants(winners, previous, max_casters, n);
    let entering = ordered(list);
    let free = free_bases(winners, previous, max_casters);
    lemma_ordered(list);
    lemma_entrant_count(winners, previous, max_casters, n);
    let kept = |b: int| base_kept(winners, previous, max_casters, b);
    let open = |b: int| !base_kept(winners, previous, max_casters, b);
    let used = used_by(winners, previous, max_casters, n);
    lemma_filter_count(used, kept);
    assert((|b: int| !kept(b)) =~= open);
    lemma_filter_members(max_casters as nat, open);
    lemma_entrants_members(winners, previous, max_casters, n, slot);
    assert(entering.contains(slot as u64) <==> list.contains(slot as u64));
    let e = if entering.contains(slot as u64) {
        lemma_last_entry(entering, slot)
    } else {
        0
    };
    if exists|g: int| last_entry(entering, slot, g) {
        let g = choose|g: int| last_entry(entering, slot, g);
        assert(entering.contains(slot as u64));
        assert(e == g);
        assert(free[e] * FACES_PER_LIGHT <= u32::MAX) by (nonlinear_arith)
            requires
                0 <= free[e] < max_casters,
                max_casters * FACES_PER_LIGHT <= u32::MAX,
                FACES_PER_LIGHT == 6,
        ;
    }
    assert forall|j: int, k: int|
        0 <= j < n && 0 <= k < n && #[trigger] winners[j] == slot && #[trigger] winners[k]
            == slot implies j == k by {}
    e
}

proof fn lemma_last_entry(entering: Seq<u64>, slot: int) -> (e: int)
    requires
        0 <= slot <= u64::MAX,
        entering.contains(slot as u64),
    ensures
        last_entry(entering, slot, e),
    decreases entering.len(),
{
    let last = entering.len() - 1;
    if entering[last] == slot {
        last
    } else {
        let rest = entering.drop_last();
        let i = entering.index_of(slot as u64);
        assert(rest[i] == slot as u64);
        let e = lemma_last_entry(rest, slot);
        assert forall|f: int| e < f < entering.len() implies #[trigger] entering[f] != slot by {
            if f < last {
                assert(rest[f] == entering[f]);
            }
        }
        e
    }
}

/// A winner that holds a valid base which no more important winner holds keeps
/// that base, whatever joins or leaves the budget beside it.
pub proof fn lemma_continuing_winner_keeps_base(
    winners: Seq<int>,
    previous: Seq<[u32; 2]>,
    max_casters: int,
    k: int,
)
    requires
        winners.len() <= max_casters,
        max_casters * FACES_PER_LIGHT <= u32::MAX,
        winners.no_duplicates(),
        forall|j: int| 0 <= j < winners.len() ==> 0 <= #[trigger] winners[j] <= u64::MAX,
        0 <= k < winners.len(),
        keeps_base(winners, previous, max_casters, k),
    ensures
        assigned_base(winners, previous, max_casters, winners[k]) == previous_base(
            previous,
            winners[k],
        ),
{
    let _ = lemma_assignment(winners, previous, max_casters, winners[k]);
}

/// A light has an atlas base exactly if it won a place in the budget, and the
/// base is one of the budget's.
pub proof fn lemma_winners_get_valid_bases(
    winners: Seq<int>,
    previous: Seq<[u32; 2]>,
    max_casters: int,
    slot: int,
)
    requires
        winners.len() <= max_casters,
        max_casters * FACES_PER_LIGHT <= u32::MAX,
        winners.no_duplicates(),
        forall|j: int| 0 <= j < winners.len() ==> 0 <= #[trigger] winners[j] <= u64::MAX,
        0 <= slot <= u64::MAX,
    ensures
        winners.contains(slot) ==> valid_base(
            assigned_base(winners, previous, max_casters, slot),
            max_casters,
        ),
        !winners.contains(slot) ==> assigned_base(winners, previous, max_casters, slot)
            == NO_ATLAS_BASE,
{
    let e = lemma_assignment(winners, previous, max_casters, slot);
    if winners.contains(slot) {
        let k = winners.index_of(slot);
        assert(winners[k] == slot);
    }
}

/// No two lights share an atlas base.
pub proof fn lemma_bases_are_disjoint(
    winners: Seq<int>,
    previous: Seq<[u32; 2]>,
    max_casters: int,
    a: int,
    b: int,
)
    requires
        winners.len() <= max_casters,
        max_casters * FACES_PER_LIGHT <= u32::MAX,
        winners.no_duplicates(),
        forall|j: int| 0 <= j < winners.len() ==> 0 <= #[trigger] winners[j] <= u64::MAX,
        0 <= a <= u64::MAX,
        0 <= b <= u64::MAX,
        a != b,
        assigned_base(winners, previous, max_casters, a) != NO_ATLAS_BASE,
        assigned_base(winners, previous, max_casters, b) != NO_ATLAS_BASE,
    ensures
        assigned_base(winners, previous, max_casters, a) != assigned_base(
            winners,
            previous,
            max_casters,
            b,
        ),
{
    let ea = lemma_assignment(winners, previous, max_casters, a);
    let eb = lemma_assignment(winners, previous, max_casters, b);
    let ka = winners.index_of(a);
    let kb = winners.index_of(b);
    assert(winners[ka] == a && winners[kb] == b);
    let open = |c: int| !base_kept(winners, previous, max_casters, c);
    lemma_filter_members(max_casters as nat, open);
    let free = free_bases(winners, previous, max_casters);
    let keeps_a = keeps_base(winners, previous, max_casters, ka);
    let keeps_b = keeps_base(winners, previous, max_casters, kb);
    if !keeps_a && !keeps_b {
        assert(ea != eb);
        assert(free[ea] != free[eb]);
    }
}

/// Among the winners that keep no base, those in lower slots get lower bases.
pub proof fn lemma_entrants_are_served_in_slot_order(
    winners: Seq<int>,
    previous: Seq<[u32; 2]>,
    max_casters: int,
    a: int,
    b: int,
)
    requires
        winners.len() <= max_casters,
        max_casters * FACES_PER_LIGHT <= u32::MAX,
        winners.no_duplicates(),
        forall|j: int| 0 <= j < winners.len() ==> 0 <= #[trigger] winners[j] <= u64::MAX,
        0 <= a < winners.len(),
        0 <= b < winners.len(),
        !keeps_base(winners, previous, max_casters, a),
        !keeps_base(winners, previous, max_casters, b),
        winners[a] < winners[b],
    ensures
        assigned_base(winners, previous, max_casters, winners[a]) < assigned_base(
            winners,
            previous,
            max_casters,
            winners[b],
        ),
{
    let ea = lemma_assignment(winners, previous, max_casters, winners[a]);
    let eb = lemma_assignment(winners, previous, max_casters, winners[b]);
    let list = entrants(winners, previous, max_casters, winners.len() as int);
    let entering = ordered(list);
    lemma_ordered(list);
    let open = |c: int| !base_kept(winners, previous, max_casters, c);
    lemma_filter_members(max_casters as nat, open);
    let free = free_bases(winners, previous, max_casters);
    if eb < ea {
        assert(entering[eb].at_most(entering[ea]));
    }
    assert(ea != eb);
    assert(free[ea] < free[eb]);
    assert(free[ea] * FACES_PER_LIGHT < free[eb] * FACES_PER_LIGHT) by (nonlinear_arith)
        requires
            free[ea] < free[eb],
            FACES_PER_LIGHT == 6,
    ;
}

/// A base below one that an entrant gets is in use: bases are given out from the lowest.
pub proof fn lemma_bases_are_given_out_from_the_lowest(
    winners: Seq<int>,
    previous: Seq<[u32; 2]>,
    max_casters: int,
    a: int,
    base: int,
) -> (k: int)
    requires
        winners.len() <= max_casters,
        max_casters * FACES_PER_LIGHT <= u32::MAX,
        winners.no_duplicates(),
        forall|j: int| 0 <= j < winners.len() ==> 0 <= #[trigger] winners[j] <= u64::MAX,
        0 <= a < winners.len(),
        !keeps_base(winners, previous, max_casters, a),
        0 <= base,
        base * 6 < assigned_base(winners, previous, max_casters, winners[a]),
    ensures
        0 <= k < winners.len(),
        assigned_base(winners, previous, max_casters, winners[k]) == base * 6,
{
    let n = winners.len() as int;
    let ea = lemma_assignment(winners, previous, max_casters, winners[a]);
    let open = |c: int| !base_kept(winners, previous, max_casters, c);
    lemma_filter_members(max_casters as nat, open);
    let free = free_bases(winners, previous, max_casters);
    let list = entrants(winners, previous, max_casters, n);
    let entering = ordered(list);
    lemma_ordered(list);
    assert(base < free[ea]);
    if base_kept(winners, previous, max_casters, base) {
        let k = choose|k: int|
            0 <= k < winners.len() && #[trigger] keeps_base(winners, previous, max_casters, k)
                && previous_base(previous, winners[k]) == base * FACES_PER_LIGHT;
        let _ = lemma_assignment(winners, previous, max_casters, winners[k]);
        k
    } else {
        let all = Seq::new(max_casters as nat, |c: int| c);
        assert(all[base] == base);
        assert(all.contains(base));
        assert(open(base));
        all.lemma_filter_contains_rev(open, base);
        assert(free.contains(base));
        let e = free.index_of(base);
        assert(free[e] == base);
        assert(e < ea) by {
            if e > ea {
                assert(free[ea] < free[e]);
            }
        }
        let slot = entering[e];
        assert(entering.contains(slot));
        assert(list.contains(slot));
        lemma_entrants_members(winners, previous, max_casters, n, slot as int);
        let k = choose|k: int|
            0 <= k < n && #[trigger] winners[k] == slot && !keeps_base(
                winners,
                previous,
                max_casters,
                k,
            );
        let own = lemma_assignment(winners, previous, max_casters, winners[k]);
        assert(own == e) by {
            lemma_no_entrant_twice(winners, previous, max_casters, n);
            lemma_ordered_keeps_distinct(list);
        }
        k
    }
}

proof fn lemma_ordered_keeps_distinct(list: Seq<u64>)
    requires
        list.no_duplicates(),
    ensures
        ordered(list).no_duplicates(),
{
    lemma_ordered(list);
    list.lemma_multiset_has_no_duplicates();
    ordered(list).lemma_multiset_has_no_duplicates_conv();
}

proof fn lemma_no_entrant_twice(
    winners: Seq<int>,
    previous: Seq<[u32; 2]>,
    max_casters: int,
    n: int,
)
    requires
        0 <= n <= winners.len(),
        winners.no_duplicates(),
        forall|j: int| 0 <= j < winners.len() ==> 0 <= #[trigger] winners[j] <= u64::MAX,
    ensures
        entrants(winners, previous, max_casters, n).no_duplicates(),
    decreases n,
{
    if n > 0 {
        lemma_no_entrant_twice(winners, previous, max_casters, n - 1);
        let rest = entrants(winners, previous, max_casters, n - 1);
        if !keeps_base(winners, previous, max_casters, n - 1) {
            lemma_entrants_members(winners, previous, max_casters, n - 1, winners[n - 1]);
            assert(!rest.contains(winners[n - 1] as u64)) by {
                if rest.contains(winners[n - 1] as u64) {
                    let k = choose|k: int|
                        0 <= k < n - 1 && #[trigger] winners[k] == winners[n - 1]
                            && !keeps_base(winners, previous, max_casters, k);
                    assert(winners[k] == winners[n - 1]);
                }
            }
        }
    }
}

} // verus!
