//! Which captures and volumes are kept when there are more than shaders read.
use vstd::prelude::*;

use crate::float_bits::F32;
use crate::ordering::{lemma_ordered, ordered, Ordered};
use crate::selection::{
    capture_pairs, resident_ranks, selected_captures, selected_volumes, volume_ranks, CaptureRank,
};

verus! {

/// The pair is what is published of the candidate: its row and its layer.
pub open spec fn publishes(pair: [u32; 2], candidate: (F32, u32, i32)) -> bool {
    &&& candidate.2 >= 0
    &&& pair[0] == candidate.1
    &&& pair[1] == candidate.2
}

proof fn lemma_resident_ranks(candidates: Seq<(F32, u32, i32)>)
    ensures
        ({
            let ranks = resident_ranks(candidates);
            &&& forall|k: int|
                0 <= k < ranks.len() ==> exists|i: int|
                    0 <= i < candidates.len() && ranked_as(#[trigger] candidates[i], #[trigger] ranks[k])
            &&& forall|i: int|
                0 <= i < candidates.len() && (#[trigger] candidates[i]).2 >= 0 ==> exists|k: int|
                    0 <= k < ranks.len() && ranked_as(candidates[i], #[trigger] ranks[k])
        }),
    decreases candidates.len(),
{
    let ranks = resident_ranks(candidates);
    if candidates.len() > 0 {
        let fewer = candidates.drop_last();
        let last = candidates.len() - 1;
        let rest = resident_ranks(fewer);
        lemma_resident_ranks(fewer);
        assert forall|k: int| 0 <= k < ranks.len() implies exists|i: int|
            0 <= i < candidates.len() && ranked_as(
                #[trigger] candidates[i],
                #[trigger] ranks[k],
            ) by {
            if k < rest.len() {
                assert(ranks[k] == rest[k]);
                let i = choose|i: int|
                    0 <= i < fewer.len() && ranked_as(#[trigger] fewer[i], rest[k]);
                assert(candidates[i] == fewer[i]);
            } else {
                assert(ranked_as(candidates[last], ranks[k]));
            }
        }
        assert forall|i: int|
            0 <= i < candidates.len() && (#[trigger] candidates[i]).2 >= 0 implies exists|k: int|
            0 <= k < ranks.len() && ranked_as(candidates[i], #[trigger] ranks[k]) by {
            if i < last {
                assert(fewer[i] == candidates[i]);
                let k = choose|k: int|
                    0 <= k < rest.len() && ranked_as(fewer[i], #[trigger] rest[k]);
                assert(ranks[k] == rest[k]);
            } else {
                assert(ranked_as(candidates[i], ranks[ranks.len() - 1]));
            }
        }
    }
}

/// The rank is that of the candidate.
spec fn ranked_as(candidate: (F32, u32, i32), rank: CaptureRank) -> bool {
    &&& candidate.2 >= 0
    &&& rank.influence == candidate.0.total_rank()
    &&& rank.row == candidate.1
    &&& rank.layer == candidate.2
}

/// What is published of the captures are rows and layers of candidates that have a layer, 64
/// at most. One that has a layer and is not published found 64 others, each of no larger
/// influence.
pub proof fn lemma_smallest_captures_are_published(
    candidates: Seq<(F32, u32, i32)>,
    pairs: Seq<[u32; 2]>,
    i: int,
)
    requires
        capture_pairs(pairs, selected_captures(candidates)),
        0 <= i < candidates.len(),
    ensures
        pairs.len() <= 64,
        forall|k: int|
            0 <= k < pairs.len() ==> exists|j: int|
                0 <= j < candidates.len() && publishes(
                    #[trigger] pairs[k],
                    #[trigger] candidates[j],
                ),
        candidates[i].2 >= 0 ==> {
            ||| exists|k: int| 0 <= k < pairs.len() && publishes(#[trigger] pairs[k], candidates[i])
            ||| pairs.len() == 64 && forall|k: int|
                0 <= k < pairs.len() ==> exists|j: int|
                    0 <= j < candidates.len() && publishes(
                        #[trigger] pairs[k],
                        #[trigger] candidates[j],
                    ) && candidates[j].0.total_rank() <= candidates[i].0.total_rank()
        },
{
    let ranks = resident_ranks(candidates);
    let ranking = ordered(ranks);
    let selected = selected_captures(candidates);
    lemma_resident_ranks(candidates);
    lemma_ordered(ranks);
    assert forall|k: int| 0 <= k < pairs.len() implies exists|j: int|
        0 <= j < candidates.len() && publishes(#[trigger] pairs[k], #[trigger] candidates[j])
            && ranked_as(candidates[j], ranking[k]) by {
        assert(selected[k] == ranking[k]);
        assert(ranking.contains(ranking[k]));
        let at = ranks.index_of(ranking[k]);
        assert(ranks[at] == ranking[k]);
        let j = choose|j: int|
            0 <= j < candidates.len() && ranked_as(#[trigger] candidates[j], ranks[at]);
        assert(publishes(pairs[k], candidates[j]));
    }
    if candidates[i].2 >= 0 {
        let at = choose|at: int|
            0 <= at < ranks.len() && ranked_as(candidates[i], #[trigger] ranks[at]);
        assert(ranks.contains(ranks[at]));
        assert(ranking.contains(ranks[at]));
        let place = ranking.index_of(ranks[at]);
        if place < selected.len() {
            assert(selected[place] == ranking[place]);
            assert(publishes(pairs[place], candidates[i]));
        } else {
            assert forall|k: int| 0 <= k < pairs.len() implies exists|j: int|
                0 <= j < candidates.len() && publishes(
                    #[trigger] pairs[k],
                    #[trigger] candidates[j],
                ) && candidates[j].0.total_rank() <= candidates[i].0.total_rank() by {
                let j = choose|j: int|
                    0 <= j < candidates.len() && publishes(pairs[k], #[trigger] candidates[j])
                        && ranked_as(candidates[j], ranking[k]);
                assert(ranking[k].at_most(ranking[place]));
                assert(publishes(pairs[k], candidates[j]));
            }
        }
    }
}

/// What is published of the post-process volumes are rows of candidates, 256 at most. One
/// that is not published found 256 others, each of no lower priority.
pub proof fn lemma_highest_volumes_are_published(candidates: Seq<(F32, u32)>, i: int)
    requires
        0 <= i < candidates.len(),
    ensures
        ({
            let rows = selected_volumes(candidates);
            &&& rows.len() <= 256
            &&& forall|k: int|
                0 <= k < rows.len() ==> exists|j: int|
                    0 <= j < candidates.len() && #[trigger] rows[k] == (
                    #[trigger] candidates[j]).1
            &&& {
                ||| rows.contains(candidates[i].1)
                ||| rows.len() == 256 && forall|k: int|
                    0 <= k < rows.len() ==> exists|j: int|
                        0 <= j < candidates.len() && #[trigger] rows[k] == (
                        #[trigger] candidates[j]).1 && candidates[i].0.total_rank()
                            <= candidates[j].0.total_rank()
            }
        }),
{
    let ranks = volume_ranks(candidates);
    let ranking = ordered(ranks);
    let rows = selected_volumes(candidates);
    lemma_ordered(ranks);
    assert forall|k: int| 0 <= k < rows.len() implies exists|j: int|
        0 <= j < candidates.len() && #[trigger] rows[k] == (#[trigger] candidates[j]).1
            && ranking[k].rank == -candidates[j].0.total_rank() by {
        assert(ranking.contains(ranking[k]));
        let j = ranks.index_of(ranking[k]);
        assert(ranks[j] == ranking[k]);
        assert(rows[k] == candidates[j].1);
    }
    assert(ranks.contains(ranks[i]));
    assert(ranking.contains(ranks[i]));
    let place = ranking.index_of(ranks[i]);
    if place < rows.len() {
        assert(rows[place] == candidates[i].1);
    } else {
        assert forall|k: int| 0 <= k < rows.len() implies exists|j: int|
            0 <= j < candidates.len() && #[trigger] rows[k] == (#[trigger] candidates[j]).1
                && candidates[i].0.total_rank() <= candidates[j].0.total_rank() by {
            let j = choose|j: int|
                0 <= j < candidates.len() && rows[k] == (#[trigger] candidates[j]).1
                    && ranking[k].rank == -candidates[j].0.total_rank();
            assert(ranking[k].at_most(ranking[place]));
            assert(rows[k] == candidates[j].1);
        }
    }
}

} // verus!
