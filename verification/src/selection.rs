//! Shader-bounded selections.
//!
//! Shaders read fixed tables. Where more resources are authored than a table
//! holds, the most important ones are selected and the rest are counted.
use vstd::prelude::*;

use crate::float_bits::F32;
use crate::ordering::{lemma_ordered, ordered, sort, Ordered, RankedRow};

verus! {

/// Reflection captures that the shader table holds.
pub const MAX_REFLECTION_CAPTURE_PROJECTIONS: usize = 64;

/// Post-process volumes that the shader table holds.
pub const MAX_POST_PROCESS_VOLUME_PROJECTIONS: usize = 256;

/// How many of `len` candidates a table of `limit` entries holds.
pub open spec fn kept(len: nat, limit: nat) -> int {
    if len < limit {
        len as int
    } else {
        limit as int
    }
}

/// How many of `len` candidates do not fit a table of `limit` entries.
pub open spec fn dropped(len: nat, limit: nat) -> int {
    len - kept(len, limit)
}

/// Sort key of a resident capture: smaller influences first, then lower rows.
#[derive(Clone, Copy, Debug, PartialEq, Eq, Structural)]
pub struct CaptureRank {
    pub influence: i64,
    pub row: u32,
    pub layer: u32,
}

impl Ordered for CaptureRank {
    open spec fn at_most(self, other: Self) -> bool {
        ||| self.influence < other.influence
        ||| self.influence == other.influence && (self.row < other.row || (self.row == other.row
            && self.layer <= other.layer))
    }

    proof fn total_order(a: Self, b: Self, c: Self) {
    }

    fn precedes(self, other: Self) -> (b: bool) {
        self.influence < other.influence || (self.influence == other.influence && (self.row
            < other.row || (self.row == other.row && self.layer <= other.layer)))
    }
}

/// Sort keys of the candidates that have a baked cube layer.
pub open spec fn resident_ranks(candidates: Seq<(F32, u32, i32)>) -> Seq<CaptureRank>
    decreases candidates.len(),
{
    if candidates.len() == 0 {
        Seq::empty()
    } else {
        let rest = resident_ranks(candidates.drop_last());
        let (influence, row, layer) = candidates.last();
        if layer >= 0 {
            rest.push(
                CaptureRank {
                    influence: influence.total_rank() as i64,
                    row,
                    layer: layer as u32,
                },
            )
        } else {
            rest
        }
    }
}

/// The resident captures that the shader sees, smallest influence first.
pub open spec fn selected_captures(candidates: Seq<(F32, u32, i32)>) -> Seq<CaptureRank> {
    let ranking = ordered(resident_ranks(candidates));
    ranking.take(kept(ranking.len(), MAX_REFLECTION_CAPTURE_PROJECTIONS as nat))
}

/// `[row, layer]` pairs that stand for `captures`.
pub open spec fn capture_pairs(pairs: Seq<[u32; 2]>, captures: Seq<CaptureRank>) -> bool {
    &&& pairs.len() == captures.len()
    &&& forall|i: int|
        0 <= i < pairs.len() ==> (#[trigger] pairs[i])[0] == captures[i].row && pairs[i][1]
            == captures[i].layer
}

/// Drops captures without a baked layer, then keeps those with the smallest
/// influence. Each candidate is an influence, a GPU row and a layer; the result
/// holds the `[row, layer]` pairs and the number of resident captures left out.
pub fn select_resident_reflection_projections(candidates: &Vec<(F32, u32, i32)>) -> (selection: (
    Vec<[u32; 2]>,
    usize,
))
    ensures
        capture_pairs(selection.0@, selected_captures(candidates@)),
        selection.1 == dropped(
            resident_ranks(candidates@).len(),
            MAX_REFLECTION_CAPTURE_PROJECTIONS as nat,
        ),
{
    let mut ranks: Vec<CaptureRank> = Vec::new();
    let mut i: usize = 0;
    while i < candidates.len()
        invariant
            0 <= i <= candidates@.len(),
            ranks@ == resident_ranks(candidates@.take(i as int)),
        decreases candidates@.len() - i,
    {
        let (influence, row, layer) = candidates[i];
        assert(candidates@.take(i + 1).drop_last() =~= candidates@.take(i as int));
        if layer >= 0 {
            ranks.push(CaptureRank { influence: influence.rank(), row, layer: layer as u32 });
        }
        i = i + 1;
    }
    assert(candidates@.take(i as int) =~= candidates@);
    let ranking: Vec<CaptureRank> = sort(&ranks);
    proof {
        lemma_ordered(ranks@);
    }
    let count: usize = if ranking.len() < MAX_REFLECTION_CAPTURE_PROJECTIONS {
        ranking.len()
    } else {
        MAX_REFLECTION_CAPTURE_PROJECTIONS
    };
    let mut pairs: Vec<[u32; 2]> = Vec::new();
    let mut k: usize = 0;
    while k < count
        invariant
            0 <= k <= count <= ranking@.len(),
            capture_pairs(pairs@, ranking@.take(k as int)),
        decreases count - k,
    {
        let capture: CaptureRank = ranking[k];
        let ghost before = pairs@;
        pairs.push([capture.row, capture.layer]);
        proof {
            assert(ranking@.take(k + 1) =~= ranking@.take(k as int).push(capture));
            assert forall|j: int| 0 <= j < pairs@.len() implies (#[trigger] pairs@[j])[0]
                == ranking@.take(k + 1)[j].row && pairs@[j][1] == ranking@.take(k + 1)[j].layer by {
                if j < before.len() {
                    assert(pairs@[j] == before[j]);
                }
            }
        }
        k = k + 1;
    }
    (pairs, ranking.len() - count)
}

/// Sort key of a volume: higher priorities first, then lower rows.
pub open spec fn volume_rank(candidate: (F32, u32)) -> RankedRow {
    RankedRow { rank: (-candidate.0.total_rank()) as i64, row: candidate.1 as u64 }
}

pub open spec fn volume_ranks(candidates: Seq<(F32, u32)>) -> Seq<RankedRow> {
    candidates.map_values(|c: (F32, u32)| volume_rank(c))
}

/// Rows of the volumes that the shader sees, highest priority first.
pub open spec fn selected_volumes(candidates: Seq<(F32, u32)>) -> Seq<u32> {
    let ranking = ordered(volume_ranks(candidates));
    ranking.take(kept(ranking.len(), MAX_POST_PROCESS_VOLUME_PROJECTIONS as nat)).map_values(
        |r: RankedRow| r.row as u32,
    )
}

/// Keeps the volumes of highest priority. Each candidate is a priority and a GPU
/// row; the result holds the rows and the number of volumes left out.
pub fn select_post_process_volume_rows(candidates: &Vec<(F32, u32)>) -> (selection: (
    Vec<u32>,
    usize,
))
    ensures
        selection.0@ == selected_volumes(candidates@),
        selection.1 == dropped(candidates@.len(), MAX_POST_PROCESS_VOLUME_PROJECTIONS as nat),
{
    let mut ranks: Vec<RankedRow> = Vec::new();
    let mut i: usize = 0;
    while i < candidates.len()
        invariant
            0 <= i <= candidates@.len(),
            ranks@ =~= volume_ranks(candidates@.take(i as int)),
        decreases candidates@.len() - i,
    {
        let (priority, row) = candidates[i];
        ranks.push(RankedRow { rank: -priority.rank(), row: row as u64 });
        i = i + 1;
    }
    assert(candidates@.take(i as int) =~= candidates@);
    let ranking: Vec<RankedRow> = sort(&ranks);
    proof {
        lemma_ordered(ranks@);
    }
    let count: usize = if ranking.len() < MAX_POST_PROCESS_VOLUME_PROJECTIONS {
        ranking.len()
    } else {
        MAX_POST_PROCESS_VOLUME_PROJECTIONS
    };
    let mut rows: Vec<u32> = Vec::new();
    let mut k: usize = 0;
    while k < count
        invariant
            0 <= k <= count <= ranking@.len(),
            rows@ =~= ranking@.take(k as int).map_values(|r: RankedRow| r.row as u32),
        decreases count - k,
    {
        rows.push(ranking[k].row as u32);
        k = k + 1;
    }
    (rows, ranking.len() - count)
}

/// A capture that is left out has no smaller influence than one that is kept.
pub proof fn lemma_kept_captures_are_smallest(
    candidates: Seq<(F32, u32, i32)>,
    kept_at: int,
    left_out: int,
)
    requires
        0 <= kept_at < selected_captures(candidates).len(),
        selected_captures(candidates).len() <= left_out < ordered(
            resident_ranks(candidates),
        ).len(),
    ensures
        selected_captures(candidates)[kept_at].influence <= ordered(
            resident_ranks(candidates),
        )[left_out].influence,
{
    lemma_ordered(resident_ranks(candidates));
    let ranking = ordered(resident_ranks(candidates));
    assert(ranking[kept_at].at_most(ranking[left_out]));
}

/// A volume that is left out has no higher priority than one that is kept.
pub proof fn lemma_kept_volumes_are_highest(
    candidates: Seq<(F32, u32)>,
    kept_at: int,
    left_out: int,
)
    requires
        0 <= kept_at < selected_volumes(candidates).len(),
        selected_volumes(candidates).len() <= left_out < ordered(volume_ranks(candidates)).len(),
    ensures
        ordered(volume_ranks(candidates))[kept_at].rank <= ordered(
            volume_ranks(candidates),
        )[left_out].rank,
{
    lemma_ordered(volume_ranks(candidates));
    let ranking = ordered(volume_ranks(candidates));
    assert(ranking[kept_at].at_most(ranking[left_out]));
}

} // verus!
