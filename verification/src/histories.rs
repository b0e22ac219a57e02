//! What holds of projections after any sequence of calls.
use vstd::prelude::*;

use crate::entity_projection::EntityRowProjection;
use crate::handles::{Handle, LightId};
use crate::light_projection::LightProjection;

verus! {

/// A call that changes a row projection.
pub enum RowStep<H> {
    Insert(H, u32),
    Remove(H),
}

/// `after` is what the call leaves of `before`.
pub open spec fn row_step<H: Handle>(
    before: EntityRowProjection<H>,
    step: RowStep<H>,
    after: EntityRowProjection<H>,
) -> bool {
    match step {
        RowStep::Insert(id, gpu_row) => before.can_take(id) && before.with_row(
            &after,
            id,
            gpu_row,
        ),
        RowStep::Remove(id) => exists|compact_slot: Option<usize>| #[trigger]
            before.without_row(&after, id, compact_slot),
    }
}

/// The calls in `steps`, one after the other, lead from a fresh projection to `projection`.
pub open spec fn rows_come_of<H: Handle>(
    steps: Seq<RowStep<H>>,
    projection: EntityRowProjection<H>,
) -> bool
    decreases steps.len(),
{
    if steps.len() == 0 {
        projection.is_fresh()
    } else {
        exists|before: EntityRowProjection<H>| #[trigger]
            row_step(before, steps.last(), projection) && rows_come_of(steps.drop_last(), before)
    }
}

/// `id` was inserted and not removed since.
pub open spec fn row_is_live<H>(steps: Seq<RowStep<H>>, id: H) -> bool {
    exists|k: int|
        0 <= k < steps.len() && (#[trigger] steps[k] matches RowStep::Insert(own, _) && own == id)
            && forall|j: int| k < j < steps.len() ==> #[trigger] steps[j] != RowStep::Remove(id)
}

proof fn lemma_row_is_live<H>(steps: Seq<RowStep<H>>, id: H)
    requires
        steps.len() > 0,
    ensures
        row_is_live(steps, id) == match steps.last() {
            RowStep::Insert(own, _) => own == id || row_is_live(steps.drop_last(), id),
            RowStep::Remove(own) => own != id && row_is_live(steps.drop_last(), id),
        },
{
    let earlier = steps.drop_last();
    let last = steps.len() - 1;
    if row_is_live(earlier, id) && steps.last() != RowStep::Remove(id) {
        let k = choose|k: int|
            0 <= k < earlier.len() && (#[trigger] earlier[k] matches RowStep::Insert(own, _) && own
                == id) && forall|j: int|
                k < j < earlier.len() ==> #[trigger] earlier[j] != RowStep::Remove(id);
        assert(steps[k] == earlier[k]);
        assert forall|j: int| k < j < steps.len() implies #[trigger] steps[j] != RowStep::Remove(
            id,
        ) by {
            if j < last {
                assert(steps[j] == earlier[j]);
            }
        }
    }
    if row_is_live(steps, id) {
        let k = choose|k: int|
            0 <= k < steps.len() && (#[trigger] steps[k] matches RowStep::Insert(own, _) && own
                == id) && forall|j: int|
                k < j < steps.len() ==> #[trigger] steps[j] != RowStep::Remove(id);
        if k < last {
            assert(earlier[k] == steps[k]);
            assert forall|j: int| k < j < earlier.len() implies #[trigger] earlier[j]
                != RowStep::Remove(id) by {
                assert(steps[j] == earlier[j]);
            }
            assert(steps[last] != RowStep::Remove(id));
        }
    }
    if steps.last() matches RowStep::Insert(own, _) && own == id {
        assert(steps[last] == steps.last());
    }
}

/// What one call does to the listed handles.
proof fn lemma_row_step<H: Handle>(
    before: EntityRowProjection<H>,
    step: RowStep<H>,
    after: EntityRowProjection<H>,
    id: H,
)
    requires
        before.wf(),
        row_step(before, step, after),
    ensures
        after.wf(),
        after.spec_ids().contains(id) == match step {
            RowStep::Insert(own, _) => own == id || before.spec_ids().contains(id),
            RowStep::Remove(own) => own != id && before.spec_ids().contains(id),
        },
{
    before.rows.lemma_contains(id);
    after.rows.lemma_contains(id);
}

/// The ids that insertions alone put in.
pub open spec fn inserted_ids<H>(steps: Seq<RowStep<H>>) -> Seq<H> {
    steps.map_values(
        |step: RowStep<H>|
            match step {
                RowStep::Insert(id, _) => id,
                RowStep::Remove(id) => id,
            },
    )
}

/// After any calls a row projection lists exactly the handles that were inserted and not
/// removed since, each once, no two of them in one entity slot; without removals they
/// stand in the order of their insertion.
pub proof fn lemma_projection_lists_what_is_live<H: Handle>(
    steps: Seq<RowStep<H>>,
    projection: EntityRowProjection<H>,
)
    requires
        rows_come_of(steps, projection),
    ensures
        projection.wf(),
        forall|id: H| #[trigger]
            projection.spec_ids().contains(id) <==> row_is_live(steps, id),
        projection.spec_ids().no_duplicates(),
        forall|i: int, j: int|
            0 <= i < j < projection.spec_ids().len() ==> (
            #[trigger] projection.spec_ids()[i]).spec_entity().index != (
            #[trigger] projection.spec_ids()[j]).spec_entity().index,
        (forall|i: int| 0 <= i < steps.len() ==> #[trigger] steps[i] is Insert)
            ==> projection.spec_ids() == inserted_ids(steps),
    decreases steps.len(),
{
    let ids = projection.spec_ids();
    if steps.len() == 0 {
        assert(ids =~= inserted_ids(steps));
    } else {
        let earlier = steps.drop_last();
        let before = choose|before: EntityRowProjection<H>| #[trigger]
            row_step(before, steps.last(), projection) && rows_come_of(earlier, before);
        lemma_projection_lists_what_is_live(earlier, before);
        assert forall|id: H| #[trigger] ids.contains(id) <==> row_is_live(steps, id) by {
            lemma_row_is_live(steps, id);
            lemma_row_step(before, steps.last(), projection, id);
            assert(before.spec_ids().contains(id) <==> row_is_live(earlier, id));
        }
        if forall|i: int| 0 <= i < steps.len() ==> #[trigger] steps[i] is Insert {
            assert forall|i: int| 0 <= i < earlier.len() implies #[trigger] earlier[i] is Insert by {
                assert(steps[i] is Insert);
            }
            assert(steps[steps.len() - 1] is Insert);
            assert(ids =~= inserted_ids(steps));
        }
    }
    assert forall|i: int, j: int| 0 <= i < ids.len() && 0 <= j < ids.len() && i != j implies ids[i]
        != ids[j] && ids[i].spec_entity().index != ids[j].spec_entity().index by {
        projection.rows.lemma_distinct(i, j);
    }
}

/// A call that changes a light projection.
pub enum LightStep {
    Insert(LightId, u32),
    Remove(LightId),
    MarkAtlasDirty,
    TakeAtlasDirty,
}

/// `after` is what the call leaves of `before`.
pub open spec fn light_step(
    before: LightProjection,
    step: LightStep,
    after: LightProjection,
) -> bool {
    match step {
        LightStep::Insert(id, gpu_row) => before.rows.can_take(id) && before.with_light(
            &after,
            id,
            gpu_row,
        ),
        LightStep::Remove(id) => exists|compact_slot: Option<usize>| #[trigger]
            before.without_light(&after, id, compact_slot),
        LightStep::MarkAtlasDirty => after.rows == before.rows && after.atlas_dirty,
        LightStep::TakeAtlasDirty => before.atlas_taken(&after, before.atlas_dirty),
    }
}

/// The calls in `steps`, one after the other, lead from a fresh projection to `projection`.
pub open spec fn lights_come_of(steps: Seq<LightStep>, projection: LightProjection) -> bool
    decreases steps.len(),
{
    if steps.len() == 0 {
        projection.rows.is_fresh() && !projection.atlas_dirty
    } else {
        exists|before: LightProjection| #[trigger]
            light_step(before, steps.last(), projection) && lights_come_of(
                steps.drop_last(),
                before,
            )
    }
}

/// The light was inserted and not removed since.
pub open spec fn light_is_live(steps: Seq<LightStep>, id: LightId) -> bool {
    exists|k: int|
        0 <= k < steps.len() && (#[trigger] steps[k] matches LightStep::Insert(own, _) && own == id)
            && forall|j: int| k < j < steps.len() ==> #[trigger] steps[j] != LightStep::Remove(id)
}

/// The call at `i` asks for a new ranking: an insertion, the removal of a live light, or
/// the mark itself.
pub open spec fn asks_for_ranking(steps: Seq<LightStep>, i: int) -> bool {
    match steps[i] {
        LightStep::Insert(_, _) => true,
        LightStep::Remove(id) => light_is_live(steps.take(i), id),
        LightStep::MarkAtlasDirty => true,
        LightStep::TakeAtlasDirty => false,
    }
}

/// Some call asked for a new ranking, and none took the request since.
pub open spec fn ranking_is_due(steps: Seq<LightStep>) -> bool {
    exists|i: int|
        0 <= i < steps.len() && #[trigger] asks_for_ranking(steps, i) && forall|j: int|
            i < j < steps.len() ==> !(#[trigger] steps[j] is TakeAtlasDirty)
}

proof fn lemma_light_is_live(steps: Seq<LightStep>, id: LightId)
    requires
        steps.len() > 0,
    ensures
        light_is_live(steps, id) == match steps.last() {
            LightStep::Insert(own, _) => own == id || light_is_live(steps.drop_last(), id),
            LightStep::Remove(own) => own != id && light_is_live(steps.drop_last(), id),
            _ => light_is_live(steps.drop_last(), id),
        },
{
    let earlier = steps.drop_last();
    let last = steps.len() - 1;
    if light_is_live(earlier, id) && steps.last() != LightStep::Remove(id) {
        let k = choose|k: int|
            0 <= k < earlier.len() && (#[trigger] earlier[k] matches LightStep::Insert(own, _)
                && own == id) && forall|j: int|
                k < j < earlier.len() ==> #[trigger] earlier[j] != LightStep::Remove(id);
        assert(steps[k] == earlier[k]);
        assert forall|j: int| k < j < steps.len() implies #[trigger] steps[j]
            != LightStep::Remove(id) by {
            if j < last {
                assert(steps[j] == earlier[j]);
            }
        }
    }
    if light_is_live(steps, id) {
        let k = choose|k: int|
            0 <= k < steps.len() && (#[trigger] steps[k] matches LightStep::Insert(own, _) && own
                == id) && forall|j: int|
                k < j < steps.len() ==> #[trigger] steps[j] != LightStep::Remove(id);
        if k < last {
            assert(earlier[k] == steps[k]);
            assert forall|j: int| k < j < earlier.len() implies #[trigger] earlier[j]
                != LightStep::Remove(id) by {
                assert(steps[j] == earlier[j]);
            }
            assert(steps[last] != LightStep::Remove(id));
        }
    }
    if steps.last() matches LightStep::Insert(own, _) && own == id {
        assert(steps[last] == steps.last());
    }
}

proof fn lemma_ranking_is_due(steps: Seq<LightStep>)
    requires
        steps.len() > 0,
    ensures
        ranking_is_due(steps) == (asks_for_ranking(steps, steps.len() - 1) || !(
        steps.last() is TakeAtlasDirty) && ranking_is_due(steps.drop_last())),
{
    let earlier = steps.drop_last();
    let last = steps.len() - 1;
    assert forall|i: int| 0 <= i < last implies #[trigger] asks_for_ranking(earlier, i)
        == asks_for_ranking(steps, i) by {
        assert(earlier.take(i) =~= steps.take(i));
        assert(earlier[i] == steps[i]);
    }
    if ranking_is_due(earlier) && !(steps.last() is TakeAtlasDirty) {
        let i = choose|i: int|
            0 <= i < earlier.len() && #[trigger] asks_for_ranking(earlier, i) && forall|j: int|
                i < j < earlier.len() ==> !(#[trigger] earlier[j] is TakeAtlasDirty);
        assert(asks_for_ranking(steps, i));
        assert forall|j: int| i < j < steps.len() implies !(
        #[trigger] steps[j] is TakeAtlasDirty) by {
            if j < last {
                assert(steps[j] == earlier[j]);
            }
        }
    }
    if ranking_is_due(steps) {
        let i = choose|i: int|
            0 <= i < steps.len() && #[trigger] asks_for_ranking(steps, i) && forall|j: int|
                i < j < steps.len() ==> !(#[trigger] steps[j] is TakeAtlasDirty);
        if i < last {
            assert(asks_for_ranking(earlier, i));
            assert forall|j: int| i < j < earlier.len() implies !(
            #[trigger] earlier[j] is TakeAtlasDirty) by {
                assert(steps[j] == earlier[j]);
            }
            assert(!(steps[last] is TakeAtlasDirty));
        }
    }
}

/// After any calls a light projection lists exactly the lights that were inserted and not
/// removed since, and its atlas counts as dirty exactly if, since the request was last
/// taken, a light was inserted, a live one removed, or the atlas marked. The removal of a
/// light that is not there does not count.
pub proof fn lemma_atlas_is_dirty_as_asked(steps: Seq<LightStep>, projection: LightProjection)
    requires
        lights_come_of(steps, projection),
    ensures
        projection.wf(),
        forall|id: LightId| #[trigger]
            projection.rows.spec_ids().contains(id) <==> light_is_live(steps, id),
        projection.atlas_dirty <==> ranking_is_due(steps),
    decreases steps.len(),
{
    if steps.len() > 0 {
        let earlier = steps.drop_last();
        let before = choose|before: LightProjection| #[trigger]
            light_step(before, steps.last(), projection) && lights_come_of(earlier, before);
        lemma_atlas_is_dirty_as_asked(earlier, before);
        lemma_ranking_is_due(steps);
        assert(steps.take(steps.len() - 1) =~= earlier);
        assert(steps[steps.len() - 1] == steps.last());
        assert forall|id: LightId| #[trigger]
            projection.rows.spec_ids().contains(id) <==> light_is_live(steps, id) by {
            lemma_light_is_live(steps, id);
            before.rows.rows.lemma_contains(id);
            projection.rows.rows.lemma_contains(id);
            assert(before.rows.spec_ids().contains(id) <==> light_is_live(earlier, id));
        }
        match steps.last() {
            LightStep::Remove(id) => {
                before.rows.rows.lemma_contains(id);
                assert(before.rows.spec_ids().contains(id) <==> light_is_live(earlier, id));
            },
            _ => {},
        }
    }
}

/// Taking the request tells whether a new ranking is due; taking it once more tells that
/// none is, and neither changes which lights are listed, in which order and rows.
pub proof fn lemma_request_is_taken_once(
    steps: Seq<LightStep>,
    before: LightProjection,
    first: LightProjection,
    dirty: bool,
    second: LightProjection,
    still_dirty: bool,
)
    requires
        lights_come_of(steps, before),
        before.atlas_taken(&first, dirty),
        first.atlas_taken(&second, still_dirty),
    ensures
        dirty <==> ranking_is_due(steps),
        !still_dirty,
        first.rows == before.rows,
        second.rows == before.rows,
{
    lemma_atlas_is_dirty_as_asked(steps, before);
}

} // verus!
