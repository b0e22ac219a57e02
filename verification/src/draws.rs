//! Draw batching.
//!
//! Objects are drawn sorted by material class, graph, render bucket, mesh and
//! material; neighbours that agree in all five share one instanced draw call.
use vstd::prelude::*;

use crate::groups::{object_is_visible, visible, GroupMask};
use crate::ordering::{lemma_ordered, ordered, sort, Ordered};
use crate::runs::{lemma_run_end_unique, lemma_run_of_place, lemma_runs_tile, runs, runs_from};

verus! {

/// Bits of a material's feature flags that the scene layer reads.
#[derive(Clone, Copy, Debug, PartialEq, Eq, Structural)]
pub struct MaterialFlagBits {
    pub forward_shading: u32,
    pub transparent_only: u32,
    pub alpha_test: u32,
}

/// Which pass draws a material.
#[derive(Clone, Copy, Debug, PartialEq, Eq, Structural)]
pub enum RenderBucket {
    Opaque,
    Transparent,
    Forward,
}

impl RenderBucket {
    /// Place of the bucket in draw order.
    pub open spec fn spec_rank(self) -> u8 {
        match self {
            RenderBucket::Opaque => 0,
            RenderBucket::Transparent => 1,
            RenderBucket::Forward => 2,
        }
    }

    pub fn rank(self) -> (rank: u8)
        ensures
            rank == self.spec_rank(),
    {
        match self {
            RenderBucket::Opaque => 0,
            RenderBucket::Transparent => 1,
            RenderBucket::Forward => 2,
        }
    }
}

pub open spec fn spec_render_bucket(flags: u32, bits: MaterialFlagBits) -> RenderBucket {
    if flags & bits.forward_shading != 0 {
        RenderBucket::Forward
    } else if flags & bits.transparent_only != 0 {
        RenderBucket::Transparent
    } else {
        RenderBucket::Opaque
    }
}

/// The bucket that a material's flags put it in; forward shading wins over
/// transparency.
pub fn render_bucket(flags: u32, bits: MaterialFlagBits) -> (bucket: RenderBucket)
    ensures
        bucket == spec_render_bucket(flags, bits),
{
    if flags & bits.forward_shading != 0 {
        RenderBucket::Forward
    } else if flags & bits.transparent_only != 0 {
        RenderBucket::Transparent
    } else {
        RenderBucket::Opaque
    }
}

/// What a contiguous range of draws shares: one shader template and one bucket.
#[derive(Clone, Copy, Debug, PartialEq, Eq, Structural)]
pub struct MaterialRangeKey {
    pub class: u32,
    pub graph_hash: u64,
    pub bucket: RenderBucket,
}

/// Material class, graph hash, first draw and number of draws.
pub type MaterialRange = (u32, u64, u32, u32);

/// The range that a run of draws stands for.
pub open spec fn material_range(keys: Seq<MaterialRangeKey>, run: (int, int)) -> MaterialRange {
    (keys[run.0].class, keys[run.0].graph_hash, run.0 as u32, (run.1 - run.0) as u32)
}

/// The ranges among `list` that belong to `bucket`, in order.
pub open spec fn ranges_in_bucket(
    keys: Seq<MaterialRangeKey>,
    list: Seq<(int, int)>,
    bucket: RenderBucket,
) -> Seq<MaterialRange>
    decreases list.len(),
{
    if list.len() == 0 {
        Seq::empty()
    } else {
        let rest = ranges_in_bucket(keys, list.drop_last(), bucket);
        if keys[list.last().0].bucket == bucket {
            rest.push(material_range(keys, list.last()))
        } else {
            rest
        }
    }
}

/// All ranges of `bucket`: one per maximal run of equal keys.
pub open spec fn material_ranges(
    keys: Seq<MaterialRangeKey>,
    bucket: RenderBucket,
) -> Seq<MaterialRange> {
    ranges_in_bucket(keys, runs(keys), bucket)
}

/// Groups neighbouring draws with equal keys into ranges, one list per bucket:
/// opaque, transparent, forward.
pub fn build_material_ranges(keys: &[MaterialRangeKey]) -> (ranges: (
    Vec<MaterialRange>,
    Vec<MaterialRange>,
    Vec<MaterialRange>,
))
    requires
        keys@.len() <= u32::MAX,
    ensures
        ranges.0@ == material_ranges(keys@, RenderBucket::Opaque),
        ranges.1@ == material_ranges(keys@, RenderBucket::Transparent),
        ranges.2@ == material_ranges(keys@, RenderBucket::Forward),
{
    let mut opaque: Vec<MaterialRange> = Vec::new();
    let mut transparent: Vec<MaterialRange> = Vec::new();
    let mut forward: Vec<MaterialRange> = Vec::new();
    let mut index: usize = 0;
    let ghost mut done: Seq<(int, int)> = Seq::empty();
    assert(done + runs_from(keys@, 0) =~= runs(keys@));
    while index < keys.len()
        invariant
            0 <= index <= keys@.len(),
            keys@.len() <= u32::MAX,
            done + runs_from(keys@, index as int) == runs(keys@),
            opaque@ == ranges_in_bucket(keys@, done, RenderBucket::Opaque),
            transparent@ == ranges_in_bucket(keys@, done, RenderBucket::Transparent),
            forward@ == ranges_in_bucket(keys@, done, RenderBucket::Forward),
        decreases keys@.len() - index,
    {
        let key: MaterialRangeKey = keys[index];
        let start: usize = index;
        index = index + 1;
        while index < keys.len() && keys[index] == key
            invariant
                start < index <= keys@.len(),
                key == keys@[start as int],
                forall|p: int| start < p < index ==> #[trigger] keys@[p] == keys@[start as int],
            ensures
                start < index <= keys@.len(),
                forall|p: int| start < p < index ==> #[trigger] keys@[p] == keys@[start as int],
                index < keys@.len() ==> keys@[index as int] != keys@[start as int],
            decreases keys@.len() - index,
        {
            index = index + 1;
        }
        let range: MaterialRange = (
            key.class,
            key.graph_hash,
            start as u32,
            index as u32 - start as u32,
        );
        proof {
            lemma_run_end_unique(keys@, start as int, start + 1, index as int);
            let run = (start as int, index as int);
            assert(runs_from(keys@, start as int) == seq![run] + runs_from(keys@, index as int));
            assert(done + (seq![run] + runs_from(keys@, index as int)) =~= done.push(run)
                + runs_from(keys@, index as int));
            assert(done.push(run).drop_last() =~= done);
            done = done.push(run);
        }
        match key.bucket {
            RenderBucket::Opaque => opaque.push(range),
            RenderBucket::Transparent => transparent.push(range),
            RenderBucket::Forward => forward.push(range),
        }
    }
    assert(done + runs_from(keys@, index as int) =~= done);
    (opaque, transparent, forward)
}

/// Where a mesh lies in the shared geometry buffers.
#[derive(Clone, Copy, Debug, PartialEq, Eq, Structural)]
pub struct MeshSlice {
    pub first_vertex: u32,
    pub vertex_count: u32,
    pub first_index: u32,
    pub index_count: u32,
}

#[derive(Clone, Copy, Debug, PartialEq, Eq, Structural)]
pub struct GpuDrawCall {
    pub index_count: u32,
    pub first_index: u32,
    pub vertex_offset: i32,
    pub first_instance: u32,
    pub instance_count: u32,
}

#[derive(Clone, Copy, Debug, PartialEq, Eq, Structural)]
pub struct DrawIndexedIndirectArgs {
    pub index_count: u32,
    pub instance_count: u32,
    pub first_index: u32,
    pub base_vertex: i32,
    pub first_instance: u32,
}

/// What two objects must agree in to share a draw call.
#[derive(Clone, Copy, Debug, PartialEq, Eq, Structural)]
pub struct ObjectSortKey {
    pub class: u32,
    pub graph_hash: u64,
    pub bucket: RenderBucket,
    pub mesh_row: u32,
    pub material_row: u32,
}

impl ObjectSortKey {
    /// Lexicographic order, field by field.
    pub open spec fn spec_less(self, other: Self) -> bool {
        ||| self.class < other.class
        ||| self.class == other.class && {
            ||| self.graph_hash < other.graph_hash
            ||| self.graph_hash == other.graph_hash && {
                ||| self.bucket.spec_rank() < other.bucket.spec_rank()
                ||| self.bucket == other.bucket && {
                    ||| self.mesh_row < other.mesh_row
                    ||| self.mesh_row == other.mesh_row && self.material_row < other.material_row
                }
            }
        }
    }

    pub fn less(self, other: Self) -> (less: bool)
        ensures
            less == self.spec_less(other),
    {
        if self.class != other.class {
            return self.class < other.class;
        }
        if self.graph_hash != other.graph_hash {
            return self.graph_hash < other.graph_hash;
        }
        if self.bucket != other.bucket {
            return self.bucket.rank() < other.bucket.rank();
        }
        if self.mesh_row != other.mesh_row {
            return self.mesh_row < other.mesh_row;
        }
        self.material_row < other.material_row
    }
}

/// A sort key with the place its object had before sorting, so that objects with
/// equal keys stay in order.
#[derive(Clone, Copy, Debug, PartialEq, Eq, Structural)]
pub struct PlacedKey {
    pub key: ObjectSortKey,
    pub place: usize,
}

impl Ordered for PlacedKey {
    open spec fn at_most(self, other: Self) -> bool {
        self.key.spec_less(other.key) || (self.key == other.key && self.place <= other.place)
    }

    proof fn total_order(a: Self, b: Self, c: Self) {
    }

    fn precedes(self, other: Self) -> (b: bool) {
        self.key.less(other.key) || (self.key == other.key && self.place <= other.place)
    }
}

/// An object as the draw lists see it.
#[derive(Clone, Copy, Debug)]
pub struct DrawEntry {
    pub key: ObjectSortKey,
    pub gpu_row: u32,
    pub groups: GroupMask,
    pub slice: MeshSlice,
}

/// Sort keys of `entries`, each with its place.
pub open spec fn placed_keys(entries: Seq<DrawEntry>) -> Seq<PlacedKey> {
    Seq::new(entries.len(), |i: int| PlacedKey { key: entries[i].key, place: i as usize })
}

/// Places of `entries` in draw order.
pub open spec fn draw_order(entries: Seq<DrawEntry>) -> Seq<usize> {
    ordered(placed_keys(entries)).map_values(|k: PlacedKey| k.place)
}

/// `entries` in draw order.
pub open spec fn drawn(entries: Seq<DrawEntry>) -> Seq<DrawEntry> {
    draw_order(entries).map_values(|i: usize| entries[i as int])
}

pub open spec fn keys_of(list: Seq<DrawEntry>) -> Seq<ObjectSortKey> {
    list.map_values(|e: DrawEntry| e.key)
}

/// The draw calls' instance ranges: maximal runs of equal keys in draw order.
pub open spec fn batches(entries: Seq<DrawEntry>) -> Seq<(int, int)> {
    runs(keys_of(drawn(entries)))
}

pub open spec fn draw_call(list: Seq<DrawEntry>, batch: (int, int)) -> GpuDrawCall {
    GpuDrawCall {
        index_count: list[batch.0].slice.index_count,
        first_index: list[batch.0].slice.first_index,
        vertex_offset: list[batch.0].slice.first_vertex as i32,
        first_instance: batch.0 as u32,
        instance_count: (batch.1 - batch.0) as u32,
    }
}

pub open spec fn indirect_args(list: Seq<DrawEntry>, batch: (int, int)) -> DrawIndexedIndirectArgs {
    DrawIndexedIndirectArgs {
        index_count: list[batch.0].slice.index_count,
        instance_count: (batch.1 - batch.0) as u32,
        first_index: list[batch.0].slice.first_index,
        base_vertex: list[batch.0].slice.first_vertex as i32,
        first_instance: batch.0 as u32,
    }
}

pub open spec fn range_key(list: Seq<DrawEntry>, batch: (int, int)) -> MaterialRangeKey {
    MaterialRangeKey {
        class: list[batch.0].key.class,
        graph_hash: list[batch.0].key.graph_hash,
        bucket: list[batch.0].key.bucket,
    }
}

pub open spec fn visibility_word(groups: GroupMask, hidden: GroupMask) -> u32 {
    if visible(groups, hidden) {
        1
    } else {
        0
    }
}

/// Everything the renderer needs to draw the scene's objects.
pub struct DrawLists {
    /// For each drawn instance, the place its object had before sorting.
    pub order: Vec<usize>,
    pub source_indices: Vec<u32>,
    pub visibility: Vec<u32>,
    pub draw_calls: Vec<GpuDrawCall>,
    pub indirect: Vec<DrawIndexedIndirectArgs>,
    pub draw_material_rows: Vec<u32>,
    pub opaque_ranges: Vec<MaterialRange>,
    pub transparent_ranges: Vec<MaterialRange>,
    pub forward_ranges: Vec<MaterialRange>,
}

impl DrawLists {
    /// The lists are those of `entries` while `hidden` is hidden.
    pub open spec fn describes(&self, entries: Seq<DrawEntry>, hidden: GroupMask) -> bool {
        let list = drawn(entries);
        let groups = batches(entries);
        let range_keys = groups.map_values(|b: (int, int)| range_key(list, b));
        &&& self.order@ == draw_order(entries)
        &&& self.source_indices@ == list.map_values(|e: DrawEntry| e.gpu_row)
        &&& self.visibility@ == list.map_values(
            |e: DrawEntry| visibility_word(e.groups, hidden),
        )
        &&& self.draw_calls@ == groups.map_values(|b: (int, int)| draw_call(list, b))
        &&& self.indirect@ == groups.map_values(|b: (int, int)| indirect_args(list, b))
        &&& self.draw_material_rows@ == groups.map_values(
            |b: (int, int)| list[b.0].key.material_row,
        )
        &&& self.opaque_ranges@ == material_ranges(range_keys, RenderBucket::Opaque)
        &&& self.transparent_ranges@ == material_ranges(range_keys, RenderBucket::Transparent)
        &&& self.forward_ranges@ == material_ranges(range_keys, RenderBucket::Forward)
    }
}

/// The draw order is a rearrangement of the places.
pub proof fn lemma_draw_order(entries: Seq<DrawEntry>)
    requires
        entries.len() <= usize::MAX,
    ensures
        draw_order(entries).len() == entries.len(),
        forall|p: int|
            0 <= p < entries.len() ==> #[trigger] draw_order(entries)[p] < entries.len()
                && ordered(placed_keys(entries))[p].key == entries[draw_order(
                entries,
            )[p] as int].key,
        draw_order(entries).no_duplicates(),
        forall|i: usize| i < entries.len() ==> #[trigger] draw_order(entries).contains(i),
{
    let keys = placed_keys(entries);
    let sorted = ordered(keys);
    let order = draw_order(entries);
    lemma_ordered(keys);
    assert forall|p: int| 0 <= p < entries.len() implies #[trigger] order[p] < entries.len()
        && sorted[p].key == entries[order[p] as int].key by {
        assert(sorted.contains(sorted[p]));
        let i = keys.index_of(sorted[p]);
        assert(keys[i] == sorted[p]);
    }
    assert forall|i: usize| i < entries.len() implies #[trigger] order.contains(i) by {
        assert(keys.contains(keys[i as int]));
        assert(sorted.contains(keys[i as int]));
        let p = sorted.index_of(keys[i as int]);
        assert(sorted[p] == keys[i as int]);
        assert(order[p] == i);
    }
    assert(keys.no_duplicates());
    assert(sorted.no_duplicates()) by {
        broadcast use vstd::seq_lib::group_to_multiset_ensures;

        keys.lemma_multiset_has_no_duplicates();
        sorted.lemma_multiset_has_no_duplicates_conv();
    }
    assert forall|p: int, q: int| 0 <= p < q < order.len() implies order[p] != order[q] by {
        if order[p] == order[q] {
            assert(sorted[p] == sorted[q]);
        }
    }
}

/// Sorts `entries` into draw order and groups them into draw calls.
pub fn build_draw_lists(entries: &Vec<DrawEntry>, hidden: GroupMask) -> (lists: DrawLists)
    requires
        entries@.len() <= u32::MAX,
    ensures
        lists.describes(entries@, hidden),
{
    let mut keys: Vec<PlacedKey> = Vec::new();
    let mut i: usize = 0;
    while i < entries.len()
        invariant
            0 <= i <= entries@.len(),
            keys@ =~= placed_keys(entries@).take(i as int),
        decreases entries@.len() - i,
    {
        keys.push(PlacedKey { key: entries[i].key, place: i });
        i = i + 1;
    }
    assert(keys@ =~= placed_keys(entries@));
    let sorted: Vec<PlacedKey> = sort(&keys);
    let ghost list = drawn(entries@);
    let ghost sort_keys = keys_of(list);
    proof {
        lemma_draw_order(entries@);
    }
    let mut order: Vec<usize> = Vec::new();
    let mut source_indices: Vec<u32> = Vec::new();
    let mut visibility: Vec<u32> = Vec::new();
    let mut p: usize = 0;
    while p < sorted.len()
        invariant
            0 <= p <= sorted@.len(),
            sorted@ == ordered(placed_keys(entries@)),
            sorted@.len() == entries@.len(),
            list == drawn(entries@),
            forall|q: int|
                0 <= q < entries@.len() ==> #[trigger] draw_order(entries@)[q] < entries@.len(),
            draw_order(entries@).len() == entries@.len(),
            order@ =~= draw_order(entries@).take(p as int),
            source_indices@ =~= list.take(p as int).map_values(|e: DrawEntry| e.gpu_row),
            visibility@ =~= list.take(p as int).map_values(
                |e: DrawEntry| visibility_word(e.groups, hidden),
            ),
        decreases sorted@.len() - p,
    {
        let place: usize = sorted[p].place;
        assert(place == draw_order(entries@)[p as int]);
        let entry: DrawEntry = entries[place];
        assert(entry == list[p as int]);
        order.push(place);
        source_indices.push(entry.gpu_row);
        let shown: u32 = if object_is_visible(entry.groups, hidden) {
            1
        } else {
            0
        };
        visibility.push(shown);
        p = p + 1;
    }
    proof {
        assert(draw_order(entries@).take(p as int) =~= draw_order(entries@));
        assert(list.take(p as int) =~= list);
    }
    let mut draw_calls: Vec<GpuDrawCall> = Vec::new();
    let mut indirect: Vec<DrawIndexedIndirectArgs> = Vec::new();
    let mut draw_material_rows: Vec<u32> = Vec::new();
    let mut range_keys: Vec<MaterialRangeKey> = Vec::new();
    let mut cursor: usize = 0;
    let ghost mut done: Seq<(int, int)> = Seq::empty();
    assert(done + runs_from(sort_keys, 0) =~= runs(sort_keys));
    while cursor < sorted.len()
        invariant
            0 <= cursor <= sorted@.len(),
            sorted@ == ordered(placed_keys(entries@)),
            sorted@.len() == entries@.len(),
            entries@.len() <= u32::MAX,
            list == drawn(entries@),
            list.len() == entries@.len(),
            sort_keys == keys_of(list),
            order@ == draw_order(entries@),
            forall|q: int|
                0 <= q < entries@.len() ==> #[trigger] draw_order(entries@)[q] < entries@.len()
                    && sorted@[q].key == entries@[draw_order(entries@)[q] as int].key,
            done + runs_from(sort_keys, cursor as int) == runs(sort_keys),
            draw_calls@ =~= done.map_values(|b: (int, int)| draw_call(list, b)),
            indirect@ =~= done.map_values(|b: (int, int)| indirect_args(list, b)),
            draw_material_rows@ =~= done.map_values(|b: (int, int)| list[b.0].key.material_row),
            range_keys@ =~= done.map_values(|b: (int, int)| range_key(list, b)),
        decreases sorted@.len() - cursor,
    {
        let start: usize = cursor;
        let key: ObjectSortKey = sorted[start].key;
        let first: DrawEntry = entries[order[start]];
        assert(first == list[start as int]);
        assert(sort_keys[start as int] == key);
        cursor = cursor + 1;
        while cursor < sorted.len() && sorted[cursor].key == key
            invariant
                start < cursor <= sorted@.len(),
                sort_keys.len() == sorted@.len(),
                forall|q: int|
                    0 <= q < sorted@.len() ==> #[trigger] sort_keys[q] == sorted@[q].key,
                key == sort_keys[start as int],
                forall|q: int|
                    start < q < cursor ==> #[trigger] sort_keys[q] == sort_keys[start as int],
            ensures
                start < cursor <= sorted@.len(),
                forall|q: int|
                    start < q < cursor ==> #[trigger] sort_keys[q] == sort_keys[start as int],
                cursor < sorted@.len() ==> sort_keys[cursor as int] != sort_keys[start as int],
            decreases sorted@.len() - cursor,
        {
            cursor = cursor + 1;
        }
        let group_start: u32 = start as u32;
        let instance_count: u32 = cursor as u32 - group_start;
        draw_calls.push(
            GpuDrawCall {
                index_count: first.slice.index_count,
                first_index: first.slice.first_index,
                vertex_offset: first.slice.first_vertex as i32,
                first_instance: group_start,
                instance_count,
            },
        );
        draw_material_rows.push(key.material_row);
        indirect.push(
            DrawIndexedIndirectArgs {
                index_count: first.slice.index_count,
                instance_count,
                first_index: first.slice.first_index,
                base_vertex: first.slice.first_vertex as i32,
                first_instance: group_start,
            },
        );
        range_keys.push(
            MaterialRangeKey { class: key.class, graph_hash: key.graph_hash, bucket: key.bucket },
        );
        proof {
            lemma_run_end_unique(sort_keys, start as int, start + 1, cursor as int);
            let run = (start as int, cursor as int);
            assert(runs_from(sort_keys, start as int) == seq![run] + runs_from(
                sort_keys,
                cursor as int,
            ));
            assert(done + (seq![run] + runs_from(sort_keys, cursor as int)) =~= done.push(run)
                + runs_from(sort_keys, cursor as int));
            done = done.push(run);
        }
    }
    proof {
        assert(done + runs_from(sort_keys, cursor as int) =~= done);
        lemma_runs_tile(sort_keys, 0);
    }
    let (opaque_ranges, transparent_ranges, forward_ranges) = build_material_ranges(
        range_keys.as_slice(),
    );
    DrawLists {
        order,
        source_indices,
        visibility,
        draw_calls,
        indirect,
        draw_material_rows,
        opaque_ranges,
        transparent_ranges,
        forward_ranges,
    }
}

/// Every object is drawn by exactly one draw call, once.
pub proof fn lemma_drawn_exactly_once(entries: Seq<DrawEntry>, i: int) -> (at: (int, int))
    requires
        entries.len() <= usize::MAX,
        0 <= i < entries.len(),
    ensures
        0 <= at.0 < batches(entries).len(),
        batches(entries)[at.0].0 <= at.1 < batches(entries)[at.0].1,
        draw_order(entries)[at.1] == i,
        forall|n: int, p: int| #![trigger batches(entries)[n], draw_order(entries)[p]]
            0 <= n < batches(entries).len() && batches(entries)[n].0 <= p < batches(entries)[n].1
                && draw_order(entries)[p] == i ==> n == at.0 && p == at.1,
{
    lemma_draw_order(entries);
    let order = draw_order(entries);
    let keys = keys_of(drawn(entries));
    assert(order.contains(i as usize));
    let p = order.index_of(i as usize);
    let n = lemma_run_of_place(keys, 0, p);
    lemma_runs_tile(keys, 0);
    assert forall|m: int, q: int| #![trigger batches(entries)[m], order[q]]
        0 <= m < batches(entries).len() && batches(entries)[m].0 <= q < batches(entries)[m].1
            && order[q] == i implies m == n && q == p by {
        let batch = runs_from(keys, 0)[m];
        assert(0 <= q < order.len());
        assert(q == p);
    }
    (n, p)
}

/// Objects that agree in material class, graph, bucket, mesh and material are
/// drawn by the same draw call.
pub proof fn lemma_equal_keys_share_a_draw(entries: Seq<DrawEntry>, n: int, m: int, p: int, q: int)
    requires
        entries.len() <= usize::MAX,
        0 <= n < batches(entries).len(),
        0 <= m < batches(entries).len(),
        batches(entries)[n].0 <= p < batches(entries)[n].1,
        batches(entries)[m].0 <= q < batches(entries)[m].1,
        drawn(entries)[p].key == drawn(entries)[q].key,
    ensures
        n == m,
    decreases (if n > m { 1int } else { 0int }),
{
    if n > m {
        lemma_equal_keys_share_a_draw(entries, m, n, q, p);
    } else if n < m {
        lemma_draw_order(entries);
        let sorted = ordered(placed_keys(entries));
        lemma_ordered(placed_keys(entries));
        let list = drawn(entries);
        let keys = keys_of(list);
        let all = batches(entries);
        lemma_runs_tile(keys, 0);
        let boundary = all[n].1;
        lemma_batches_ascend(keys, n, m);
        assert(p < boundary <= q);
        assert(keys[boundary] != keys[all[n].0]);
        assert(keys[p] == keys[all[n].0]);
        assert(draw_order(entries)[p] < entries.len());
        assert(draw_order(entries)[boundary] < entries.len());
        assert(draw_order(entries)[q] < entries.len());
        assert(keys[p] == sorted[p].key && keys[boundary] == sorted[boundary].key && keys[q]
            == sorted[q].key);
        assert(sorted[p].at_most(sorted[boundary]));
        assert(q != boundary ==> sorted[boundary].at_most(sorted[q]));
    }
}

proof fn lemma_batches_ascend(keys: Seq<ObjectSortKey>, n: int, m: int)
    requires
        0 <= n < m < runs(keys).len(),
    ensures
        runs(keys)[n].1 <= runs(keys)[m].0,
    decreases m - n,
{
    lemma_runs_tile(keys, 0);
    let all = runs(keys);
    assert(all[m - 1].1 == all[m].0);
    if n < m - 1 {
        lemma_batches_ascend(keys, n, m - 1);
        assert(all[m - 1].0 < all[m - 1].1);
    }
}

/// Sort key of a shadow caster: casters are batched by mesh alone.
pub open spec fn spec_shadow_key(slot: u32, generation: u32) -> ObjectSortKey {
    ObjectSortKey {
        class: 0,
        graph_hash: 0,
        bucket: RenderBucket::Opaque,
        mesh_row: slot,
        material_row: generation,
    }
}

pub fn shadow_key(slot: u32, generation: u32) -> (key: ObjectSortKey)
    ensures
        key == spec_shadow_key(slot, generation),
{
    ObjectSortKey {
        class: 0,
        graph_hash: 0,
        bucket: RenderBucket::Opaque,
        mesh_row: slot,
        material_row: generation,
    }
}

/// Whether the movable shadow casters or the commands that draw them changed.
pub fn shadow_movable_partition_changed(
    old_sources: &[u32],
    new_sources: &[u32],
    old_draws: &[DrawIndexedIndirectArgs],
    new_draws: &[DrawIndexedIndirectArgs],
) -> (changed: bool)
    ensures
        changed == (old_sources@ != new_sources@ || old_draws@ != new_draws@),
{
    if old_sources.len() != new_sources.len() || old_draws.len() != new_draws.len() {
        return true;
    }
    let mut i: usize = 0;
    while i < old_sources.len()
        invariant
            0 <= i <= old_sources@.len(),
            old_sources@.len() == new_sources@.len(),
            forall|j: int| 0 <= j < i ==> old_sources@[j] == new_sources@[j],
        decreases old_sources@.len() - i,
    {
        if old_sources[i] != new_sources[i] {
            return true;
        }
        i = i + 1;
    }
    assert(old_sources@ =~= new_sources@);
    let mut k: usize = 0;
    while k < old_draws.len()
        invariant
            0 <= k <= old_draws@.len(),
            old_draws@.len() == new_draws@.len(),
            forall|j: int| 0 <= j < k ==> old_draws@[j] == new_draws@[j],
        decreases old_draws@.len() - k,
    {
        if old_draws[k] != new_draws[k] {
            return true;
        }
        k = k + 1;
    }
    assert(old_draws@ =~= new_draws@);
    false
}

} // verus!
