//! What is published of the foliage.
use vstd::prelude::*;

use crate::float_bits::F32;
use crate::foliage::{
    all_relations, densest, lemma_relation_total, lemma_relation_total_take, relation,
    relation_total, tallest, Foliage, FoliageLayerRecord, FoliageTypeRecord,
};
use crate::foliage_edits::without_type;
use crate::handles::FoliageTypeId;
use crate::projected_table::ProjectedTable;

verus! {

proof fn lemma_relation_at(
    types: ProjectedTable<FoliageTypeId, FoliageTypeRecord>,
    layers: Seq<FoliageLayerRecord>,
    i: int,
    k: int,
)
    requires
        0 <= i < layers.len(),
        0 <= k < layers[i].types@.len(),
    ensures
        relation_total(layers.take(i)) + k < all_relations(types, layers).len(),
        all_relations(types, layers)[relation_total(layers.take(i)) + k] == relation(
            types,
            layers[i].types@[k],
        ),
    decreases layers.len(),
{
    let rest = layers.drop_last();
    lemma_relation_total(types, rest);
    if i < rest.len() {
        assert(rest.take(i) =~= layers.take(i));
        assert(rest[i] == layers[i]);
        lemma_relation_at(types, rest, i, k);
    } else {
        assert(layers.take(i) =~= rest);
    }
}

/// Every layer is published with its row and seed and a stretch of relations of its own:
/// these name its types, in order, by their compact place and their row. The stretches
/// follow one another without a gap.
pub proof fn lemma_layer_relations_name_its_types(foliage: Foliage, i: int, k: int)
    requires
        foliage.wf(),
        0 <= i < foliage.layers.records.value_by_slot@.len(),
        0 <= k < foliage.layers.records.value_by_slot@[i].types@.len(),
    ensures
        foliage.layer_projections@.len() == foliage.layers.records.value_by_slot@.len(),
        ({
            let layer = foliage.layers.records.value_by_slot@[i];
            let published = foliage.layer_projections@[i];
            let at = published.relation_offset + k;
            let id = layer.types@[k];
            &&& published.canonical_layer_row == foliage.layers.spec_rows()[i]
            &&& published.seed == layer.seed
            &&& published.relation_count == layer.types@.len()
            &&& i == 0 ==> published.relation_offset == 0
            &&& i > 0 ==> published.relation_offset == foliage.layer_projections@[i
                - 1].relation_offset + foliage.layer_projections@[i - 1].relation_count
            &&& at < foliage.relations@.len()
            &&& foliage.types.spec_ids()[foliage.relations@[at].compact_type_id as int] == id
            &&& foliage.types.spec_rows()[foliage.relations@[at].compact_type_id as int]
                == foliage.relations@[at].canonical_type_row
        }),
{
    let layers = foliage.spec_layers();
    lemma_relation_at(foliage.types, layers, i, k);
    lemma_relation_total_take(layers, i);
    if i > 0 {
        lemma_relation_total_take(layers, i - 1);
        assert(layers.take(i).drop_last() =~= layers.take(i - 1));
        assert(layers.take(i).last() == layers[i - 1]);
    } else {
        assert(layers.take(0).len() == 0);
    }
    let id = layers[i].types@[k];
    assert(foliage.types@.contains_key(id));
    foliage.types.lemma_places_agree(id);
    foliage.types.lemma_dense(foliage.types.place(id));
}

/// The greatest height is that of some type, or zero, and no type of finite height is
/// taller.
pub proof fn lemma_tallest_is_reached_and_not_exceeded(types: Seq<FoliageTypeRecord>, i: int)
    requires
        0 <= i < types.len(),
    ensures
        types[i].row.height_range[1].spec_is_finite() ==> !tallest(types).spec_lt(
            types[i].row.height_range[1],
        ),
        tallest(types).bits == 0 || exists|j: int|
            0 <= j < types.len() && tallest(types) == (#[trigger] types[j]).row.height_range[1],
        tallest(types).spec_is_finite(),
        !tallest(types).spec_lt(F32 { bits: 0 }),
    decreases types.len(),
{
    let rest = types.drop_last();
    let last = types.len() - 1;
    let height = types[last].row.height_range[1];
    let best = tallest(rest);
    let zero = F32 { bits: 0 };
    assert(types.last() == types[last]);
    if rest.len() > 0 {
        let j = if i < last { i } else { 0 };
        lemma_tallest_is_reached_and_not_exceeded(rest, j);
        if best.bits != 0 {
            let w = choose|w: int|
                0 <= w < rest.len() && best == (#[trigger] rest[w]).row.height_range[1];
            assert(types[w] == rest[w]);
        }
        assert(rest[j] == types[j]);
        rest[j].row.height_range[1].lemma_order(best);
        best.lemma_order(rest[j].row.height_range[1]);
        tallest(types).lemma_order(rest[j].row.height_range[1]);
    }
    best.lemma_order(height);
    height.lemma_order(best);
    best.lemma_order(zero);
    height.lemma_order(zero);
    zero.lemma_order(best);
    tallest(types).lemma_order(zero);
    tallest(types).lemma_order(height);
}

/// The greatest density is that of some type, or zero, and no type of positive density is
/// denser.
pub proof fn lemma_densest_is_reached_and_not_exceeded(types: Seq<FoliageTypeRecord>, i: int)
    requires
        0 <= i < types.len(),
    ensures
        types[i].row.density.spec_is_positive() ==> !densest(types).spec_lt(types[i].row.density),
        densest(types).bits == 0 || exists|j: int|
            0 <= j < types.len() && densest(types) == (#[trigger] types[j]).row.density,
        densest(types).spec_is_finite(),
    decreases types.len(),
{
    let rest = types.drop_last();
    let last = types.len() - 1;
    let density = types[last].row.density;
    let best = densest(rest);
    assert(types.last() == types[last]);
    if rest.len() > 0 {
        let j = if i < last { i } else { 0 };
        lemma_densest_is_reached_and_not_exceeded(rest, j);
        if best.bits != 0 {
            let w = choose|w: int|
                0 <= w < rest.len() && best == (#[trigger] rest[w]).row.density;
            assert(types[w] == rest[w]);
        }
        assert(rest[j] == types[j]);
        best.lemma_order(rest[j].row.density);
        densest(types).lemma_order(rest[j].row.density);
    }
    best.lemma_order(density);
    density.lemma_order(best);
    densest(types).lemma_order(density);
}

/// A list without a type holds the others as often as before, and that one not at all.
pub proof fn lemma_forgotten_type_is_gone(
    list: Seq<FoliageTypeId>,
    id: FoliageTypeId,
    other: FoliageTypeId,
)
    ensures
        !without_type(list, id).contains(id),
        other != id ==> (without_type(list, id).contains(other) <==> list.contains(other)),
        without_type(list, id).len() <= list.len(),
        !list.contains(id) ==> without_type(list, id) == list,
    decreases list.len(),
{
    if list.len() > 0 {
        let rest = list.drop_last();
        let short = without_type(rest, id);
        let all = without_type(list, id);
        lemma_forgotten_type_is_gone(rest, id, other);
        assert(rest.push(list.last()) =~= list);
        if all.contains(id) {
            let k = all.index_of(id);
            if k < short.len() {
                assert(short[k] == id);
            }
        }
        if short.contains(other) {
            assert(all[short.index_of(other)] == other);
        }
        if all.contains(other) {
            let k = all.index_of(other);
            if k < short.len() {
                assert(short[k] == other);
            }
        }
        if rest.contains(other) {
            assert(list[rest.index_of(other)] == other);
        }
        if list.contains(other) {
            let k = list.index_of(other);
            if k < rest.len() {
                assert(rest[k] == other);
            } else {
                assert(other != id ==> all.last() == other);
            }
        }
        if rest.contains(id) {
            assert(list[rest.index_of(id)] == id);
        }
        if !list.contains(id) {
            assert(list[list.len() - 1] != id);
        }
    }
}

} // verus!
