//! Foliage layers and interactors as they were authored, for editors.
use vstd::prelude::*;

use crate::float_bits::{from_bits, single, F32, ONE_BITS};
use crate::foliage::FoliageLayerRecord;
use crate::foliage_rows::{
    FoliageInteractor, FoliageLayer, GpuFoliageInteractor, GpuFoliageLayer,
};
use crate::handles::FoliageTypeId;
use crate::scene::Scene;

verus! {

/// 0.5: an extent word above it means that the bounds are not enforced.
pub const EXTENT_THRESHOLD: u32 = 0x3F00_0000;

/// `layer` is what the record was authored from.
pub open spec fn describes(layer: FoliageLayer, record: FoliageLayerRecord) -> bool {
    &&& layer.types@ == record.types@
    &&& layer.seed == record.seed
    &&& extent_of(layer, record.row)
}

/// `layer` has the bounds that the row holds.
pub open spec fn extent_of(layer: FoliageLayer, row: GpuFoliageLayer) -> bool {
    &&& layer.bounds[0]@ == row.bounds_min@.take(3)
    &&& layer.bounds[1]@ == row.bounds_max@.take(3)
    &&& layer.has_infinite_extent == single(EXTENT_THRESHOLD).spec_lt(row.bounds_max[3])
}

/// What an editor is shown of a layer is what it was given.
pub proof fn lemma_layer_reads_back(layer: FoliageLayer)
    ensures
        extent_of(layer, layer.spec_to_gpu()),
{
    let row = layer.spec_to_gpu();
    assert(row.bounds_min@.take(3) =~= layer.bounds[0]@);
    assert(row.bounds_max@.take(3) =~= layer.bounds[1]@);
    let threshold = single(EXTENT_THRESHOLD);
    threshold.lemma_order(single(ONE_BITS));
    threshold.lemma_order(single(0));
}

/// The interactor that a row holds.
pub open spec fn interactor_of(row: GpuFoliageInteractor) -> FoliageInteractor {
    FoliageInteractor {
        position: [row.position_radius[0], row.position_radius[1], row.position_radius[2]],
        radius: row.position_radius[3],
        velocity: [row.velocity[0], row.velocity[1], row.velocity[2]],
    }
}

fn authored_layer(record: &FoliageLayerRecord) -> (layer: FoliageLayer)
    ensures
        describes(layer, *record),
{
    let mut types: Vec<FoliageTypeId> = Vec::new();
    let mut i: usize = 0;
    while i < record.types.len()
        invariant
            0 <= i <= record.types@.len(),
            types@ == record.types@.take(i as int),
        decreases record.types@.len() - i,
    {
        types.push(record.types[i]);
        assert(record.types@.take(i + 1) =~= record.types@.take(i as int).push(
            record.types@[i as int],
        ));
        i = i + 1;
    }
    assert(record.types@.take(i as int) =~= record.types@);
    let row: GpuFoliageLayer = record.row;
    let min: [F32; 3] = [row.bounds_min[0], row.bounds_min[1], row.bounds_min[2]];
    let max: [F32; 3] = [row.bounds_max[0], row.bounds_max[1], row.bounds_max[2]];
    assert(min@ =~= row.bounds_min@.take(3));
    assert(max@ =~= row.bounds_max@.take(3));
    FoliageLayer {
        types,
        bounds: [min, max],
        seed: record.seed,
        has_infinite_extent: from_bits(EXTENT_THRESHOLD).lt(row.bounds_max[3]),
    }
}

fn authored_interactor(row: &GpuFoliageInteractor) -> (interactor: FoliageInteractor)
    ensures
        interactor == interactor_of(*row),
{
    let interactor = FoliageInteractor {
        position: [row.position_radius[0], row.position_radius[1], row.position_radius[2]],
        radius: row.position_radius[3],
        velocity: [row.velocity[0], row.velocity[1], row.velocity[2]],
    };
    assert(interactor.position@ =~= interactor_of(*row).position@);
    assert(interactor.position =~= interactor_of(*row).position);
    assert(interactor.velocity@ =~= interactor_of(*row).velocity@);
    assert(interactor.velocity =~= interactor_of(*row).velocity);
    interactor
}

impl Scene {
    /// The foliage layers, in the order of their rows.
    pub fn foliage_layers_for_debug(&self) -> (list: Vec<FoliageLayer>)
        requires
            self.wf(),
        ensures
            list@.len() == self.foliage.layers.spec_len(),
            forall|i: int|
                0 <= i < list@.len() ==> describes(
                    #[trigger] list@[i],
                    self.foliage.layers@[self.foliage.layers.spec_ids()[i]],
                ),
    {
        let mut list: Vec<FoliageLayer> = Vec::new();
        let mut i: usize = 0;
        while i < self.foliage.layers.records.value_by_slot.len()
            invariant
                self.wf(),
                0 <= i <= self.foliage.layers.spec_len(),
                self.foliage.layers.records.value_by_slot@.len() == self.foliage.layers.spec_len(),
                list@.len() == i,
                forall|j: int|
                    0 <= j < i ==> describes(
                        #[trigger] list@[j],
                        self.foliage.layers@[self.foliage.layers.spec_ids()[j]],
                    ),
            decreases self.foliage.layers.spec_len() - i,
        {
            proof {
                self.foliage.layers.lemma_dense(i as int);
            }
            list.push(authored_layer(&self.foliage.layers.records.value_by_slot[i]));
            i = i + 1;
        }
        list
    }

    /// The foliage interactors, in the order of their rows.
    pub fn foliage_interactors_for_debug(&self) -> (list: Vec<FoliageInteractor>)
        requires
            self.wf(),
        ensures
            list@.len() == self.foliage.interactors.spec_len(),
            forall|i: int|
                0 <= i < list@.len() ==> #[trigger] list@[i] == interactor_of(
                    self.foliage.interactors@[self.foliage.interactors.spec_ids()[i]],
                ),
    {
        let mut list: Vec<FoliageInteractor> = Vec::new();
        let mut i: usize = 0;
        while i < self.foliage.interactors.records.value_by_slot.len()
            invariant
                self.wf(),
                0 <= i <= self.foliage.interactors.spec_len(),
                self.foliage.interactors.records.value_by_slot@.len()
                    == self.foliage.interactors.spec_len(),
                list@.len() == i,
                forall|j: int|
                    0 <= j < i ==> #[trigger] list@[j] == interactor_of(
                        self.foliage.interactors@[self.foliage.interactors.spec_ids()[j]],
                    ),
            decreases self.foliage.interactors.spec_len() - i,
        {
            proof {
                self.foliage.interactors.lemma_dense(i as int);
            }
            list.push(authored_interactor(&self.foliage.interactors.records.value_by_slot[i]));
            i = i + 1;
        }
        list
    }
}

} // verus!
