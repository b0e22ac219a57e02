//! Foliage: types, the layers that place them, and what pushes them aside.
use vstd::prelude::*;

use crate::counting::{lemma_occurrences_push, occurrences};
use crate::errors::{invalid, Result, SceneError};
use crate::float_bits::{from_bits, single, F32};
use crate::foliage_rows::{
    FoliageTypeDescriptor, GpuFoliageInteractor, GpuFoliageLayer, GpuFoliageType,
};
use crate::handles::{
    FoliageInteractorId, FoliageLayerId, FoliageTypeId, Handle, MaterialId,
};
use crate::materials::{lemma_recount_keeps_links, raise_material, recounted};
use crate::projected_table::ProjectedTable;
use crate::references::{
    foliage_materials, lemma_material_uses_bounded, material_uses, materials_linked,
};
use crate::rows::NewRow;
use crate::scene::Scene;

verus! {

/// Types that can be live at once: a blade names its type in eight bits.
pub const MAX_PACKED_FOLIAGE_TYPES: usize = 256;

#[derive(Clone, Copy, Debug)]
pub struct FoliageTypeRecord {
    pub material: MaterialId,
    pub row: GpuFoliageType,
}

#[derive(Debug)]
pub struct FoliageLayerRecord {
    pub row: GpuFoliageLayer,
    pub seed: u32,
    pub types: Vec<FoliageTypeId>,
}

/// Which relations and which row belong to a layer.
#[derive(Clone, Copy, Debug, PartialEq, Eq, Structural)]
pub struct GpuFoliageLayerProjection {
    pub canonical_layer_row: u32,
    pub relation_offset: u32,
    pub relation_count: u32,
    pub seed: u32,
}

/// A type that a layer places.
#[derive(Clone, Copy, Debug, PartialEq, Eq, Structural)]
pub struct GpuFoliageLayerTypeRelation {
    pub compact_type_id: u32,
    pub canonical_type_row: u32,
}

/// The global wind: what is authored and the clock that drives it.
#[derive(Clone, Copy, Debug)]
pub struct Wind {
    pub direction: [F32; 3],
    pub speed: F32,
    pub gusts: [F32; 4],
    pub time: F32,
    pub prev_time: F32,
}

pub struct Foliage {
    pub types: ProjectedTable<FoliageTypeId, FoliageTypeRecord>,
    pub layers: ProjectedTable<FoliageLayerId, FoliageLayerRecord>,
    pub interactors: ProjectedTable<FoliageInteractorId, GpuFoliageInteractor>,
    pub layer_projections: Vec<GpuFoliageLayerProjection>,
    pub relations: Vec<GpuFoliageLayerTypeRelation>,
    /// Advances with every change of types or layers, never with the wind.
    pub generation: u64,
    pub max_height: F32,
    pub max_density: F32,
    pub wind: Wind,
}

/// How a layer names a live type.
pub open spec fn relation(
    types: ProjectedTable<FoliageTypeId, FoliageTypeRecord>,
    id: FoliageTypeId,
) -> GpuFoliageLayerTypeRelation {
    GpuFoliageLayerTypeRelation {
        compact_type_id: types.place(id) as u32,
        canonical_type_row: types.row_of(id),
    }
}

/// The relations of all layers, one layer after the other.
pub open spec fn all_relations(
    types: ProjectedTable<FoliageTypeId, FoliageTypeRecord>,
    layers: Seq<FoliageLayerRecord>,
) -> Seq<GpuFoliageLayerTypeRelation>
    decreases layers.len(),
{
    if layers.len() == 0 {
        Seq::empty()
    } else {
        all_relations(types, layers.drop_last()) + layers.last().types@.map_values(
            |t: FoliageTypeId| relation(types, t),
        )
    }
}

/// Number of relations of all layers.
pub open spec fn relation_total(layers: Seq<FoliageLayerRecord>) -> nat
    decreases layers.len(),
{
    if layers.len() == 0 {
        0
    } else {
        relation_total(layers.drop_last()) + layers.last().types@.len()
    }
}

/// The projection of each layer, in compact order.
pub open spec fn projections(layers: Seq<FoliageLayerRecord>, rows: Seq<u32>) -> Seq<
    GpuFoliageLayerProjection,
> {
    Seq::new(
        layers.len(),
        |i: int|
            GpuFoliageLayerProjection {
                canonical_layer_row: rows[i],
                relation_offset: relation_total(layers.take(i)) as u32,
                relation_count: layers[i].types@.len() as u32,
                seed: layers[i].seed,
            },
    )
}

/// The largest finite upper height of the types, at least zero.
pub open spec fn tallest(types: Seq<FoliageTypeRecord>) -> F32
    decreases types.len(),
{
    if types.len() == 0 {
        single(0)
    } else {
        let rest = tallest(types.drop_last());
        let height = types.last().row.height_range[1];
        if height.spec_is_finite() && rest.spec_lt(height) {
            height
        } else {
            rest
        }
    }
}

/// The largest density of the types, at least zero.
pub open spec fn densest(types: Seq<FoliageTypeRecord>) -> F32
    decreases types.len(),
{
    if types.len() == 0 {
        single(0)
    } else {
        let rest = densest(types.drop_last());
        let density = types.last().row.density;
        if density.spec_is_positive() && rest.spec_lt(density) {
            density
        } else {
            rest
        }
    }
}

/// Every type of the list is live.
pub open spec fn types_live(
    types: ProjectedTable<FoliageTypeId, FoliageTypeRecord>,
    list: Seq<FoliageTypeId>,
) -> bool {
    forall|k: int| 0 <= k < list.len() ==> types@.contains_key(#[trigger] list[k])
}

pub(crate) proof fn lemma_relation_total(
    types: ProjectedTable<FoliageTypeId, FoliageTypeRecord>,
    layers: Seq<FoliageLayerRecord>,
)
    ensures
        all_relations(types, layers).len() == relation_total(layers),
    decreases layers.len(),
{
    if layers.len() > 0 {
        lemma_relation_total(types, layers.drop_last());
    }
}

pub(crate) proof fn lemma_relation_total_take(layers: Seq<FoliageLayerRecord>, i: int)
    requires
        0 <= i < layers.len(),
    ensures
        relation_total(layers.take(i)) + layers[i].types@.len() <= relation_total(layers),
    decreases layers.len(),
{
    if i == layers.len() - 1 {
        assert(layers.take(i) =~= layers.drop_last());
    } else {
        assert(layers.drop_last().take(i) =~= layers.take(i));
        lemma_relation_total_take(layers.drop_last(), i);
    }
}

/// Layers that name live types by unchanged places and rows keep their relations.
pub(crate) proof fn lemma_relations_kept(
    before: ProjectedTable<FoliageTypeId, FoliageTypeRecord>,
    after: ProjectedTable<FoliageTypeId, FoliageTypeRecord>,
    layers: Seq<FoliageLayerRecord>,
)
    requires
        forall|i: int|
            0 <= i < layers.len() ==> types_live(before, (#[trigger] layers[i]).types@),
        forall|t: FoliageTypeId| #[trigger]
            before@.contains_key(t) ==> relation(after, t) == relation(before, t),
    ensures
        all_relations(after, layers) == all_relations(before, layers),
    decreases layers.len(),
{
    if layers.len() > 0 {
        let rest = layers.drop_last();
        assert forall|i: int| 0 <= i < rest.len() implies types_live(
            before,
            (#[trigger] rest[i]).types@,
        ) by {
            assert(rest[i] == layers[i]);
        }
        lemma_relations_kept(before, after, rest);
        let list = layers.last().types@;
        assert(types_live(before, layers[layers.len() - 1].types@));
        assert(list.map_values(|t: FoliageTypeId| relation(after, t)) =~= list.map_values(
            |t: FoliageTypeId| relation(before, t),
        )) by {
            assert forall|k: int| 0 <= k < list.len() implies relation(after, list[k]) == relation(
                before,
                list[k],
            ) by {
                assert(before@.contains_key(list[k]));
            }
        }
    }
}

impl Foliage {
    pub open spec fn spec_types(&self) -> Seq<FoliageTypeRecord> {
        self.types.records.value_by_slot@
    }

    pub open spec fn spec_layers(&self) -> Seq<FoliageLayerRecord> {
        self.layers.records.value_by_slot@
    }

    /// The tables are in order and layers place live types.
    pub open spec fn authored_wf(&self) -> bool {
        &&& self.types.wf()
        &&& self.layers.wf()
        &&& self.interactors.wf()
        &&& self.types.spec_len() <= MAX_PACKED_FOLIAGE_TYPES
        &&& relation_total(self.spec_layers()) <= u32::MAX
        &&& forall|i: int|
            0 <= i < self.spec_layers().len() ==> types_live(
                self.types,
                (#[trigger] self.spec_layers()[i]).types@,
            )
    }

    /// The projections show the layers as they are.
    pub open spec fn projected(&self) -> bool {
        &&& self.relations@ == all_relations(self.types, self.spec_layers())
        &&& self.layer_projections@ == projections(self.spec_layers(), self.layers.spec_rows())
    }

    pub open spec fn wf(&self) -> bool {
        &&& self.authored_wf()
        &&& self.projected()
        &&& self.max_height == tallest(self.spec_types())
        &&& self.max_density == densest(self.spec_types())
    }

    /// Derives the largest height and density anew.
    pub(crate) fn recompute_stats(&mut self)
        ensures
            *final(self) == (Foliage {
                max_height: tallest(old(self).spec_types()),
                max_density: densest(old(self).spec_types()),
                ..*old(self)
            }),
    {
        let ghost values = self.spec_types();
        let mut height: F32 = from_bits(0);
        let mut density: F32 = from_bits(0);
        let mut i: usize = 0;
        while i < self.types.records.value_by_slot.len()
            invariant
                0 <= i <= values.len(),
                *self == *old(self),
                values == self.spec_types(),
                height == tallest(values.take(i as int)),
                density == densest(values.take(i as int)),
            decreases values.len() - i,
        {
            assert(values.take(i + 1).drop_last() =~= values.take(i as int));
            let row: GpuFoliageType = self.types.records.value_by_slot[i].row;
            if row.height_range[1].is_finite() && height.lt(row.height_range[1]) {
                height = row.height_range[1];
            }
            if row.density.is_positive() && density.lt(row.density) {
                density = row.density;
            }
            i = i + 1;
        }
        assert(values.take(i as int) =~= values);
        self.max_height = height;
        self.max_density = density;
    }

    /// Derives the layers' relations anew.
    pub(crate) fn rebuild_layer_projections(&mut self)
        requires
            old(self).authored_wf(),
        ensures
            final(self).authored_wf(),
            final(self).projected(),
            *final(self) == (Foliage {
                relations: final(self).relations,
                layer_projections: final(self).layer_projections,
                ..*old(self)
            }),
    {
        let ghost layers = self.spec_layers();
        let mut relations: Vec<GpuFoliageLayerTypeRelation> = Vec::new();
        let mut list: Vec<GpuFoliageLayerProjection> = Vec::new();
        let mut i: usize = 0;
        while i < self.layers.records.value_by_slot.len()
            invariant
                0 <= i <= layers.len(),
                *self == *old(self),
                self.authored_wf(),
                layers == self.spec_layers(),
                relations@ == all_relations(self.types, layers.take(i as int)),
                list@ =~= projections(layers, self.layers.spec_rows()).take(i as int),
            decreases layers.len() - i,
        {
            let ghost types = layers[i as int].types@;
            proof {
                lemma_relation_total(self.types, layers.take(i as int));
                lemma_relation_total_take(layers, i as int);
                assert(layers.take(i + 1).drop_last() =~= layers.take(i as int));
                assert(types_live(self.types, layers[i as int].types@));
            }
            let offset: u32 = relations.len() as u32;
            let ghost prior = relations@;
            let count: usize = self.layers.records.value_by_slot[i].types.len();
            let mut k: usize = 0;
            while k < count
                invariant
                    0 <= k <= count == types.len(),
                    i < layers.len(),
                    *self == *old(self),
                    self.authored_wf(),
                    layers == self.spec_layers(),
                    types == layers[i as int].types@,
                    types_live(self.types, types),
                    relations@ =~= prior + types.take(k as int).map_values(
                        |t: FoliageTypeId| relation(self.types, t),
                    ),
                decreases count - k,
            {
                let id: FoliageTypeId = self.layers.records.value_by_slot[i].types[k];
                proof {
                    assert(self.types@.contains_key(types[k as int]));
                    self.types.lemma_places_agree(id);
                }
                match self.types.records.slot(id) {
                    Some(place) => {
                        relations.push(
                            GpuFoliageLayerTypeRelation {
                                compact_type_id: place as u32,
                                canonical_type_row: self.types.projection.rows.value_by_slot[place],
                            },
                        );
                    },
                    None => {
                        assert(false);
                    },
                }
                k = k + 1;
            }
            assert(types.take(k as int) =~= types);
            list.push(
                GpuFoliageLayerProjection {
                    canonical_layer_row: self.layers.projection.rows.value_by_slot[i],
                    relation_offset: offset,
                    relation_count: count as u32,
                    seed: self.layers.records.value_by_slot[i].seed,
                },
            );
            i = i + 1;
        }
        proof {
            assert(layers.take(i as int) =~= layers);
            assert(list@ =~= projections(layers, self.layers.spec_rows()));
        }
        self.relations = relations;
        self.layer_projections = list;
    }

    pub(crate) fn bump(&mut self)
        ensures
            *final(self) == (Foliage {
                generation: old(self).generation.wrapping_add(1),
                ..*old(self)
            }),
    {
        self.generation = self.generation.wrapping_add(1);
    }

    /// Whether every type of the list is live.
    pub(crate) fn are_live(&self, list: &Vec<FoliageTypeId>) -> (live: bool)
        requires
            self.types.wf(),
        ensures
            live == types_live(self.types, list@),
    {
        let mut k: usize = 0;
        while k < list.len()
            invariant
                0 <= k <= list@.len(),
                self.types.wf(),
                forall|j: int| 0 <= j < k ==> self.types@.contains_key(#[trigger] list@[j]),
            decreases list@.len() - k,
        {
            if !self.types.is_live(list[k]) {
                assert(!self.types@.contains_key(list@[k as int]));
                return false;
            }
            k = k + 1;
        }
        true
    }
}

/// A foliage type is inserted at the end: the others keep their places and rows.
proof fn lemma_insert_keeps_relations(
    before: ProjectedTable<FoliageTypeId, FoliageTypeRecord>,
    after: ProjectedTable<FoliageTypeId, FoliageTypeRecord>,
    id: FoliageTypeId,
    gpu_row: u32,
    record: FoliageTypeRecord,
)
    requires
        before.wf(),
        after.wf(),
        !before.occupies(id.0.index),
        before.inserted(&after, id, gpu_row, record),
    ensures
        forall|t: FoliageTypeId| #[trigger]
            before@.contains_key(t) ==> relation(after, t) == relation(before, t),
{
    assert forall|t: FoliageTypeId| #[trigger] before@.contains_key(t) implies relation(after, t)
        == relation(before, t) by {
        before.lemma_places_agree(t);
        let p = before.place(t);
        assert(after.spec_ids()[p] == t);
        after.lemma_dense(p);
    }
}

impl Scene {
    /// `after` is `self` with the type added and its material used once more.
    pub open spec fn foliage_type_added(
        &self,
        after: &Scene,
        new: NewRow,
        desc: FoliageTypeDescriptor,
        cosines: [F32; 2],
    ) -> bool {
        let id = FoliageTypeId(new.entity);
        let before = self.foliage;
        let now = after.foliage;
        &&& *after == (Scene { foliage: now, materials: after.materials, ..*self })
        &&& exists|row: GpuFoliageType| #[trigger]
            desc.describes(row, self.materials@[desc.material_id].gpu_row, cosines)
                && before.types.inserted(
                &now.types,
                id,
                new.gpu_row,
                FoliageTypeRecord { material: desc.material_id, row },
            )
        &&& now == (Foliage {
            types: now.types,
            generation: before.generation.wrapping_add(1),
            max_height: now.max_height,
            max_density: now.max_density,
            ..before
        })
        &&& recounted(
            self.materials,
            after.materials,
            desc.material_id,
            (self.materials@[desc.material_id].ref_count + 1) as u32,
        )
    }

    /// Adds a foliage type. There is room for as many as eight bits can tell apart,
    /// and its material must be live.
    pub fn add_foliage_type(&mut self, new: NewRow, desc: FoliageTypeDescriptor, cosines: [F32; 2]) -> (result:
        Result<FoliageTypeId>)
        requires
            old(self).wf(),
            !old(self).foliage.types.occupies(new.entity.index),
            new.entity.index < usize::MAX,
            old(self).material_user_count() < u32::MAX - 1,
        ensures
            final(self).wf(),
            result == if old(self).foliage.types.spec_len() >= MAX_PACKED_FOLIAGE_TYPES {
                Err::<FoliageTypeId, _>(
                    SceneError::InvalidHandle {
                        resource: "foliage type capacity (8-bit blade identity)",
                    },
                )
            } else if !old(self).materials@.contains_key(desc.material_id) {
                Err(SceneError::InvalidHandle { resource: "material" })
            } else {
                Ok(FoliageTypeId(new.entity))
            },
            if result is Ok {
                old(self).foliage_type_added(final(self), new, desc, cosines)
            } else {
                *final(self) == *old(self)
            },
    {
        if self.foliage.types.len() >= MAX_PACKED_FOLIAGE_TYPES {
            return Err(invalid("foliage type capacity (8-bit blade identity)"));
        }
        let material_row: u32 = match self.materials.get(desc.material_id) {
            Some(material) => material.gpu_row,
            None => {
                return Err(invalid("material"));
            },
        };
        let ghost before = *self;
        let ghost values = self.foliage.spec_types();
        proof {
            lemma_material_uses_bounded(
                self.objects.spec_values(),
                self.virtual_geometry.spec_values(),
                values,
                desc.material_id,
            );
        }
        raise_material(&mut self.materials, desc.material_id);
        let row: GpuFoliageType = desc.to_gpu(material_row, cosines);
        let record = FoliageTypeRecord { material: desc.material_id, row };
        let id = FoliageTypeId(new.entity);
        self.foliage.types.insert(id, new.gpu_row, record);
        proof {
            let after = self.foliage.spec_types();
            lemma_table_push(before.foliage.types, self.foliage.types, id, new.gpu_row, record);
            assert(after == values.push(record));
            assert(foliage_materials(after) =~= foliage_materials(values).push(record.material));
            assert forall|m: MaterialId| #[trigger]
                occurrences(foliage_materials(after), m) == occurrences(
                    foliage_materials(values),
                    m,
                ) + (if m == desc.material_id {
                1int
            } else {
                0
            }) by {
                lemma_occurrences_push(foliage_materials(values), record.material, m);
            }
            before.lemma_foliage_links(*self, desc.material_id, 1);
            lemma_recount_keeps_links(
                before.materials,
                self.materials,
                desc.material_id,
                (before.materials@[desc.material_id].ref_count + 1) as u32,
                self.textures,
                self.material_flags@,
            );
            lemma_insert_keeps_relations(
                before.foliage.types,
                self.foliage.types,
                id,
                new.gpu_row,
                record,
            );
            lemma_relations_kept(
                before.foliage.types,
                self.foliage.types,
                before.foliage.spec_layers(),
            );
            assert forall|i: int| 0 <= i < self.foliage.spec_layers().len() implies types_live(
                self.foliage.types,
                (#[trigger] self.foliage.spec_layers()[i]).types@,
            ) by {
                assert(types_live(before.foliage.types, before.foliage.spec_layers()[i].types@));
            }
        }
        self.foliage.recompute_stats();
        self.foliage.bump();
        assert(desc.describes(row, before.materials@[desc.material_id].gpu_row, cosines));
        Ok(id)
    }

    /// Counts that follow the uses keep materials and their users linked.
    pub(crate) proof fn lemma_foliage_links(self, after: Scene, material: MaterialId, step: int)
        requires
            self.wf(),
            after.objects == self.objects,
            after.virtual_geometry == self.virtual_geometry,
            self.materials@.contains_key(material),
            0 <= self.materials@[material].ref_count + step <= u32::MAX,
            recounted(
                self.materials,
                after.materials,
                material,
                (self.materials@[material].ref_count + step) as u32,
            ),
            forall|m: MaterialId| #[trigger]
                occurrences(foliage_materials(after.foliage.spec_types()), m) == occurrences(
                    foliage_materials(self.foliage.spec_types()),
                    m,
                ) + (if m == material {
                    step
                } else {
                    0
                }),
        ensures
            materials_linked(
                after.materials@,
                after.objects.spec_values(),
                after.virtual_geometry.spec_values(),
                after.foliage.spec_types(),
            ),
    {
        let now = after.foliage.spec_types();
        let before = self.foliage.spec_types();
        assert forall|m: MaterialId| #[trigger] after.materials@.contains_key(m) implies
            after.materials@[m].ref_count == material_uses(
            after.objects.spec_values(),
            after.virtual_geometry.spec_values(),
            now,
            m,
        ) by {
            assert(self.materials@.contains_key(m));
            assert(occurrences(foliage_materials(now), m) == occurrences(
                foliage_materials(before),
                m,
            ) + (if m == material {
                step
            } else {
                0
            }));
        }
        assert forall|m: MaterialId| #[trigger]
            material_uses(
                after.objects.spec_values(),
                after.virtual_geometry.spec_values(),
                now,
                m,
            ) > 0 implies after.materials@.contains_key(m) by {
            if m != material {
                assert(occurrences(foliage_materials(now), m) == occurrences(
                    foliage_materials(before),
                    m,
                ));
                assert(material_uses(
                    self.objects.spec_values(),
                    self.virtual_geometry.spec_values(),
                    before,
                    m,
                ) > 0);
            }
        }
    }

    pub fn foliage_type_count(&self) -> (count: u32)
        requires
            self.wf(),
        ensures
            count == self.foliage.types.spec_len(),
    {
        self.foliage.types.len() as u32
    }

    pub fn foliage_layer_count(&self) -> (count: u32)
        requires
            self.wf(),
        ensures
            count == self.foliage.layers.spec_len(),
    {
        self.foliage.layers.len() as u32
    }

    pub fn foliage_interactor_count(&self) -> (count: u32)
        requires
            self.wf(),
        ensures
            count == self.foliage.interactors.spec_len(),
    {
        self.foliage.interactors.len() as u32
    }
}

/// The values of a table after an insertion.
pub(crate) proof fn lemma_table_push<H: Handle, R>(
    before: ProjectedTable<H, R>,
    after: ProjectedTable<H, R>,
    id: H,
    gpu_row: u32,
    record: R,
)
    requires
        before.wf(),
        after.wf(),
        before.inserted(&after, id, gpu_row, record),
        !before.occupies(id.spec_entity().index),
    ensures
        after.records.value_by_slot@ == before.records.value_by_slot@.push(record),
{
    let a = before.records.value_by_slot@;
    let b = after.records.value_by_slot@;
    assert forall|i: int| 0 <= i < b.len() implies b[i] == a.push(record)[i] by {
        after.lemma_dense(i);
        if i < a.len() {
            before.lemma_dense(i);
            assert(after.spec_ids()[i] == before.spec_ids()[i]);
            assert(before.spec_ids()[i] != id) by {
                if before.spec_ids()[i] == id {
                    before.records.lemma_dense(i);
                }
            }
        }
    }
    assert(b =~= a.push(record));
}

} // verus!
