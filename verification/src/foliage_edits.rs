//! Changes of foliage types, layers, interactors and wind.
use vstd::prelude::*;

use crate::counting::{
    lemma_occurrences_swap_removed, lemma_occurrences_update, occurrences,
};
use crate::errors::{invalid, Result, SceneError};
use crate::float_bits::F32;
use crate::foliage::{
    lemma_relation_total_take, relation, relation_total, types_live, Foliage, FoliageLayerRecord,
    FoliageTypeRecord, Wind,
};
use crate::foliage_rows::{
    FoliageInteractor, FoliageLayer, FoliageTypeDescriptor, GpuFoliageInteractor, GpuFoliageLayer,
    GpuFoliageType,
};
use crate::handles::{
    FoliageInteractorId, FoliageLayerId, FoliageTypeId, Handle, MaterialId, TextureId,
};
use crate::materials::{lemma_recount_keeps_links, lower_material, raise_material, MaterialRecord};
use crate::projected_table::ProjectedTable;
use crate::references::{
    foliage_materials, lemma_foliage_material_live, lemma_material_uses_bounded,
};
use crate::rows::NewRow;
use crate::scene::Scene;
use crate::sparse_set::swap_removed;

verus! {

/// The list without `id`.
pub open spec fn without_type(list: Seq<FoliageTypeId>, id: FoliageTypeId) -> Seq<FoliageTypeId>
    decreases list.len(),
{
    if list.len() == 0 {
        list
    } else {
        let rest = without_type(list.drop_last(), id);
        if list.last() == id {
            rest
        } else {
            rest.push(list.last())
        }
    }
}

proof fn lemma_without_type(list: Seq<FoliageTypeId>, id: FoliageTypeId)
    ensures
        without_type(list, id).len() <= list.len(),
        forall|k: int|
            0 <= k < without_type(list, id).len() ==> #[trigger] without_type(list, id)[k] != id
                && list.contains(without_type(list, id)[k]),
    decreases list.len(),
{
    if list.len() > 0 {
        let rest = list.drop_last();
        lemma_without_type(rest, id);
        assert forall|k: int| 0 <= k < without_type(list, id).len() implies
            #[trigger] without_type(list, id)[k] != id && list.contains(
            without_type(list, id)[k],
        ) by {
            let x = without_type(list, id)[k];
            if k < without_type(rest, id).len() {
                assert(without_type(rest, id)[k] == x);
                let j = rest.index_of(x);
                assert(list[j] == x);
            } else {
                assert(list[list.len() - 1] == x);
            }
        }
    }
}

fn filter_type(list: &Vec<FoliageTypeId>, id: FoliageTypeId) -> (kept: Vec<FoliageTypeId>)
    ensures
        kept@ == without_type(list@, id),
{
    let mut kept: Vec<FoliageTypeId> = Vec::new();
    let mut k: usize = 0;
    while k < list.len()
        invariant
            0 <= k <= list@.len(),
            kept@ == without_type(list@.take(k as int), id),
        decreases list@.len() - k,
    {
        assert(list@.take(k + 1).drop_last() =~= list@.take(k as int));
        if list[k].0 != id.0 {
            kept.push(list[k]);
        }
        k = k + 1;
    }
    assert(list@.take(k as int) =~= list@);
    kept
}

fn same_types(a: &Vec<FoliageTypeId>, b: &Vec<FoliageTypeId>) -> (same: bool)
    ensures
        same == (a@ == b@),
{
    if a.len() != b.len() {
        return false;
    }
    let mut i: usize = 0;
    while i < a.len()
        invariant
            a@.len() == b@.len(),
            0 <= i <= a@.len(),
            forall|j: int| 0 <= j < i ==> a@[j] == b@[j],
        decreases a@.len() - i,
    {
        if a[i].0 != b[i].0 {
            assert(a@[i as int] != b@[i as int]);
            return false;
        }
        i = i + 1;
    }
    assert(a@ =~= b@);
    true
}

/// `after` holds the layers of `before`, without `id` among their types.
pub open spec fn type_forgotten(
    before: ProjectedTable<FoliageLayerId, FoliageLayerRecord>,
    after: ProjectedTable<FoliageLayerId, FoliageLayerRecord>,
    id: FoliageTypeId,
) -> bool {
    &&& after.spec_ids() == before.spec_ids()
    &&& after.projection == before.projection
    &&& after@.dom() == before@.dom()
    &&& forall|l: FoliageLayerId| #[trigger]
        after@.contains_key(l) ==> after@[l].row == before@[l].row && after@[l].seed
            == before@[l].seed && after@[l].types@ == without_type(before@[l].types@, id)
}

proof fn lemma_totals_shrink(before: Seq<FoliageLayerRecord>, after: Seq<FoliageLayerRecord>)
    requires
        before.len() == after.len(),
        forall|i: int|
            0 <= i < before.len() ==> (#[trigger] after[i]).types@.len()
                <= before[i].types@.len(),
    ensures
        relation_total(after) <= relation_total(before),
    decreases before.len(),
{
    if before.len() > 0 {
        let a = after.drop_last();
        let b = before.drop_last();
        assert forall|i: int| 0 <= i < b.len() implies (#[trigger] a[i]).types@.len()
            <= b[i].types@.len() by {
            assert(a[i] == after[i]);
        }
        lemma_totals_shrink(b, a);
        assert(after[after.len() - 1].types@.len() <= before[before.len() - 1].types@.len());
    }
}

proof fn lemma_total_push(layers: Seq<FoliageLayerRecord>, record: FoliageLayerRecord)
    ensures
        relation_total(layers.push(record)) == relation_total(layers) + record.types@.len(),
{
    assert(layers.push(record).drop_last() =~= layers);
}

proof fn lemma_total_update(layers: Seq<FoliageLayerRecord>, i: int, record: FoliageLayerRecord)
    requires
        0 <= i < layers.len(),
    ensures
        relation_total(layers.update(i, record)) == relation_total(layers) - layers[i].types@.len()
            + record.types@.len(),
    decreases layers.len(),
{
    let after = layers.update(i, record);
    if i == layers.len() - 1 {
        assert(after.drop_last() =~= layers.drop_last());
    } else {
        assert(after.drop_last() =~= layers.drop_last().update(i, record));
        lemma_total_update(layers.drop_last(), i, record);
    }
}

impl Foliage {
    /// Takes a type out of every layer's list.
    fn forget_type(&mut self, id: FoliageTypeId)
        requires
            old(self).layers.wf(),
        ensures
            final(self).layers.wf(),
            *final(self) == (Foliage { layers: final(self).layers, ..*old(self) }),
            type_forgotten(old(self).layers, final(self).layers, id),
            final(self).spec_layers().len() == old(self).spec_layers().len(),
            forall|i: int|
                0 <= i < final(self).spec_layers().len() ==> (
                #[trigger] final(self).spec_layers()[i]).types@ == without_type(
                    old(self).spec_layers()[i].types@,
                    id,
                ),
    {
        let ghost before = *self;
        let mut i: usize = 0;
        while i < self.layers.records.id_by_slot.len()
            invariant
                0 <= i <= self.layers.records.id_by_slot@.len(),
                before.layers.wf(),
                self.layers.wf(),
                *self == (Foliage { layers: self.layers, ..before }),
                self.layers.spec_ids() == before.layers.spec_ids(),
                self.layers.projection == before.layers.projection,
                self.spec_layers().len() == before.spec_layers().len(),
                forall|j: int|
                    0 <= j < i ==> {
                        &&& (#[trigger] self.spec_layers()[j]).row == before.spec_layers()[j].row
                        &&& self.spec_layers()[j].seed == before.spec_layers()[j].seed
                        &&& self.spec_layers()[j].types@ == without_type(
                            before.spec_layers()[j].types@,
                            id,
                        )
                    },
                forall|j: int|
                    i <= j < self.spec_layers().len() ==> #[trigger] self.spec_layers()[j]
                        == before.spec_layers()[j],
            decreases self.layers.records.id_by_slot@.len() - i,
        {
            let layer: FoliageLayerId = self.layers.records.id_by_slot[i];
            proof {
                self.layers.lemma_dense(i as int);
                assert(self.spec_layers()[i as int] == before.spec_layers()[i as int]);
            }
            let types: Vec<FoliageTypeId> = filter_type(
                &self.layers.records.value_by_slot[i].types,
                id,
            );
            let record = FoliageLayerRecord {
                row: self.layers.records.value_by_slot[i].row,
                seed: self.layers.records.value_by_slot[i].seed,
                types,
            };
            self.layers.records.set(layer, record);
            i = i + 1;
        }
        proof {
            assert forall|l: FoliageLayerId| #[trigger]
                self.layers@.contains_key(l) <==> before.layers@.contains_key(l) by {
                self.layers.records.lemma_contains(l);
                before.layers.records.lemma_contains(l);
            }
            assert(self.layers@.dom() =~= before.layers@.dom());
            assert forall|l: FoliageLayerId| #[trigger] self.layers@.contains_key(l) implies
                self.layers@[l].row == before.layers@[l].row && self.layers@[l].seed
                == before.layers@[l].seed && self.layers@[l].types@ == without_type(
                before.layers@[l].types@,
                id,
            ) by {
                self.layers.records.lemma_contains(l);
                let p = self.layers.place(l);
                before.layers.lemma_dense(p);
                assert(self.spec_layers()[p].types@ == without_type(
                    before.spec_layers()[p].types@,
                    id,
                ));
            }
        }
    }
}

impl Scene {
    /// Uses of a type's material move from `prior` to `next`: the next one counts
    /// one more, and the prior one is released.
    pub open spec fn material_swapped(&self, after: &Scene, prior: MaterialId, next: MaterialId) -> bool {
        let raised = MaterialRecord {
            ref_count: (self.materials@[next].ref_count + 1) as u32,
            ..self.materials@[next]
        };
        let record = self.materials@[prior];
        if record.ref_count == 1 {
            &&& after.materials@ == self.materials@.insert(next, raised).remove(prior)
            &&& after.material_flags@ == self.material_flags@.update(record.gpu_row as int, 0)
            &&& forall|t: TextureId|
                #[trigger] after.textures@.contains_key(t) <==> self.textures@.contains_key(t) && !(
                record.textures@.contains(Some(t)) && self.textures@[t].ref_count == occurrences(
                    record.textures@,
                    Some(t),
                ))
            &&& forall|t: TextureId| #[trigger]
                after.textures@.contains_key(t) ==> after.textures@[t].asset_key
                    == self.textures@[t].asset_key && after.textures@[t].ref_count
                    == self.textures@[t].ref_count - occurrences(record.textures@, Some(t))
        } else {
            &&& after.materials@ == self.materials@.insert(next, raised).insert(
                prior,
                MaterialRecord { ref_count: (record.ref_count - 1) as u32, ..record },
            )
            &&& after.material_flags == self.material_flags
            &&& after.textures == self.textures
        }
    }

    /// `after` is `self` with another foliage type under `id`.
    pub open spec fn type_updated(
        &self,
        after: &Scene,
        id: FoliageTypeId,
        desc: FoliageTypeDescriptor,
        cosines: [F32; 2],
        result: Result<()>,
    ) -> bool {
        &&& result == if !self.foliage.types@.contains_key(id) {
            Err::<(), _>(SceneError::InvalidHandle { resource: "foliage type" })
        } else if !self.materials@.contains_key(desc.material_id) {
            Err(SceneError::InvalidHandle { resource: "material" })
        } else {
            Ok(())
        }
        &&& result is Err ==> *after == *self
        &&& result is Ok ==> exists|row: GpuFoliageType| #[trigger]
            desc.describes(row, self.materials@[desc.material_id].gpu_row, cosines)
                && self.foliage_type_updated(after, id, desc.material_id, row)
    }

    /// Replaces a foliage type. Nothing changes if the row and the material are the
    /// same; a prior material that nothing uses any more is removed.
    #[verifier::spinoff_prover]
    #[verifier::rlimit(40)]
    pub fn update_foliage_type(
        &mut self,
        id: FoliageTypeId,
        desc: FoliageTypeDescriptor,
        cosines: [F32; 2],
    ) -> (result: Result<()>)
        requires
            old(self).wf(),
        ensures
            final(self).wf(),
            old(self).type_updated(final(self), id, desc, cosines, result),
    {
        let prior: FoliageTypeRecord = match self.foliage.types.get(id) {
            Some(record) => *record,
            None => {
                return Err(invalid("foliage type"));
            },
        };
        let material_row: u32 = match self.materials.get(desc.material_id) {
            Some(material) => material.gpu_row,
            None => {
                return Err(invalid("material"));
            },
        };
        let row: GpuFoliageType = desc.to_gpu(material_row, cosines);
        assert(desc.describes(row, self.materials@[desc.material_id].gpu_row, cosines));
        if prior.material.0 == desc.material_id.0 && prior.row.same(&row) {
            return Ok(());
        }
        let ghost before = *self;
        let ghost values = self.foliage.spec_types();
        let ghost p = self.foliage.types.place(id);
        proof {
            self.foliage.types.lemma_places_agree(id);
            self.foliage.types.lemma_dense(p);
            assert(values[p] == prior);
            lemma_material_uses_bounded(
                self.objects.spec_values(),
                self.virtual_geometry.spec_values(),
                values,
                desc.material_id,
            );
            lemma_foliage_material_live(
                self.materials@,
                self.objects.spec_values(),
                self.virtual_geometry.spec_values(),
                values,
                p,
            );
        }
        let next = FoliageTypeRecord { material: desc.material_id, row };
        let swapped: bool = prior.material.0 != desc.material_id.0;
        if swapped {
            raise_material(&mut self.materials, desc.material_id);
        }
        let ghost raised = *self;
        if swapped {
            lower_material(&mut self.materials, prior.material);
        }
        self.foliage.types.set(id, next);
        self.foliage.recompute_stats();
        self.foliage.bump();
        let ghost between = *self;
        proof {
            let after = self.foliage.spec_types();
            lemma_table_update(before.foliage.types, self.foliage.types, id, next);
            assert(after == values.update(p, next));
            before.lemma_type_replaced(*self, id, p, next);
            if swapped {
                lemma_recount_keeps_links(
                    before.materials,
                    raised.materials,
                    desc.material_id,
                    (before.materials@[desc.material_id].ref_count + 1) as u32,
                    self.textures,
                    self.material_flags@,
                );
                lemma_recount_keeps_links(
                    raised.materials,
                    self.materials,
                    prior.material,
                    (raised.materials@[prior.material].ref_count - 1) as u32,
                    self.textures,
                    self.material_flags@,
                );
            }
            before.lemma_swapped_links(*self, p, next);
        }
        if swapped {
            self.drop_unused_material(prior.material);
            proof {
                raised.lemma_released(between, *self, prior.material);
            }
        }
        Ok(())
    }

    /// `after` is `self` with another record for a live foliage type, or `self` if
    /// the record is the same.
    pub open spec fn foliage_type_updated(
        &self,
        after: &Scene,
        id: FoliageTypeId,
        material: MaterialId,
        row: GpuFoliageType,
    ) -> bool {
        let before = self.foliage;
        let now = after.foliage;
        let prior = before.types@[id];
        if prior.material == material && prior.row == row {
            *after == *self
        } else {
            &&& *after == (Scene {
                foliage: now,
                materials: after.materials,
                material_flags: after.material_flags,
                textures: after.textures,
                ..*self
            })
            &&& before.types.replaced(&now.types, id, FoliageTypeRecord { material, row })
            &&& now == (Foliage {
                types: now.types,
                generation: before.generation.wrapping_add(1),
                max_height: now.max_height,
                max_density: now.max_density,
                ..before
            })
            &&& if prior.material == material {
                after.materials == self.materials && after.material_flags == self.material_flags
                    && after.textures == self.textures
            } else {
                self.material_swapped(after, prior.material, material)
            }
        }
    }

    proof fn lemma_type_replaced(self, after: Scene, id: FoliageTypeId, p: int, next: FoliageTypeRecord)
        requires
            self.wf(),
            self.foliage.types@.contains_key(id),
            self.foliage.types.replaced(&after.foliage.types, id, next),
            after.foliage.types.wf(),
            after.foliage.layers == self.foliage.layers,
            after.foliage.interactors == self.foliage.interactors,
            after.foliage.relations == self.foliage.relations,
            after.foliage.layer_projections == self.foliage.layer_projections,
        ensures
            after.foliage.authored_wf(),
            after.foliage.projected(),
    {
        assert forall|t: FoliageTypeId| #[trigger]
            self.foliage.types@.contains_key(t) implies relation(after.foliage.types, t)
            == relation(self.foliage.types, t) by {}
        crate::foliage::lemma_relations_kept(
            self.foliage.types,
            after.foliage.types,
            self.foliage.spec_layers(),
        );
        assert forall|i: int| 0 <= i < after.foliage.spec_layers().len() implies types_live(
            after.foliage.types,
            (#[trigger] after.foliage.spec_layers()[i]).types@,
        ) by {
            assert(types_live(self.foliage.types, self.foliage.spec_layers()[i].types@));
        }
    }

    proof fn lemma_swapped_links(self, after: Scene, p: int, next: FoliageTypeRecord)
        requires
            self.wf(),
            0 <= p < self.foliage.spec_types().len(),
            after.objects == self.objects,
            after.virtual_geometry == self.virtual_geometry,
            after.foliage.spec_types() == self.foliage.spec_types().update(p, next),
            self.materials@.contains_key(next.material),
            self.materials@.contains_key(self.foliage.spec_types()[p].material),
            self.materials@[next.material].ref_count < u32::MAX,
            self.materials@[self.foliage.spec_types()[p].material].ref_count > 0,
            after.materials@ == if next.material == self.foliage.spec_types()[p].material {
                self.materials@
            } else {
                self.materials@.insert(
                    next.material,
                    MaterialRecord {
                        ref_count: (self.materials@[next.material].ref_count + 1) as u32,
                        ..self.materials@[next.material]
                    },
                ).insert(
                    self.foliage.spec_types()[p].material,
                    MaterialRecord {
                        ref_count: (self.materials@[self.foliage.spec_types()[p].material].ref_count
                            - 1) as u32,
                        ..self.materials@[self.foliage.spec_types()[p].material]
                    },
                )
            },
        ensures
            crate::references::materials_linked(
                after.materials@,
                after.objects.spec_values(),
                after.virtual_geometry.spec_values(),
                after.foliage.spec_types(),
            ),
    {
        let values = self.foliage.spec_types();
        let now = after.foliage.spec_types();
        assert(foliage_materials(now) =~= foliage_materials(values).update(p, next.material));
        assert forall|m: MaterialId| #[trigger] after.materials@.contains_key(m) implies
            after.materials@[m].ref_count == crate::references::material_uses(
            after.objects.spec_values(),
            after.virtual_geometry.spec_values(),
            now,
            m,
        ) by {
            assert(self.materials@.contains_key(m));
            lemma_occurrences_update(foliage_materials(values), p, next.material, m);
        }
        assert forall|m: MaterialId| #[trigger]
            crate::references::material_uses(
                after.objects.spec_values(),
                after.virtual_geometry.spec_values(),
                now,
                m,
            ) > 0 implies after.materials@.contains_key(m) by {
            lemma_occurrences_update(foliage_materials(values), p, next.material, m);
            if m != next.material {
                assert(crate::references::material_uses(
                    self.objects.spec_values(),
                    self.virtual_geometry.spec_values(),
                    values,
                    m,
                ) > 0);
            }
        }
    }

    /// Removes a foliage type and takes it out of every layer. Its material goes
    /// with it if nothing else uses that.
    #[verifier::spinoff_prover]
    #[verifier::rlimit(40)]
    pub fn remove_foliage_type(&mut self, id: FoliageTypeId) -> (result: Result<()>)
        requires
            old(self).wf(),
        ensures
            final(self).wf(),
            result == if old(self).foliage.types@.contains_key(id) {
                Ok::<(), SceneError>(())
            } else {
                Err(SceneError::InvalidHandle { resource: "foliage type" })
            },
            if result is Ok {
                old(self).foliage_type_removed(final(self), id)
            } else {
                *final(self) == *old(self)
            },
    {
        let record: FoliageTypeRecord = match self.foliage.types.get(id) {
            Some(record) => *record,
            None => {
                return Err(invalid("foliage type"));
            },
        };
        let ghost before = *self;
        let ghost values = self.foliage.spec_types();
        let ghost p = self.foliage.types.place(id);
        proof {
            self.foliage.types.lemma_places_agree(id);
            self.foliage.types.lemma_dense(p);
            assert(values[p] == record);
            lemma_foliage_material_live(
                self.materials@,
                self.objects.spec_values(),
                self.virtual_geometry.spec_values(),
                values,
                p,
            );
        }
        lower_material(&mut self.materials, record.material);
        self.foliage.types.remove(id);
        self.foliage.forget_type(id);
        proof {
            let layers = before.foliage.spec_layers();
            let now = self.foliage.spec_layers();
            assert forall|i: int| 0 <= i < layers.len() implies (#[trigger] now[i]).types@.len()
                <= layers[i].types@.len() by {
                lemma_without_type(layers[i].types@, id);
            }
            lemma_totals_shrink(layers, now);
            assert forall|i: int| 0 <= i < now.len() implies types_live(
                self.foliage.types,
                (#[trigger] now[i]).types@,
            ) by {
                let list = layers[i].types@;
                lemma_without_type(list, id);
                assert(types_live(before.foliage.types, list));
                assert forall|k: int| 0 <= k < now[i].types@.len() implies
                    self.foliage.types@.contains_key(#[trigger] now[i].types@[k]) by {
                    let t = without_type(list, id)[k];
                    let j = list.index_of(t);
                    assert(before.foliage.types@.contains_key(list[j]));
                }
            }
        }
        self.foliage.rebuild_layer_projections();
        self.foliage.recompute_stats();
        self.foliage.bump();
        let ghost between = *self;
        proof {
            let after = self.foliage.spec_types();
            lemma_table_swap_removed(before.foliage.types, self.foliage.types, id);
            assert(after == swap_removed(values, p));
            assert(foliage_materials(after) =~= swap_removed(foliage_materials(values), p));
            assert forall|m: MaterialId| #[trigger]
                occurrences(foliage_materials(after), m) == occurrences(
                    foliage_materials(values),
                    m,
                ) + (if m == record.material {
                -1int
            } else {
                0
            }) by {
                lemma_occurrences_swap_removed(foliage_materials(values), p, m);
            }
            before.lemma_foliage_links(*self, record.material, -1);
            lemma_recount_keeps_links(
                before.materials,
                self.materials,
                record.material,
                (before.materials@[record.material].ref_count - 1) as u32,
                self.textures,
                self.material_flags@,
            );
        }
        self.drop_unused_material(record.material);
        proof {
            before.lemma_released(between, *self, record.material);
        }
        Ok(())
    }

    /// `after` is `self` without the foliage type `id`.
    pub open spec fn foliage_type_removed(&self, after: &Scene, id: FoliageTypeId) -> bool {
        let before = self.foliage;
        let now = after.foliage;
        &&& *after == (Scene {
            foliage: now,
            materials: after.materials,
            material_flags: after.material_flags,
            textures: after.textures,
            ..*self
        })
        &&& now == (Foliage {
            types: now.types,
            layers: now.layers,
            relations: now.relations,
            layer_projections: now.layer_projections,
            generation: before.generation.wrapping_add(1),
            max_height: now.max_height,
            max_density: now.max_density,
            ..before
        })
        &&& before.types.removed(&now.types, id)
        &&& type_forgotten(before.layers, now.layers, id)
        &&& self.material_released(after, before.types@[id].material)
    }

    /// Adds a layer; every type that it places must be live.
    pub fn add_foliage_layer(&mut self, new: NewRow, layer: FoliageLayer) -> (result: Result<
        FoliageLayerId,
    >)
        requires
            old(self).wf(),
            !old(self).foliage.layers.occupies(new.entity.index),
            new.entity.index < usize::MAX,
            old(self).foliage.layers.spec_len() < u32::MAX,
            types_live(old(self).foliage.types, layer.types@) ==> relation_total(
                old(self).foliage.spec_layers(),
            ) + layer.types@.len() <= u32::MAX,
        ensures
            final(self).wf(),
            if types_live(old(self).foliage.types, layer.types@) {
                let before = old(self).foliage;
                let now = final(self).foliage;
                &&& result == Ok::<_, SceneError>(FoliageLayerId(new.entity))
                &&& *final(self) == (Scene { foliage: now, ..*old(self) })
                &&& before.layers.inserted(
                    &now.layers,
                    FoliageLayerId(new.entity),
                    new.gpu_row,
                    (FoliageLayerRecord {
                        row: layer.spec_to_gpu(),
                        seed: layer.seed,
                        types: layer.types,
                    }),
                )
                &&& now == (Foliage {
                    layers: now.layers,
                    relations: now.relations,
                    layer_projections: now.layer_projections,
                    generation: before.generation.wrapping_add(1),
                    ..before
                })
            } else {
                &&& result == Err::<FoliageLayerId, _>(
                    SceneError::InvalidHandle { resource: "foliage type" },
                )
                &&& *final(self) == *old(self)
            },
    {
        if !self.foliage.are_live(&layer.types) {
            return Err(invalid("foliage type"));
        }
        let ghost before = *self;
        let id = FoliageLayerId(new.entity);
        let row: GpuFoliageLayer = layer.to_gpu();
        let record = FoliageLayerRecord { row, seed: layer.seed, types: layer.types };
        self.foliage.layers.insert(id, new.gpu_row, record);
        proof {
            crate::foliage::lemma_table_push(
                before.foliage.layers,
                self.foliage.layers,
                id,
                new.gpu_row,
                record,
            );
            lemma_total_push(before.foliage.spec_layers(), record);
            assert forall|i: int| 0 <= i < self.foliage.spec_layers().len() implies types_live(
                self.foliage.types,
                (#[trigger] self.foliage.spec_layers()[i]).types@,
            ) by {
                if i < before.foliage.spec_layers().len() {
                    assert(types_live(
                        before.foliage.types,
                        before.foliage.spec_layers()[i].types@,
                    ));
                }
            }
        }
        self.foliage.rebuild_layer_projections();
        self.foliage.bump();
        Ok(id)
    }

    /// Replaces a layer. Its types are checked before its handle is; nothing
    /// changes if the layer stays the same.
    pub fn update_foliage_layer(&mut self, id: FoliageLayerId, layer: FoliageLayer) -> (result:
        Result<()>)
        requires
            old(self).wf(),
            types_live(old(self).foliage.types, layer.types@)
                && old(self).foliage.layers@.contains_key(id) ==> relation_total(
                old(self).foliage.spec_layers(),
            ) - old(self).foliage.layers@[id].types@.len() + layer.types@.len() <= u32::MAX,
        ensures
            final(self).wf(),
            result == if !types_live(old(self).foliage.types, layer.types@) {
                Err::<(), _>(SceneError::InvalidHandle { resource: "foliage type" })
            } else if !old(self).foliage.layers@.contains_key(id) {
                Err(SceneError::InvalidHandle { resource: "foliage layer" })
            } else {
                Ok(())
            },
            if result is Ok && !(old(self).foliage.layers@[id].seed == layer.seed && old(
                self,
            ).foliage.layers@[id].row == layer.spec_to_gpu() && old(
                self,
            ).foliage.layers@[id].types@ == layer.types@) {
                let before = old(self).foliage;
                let now = final(self).foliage;
                &&& *final(self) == (Scene { foliage: now, ..*old(self) })
                &&& before.layers.replaced(
                    &now.layers,
                    id,
                    (FoliageLayerRecord {
                        row: layer.spec_to_gpu(),
                        seed: layer.seed,
                        types: layer.types,
                    }),
                )
                &&& now == (Foliage {
                    layers: now.layers,
                    relations: now.relations,
                    layer_projections: now.layer_projections,
                    generation: before.generation.wrapping_add(1),
                    ..before
                })
            } else {
                *final(self) == *old(self)
            },
    {
        if !self.foliage.are_live(&layer.types) {
            return Err(invalid("foliage type"));
        }
        let row: GpuFoliageLayer = layer.to_gpu();
        let unchanged: bool = match self.foliage.layers.get(id) {
            Some(record) => record.seed == layer.seed && record.row.same(&row) && same_types(
                &record.types,
                &layer.types,
            ),
            None => {
                return Err(invalid("foliage layer"));
            },
        };
        if unchanged {
            return Ok(());
        }
        let ghost before = *self;
        let ghost p = self.foliage.layers.place(id);
        proof {
            self.foliage.layers.lemma_places_agree(id);
        }
        let record = FoliageLayerRecord { row, seed: layer.seed, types: layer.types };
        self.foliage.layers.set(id, record);
        proof {
            lemma_table_update(before.foliage.layers, self.foliage.layers, id, record);
            lemma_total_update(before.foliage.spec_layers(), p, record);
            assert forall|i: int| 0 <= i < self.foliage.spec_layers().len() implies types_live(
                self.foliage.types,
                (#[trigger] self.foliage.spec_layers()[i]).types@,
            ) by {
                if i != p {
                    assert(types_live(
                        before.foliage.types,
                        before.foliage.spec_layers()[i].types@,
                    ));
                }
            }
        }
        self.foliage.rebuild_layer_projections();
        self.foliage.bump();
        Ok(())
    }

    pub fn remove_foliage_layer(&mut self, id: FoliageLayerId) -> (result: Result<()>)
        requires
            old(self).wf(),
        ensures
            final(self).wf(),
            result == if old(self).foliage.layers@.contains_key(id) {
                Ok::<(), SceneError>(())
            } else {
                Err(SceneError::InvalidHandle { resource: "foliage layer" })
            },
            if result is Ok {
                let before = old(self).foliage;
                let now = final(self).foliage;
                &&& *final(self) == (Scene { foliage: now, ..*old(self) })
                &&& before.layers.removed(&now.layers, id)
                &&& now == (Foliage {
                    layers: now.layers,
                    relations: now.relations,
                    layer_projections: now.layer_projections,
                    generation: before.generation.wrapping_add(1),
                    ..before
                })
            } else {
                *final(self) == *old(self)
            },
    {
        let ghost before = *self;
        let ghost p = self.foliage.layers.place(id);
        proof {
            self.foliage.layers.lemma_places_agree(id);
        }
        if !self.foliage.layers.remove(id) {
            return Err(invalid("foliage layer"));
        }
        proof {
            let layers = before.foliage.spec_layers();
            lemma_table_swap_removed(before.foliage.layers, self.foliage.layers, id);
            let now = self.foliage.spec_layers();
            assert(now == swap_removed(layers, p));
            let last = layers.len() - 1;
            let moved = layers.update(p, layers.last());
            lemma_total_update(layers, p, layers.last());
            assert(now == moved.drop_last());
            assert(relation_total(moved) == relation_total(now) + moved.last().types@.len());
            lemma_relation_total_take(layers, p);
            assert forall|i: int| 0 <= i < now.len() implies types_live(
                self.foliage.types,
                (#[trigger] now[i]).types@,
            ) by {
                let q = if i == p { last } else { i };
                assert(types_live(before.foliage.types, layers[q].types@));
            }
        }
        self.foliage.rebuild_layer_projections();
        self.foliage.bump();
        Ok(())
    }

    /// `after` is `self` with another wind, whose clock goes on.
    pub open spec fn wind_set(&self, after: &Scene, wind: Wind) -> bool {
        *after == (Scene {
            foliage: Foliage {
                wind: Wind {
                    time: self.foliage.wind.time,
                    prev_time: self.foliage.wind.prev_time,
                    ..wind
                },
                ..self.foliage
            },
            ..*self
        })
    }

    /// `after` is `self` with the wind's clock at `time`.
    pub open spec fn wind_advanced(&self, after: &Scene, time: F32) -> bool {
        *after == (Scene {
            foliage: Foliage {
                wind: Wind { time, prev_time: self.foliage.wind.time, ..self.foliage.wind },
                ..self.foliage
            },
            ..*self
        })
    }

    /// Replaces the authored wind; its clock goes on. Foliage is not placed anew.
    pub fn set_wind(&mut self, wind: Wind)
        requires
            old(self).wf(),
        ensures
            final(self).wf(),
            old(self).wind_set(final(self), wind),
    {
        let current: Wind = self.foliage.wind;
        self.foliage.wind = Wind { time: current.time, prev_time: current.prev_time, ..wind };
    }

    pub fn wind(&self) -> (wind: Wind)
        ensures
            wind == self.foliage.wind,
    {
        self.foliage.wind
    }

    /// Advances the wind's clock to `time`. Foliage is not placed anew.
    pub fn advance_wind(&mut self, time: F32)
        requires
            old(self).wf(),
        ensures
            final(self).wf(),
            old(self).wind_advanced(final(self), time),
    {
        let current: Wind = self.foliage.wind;
        self.foliage.wind = Wind { time, prev_time: current.time, ..current };
    }

    pub fn add_foliage_interactor(&mut self, new: NewRow, interactor: FoliageInteractor) -> (id:
        FoliageInteractorId)
        requires
            old(self).wf(),
            !old(self).foliage.interactors.occupies(new.entity.index),
            new.entity.index < usize::MAX,
            old(self).foliage.interactors.spec_len() < u32::MAX,
        ensures
            final(self).wf(),
            id == FoliageInteractorId(new.entity),
            *final(self) == (Scene { foliage: final(self).foliage, ..*old(self) }),
            final(self).foliage == (Foliage {
                interactors: final(self).foliage.interactors,
                ..old(self).foliage
            }),
            old(self).foliage.interactors.inserted(
                &final(self).foliage.interactors,
                id,
                new.gpu_row,
                interactor.spec_to_gpu(),
            ),
    {
        let id = FoliageInteractorId(new.entity);
        self.foliage.interactors.insert(id, new.gpu_row, interactor.to_gpu());
        id
    }

    /// `after` is `self` with an interactor elsewhere.
    pub open spec fn interactor_updated(
        &self,
        after: &Scene,
        id: FoliageInteractorId,
        position: [F32; 3],
        velocity: [F32; 3],
        result: Result<()>,
    ) -> bool {
        &&& result == if self.foliage.interactors@.contains_key(id) {
            Ok::<(), SceneError>(())
        } else {
            Err(SceneError::InvalidHandle { resource: "foliage interactor" })
        }
        &&& *after == (Scene { foliage: after.foliage, ..*self })
        &&& after.foliage == (Foliage {
            interactors: after.foliage.interactors,
            ..self.foliage
        })
        &&& ({
            let prior = self.foliage.interactors@[id];
            let next = FoliageInteractor {
                position,
                radius: prior.position_radius[3],
                velocity,
            };
            if result is Ok && prior != next.spec_to_gpu() {
                self.foliage.interactors.replaced(
                    &after.foliage.interactors,
                    id,
                    next.spec_to_gpu(),
                )
            } else {
                after.foliage.interactors == self.foliage.interactors
            }
        })
    }

    /// Moves an interactor; its radius stays.
    pub fn update_foliage_interactor(
        &mut self,
        id: FoliageInteractorId,
        position: [F32; 3],
        velocity: [F32; 3],
    ) -> (result: Result<()>)
        requires
            old(self).wf(),
        ensures
            final(self).wf(),
            old(self).interactor_updated(final(self), id, position, velocity, result),
    {
        let prior: GpuFoliageInteractor = match self.foliage.interactors.get(id) {
            Some(row) => *row,
            None => {
                return Err(invalid("foliage interactor"));
            },
        };
        let next = FoliageInteractor { position, radius: prior.position_radius[3], velocity };
        let row: GpuFoliageInteractor = next.to_gpu();
        if prior.same(&row) {
            return Ok(());
        }
        self.foliage.interactors.set(id, row);
        Ok(())
    }

    pub fn remove_foliage_interactor(&mut self, id: FoliageInteractorId) -> (result: Result<()>)
        requires
            old(self).wf(),
        ensures
            final(self).wf(),
            result == if old(self).foliage.interactors@.contains_key(id) {
                Ok::<(), SceneError>(())
            } else {
                Err(SceneError::InvalidHandle { resource: "foliage interactor" })
            },
            *final(self) == (Scene { foliage: final(self).foliage, ..*old(self) }),
            final(self).foliage == (Foliage {
                interactors: final(self).foliage.interactors,
                ..old(self).foliage
            }),
            if result is Ok {
                old(self).foliage.interactors.removed(&final(self).foliage.interactors, id)
            } else {
                *final(self) == *old(self)
            },
    {
        if !self.foliage.interactors.remove(id) {
            return Err(invalid("foliage interactor"));
        }
        Ok(())
    }

    /// What the foliage pass reads, `None` without any type.
    pub open spec fn frame_data(&self) -> Option<FoliageFrameData> {
        if self.foliage.types.spec_len() == 0 {
            None::<FoliageFrameData>
        } else {
            Some(
                FoliageFrameData {
                    type_count: self.foliage.types.spec_len() as u32,
                    layer_count: self.foliage.layers.spec_len() as u32,
                    layer_relation_count: relation_total(self.foliage.spec_layers()) as u32,
                    interactor_count: self.foliage.interactors.spec_len() as u32,
                    max_height: self.foliage.max_height,
                    max_density: self.foliage.max_density,
                    wind: self.foliage.wind,
                    generation: self.foliage.generation,
                },
            )
        }
    }

    /// What foliage passes need to know, or nothing while there is no type: passes
    /// then cost nothing.
    pub fn foliage_frame_data(&self) -> (data: Option<FoliageFrameData>)
        requires
            self.wf(),
        ensures
            data == self.frame_data(),
    {
        if self.foliage.types.len() == 0 {
            return None;
        }
        proof {
            crate::foliage::lemma_relation_total(self.foliage.types, self.foliage.spec_layers());
        }
        Some(
            FoliageFrameData {
                type_count: self.foliage.types.len() as u32,
                layer_count: self.foliage.layers.len() as u32,
                layer_relation_count: self.foliage.relations.len() as u32,
                interactor_count: self.foliage.interactors.len() as u32,
                max_height: self.foliage.max_height,
                max_density: self.foliage.max_density,
                wind: self.foliage.wind,
                generation: self.foliage.generation,
            },
        )
    }
}

/// Counts, bounds and versions of the scene's foliage.
#[derive(Clone, Copy, Debug)]
pub struct FoliageFrameData {
    pub type_count: u32,
    pub layer_count: u32,
    pub layer_relation_count: u32,
    pub interactor_count: u32,
    pub max_height: F32,
    pub max_density: F32,
    pub wind: Wind,
    pub generation: u64,
}

/// The values of a table after a replacement.
proof fn lemma_table_update<H: Handle, R>(
    before: ProjectedTable<H, R>,
    after: ProjectedTable<H, R>,
    id: H,
    record: R,
)
    requires
        before.wf(),
        after.wf(),
        before@.contains_key(id),
        before.replaced(&after, id, record),
    ensures
        after.records.value_by_slot@ == before.records.value_by_slot@.update(
            before.place(id),
            record,
        ),
{
    let a = before.records.value_by_slot@;
    let b = after.records.value_by_slot@;
    before.lemma_places_agree(id);
    assert forall|i: int| 0 <= i < b.len() implies b[i] == a.update(before.place(id), record)[i] by {
        after.lemma_dense(i);
        before.lemma_dense(i);
    }
    assert(b =~= a.update(before.place(id), record));
}

/// The values of a table after a removal.
proof fn lemma_table_swap_removed<H: Handle, R>(
    before: ProjectedTable<H, R>,
    after: ProjectedTable<H, R>,
    id: H,
)
    requires
        before.wf(),
        after.wf(),
        before@.contains_key(id),
        before.removed(&after, id),
    ensures
        after.records.value_by_slot@ == swap_removed(
            before.records.value_by_slot@,
            before.place(id),
        ),
{
    let a = before.records.value_by_slot@;
    let b = after.records.value_by_slot@;
    before.lemma_places_agree(id);
    let p = before.place(id);
    let last = a.len() - 1;
    assert forall|i: int| 0 <= i < b.len() implies b[i] == swap_removed(a, p)[i] by {
        after.lemma_dense(i);
        let q = if i == p { last } else { i };
        before.lemma_dense(q);
        assert(after.spec_ids()[i] == before.spec_ids()[q]);
        before.records.lemma_distinct(q, p);
    }
    assert(b =~= swap_removed(a, p));
}

} // verus!
