//! Sectioned meshes: one asset with several index ranges, each drawn with a
//! material of its own. A placed instance is one object per section.
use vstd::prelude::*;

use crate::counting::{
    lemma_occurrences_positive, lemma_occurrences_push, lemma_occurrences_swap_removed,
    occurrences,
};
use crate::handles::{Entity, MeshId, MultiMeshId, ObjectId, SectionedInstanceId};
use crate::objects::ObjectRecord;
use crate::references::MeshRecord;
use crate::sparse_set::{swap_removed, SparseSet};

verus! {

#[derive(Debug)]
pub struct MultiMeshRecord {
    pub section_mesh_ids: Vec<MeshId>,
    /// Number of placed instances.
    pub ref_count: u32,
}

#[derive(Debug)]
pub struct SectionedInstanceRecord {
    /// One object per section, in section order.
    pub section_objects: Vec<ObjectId>,
    pub multi_mesh: MultiMeshId,
}

pub struct Sections {
    pub multi_meshes: SparseSet<MultiMeshId, MultiMeshRecord>,
    pub instances: SparseSet<SectionedInstanceId, SectionedInstanceRecord>,
    /// The instance that an object is a section of.
    pub instance_of: SparseSet<ObjectId, SectionedInstanceId>,
}

pub open spec fn instance_assets(instances: Seq<SectionedInstanceRecord>) -> Seq<MultiMeshId> {
    instances.map_values(|i: SectionedInstanceRecord| i.multi_mesh)
}

impl Sections {
    /// An object that is a section is live, and its instance lists it.
    pub open spec fn members_linked(&self, objects: Map<ObjectId, ObjectRecord>) -> bool {
        forall|o: ObjectId| #[trigger]
            self.instance_of@.contains_key(o) ==> {
                let s = self.instance_of@[o];
                &&& objects.contains_key(o)
                &&& self.instances@.contains_key(s)
                &&& self.instances@[s].section_objects@.contains(o)
            }
    }

    /// An instance's asset is live, its objects are its own, and there is one per
    /// section.
    pub open spec fn instance_linked(&self, s: SectionedInstanceId) -> bool {
        let record = self.instances@[s];
        &&& self.multi_meshes@.contains_key(record.multi_mesh)
        &&& record.section_objects@.len()
            == self.multi_meshes@[record.multi_mesh].section_mesh_ids@.len()
        &&& record.section_objects@.no_duplicates()
        &&& forall|k: int|
            0 <= k < record.section_objects@.len() ==> self.instance_of@.contains_key(
                #[trigger] record.section_objects@[k],
            ) && self.instance_of@[record.section_objects@[k]] == s
    }

    /// A sectioned mesh counts its instances and owns its sections.
    pub open spec fn asset_linked(&self, id: MultiMeshId, meshes: Map<MeshId, MeshRecord>) -> bool {
        let record = self.multi_meshes@[id];
        &&& record.ref_count == occurrences(instance_assets(self.instances.value_by_slot@), id)
        &&& record.section_mesh_ids@.no_duplicates()
        &&& forall|k: int|
            0 <= k < record.section_mesh_ids@.len() ==> meshes.contains_key(
                #[trigger] record.section_mesh_ids@[k],
            ) && meshes[record.section_mesh_ids@[k]].owner == Some(id)
    }

    /// A mesh that is a section belongs to the sectioned mesh that lists it.
    pub open spec fn owners_linked(&self, meshes: Map<MeshId, MeshRecord>) -> bool {
        forall|m: MeshId| #[trigger]
            meshes.contains_key(m) ==> match meshes[m].owner {
                Some(id) => self.multi_meshes@.contains_key(id)
                    && self.multi_meshes@[id].section_mesh_ids@.contains(m),
                None => true,
            }
    }

    pub open spec fn wf(
        &self,
        objects: Map<ObjectId, ObjectRecord>,
        meshes: Map<MeshId, MeshRecord>,
    ) -> bool {
        &&& self.multi_meshes.wf()
        &&& self.instances.wf()
        &&& self.instance_of.wf()
        &&& self.members_linked(objects)
        &&& forall|s: SectionedInstanceId| #[trigger]
            self.instances@.contains_key(s) ==> self.instance_linked(s)
        &&& forall|id: MultiMeshId| #[trigger]
            self.multi_meshes@.contains_key(id) ==> self.asset_linked(id, meshes)
        &&& self.owners_linked(meshes)
    }

    /// Objects may come and change, and meshes may change but for their owners.
    pub proof fn lemma_kept(
        &self,
        objects: Map<ObjectId, ObjectRecord>,
        meshes: Map<MeshId, MeshRecord>,
        new_objects: Map<ObjectId, ObjectRecord>,
        new_meshes: Map<MeshId, MeshRecord>,
    )
        requires
            self.wf(objects, meshes),
            forall|o: ObjectId| #[trigger]
                self.instance_of@.contains_key(o) ==> new_objects.contains_key(o),
            new_meshes.dom() == meshes.dom(),
            forall|m: MeshId| #[trigger]
                new_meshes.contains_key(m) ==> new_meshes[m].owner == meshes[m].owner,
        ensures
            self.wf(new_objects, new_meshes),
    {
        assert forall|id: MultiMeshId| #[trigger] self.multi_meshes@.contains_key(id) implies
            self.asset_linked(id, new_meshes) by {
            assert(self.asset_linked(id, meshes));
            let record = self.multi_meshes@[id];
            assert forall|k: int| 0 <= k < record.section_mesh_ids@.len() implies
                new_meshes.contains_key(#[trigger] record.section_mesh_ids@[k])
                && new_meshes[record.section_mesh_ids@[k]].owner == Some(id) by {
                assert(meshes.contains_key(record.section_mesh_ids@[k]));
            }
        }
        assert(self.owners_linked(new_meshes)) by {
            assert forall|m: MeshId| #[trigger] new_meshes.contains_key(m) implies match
                new_meshes[m].owner {
                Some(id) => self.multi_meshes@.contains_key(id)
                    && self.multi_meshes@[id].section_mesh_ids@.contains(m),
                None => true,
            } by {
                assert(meshes.contains_key(m));
            }
        }
    }

    /// An entity slot without an object is no section's either.
    pub proof fn lemma_free_slots(
        &self,
        objects: SparseSet<ObjectId, ObjectRecord>,
        meshes: Map<MeshId, MeshRecord>,
        index: u32,
    )
        requires
            self.wf(objects@, meshes),
            objects.wf(),
            !objects.occupies(index),
        ensures
            !self.instance_of.occupies(index),
    {
        if self.instance_of.occupies(index) {
            let p = self.instance_of.slot_by_entity@[index as int] as int;
            let o = self.instance_of.id_by_slot@[p];
            self.instance_of.lemma_dense(p);
            assert(self.instance_of@.contains_key(o));
            assert(objects@.contains_key(o));
        }
    }

    /// A section is no more numerous than objects are.
    pub proof fn lemma_relation_room(
        &self,
        objects: SparseSet<ObjectId, ObjectRecord>,
        meshes: Map<MeshId, MeshRecord>,
    )
        requires
            self.wf(objects@, meshes),
            objects.wf(),
        ensures
            self.instance_of.spec_len() <= objects.spec_len(),
    {
        crate::sparse_set::lemma_len_of_subset(self.instance_of, objects);
    }

    /// Counts one more or one less instance of an asset.
    fn recount(&mut self, id: MultiMeshId, ref_count: u32)
        requires
            old(self).multi_meshes.wf(),
            old(self).multi_meshes@.contains_key(id),
        ensures
            final(self).multi_meshes.wf(),
            final(self).instances == old(self).instances,
            final(self).instance_of == old(self).instance_of,
            final(self).multi_meshes.id_by_slot == old(self).multi_meshes.id_by_slot,
            final(self).multi_meshes.slot_by_entity == old(self).multi_meshes.slot_by_entity,
            final(self).multi_meshes@ == old(self).multi_meshes@.insert(
                id,
                (MultiMeshRecord {
                    section_mesh_ids: old(self).multi_meshes@[id].section_mesh_ids,
                    ref_count,
                }),
            ),
    {
        let prior: MultiMeshRecord = self.multi_meshes.replace(
            id,
            MultiMeshRecord { section_mesh_ids: Vec::new(), ref_count: 0 },
        );
        self.multi_meshes.set(
            id,
            MultiMeshRecord { section_mesh_ids: prior.section_mesh_ids, ref_count },
        );
        assert(self.multi_meshes@ =~= old(self).multi_meshes@.insert(
            id,
            MultiMeshRecord {
                section_mesh_ids: old(self).multi_meshes@[id].section_mesh_ids,
                ref_count,
            },
        ));
    }

    /// Relates `list` to a new instance of a live asset.
    #[verifier::spinoff_prover]
    pub(crate) fn add_instance(
        &mut self,
        id: SectionedInstanceId,
        list: Vec<ObjectId>,
        multi_mesh: MultiMeshId,
        Ghost(objects): Ghost<Map<ObjectId, ObjectRecord>>,
        Ghost(meshes): Ghost<Map<MeshId, MeshRecord>>,
    )
        requires
            old(self).wf(objects, meshes),
            !old(self).instances.occupies(id.0.index),
            id.0.index < usize::MAX,
            old(self).instances.spec_len() < u32::MAX,
            old(self).multi_meshes@.contains_key(multi_mesh),
            old(self).multi_meshes@[multi_mesh].ref_count < u32::MAX,
            list@.len() == old(self).multi_meshes@[multi_mesh].section_mesh_ids@.len(),
            old(self).instance_of.spec_len() + list@.len() <= u32::MAX,
            forall|k: int|
                0 <= k < list@.len() ==> objects.contains_key(#[trigger] list@[k])
                    && !old(self).instance_of.occupies(list@[k].0.index) && list@[k].0.index
                    < usize::MAX,
            forall|k: int, l: int|
                0 <= k < l < list@.len() ==> (#[trigger] list@[k]).0.index != (
                #[trigger] list@[l]).0.index,
        ensures
            final(self).wf(objects, meshes),
            old(self).instance_added(final(self), id, list, multi_mesh),
    {
        let ghost before = *self;
        let count: u32 = match self.multi_meshes.get(multi_mesh) {
            Some(record) => record.ref_count,
            None => {
                assert(false);
                0
            },
        };
        self.recount(multi_mesh, count + 1);
        let mut k: usize = 0;
        while k < list.len()
            invariant
                0 <= k <= list@.len(),
                before.instance_of.wf(),
                self.instance_of.wf(),
                self.instances == before.instances,
                self.multi_meshes.wf(),
                self.multi_meshes@ == before.multi_meshes@.insert(
                    multi_mesh,
                    (MultiMeshRecord {
                        section_mesh_ids: before.multi_meshes@[multi_mesh].section_mesh_ids,
                        ref_count: (count + 1) as u32,
                    }),
                ),
                self.multi_meshes.id_by_slot == before.multi_meshes.id_by_slot,
                self.instance_of.spec_len() == before.instance_of.spec_len() + k,
                before.instance_of.spec_len() + list@.len() <= u32::MAX,
                forall|a: int|
                    0 <= a < list@.len() ==> !before.instance_of.occupies(
                        (#[trigger] list@[a]).0.index,
                    ) && list@[a].0.index < usize::MAX,
                forall|a: int, b: int|
                    0 <= a < b < list@.len() ==> (#[trigger] list@[a]).0.index != (
                    #[trigger] list@[b]).0.index,
                forall|index: u32| #[trigger]
                    self.instance_of.occupies(index) ==> before.instance_of.occupies(index)
                        || exists|a: int| 0 <= a < k && (#[trigger] list@[a]).0.index == index,
                forall|o: ObjectId|
                    #[trigger] self.instance_of@.contains_key(o)
                        <==> before.instance_of@.contains_key(o) || list@.take(k as int).contains(o),
                forall|o: ObjectId| #[trigger]
                    self.instance_of@.contains_key(o) ==> self.instance_of@[o]
                        == if list@.take(k as int).contains(o) {
                        id
                    } else {
                        before.instance_of@[o]
                    },
            decreases list@.len() - k,
        {
            let o: ObjectId = list[k];
            proof {
                if self.instance_of.occupies(o.0.index) {
                    let a = choose|a: int| 0 <= a < k && (#[trigger] list@[a]).0.index == o.0.index;
                    assert(list@[a].0.index != list@[k as int].0.index);
                }
            }
            let ghost prior = *self;
            let ghost seen = list@.take(k as int);
            let ghost next = list@.take(k + 1);
            self.instance_of.insert(o, id);
            proof {
                assert(next =~= seen.push(o));
                assert forall|x: ObjectId| #[trigger] next.contains(x) <==> seen.contains(x) || x
                    == o by {
                    lemma_push_contains(seen, o, x);
                }
                assert forall|index: u32| #[trigger]
                    self.instance_of.occupies(index) implies before.instance_of.occupies(index)
                    || exists|a: int| 0 <= a < k + 1 && (#[trigger] list@[a]).0.index == index by {
                    if prior.instance_of.occupies(index) && !before.instance_of.occupies(index) {
                        let a = choose|a: int| 0 <= a < k && (#[trigger] list@[a]).0.index == index;
                        assert(list@[a].0.index == index);
                    }
                    if index == o.0.index {
                        assert(list@[k as int].0.index == index);
                    }
                }
                assert forall|x: ObjectId|
                    #[trigger] self.instance_of@.contains_key(x)
                        <==> before.instance_of@.contains_key(x) || next.contains(x) by {
                    assert(prior.instance_of@.contains_key(x)
                        <==> before.instance_of@.contains_key(x) || seen.contains(x));
                    assert(next.contains(x) <==> seen.contains(x) || x == o);
                }
                assert forall|x: ObjectId| #[trigger] self.instance_of@.contains_key(x) implies
                    self.instance_of@[x] == if next.contains(x) {
                    id
                } else {
                    before.instance_of@[x]
                } by {
                    assert(next.contains(x) <==> seen.contains(x) || x == o);
                    if x != o {
                        assert(prior.instance_of@.contains_key(x));
                    }
                }
            }
            k = k + 1;
        }
        assert(list@.take(k as int) =~= list@);
        self.instances.insert(id, SectionedInstanceRecord { section_objects: list, multi_mesh });
        proof {
            before.lemma_added(*self, id, list, multi_mesh, objects, meshes);
        }
    }

    /// `after` is `self` with the objects of `list` related to a new instance.
    pub open spec fn instance_added(
        &self,
        after: &Sections,
        id: SectionedInstanceId,
        list: Vec<ObjectId>,
        multi_mesh: MultiMeshId,
    ) -> bool {
        let record = SectionedInstanceRecord { section_objects: list, multi_mesh };
        &&& after.instances@ == self.instances@.insert(id, record)
        &&& after.instances.id_by_slot@ == self.instances.id_by_slot@.push(id)
        &&& after.instances.value_by_slot@ == self.instances.value_by_slot@.push(record)
        &&& after.multi_meshes.id_by_slot == self.multi_meshes.id_by_slot
        &&& after.multi_meshes@ == self.multi_meshes@.insert(
            multi_mesh,
            MultiMeshRecord {
                section_mesh_ids: self.multi_meshes@[multi_mesh].section_mesh_ids,
                ref_count: (self.multi_meshes@[multi_mesh].ref_count + 1) as u32,
            },
        )
        &&& forall|o: ObjectId|
            #[trigger] after.instance_of@.contains_key(o) <==> self.instance_of@.contains_key(o)
                || list@.contains(o)
        &&& forall|o: ObjectId| #[trigger]
            after.instance_of@.contains_key(o) ==> after.instance_of@[o] == if list@.contains(o) {
                id
            } else {
                self.instance_of@[o]
            }
    }

    proof fn lemma_added(
        self,
        after: Sections,
        id: SectionedInstanceId,
        list: Vec<ObjectId>,
        multi_mesh: MultiMeshId,
        objects: Map<ObjectId, ObjectRecord>,
        meshes: Map<MeshId, MeshRecord>,
    )
        requires
            self.wf(objects, meshes),
            !self.instances.occupies(id.0.index),
            self.multi_meshes@.contains_key(multi_mesh),
            self.multi_meshes@[multi_mesh].ref_count < u32::MAX,
            list@.len() == self.multi_meshes@[multi_mesh].section_mesh_ids@.len(),
            forall|k: int|
                0 <= k < list@.len() ==> objects.contains_key(#[trigger] list@[k])
                    && !self.instance_of.occupies(list@[k].0.index),
            forall|k: int, l: int|
                0 <= k < l < list@.len() ==> (#[trigger] list@[k]).0.index != (
                #[trigger] list@[l]).0.index,
            self.instance_added(&after, id, list, multi_mesh),
            after.multi_meshes.wf(),
            after.instances.wf(),
            after.instance_of.wf(),
        ensures
            after.wf(objects, meshes),
    {
        assert forall|k: int| 0 <= k < list@.len() implies !self.instance_of@.contains_key(
            #[trigger] list@[k],
        ) by {}
        assert forall|o: ObjectId| #[trigger] after.instance_of@.contains_key(o) implies {
            let s = after.instance_of@[o];
            &&& objects.contains_key(o)
            &&& after.instances@.contains_key(s)
            &&& after.instances@[s].section_objects@.contains(o)
        } by {
            if list@.contains(o) {
                let k = list@.index_of(o);
                assert(list@[k] == o);
            } else {
                assert(self.instance_of@.contains_key(o));
            }
        }
        assert forall|s: SectionedInstanceId| #[trigger] after.instances@.contains_key(s) implies
            after.instance_linked(s) by {
            let record = after.instances@[s];
            if s == id {
                assert(record.section_objects@ == list@);
                assert forall|k: int| 0 <= k < list@.len() implies after.instance_of@.contains_key(
                    #[trigger] record.section_objects@[k],
                ) && after.instance_of@[record.section_objects@[k]] == s by {
                    assert(list@.contains(list@[k]));
                }
                assert(list@.no_duplicates()) by {
                    assert forall|a: int, b: int|
                        0 <= a < list@.len() && 0 <= b < list@.len() && a != b implies list@[a]
                        != list@[b] by {
                        if a < b {
                            assert(list@[a].0.index != list@[b].0.index);
                        } else {
                            assert(list@[b].0.index != list@[a].0.index);
                        }
                    }
                }
            } else {
                assert(self.instances@.contains_key(s));
                assert(self.instance_linked(s));
                assert forall|k: int| 0 <= k < record.section_objects@.len() implies
                    after.instance_of@.contains_key(#[trigger] record.section_objects@[k])
                    && after.instance_of@[record.section_objects@[k]] == s by {
                    let o = record.section_objects@[k];
                    assert(self.instance_of@.contains_key(o));
                    if list@.contains(o) {
                        let l = list@.index_of(o);
                        assert(list@[l] == o);
                    }
                }
            }
        }
        assert forall|a: MultiMeshId| #[trigger] after.multi_meshes@.contains_key(a) implies
            after.asset_linked(a, meshes) by {
            assert(self.multi_meshes@.contains_key(a));
            assert(self.asset_linked(a, meshes));
            let values = self.instances.value_by_slot@;
            let record = SectionedInstanceRecord { section_objects: list, multi_mesh };
            assert(instance_assets(values.push(record)) =~= instance_assets(values).push(
                multi_mesh,
            ));
            lemma_occurrences_push(instance_assets(values), multi_mesh, a);
            assert(after.multi_meshes@[a].section_mesh_ids
                == self.multi_meshes@[a].section_mesh_ids);
        }
        assert(after.owners_linked(meshes)) by {
            assert forall|m: MeshId| #[trigger] meshes.contains_key(m) implies match meshes[m].owner {
                Some(a) => after.multi_meshes@.contains_key(a)
                    && after.multi_meshes@[a].section_mesh_ids@.contains(m),
                None => true,
            } by {}
        }
    }

    /// Takes a live instance out and frees its objects from the relation.
    #[verifier::spinoff_prover]
    pub(crate) fn take_instance(
        &mut self,
        id: SectionedInstanceId,
        Ghost(objects): Ghost<Map<ObjectId, ObjectRecord>>,
        Ghost(meshes): Ghost<Map<MeshId, MeshRecord>>,
    ) -> (list: Vec<ObjectId>)
        requires
            old(self).wf(objects, meshes),
            old(self).instances@.contains_key(id),
        ensures
            final(self).wf(objects, meshes),
            list == old(self).instances@[id].section_objects,
            old(self).instance_taken(final(self), id),
    {
        let ghost before = *self;
        let ghost taken = self.instances@[id];
        assert(self.instance_linked(id));
        let multi_mesh: MultiMeshId = match self.instances.get(id) {
            Some(record) => record.multi_mesh,
            None => {
                assert(false);
                MultiMeshId(Entity { index: 0, generation: 0 })
            },
        };
        proof {
            self.instances.lemma_contains(id);
            let values = self.instances.value_by_slot@;
            let p = self.instances.place(id);
            assert(instance_assets(values)[p] == multi_mesh);
            assert(instance_assets(values).contains(multi_mesh));
            lemma_occurrences_positive(instance_assets(values), multi_mesh);
            assert(self.asset_linked(multi_mesh, meshes));
        }
        let placeholder = SectionedInstanceRecord { section_objects: Vec::new(), multi_mesh };
        let record: SectionedInstanceRecord = self.instances.replace(id, placeholder);
        self.instances.remove(id);
        assert(self.instances@ =~= before.instances@.remove(id));
        let list: Vec<ObjectId> = record.section_objects;
        let count: u32 = match self.multi_meshes.get(multi_mesh) {
            Some(record) => record.ref_count,
            None => {
                assert(false);
                1
            },
        };
        self.recount(multi_mesh, count - 1);
        let ghost middle = *self;
        let mut k: usize = 0;
        while k < list.len()
            invariant
                0 <= k <= list@.len(),
                self.instance_of.wf(),
                self.instances == middle.instances,
                self.multi_meshes == middle.multi_meshes,
                self.instance_of@ == before.instance_of@.remove_keys(
                    list@.take(k as int).to_set(),
                ),
            decreases list@.len() - k,
        {
            let ghost prior = *self;
            self.instance_of.remove(list[k]);
            proof {
                assert(list@.take(k + 1) =~= list@.take(k as int).push(list@[k as int]));
                assert forall|x: ObjectId| list@.take(k + 1).contains(x) <==> list@.take(
                    k as int,
                ).contains(x) || x == list@[k as int] by {
                    lemma_push_contains(list@.take(k as int), list@[k as int], x);
                }
                assert(self.instance_of@ =~= before.instance_of@.remove_keys(
                    list@.take(k + 1).to_set(),
                ));
            }
            k = k + 1;
        }
        proof {
            assert(list@.take(k as int) =~= list@);
            let values = before.instances.value_by_slot@;
            let p = before.instances.place(id);
            let swapped = swap_removed(values.update(p, placeholder), p);
            assert(swapped =~= swap_removed(values, p)) by {
                assert(values[p] == taken);
                assert forall|i: int| 0 <= i < swapped.len() implies swapped[i] == swap_removed(
                    values,
                    p,
                )[i] by {}
            }
            before.lemma_taken(*self, id, objects, meshes);
        }
        list
    }

    /// `after` is `self` without the instance `id` and its relations.
    pub open spec fn instance_taken(&self, after: &Sections, id: SectionedInstanceId) -> bool {
        let record = self.instances@[id];
        &&& after.instances@ == self.instances@.remove(id)
        &&& after.instances.id_by_slot@ == swap_removed(
            self.instances.id_by_slot@,
            self.instances.place(id),
        )
        &&& after.instances.value_by_slot@ == swap_removed(
            self.instances.value_by_slot@,
            self.instances.place(id),
        )
        &&& after.multi_meshes.id_by_slot == self.multi_meshes.id_by_slot
        &&& after.multi_meshes@ == self.multi_meshes@.insert(
            record.multi_mesh,
            MultiMeshRecord {
                section_mesh_ids: self.multi_meshes@[record.multi_mesh].section_mesh_ids,
                ref_count: (self.multi_meshes@[record.multi_mesh].ref_count - 1) as u32,
            },
        )
        &&& after.instance_of@ == self.instance_of@.remove_keys(record.section_objects@.to_set())
    }

    proof fn lemma_taken(
        self,
        after: Sections,
        id: SectionedInstanceId,
        objects: Map<ObjectId, ObjectRecord>,
        meshes: Map<MeshId, MeshRecord>,
    )
        requires
            self.wf(objects, meshes),
            self.instances@.contains_key(id),
            self.instance_taken(&after, id),
            self.multi_meshes@[self.instances@[id].multi_mesh].ref_count > 0,
            after.multi_meshes.wf(),
            after.instances.wf(),
            after.instance_of.wf(),
        ensures
            after.wf(objects, meshes),
    {
        let record = self.instances@[id];
        let list = record.section_objects@;
        assert(self.instance_linked(id));
        assert forall|o: ObjectId| #[trigger] after.instance_of@.contains_key(o) implies {
            let s = after.instance_of@[o];
            &&& objects.contains_key(o)
            &&& after.instances@.contains_key(s)
            &&& after.instances@[s].section_objects@.contains(o)
        } by {
            assert(self.instance_of@.contains_key(o));
            assert(!list.contains(o));
            let s = self.instance_of@[o];
            assert(self.instances@[s].section_objects@.contains(o));
            assert(s != id);
        }
        assert forall|s: SectionedInstanceId| #[trigger] after.instances@.contains_key(s) implies
            after.instance_linked(s) by {
            assert(self.instances@.contains_key(s));
            assert(self.instance_linked(s));
            let own = after.instances@[s];
            assert forall|k: int| 0 <= k < own.section_objects@.len() implies
                after.instance_of@.contains_key(#[trigger] own.section_objects@[k])
                && after.instance_of@[own.section_objects@[k]] == s by {
                let o = own.section_objects@[k];
                assert(self.instance_of@.contains_key(o) && self.instance_of@[o] == s);
                if list.contains(o) {
                    let l = list.index_of(o);
                    assert(self.instance_of@[list[l]] == id);
                }
            }
        }
        assert forall|a: MultiMeshId| #[trigger] after.multi_meshes@.contains_key(a) implies
            after.asset_linked(a, meshes) by {
            assert(self.multi_meshes@.contains_key(a));
            assert(self.asset_linked(a, meshes));
            let values = self.instances.value_by_slot@;
            self.instances.lemma_contains(id);
            let p = self.instances.place(id);
            assert(instance_assets(swap_removed(values, p)) =~= swap_removed(
                instance_assets(values),
                p,
            ));
            lemma_occurrences_swap_removed(instance_assets(values), p, a);
            assert(after.multi_meshes@[a].section_mesh_ids
                == self.multi_meshes@[a].section_mesh_ids);
        }
        assert(after.owners_linked(meshes)) by {
            assert forall|m: MeshId| #[trigger] meshes.contains_key(m) implies match meshes[m].owner {
                Some(a) => after.multi_meshes@.contains_key(a)
                    && after.multi_meshes@[a].section_mesh_ids@.contains(m),
                None => true,
            } by {}
        }
    }
}

pub(crate) proof fn lemma_push_contains<T>(s: Seq<T>, v: T, x: T)
    ensures
        s.push(v).contains(x) <==> s.contains(x) || x == v,
{
    if s.contains(x) {
        assert(s.push(v)[s.index_of(x)] == x);
    }
    if v == x {
        assert(s.push(v)[s.len() as int] == x);
    }
    if s.push(v).contains(x) {
        let i = s.push(v).index_of(x);
        if i < s.len() {
            assert(s[i] == x);
        }
    }
}

} // verus!
