//! Sectioned meshes and their placed instances in the scene.
use vstd::prelude::*;

use crate::actors::SceneActorId;
use crate::counting::{lemma_occurrences_push, occurrences};
use crate::draws::MeshSlice;
use crate::errors::{invalid, Result, SceneError};
use crate::float_bits::F32;
use crate::groups::GroupMask;
use crate::handles::{Entity, MaterialId, MeshId, MultiMeshId, ObjectId, SectionedInstanceId};
use crate::materials::MaterialRecord;
use crate::objects::{
    moved_record, object_movability, object_record, ObjectDescriptor, ObjectRecord, Objects,
};
use crate::references::{mesh_uses, owner_uses, MeshRecord};
use crate::rows::{Movability, NewRow};
use crate::scene::Scene;
use crate::sectioned::{MultiMeshRecord, Sections};
use crate::sparse_set::swap_removed;

verus! {

/// Flags of a section: it casts and receives shadows.
pub const SECTION_FLAGS: u32 = 3;

/// What a placed instance shares among its sections.
#[derive(Clone, Copy, Debug)]
pub struct SectionPlacement {
    pub transform: [F32; 16],
    /// Inverse transpose of the transform's linear part, padded.
    pub normal_mat: [F32; 12],
    pub bounds: [F32; 4],
    pub movability: Option<Movability>,
}

/// What one section of a placed instance is made of.
pub open spec fn section_descriptor(
    mesh: MeshId,
    material: MaterialId,
    placement: SectionPlacement,
) -> ObjectDescriptor {
    ObjectDescriptor {
        mesh,
        material,
        transform: placement.transform,
        bounds: placement.bounds,
        flags: SECTION_FLAGS,
        groups: GroupMask(0),
        movability: placement.movability,
        user_tag: 0,
    }
}

/// The objects that stand for the sections.
pub open spec fn section_ids(rows: Seq<NewRow>) -> Seq<ObjectId> {
    rows.map_values(|r: NewRow| ObjectId(r.entity))
}

/// Every material of the list is live.
pub open spec fn all_live(materials: Map<MaterialId, MaterialRecord>, list: Seq<MaterialId>) -> bool {
    forall|k: int| 0 <= k < list.len() ==> materials.contains_key(#[trigger] list[k])
}

/// Materials after each was used once more per occurrence in `list`.
pub open spec fn materials_used(
    before: Map<MaterialId, MaterialRecord>,
    after: Map<MaterialId, MaterialRecord>,
    list: Seq<MaterialId>,
) -> bool {
    &&& after.dom() == before.dom()
    &&& forall|m: MaterialId| #[trigger]
        after.contains_key(m) ==> after[m].ref_count == before[m].ref_count + occurrences(list, m)
            && after[m] == (MaterialRecord { ref_count: after[m].ref_count, ..before[m] })
}

/// Meshes after each was used once more per occurrence in `list`.
pub open spec fn meshes_used(
    before: Map<MeshId, MeshRecord>,
    after: Map<MeshId, MeshRecord>,
    list: Seq<MeshId>,
) -> bool {
    &&& after.dom() == before.dom()
    &&& forall|m: MeshId| #[trigger]
        after.contains_key(m) ==> after[m].ref_count == before[m].ref_count + occurrences(list, m)
            && after[m] == (MeshRecord { ref_count: after[m].ref_count, ..before[m] })
}

impl Scene {
    /// The meshes of a live sectioned mesh, in section order.
    pub fn sectioned_section_mesh_ids(&self, id: MultiMeshId) -> (ids: Option<&Vec<MeshId>>)
        requires
            self.wf(),
        ensures
            match ids {
                Some(list) => self.sections.multi_meshes@.contains_key(id) && *list
                    == self.sections.multi_meshes@[id].section_mesh_ids,
                None => !self.sections.multi_meshes@.contains_key(id),
            },
    {
        match self.sections.multi_meshes.get(id) {
            Some(record) => Some(&record.section_mesh_ids),
            None => None,
        }
    }

    /// Registers a sectioned mesh whose sections were uploaded. Each section is a
    /// mesh that the asset owns; its reference is released with the asset alone.
    #[verifier::spinoff_prover]
    pub fn insert_sectioned_mesh(&mut self, entity: Entity, sections: &Vec<(Entity, MeshSlice)>) -> (id:
        MultiMeshId)
        requires
            old(self).wf(),
            !old(self).sections.multi_meshes.occupies(entity.index),
            entity.index < usize::MAX,
            old(self).sections.multi_meshes.spec_len() < u32::MAX,
            old(self).meshes.spec_len() + sections@.len() <= u32::MAX,
            forall|k: int|
                0 <= k < sections@.len() ==> !old(self).meshes.occupies(
                    (#[trigger] sections@[k]).0.index,
                ) && sections@[k].0.index < usize::MAX,
            forall|k: int, l: int|
                0 <= k < l < sections@.len() ==> (#[trigger] sections@[k]).0.index != (
                #[trigger] sections@[l]).0.index,
        ensures
            final(self).wf(),
            id == MultiMeshId(entity),
            *final(self) == (Scene {
                meshes: final(self).meshes,
                sections: final(self).sections,
                ..*old(self)
            }),
            final(self).sections == (Sections {
                multi_meshes: final(self).sections.multi_meshes,
                ..old(self).sections
            }),
            final(self).sections.multi_meshes.id_by_slot@ == old(
                self,
            ).sections.multi_meshes.id_by_slot@.push(id),
            ({
                let record = final(self).sections.multi_meshes@[id];
                &&& final(self).sections.multi_meshes@ == old(
                    self,
                ).sections.multi_meshes@.insert(id, record)
                &&& record.ref_count == 0
                &&& record.section_mesh_ids@ == sections@.map_values(
                    |s: (Entity, MeshSlice)| MeshId(s.0),
                )
            }),
            forall|m: MeshId|
                #[trigger] final(self).meshes@.contains_key(m) <==> old(self).meshes@.contains_key(m)
                    || exists|k: int| 0 <= k < sections@.len() && MeshId((#[trigger] sections@[k]).0)
                    == m,
            forall|m: MeshId| #[trigger]
                old(self).meshes@.contains_key(m) ==> final(self).meshes@[m] == old(
                    self,
                ).meshes@[m],
            forall|k: int|
                0 <= k < sections@.len() ==> final(self).meshes@[MeshId(
                    (#[trigger] sections@[k]).0,
                )] == (MeshRecord { slice: sections@[k].1, ref_count: 1, owner: Some(id) }),
    {
        let id = MultiMeshId(entity);
        let ghost before = *self;
        let ghost ids = sections@.map_values(|s: (Entity, MeshSlice)| MeshId(s.0));
        let mut list: Vec<MeshId> = Vec::new();
        let mut k: usize = 0;
        while k < sections.len()
            invariant
                0 <= k <= sections@.len(),
                before.wf(),
                id == MultiMeshId(entity),
                ids == sections@.map_values(|s: (Entity, MeshSlice)| MeshId(s.0)),
                *self == (Scene { meshes: self.meshes, ..before }),
                self.meshes.wf(),
                self.meshes.spec_len() == before.meshes.spec_len() + k,
                before.meshes.spec_len() + sections@.len() <= u32::MAX,
                list@ =~= ids.take(k as int),
                forall|a: int|
                    0 <= a < sections@.len() ==> !before.meshes.occupies(
                        (#[trigger] sections@[a]).0.index,
                    ) && sections@[a].0.index < usize::MAX,
                forall|a: int, b: int|
                    0 <= a < b < sections@.len() ==> (#[trigger] sections@[a]).0.index != (
                    #[trigger] sections@[b]).0.index,
                forall|index: u32| #[trigger]
                    self.meshes.occupies(index) ==> before.meshes.occupies(index) || exists|a: int|
                        0 <= a < k && (#[trigger] sections@[a]).0.index == index,
                forall|m: MeshId| #[trigger]
                    before.meshes@.contains_key(m) ==> self.meshes@.contains_key(m)
                        && self.meshes@[m] == before.meshes@[m],
                forall|a: int|
                    0 <= a < k ==> self.meshes@.contains_key(#[trigger] ids[a])
                        && self.meshes@[ids[a]] == (MeshRecord {
                        slice: sections@[a].1,
                        ref_count: 1,
                        owner: Some(id),
                    }),
                forall|m: MeshId| #[trigger]
                    self.meshes@.contains_key(m) ==> before.meshes@.contains_key(m) || exists|a: int|
                        0 <= a < k && #[trigger] ids[a] == m,
            decreases sections@.len() - k,
        {
            let (section, slice) = sections[k];
            let mesh = MeshId(section);
            proof {
                if self.meshes.occupies(section.index) {
                    let a = choose|a: int|
                        0 <= a < k && (#[trigger] sections@[a]).0.index == section.index;
                    assert(sections@[a].0.index != sections@[k as int].0.index);
                }
                assert(!self.meshes@.contains_key(mesh));
                assert(ids[k as int] == mesh);
            }
            let ghost prior = *self;
            self.meshes.insert(mesh, MeshRecord { slice, ref_count: 1, owner: Some(id) });
            list.push(mesh);
            proof {
                assert forall|index: u32| #[trigger]
                    self.meshes.occupies(index) implies before.meshes.occupies(index)
                    || exists|a: int| 0 <= a < k + 1 && (#[trigger] sections@[a]).0.index
                    == index by {
                    if prior.meshes.occupies(index) && !before.meshes.occupies(index) {
                        let a = choose|a: int|
                            0 <= a < k && (#[trigger] sections@[a]).0.index == index;
                        assert(sections@[a].0.index == index);
                    }
                    if index == section.index {
                        assert(sections@[k as int].0.index == index);
                    }
                }
                assert forall|a: int| 0 <= a < k + 1 implies self.meshes@.contains_key(
                    #[trigger] ids[a],
                ) && self.meshes@[ids[a]] == (MeshRecord {
                    slice: sections@[a].1,
                    ref_count: 1,
                    owner: Some(id),
                }) by {
                    if a < k {
                        assert(prior.meshes@.contains_key(ids[a]));
                        assert(ids[a] != mesh);
                    }
                }
                assert forall|m: MeshId| #[trigger] self.meshes@.contains_key(m) implies
                    before.meshes@.contains_key(m) || exists|a: int|
                    0 <= a < k + 1 && #[trigger] ids[a] == m by {
                    if m == mesh {
                        assert(ids[k as int] == m);
                    } else {
                        assert(prior.meshes@.contains_key(m));
                        if !before.meshes@.contains_key(m) {
                            let a = choose|a: int| 0 <= a < k && #[trigger] ids[a] == m;
                            assert(ids[a] == m);
                        }
                    }
                }
            }
            k = k + 1;
        }
        assert(ids.take(k as int) =~= ids);
        self.sections.multi_meshes.insert(
            id,
            MultiMeshRecord { section_mesh_ids: list, ref_count: 0 },
        );
        proof {
            before.lemma_sectioned_mesh_added(*self, id, ids);
            assert forall|m: MeshId|
                #[trigger] self.meshes@.contains_key(m) <==> before.meshes@.contains_key(m)
                    || exists|a: int| 0 <= a < sections@.len() && MeshId(
                    (#[trigger] sections@[a]).0,
                ) == m by {
                if self.meshes@.contains_key(m) && !before.meshes@.contains_key(m) {
                    let a = choose|a: int| 0 <= a < k && #[trigger] ids[a] == m;
                    assert(MeshId(sections@[a].0) == m);
                }
                if exists|a: int| 0 <= a < sections@.len() && MeshId((#[trigger] sections@[a]).0)
                    == m {
                    let a = choose|a: int|
                        0 <= a < sections@.len() && MeshId((#[trigger] sections@[a]).0) == m;
                    assert(ids[a] == m);
                }
            }
            assert forall|a: int| 0 <= a < sections@.len() implies self.meshes@[MeshId(
                (#[trigger] sections@[a]).0,
            )] == (MeshRecord { slice: sections@[a].1, ref_count: 1, owner: Some(id) }) by {
                assert(ids[a] == MeshId(sections@[a].0));
            }
        }
        id
    }

    proof fn lemma_sectioned_mesh_added(self, after: Scene, id: MultiMeshId, ids: Seq<MeshId>)
        requires
            self.wf(),
            after == (Scene { meshes: after.meshes, sections: after.sections, ..self }),
            after.sections == (Sections {
                multi_meshes: after.sections.multi_meshes,
                ..self.sections
            }),
            after.meshes.wf(),
            after.sections.multi_meshes.wf(),
            !self.sections.multi_meshes.occupies(id.0.index),
            after.sections.multi_meshes@ == self.sections.multi_meshes@.insert(
                id,
                after.sections.multi_meshes@[id],
            ),
            after.sections.multi_meshes@[id].ref_count == 0,
            after.sections.multi_meshes@[id].section_mesh_ids@ == ids,
            forall|a: int| 0 <= a < ids.len() ==> !self.meshes.occupies((#[trigger] ids[a]).0.index),
            forall|a: int, b: int|
                0 <= a < b < ids.len() ==> (#[trigger] ids[a]).0.index != (
                #[trigger] ids[b]).0.index,
            forall|m: MeshId| #[trigger]
                self.meshes@.contains_key(m) ==> after.meshes@.contains_key(m) && after.meshes@[m]
                    == self.meshes@[m],
            forall|a: int|
                0 <= a < ids.len() ==> after.meshes@.contains_key(#[trigger] ids[a])
                    && after.meshes@[ids[a]].ref_count == 1 && after.meshes@[ids[a]].owner == Some(
                    id,
                ),
            forall|m: MeshId| #[trigger]
                after.meshes@.contains_key(m) ==> self.meshes@.contains_key(m) || exists|a: int|
                    0 <= a < ids.len() && #[trigger] ids[a] == m,
        ensures
            after.wf(),
    {
        let values = self.objects.spec_values();
        assert forall|m: MeshId| #[trigger] after.meshes@.contains_key(m) implies
            after.meshes@[m].ref_count == mesh_uses(values, m) + owner_uses(after.meshes@[m]) by {
            if !self.meshes@.contains_key(m) {
                let a = choose|a: int| 0 <= a < ids.len() && #[trigger] ids[a] == m;
                assert(ids[a] == m);
                assert(mesh_uses(values, m) == 0);
            }
        }
        assert forall|m: MeshId| #[trigger] mesh_uses(values, m) > 0 implies
            after.meshes@.contains_key(m) by {
            assert(self.meshes@.contains_key(m));
        }
        let before = self.sections;
        let now = after.sections;
        assert(!before.multi_meshes@.contains_key(id));
        assert forall|s: SectionedInstanceId| #[trigger] now.instances@.contains_key(s) implies
            now.instance_linked(s) by {
            assert(before.instance_linked(s));
        }
        assert forall|a: MultiMeshId| #[trigger] now.multi_meshes@.contains_key(a) implies
            now.asset_linked(a, after.meshes@) by {
            if a == id {
                assert(occurrences(
                    crate::sectioned::instance_assets(now.instances.value_by_slot@),
                    id,
                ) == 0) by {
                    crate::counting::lemma_occurrences_positive(
                        crate::sectioned::instance_assets(now.instances.value_by_slot@),
                        id,
                    );
                    let assets = crate::sectioned::instance_assets(now.instances.value_by_slot@);
                    if assets.contains(id) {
                        let p = assets.index_of(id);
                        before.instances.lemma_dense(p);
                        assert(before.instance_linked(before.instances.id_by_slot@[p]));
                    }
                }
                assert(ids.no_duplicates()) by {
                    assert forall|x: int, y: int|
                        0 <= x < ids.len() && 0 <= y < ids.len() && x != y implies ids[x]
                        != ids[y] by {
                        if x < y {
                            assert(ids[x].0.index != ids[y].0.index);
                        } else {
                            assert(ids[y].0.index != ids[x].0.index);
                        }
                    }
                }
                let record = now.multi_meshes@[id];
                assert forall|k: int| 0 <= k < record.section_mesh_ids@.len() implies
                    after.meshes@.contains_key(#[trigger] record.section_mesh_ids@[k])
                    && after.meshes@[record.section_mesh_ids@[k]].owner == Some(id) by {
                    assert(ids[k] == record.section_mesh_ids@[k]);
                }
            } else {
                assert(before.asset_linked(a, self.meshes@));
                let record = now.multi_meshes@[a];
                assert forall|k: int| 0 <= k < record.section_mesh_ids@.len() implies
                    after.meshes@.contains_key(#[trigger] record.section_mesh_ids@[k])
                    && after.meshes@[record.section_mesh_ids@[k]].owner == Some(a) by {
                    assert(self.meshes@.contains_key(record.section_mesh_ids@[k]));
                }
            }
        }
        assert(now.owners_linked(after.meshes@)) by {
            assert forall|m: MeshId| #[trigger] after.meshes@.contains_key(m) implies match
                after.meshes@[m].owner {
                Some(a) => now.multi_meshes@.contains_key(a)
                    && now.multi_meshes@[a].section_mesh_ids@.contains(m),
                None => true,
            } by {
                if !self.meshes@.contains_key(m) {
                    let k = choose|k: int| 0 <= k < ids.len() && #[trigger] ids[k] == m;
                    assert(ids[k] == m);
                }
            }
        }
    }

    /// Removes a sectioned mesh that is placed nowhere and whose sections nothing
    /// else uses. Either all of it goes or nothing does.
    #[verifier::spinoff_prover]
    pub fn remove_sectioned_mesh(&mut self, id: MultiMeshId) -> (result: Result<()>)
        requires
            old(self).wf(),
        ensures
            final(self).wf(),
            result == if !old(self).sections.multi_meshes@.contains_key(id) {
                Err::<(), _>(SceneError::InvalidHandle { resource: "multi_mesh" })
            } else if old(self).sections.multi_meshes@[id].ref_count > 0 {
                Err(SceneError::ResourceInUse { resource: "multi_mesh" })
            } else if !old(self).sections_unused(id) {
                Err(SceneError::ResourceInUse { resource: "sectioned mesh section" })
            } else {
                Ok(())
            },
            if result is Ok {
                &&& *final(self) == (Scene {
                    meshes: final(self).meshes,
                    sections: final(self).sections,
                    ..*old(self)
                })
                &&& final(self).sections == (Sections {
                    multi_meshes: final(self).sections.multi_meshes,
                    ..old(self).sections
                })
                &&& final(self).sections.multi_meshes@ == old(
                    self,
                ).sections.multi_meshes@.remove(id)
                &&& final(self).sections.multi_meshes.id_by_slot@ == swap_removed(
                    old(self).sections.multi_meshes.id_by_slot@,
                    old(self).sections.multi_meshes.place(id),
                )
                &&& final(self).meshes@ == old(self).meshes@.remove_keys(
                    old(self).sections.multi_meshes@[id].section_mesh_ids@.to_set(),
                )
            } else {
                *final(self) == *old(self)
            },
    {
        let ghost before = *self;
        match self.sections.multi_meshes.get(id) {
            Some(record) => {
                if record.ref_count > 0 {
                    return Err(SceneError::ResourceInUse { resource: "multi_mesh" });
                }
            },
            None => {
                return Err(invalid("multi_mesh"));
            },
        }
        proof {
            assert(self.sections.asset_linked(id, self.meshes@));
            self.sections.multi_meshes.lemma_contains(id);
        }
        let place: usize = match self.sections.multi_meshes.slot(id) {
            Some(place) => place,
            None => {
                assert(false);
                0
            },
        };
        let ghost ids = self.sections.multi_meshes@[id].section_mesh_ids@;
        assert(self.sections.multi_meshes.value_by_slot@[place as int].section_mesh_ids@ == ids);
        let mut k: usize = 0;
        while k < self.sections.multi_meshes.value_by_slot[place].section_mesh_ids.len()
            invariant
                0 <= k <= ids.len(),
                *self == before,
                *old(self) == before,
                before.wf(),
                place < self.sections.multi_meshes.value_by_slot@.len(),
                ids == self.sections.multi_meshes@[id].section_mesh_ids@,
                self.sections.multi_meshes@.contains_key(id),
                self.sections.multi_meshes@[id].ref_count == 0,
                self.sections.multi_meshes.value_by_slot@[place as int].section_mesh_ids@ == ids,
                forall|j: int| 0 <= j < k ==> self.meshes@[#[trigger] ids[j]].ref_count == 1,
            decreases ids.len() - k,
        {
            let mesh: MeshId =
                self.sections.multi_meshes.value_by_slot[place].section_mesh_ids[k];
            proof {
                assert(self.sections.asset_linked(id, self.meshes@));
                assert(self.meshes@.contains_key(ids[k as int]));
            }
            match self.meshes.get(mesh) {
                Some(record) => {
                    if record.ref_count != 1 {
                        assert(!self.sections_unused(id)) by {
                            assert(self.meshes@[ids[k as int]].ref_count != 1);
                        }
                        return Err(SceneError::ResourceInUse { resource: "sectioned mesh section" });
                    }
                },
                None => {
                    return Err(invalid("mesh"));
                },
            }
            k = k + 1;
        }
        assert(self.sections_unused(id));
        let placeholder = MultiMeshRecord { section_mesh_ids: Vec::new(), ref_count: 0 };
        let record: MultiMeshRecord = self.sections.multi_meshes.replace(id, placeholder);
        self.sections.multi_meshes.remove(id);
        assert(self.sections.multi_meshes@ =~= before.sections.multi_meshes@.remove(id));
        let list: Vec<MeshId> = record.section_mesh_ids;
        let ghost middle = *self;
        let mut k: usize = 0;
        while k < list.len()
            invariant
                0 <= k <= list@.len(),
                *self == (Scene { meshes: self.meshes, ..middle }),
                self.meshes.wf(),
                self.meshes@ == before.meshes@.remove_keys(list@.take(k as int).to_set()),
            decreases list@.len() - k,
        {
            let ghost seen = list@.take(k as int);
            let ghost next = list@.take(k + 1);
            self.meshes.remove(list[k]);
            proof {
                assert(next =~= seen.push(list@[k as int]));
                assert forall|x: MeshId| #[trigger] next.contains(x) <==> seen.contains(x) || x
                    == list@[k as int] by {
                    crate::sectioned::lemma_push_contains(seen, list@[k as int], x);
                }
                assert(self.meshes@ =~= before.meshes@.remove_keys(next.to_set()));
            }
            k = k + 1;
        }
        assert(list@.take(k as int) =~= list@);
        proof {
            before.lemma_sectioned_mesh_removed(*self, id);
        }
        Ok(())
    }

    /// The asset alone uses its sections.
    pub open spec fn sections_unused(&self, id: MultiMeshId) -> bool {
        let ids = self.sections.multi_meshes@[id].section_mesh_ids@;
        forall|k: int| 0 <= k < ids.len() ==> self.meshes@[#[trigger] ids[k]].ref_count == 1
    }

    proof fn lemma_sectioned_mesh_removed(self, after: Scene, id: MultiMeshId)
        requires
            self.wf(),
            self.sections.multi_meshes@.contains_key(id),
            self.sections.multi_meshes@[id].ref_count == 0,
            self.sections_unused(id),
            after == (Scene { meshes: after.meshes, sections: after.sections, ..self }),
            after.sections == (Sections {
                multi_meshes: after.sections.multi_meshes,
                ..self.sections
            }),
            after.meshes.wf(),
            after.sections.multi_meshes.wf(),
            after.sections.multi_meshes@ == self.sections.multi_meshes@.remove(id),
            after.meshes@ == self.meshes@.remove_keys(
                self.sections.multi_meshes@[id].section_mesh_ids@.to_set(),
            ),
        ensures
            after.wf(),
    {
        let values = self.objects.spec_values();
        let before = self.sections;
        let now = after.sections;
        let ids = before.multi_meshes@[id].section_mesh_ids@;
        assert(before.asset_linked(id, self.meshes@));
        assert forall|m: MeshId| #[trigger] after.meshes@.contains_key(m) implies
            after.meshes@[m].ref_count == mesh_uses(values, m) + owner_uses(after.meshes@[m]) by {
            assert(self.meshes@.contains_key(m));
        }
        assert forall|m: MeshId| #[trigger] mesh_uses(values, m) > 0 implies
            after.meshes@.contains_key(m) by {
            assert(self.meshes@.contains_key(m));
            if ids.contains(m) {
                let k = ids.index_of(m);
                assert(self.meshes@[ids[k]].ref_count == 1);
                assert(self.meshes@[ids[k]].owner == Some(id));
            }
        }
        assert forall|s: SectionedInstanceId| #[trigger] now.instances@.contains_key(s) implies
            now.instance_linked(s) by {
            assert(before.instance_linked(s));
            before.instances.lemma_contains(s);
            let p = before.instances.place(s);
            let assets = crate::sectioned::instance_assets(before.instances.value_by_slot@);
            assert(assets[p] == before.instances@[s].multi_mesh);
            assert(assets.contains(before.instances@[s].multi_mesh));
            crate::counting::lemma_occurrences_positive(assets, before.instances@[s].multi_mesh);
        }
        assert forall|a: MultiMeshId| #[trigger] now.multi_meshes@.contains_key(a) implies
            now.asset_linked(a, after.meshes@) by {
            assert(before.asset_linked(a, self.meshes@));
            let record = now.multi_meshes@[a];
            assert forall|k: int| 0 <= k < record.section_mesh_ids@.len() implies
                after.meshes@.contains_key(#[trigger] record.section_mesh_ids@[k])
                && after.meshes@[record.section_mesh_ids@[k]].owner == Some(a) by {
                let m = record.section_mesh_ids@[k];
                assert(self.meshes@.contains_key(m));
                if ids.contains(m) {
                    let l = ids.index_of(m);
                    assert(self.meshes@[ids[l]].owner == Some(id));
                }
            }
        }
        assert(now.owners_linked(after.meshes@)) by {
            assert forall|m: MeshId| #[trigger] after.meshes@.contains_key(m) implies match
                after.meshes@[m].owner {
                Some(a) => now.multi_meshes@.contains_key(a)
                    && now.multi_meshes@[a].section_mesh_ids@.contains(m),
                None => true,
            } by {
                assert(self.meshes@.contains_key(m));
            }
        }
    }

    /// Why an instance cannot be placed, if it cannot.
    pub open spec fn placement_error(&self, multi_mesh: MultiMeshId, materials: Seq<MaterialId>) -> Option<
        SceneError,
    > {
        if !self.sections.multi_meshes@.contains_key(multi_mesh) {
            Some(SceneError::InvalidHandle { resource: "multi_mesh" })
        } else if self.sections.multi_meshes@[multi_mesh].section_mesh_ids@.len()
            != materials.len() {
            Some(
                SceneError::InvalidHandle {
                    resource: "material count must match mesh section count",
                },
            )
        } else if self.sections.multi_meshes@[multi_mesh].ref_count == u32::MAX {
            Some(
                SceneError::InvalidOperation {
                    reason: "sectioned mesh instance reference count overflow",
                },
            )
        } else if !all_live(self.materials@, materials) {
            Some(SceneError::InvalidHandle { resource: "material" })
        } else {
            None
        }
    }

    /// Fresh rows for one object per section, and a fresh instance.
    pub open spec fn instance_fits(&self, entity: Entity, rows: Seq<NewRow>) -> bool {
        &&& !self.sections.instances.occupies(entity.index)
        &&& entity.index < usize::MAX
        &&& self.sections.instances.spec_len() < u32::MAX
        &&& self.material_user_count() + rows.len() < u32::MAX
        &&& forall|k: int|
            0 <= k < rows.len() ==> !self.objects.records.occupies(
                (#[trigger] rows[k]).entity.index,
            ) && rows[k].entity.index < usize::MAX
        &&& forall|k: int, l: int|
            0 <= k < l < rows.len() ==> (#[trigger] rows[k]).entity.index != (
            #[trigger] rows[l]).entity.index
    }

    /// `after` is `self` with the first `n` sections of an instance as objects.
    pub open spec fn sections_placed(
        &self,
        after: &Scene,
        rows: Seq<NewRow>,
        meshes: Seq<MeshId>,
        materials: Seq<MaterialId>,
        placement: SectionPlacement,
        n: int,
    ) -> bool {
        let ids = section_ids(rows.take(n));
        let fixed = object_movability(placement.movability) != Movability::Movable;
        &&& *after == (Scene {
            objects: after.objects,
            materials: after.materials,
            meshes: after.meshes,
            sections: after.sections,
            bake_invalidated: self.bake_invalidated || (n > 0 && fixed),
            ..*self
        })
        &&& after.objects == (Objects {
            records: after.objects.records,
            projection_slots: after.objects.projection_slots,
            dirty: self.objects.dirty || n > 0,
            static_dirty: self.objects.static_dirty || (n > 0 && fixed),
            ..self.objects
        })
        &&& after.objects.records.id_by_slot@ == self.objects.records.id_by_slot@ + ids
        &&& after.objects.records.value_by_slot@.len() == self.objects.records.value_by_slot@.len()
            + n
        &&& forall|i: int|
            0 <= i < self.objects.records.value_by_slot@.len()
                ==> #[trigger] after.objects.records.value_by_slot@[i]
                == self.objects.records.value_by_slot@[i]
        &&& forall|k: int|
            0 <= k < n
                ==> #[trigger] after.objects.records.value_by_slot@[self.objects.records.value_by_slot@.len()
                + k] == object_record(
                section_descriptor(meshes[k], materials[k], placement),
                placement.normal_mat,
                self.materials@[materials[k]].gpu_row,
                rows[k].gpu_row,
            )
        &&& materials_used(self.materials@, after.materials@, materials.take(n))
        &&& after.materials.id_by_slot == self.materials.id_by_slot
        &&& meshes_used(self.meshes@, after.meshes@, meshes.take(n))
        &&& after.meshes.id_by_slot == self.meshes.id_by_slot
    }

    /// What placing an instance comes to.
    pub open spec fn instance_placed(
        &self,
        after: &Scene,
        entity: Entity,
        rows: Seq<NewRow>,
        multi_mesh: MultiMeshId,
        materials: Seq<MaterialId>,
        placement: SectionPlacement,
        result: Result<SectionedInstanceId>,
    ) -> bool {
        let id = SectionedInstanceId(entity);
        let meshes = self.sections.multi_meshes@[multi_mesh].section_mesh_ids@;
        match self.placement_error(multi_mesh, materials) {
            Some(error) => result == Err::<SectionedInstanceId, _>(error) && *after == *self,
            None => {
                let list = after.sections.instances@[id].section_objects;
                &&& result == Ok::<_, SceneError>(id)
                &&& self.sections_placed(
                    after,
                    rows,
                    meshes,
                    materials,
                    placement,
                    materials.len() as int,
                )
                &&& list@ == section_ids(rows.take(materials.len() as int))
                &&& self.sections.instance_added(&after.sections, id, list, multi_mesh)
            },
        }
    }

    /// Places an instance of a sectioned mesh: one object per section, each with
    /// its own material. Nothing changes if anything is amiss.
    #[verifier::spinoff_prover]
    #[verifier::rlimit(40)]
    pub fn insert_sectioned_object(
        &mut self,
        entity: Entity,
        rows: &Vec<NewRow>,
        multi_mesh: MultiMeshId,
        materials: &Vec<MaterialId>,
        placement: SectionPlacement,
    ) -> (result: Result<SectionedInstanceId>)
        requires
            old(self).wf(),
            old(self).instance_fits(entity, rows@),
            materials@.len() <= rows@.len(),
        ensures
            final(self).wf(),
            old(self).instance_placed(
                final(self),
                entity,
                rows@,
                multi_mesh,
                materials@,
                placement,
                result,
            ),
    {
        let ghost before = *self;
        let ghost meshes = self.sections.multi_meshes@[multi_mesh].section_mesh_ids@;
        match self.sections.multi_meshes.get(multi_mesh) {
            Some(record) => {
                if record.section_mesh_ids.len() != materials.len() {
                    return Err(invalid("material count must match mesh section count"));
                }
                if record.ref_count == u32::MAX {
                    return Err(
                        SceneError::InvalidOperation {
                            reason: "sectioned mesh instance reference count overflow",
                        },
                    );
                }
            },
            None => {
                return Err(invalid("multi_mesh"));
            },
        }
        proof {
            assert(self.sections.asset_linked(multi_mesh, self.meshes@));
            self.sections.multi_meshes.lemma_contains(multi_mesh);
        }
        let place: usize = match self.sections.multi_meshes.slot(multi_mesh) {
            Some(place) => place,
            None => {
                assert(false);
                0
            },
        };
        let mut k: usize = 0;
        while k < materials.len()
            invariant
                0 <= k <= materials@.len(),
                *self == before,
                before.wf(),
                forall|j: int|
                    0 <= j < k ==> before.materials@.contains_key(#[trigger] materials@[j]),
            ensures
                k == materials@.len() ==> all_live(before.materials@, materials@),
                *self == before,
                k < materials@.len() ==> !all_live(before.materials@, materials@),
            decreases materials@.len() - k,
        {
            if !self.materials.is_live(materials[k]) {
                assert(!before.materials@.contains_key(materials@[k as int]));
                break;
            }
            k = k + 1;
        }
        if k < materials.len() {
            return Err(invalid("material"));
        }
        let mut list: Vec<ObjectId> = Vec::new();
        let mut k: usize = 0;
        proof {
            assert(section_ids(rows@.take(0)) =~= Seq::<ObjectId>::empty());
            assert(before.objects.records.id_by_slot@ + section_ids(rows@.take(0))
                =~= before.objects.records.id_by_slot@);
        }
        while k < materials.len()
            invariant
                0 <= k <= materials@.len() <= rows@.len(),
                materials@.len() == meshes.len(),
                self.wf(),
                before.wf(),
                meshes == before.sections.multi_meshes@[multi_mesh].section_mesh_ids@,
                before.sections.multi_meshes@.contains_key(multi_mesh),
                place < before.sections.multi_meshes.value_by_slot@.len(),
                before.sections.multi_meshes.value_by_slot@[place as int].section_mesh_ids@
                    == meshes,
                self.sections == before.sections,
                before.instance_fits(entity, rows@),
                all_live(before.materials@, materials@),
                list@ == section_ids(rows@.take(k as int)),
                before.sections_placed(self, rows@, meshes, materials@, placement, k as int),
                forall|index: u32| #[trigger]
                    self.objects.records.occupies(index) ==> before.objects.records.occupies(index)
                        || exists|a: int|
                        0 <= a < k && (#[trigger] rows@[a]).entity.index == index,
            decreases materials@.len() - k,
        {
            let mesh: MeshId =
                self.sections.multi_meshes.value_by_slot[place].section_mesh_ids[k];
            let desc = ObjectDescriptor {
                mesh,
                material: materials[k],
                transform: placement.transform,
                bounds: placement.bounds,
                flags: SECTION_FLAGS,
                groups: GroupMask::none(),
                movability: placement.movability,
                user_tag: 0,
            };
            let row: NewRow = rows[k];
            let ghost prior = *self;
            proof {
                if self.objects.records.occupies(row.entity.index) {
                    assert(!before.objects.records.occupies(rows@[k as int].entity.index));
                    let a = choose|a: int|
                        0 <= a < k && (#[trigger] rows@[a]).entity.index == row.entity.index;
                    assert(rows@[a].entity.index != rows@[k as int].entity.index);
                }
                assert(before.sections.asset_linked(multi_mesh, before.meshes@));
                assert(before.meshes@.contains_key(meshes[k as int]));
                assert(self.meshes@.contains_key(mesh));
                assert(before.materials@.contains_key(materials@[k as int]));
                assert(self.materials@.contains_key(materials@[k as int]));
                assert(desc == section_descriptor(mesh, materials@[k as int], placement));
                assert(self.objects.records.spec_len() == before.objects.records.spec_len() + k);
                assert(rows@[k as int].entity.index < usize::MAX);
                crate::references::lemma_material_uses_bounded(
                    self.objects.spec_values(),
                    self.virtual_geometry.spec_values(),
                    self.foliage.spec_types(),
                    materials@[k as int],
                );
                crate::references::lemma_mesh_uses_bounded(self.objects.spec_values(), mesh);
            }
            match self.insert_object(row, desc, placement.normal_mat) {
                Ok(object) => {
                    list.push(object);
                },
                Err(_) => {
                    assert(false);
                },
            }
            proof {
                assert(rows@.take(k + 1) =~= rows@.take(k as int).push(row));
                assert(section_ids(rows@.take(k + 1)) =~= section_ids(rows@.take(k as int)).push(
                    ObjectId(row.entity),
                ));
                assert(before.objects.records.id_by_slot@ + section_ids(rows@.take(k + 1))
                    =~= (before.objects.records.id_by_slot@ + section_ids(
                    rows@.take(k as int),
                )).push(ObjectId(row.entity)));
                before.lemma_one_more_section(
                    prior,
                    *self,
                    rows@,
                    meshes,
                    materials@,
                    placement,
                    k as int,
                );
                assert forall|index: u32| #[trigger]
                    self.objects.records.occupies(index) implies before.objects.records.occupies(
                    index,
                ) || exists|a: int| 0 <= a < k + 1 && (#[trigger] rows@[a]).entity.index
                    == index by {
                    if prior.objects.records.occupies(index) && !before.objects.records.occupies(
                        index,
                    ) {
                        let a = choose|a: int|
                            0 <= a < k && (#[trigger] rows@[a]).entity.index == index;
                        assert(rows@[a].entity.index == index);
                    }
                    if index == row.entity.index {
                        assert(rows@[k as int].entity.index == index);
                    }
                }
            }
            k = k + 1;
        }
        let id = SectionedInstanceId(entity);
        let ghost placed = *self;
        proof {
            assert forall|a: int| 0 <= a < list@.len() implies self.objects.records@.contains_key(
                #[trigger] list@[a],
            ) && !self.sections.instance_of.occupies(list@[a].0.index) && list@[a].0.index
                < usize::MAX by {
                let p = before.objects.records.spec_len() + a;
                assert(self.objects.records.id_by_slot@[p] == list@[a]);
                self.objects.records.lemma_dense(p);
                assert(!before.objects.records.occupies(rows@[a].entity.index));
                before.sections.lemma_free_slots(
                    before.objects.records,
                    before.meshes@,
                    list@[a].0.index,
                );
            }
            assert forall|a: int, b: int| 0 <= a < b < list@.len() implies (
            #[trigger] list@[a]).0.index != (#[trigger] list@[b]).0.index by {
                assert(rows@[a].entity.index != rows@[b].entity.index);
            }
            self.sections.lemma_relation_room(self.objects.records, self.meshes@);
            before.sections.lemma_relation_room(before.objects.records, before.meshes@);
        }
        self.sections.add_instance(
            id,
            list,
            multi_mesh,
            Ghost(self.objects.records@),
            Ghost(self.meshes@),
        );
        Ok(id)
    }

    proof fn lemma_one_more_section(
        self,
        prior: Scene,
        after: Scene,
        rows: Seq<NewRow>,
        meshes: Seq<MeshId>,
        materials: Seq<MaterialId>,
        placement: SectionPlacement,
        k: int,
    )
        requires
            0 <= k < materials.len() <= rows.len(),
            materials.len() == meshes.len(),
            self.sections_placed(&prior, rows, meshes, materials, placement, k),
            prior.object_inserted(
                &after,
                rows[k],
                section_descriptor(meshes[k], materials[k], placement),
                placement.normal_mat,
            ),
            prior.materials@.contains_key(materials[k]),
            prior.meshes@.contains_key(meshes[k]),
            prior.materials@[materials[k]].ref_count < u32::MAX,
            prior.meshes@[meshes[k]].ref_count < u32::MAX,
            after.objects.records.id_by_slot@ == self.objects.records.id_by_slot@ + section_ids(
                rows.take(k + 1),
            ),
        ensures
            self.sections_placed(&after, rows, meshes, materials, placement, k + 1),
    {
        assert(materials.take(k + 1) =~= materials.take(k).push(materials[k]));
        assert(meshes.take(k + 1) =~= meshes.take(k).push(meshes[k]));
        assert(after.materials@.dom() =~= self.materials@.dom());
        assert(after.meshes@.dom() =~= self.meshes@.dom());
        assert forall|m: MaterialId| #[trigger] after.materials@.contains_key(m) implies
            after.materials@[m].ref_count == self.materials@[m].ref_count + occurrences(
            materials.take(k + 1),
            m,
        ) && after.materials@[m] == (MaterialRecord {
            ref_count: after.materials@[m].ref_count,
            ..self.materials@[m]
        }) by {
            assert(prior.materials@.contains_key(m));
            lemma_occurrences_push(materials.take(k), materials[k], m);
        }
        assert forall|m: MeshId| #[trigger] after.meshes@.contains_key(m) implies
            after.meshes@[m].ref_count == self.meshes@[m].ref_count + occurrences(
            meshes.take(k + 1),
            m,
        ) && after.meshes@[m] == (MeshRecord {
            ref_count: after.meshes@[m].ref_count,
            ..self.meshes@[m]
        }) by {
            assert(prior.meshes@.contains_key(m));
            lemma_occurrences_push(meshes.take(k), meshes[k], m);
        }
        let n = self.objects.records.value_by_slot@.len();
        assert forall|j: int| 0 <= j < k + 1 implies #[trigger] after.objects.records.value_by_slot@[n
            + j] == object_record(
            section_descriptor(meshes[j], materials[j], placement),
            placement.normal_mat,
            self.materials@[materials[j]].gpu_row,
            rows[j].gpu_row,
        ) by {
            if j < k {
                assert(prior.objects.records.value_by_slot@[n + j]
                    == after.objects.records.value_by_slot@[n + j]);
            }
        }
        assert forall|i: int|
            0 <= i < n implies #[trigger] after.objects.records.value_by_slot@[i]
            == self.objects.records.value_by_slot@[i] by {
            assert(prior.objects.records.value_by_slot@[i]
                == self.objects.records.value_by_slot@[i]);
        }
    }

    /// `after` is `self` with the sections of an instance elsewhere.
    pub open spec fn sections_moved(
        &self,
        after: &Scene,
        id: SectionedInstanceId,
        transform: [F32; 16],
        normal_mat: [F32; 12],
        result: Result<()>,
    ) -> bool {
        &&& result == if self.sections.instances@.contains_key(id) {
            Ok::<(), SceneError>(())
        } else {
            Err(SceneError::InvalidHandle { resource: "sectioned_instance" })
        }
        &&& if result is Ok {
            let list = self.sections.instances@[id].section_objects@;
            &&& *after == (Scene { objects: after.objects, ..*self })
            &&& after.objects == (Objects {
                records: after.objects.records,
                movable_generation: advanced(
                    self.objects.movable_generation,
                    movable_count(self.objects.records@, list),
                ),
                ..self.objects
            })
            &&& after.objects.records.id_by_slot == self.objects.records.id_by_slot
            &&& after.objects.records@.dom() == self.objects.records@.dom()
            &&& forall|o: ObjectId| #[trigger]
                self.objects.records@.contains_key(o) ==> after.objects.records@[o]
                    == if list.contains(o) {
                    moved_record(self.objects.records@[o], transform, normal_mat)
                } else {
                    self.objects.records@[o]
                }
        } else {
            *after == *self
        }
    }

    /// Moves every section of a placed instance.
    pub fn update_sectioned_object_transform(
        &mut self,
        id: SectionedInstanceId,
        transform: [F32; 16],
        normal_mat: [F32; 12],
    ) -> (result: Result<()>)
        requires
            old(self).wf(),
        ensures
            final(self).wf(),
            old(self).sections_moved(final(self), id, transform, normal_mat, result),
    {
        let place: usize = match self.sections.instances.slot(id) {
            Some(place) => place,
            None => {
                return Err(invalid("sectioned_instance"));
            },
        };
        let ghost before = *self;
        let ghost list = self.sections.instances@[id].section_objects@;
        proof {
            self.sections.instances.lemma_contains(id);
            assert(self.sections.instance_linked(id));
            assert(list.take(0) =~= Seq::<ObjectId>::empty());
        }
        let mut k: usize = 0;
        while k < self.sections.instances.value_by_slot[place].section_objects.len()
            invariant
                0 <= k <= list.len(),
                self.wf(),
                before.wf(),
                before.sections.instances@.contains_key(id),
                place < before.sections.instances.value_by_slot@.len(),
                list == before.sections.instances@[id].section_objects@,
                before.sections.instances.value_by_slot@[place as int].section_objects@ == list,
                before.sections.instance_linked(id),
                *self == (Scene { objects: self.objects, ..before }),
                self.objects == (Objects {
                    records: self.objects.records,
                    movable_generation: advanced(
                        before.objects.movable_generation,
                        movable_count(before.objects.records@, list.take(k as int)),
                    ),
                    ..before.objects
                }),
                self.objects.records.id_by_slot == before.objects.records.id_by_slot,
                self.objects.records@.dom() == before.objects.records@.dom(),
                forall|o: ObjectId| #[trigger]
                    before.objects.records@.contains_key(o) ==> self.objects.records@[o]
                        == if list.take(k as int).contains(o) {
                        moved_record(before.objects.records@[o], transform, normal_mat)
                    } else {
                        before.objects.records@[o]
                    },
            decreases list.len() - k,
        {
            let object: ObjectId = self.sections.instances.value_by_slot[place].section_objects[k];
            let ghost prior = *self;
            let ghost seen = list.take(k as int);
            let ghost next = list.take(k + 1);
            proof {
                assert(before.sections.instance_of@.contains_key(list[k as int]));
                assert(before.objects.records@.contains_key(object));
                assert(!seen.contains(object)) by {
                    if seen.contains(object) {
                        let j = seen.index_of(object);
                        assert(list[j] == list[k as int]);
                    }
                }
                assert(self.objects.records@.contains_key(object));
            }
            match self.update_object_transform(object, transform, normal_mat) {
                Ok(_) => {},
                Err(_) => {
                    assert(false);
                },
            }
            proof {
                assert(next =~= seen.push(object));
                assert(next.drop_last() =~= seen);
                assert forall|x: ObjectId| #[trigger] next.contains(x) <==> seen.contains(x) || x
                    == object by {
                    crate::sectioned::lemma_push_contains(seen, object, x);
                }
                assert(self.objects.records@.dom() =~= before.objects.records@.dom());
                assert forall|o: ObjectId| #[trigger]
                    before.objects.records@.contains_key(o) implies self.objects.records@[o]
                    == if next.contains(o) {
                    moved_record(before.objects.records@[o], transform, normal_mat)
                } else {
                    before.objects.records@[o]
                } by {
                    assert(next.contains(o) <==> seen.contains(o) || o == object);
                }
            }
            k = k + 1;
        }
        assert(list.take(k as int) =~= list);
        Ok(())
    }

    /// `after` is `self` without a placed sectioned mesh, its objects, and the actors that belong to
    /// any of them.
    pub open spec fn sectioned_object_removed(&self, after: &Scene, id: SectionedInstanceId) -> bool {
        let list = self.sections.instances@[id].section_objects@;
        &&& self.sections.instance_taken(&after.sections, id)
        &&& self.objects_taken(after, list)
        &&& self.detached_all(
            object_targets(list).push(SceneActorId::SectionedObject(id)),
            after,
        )
    }

    /// Removes a placed instance with all its objects and the actors that belong
    /// to any of them. The sectioned mesh stays.
    #[verifier::spinoff_prover]
    #[verifier::rlimit(40)]
    pub fn remove_sectioned_object(&mut self, id: SectionedInstanceId) -> (result: Result<()>)
        requires
            old(self).wf(),
        ensures
            final(self).wf(),
            result == if old(self).sections.instances@.contains_key(id) {
                Ok::<(), SceneError>(())
            } else {
                Err(SceneError::InvalidHandle { resource: "sectioned_instance" })
            },
            if result is Ok {
                old(self).sectioned_object_removed(final(self), id)
            } else {
                *final(self) == *old(self)
            },
    {
        if !self.sections.instances.is_live(id) {
            return Err(invalid("sectioned_instance"));
        }
        let ghost before = *self;
        let list: Vec<ObjectId> = self.sections.take_instance(
            id,
            Ghost(self.objects.records@),
            Ghost(self.meshes@),
        );
        let ghost related = self.sections;
        proof {
            assert(before.sections.instance_linked(id));
            assert forall|j: int| 0 <= j < list@.len() implies before.objects.records@.contains_key(
                #[trigger] list@[j],
            ) by {
                assert(before.sections.instance_of@.contains_key(list@[j]));
            }
            let none = list@.take(0);
            assert(none =~= Seq::<ObjectId>::empty());
            assert(before.objects.records@.remove_keys(none.to_set())
                =~= before.objects.records@);
            assert(object_targets(none) =~= Seq::<SceneActorId>::empty());
        }
        let mut k: usize = 0;
        while k < list.len()
            invariant
                0 <= k <= list@.len(),
                self.wf(),
                before.wf(),
                self.sections == related,
                list@.no_duplicates(),
                before.sections.instance_taken(&related, id),
                list@ == before.sections.instances@[id].section_objects@,
                forall|j: int|
                    0 <= j < list@.len() ==> before.objects.records@.contains_key(
                        #[trigger] list@[j],
                    ),
                before.objects_taken(self, list@.take(k as int)),
                before.detached_all(object_targets(list@.take(k as int)), self),
            decreases list@.len() - k,
        {
            let object: ObjectId = list[k];
            let ghost prior = *self;
            let ghost seen = list@.take(k as int);
            let ghost next = list@.take(k + 1);
            proof {
                assert(before.objects.records@.contains_key(list@[k as int]));
                assert(!seen.contains(object)) by {
                    if seen.contains(object) {
                        let j = seen.index_of(object);
                        assert(list@[j] == list@[k as int]);
                    }
                }
                assert(list@.to_set().contains(object)) by {
                    assert(list@.contains(list@[k as int]));
                }
                assert(!related.instance_of@.contains_key(object));
                assert(self.objects.records@.contains_key(object));
                prior.objects.records.lemma_contains(object);
                crate::references::lemma_object_mesh_live(
                    prior.meshes@,
                    prior.objects.spec_values(),
                    prior.objects.records.place(object),
                );
                crate::references::lemma_object_material_live(
                    prior.materials@,
                    prior.objects.spec_values(),
                    prior.virtual_geometry.spec_values(),
                    prior.foliage.spec_types(),
                    prior.objects.records.place(object),
                );
            }
            match self.remove_object(object) {
                Ok(_) => {},
                Err(_) => {
                    assert(false);
                },
            }
            proof {
                assert(next =~= seen.push(object));
                assert(object_targets(next) =~= object_targets(seen).push(
                    SceneActorId::Object(object),
                ));
                before.lemma_detached_one_more(
                    object_targets(seen),
                    &prior,
                    SceneActorId::Object(object),
                    self,
                );
                before.lemma_one_less(prior, *self, seen, object);
            }
            k = k + 1;
        }
        assert(list@.take(k as int) =~= list@);
        let ghost emptied = *self;
        self.detach_actors_for_target(SceneActorId::SectionedObject(id));
        proof {
            before.lemma_detached_one_more(
                object_targets(list@),
                &emptied,
                SceneActorId::SectionedObject(id),
                self,
            );
        }
        Ok(())
    }

    /// `after` is `self` without the objects of `list`, whose assets no longer
    /// count them.
    pub open spec fn objects_taken(&self, after: &Scene, list: Seq<ObjectId>) -> bool {
        let records = self.objects.records@;
        let fixed = some_fixed(records, list);
        &&& *after == (Scene {
            objects: after.objects,
            materials: after.materials,
            meshes: after.meshes,
            sections: after.sections,
            bake_invalidated: self.bake_invalidated || fixed,
            actors: after.actors,
            data: after.data,
            ..*self
        })
        &&& after.objects == (Objects {
            records: after.objects.records,
            projection_slots: after.objects.projection_slots,
            dirty: self.objects.dirty || list.len() > 0,
            static_dirty: self.objects.static_dirty || fixed,
            ..self.objects
        })
        &&& after.objects.records@ == records.remove_keys(list.to_set())
        &&& after.objects.records.spec_len() == self.objects.records.spec_len() - list.len()
        &&& materials_used(after.materials@, self.materials@, listed_materials(records, list))
        &&& after.materials.id_by_slot == self.materials.id_by_slot
        &&& meshes_used(after.meshes@, self.meshes@, listed_meshes(records, list))
        &&& after.meshes.id_by_slot == self.meshes.id_by_slot
    }

    proof fn lemma_one_less(self, prior: Scene, after: Scene, seen: Seq<ObjectId>, object: ObjectId)
        requires
            self.objects_taken(&prior, seen),
            prior.object_removed(&after, object),
            prior.objects.records.wf(),
            prior.objects.records@.contains_key(object),
            after.objects.records.wf(),
            !seen.contains(object),
            self.objects.records@.contains_key(object),
            prior.materials@.contains_key(prior.objects.records@[object].material),
            prior.materials@[prior.objects.records@[object].material].ref_count > 0,
            prior.meshes@.contains_key(prior.objects.records@[object].mesh),
            prior.meshes@[prior.objects.records@[object].mesh].ref_count > 0,
        ensures
            self.objects_taken(&after, seen.push(object)),
    {
        let records = self.objects.records@;
        let next = seen.push(object);
        prior.objects.records.lemma_contains(object);
        assert forall|x: ObjectId| #[trigger] next.contains(x) <==> seen.contains(x) || x
            == object by {
            crate::sectioned::lemma_push_contains(seen, object, x);
        }
        assert(after.objects.records@ =~= records.remove_keys(next.to_set()));
        assert(next.drop_last() =~= seen);
        assert(some_fixed(records, next) == (some_fixed(records, seen)
            || records[object].movability != Movability::Movable)) by {
            if some_fixed(records, seen) {
                let j = choose|j: int|
                    0 <= j < seen.len() && records[#[trigger] seen[j]].movability
                        != Movability::Movable;
                assert(next[j] == seen[j]);
            }
            if records[object].movability != Movability::Movable {
                assert(next[seen.len() as int] == object);
            }
            if some_fixed(records, next) {
                let j = choose|j: int|
                    0 <= j < next.len() && records[#[trigger] next[j]].movability
                        != Movability::Movable;
                if j < seen.len() {
                    assert(seen[j] == next[j]);
                }
            }
        }
        let record = records[object];
        assert(prior.objects.records@[object] == record);
        assert(listed_materials(records, next) =~= listed_materials(records, seen).push(
            record.material,
        ));
        assert(listed_meshes(records, next) =~= listed_meshes(records, seen).push(record.mesh));
        assert(after.materials@.dom() =~= self.materials@.dom());
        assert(after.meshes@.dom() =~= self.meshes@.dom());
        assert forall|m: MaterialId| #[trigger] self.materials@.contains_key(m) implies
            self.materials@[m].ref_count == after.materials@[m].ref_count + occurrences(
            listed_materials(records, next),
            m,
        ) && self.materials@[m] == (MaterialRecord {
            ref_count: self.materials@[m].ref_count,
            ..after.materials@[m]
        }) by {
            assert(prior.materials@.contains_key(m));
            lemma_occurrences_push(listed_materials(records, seen), record.material, m);
        }
        assert forall|m: MeshId| #[trigger] self.meshes@.contains_key(m) implies
            self.meshes@[m].ref_count == after.meshes@[m].ref_count + occurrences(
            listed_meshes(records, next),
            m,
        ) && self.meshes@[m] == (MeshRecord {
            ref_count: self.meshes@[m].ref_count,
            ..after.meshes@[m]
        }) by {
            assert(prior.meshes@.contains_key(m));
            lemma_occurrences_push(listed_meshes(records, seen), record.mesh, m);
        }
    }

    /// The instance that an object is a section of.
    pub fn section_instance_for_object(&self, id: ObjectId) -> (instance: Option<
        SectionedInstanceId,
    >)
        requires
            self.wf(),
        ensures
            instance == if self.sections.instance_of@.contains_key(id) {
                Some(self.sections.instance_of@[id])
            } else {
                None::<SectionedInstanceId>
            },
    {
        match self.sections.instance_of.get(id) {
            Some(instance) => {
                if self.sections.instances.is_live(*instance) {
                    Some(*instance)
                } else {
                    None
                }
            },
            None => None,
        }
    }

    /// The first section of a live instance that has one.
    pub open spec fn first_section(&self, id: SectionedInstanceId) -> Option<ObjectId> {
        if self.sections.instances@.contains_key(id)
            && self.sections.instances@[id].section_objects@.len() > 0 {
            Some(self.sections.instances@[id].section_objects@[0])
        } else {
            None
        }
    }

    fn first_section_object(&self, id: SectionedInstanceId) -> (object: Option<ObjectId>)
        requires
            self.wf(),
        ensures
            object == self.first_section(id),
            object matches Some(o) ==> self.objects.records@.contains_key(o),
    {
        match self.sections.instances.get(id) {
            Some(record) => {
                if record.section_objects.len() > 0 {
                    let object: ObjectId = record.section_objects[0];
                    proof {
                        assert(self.sections.instance_linked(id));
                        assert(self.sections.instance_of@.contains_key(
                            record.section_objects@[0],
                        ));
                    }
                    Some(object)
                } else {
                    None
                }
            },
            None => None,
        }
    }

    /// Transform of a placed instance, taken from its first section.
    pub fn get_sectioned_instance_transform(&self, id: SectionedInstanceId) -> (transform: Option<
        [F32; 16],
    >)
        requires
            self.wf(),
        ensures
            transform == match self.first_section(id) {
                Some(o) => Some(self.objects.records@[o].pose.model),
                None => None::<[F32; 16]>,
            },
    {
        match self.first_section_object(id) {
            Some(object) => match self.get_object_transform(object) {
                Ok(transform) => Some(transform),
                Err(_) => None,
            },
            None => None,
        }
    }

    /// Bounding sphere of a placed instance, taken from its first section.
    pub fn get_sectioned_instance_bounds(&self, id: SectionedInstanceId) -> (bounds: Option<
        [F32; 4],
    >)
        requires
            self.wf(),
        ensures
            bounds == match self.first_section(id) {
                Some(o) => Some(self.objects.records@[o].pose.sphere),
                None => None::<[F32; 4]>,
            },
    {
        match self.first_section_object(id) {
            Some(object) => match self.get_object_bounds(object) {
                Ok(bounds) => Some(bounds),
                Err(_) => None,
            },
            None => None,
        }
    }

    /// How the copy of an instance is placed. `fallback` is where a copy without
    /// sections goes.
    pub open spec fn copied_placement(
        &self,
        id: SectionedInstanceId,
        fallback: SectionPlacement,
    ) -> SectionPlacement {
        match self.first_section(id) {
            Some(o) => SectionPlacement {
                transform: self.objects.records@[o].pose.model,
                normal_mat: self.objects.records@[o].normal_mat,
                bounds: self.objects.records@[o].pose.sphere,
                movability: Some(self.objects.records@[o].movability),
            },
            None => fallback,
        }
    }

    /// Places a copy of an instance, with its transform and materials.
    pub fn duplicate_sectioned_object(
        &mut self,
        id: SectionedInstanceId,
        entity: Entity,
        rows: &Vec<NewRow>,
        fallback: SectionPlacement,
    ) -> (result: Result<SectionedInstanceId>)
        requires
            old(self).wf(),
            old(self).instance_fits(entity, rows@),
            old(self).sections.instances@.contains_key(id) ==> old(
                self,
            ).sections.instances@[id].section_objects@.len() <= rows@.len(),
        ensures
            final(self).wf(),
            if old(self).sections.instances@.contains_key(id) {
                let record = old(self).sections.instances@[id];
                old(self).instance_placed(
                    final(self),
                    entity,
                    rows@,
                    record.multi_mesh,
                    listed_materials(old(self).objects.records@, record.section_objects@),
                    old(self).copied_placement(id, fallback),
                    result,
                )
            } else {
                &&& result == Err::<SectionedInstanceId, _>(
                    SceneError::InvalidHandle { resource: "sectioned_instance" },
                )
                &&& *final(self) == *old(self)
            },
    {
        let place: usize = match self.sections.instances.slot(id) {
            Some(place) => place,
            None => {
                return Err(invalid("sectioned_instance"));
            },
        };
        let ghost list = self.sections.instances@[id].section_objects@;
        let ghost records = self.objects.records@;
        proof {
            self.sections.instances.lemma_contains(id);
            assert(self.sections.instance_linked(id));
        }
        let multi_mesh: MultiMeshId = self.sections.instances.value_by_slot[place].multi_mesh;
        let mut placement: SectionPlacement = fallback;
        let mut materials: Vec<MaterialId> = Vec::new();
        let mut k: usize = 0;
        while k < self.sections.instances.value_by_slot[place].section_objects.len()
            invariant
                0 <= k <= list.len(),
                self.wf(),
                *self == *old(self),
                self.sections.instances@.contains_key(id),
                place < self.sections.instances.value_by_slot@.len(),
                list == self.sections.instances@[id].section_objects@,
                records == self.objects.records@,
                self.sections.instances.value_by_slot@[place as int].section_objects@ == list,
                self.sections.instance_linked(id),
                materials@ =~= listed_materials(records, list.take(k as int)),
                placement == if k > 0 {
                    self.copied_placement(id, fallback)
                } else {
                    fallback
                },
            decreases list.len() - k,
        {
            let object: ObjectId = self.sections.instances.value_by_slot[place].section_objects[k];
            proof {
                assert(self.sections.instance_of@.contains_key(list[k as int]));
                assert(list.take(k + 1) =~= list.take(k as int).push(object));
            }
            match self.objects.records.get(object) {
                Some(record) => {
                    materials.push(record.material);
                    if k == 0 {
                        placement =
                        SectionPlacement {
                            transform: record.pose.model,
                            normal_mat: record.normal_mat,
                            bounds: record.pose.sphere,
                            movability: Some(record.movability),
                        };
                    }
                },
                None => {
                    assert(false);
                },
            }
            k = k + 1;
        }
        assert(list.take(k as int) =~= list);
        self.insert_sectioned_object(entity, rows, multi_mesh, &materials, placement)
    }
}

/// Materials of the listed objects.
pub open spec fn listed_materials(
    records: Map<ObjectId, ObjectRecord>,
    list: Seq<ObjectId>,
) -> Seq<MaterialId> {
    list.map_values(|o: ObjectId| records[o].material)
}

/// Meshes of the listed objects.
pub open spec fn listed_meshes(records: Map<ObjectId, ObjectRecord>, list: Seq<ObjectId>) -> Seq<
    MeshId,
> {
    list.map_values(|o: ObjectId| records[o].mesh)
}

/// Some listed object cannot move.
pub open spec fn some_fixed(records: Map<ObjectId, ObjectRecord>, list: Seq<ObjectId>) -> bool {
    exists|k: int|
        0 <= k < list.len() && records[#[trigger] list[k]].movability != Movability::Movable
}

/// The listed objects as what actors belong to.
pub open spec fn object_targets(list: Seq<ObjectId>) -> Seq<SceneActorId> {
    list.map_values(|o: ObjectId| SceneActorId::Object(o))
}

/// Number of listed objects that can move.
pub open spec fn movable_count(records: Map<ObjectId, ObjectRecord>, list: Seq<ObjectId>) -> nat
    decreases list.len(),
{
    if list.len() == 0 {
        0
    } else {
        movable_count(records, list.drop_last()) + (if records[list.last()].movability
            == Movability::Movable {
            1nat
        } else {
            0
        })
    }
}

/// A generation after `n` steps.
pub open spec fn advanced(generation: u64, n: nat) -> u64 {
    ((generation + n) % 0x1_0000_0000_0000_0000) as u64
}

} // verus!
