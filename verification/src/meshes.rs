//! Mesh assets in the shared geometry buffers.
use vstd::prelude::*;

use crate::draws::MeshSlice;
use crate::errors::{invalid, Result, SceneError};
use crate::handles::{Entity, MeshId};
use crate::references::{mesh_uses, MeshRecord};
use crate::scene::Scene;
use crate::sparse_set::{swap_removed, SparseSet};

verus! {

/// `after` is `before` with another count for `id`.
pub open spec fn mesh_recounted(
    before: SparseSet<MeshId, MeshRecord>,
    after: SparseSet<MeshId, MeshRecord>,
    id: MeshId,
    ref_count: u32,
) -> bool {
    let record = MeshRecord { ref_count, ..before@[id] };
    &&& after@ == before@.insert(id, record)
    &&& after.id_by_slot == before.id_by_slot
    &&& after.slot_by_entity == before.slot_by_entity
    &&& after.value_by_slot@ == before.value_by_slot@.update(before.place(id), record)
}

pub(crate) fn raise_mesh(meshes: &mut SparseSet<MeshId, MeshRecord>, id: MeshId)
    requires
        old(meshes).wf(),
        old(meshes)@.contains_key(id),
        old(meshes)@[id].ref_count < u32::MAX,
    ensures
        final(meshes).wf(),
        mesh_recounted(
            *old(meshes),
            *final(meshes),
            id,
            (old(meshes)@[id].ref_count + 1) as u32,
        ),
{
    match meshes.get(id) {
        Some(record) => {
            let raised = MeshRecord { ref_count: record.ref_count + 1, ..*record };
            meshes.set(id, raised);
        },
        None => {
            assert(false);
        },
    }
}

pub(crate) fn lower_mesh(meshes: &mut SparseSet<MeshId, MeshRecord>, id: MeshId)
    requires
        old(meshes).wf(),
        old(meshes)@.contains_key(id),
        old(meshes)@[id].ref_count > 0,
    ensures
        final(meshes).wf(),
        mesh_recounted(
            *old(meshes),
            *final(meshes),
            id,
            (old(meshes)@[id].ref_count - 1) as u32,
        ),
{
    match meshes.get(id) {
        Some(record) => {
            let lowered = MeshRecord { ref_count: record.ref_count - 1, ..*record };
            meshes.set(id, lowered);
        },
        None => {
            assert(false);
        },
    }
}

impl Scene {
    /// Registers a mesh whose geometry was uploaded to `slice`.
    pub fn insert_mesh(&mut self, entity: Entity, slice: MeshSlice) -> (id: MeshId)
        requires
            old(self).wf(),
            !old(self).meshes.occupies(entity.index),
            entity.index < usize::MAX,
            old(self).meshes.spec_len() < u32::MAX,
        ensures
            final(self).wf(),
            id == MeshId(entity),
            *final(self) == (Scene { meshes: final(self).meshes, ..*old(self) }),
            final(self).meshes@ == old(self).meshes@.insert(
                id,
                MeshRecord { slice, ref_count: 0, owner: None },
            ),
            final(self).meshes.id_by_slot@ == old(self).meshes.id_by_slot@.push(id),
    {
        let id = MeshId(entity);
        self.meshes.insert(id, MeshRecord { slice, ref_count: 0, owner: None });
        proof {
            let before = *old(self);
            assert forall|m: MeshId| #[trigger] self.meshes@.contains_key(m) implies
                self.meshes@[m].ref_count == mesh_uses(self.objects.spec_values(), m)
                + crate::references::owner_uses(self.meshes@[m]) by {
                if m != id {
                    assert(before.meshes@.contains_key(m));
                } else {
                    assert(!before.meshes@.contains_key(m));
                }
            }
            assert forall|m: MeshId| #[trigger]
                mesh_uses(self.objects.spec_values(), m) > 0 implies self.meshes@.contains_key(
                m,
            ) by {
                assert(before.meshes@.contains_key(m));
            }
            before.lemma_sections_with_more_meshes(*self, id);
        }
        id
    }

    proof fn lemma_sections_with_more_meshes(self, after: Scene, id: MeshId)
        requires
            self.sections.wf(self.objects.records@, self.meshes@),
            !self.meshes@.contains_key(id),
            after.sections == self.sections,
            after.objects == self.objects,
            exists|record: MeshRecord|
                record.owner is None && after.meshes@ == #[trigger] self.meshes@.insert(id, record),
        ensures
            after.sections.wf(after.objects.records@, after.meshes@),
    {
        let sections = self.sections;
        assert forall|a: crate::handles::MultiMeshId| #[trigger]
            sections.multi_meshes@.contains_key(a) implies sections.asset_linked(
            a,
            after.meshes@,
        ) by {
            assert(sections.asset_linked(a, self.meshes@));
            let record = sections.multi_meshes@[a];
            assert forall|k: int| 0 <= k < record.section_mesh_ids@.len() implies
                after.meshes@.contains_key(#[trigger] record.section_mesh_ids@[k])
                && after.meshes@[record.section_mesh_ids@[k]].owner == Some(a) by {
                assert(self.meshes@.contains_key(record.section_mesh_ids@[k]));
            }
        }
        assert(sections.owners_linked(after.meshes@)) by {
            assert forall|m: MeshId| #[trigger] after.meshes@.contains_key(m) implies match
                after.meshes@[m].owner {
                Some(a) => sections.multi_meshes@.contains_key(a)
                    && sections.multi_meshes@[a].section_mesh_ids@.contains(m),
                None => true,
            } by {
                if m != id {
                    assert(self.meshes@.contains_key(m));
                }
            }
        }
    }

    /// `after` is `self` without a mesh.
    pub open spec fn mesh_removed(&self, after: &Scene, id: MeshId) -> bool {
        &&& *after == (Scene { meshes: after.meshes, ..*self })
        &&& after.meshes@ == self.meshes@.remove(id)
        &&& after.meshes.id_by_slot@ == swap_removed(
            self.meshes.id_by_slot@,
            self.meshes.place(id),
        )
    }

    /// Removes a mesh that nothing uses.
    pub fn remove_mesh(&mut self, id: MeshId) -> (result: Result<()>)
        requires
            old(self).wf(),
        ensures
            final(self).wf(),
            result == if !old(self).meshes@.contains_key(id) {
                Err::<(), _>(SceneError::InvalidHandle { resource: "mesh" })
            } else if old(self).meshes@[id].ref_count > 0 {
                Err(SceneError::ResourceInUse { resource: "mesh" })
            } else {
                Ok(())
            },
            if result is Ok {
                old(self).mesh_removed(final(self), id)
            } else {
                *final(self) == *old(self)
            },
    {
        match self.meshes.get(id) {
            Some(record) => {
                if record.ref_count != 0 {
                    return Err(SceneError::ResourceInUse { resource: "mesh" });
                }
            },
            None => {
                return Err(invalid("mesh"));
            },
        }
        self.meshes.remove(id);
        proof {
            let before = *old(self);
            assert(before.meshes@[id].owner is None);
            assert forall|m: MeshId| #[trigger] self.meshes@.contains_key(m) implies
                self.meshes@[m].ref_count == mesh_uses(self.objects.spec_values(), m)
                + crate::references::owner_uses(self.meshes@[m]) by {
                assert(before.meshes@.contains_key(m));
            }
            assert forall|m: MeshId| #[trigger]
                mesh_uses(self.objects.spec_values(), m) > 0 implies self.meshes@.contains_key(
                m,
            ) by {
                assert(before.meshes@.contains_key(m));
            }
            let sections = self.sections;
            assert forall|a: crate::handles::MultiMeshId| #[trigger]
                sections.multi_meshes@.contains_key(a) implies sections.asset_linked(
                a,
                self.meshes@,
            ) by {
                assert(sections.asset_linked(a, before.meshes@));
                let record = sections.multi_meshes@[a];
                assert forall|k: int| 0 <= k < record.section_mesh_ids@.len() implies
                    self.meshes@.contains_key(#[trigger] record.section_mesh_ids@[k])
                    && self.meshes@[record.section_mesh_ids@[k]].owner == Some(a) by {
                    assert(before.meshes@.contains_key(record.section_mesh_ids@[k]));
                }
            }
            assert(sections.owners_linked(self.meshes@)) by {
                assert forall|m: MeshId| #[trigger] self.meshes@.contains_key(m) implies match
                    self.meshes@[m].owner {
                    Some(a) => sections.multi_meshes@.contains_key(a)
                        && sections.multi_meshes@[a].section_mesh_ids@.contains(m),
                    None => true,
                } by {
                    assert(before.meshes@.contains_key(m));
                }
            }
        }
        Ok(())
    }
}

} // verus!
