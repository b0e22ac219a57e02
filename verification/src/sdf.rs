//! Signed-distance edits in the order in which they are evaluated, and the terrain.
use vstd::prelude::*;

use crate::errors::{invalid, Result, SceneError};
use crate::float_bits::F32;
use crate::handles::Entity;
use crate::scene::Scene;

verus! {

/// Names one edit for as long as it exists.
#[derive(Clone, Copy, Debug, PartialEq, Eq, Structural)]
pub struct SdfEditId(pub Entity);

/// One primitive and how it is combined with those before it.
#[derive(Clone, Copy, Debug)]
pub struct SdfEdit {
    pub shape: u32,
    pub operation: u32,
    pub transform: [F32; 16],
    pub params: [F32; 4],
    pub blend: F32,
}

/// Parameters of the procedural terrain, packed.
#[derive(Clone, Copy, Debug)]
pub struct TerrainConfig {
    pub words: [u32; 16],
}

/// Why the store refuses an edit.
#[derive(Clone, Copy, Debug, PartialEq, Eq)]
pub enum SdfAuthorityError {
    StaleEdit,
    CapacityExceeded,
    InvalidEdit,
    InvalidTerrain,
    InvalidIndex,
}

pub type SdfVerdict<T> = core::result::Result<T, SdfAuthorityError>;

/// What a refusal means for the scene.
pub open spec fn sdf_error(error: SdfAuthorityError) -> SceneError {
    match error {
        SdfAuthorityError::StaleEdit => SceneError::InvalidHandle { resource: "SDF edit" },
        SdfAuthorityError::CapacityExceeded => SceneError::InvalidOperation {
            reason: "SceneDB SDF edit residency exceeds the device storage limit",
        },
        SdfAuthorityError::InvalidEdit => SceneError::InvalidOperation {
            reason:
                "SDF edit parameters must be finite and positive; transforms must be finite affine similarity transforms (no non-uniform scale or shear)",
        },
        SdfAuthorityError::InvalidTerrain => SceneError::InvalidOperation {
            reason: "SDF terrain parameters are outside the finite supported domain",
        },
        SdfAuthorityError::InvalidIndex => SceneError::InvalidOperation {
            reason: "SDF authored order index is out of bounds",
        },
    }
}

pub fn map_sdf_error(error: SdfAuthorityError) -> (mapped: SceneError)
    ensures
        mapped == sdf_error(error),
{
    match error {
        SdfAuthorityError::StaleEdit => invalid("SDF edit"),
        SdfAuthorityError::CapacityExceeded => SceneError::InvalidOperation {
            reason: "SceneDB SDF edit residency exceeds the device storage limit",
        },
        SdfAuthorityError::InvalidEdit => SceneError::InvalidOperation {
            reason:
                "SDF edit parameters must be finite and positive; transforms must be finite affine similarity transforms (no non-uniform scale or shear)",
        },
        SdfAuthorityError::InvalidTerrain => SceneError::InvalidOperation {
            reason: "SDF terrain parameters are outside the finite supported domain",
        },
        SdfAuthorityError::InvalidIndex => SceneError::InvalidOperation {
            reason: "SDF authored order index is out of bounds",
        },
    }
}

/// Edits with their names, first evaluated first.
pub struct SdfEdits {
    pub ids: Vec<SdfEditId>,
    pub edits: Vec<SdfEdit>,
    pub terrain: Option<TerrainConfig>,
}

impl SdfEdits {
    /// Every edit has a name of its own.
    pub open spec fn wf(&self) -> bool {
        &&& self.ids@.len() == self.edits@.len()
        &&& self.ids@.no_duplicates()
    }

    pub open spec fn live(&self, id: SdfEditId) -> bool {
        self.ids@.contains(id)
    }

    /// The place of a live edit in the order.
    pub open spec fn order(&self, id: SdfEditId) -> int {
        self.ids@.index_of(id)
    }

    pub fn new() -> (edits: Self)
        ensures
            edits.wf(),
            edits.ids@ == Seq::<SdfEditId>::empty(),
            edits.edits@ == Seq::<SdfEdit>::empty(),
            edits.terrain is None,
    {
        SdfEdits { ids: Vec::new(), edits: Vec::new(), terrain: None }
    }

    fn find(&self, id: SdfEditId) -> (place: Option<usize>)
        requires
            self.wf(),
        ensures
            match place {
                Some(i) => self.live(id) && i == self.order(id) && i < self.ids@.len(),
                None => !self.live(id),
            },
    {
        let mut i: usize = 0;
        while i < self.ids.len()
            invariant
                self.wf(),
                0 <= i <= self.ids@.len(),
                forall|j: int| 0 <= j < i ==> self.ids@[j] != id,
            decreases self.ids@.len() - i,
        {
            if self.ids[i] == id {
                assert(self.ids@[i as int] == id);
                assert(self.ids@[self.order(id)] == id);
                return Some(i);
            }
            i = i + 1;
        }
        None
    }
}

proof fn lemma_inserted_names_differ(ids: Seq<SdfEditId>, k: int, id: SdfEditId)
    requires
        ids.no_duplicates(),
        !ids.contains(id),
        0 <= k <= ids.len(),
    ensures
        ids.insert(k, id).no_duplicates(),
{
    let all = ids.insert(k, id);
    assert forall|i: int, j: int| 0 <= i < all.len() && 0 <= j < all.len() && i != j implies all[i]
        != all[j] by {
        let a = if i < k {
            i
        } else {
            i - 1
        };
        let b = if j < k {
            j
        } else {
            j - 1
        };
        if i != k {
            assert(all[i] == ids[a]);
        }
        if j != k {
            assert(all[j] == ids[b]);
        }
    }
}

proof fn lemma_removed_names_differ(ids: Seq<SdfEditId>, k: int)
    requires
        ids.no_duplicates(),
        0 <= k < ids.len(),
    ensures
        ids.remove(k).no_duplicates(),
        !ids.remove(k).contains(ids[k]),
{
    let rest = ids.remove(k);
    assert forall|i: int| 0 <= i < rest.len() implies rest[i] == ids[if i < k {
        i
    } else {
        i + 1
    }] by {}
}

impl Scene {
    /// `after` is `self` with an edit at that place of the authored order.
    pub open spec fn edit_inserted(&self, after: &Scene, at: int, id: SdfEditId, edit: SdfEdit) -> bool {
        &&& *after == (Scene {
            sdf: SdfEdits { ids: after.sdf.ids, edits: after.sdf.edits, ..self.sdf },
            ..*self
        })
        &&& after.sdf.ids@ == self.sdf.ids@.insert(at, id)
        &&& after.sdf.edits@ == self.sdf.edits@.insert(at, edit)
    }

    /// `after` is `self` without an edit.
    pub open spec fn edit_removed(&self, after: &Scene, id: SdfEditId) -> bool {
        let k = self.sdf.order(id);
        &&& *after == (Scene {
            sdf: SdfEdits { ids: after.sdf.ids, edits: after.sdf.edits, ..self.sdf },
            ..*self
        })
        &&& after.sdf.ids@ == self.sdf.ids@.remove(k)
        &&& after.sdf.edits@ == self.sdf.edits@.remove(k)
    }

    /// `after` is `self` with an edit at another place of the authored order.
    pub open spec fn edit_moved(&self, after: &Scene, id: SdfEditId, to: int) -> bool {
        let k = self.sdf.order(id);
        &&& *after == (Scene {
            sdf: SdfEdits { ids: after.sdf.ids, edits: after.sdf.edits, ..self.sdf },
            ..*self
        })
        &&& after.sdf.ids@ == self.sdf.ids@.remove(k).insert(to, id)
        &&& after.sdf.edits@ == self.sdf.edits@.remove(k).insert(to, self.sdf.edits@[k])
    }

    /// Appends an edit: it is evaluated last. `stored` is the name that the store gave
    /// it, or why it refused.
    pub fn add_sdf_edit(&mut self, edit: SdfEdit, stored: SdfVerdict<SdfEditId>) -> (result: Result<
        SdfEditId,
    >)
        requires
            old(self).wf(),
            stored matches Ok(id) ==> !old(self).sdf.live(id),
        ensures
            final(self).wf(),
            match stored {
                Ok(id) => {
                    &&& result == Ok::<_, SceneError>(id)
                    &&& old(self).edit_inserted(
                        final(self),
                        old(self).sdf.ids@.len() as int,
                        id,
                        edit,
                    )
                },
                Err(error) => {
                    &&& result == Err::<SdfEditId, _>(sdf_error(error))
                    &&& *final(self) == *old(self)
                },
            },
    {
        match stored {
            Ok(id) => {
                self.sdf.ids.push(id);
                self.sdf.edits.push(edit);
                proof {
                    let ids = old(self).sdf.ids@;
                    lemma_inserted_names_differ(ids, ids.len() as int, id);
                    assert(ids.push(id) =~= ids.insert(ids.len() as int, id));
                    let edits = old(self).sdf.edits@;
                    assert(edits.push(edit) =~= edits.insert(ids.len() as int, edit));
                }
                Ok(id)
            },
            Err(error) => Err(map_sdf_error(error)),
        }
    }

    /// Inserts an edit at a place in the order; those from there on come later.
    pub fn insert_sdf_edit(
        &mut self,
        order_index: usize,
        edit: SdfEdit,
        stored: SdfVerdict<SdfEditId>,
    ) -> (result: Result<SdfEditId>)
        requires
            old(self).wf(),
            stored matches Ok(id) ==> !old(self).sdf.live(id) && order_index <= old(
                self,
            ).sdf.ids@.len(),
        ensures
            final(self).wf(),
            match stored {
                Ok(id) => {
                    &&& result == Ok::<_, SceneError>(id)
                    &&& old(self).edit_inserted(final(self), order_index as int, id, edit)
                },
                Err(error) => {
                    &&& result == Err::<SdfEditId, _>(sdf_error(error))
                    &&& *final(self) == *old(self)
                },
            },
    {
        match stored {
            Ok(id) => {
                self.sdf.ids.insert(order_index, id);
                self.sdf.edits.insert(order_index, edit);
                proof {
                    lemma_inserted_names_differ(old(self).sdf.ids@, order_index as int, id);
                }
                Ok(id)
            },
            Err(error) => Err(map_sdf_error(error)),
        }
    }

    /// Replaces an edit; its name and its place in the order stay.
    pub fn update_sdf_edit(&mut self, id: SdfEditId, edit: SdfEdit, stored: SdfVerdict<()>) -> (result:
        Result<()>)
        requires
            old(self).wf(),
            stored is Ok ==> old(self).sdf.live(id),
        ensures
            final(self).wf(),
            match stored {
                Ok(()) => {
                    &&& result == Ok::<(), SceneError>(())
                    &&& *final(self) == (Scene {
                        sdf: SdfEdits { edits: final(self).sdf.edits, ..old(self).sdf },
                        ..*old(self)
                    })
                    &&& final(self).sdf.edits@ == old(self).sdf.edits@.update(
                        old(self).sdf.order(id),
                        edit,
                    )
                },
                Err(error) => {
                    &&& result == Err::<(), _>(sdf_error(error))
                    &&& *final(self) == *old(self)
                },
            },
    {
        match stored {
            Ok(()) => {
                match self.sdf.find(id) {
                    Some(place) => {
                        self.sdf.edits.set(place, edit);
                    },
                    None => {
                        assert(false);
                    },
                }
                Ok(())
            },
            Err(error) => Err(map_sdf_error(error)),
        }
    }

    /// Removes an edit and hands it back; its name is void.
    pub fn remove_sdf_edit(&mut self, id: SdfEditId, stored: SdfVerdict<()>) -> (result: Result<
        SdfEdit,
    >)
        requires
            old(self).wf(),
            stored is Ok ==> old(self).sdf.live(id),
        ensures
            final(self).wf(),
            match stored {
                Ok(()) => {
                    &&& result == Ok::<_, SceneError>(
                        old(self).sdf.edits@[old(self).sdf.order(id)],
                    )
                    &&& old(self).edit_removed(final(self), id)
                    &&& !final(self).sdf.live(id)
                },
                Err(error) => {
                    &&& result == Err::<SdfEdit, _>(sdf_error(error))
                    &&& *final(self) == *old(self)
                },
            },
    {
        match stored {
            Ok(()) => {
                match self.sdf.find(id) {
                    Some(place) => {
                        proof {
                            lemma_removed_names_differ(self.sdf.ids@, place as int);
                        }
                        let _ = self.sdf.ids.remove(place);
                        Ok(self.sdf.edits.remove(place))
                    },
                    None => {
                        assert(false);
                        Err(invalid("SDF edit"))
                    },
                }
            },
            Err(error) => Err(map_sdf_error(error)),
        }
    }

    /// Moves an edit to another place in the order.
    pub fn move_sdf_edit(&mut self, id: SdfEditId, new_index: usize, stored: SdfVerdict<()>) -> (result:
        Result<()>)
        requires
            old(self).wf(),
            stored is Ok ==> old(self).sdf.live(id) && new_index < old(self).sdf.ids@.len(),
        ensures
            final(self).wf(),
            match stored {
                Ok(()) => {
                    &&& result == Ok::<(), SceneError>(())
                    &&& old(self).edit_moved(final(self), id, new_index as int)
                },
                Err(error) => {
                    &&& result == Err::<(), _>(sdf_error(error))
                    &&& *final(self) == *old(self)
                },
            },
    {
        match stored {
            Ok(()) => {
                match self.sdf.find(id) {
                    Some(place) => {
                        proof {
                            let ids = self.sdf.ids@;
                            lemma_removed_names_differ(ids, place as int);
                            lemma_inserted_names_differ(
                                ids.remove(place as int),
                                new_index as int,
                                id,
                            );
                        }
                        let _ = self.sdf.ids.remove(place);
                        let edit: SdfEdit = self.sdf.edits.remove(place);
                        self.sdf.ids.insert(new_index, id);
                        self.sdf.edits.insert(new_index, edit);
                    },
                    None => {
                        assert(false);
                    },
                }
                Ok(())
            },
            Err(error) => Err(map_sdf_error(error)),
        }
    }

    /// Removes all edits; the terrain stays.
    pub fn clear_sdf_edits(&mut self)
        ensures
            old(self).wf() ==> final(self).wf(),
            *final(self) == (Scene {
                sdf: SdfEdits {
                    ids: final(self).sdf.ids,
                    edits: final(self).sdf.edits,
                    ..old(self).sdf
                },
                ..*old(self)
            }),
            final(self).sdf.ids@ == Seq::<SdfEditId>::empty(),
            final(self).sdf.edits@ == Seq::<SdfEdit>::empty(),
    {
        self.sdf.ids.clear();
        self.sdf.edits.clear();
    }

    pub fn sdf_edits(&self) -> (edits: &Vec<SdfEdit>)
        ensures
            *edits == self.sdf.edits,
    {
        &self.sdf.edits
    }

    pub fn sdf_edit(&self, id: SdfEditId) -> (edit: Option<SdfEdit>)
        requires
            self.wf(),
        ensures
            edit == if self.sdf.live(id) {
                Some(self.sdf.edits@[self.sdf.order(id)])
            } else {
                None::<SdfEdit>
            },
    {
        match self.sdf.find(id) {
            Some(place) => Some(self.sdf.edits[place]),
            None => None,
        }
    }

    pub fn sdf_edit_id_at(&self, order_index: usize) -> (id: Option<SdfEditId>)
        ensures
            id == if order_index < self.sdf.ids@.len() {
                Some(self.sdf.ids@[order_index as int])
            } else {
                None::<SdfEditId>
            },
    {
        if order_index < self.sdf.ids.len() {
            Some(self.sdf.ids[order_index])
        } else {
            None
        }
    }

    /// Sets the terrain, or switches it off.
    pub fn set_sdf_terrain(&mut self, terrain: Option<TerrainConfig>, stored: SdfVerdict<()>) -> (result:
        Result<()>)
        ensures
            old(self).wf() ==> final(self).wf(),
            match stored {
                Ok(()) => {
                    &&& result == Ok::<(), SceneError>(())
                    &&& *final(self) == (Scene {
                        sdf: SdfEdits { terrain, ..old(self).sdf },
                        ..*old(self)
                    })
                },
                Err(error) => {
                    &&& result == Err::<(), _>(sdf_error(error))
                    &&& *final(self) == *old(self)
                },
            },
    {
        match stored {
            Ok(()) => {
                self.sdf.terrain = terrain;
                Ok(())
            },
            Err(error) => Err(map_sdf_error(error)),
        }
    }

    pub fn sdf_terrain(&self) -> (terrain: Option<TerrainConfig>)
        ensures
            terrain == self.sdf.terrain,
    {
        self.sdf.terrain
    }
}

} // verus!
