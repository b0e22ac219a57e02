//! Billboards and corona emitters: lists that are replaced as a whole.
use vstd::prelude::*;

use crate::errors::{Result, SceneError};
use crate::float_bits::F32;
use crate::scene::Scene;
use crate::words::{same_encodings, same_list};

verus! {

/// One billboard in the world.
#[derive(Clone, Copy, Debug)]
pub struct BillboardInstance {
    pub world_pos: [F32; 4],
    pub scale_flags: [F32; 4],
    pub color: [F32; 4],
}

impl BillboardInstance {
    fn same(&self, other: &BillboardInstance) -> (same: bool)
        ensures
            same == (*self == *other),
    {
        same_encodings(&self.world_pos, &other.world_pos) && same_encodings(
            &self.scale_flags,
            &other.scale_flags,
        ) && same_encodings(&self.color, &other.color)
    }
}

/// One corona emitter, packed as the shader reads it.
#[derive(Debug)]
pub struct GpuCoronaEmitter {
    pub words: Vec<u32>,
}

/// What the emitters hold.
pub open spec fn emitter_words(emitters: Seq<GpuCoronaEmitter>) -> Seq<Seq<u32>> {
    emitters.map_values(|emitter: GpuCoronaEmitter| emitter.words@)
}

/// The lists, and how often they changed.
pub struct ScenePresentation {
    pub billboards: Vec<BillboardInstance>,
    pub billboard_generation: u64,
    pub corona_emitters: Vec<GpuCoronaEmitter>,
    pub corona_generation: u64,
    /// Advances when running simulations must be retired.
    pub corona_reset_epoch: u64,
    /// Emitters that the shader table holds.
    pub corona_capacity: usize,
}

fn same_billboards(a: &Vec<BillboardInstance>, b: &Vec<BillboardInstance>) -> (same: bool)
    ensures
        same == (a@ == b@),
{
    if a.len() != b.len() {
        return false;
    }
    let mut i: usize = 0;
    while i < a.len()
        invariant
            a@.len() == b@.len(),
            0 <= i <= a@.len(),
            forall|j: int| 0 <= j < i ==> a@[j] == b@[j],
        decreases a@.len() - i,
    {
        if !a[i].same(&b[i]) {
            assert(a@[i as int] != b@[i as int]);
            return false;
        }
        i = i + 1;
    }
    assert(a@ =~= b@);
    true
}

fn same_emitters(a: &Vec<GpuCoronaEmitter>, b: &Vec<GpuCoronaEmitter>) -> (same: bool)
    ensures
        same == (emitter_words(a@) == emitter_words(b@)),
{
    if a.len() != b.len() {
        assert(emitter_words(a@).len() != emitter_words(b@).len());
        return false;
    }
    let mut i: usize = 0;
    while i < a.len()
        invariant
            a@.len() == b@.len(),
            0 <= i <= a@.len(),
            forall|j: int| 0 <= j < i ==> (#[trigger] a@[j]).words@ == b@[j].words@,
        decreases a@.len() - i,
    {
        if !same_list(&a[i].words, &b[i].words) {
            assert(emitter_words(a@)[i as int] != emitter_words(b@)[i as int]);
            return false;
        }
        i = i + 1;
    }
    assert(emitter_words(a@) =~= emitter_words(b@));
    true
}

impl ScenePresentation {
    /// `after` shows `billboards`; only another list is a change.
    pub open spec fn billboards_replaced(
        &self,
        after: &ScenePresentation,
        billboards: Seq<BillboardInstance>,
    ) -> bool {
        &&& *after == (ScenePresentation {
            billboards: after.billboards,
            billboard_generation: after.billboard_generation,
            ..*self
        })
        &&& after.billboards@ == billboards
        &&& after.billboard_generation == if self.billboards@ == billboards {
            self.billboard_generation
        } else {
            self.billboard_generation.wrapping_add(1)
        }
    }

    fn replace_billboards(&mut self, billboards: Vec<BillboardInstance>)
        ensures
            old(self).billboards_replaced(final(self), billboards@),
    {
        if same_billboards(&self.billboards, &billboards) {
            return ;
        }
        self.billboards = billboards;
        self.billboard_generation = self.billboard_generation.wrapping_add(1);
    }

    /// `after` has `emitters`; only another list is a change.
    pub open spec fn emitters_replaced(
        &self,
        after: &ScenePresentation,
        emitters: Seq<Seq<u32>>,
    ) -> bool {
        &&& *after == (ScenePresentation {
            corona_emitters: after.corona_emitters,
            corona_generation: after.corona_generation,
            ..*self
        })
        &&& emitter_words(after.corona_emitters@) == emitters
        &&& after.corona_generation == if emitter_words(self.corona_emitters@) == emitters {
            self.corona_generation
        } else {
            self.corona_generation.wrapping_add(1)
        }
    }

    fn replace_corona_emitters(&mut self, emitters: Vec<GpuCoronaEmitter>)
        ensures
            old(self).emitters_replaced(final(self), emitter_words(emitters@)),
    {
        if same_emitters(&self.corona_emitters, &emitters) {
            return ;
        }
        self.corona_emitters = emitters;
        self.corona_generation = self.corona_generation.wrapping_add(1);
    }

    /// `after` shows nothing, and running simulations are retired, even if the same
    /// emitters come back before the next frame.
    pub open spec fn cleared(&self, after: &ScenePresentation) -> bool {
        &&& after.billboards@ == Seq::<BillboardInstance>::empty()
        &&& after.corona_emitters@.len() == 0
        &&& after.billboard_generation == if self.billboards@.len() == 0 {
            self.billboard_generation
        } else {
            self.billboard_generation.wrapping_add(1)
        }
        &&& after.corona_generation == if self.corona_emitters@.len() == 0 {
            self.corona_generation
        } else {
            self.corona_generation.wrapping_add(1)
        }
        &&& after.corona_reset_epoch == self.corona_reset_epoch.wrapping_add(1)
        &&& after.corona_capacity == self.corona_capacity
    }

    pub fn clear(&mut self)
        ensures
            old(self).cleared(final(self)),
    {
        let ghost before = *self;
        let none: Vec<BillboardInstance> = Vec::new();
        let no_emitters: Vec<GpuCoronaEmitter> = Vec::new();
        assert(none@ =~= Seq::<BillboardInstance>::empty());
        self.replace_billboards(none);
        self.replace_corona_emitters(no_emitters);
        proof {
            let empty = emitter_words(no_emitters@);
            assert(empty.len() == 0);
            assert(self.corona_emitters@.len() == emitter_words(self.corona_emitters@).len());
            assert(before.corona_emitters@.len() == emitter_words(before.corona_emitters@).len());
            if before.corona_emitters@.len() == 0 {
                assert(emitter_words(before.corona_emitters@) =~= empty);
            }
            if before.billboards@.len() == 0 {
                assert(before.billboards@ =~= Seq::<BillboardInstance>::empty());
            }
        }
        self.corona_reset_epoch = self.corona_reset_epoch.wrapping_add(1);
    }
}

impl Scene {
    /// Replaces the billboards. The same list again is no change.
    pub fn set_billboard_instances(&mut self, instances: Vec<BillboardInstance>)
        ensures
            old(self).wf() ==> final(self).wf(),
            *final(self) == (Scene { presentation: final(self).presentation, ..*old(self) }),
            old(self).presentation.billboards_replaced(&final(self).presentation, instances@),
    {
        self.presentation.replace_billboards(instances);
    }

    /// Replaces the corona emitters, unless the shader table cannot hold them.
    pub fn set_corona_emitters(&mut self, emitters: Vec<GpuCoronaEmitter>) -> (result: Result<()>)
        ensures
            old(self).wf() ==> final(self).wf(),
            *final(self) == (Scene { presentation: final(self).presentation, ..*old(self) }),
            if emitters@.len() > old(self).presentation.corona_capacity {
                &&& result == Err::<(), _>(
                    SceneError::CoronaEmitterCapacityExceeded {
                        requested: emitters@.len() as usize,
                        capacity: old(self).presentation.corona_capacity,
                    },
                )
                &&& *final(self) == *old(self)
            } else {
                &&& result == Ok::<(), SceneError>(())
                &&& old(self).presentation.emitters_replaced(
                    &final(self).presentation,
                    emitter_words(emitters@),
                )
            },
    {
        let requested: usize = emitters.len();
        let capacity: usize = self.presentation.corona_capacity;
        if requested > capacity {
            return Err(SceneError::CoronaEmitterCapacityExceeded { requested, capacity });
        }
        self.presentation.replace_corona_emitters(emitters);
        Ok(())
    }

    pub fn authored_billboards(&self) -> (billboards: &Vec<BillboardInstance>)
        ensures
            *billboards == self.presentation.billboards,
    {
        &self.presentation.billboards
    }

    pub fn corona_emitters(&self) -> (emitters: &Vec<GpuCoronaEmitter>)
        ensures
            *emitters == self.presentation.corona_emitters,
    {
        &self.presentation.corona_emitters
    }

    /// How often the billboards changed, and how often the emitters did.
    pub fn presentation_generations(&self) -> (generations: (u64, u64))
        ensures
            generations == (
                self.presentation.billboard_generation,
                self.presentation.corona_generation,
            ),
    {
        (self.presentation.billboard_generation, self.presentation.corona_generation)
    }

    pub fn corona_reset_epoch(&self) -> (epoch: u64)
        ensures
            epoch == self.presentation.corona_reset_epoch,
    {
        self.presentation.corona_reset_epoch
    }
}

/// Handing in the list that is shown already changes nothing.
pub proof fn lemma_same_billboards_are_no_change(
    before: ScenePresentation,
    after: ScenePresentation,
    billboards: Seq<BillboardInstance>,
)
    requires
        before.billboards_replaced(&after, billboards),
        before.billboards@ == billboards,
    ensures
        after.billboards@ == before.billboards@,
        after.billboard_generation == before.billboard_generation,
{
}

} // verus!
