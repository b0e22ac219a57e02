//! Sprites and the atlas layers that they show.
use vstd::prelude::*;

use crate::counting::{
    lemma_occurrences_bounded, lemma_occurrences_positive, lemma_occurrences_push,
    lemma_occurrences_swap_removed, lemma_occurrences_update, occurrences,
};
use crate::handles::{Entity, SceneSpriteAtlasId, SceneSpriteId};
use crate::scene::Scene;
use crate::sparse_set::{swap_removed, SparseSet};

verus! {

/// Why the atlas store refuses a request.
#[derive(Clone, Copy, Debug, PartialEq, Eq)]
pub enum SpriteAtlasError {
    /// Sprites still show the layer.
    LayerInUse { references: u32 },
    /// The image is not one that the store takes.
    InvalidImage,
    /// The store has no layer left.
    Exhausted,
}

/// Why a sprite operation fails.
#[derive(Clone, Copy, Debug, PartialEq, Eq)]
pub enum SpriteAuthorityError {
    StaleSprite(SceneSpriteId),
    StaleAtlas(SceneSpriteAtlasId),
    AuthoredEpochExhausted,
    CapacityRequestTooLarge(usize),
    /// The store could not grow the sprite rows.
    Capacity,
    Atlas(SpriteAtlasError),
}

pub type SpriteResult<T> = core::result::Result<T, SpriteAuthorityError>;

/// One sprite.
#[derive(Clone, Copy, Debug)]
pub struct SceneSpriteRow {
    /// Position, size, colour and order, packed.
    pub body: [u32; 16],
    /// The layer that the sprite shows, if it shows one.
    pub atlas: Option<SceneSpriteAtlasId>,
    /// Where that layer is resident.
    pub physical_layer: Option<u32>,
    /// When the sprite was written, later sprites having greater epochs.
    pub authored_epoch: u32,
}

/// One layer of the atlas.
#[derive(Clone, Copy, Debug)]
pub struct SceneSpriteAtlasLayer {
    pub width: u32,
    pub height: u32,
    pub content_hash: u64,
    pub physical_layer: u32,
    /// Number of sprites that show the layer.
    pub references: u32,
}

/// What the sprites show.
pub open spec fn shown(sprites: Seq<SceneSpriteRow>) -> Seq<Option<SceneSpriteAtlasId>> {
    sprites.map_values(|row: SceneSpriteRow| row.atlas)
}

/// How many sprites show the layer.
pub open spec fn layer_uses(sprites: Seq<SceneSpriteRow>, id: SceneSpriteAtlasId) -> nat {
    occurrences(shown(sprites), Some(id))
}

pub struct Sprites {
    pub sprites: SparseSet<SceneSpriteId, SceneSpriteRow>,
    pub layers: SparseSet<SceneSpriteAtlasId, SceneSpriteAtlasLayer>,
    /// Epoch of the next write; zero once all are used up.
    pub next_epoch: u32,
    /// Layers that can be imported, and the greatest width or height of one.
    pub limits: (u32, u32),
}

/// The sprite as it is stored: with the layer resolved and its epoch.
pub open spec fn resolved(
    row: SceneSpriteRow,
    layers: Map<SceneSpriteAtlasId, SceneSpriteAtlasLayer>,
    epoch: u32,
) -> SceneSpriteRow {
    SceneSpriteRow {
        body: row.body,
        atlas: row.atlas,
        physical_layer: match row.atlas {
            Some(atlas) => Some(layers[atlas].physical_layer),
            None => None,
        },
        authored_epoch: epoch,
    }
}

/// The epoch behind `epoch`; none follows the last.
pub open spec fn epoch_after(epoch: u32) -> u32 {
    if epoch == 0 || epoch == u32::MAX {
        0
    } else {
        (epoch + 1) as u32
    }
}

impl Sprites {
    /// Layers count the sprites that show them, and those sprites know where the layer is.
    pub open spec fn wf(&self) -> bool {
        &&& self.sprites.wf()
        &&& self.layers.wf()
        &&& forall|id: SceneSpriteAtlasId| #[trigger]
            self.layers@.contains_key(id) ==> self.layers@[id].references == layer_uses(
                self.sprites.value_by_slot@,
                id,
            )
        &&& forall|i: int|
            0 <= i < self.sprites.spec_len() ==> self.shows_live(
                #[trigger] self.sprites.value_by_slot@[i],
            )
    }

    /// The sprite shows nothing, or a live layer where that is resident.
    pub open spec fn shows_live(&self, row: SceneSpriteRow) -> bool {
        match row.atlas {
            Some(atlas) => self.layers@.contains_key(atlas) && row.physical_layer == Some(
                self.layers@[atlas].physical_layer,
            ),
            None => row.physical_layer is None,
        }
    }

    /// The layers are those of `self`, though others may show them.
    pub open spec fn same_layers(&self, after: &Sprites) -> bool {
        &&& after.layers.id_by_slot == self.layers.id_by_slot
        &&& after.layers.slot_by_entity == self.layers.slot_by_entity
        &&& after.layers@.dom() == self.layers@.dom()
        &&& forall|id: SceneSpriteAtlasId| #[trigger]
            self.layers@.contains_key(id) ==> after.layers@[id] == (SceneSpriteAtlasLayer {
                references: after.layers@[id].references,
                ..self.layers@[id]
            })
    }

    /// What a fresh or changed sprite would show is gone.
    pub open spec fn atlas_error(&self, row: SceneSpriteRow) -> Option<SpriteAuthorityError> {
        match row.atlas {
            Some(atlas) => if self.layers@.contains_key(atlas) {
                None
            } else {
                Some(SpriteAuthorityError::StaleAtlas(atlas))
            },
            None => None,
        }
    }

    /// Takes the next epoch, unless they are used up.
    fn allocate_sprite_authored_epoch(&mut self) -> (result: SpriteResult<u32>)
        ensures
            *final(self) == (Sprites { next_epoch: final(self).next_epoch, ..*old(self) }),
            final(self).next_epoch == epoch_after(old(self).next_epoch),
            result == if old(self).next_epoch == 0 {
                Err::<u32, _>(SpriteAuthorityError::AuthoredEpochExhausted)
            } else {
                Ok(old(self).next_epoch)
            },
    {
        let epoch: u32 = self.next_epoch;
        if epoch == 0 {
            return Err(SpriteAuthorityError::AuthoredEpochExhausted);
        }
        self.next_epoch = match epoch.checked_add(1) {
            Some(next) => next,
            None => 0,
        };
        Ok(epoch)
    }

    /// Where what the sprite shows is resident; an error if that is gone.
    fn resolve_sprite_atlas(&self, row: SceneSpriteRow, epoch: u32) -> (result: SpriteResult<
        SceneSpriteRow,
    >)
        requires
            self.layers.wf(),
        ensures
            result == match self.atlas_error(row) {
                Some(error) => Err::<SceneSpriteRow, _>(error),
                None => Ok(resolved(row, self.layers@, epoch)),
            },
    {
        match row.atlas {
            Some(atlas) => match self.layers.get(atlas) {
                Some(layer) => Ok(
                    SceneSpriteRow {
                        body: row.body,
                        atlas: row.atlas,
                        physical_layer: Some(layer.physical_layer),
                        authored_epoch: epoch,
                    },
                ),
                None => Err(SpriteAuthorityError::StaleAtlas(atlas)),
            },
            None => Ok(
                SceneSpriteRow {
                    body: row.body,
                    atlas: None,
                    physical_layer: None,
                    authored_epoch: epoch,
                },
            ),
        }
    }

    /// `after` has one reference more, or one less, on what `atlas` names.
    spec fn counted(&self, after: &Sprites, atlas: Option<SceneSpriteAtlasId>, by: int) -> bool {
        &&& *after == (Sprites { layers: after.layers, ..*self })
        &&& after.layers.wf()
        &&& self.same_layers(after)
        &&& forall|id: SceneSpriteAtlasId| #[trigger]
            self.layers@.contains_key(id) ==> after.layers@[id].references
                == self.layers@[id].references + if atlas == Some(id) {
                by
            } else {
                0
            }
    }

    fn count_reference(&mut self, atlas: Option<SceneSpriteAtlasId>, more: bool)
        requires
            old(self).layers.wf(),
            match atlas {
                Some(id) => {
                    &&& old(self).layers@.contains_key(id)
                    &&& if more {
                        old(self).layers@[id].references < u32::MAX
                    } else {
                        old(self).layers@[id].references > 0
                    }
                },
                None => true,
            },
        ensures
            old(self).counted(
                final(self),
                atlas,
                if more {
                    1
                } else {
                    -1
                },
            ),
    {
        match atlas {
            Some(id) => match self.layers.get(id) {
                Some(layer) => {
                    let references: u32 = if more {
                        layer.references + 1
                    } else {
                        layer.references - 1
                    };
                    let next = SceneSpriteAtlasLayer { references, ..*layer };
                    self.layers.set(id, next);
                    assert(self.layers@.dom() =~= old(self).layers@.dom());
                },
                None => {
                    assert(false);
                },
            },
            None => {},
        }
    }
}

/// Rows that the store must have room for before one more sprite is inserted: a hole
/// among the `row_span` rows is used first.
pub open spec fn row_request(row_span: u32, live: nat) -> Option<u32> {
    if live < row_span {
        Some(
            if row_span > 0 {
                row_span
            } else {
                1
            },
        )
    } else if row_span == u32::MAX {
        None
    } else {
        Some((row_span + 1) as u32)
    }
}

impl Scene {
    /// Rows that the store must have room for before the next sprite.
    pub fn sprite_row_request(&self, row_span: u32) -> (result: SpriteResult<u32>)
        ensures
            result == match row_request(row_span, self.sprites.sprites.spec_len()) {
                Some(rows) => Ok::<_, SpriteAuthorityError>(rows),
                None => Err(SpriteAuthorityError::CapacityRequestTooLarge(usize::MAX)),
            },
    {
        if self.sprites.sprites.len() < row_span as usize {
            return Ok(row_span);
        }
        match row_span.checked_add(1) {
            Some(rows) => Ok(rows),
            None => Err(SpriteAuthorityError::CapacityRequestTooLarge(usize::MAX)),
        }
    }

    /// Why a sprite cannot be inserted. The epoch is taken before what it shows is
    /// looked at.
    pub open spec fn sprite_insert_error(
        &self,
        row: SceneSpriteRow,
        row_span: u32,
        reserved: bool,
    ) -> Option<SpriteAuthorityError> {
        if row_request(row_span, self.sprites.sprites.spec_len()) is None {
            Some(SpriteAuthorityError::CapacityRequestTooLarge(usize::MAX))
        } else if !reserved {
            Some(SpriteAuthorityError::Capacity)
        } else if self.sprites.next_epoch == 0 {
            Some(SpriteAuthorityError::AuthoredEpochExhausted)
        } else {
            self.sprites.atlas_error(row)
        }
    }

    /// Inserts a sprite. `reserved` tells whether the store has room for the rows that
    /// [`Scene::sprite_row_request`] asks for.
    pub fn try_insert_sprite(
        &mut self,
        entity: Entity,
        row: SceneSpriteRow,
        row_span: u32,
        reserved: bool,
    ) -> (result: SpriteResult<SceneSpriteId>)
        requires
            old(self).wf(),
            !old(self).sprites.sprites.occupies(entity.index),
            entity.index < usize::MAX,
            old(self).sprites.sprites.spec_len() < u32::MAX,
        ensures
            final(self).wf(),
            *final(self) == (Scene { sprites: final(self).sprites, ..*old(self) }),
            match old(self).sprite_insert_error(row, row_span, reserved) {
                Some(error) => {
                    &&& result == Err::<SceneSpriteId, _>(error)
                    &&& final(self).sprites == (Sprites {
                        next_epoch: if error is StaleAtlas {
                            epoch_after(old(self).sprites.next_epoch)
                        } else {
                            old(self).sprites.next_epoch
                        },
                        ..old(self).sprites
                    })
                },
                None => {
                    &&& result == Ok::<_, SpriteAuthorityError>(SceneSpriteId(entity))
                    &&& old(self).sprite_inserted(final(self), entity, row)
                },
            },
    {
        match self.sprite_row_request(row_span) {
            Ok(_) => {},
            Err(error) => {
                return Err(error);
            },
        }
        if !reserved {
            return Err(SpriteAuthorityError::Capacity);
        }
        let ghost before = *self;
        let epoch: u32 = match self.sprites.allocate_sprite_authored_epoch() {
            Ok(epoch) => epoch,
            Err(error) => {
                return Err(error);
            },
        };
        let ghost timed = *self;
        proof {
            assert(timed.sprites.wf());
        }
        let stored: SceneSpriteRow = match self.sprites.resolve_sprite_atlas(row, epoch) {
            Ok(stored) => stored,
            Err(error) => {
                return Err(error);
            },
        };
        let ghost values = before.sprites.sprites.value_by_slot@;
        proof {
            assert forall|id: SceneSpriteAtlasId| layer_uses(values, id) <= values.len() by {
                lemma_occurrences_bounded(shown(values), Some(id));
            }
        }
        self.sprites.count_reference(row.atlas, true);
        let id = SceneSpriteId(entity);
        self.sprites.sprites.insert(id, stored);
        proof {
            let now = self.sprites.sprites.value_by_slot@;
            assert(shown(now) =~= shown(values).push(row.atlas));
            assert forall|a: SceneSpriteAtlasId| #[trigger]
                self.sprites.layers@.contains_key(a) implies self.sprites.layers@[a].references
                == layer_uses(now, a) by {
                assert(timed.sprites.layers@.contains_key(a));
                lemma_occurrences_push(shown(values), row.atlas, Some(a));
            }
            assert forall|i: int| 0 <= i < now.len() implies self.sprites.shows_live(
                #[trigger] now[i],
            ) by {
                if i < values.len() {
                    assert(now[i] == values[i]);
                    assert(before.sprites.shows_live(values[i]));
                }
            }
        }
        Ok(id)
    }

    /// `after` is `self` with a fresh sprite.
    pub open spec fn sprite_inserted(
        &self,
        after: &Scene,
        entity: Entity,
        row: SceneSpriteRow,
    ) -> bool {
        let before = self.sprites;
        let now = after.sprites;
        let id = SceneSpriteId(entity);
        let stored = resolved(row, before.layers@, before.next_epoch);
        &&& now.limits == before.limits
        &&& now.next_epoch == epoch_after(before.next_epoch)
        &&& before.same_layers(&now)
        &&& now.sprites@ == before.sprites@.insert(id, stored)
        &&& now.sprites.id_by_slot@ == before.sprites.id_by_slot@.push(id)
        &&& forall|index: u32|
            #[trigger] now.sprites.occupies(index) <==> before.sprites.occupies(index) || index
                == entity.index
    }

    /// Inserts a sprite that nothing speaks against.
    pub fn insert_sprite(&mut self, entity: Entity, row: SceneSpriteRow, row_span: u32) -> (id:
        SceneSpriteId)
        requires
            old(self).wf(),
            !old(self).sprites.sprites.occupies(entity.index),
            entity.index < usize::MAX,
            old(self).sprites.sprites.spec_len() < u32::MAX,
            old(self).sprite_insert_error(row, row_span, true) is None,
        ensures
            final(self).wf(),
            *final(self) == (Scene { sprites: final(self).sprites, ..*old(self) }),
            id == SceneSpriteId(entity),
            old(self).sprite_inserted(final(self), entity, row),
    {
        match self.try_insert_sprite(entity, row, row_span, true) {
            Ok(id) => id,
            Err(_) => {
                assert(false);
                SceneSpriteId(entity)
            },
        }
    }

    /// Why a sprite cannot be rewritten.
    pub open spec fn sprite_update_error(&self, id: SceneSpriteId, row: SceneSpriteRow) -> Option<
        SpriteAuthorityError,
    > {
        if !self.sprites.sprites@.contains_key(id) {
            Some(SpriteAuthorityError::StaleSprite(id))
        } else if self.sprites.next_epoch == 0 {
            Some(SpriteAuthorityError::AuthoredEpochExhausted)
        } else {
            self.sprites.atlas_error(row)
        }
    }

    /// Rewrites a sprite; a refused rewrite changes nothing but the next epoch.
    #[verifier::spinoff_prover]
    pub fn try_update_sprite(&mut self, id: SceneSpriteId, row: SceneSpriteRow) -> (result:
        SpriteResult<()>)
        requires
            old(self).wf(),
        ensures
            final(self).wf(),
            *final(self) == (Scene { sprites: final(self).sprites, ..*old(self) }),
            match old(self).sprite_update_error(id, row) {
                Some(error) => {
                    &&& result == Err::<(), _>(error)
                    &&& final(self).sprites == (Sprites {
                        next_epoch: if error is StaleAtlas {
                            epoch_after(old(self).sprites.next_epoch)
                        } else {
                            old(self).sprites.next_epoch
                        },
                        ..old(self).sprites
                    })
                },
                None => {
                    &&& result == Ok::<_, SpriteAuthorityError>(())
                    &&& old(self).sprite_updated(final(self), id, row)
                },
            },
    {
        let prior: SceneSpriteRow = match self.sprites.sprites.get(id) {
            Some(prior) => *prior,
            None => {
                return Err(SpriteAuthorityError::StaleSprite(id));
            },
        };
        let ghost before = *self;
        let ghost p = self.sprites.sprites.place(id);
        let epoch: u32 = match self.sprites.allocate_sprite_authored_epoch() {
            Ok(epoch) => epoch,
            Err(error) => {
                return Err(error);
            },
        };
        let ghost timed = *self;
        proof {
            assert(timed.sprites.wf());
        }
        let stored: SceneSpriteRow = match self.sprites.resolve_sprite_atlas(row, epoch) {
            Ok(stored) => stored,
            Err(error) => {
                return Err(error);
            },
        };
        let ghost values = before.sprites.sprites.value_by_slot@;
        let same: bool = match (prior.atlas, row.atlas) {
            (Some(a), Some(b)) => a.0.index == b.0.index && a.0.generation == b.0.generation,
            (None, None) => true,
            _ => false,
        };
        proof {
            before.sprites.sprites.lemma_contains(id);
            assert(values[p] == prior);
            assert(before.sprites.shows_live(values[p]));
            assert(shown(values)[p] == prior.atlas);
            assert(same == (prior.atlas == row.atlas));
            assert forall|a: SceneSpriteAtlasId| layer_uses(values, a) <= values.len() by {
                lemma_occurrences_bounded(shown(values), Some(a));
            }
            match prior.atlas {
                Some(a) => {
                    lemma_occurrences_positive(shown(values), Some(a));
                    assert(shown(values).contains(Some(a)));
                    assert(before.sprites.layers@.contains_key(a));
                },
                None => {},
            }
            match row.atlas {
                Some(b) => {
                    if !same {
                        let others = shown(values).update(p, Some(b));
                        lemma_occurrences_update(shown(values), p, Some(b), Some(b));
                        lemma_occurrences_bounded(others, Some(b));
                    }
                },
                None => {},
            }
        }
        if !same {
            self.sprites.count_reference(row.atlas, true);
        }
        self.sprites.sprites.set(id, stored);
        if !same {
            proof {
                match prior.atlas {
                    Some(a) => {
                        assert(timed.sprites.layers@.contains_key(a));
                        assert(self.sprites.layers@[a].references
                            == timed.sprites.layers@[a].references);
                    },
                    None => {},
                }
            }
            let ghost counted = *self;
            self.sprites.count_reference(prior.atlas, false);
            proof {
                assert forall|a: SceneSpriteAtlasId| #[trigger]
                    before.sprites.layers@.contains_key(a) implies self.sprites.layers@[a] == (
                SceneSpriteAtlasLayer {
                    references: self.sprites.layers@[a].references,
                    ..before.sprites.layers@[a]
                }) && self.sprites.layers@[a].references == before.sprites.layers@[a].references
                    + if row.atlas == Some(a) {
                    1int
                } else {
                    0
                } - if prior.atlas == Some(a) {
                    1int
                } else {
                    0
                } by {
                    assert(timed.sprites.layers@.contains_key(a));
                    assert(counted.sprites.layers@.contains_key(a));
                }
            }
        }
        proof {
            let now = self.sprites.sprites.value_by_slot@;
            assert(shown(now) =~= shown(values).update(p, row.atlas));
            assert(self.sprites.layers@.dom() =~= before.sprites.layers@.dom());
            assert forall|a: SceneSpriteAtlasId| #[trigger]
                self.sprites.layers@.contains_key(a) implies self.sprites.layers@[a].references
                == layer_uses(now, a) by {
                assert(before.sprites.layers@.contains_key(a));
                lemma_occurrences_update(shown(values), p, row.atlas, Some(a));
            }
            assert forall|i: int| 0 <= i < now.len() implies self.sprites.shows_live(
                #[trigger] now[i],
            ) by {
                if i != p {
                    assert(now[i] == values[i]);
                    assert(before.sprites.shows_live(values[i]));
                }
            }
        }
        Ok(())
    }

    /// `after` is `self` with a sprite rewritten.
    pub open spec fn sprite_updated(
        &self,
        after: &Scene,
        id: SceneSpriteId,
        row: SceneSpriteRow,
    ) -> bool {
        let before = self.sprites;
        let now = after.sprites;
        &&& now.limits == before.limits
        &&& now.next_epoch == epoch_after(before.next_epoch)
        &&& before.same_layers(&now)
        &&& now.sprites@ == before.sprites@.insert(
            id,
            resolved(row, before.layers@, before.next_epoch),
        )
        &&& now.sprites.id_by_slot == before.sprites.id_by_slot
    }

    /// Rewrites a sprite that nothing speaks against.
    pub fn update_sprite(&mut self, id: SceneSpriteId, row: SceneSpriteRow)
        requires
            old(self).wf(),
            old(self).sprite_update_error(id, row) is None,
        ensures
            final(self).wf(),
            *final(self) == (Scene { sprites: final(self).sprites, ..*old(self) }),
            old(self).sprite_updated(final(self), id, row),
    {
        match self.try_update_sprite(id, row) {
            Ok(()) => {},
            Err(_) => {
                assert(false);
            },
        }
    }

    /// `after` is `self` without a sprite.
    pub open spec fn sprite_removed(&self, after: &Scene, id: SceneSpriteId) -> bool {
        let before = self.sprites;
        let now = after.sprites;
        &&& *after == (Scene { sprites: now, ..*self })
        &&& now.limits == before.limits
        &&& now.next_epoch == before.next_epoch
        &&& before.same_layers(&now)
        &&& now.sprites@ == before.sprites@.remove(id)
        &&& now.sprites.id_by_slot@ == swap_removed(
            before.sprites.id_by_slot@,
            before.sprites.place(id),
        )
        &&& forall|index: u32|
            #[trigger] now.sprites.occupies(index) <==> before.sprites.occupies(index) && index
                != id.0.index
    }

    /// Removes a sprite and hands it back.
    pub fn try_remove_sprite(&mut self, id: SceneSpriteId) -> (result: SpriteResult<SceneSpriteRow>)
        requires
            old(self).wf(),
        ensures
            final(self).wf(),
            if old(self).sprites.sprites@.contains_key(id) {
                &&& result == Ok::<_, SpriteAuthorityError>(old(self).sprites.sprites@[id])
                &&& old(self).sprite_removed(final(self), id)
            } else {
                &&& result == Err::<SceneSpriteRow, _>(SpriteAuthorityError::StaleSprite(id))
                &&& *final(self) == *old(self)
            },
    {
        let prior: SceneSpriteRow = match self.sprites.sprites.get(id) {
            Some(prior) => *prior,
            None => {
                return Err(SpriteAuthorityError::StaleSprite(id));
            },
        };
        let ghost before = *self;
        let ghost p = self.sprites.sprites.place(id);
        let ghost values = before.sprites.sprites.value_by_slot@;
        proof {
            before.sprites.sprites.lemma_contains(id);
            assert(values[p] == prior);
            assert(before.sprites.shows_live(values[p]));
            assert(shown(values)[p] == prior.atlas);
            match prior.atlas {
                Some(a) => {
                    lemma_occurrences_positive(shown(values), Some(a));
                    assert(shown(values).contains(Some(a)));
                    assert(before.sprites.layers@.contains_key(a));
                },
                None => {},
            }
        }
        self.sprites.count_reference(prior.atlas, false);
        self.sprites.sprites.remove(id);
        proof {
            let now = self.sprites.sprites.value_by_slot@;
            let last = values.len() - 1;
            assert(shown(now) =~= swap_removed(shown(values), p));
            assert forall|a: SceneSpriteAtlasId| #[trigger]
                self.sprites.layers@.contains_key(a) implies self.sprites.layers@[a].references
                == layer_uses(now, a) by {
                assert(before.sprites.layers@.contains_key(a));
                lemma_occurrences_swap_removed(shown(values), p, Some(a));
            }
            assert forall|i: int| 0 <= i < now.len() implies self.sprites.shows_live(
                #[trigger] now[i],
            ) by {
                let j = if i == p {
                    last
                } else {
                    i
                };
                assert(now[i] == values[j]);
                assert(before.sprites.shows_live(values[j]));
            }
        }
        Ok(prior)
    }

    /// Removes a live sprite.
    pub fn remove_sprite(&mut self, id: SceneSpriteId)
        requires
            old(self).wf(),
            old(self).sprites.sprites@.contains_key(id),
        ensures
            final(self).wf(),
            old(self).sprite_removed(final(self), id),
    {
        match self.try_remove_sprite(id) {
            Ok(_) => {},
            Err(_) => {
                assert(false);
            },
        }
    }

    pub fn sprite(&self, id: SceneSpriteId) -> (row: Option<SceneSpriteRow>)
        requires
            self.wf(),
        ensures
            row == if self.sprites.sprites@.contains_key(id) {
                Some(self.sprites.sprites@[id])
            } else {
                None::<SceneSpriteRow>
            },
    {
        match self.sprites.sprites.get(id) {
            Some(row) => Some(*row),
            None => None,
        }
    }

    /// `after` is `self` without sprites; no layer is shown any more.
    pub open spec fn sprites_cleared(&self, after: &Scene) -> bool {
        &&& *after == (Scene { sprites: after.sprites, ..*self })
        &&& after.sprites.limits == self.sprites.limits
        &&& after.sprites.next_epoch == self.sprites.next_epoch
        &&& self.sprites.same_layers(&after.sprites)
        &&& after.sprites.sprites@ == Map::<SceneSpriteId, SceneSpriteRow>::empty()
        &&& after.sprites.sprites.spec_len() == 0
        &&& forall|id: SceneSpriteAtlasId| #[trigger]
            after.sprites.layers@.contains_key(id) ==> after.sprites.layers@[id].references == 0
    }

    /// Removes every sprite; this always succeeds.
    pub fn try_clear_sprites(&mut self) -> (result: SpriteResult<()>)
        requires
            old(self).wf(),
        ensures
            final(self).wf(),
            result == Ok::<_, SpriteAuthorityError>(()),
            old(self).sprites_cleared(final(self)),
    {
        let ghost before = *self;
        while self.sprites.sprites.id_by_slot.len() > 0
            invariant
                self.wf(),
                *self == (Scene { sprites: self.sprites, ..before }),
                self.sprites.limits == before.sprites.limits,
                self.sprites.next_epoch == before.sprites.next_epoch,
                before.sprites.same_layers(&self.sprites),
            decreases self.sprites.sprites.spec_len(),
        {
            let ghost prior = *self;
            let id: SceneSpriteId = self.sprites.sprites.id_by_slot[0];
            proof {
                self.sprites.sprites.lemma_dense(0);
            }
            match self.try_remove_sprite(id) {
                Ok(_) => {},
                Err(error) => {
                    assert(false);
                    return Err(error);
                },
            }
            proof {
                assert forall|a: SceneSpriteAtlasId| #[trigger]
                    before.sprites.layers@.contains_key(a) implies self.sprites.layers@[a] == (
                SceneSpriteAtlasLayer {
                    references: self.sprites.layers@[a].references,
                    ..before.sprites.layers@[a]
                }) by {
                    assert(prior.sprites.layers@.contains_key(a));
                }
            }
        }
        proof {
            let none = Map::<SceneSpriteId, SceneSpriteRow>::empty();
            assert forall|id: SceneSpriteId| !self.sprites.sprites@.contains_key(id) by {
                self.sprites.sprites.lemma_contains(id);
            }
            assert(self.sprites.sprites@ =~= none);
            assert(shown(self.sprites.sprites.value_by_slot@).len() == 0);
        }
        Ok(())
    }

    /// Removes every sprite.
    pub fn clear_sprites(&mut self)
        requires
            old(self).wf(),
        ensures
            final(self).wf(),
            old(self).sprites_cleared(final(self)),
    {
        let _ = self.try_clear_sprites();
    }

    /// The rows to reserve for `capacity` sprites; `reserved` tells whether the store
    /// has room for them.
    pub fn try_reserve_sprites(&self, capacity: usize, reserved: bool) -> (result: SpriteResult<u32>)
        ensures
            result == if capacity > u32::MAX {
                Err::<u32, _>(SpriteAuthorityError::CapacityRequestTooLarge(capacity))
            } else if !reserved {
                Err(SpriteAuthorityError::Capacity)
            } else {
                Ok(capacity as u32)
            },
    {
        if capacity > u32::MAX as usize {
            return Err(SpriteAuthorityError::CapacityRequestTooLarge(capacity));
        }
        if !reserved {
            return Err(SpriteAuthorityError::Capacity);
        }
        Ok(capacity as u32)
    }

    /// The rows to reserve for `capacity` sprites, which the store has room for.
    pub fn reserve_sprites(&self, capacity: usize) -> (rows: u32)
        requires
            capacity <= u32::MAX,
        ensures
            rows == capacity,
    {
        capacity as u32
    }

    /// Registers an atlas layer. `residency` is where the store keeps the image, or why
    /// it does not take it.
    pub fn try_add_sprite_atlas_layer(
        &mut self,
        entity: Entity,
        width: u32,
        height: u32,
        content_hash: u64,
        residency: core::result::Result<u32, SpriteAtlasError>,
    ) -> (result: SpriteResult<SceneSpriteAtlasId>)
        requires
            old(self).wf(),
            !old(self).sprites.layers.occupies(entity.index),
            entity.index < usize::MAX,
            old(self).sprites.layers.spec_len() < u32::MAX,
        ensures
            final(self).wf(),
            match residency {
                Ok(physical_layer) => {
                    &&& result == Ok::<_, SpriteAuthorityError>(SceneSpriteAtlasId(entity))
                    &&& old(self).atlas_layer_added(
                        final(self),
                        entity,
                        width,
                        height,
                        content_hash,
                        physical_layer,
                    )
                },
                Err(error) => {
                    &&& result == Err::<SceneSpriteAtlasId, _>(SpriteAuthorityError::Atlas(error))
                    &&& *final(self) == *old(self)
                },
            },
    {
        match residency {
            Ok(physical_layer) => Ok(
                self.add_sprite_atlas_layer(entity, width, height, content_hash, physical_layer),
            ),
            Err(error) => Err(SpriteAuthorityError::Atlas(error)),
        }
    }

    /// `after` is `self` with a fresh layer that no sprite shows.
    pub open spec fn atlas_layer_added(
        &self,
        after: &Scene,
        entity: Entity,
        width: u32,
        height: u32,
        content_hash: u64,
        physical_layer: u32,
    ) -> bool {
        let id = SceneSpriteAtlasId(entity);
        let layer = SceneSpriteAtlasLayer {
            width,
            height,
            content_hash,
            physical_layer,
            references: 0,
        };
        &&& *after == (Scene {
            sprites: Sprites { layers: after.sprites.layers, ..self.sprites },
            ..*self
        })
        &&& after.sprites.layers@ == self.sprites.layers@.insert(id, layer)
        &&& after.sprites.layers.id_by_slot@ == self.sprites.layers.id_by_slot@.push(id)
        &&& forall|index: u32|
            #[trigger] after.sprites.layers.occupies(index) <==> self.sprites.layers.occupies(index)
                || index == entity.index
    }

    /// Registers an atlas layer that the store has taken.
    pub fn add_sprite_atlas_layer(
        &mut self,
        entity: Entity,
        width: u32,
        height: u32,
        content_hash: u64,
        physical_layer: u32,
    ) -> (id: SceneSpriteAtlasId)
        requires
            old(self).wf(),
            !old(self).sprites.layers.occupies(entity.index),
            entity.index < usize::MAX,
            old(self).sprites.layers.spec_len() < u32::MAX,
        ensures
            final(self).wf(),
            id == SceneSpriteAtlasId(entity),
            old(self).atlas_layer_added(
                final(self),
                entity,
                width,
                height,
                content_hash,
                physical_layer,
            ),
    {
        let ghost before = *self;
        let id = SceneSpriteAtlasId(entity);
        let layer = SceneSpriteAtlasLayer {
            width,
            height,
            content_hash,
            physical_layer,
            references: 0,
        };
        self.sprites.layers.insert(id, layer);
        proof {
            let values = self.sprites.sprites.value_by_slot@;
            before.sprites.layers.lemma_contains(id);
            assert(!before.sprites.layers@.contains_key(id));
            assert(layer_uses(values, id) == 0) by {
                lemma_occurrences_positive(shown(values), Some(id));
                if shown(values).contains(Some(id)) {
                    let i = shown(values).index_of(Some(id));
                    assert(values[i].atlas == Some(id));
                    assert(before.sprites.shows_live(values[i]));
                }
            }
            assert forall|a: SceneSpriteAtlasId| #[trigger]
                self.sprites.layers@.contains_key(a) implies self.sprites.layers@[a].references
                == layer_uses(values, a) by {
                if a != id {
                    assert(before.sprites.layers@.contains_key(a));
                }
            }
            assert forall|i: int| 0 <= i < values.len() implies self.sprites.shows_live(
                #[trigger] values[i],
            ) by {
                assert(before.sprites.shows_live(values[i]));
            }
        }
        id
    }

    /// Why an atlas layer cannot be removed.
    pub open spec fn layer_error(&self, id: SceneSpriteAtlasId) -> Option<SpriteAuthorityError> {
        if !self.sprites.layers@.contains_key(id) {
            Some(SpriteAuthorityError::StaleAtlas(id))
        } else if self.sprites.layers@[id].references != 0 {
            Some(
                SpriteAuthorityError::Atlas(
                    SpriteAtlasError::LayerInUse { references: self.sprites.layers@[id].references },
                ),
            )
        } else {
            None
        }
    }

    /// `after` is `self` without an atlas layer.
    pub open spec fn atlas_layer_removed(&self, after: &Scene, id: SceneSpriteAtlasId) -> bool {
        &&& *after == (Scene {
            sprites: Sprites { layers: after.sprites.layers, ..self.sprites },
            ..*self
        })
        &&& after.sprites.layers@ == self.sprites.layers@.remove(id)
        &&& after.sprites.layers.id_by_slot@ == swap_removed(
            self.sprites.layers.id_by_slot@,
            self.sprites.layers.place(id),
        )
        &&& forall|index: u32|
            #[trigger] after.sprites.layers.occupies(index) <==> self.sprites.layers.occupies(index)
                && index != id.0.index
    }

    /// Removes an atlas layer that no sprite shows.
    pub fn try_remove_sprite_atlas_layer(&mut self, id: SceneSpriteAtlasId) -> (result:
        SpriteResult<()>)
        requires
            old(self).wf(),
        ensures
            final(self).wf(),
            match old(self).layer_error(id) {
                Some(error) => result == Err::<(), _>(error) && *final(self) == *old(self),
                None => {
                    &&& result == Ok::<_, SpriteAuthorityError>(())
                    &&& old(self).atlas_layer_removed(final(self), id)
                },
            },
    {
        match self.sprites.layers.get(id) {
            Some(layer) => {
                let references: u32 = layer.references;
                if references != 0 {
                    return Err(
                        SpriteAuthorityError::Atlas(SpriteAtlasError::LayerInUse { references }),
                    );
                }
            },
            None => {
                return Err(SpriteAuthorityError::StaleAtlas(id));
            },
        }
        let ghost before = *self;
        proof {
            before.sprites.layers.lemma_contains(id);
        }
        self.sprites.layers.remove(id);
        proof {
            let values = self.sprites.sprites.value_by_slot@;
            assert forall|i: int| 0 <= i < values.len() implies self.sprites.shows_live(
                #[trigger] values[i],
            ) by {
                assert(before.sprites.shows_live(values[i]));
                if values[i].atlas == Some(id) {
                    assert(shown(values)[i] == Some(id));
                    lemma_occurrences_positive(shown(values), Some(id));
                }
            }
            assert forall|a: SceneSpriteAtlasId| #[trigger]
                self.sprites.layers@.contains_key(a) implies self.sprites.layers@[a].references
                == layer_uses(values, a) by {
                assert(before.sprites.layers@.contains_key(a));
            }
        }
        Ok(())
    }

    /// Removes a live atlas layer that no sprite shows.
    pub fn remove_sprite_atlas_layer(&mut self, id: SceneSpriteAtlasId)
        requires
            old(self).wf(),
            old(self).layer_error(id) is None,
        ensures
            final(self).wf(),
            old(self).atlas_layer_removed(final(self), id),
    {
        match self.try_remove_sprite_atlas_layer(id) {
            Ok(()) => {},
            Err(_) => {
                assert(false);
            },
        }
    }

    /// The first layer in compact order that sprites show, if there is one.
    pub open spec fn first_layer_in_use(&self, i: int) -> bool {
        &&& 0 <= i < self.sprites.layers.spec_len()
        &&& self.sprites.layers.value_by_slot@[i].references != 0
        &&& forall|j: int|
            0 <= j < i ==> (#[trigger] self.sprites.layers.value_by_slot@[j]).references == 0
    }

    /// No sprite shows any layer.
    pub open spec fn layers_unused(&self) -> bool {
        forall|j: int|
            0 <= j < self.sprites.layers.spec_len() ==> (
            #[trigger] self.sprites.layers.value_by_slot@[j]).references == 0
    }

    /// `after` is `self` without atlas layers.
    pub open spec fn layers_cleared(&self, after: &Scene) -> bool {
        &&& *after == (Scene {
            sprites: Sprites { layers: after.sprites.layers, ..self.sprites },
            ..*self
        })
        &&& after.sprites.layers@ == Map::<SceneSpriteAtlasId, SceneSpriteAtlasLayer>::empty()
        &&& after.sprites.layers.spec_len() == 0
    }

    /// Removes every atlas layer, or none if a sprite shows one.
    pub fn try_clear_sprite_atlas_layers(&mut self) -> (result: SpriteResult<()>)
        requires
            old(self).wf(),
        ensures
            final(self).wf(),
            match result {
                Ok(()) => old(self).layers_unused() && old(self).layers_cleared(final(self)),
                Err(error) => {
                    &&& *final(self) == *old(self)
                    &&& exists|i: int| #[trigger]
                        old(self).first_layer_in_use(i) && error == SpriteAuthorityError::Atlas(
                            SpriteAtlasError::LayerInUse {
                                references: old(self).sprites.layers.value_by_slot@[i].references,
                            },
                        )
                },
            },
    {
        let ghost before = *self;
        let mut i: usize = 0;
        while i < self.sprites.layers.value_by_slot.len()
            invariant
                *self == before,
                self.wf(),
                0 <= i <= self.sprites.layers.spec_len(),
                forall|j: int|
                    0 <= j < i ==> (#[trigger] self.sprites.layers.value_by_slot@[j]).references
                        == 0,
            decreases self.sprites.layers.spec_len() - i,
        {
            let references: u32 = self.sprites.layers.value_by_slot[i].references;
            if references != 0 {
                assert(before.first_layer_in_use(i as int));
                return Err(
                    SpriteAuthorityError::Atlas(SpriteAtlasError::LayerInUse { references }),
                );
            }
            i = i + 1;
        }
        assert(before.layers_unused());
        while self.sprites.layers.id_by_slot.len() > 0
            invariant
                self.wf(),
                self.layers_unused(),
                *self == (Scene {
                    sprites: Sprites { layers: self.sprites.layers, ..before.sprites },
                    ..before
                }),
            decreases self.sprites.layers.spec_len(),
        {
            let id: SceneSpriteAtlasId = self.sprites.layers.id_by_slot[0];
            let ghost prior = *self;
            proof {
                self.sprites.layers.lemma_dense(0);
            }
            self.remove_sprite_atlas_layer(id);
            proof {
                assert forall|j: int| 0 <= j < self.sprites.layers.spec_len() implies (
                #[trigger] self.sprites.layers.value_by_slot@[j]).references == 0 by {
                    self.sprites.layers.lemma_dense(j);
                    let a = self.sprites.layers.id_by_slot@[j];
                    assert(prior.sprites.layers@.contains_key(a));
                    prior.sprites.layers.lemma_contains(a);
                    assert(prior.sprites.layers.value_by_slot@[prior.sprites.layers.place(
                        a,
                    )].references == 0);
                }
            }
        }
        proof {
            let none = Map::<SceneSpriteAtlasId, SceneSpriteAtlasLayer>::empty();
            assert forall|id: SceneSpriteAtlasId| !self.sprites.layers@.contains_key(id) by {
                self.sprites.layers.lemma_contains(id);
            }
            assert(self.sprites.layers@ =~= none);
        }
        Ok(())
    }

    /// Removes every atlas layer, none of which a sprite shows.
    pub fn clear_sprite_atlas_layers(&mut self)
        requires
            old(self).wf(),
            old(self).layers_unused(),
        ensures
            final(self).wf(),
            old(self).layers_cleared(final(self)),
    {
        match self.try_clear_sprite_atlas_layers() {
            Ok(()) => {},
            Err(_) => {
                assert(false);
            },
        }
    }

    pub fn sprite_count(&self) -> (count: usize)
        ensures
            count == self.sprites.sprites.spec_len(),
    {
        self.sprites.sprites.len()
    }

    pub fn sprite_atlas_layer_count(&self) -> (count: usize)
        ensures
            count == self.sprites.layers.spec_len(),
    {
        self.sprites.layers.len()
    }

    /// Layers that can be imported, and the greatest width or height of one.
    pub fn sprite_atlas_limits(&self) -> (limits: (u32, u32))
        ensures
            limits == self.sprites.limits,
    {
        self.sprites.limits
    }
}

/// A layer that a sprite shows cannot be removed.
pub proof fn lemma_shown_layer_stays(scene: Scene, id: SceneSpriteId, atlas: SceneSpriteAtlasId)
    requires
        scene.wf(),
        scene.sprites.sprites@.contains_key(id),
        scene.sprites.sprites@[id].atlas == Some(atlas),
    ensures
        scene.layer_error(atlas) is Some,
        scene.sprites.layers@.contains_key(atlas),
{
    let values = scene.sprites.sprites.value_by_slot@;
    let p = scene.sprites.sprites.place(id);
    scene.sprites.sprites.lemma_contains(id);
    assert(scene.sprites.shows_live(values[p]));
    assert(shown(values)[p] == Some(atlas));
    lemma_occurrences_positive(shown(values), Some(atlas));
}

} // verus!
