//! Planet frames: one coordinate frame for each planet.
use vstd::prelude::*;

use crate::errors::{invalid, Result, SceneError};
use crate::handles::Entity;
use crate::scene::Scene;

verus! {

/// Names a planet in streamed page addresses.
#[derive(Clone, Copy, Debug, PartialEq, Eq, Structural)]
pub struct PlanetId(pub u64);

/// Names one frame for as long as it exists.
#[derive(Clone, Copy, Debug, PartialEq, Eq, Structural)]
pub struct PlanetFrameId(pub Entity);

#[derive(Clone, Copy, Debug)]
pub struct PlanetFrameUniform {
    pub planet: PlanetId,
    /// Origin, axes and radii, packed.
    pub body: [u32; 32],
}

#[derive(Clone, Copy, Debug)]
pub struct PlanetFrameEntry {
    pub id: PlanetFrameId,
    pub frame: PlanetFrameUniform,
}

/// What an update of a frame did.
#[derive(Clone, Copy, Debug, PartialEq, Eq, Structural)]
pub enum PlanetFrameUpdateOutcome {
    Inserted,
    Updated,
    Unchanged,
}

/// Why the store refuses a frame.
#[derive(Clone, Copy, Debug, PartialEq, Eq)]
pub enum PlanetFrameAuthorityError {
    StaleFrame,
    DuplicatePlanet(PlanetId),
    PlanetIdentityMismatch { expected: PlanetId, found: PlanetId },
    InvalidFrame,
    CapacityExceeded,
}

pub type PlanetVerdict<T> = core::result::Result<T, PlanetFrameAuthorityError>;

/// What a refusal means for the scene.
pub open spec fn planet_frame_error(error: PlanetFrameAuthorityError) -> SceneError {
    match error {
        PlanetFrameAuthorityError::StaleFrame => SceneError::InvalidHandle {
            resource: "planet frame",
        },
        PlanetFrameAuthorityError::DuplicatePlanet(_) => SceneError::InvalidOperation {
            reason: "planet already has a canonical frame",
        },
        PlanetFrameAuthorityError::PlanetIdentityMismatch { .. } => SceneError::InvalidOperation {
            reason: "planet id cannot change without replacing its canonical identity",
        },
        PlanetFrameAuthorityError::InvalidFrame => SceneError::InvalidOperation {
            reason: "planet frame does not match the canonical planetary coordinate contract",
        },
        PlanetFrameAuthorityError::CapacityExceeded => SceneError::InvalidOperation {
            reason: "SceneDB planet frames exceed the device storage-buffer limit",
        },
    }
}

pub fn map_planet_frame_error(error: PlanetFrameAuthorityError) -> (mapped: SceneError)
    ensures
        mapped == planet_frame_error(error),
{
    match error {
        PlanetFrameAuthorityError::StaleFrame => invalid("planet frame"),
        PlanetFrameAuthorityError::DuplicatePlanet(_) => SceneError::InvalidOperation {
            reason: "planet already has a canonical frame",
        },
        PlanetFrameAuthorityError::PlanetIdentityMismatch { .. } => SceneError::InvalidOperation {
            reason: "planet id cannot change without replacing its canonical identity",
        },
        PlanetFrameAuthorityError::InvalidFrame => SceneError::InvalidOperation {
            reason: "planet frame does not match the canonical planetary coordinate contract",
        },
        PlanetFrameAuthorityError::CapacityExceeded => SceneError::InvalidOperation {
            reason: "SceneDB planet frames exceed the device storage-buffer limit",
        },
    }
}

/// The frames, one for each planet.
pub struct PlanetFrames {
    pub entries: Vec<PlanetFrameEntry>,
}

/// Some entry has the name.
pub open spec fn names_frame(entries: Seq<PlanetFrameEntry>, id: PlanetFrameId) -> bool {
    exists|i: int| 0 <= i < entries.len() && (#[trigger] entries[i]).id == id
}

/// Some entry is of the planet.
pub open spec fn frames_planet(entries: Seq<PlanetFrameEntry>, planet: PlanetId) -> bool {
    exists|i: int| 0 <= i < entries.len() && (#[trigger] entries[i]).frame.planet == planet
}

/// The entry with the name.
pub open spec fn place_of(entries: Seq<PlanetFrameEntry>, id: PlanetFrameId) -> int {
    choose|i: int| 0 <= i < entries.len() && (#[trigger] entries[i]).id == id
}

/// The entry of the planet.
pub open spec fn place_for(entries: Seq<PlanetFrameEntry>, planet: PlanetId) -> int {
    choose|i: int| 0 <= i < entries.len() && (#[trigger] entries[i]).frame.planet == planet
}

impl PlanetFrames {
    /// No name and no planet occurs twice.
    pub open spec fn wf(&self) -> bool {
        forall|i: int, j: int|
            0 <= i < self.entries@.len() && 0 <= j < self.entries@.len() && i != j ==> (
            #[trigger] self.entries@[i]).id != (#[trigger] self.entries@[j]).id
                && self.entries@[i].frame.planet != self.entries@[j].frame.planet
    }

    pub fn new() -> (frames: Self)
        ensures
            frames.wf(),
            frames.entries@ == Seq::<PlanetFrameEntry>::empty(),
    {
        PlanetFrames { entries: Vec::new() }
    }

    fn find(&self, id: PlanetFrameId) -> (place: Option<usize>)
        requires
            self.wf(),
        ensures
            match place {
                Some(i) => names_frame(self.entries@, id) && i < self.entries@.len() && i
                    == place_of(self.entries@, id) && self.entries@[i as int].id == id,
                None => !names_frame(self.entries@, id),
            },
    {
        let mut i: usize = 0;
        while i < self.entries.len()
            invariant
                self.wf(),
                0 <= i <= self.entries@.len(),
                forall|j: int| 0 <= j < i ==> (#[trigger] self.entries@[j]).id != id,
            decreases self.entries@.len() - i,
        {
            if self.entries[i].id == id {
                assert(self.entries@[i as int].id == id);
                assert(self.entries@[place_of(self.entries@, id)].id == id);
                return Some(i);
            }
            i = i + 1;
        }
        None
    }

    fn find_planet(&self, planet: PlanetId) -> (place: Option<usize>)
        requires
            self.wf(),
        ensures
            match place {
                Some(i) => frames_planet(self.entries@, planet) && i < self.entries@.len() && i
                    == place_for(self.entries@, planet) && self.entries@[i as int].frame.planet
                    == planet,
                None => !frames_planet(self.entries@, planet),
            },
    {
        let mut i: usize = 0;
        while i < self.entries.len()
            invariant
                self.wf(),
                0 <= i <= self.entries@.len(),
                forall|j: int| 0 <= j < i ==> (#[trigger] self.entries@[j]).frame.planet != planet,
            decreases self.entries@.len() - i,
        {
            if self.entries[i].frame.planet == planet {
                assert(self.entries@[i as int].frame.planet == planet);
                assert(self.entries@[place_for(self.entries@, planet)].frame.planet == planet);
                return Some(i);
            }
            i = i + 1;
        }
        None
    }

    fn append(&mut self, id: PlanetFrameId, frame: PlanetFrameUniform)
        requires
            old(self).wf(),
            !names_frame(old(self).entries@, id),
            !frames_planet(old(self).entries@, frame.planet),
        ensures
            final(self).wf(),
            final(self).entries@ == old(self).entries@.push(PlanetFrameEntry { id, frame }),
    {
        self.entries.push(PlanetFrameEntry { id, frame });
        proof {
            let before = old(self).entries@;
            assert forall|i: int| 0 <= i < before.len() implies #[trigger] self.entries@[i]
                == before[i] && before[i].id != id && before[i].frame.planet != frame.planet by {}
        }
    }

    fn rewrite(&mut self, place: usize, frame: PlanetFrameUniform)
        requires
            old(self).wf(),
            place < old(self).entries@.len(),
            frame.planet == old(self).entries@[place as int].frame.planet,
        ensures
            final(self).wf(),
            final(self).entries@ == old(self).entries@.update(
                place as int,
                PlanetFrameEntry { id: old(self).entries@[place as int].id, frame },
            ),
    {
        let id: PlanetFrameId = self.entries[place].id;
        self.entries.set(place, PlanetFrameEntry { id, frame });
        proof {
            let before = old(self).entries@;
            assert forall|i: int| 0 <= i < before.len() implies (#[trigger] self.entries@[i]).id
                == before[i].id && self.entries@[i].frame.planet == before[i].frame.planet by {}
        }
    }

    fn take(&mut self, place: usize) -> (frame: PlanetFrameUniform)
        requires
            old(self).wf(),
            place < old(self).entries@.len(),
        ensures
            final(self).wf(),
            frame == old(self).entries@[place as int].frame,
            final(self).entries@ == old(self).entries@.remove(place as int),
    {
        let entry: PlanetFrameEntry = self.entries.remove(place);
        proof {
            let before = old(self).entries@;
            assert forall|i: int| 0 <= i < self.entries@.len() implies #[trigger] self.entries@[i]
                == before[if i < place {
                i
            } else {
                i + 1
            }] by {}
        }
        entry.frame
    }
}

impl Scene {
    /// `after` is `self` with a fresh frame, if it was stored.
    pub open spec fn frame_inserted(
        &self,
        after: &Scene,
        frame: PlanetFrameUniform,
        stored: PlanetVerdict<PlanetFrameId>,
        result: Result<PlanetFrameId>,
    ) -> bool {
        &&& *after == (Scene { planets: after.planets, ..*self })
        &&& match stored {
            Ok(id) => {
                &&& result == Ok::<_, SceneError>(id)
                &&& after.planets.entries@ == self.planets.entries@.push(
                    PlanetFrameEntry { id, frame },
                )
            },
            Err(error) => {
                &&& result == Err::<PlanetFrameId, _>(planet_frame_error(error))
                &&& *after == *self
            },
        }
    }

    /// Registers the frame of a new planet. `stored` is the name that the store gave it,
    /// or why it refused.
    pub fn insert_planet_frame(
        &mut self,
        frame: PlanetFrameUniform,
        stored: PlanetVerdict<PlanetFrameId>,
    ) -> (result: Result<PlanetFrameId>)
        requires
            old(self).wf(),
            stored matches Ok(id) ==> !names_frame(old(self).planets.entries@, id)
                && !frames_planet(old(self).planets.entries@, frame.planet),
        ensures
            final(self).wf(),
            old(self).frame_inserted(final(self), frame, stored, result),
    {
        match stored {
            Ok(id) => {
                self.planets.append(id, frame);
                Ok(id)
            },
            Err(error) => Err(map_planet_frame_error(error)),
        }
    }

    /// `after` is `self` with the frame for its planet, if it was stored.
    pub open spec fn frame_set(
        &self,
        after: &Scene,
        frame: PlanetFrameUniform,
        stored: PlanetVerdict<(PlanetFrameId, PlanetFrameUpdateOutcome)>,
        result: Result<(PlanetFrameId, PlanetFrameUpdateOutcome)>,
    ) -> bool {
        &&& *after == (Scene { planets: after.planets, ..*self })
        &&& match stored {
            Ok(given) => {
                let entries = self.planets.entries@;
                let entry = PlanetFrameEntry { id: given.0, frame };
                &&& result == Ok::<_, SceneError>(given)
                &&& after.planets.entries@ == if frames_planet(entries, frame.planet) {
                    entries.update(place_for(entries, frame.planet), entry)
                } else {
                    entries.push(entry)
                }
            },
            Err(error) => {
                &&& result == Err::<(PlanetFrameId, PlanetFrameUpdateOutcome), _>(
                    planet_frame_error(error),
                )
                &&& *after == *self
            },
        }
    }

    /// Inserts a planet's frame, or updates the one it has, which keeps its name.
    pub fn set_planet_frame(
        &mut self,
        frame: PlanetFrameUniform,
        stored: PlanetVerdict<(PlanetFrameId, PlanetFrameUpdateOutcome)>,
    ) -> (result: Result<(PlanetFrameId, PlanetFrameUpdateOutcome)>)
        requires
            old(self).wf(),
            stored matches Ok((id, _)) ==> if frames_planet(
                old(self).planets.entries@,
                frame.planet,
            ) {
                id == old(self).planets.entries@[place_for(
                    old(self).planets.entries@,
                    frame.planet,
                )].id
            } else {
                !names_frame(old(self).planets.entries@, id)
            },
        ensures
            final(self).wf(),
            old(self).frame_set(final(self), frame, stored, result),
    {
        match stored {
            Ok(given) => {
                match self.planets.find_planet(frame.planet) {
                    Some(place) => {
                        self.planets.rewrite(place, frame);
                    },
                    None => {
                        self.planets.append(given.0, frame);
                    },
                }
                Ok(given)
            },
            Err(error) => Err(map_planet_frame_error(error)),
        }
    }

    /// `after` is `self` with another frame under `id`, if it was stored.
    pub open spec fn frame_updated(
        &self,
        after: &Scene,
        id: PlanetFrameId,
        frame: PlanetFrameUniform,
        stored: PlanetVerdict<PlanetFrameUpdateOutcome>,
        result: Result<PlanetFrameUpdateOutcome>,
    ) -> bool {
        &&& *after == (Scene { planets: after.planets, ..*self })
        &&& match stored {
            Ok(outcome) => {
                let entries = self.planets.entries@;
                &&& result == Ok::<_, SceneError>(outcome)
                &&& after.planets.entries@ == entries.update(
                    place_of(entries, id),
                    PlanetFrameEntry { id, frame },
                )
            },
            Err(error) => {
                &&& result == Err::<PlanetFrameUpdateOutcome, _>(planet_frame_error(error))
                &&& *after == *self
            },
        }
    }

    /// Updates a live frame; its planet stays the same.
    pub fn update_planet_frame(
        &mut self,
        id: PlanetFrameId,
        frame: PlanetFrameUniform,
        stored: PlanetVerdict<PlanetFrameUpdateOutcome>,
    ) -> (result: Result<PlanetFrameUpdateOutcome>)
        requires
            old(self).wf(),
            stored is Ok ==> names_frame(old(self).planets.entries@, id) && frame.planet == old(
                self,
            ).planets.entries@[place_of(old(self).planets.entries@, id)].frame.planet,
        ensures
            final(self).wf(),
            old(self).frame_updated(final(self), id, frame, stored, result),
    {
        match stored {
            Ok(outcome) => {
                match self.planets.find(id) {
                    Some(place) => {
                        self.planets.rewrite(place, frame);
                    },
                    None => {
                        assert(false);
                    },
                }
                Ok(outcome)
            },
            Err(error) => Err(map_planet_frame_error(error)),
        }
    }

    /// `after` is `self` without a frame, if the store let it go.
    pub open spec fn frame_removed(
        &self,
        after: &Scene,
        id: PlanetFrameId,
        stored: PlanetVerdict<()>,
        result: Result<PlanetFrameUniform>,
    ) -> bool {
        &&& *after == (Scene { planets: after.planets, ..*self })
        &&& match stored {
            Ok(()) => {
                let entries = self.planets.entries@;
                &&& result == Ok::<_, SceneError>(entries[place_of(entries, id)].frame)
                &&& after.planets.entries@ == entries.remove(place_of(entries, id))
            },
            Err(error) => {
                &&& result == Err::<PlanetFrameUniform, _>(planet_frame_error(error))
                &&& *after == *self
            },
        }
    }

    /// Removes a live frame and hands it back.
    pub fn remove_planet_frame(&mut self, id: PlanetFrameId, stored: PlanetVerdict<()>) -> (result:
        Result<PlanetFrameUniform>)
        requires
            old(self).wf(),
            stored is Ok ==> names_frame(old(self).planets.entries@, id),
        ensures
            final(self).wf(),
            old(self).frame_removed(final(self), id, stored, result),
    {
        match stored {
            Ok(()) => match self.planets.find(id) {
                Some(place) => Ok(self.planets.take(place)),
                None => {
                    assert(false);
                    Err(invalid("planet frame"))
                },
            },
            Err(error) => Err(map_planet_frame_error(error)),
        }
    }

    /// Removes a planet's frame, if it has one, and hands it back.
    pub fn remove_planet(&mut self, planet: PlanetId, stored: PlanetVerdict<()>) -> (result: Result<
        Option<PlanetFrameUniform>,
    >)
        requires
            old(self).wf(),
        ensures
            final(self).wf(),
            *final(self) == (Scene { planets: final(self).planets, ..*old(self) }),
            match stored {
                Ok(()) => {
                    let entries = old(self).planets.entries@;
                    if frames_planet(entries, planet) {
                        &&& result == Ok::<_, SceneError>(
                            Some(entries[place_for(entries, planet)].frame),
                        )
                        &&& final(self).planets.entries@ == entries.remove(
                            place_for(entries, planet),
                        )
                    } else {
                        &&& result == Ok::<_, SceneError>(None::<PlanetFrameUniform>)
                        &&& *final(self) == *old(self)
                    }
                },
                Err(error) => {
                    &&& result == Err::<Option<PlanetFrameUniform>, _>(planet_frame_error(error))
                    &&& *final(self) == *old(self)
                },
            },
    {
        match stored {
            Ok(()) => match self.planets.find_planet(planet) {
                Some(place) => Ok(Some(self.planets.take(place))),
                None => Ok(None),
            },
            Err(error) => Err(map_planet_frame_error(error)),
        }
    }

    pub fn clear_planet_frames(&mut self)
        ensures
            old(self).wf() ==> final(self).wf(),
            *final(self) == (Scene { planets: final(self).planets, ..*old(self) }),
            final(self).planets.entries@ == Seq::<PlanetFrameEntry>::empty(),
    {
        self.planets.entries.clear();
    }

    pub fn planet_frame(&self, id: PlanetFrameId) -> (frame: Option<PlanetFrameUniform>)
        requires
            self.wf(),
        ensures
            frame == if names_frame(self.planets.entries@, id) {
                Some(self.planets.entries@[place_of(self.planets.entries@, id)].frame)
            } else {
                None::<PlanetFrameUniform>
            },
    {
        match self.planets.find(id) {
            Some(place) => Some(self.planets.entries[place].frame),
            None => None,
        }
    }

    pub fn planet_frame_for(&self, planet: PlanetId) -> (frame: Option<PlanetFrameUniform>)
        requires
            self.wf(),
        ensures
            frame == if frames_planet(self.planets.entries@, planet) {
                Some(self.planets.entries@[place_for(self.planets.entries@, planet)].frame)
            } else {
                None::<PlanetFrameUniform>
            },
    {
        match self.planets.find_planet(planet) {
            Some(place) => Some(self.planets.entries[place].frame),
            None => None,
        }
    }

    pub fn planet_frame_id(&self, planet: PlanetId) -> (id: Option<PlanetFrameId>)
        requires
            self.wf(),
        ensures
            id == if frames_planet(self.planets.entries@, planet) {
                Some(self.planets.entries@[place_for(self.planets.entries@, planet)].id)
            } else {
                None::<PlanetFrameId>
            },
    {
        match self.planets.find_planet(planet) {
            Some(place) => Some(self.planets.entries[place].id),
            None => None,
        }
    }

    pub fn planet_frames(&self) -> (entries: &Vec<PlanetFrameEntry>)
        ensures
            *entries == self.planets.entries,
    {
        &self.planets.entries
    }
}

} // verus!
