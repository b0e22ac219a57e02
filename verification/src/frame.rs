//! The frame: camera, render size, sky, and the step to the next frame.
use vstd::prelude::*;

use crate::actors::{registered_only, SceneActorId};
use crate::float_bits::F32;
use crate::handles::ObjectId;
use crate::objects::{ObjectRecord, Objects};
use crate::scene::Scene;
use crate::spaces::Spaces;

verus! {

/// What the sky looks like. A scene without a sky has the default.
#[derive(Clone, Copy, Debug)]
pub struct SkyContext {
    pub has_sky: bool,
    pub sky_color: [F32; 3],
    /// Atmosphere, sun and clouds, packed.
    pub body: [u32; 24],
}

/// The sky of a scene that has none: nothing is set.
pub open spec fn no_sky(context: SkyContext) -> bool {
    &&& !context.has_sky
    &&& forall|i: int| 0 <= i < 3 ==> (#[trigger] context.sky_color[i]).bits == 0
    &&& forall|i: int| 0 <= i < 24 ==> #[trigger] context.body[i] == 0
}

impl Default for SkyContext {
    fn default() -> (context: Self)
        ensures
            no_sky(context),
    {
        let zero = F32 { bits: 0 };
        SkyContext { has_sky: false, sky_color: [zero; 3], body: [0; 24] }
    }
}

pub struct FrameState {
    /// What the first actor with a sky brought.
    pub sky: Option<SkyContext>,
    /// View and projection of the last camera, jitter included.
    pub prev_view_proj: [F32; 16],
    /// Advances with every camera.
    pub camera_generation: u64,
    pub frame_count: u64,
    pub width: u32,
    pub height: u32,
}

/// What a camera's uniforms take from the scene.
#[derive(Clone, Copy, Debug)]
pub struct CameraHistory {
    pub frame: u32,
    pub prev_view_proj: [F32; 16],
}

/// Objects as they are once a frame has ended: where they stand is their past.
pub open spec fn settled(values: Seq<ObjectRecord>) -> Seq<ObjectRecord> {
    values.map_values(|record: ObjectRecord| ObjectRecord { previous: record.pose, ..record })
}

impl Scene {
    /// `after` is `self` with another camera; `history` tells the frame and the camera before.
    pub open spec fn camera_moved(
        &self,
        after: &Scene,
        view_proj: [F32; 16],
        history: CameraHistory,
    ) -> bool {
        &&& history.frame == (self.frame.frame_count % 0x1_0000_0000) as u32
        &&& history.prev_view_proj == self.frame.prev_view_proj
        &&& *after == (Scene {
            frame: FrameState {
                prev_view_proj: view_proj,
                camera_generation: self.frame.camera_generation.wrapping_add(1),
                ..self.frame
            },
            ..*self
        })
    }

    /// Takes a camera over and returns what its uniforms need: the frame, and where the
    /// camera before it looked.
    pub fn update_camera(&mut self, view_proj: [F32; 16]) -> (history: CameraHistory)
        ensures
            old(self).wf() ==> final(self).wf(),
            old(self).camera_moved(final(self), view_proj, history),
    {
        let history = CameraHistory {
            frame: (self.frame.frame_count % 0x1_0000_0000) as u32,
            prev_view_proj: self.frame.prev_view_proj,
        };
        self.frame.prev_view_proj = view_proj;
        self.frame.camera_generation = self.frame.camera_generation.wrapping_add(1);
        history
    }

    /// Takes the cameras of both eyes over; the left one is what the next frame looks
    /// back at.
    pub fn update_stereo_cameras(&mut self, left_view_proj: [F32; 16])
        ensures
            old(self).wf() ==> final(self).wf(),
            *final(self) == (Scene {
                frame: FrameState {
                    prev_view_proj: left_view_proj,
                    camera_generation: old(self).frame.camera_generation.wrapping_add(1),
                    ..old(self).frame
                },
                ..*old(self)
            }),
    {
        self.frame.prev_view_proj = left_view_proj;
        self.frame.camera_generation = self.frame.camera_generation.wrapping_add(1);
    }

    pub fn set_render_size(&mut self, width: u32, height: u32)
        ensures
            old(self).wf() ==> final(self).wf(),
            *final(self) == (Scene {
                frame: FrameState { width, height, ..old(self).frame },
                ..*old(self)
            }),
    {
        self.frame.width = width;
        self.frame.height = height;
    }

    /// `after` is `self` with `context` for a sky, if there was none.
    pub open spec fn sky_claimed(&self, after: &Scene, context: SkyContext, claimed: bool) -> bool {
        &&& claimed == (self.frame.sky is None)
        &&& *after == (Scene {
            frame: FrameState {
                sky: if claimed {
                    Some(context)
                } else {
                    self.frame.sky
                },
                ..self.frame
            },
            ..*self
        })
    }

    /// Gives the scene a sky, unless it has one.
    pub fn claim_sky_context(&mut self, context: SkyContext) -> (claimed: bool)
        ensures
            old(self).wf() ==> final(self).wf(),
            old(self).sky_claimed(final(self), context, claimed),
    {
        if self.frame.sky.is_some() {
            return false;
        }
        self.frame.sky = Some(context);
        true
    }

    /// `after` is `self` with `context` for a sky, if there was one.
    pub open spec fn sky_updated(&self, after: &Scene, context: SkyContext, updated: bool) -> bool {
        &&& updated == (self.frame.sky is Some)
        &&& *after == (Scene {
            frame: FrameState {
                sky: if updated {
                    Some(context)
                } else {
                    None
                },
                ..self.frame
            },
            ..*self
        })
    }

    /// Replaces the sky of a scene that has one.
    pub fn update_sky_context(&mut self, context: SkyContext) -> (updated: bool)
        ensures
            old(self).wf() ==> final(self).wf(),
            old(self).sky_updated(final(self), context, updated),
    {
        if self.frame.sky.is_none() {
            return false;
        }
        self.frame.sky = Some(context);
        true
    }

    /// The sky as it is drawn.
    pub fn sky_context(&self) -> (context: SkyContext)
        ensures
            match self.frame.sky {
                Some(sky) => context == sky,
                None => no_sky(context),
            },
    {
        match self.frame.sky {
            Some(sky) => sky,
            None => SkyContext::default(),
        }
    }

    /// Starts a frame: the actors to run, in order. Those that register meanwhile wait
    /// for the next one.
    pub fn begin_frame(&mut self) -> (running: Vec<SceneActorId>)
        requires
            old(self).wf(),
        ensures
            final(self).wf(),
            *final(self) == (Scene { actors: final(self).actors, ..*old(self) }),
            running@ == old(self).actors.retained@,
            running@.no_duplicates(),
            final(self).actors.retained@ == Seq::<SceneActorId>::empty(),
            final(self).actors.targets@ == old(self).actors.targets@,
    {
        self.actors.begin_frame()
    }

    /// Whether an actor that was to run is still wanted.
    pub fn actor_runs(&self, id: SceneActorId) -> (runs: bool)
        ensures
            runs == self.actors.registered(id),
    {
        self.actors.is_registered(id)
    }

    /// `after` is `self` a frame later.
    pub open spec fn frame_advanced(&self, after: &Scene, running: Seq<SceneActorId>) -> bool {
        &&& *after == (Scene {
            actors: after.actors,
            objects: after.objects,
            spaces: after.spaces,
            frame: FrameState {
                frame_count: self.frame.frame_count.wrapping_add(1),
                ..self.frame
            },
            ..*self
        })
        &&& after.actors.targets@ == self.actors.targets@
        &&& after.actors.retained@ == registered_only(running, self.actors.targets@)
            + self.actors.retained@
        &&& after.objects == (Objects { records: after.objects.records, ..self.objects })
        &&& after.objects.records.id_by_slot == self.objects.records.id_by_slot
        &&& after.objects.spec_values() == settled(self.objects.spec_values())
        &&& after.spaces == (Spaces { history: after.spaces.history, ..self.spaces })
        &&& after.spaces.history.current@ == self.spaces.history.current@
        &&& after.spaces.history.previous@ == self.spaces.history.current@
    }

    /// Ends a frame. Of the actors that ran, those that are still wanted run again,
    /// before the ones that registered meanwhile; where things stand becomes their past.
    #[verifier::spinoff_prover]
    pub fn advance_frame(&mut self, running: &Vec<SceneActorId>)
        requires
            old(self).wf(),
            running@.no_duplicates(),
            forall|i: int|
                0 <= i < running@.len() && old(self).actors.registered(#[trigger] running@[i])
                    ==> !old(self).actors.retained@.contains(running@[i]),
        ensures
            final(self).wf(),
            old(self).frame_advanced(final(self), running@),
    {
        self.actors.end_frame(running);
        let ghost before = *self;
        let ghost values = self.objects.spec_values();
        let mut i: usize = 0;
        while i < self.objects.records.id_by_slot.len()
            invariant
                0 <= i <= values.len(),
                self.wf(),
                values == before.objects.spec_values(),
                *self == (Scene { objects: self.objects, ..before }),
                self.objects == (Objects { records: self.objects.records, ..before.objects }),
                self.objects.records.id_by_slot == before.objects.records.id_by_slot,
                self.objects.spec_values().len() == values.len(),
                forall|j: int|
                    0 <= j < values.len() ==> #[trigger] self.objects.spec_values()[j] == if j
                        < i {
                        settled(values)[j]
                    } else {
                        values[j]
                    },
            decreases values.len() - i,
        {
            let id: ObjectId = self.objects.records.id_by_slot[i];
            let record: ObjectRecord = self.objects.records.value_by_slot[i];
            proof {
                self.objects.records.lemma_dense(i as int);
                assert(record == values[i as int]);
            }
            let generation: u64 = self.objects.movable_generation;
            self.edit_object(id, ObjectRecord { previous: record.pose, ..record }, generation);
            i = i + 1;
        }
        assert(self.objects.spec_values() =~= settled(values));
        let ghost moved = *self;
        self.spaces.history.advance_frame();
        proof {
            moved.spaces.lemma_history_advanced(&self.spaces);
        }
        self.frame.frame_count = self.frame.frame_count.wrapping_add(1);
    }
}

impl Spaces {
    proof fn lemma_history_advanced(&self, after: &Spaces)
        requires
            self.wf(),
            *after == (Spaces { history: after.history, ..*self }),
            after.history.current@ == self.history.current@,
            after.history.previous@ == self.history.current@,
        ensures
            after.wf(),
    {
        assert(after.ordered() == self.ordered());
        assert forall|row: int|
            0 <= row < after.field.capacity && !after.owned(
                row,
            ) implies #[trigger] after.history.current@[row] == crate::spaces::identity()
            && after.history.previous@[row] == crate::spaces::identity() by {
            assert(!self.owned(row)) by {
                assert forall|i: int| 0 <= i < self.sublevels.spec_len() implies #[trigger] self.sublevels.value_by_slot@[i].row
                    != row by {
                    assert(after.sublevels.value_by_slot@[i].row != row);
                }
            }
            assert(self.history.current@[row] == crate::spaces::identity());
        }
    }
}

/// Two flushes or any number of them without a frame between keep the past apart from
/// the present: only the end of a frame makes where a space stands its past.
pub proof fn lemma_frame_settles_history(
    before: Scene,
    after: Scene,
    running: Seq<SceneActorId>,
    row: int,
)
    requires
        before.wf(),
        before.frame_advanced(&after, running),
        0 <= row < before.spaces.field.capacity,
    ensures
        after.spaces.history.previous@[row] == after.spaces.history.current@[row],
        after.spaces.history.current@[row] == before.spaces.history.current@[row],
{
}

} // verus!
