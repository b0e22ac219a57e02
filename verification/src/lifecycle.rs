//! Inserting and removing actors.
use vstd::prelude::*;

use crate::actors::{ActorTarget, SceneActorId};
use crate::errors::{invalid, Result, SceneError};
use crate::frame::{FrameState, SkyContext};
use crate::handles::SceneExtensionEntity;
use crate::scene::Scene;

verus! {

/// What an actor says of itself once it was attached.
#[derive(Clone, Copy, Debug)]
pub struct ActorAttachment {
    /// The sky that it brings, if it brings one.
    pub sky: Option<SkyContext>,
    /// The resource that it inserted, if it inserted one.
    pub target: SceneActorId,
    /// It has behaviour that runs once per frame.
    pub retained: bool,
}

impl Scene {
    /// The identity under which an actor runs: its resource's, unless another actor
    /// already runs under that.
    pub open spec fn execution_id(
        &self,
        target: SceneActorId,
        identity: SceneExtensionEntity,
    ) -> SceneActorId {
        if target != SceneActorId::Nothing && !self.actors.registered(target) {
            target
        } else {
            SceneActorId::Custom(identity)
        }
    }

    /// `after` is `self` with the actor inserted: its sky taken if the scene has none,
    /// and the actor registered to run if it has behaviour.
    pub open spec fn actor_inserted(
        &self,
        after: &Scene,
        actor: ActorAttachment,
        identity: SceneExtensionEntity,
        id: SceneActorId,
    ) -> bool {
        let runs_as = self.execution_id(actor.target, identity);
        &&& *after == (Scene {
            actors: after.actors,
            data: after.data,
            frame: FrameState {
                sky: match self.frame.sky {
                    Some(sky) => Some(sky),
                    None => actor.sky,
                },
                ..self.frame
            },
            ..*self
        })
        &&& if actor.retained {
            &&& after.actors.targets@ == self.actors.targets@.push(
                ActorTarget { id: runs_as, target: actor.target },
            )
            &&& after.actors.retained@ == self.actors.retained@.push(runs_as)
            &&& after.data.policies == self.data.policies
            &&& after.data.subsystems == self.data.subsystems
            &&& if runs_as == actor.target {
                after.data == self.data
            } else {
                exists|none: Vec<u64>|
                    none@.len() == 0 && after.data.entities@ == #[trigger] self.data.entities@.insert(
                        identity,
                        none,
                    )
            }
            &&& id == if actor.target == SceneActorId::Nothing {
                runs_as
            } else {
                actor.target
            }
        } else {
            &&& after.actors == self.actors
            &&& after.data == self.data
            &&& id == actor.target
        }
    }

    /// Inserts an actor that was attached. `identity` is a fresh extension entity, which
    /// names the actor where its resource cannot.
    pub fn insert_actor(&mut self, actor: ActorAttachment, identity: SceneExtensionEntity) -> (id:
        SceneActorId)
        requires
            old(self).wf(),
            !old(self).data.entities.occupies(identity.0.index),
            identity.0.index < usize::MAX,
            old(self).data.entities.spec_len() < u32::MAX,
            !old(self).actors.registered(SceneActorId::Custom(identity)),
        ensures
            final(self).wf(),
            old(self).actor_inserted(final(self), actor, identity, id),
    {
        let ghost before = *self;
        match actor.sky {
            Some(context) => {
                let _ = self.claim_sky_context(context);
            },
            None => {},
        }
        if !actor.retained {
            return actor.target;
        }
        let own: bool = actor.target != SceneActorId::Nothing && !self.actors.is_registered(
            actor.target,
        );
        let runs_as: SceneActorId = if own {
            actor.target
        } else {
            self.data.spawn(identity);
            SceneActorId::Custom(identity)
        };
        proof {
            assert(runs_as == before.execution_id(actor.target, identity));
            if !own && runs_as == actor.target {
                assert(before.actors.registered(SceneActorId::Custom(identity)));
            }
        }
        self.actors.register(runs_as, actor.target);
        if actor.target == SceneActorId::Nothing {
            runs_as
        } else {
            actor.target
        }
    }

    /// What removing the named resource answers.
    pub open spec fn removal_answer(&self, id: SceneActorId) -> Result<()> {
        match id {
            SceneActorId::Nothing => Err(SceneError::InvalidHandle { resource: "actor" }),
            SceneActorId::Custom(_) => if self.actors.concerned(id) {
                Ok(())
            } else {
                Err(SceneError::InvalidHandle { resource: "actor" })
            },
            SceneActorId::Decal(decal) => if self.decals@.contains_key(decal) {
                Ok(())
            } else {
                Err(SceneError::InvalidHandle { resource: "decal" })
            },
            SceneActorId::Mesh(mesh) => if !self.meshes@.contains_key(mesh) {
                Err(SceneError::InvalidHandle { resource: "mesh" })
            } else if self.meshes@[mesh].ref_count > 0 {
                Err(SceneError::ResourceInUse { resource: "mesh" })
            } else {
                Ok(())
            },
            SceneActorId::Light(light) => if self.lights.records@.contains_key(light) {
                Ok(())
            } else {
                Err(SceneError::InvalidHandle { resource: "light" })
            },
            SceneActorId::ReflectionCapture(capture) => if self.reflections.captures@.contains_key(
                capture,
            ) {
                Ok(())
            } else {
                Err(SceneError::InvalidHandle { resource: "reflection capture" })
            },
            SceneActorId::VirtualMesh(mesh) => if !self.virtual_geometry.meshes@.contains_key(
                mesh,
            ) {
                Err(SceneError::InvalidHandle { resource: "virtual_mesh" })
            } else if self.virtual_geometry.meshes@[mesh].ref_count > 0 {
                Err(SceneError::ResourceInUse { resource: "virtual_mesh" })
            } else {
                Ok(())
            },
            SceneActorId::VirtualObject(object) => if self.virtual_geometry.objects@.contains_key(
                object,
            ) {
                Ok(())
            } else {
                Err(SceneError::InvalidHandle { resource: "virtual_object" })
            },
            SceneActorId::Object(object) => if self.sections.instance_of@.contains_key(object) {
                Err(
                    SceneError::InvalidOperation {
                        reason:
                            "object belongs to a sectioned instance; remove the sectioned instance",
                    },
                )
            } else if !self.objects.records@.contains_key(object) {
                Err(SceneError::InvalidHandle { resource: "object" })
            } else {
                Ok(())
            },
            SceneActorId::SectionedObject(instance) => if self.sections.instances@.contains_key(
                instance,
            ) {
                Ok(())
            } else {
                Err(SceneError::InvalidHandle { resource: "sectioned_instance" })
            },
            SceneActorId::WaterVolume(volume) => if self.water.volumes@.contains_key(volume) {
                Ok(())
            } else {
                Err(SceneError::InvalidHandle { resource: "water volume" })
            },
            SceneActorId::WaterHitbox(hitbox) => if self.water.hitboxes@.contains_key(hitbox) {
                Ok(())
            } else {
                Err(SceneError::InvalidHandle { resource: "water hitbox" })
            },
            SceneActorId::PostProcessVolume(volume) => if self.post_process.volumes@.contains_key(
                volume,
            ) {
                Ok(())
            } else {
                Err(SceneError::InvalidHandle { resource: "post-process volume" })
            },
        }
    }

    /// `after` is `self` without the resource that `id` names and without the actors that
    /// belong to it.
    pub open spec fn actor_removed(&self, after: &Scene, id: SceneActorId) -> bool {
        match id {
            SceneActorId::Nothing => false,
            SceneActorId::Custom(_) => {
                &&& *after == (Scene { actors: after.actors, data: after.data, ..*self })
                &&& self.detached(id, after)
            },
            SceneActorId::Decal(decal) => self.decal_removed(after, decal),
            SceneActorId::Mesh(mesh) => {
                &&& *after == (Scene {
                    meshes: after.meshes,
                    actors: after.actors,
                    data: after.data,
                    ..*self
                })
                &&& after.meshes@ == self.meshes@.remove(mesh)
                &&& self.detached(id, after)
            },
            SceneActorId::Light(light) => self.light_removed(after, light),
            SceneActorId::ReflectionCapture(capture) => self.reflection_capture_removed(
                after,
                capture,
            ),
            SceneActorId::VirtualMesh(mesh) => {
                &&& *after == (Scene {
                    virtual_geometry: after.virtual_geometry,
                    actors: after.actors,
                    data: after.data,
                    ..*self
                })
                &&& after.virtual_geometry.meshes@ == self.virtual_geometry.meshes@.remove(mesh)
                &&& after.virtual_geometry.objects == self.virtual_geometry.objects
                &&& self.detached(id, after)
            },
            SceneActorId::VirtualObject(object) => self.virtual_object_removed(after, object),
            SceneActorId::Object(object) => self.object_removed(after, object),
            SceneActorId::SectionedObject(instance) => self.sectioned_object_removed(
                after,
                instance,
            ),
            SceneActorId::WaterVolume(volume) => self.water_volume_removed(after, volume),
            SceneActorId::WaterHitbox(hitbox) => self.water_hitbox_removed(after, hitbox),
            SceneActorId::PostProcessVolume(volume) => self.post_process_volume_removed(
                after,
                volume,
            ),
        }
    }

    /// Removes an actor, and the resource that it stands for if it stands for one.
    #[verifier::spinoff_prover]
    #[verifier::rlimit(40)]
    pub fn remove_actor(&mut self, id: SceneActorId) -> (result: Result<()>)
        requires
            old(self).wf(),
        ensures
            final(self).wf(),
            result == old(self).removal_answer(id),
            if result is Ok {
                old(self).actor_removed(final(self), id)
            } else {
                *final(self) == *old(self)
            },
    {
        let ghost before = *self;
        match id {
            SceneActorId::Nothing => Err(invalid("actor")),
            SceneActorId::Custom(_) => {
                if self.actors_concerned(id) {
                    self.detach_actors_for_target(id);
                    Ok(())
                } else {
                    Err(invalid("actor"))
                }
            },
            SceneActorId::Decal(decal) => {
                if self.remove_decal(decal) {
                    Ok(())
                } else {
                    Err(invalid("decal"))
                }
            },
            SceneActorId::Mesh(mesh) => {
                match self.remove_mesh(mesh) {
                    Ok(()) => {
                        self.detach_actors_for_target(id);
                        Ok(())
                    },
                    Err(error) => Err(error),
                }
            },
            SceneActorId::Light(light) => self.remove_light(light),
            SceneActorId::ReflectionCapture(capture) => {
                if self.remove_reflection_capture(capture) {
                    Ok(())
                } else {
                    Err(invalid("reflection capture"))
                }
            },
            SceneActorId::VirtualMesh(mesh) => {
                match self.remove_virtual_mesh(mesh) {
                    Ok(()) => {
                        self.detach_actors_for_target(id);
                        Ok(())
                    },
                    Err(error) => Err(error),
                }
            },
            SceneActorId::VirtualObject(object) => self.remove_virtual_object(object),
            SceneActorId::Object(object) => self.remove_object(object),
            SceneActorId::SectionedObject(instance) => self.remove_sectioned_object(instance),
            SceneActorId::WaterVolume(volume) => self.remove_water_volume(volume),
            SceneActorId::WaterHitbox(hitbox) => self.remove_water_hitbox(hitbox),
            SceneActorId::PostProcessVolume(volume) => self.remove_post_process_volume(volume),
        }
    }

    /// Whether some actor is `target` or belongs to it.
    fn actors_concerned(&self, target: SceneActorId) -> (concerned: bool)
        ensures
            concerned == self.actors.concerned(target),
    {
        let mut i: usize = 0;
        while i < self.actors.targets.len()
            invariant
                0 <= i <= self.actors.targets@.len(),
                forall|j: int|
                    0 <= j < i ==> !(#[trigger] self.actors.targets@[j]).concerns(target),
            decreases self.actors.targets@.len() - i,
        {
            let entry: ActorTarget = self.actors.targets[i];
            if entry.id == target || entry.target == target {
                assert(self.actors.targets@[i as int].concerns(target));
                return true;
            }
            i = i + 1;
        }
        false
    }
}

} // verus!
