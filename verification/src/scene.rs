//! The scene's state.
use vstd::prelude::*;

use crate::actors::{
    lemma_filter_contains, registered_only, without_target, ActorTarget, Actors, SceneActorId,
};
use crate::decals::Decals;
use crate::draws::MaterialFlagBits;
use crate::extension::{SceneData, SceneDataError};
use crate::foliage::Foliage;
use crate::frame::FrameState;
use crate::groups::GroupMask;
use crate::handles::{MaterialId, MeshId, SceneExtensionEntity, TextureId};
use crate::lights::Lights;
use crate::materials::{
    flags_cached, keys_differ, textures_linked, MaterialRecord, TextureRecord, MATERIAL_LIMIT,
};
use crate::objects::Objects;
use crate::planar_reflections::PlanarReflectors;
use crate::planet_frames::PlanetFrames;
use crate::post_process::PostProcess;
use crate::presentation::ScenePresentation;
use crate::references::{materials_linked, meshes_linked, MeshRecord};
use crate::reflections::Reflections;
use crate::sdf::SdfEdits;
use crate::sectioned::Sections;
use crate::spaces::Spaces;
use crate::sparse_set::SparseSet;
use crate::sprites::Sprites;
use crate::virtual_geometry::VirtualGeometry;
use crate::voxels::Voxels;
use crate::water::Water;

verus! {

/// Everything the scene layer keeps: the authored records, and what is derived from
/// them for the renderer.
pub struct Scene {
    pub actors: Actors,
    pub data: SceneData,
    pub lights: Lights,
    pub decals: Decals,
    pub water: Water,
    pub post_process: PostProcess,
    pub reflections: Reflections,
    pub planar_reflectors: PlanarReflectors,
    pub textures: SparseSet<TextureId, TextureRecord>,
    pub materials: SparseSet<MaterialId, MaterialRecord>,
    /// Feature flags by GPU material row.
    pub material_flags: Vec<u32>,
    /// Which feature flags the scene layer reads.
    pub flag_bits: MaterialFlagBits,
    pub meshes: SparseSet<MeshId, MeshRecord>,
    pub objects: Objects,
    pub sections: Sections,
    pub virtual_geometry: VirtualGeometry,
    pub foliage: Foliage,
    pub spaces: Spaces,
    pub voxels: Voxels,
    pub sprites: Sprites,
    pub sdf: SdfEdits,
    pub planets: PlanetFrames,
    pub presentation: ScenePresentation,
    pub frame: FrameState,
    /// State of the graph sources at the last flush.
    pub published_graph_epoch: u64,
    pub hidden_groups: GroupMask,
    /// Static geometry, lights or captures changed since the last bake.
    pub bake_invalidated: bool,
}

impl Scene {
    pub open spec fn wf(&self) -> bool {
        &&& self.actors.wf()
        &&& self.data.wf()
        &&& self.lights.wf()
        &&& self.decals.wf()
        &&& self.water.wf()
        &&& self.post_process.wf()
        &&& self.reflections.wf()
        &&& self.planar_reflectors.wf()
        &&& self.assets_wf()
        &&& self.objects.wf(self.hidden_groups)
        &&& self.sections.wf(self.objects.records@, self.meshes@)
        &&& self.virtual_geometry.wf(self.hidden_groups)
        &&& self.foliage.wf()
        &&& self.spaces.wf()
        &&& self.voxels.wf()
        &&& self.sprites.wf()
        &&& self.sdf.wf()
        &&& self.planets.wf()
    }

    /// Assets are where their users expect them, and count those users.
    pub open spec fn assets_wf(&self) -> bool {
        &&& self.textures.wf()
        &&& self.materials.wf()
        &&& self.meshes.wf()
        &&& self.materials.spec_len() <= MATERIAL_LIMIT
        &&& self.material_user_count() < u32::MAX
        &&& keys_differ(self.textures@)
        &&& textures_linked(self.textures, self.materials.value_by_slot@)
        &&& flags_cached(self.materials.value_by_slot@, self.material_flags@)
        &&& meshes_linked(self.meshes@, self.objects.spec_values())
        &&& materials_linked(
            self.materials@,
            self.objects.spec_values(),
            self.virtual_geometry.spec_values(),
            self.foliage.spec_types(),
        )
    }

    /// Number of objects, virtual objects and foliage types: what uses materials.
    pub open spec fn material_user_count(&self) -> nat {
        self.objects.records.spec_len() + self.virtual_geometry.objects.spec_len()
            + self.foliage.types.spec_len()
    }

    /// `after` differs from `self` in that every actor that concerns `target` is
    /// gone, and with it the entity that named it.
    pub open spec fn detached(&self, target: SceneActorId, after: &Scene) -> bool {
        &&& self.actors.detached(target, &after.actors)
        &&& after.data.policies == self.data.policies
        &&& after.data.subsystems == self.data.subsystems
        &&& after.data.entities@ == self.data.entities@.remove_keys(
            actor_entities(self.actors.targets@, target),
        )
    }

    /// `after` differs from `self` in that `gone` was detached, one after the other.
    pub open spec fn detached_all(&self, gone: Seq<SceneActorId>, after: &Scene) -> bool {
        &&& after.actors.targets@ == targets_without(self.actors.targets@, gone)
        &&& after.actors.retained@ == retained_without(
            self.actors.retained@,
            self.actors.targets@,
            gone,
        )
        &&& after.data.policies == self.data.policies
        &&& after.data.subsystems == self.data.subsystems
        &&& after.data.entities@ == entities_without(
            self.data.entities@,
            self.actors.targets@,
            gone,
        )
    }

    /// One more detached target.
    pub proof fn lemma_detached_one_more(
        &self,
        gone: Seq<SceneActorId>,
        between: &Scene,
        target: SceneActorId,
        after: &Scene,
    )
        requires
            self.detached_all(gone, between),
            between.detached(target, after),
        ensures
            self.detached_all(gone.push(target), after),
    {
        assert(gone.push(target).drop_last() =~= gone);
        assert(between.actors.concerned(target) == concerns_some(
            between.actors.targets@,
            target,
        ));
    }

    /// Detaches every actor that is `target` or belongs to it, and tells whether
    /// there was one.
    pub fn detach_actors_for_target(&mut self, target: SceneActorId) -> (found: bool)
        requires
            old(self).actors.wf(),
            old(self).data.wf(),
        ensures
            final(self).actors.wf(),
            final(self).data.wf(),
            *final(self) == (Scene {
                actors: final(self).actors,
                data: final(self).data,
                ..*old(self)
            }),
            old(self).detached(target, final(self)),
            found == old(self).actors.concerned(target),
    {
        let ghost before = *self;
        let removed: Vec<SceneActorId> = self.actors.detach(target);
        let ghost gone = actor_entities(before.actors.targets@, target);
        let ghost left = self.actors;
        let mut i: usize = 0;
        while i < removed.len()
            invariant
                0 <= i <= removed@.len(),
                self.data.wf(),
                self.data.policies == before.data.policies,
                self.data.subsystems == before.data.subsystems,
                *self == (Scene { actors: left, data: self.data, ..before }),
                self.data.entities@ == before.data.entities@.remove_keys(
                    named(removed@.take(i as int)),
                ),
            decreases removed@.len() - i,
        {
            let ghost seen = removed@.take(i as int);
            let ghost now = removed@.take(i + 1);
            proof {
                assert(now =~= seen.push(removed@[i as int]));
            }
            match removed[i].as_custom() {
                Some(entity) => {
                    self.data.forget(entity);
                    proof {
                        lemma_named_push(seen, removed@[i as int]);
                        assert(self.data.entities@ =~= before.data.entities@.remove_keys(
                            named(now),
                        ));
                    }
                },
                None => {
                    proof {
                        lemma_named_push(seen, removed@[i as int]);
                        assert(named(now) =~= named(seen));
                    }
                },
            }
            i = i + 1;
        }
        proof {
            assert(removed@.take(i as int) =~= removed@);
            lemma_removed_names(before.actors.targets@, target, removed@);
            assert(named(removed@) =~= gone);
        }
        removed.len() > 0
    }

    /// `after` differs from `self` in that `entity` was despawned. Where an actor is
    /// named by it or belongs to it, those actors go, with the entities that name them.
    pub open spec fn despawned(&self, entity: SceneExtensionEntity, after: &Scene) -> bool {
        let target = SceneActorId::Custom(entity);
        &&& *after == (Scene { actors: after.actors, data: after.data, ..*self })
        &&& self.actors.detached(target, &after.actors)
        &&& after.data.policies == self.data.policies
        &&& after.data.subsystems == self.data.subsystems
        &&& after.data.entities@ == if self.actors.concerned(target) {
            self.data.entities@.remove_keys(actor_entities(self.actors.targets@, target))
        } else {
            self.data.entities@.remove(entity)
        }
    }

    /// Despawns an extension entity. An actor that it names, or that belongs to it, goes
    /// with it.
    pub fn despawn(&mut self, entity: SceneExtensionEntity) -> (result: core::result::Result<
        (),
        SceneDataError,
    >)
        requires
            old(self).wf(),
        ensures
            final(self).wf(),
            if !old(self).data.entities@.contains_key(entity) {
                &&& result == Err::<(), _>(SceneDataError::InvalidEntity)
                &&& *final(self) == *old(self)
            } else {
                &&& result == Ok::<(), SceneDataError>(())
                &&& old(self).despawned(entity, final(self))
            },
    {
        if !self.data.is_alive(entity) {
            return Err(SceneDataError::InvalidEntity);
        }
        let ghost before = *self;
        let ghost target = SceneActorId::Custom(entity);
        if !self.detach_actors_for_target(SceneActorId::Custom(entity)) {
            proof {
                assert(actor_entities(before.actors.targets@, target) =~= Set::empty());
                assert(before.data.entities@.remove_keys(Set::empty()) =~= before.data.entities@);
            }
            self.data.forget(entity);
        }
        Ok(())
    }
}

/// `entity` is the identity of an actor in `targets` that concerns `target`.
pub open spec fn names_actor_of(
    targets: Seq<ActorTarget>,
    target: SceneActorId,
    entity: SceneExtensionEntity,
) -> bool {
    exists|i: int|
        0 <= i < targets.len() && (#[trigger] targets[i]).concerns(target) && targets[i].id
            == SceneActorId::Custom(entity)
}

/// The identities of the actors in `targets` that concern `target`.
pub open spec fn actor_entities(targets: Seq<ActorTarget>, target: SceneActorId) -> Set<
    SceneExtensionEntity,
> {
    Set::new(|e: SceneExtensionEntity| names_actor_of(targets, target, e))
}

/// Some entry of `targets` concerns `target`.
pub open spec fn concerns_some(targets: Seq<ActorTarget>, target: SceneActorId) -> bool {
    exists|i: int| 0 <= i < targets.len() && (#[trigger] targets[i]).concerns(target)
}

/// The entries that concern none of `gone`, in order.
pub open spec fn targets_without(targets: Seq<ActorTarget>, gone: Seq<SceneActorId>) -> Seq<
    ActorTarget,
>
    decreases gone.len(),
{
    if gone.len() == 0 {
        targets
    } else {
        without_target(targets_without(targets, gone.drop_last()), gone.last())
    }
}

/// The actors that still run once `gone` was detached, in order.
pub open spec fn retained_without(
    retained: Seq<SceneActorId>,
    targets: Seq<ActorTarget>,
    gone: Seq<SceneActorId>,
) -> Seq<SceneActorId>
    decreases gone.len(),
{
    if gone.len() == 0 {
        retained
    } else {
        let rest = retained_without(retained, targets, gone.drop_last());
        if concerns_some(targets_without(targets, gone.drop_last()), gone.last()) {
            registered_only(rest, targets_without(targets, gone))
        } else {
            rest
        }
    }
}

/// The extension entities that are left once `gone` was detached.
pub open spec fn entities_without(
    entities: Map<SceneExtensionEntity, Vec<u64>>,
    targets: Seq<ActorTarget>,
    gone: Seq<SceneActorId>,
) -> Map<SceneExtensionEntity, Vec<u64>>
    decreases gone.len(),
{
    if gone.len() == 0 {
        entities
    } else {
        entities_without(entities, targets, gone.drop_last()).remove_keys(
            actor_entities(targets_without(targets, gone.drop_last()), gone.last()),
        )
    }
}

proof fn lemma_removed_names(
    targets: Seq<ActorTarget>,
    target: SceneActorId,
    removed: Seq<SceneActorId>,
)
    requires
        removed == targets.filter(|t: ActorTarget| t.concerns(target)).map_values(
            |t: ActorTarget| t.id,
        ),
    ensures
        forall|e: SceneExtensionEntity|
            named(removed).contains(e) <==> names_actor_of(targets, target, e),
{
    let keep = |t: ActorTarget| t.concerns(target);
    let entries = targets.filter(keep);
    assert forall|e: SceneExtensionEntity|
        named(removed).contains(e) <==> names_actor_of(targets, target, e) by {
        if named(removed).contains(e) {
            let k = removed.index_of(SceneActorId::Custom(e));
            assert(removed[k] == SceneActorId::Custom(e));
            let entry = entries[k];
            assert(entries.contains(entry));
            lemma_filter_contains(targets, keep, entry);
            let i = targets.index_of(entry);
            assert(targets[i] == entry);
        }
        if names_actor_of(targets, target, e) {
            let i = choose|i: int|
                0 <= i < targets.len() && (#[trigger] targets[i]).concerns(target)
                    && targets[i].id == SceneActorId::Custom(e);
            let entry = targets[i];
            assert(targets.contains(entry));
            lemma_filter_contains(targets, keep, entry);
            let k = entries.index_of(entry);
            assert(removed[k] == SceneActorId::Custom(e));
        }
    }
}

/// The entities that `list` names.
spec fn named(list: Seq<SceneActorId>) -> Set<SceneExtensionEntity> {
    Set::new(|e: SceneExtensionEntity| list.contains(SceneActorId::Custom(e)))
}

proof fn lemma_named_push(list: Seq<SceneActorId>, id: SceneActorId)
    ensures
        forall|e: SceneExtensionEntity|
            named(list.push(id)).contains(e) <==> named(list).contains(e) || id
                == SceneActorId::Custom(e),
{
    assert forall|e: SceneExtensionEntity|
        named(list.push(id)).contains(e) <==> named(list).contains(e) || id
            == SceneActorId::Custom(e) by {
        let x = SceneActorId::Custom(e);
        if list.contains(x) {
            assert(list.push(id)[list.index_of(x)] == x);
        }
        if id == x {
            assert(list.push(id)[list.len() as int] == x);
        }
        if list.push(id).contains(x) {
            let i = list.push(id).index_of(x);
            if i < list.len() {
                assert(list[i] == x);
            }
        }
    }
}

} // verus!
